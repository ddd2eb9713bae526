//! The two instructions a caller can request.

pub mod increment;
pub mod initialize;

pub use increment::Increment;
pub use initialize::Initialize;
