//! Persisted record state.

pub mod counter;

pub use counter::Counter;
pub use counter::CounterView;
pub use counter::counter_increment_result;
pub use counter::counter_increment_post;
pub use counter::RECORD_SPACE;
