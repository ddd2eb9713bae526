//! The error taxonomy of the record store.
//!
//! Every error is terminal for the triggering call and is detected before any
//! mutation, so no operation leaves a record partially updated.

use vstd::prelude::*;

verus! {

/// Why a create or increment request was refused.
#[derive(Clone, Copy, Debug, PartialEq, Eq, Structural)]
pub enum CourseError {
    /// Create was called against an address that already holds a record.
    AlreadyInitialized,
    /// The requester's identity does not match the record's owner.
    Unauthorized,
    /// The counter is already at the maximum representable value.
    Overflow,
}

} // verus!
