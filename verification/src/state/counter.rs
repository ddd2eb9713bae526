//! The counter record and its one mutation.
//!
//! A record binds an owner identity to a monotonically non-decreasing count
//! and the disambiguation seed its address was derived with. The owner is set
//! once at creation and never changes; the count moves only through
//! [`Counter::increment`], by exactly one, and never wraps.

use vstd::prelude::*;
use crate::error::CourseError;
use crate::pubkey::Pubkey;

verus! {

/// Bytes a record occupies at rest: an 8-byte framing discriminator, the
/// 32-byte owner identity, the 8-byte count and the 1-byte seed.
pub const RECORD_SPACE: usize = 8 + 32 + 8 + 1;

/// The per-owner persisted record.
pub struct Counter {
    /// The authority who can increment this counter.
    pub authority: Pubkey,
    /// The current count value.
    pub count: u64,
    /// The disambiguation seed the record's address was derived with
    /// (stored to avoid re-derivation).
    pub bump: u8,
}

/// The mathematical shape of a record: its fields as plain values.
#[verifier::ext_equal]
pub ghost struct CounterView {
    pub authority: Seq<u8>,
    pub count: u64,
    pub bump: u8,
}

impl View for Counter {
    type V = CounterView;

    open spec fn view(&self) -> CounterView {
        CounterView { authority: self.authority@, count: self.count, bump: self.bump }
    }
}

/// What an increment request against record `c` by `req` returns: the new
/// count on success, `Unauthorized` for a foreign requester, `Overflow` at
/// the representable maximum. The authorization gate is checked first.
pub open spec fn counter_increment_result(c: CounterView, req: Seq<u8>) -> Result<u64, CourseError> {
    if c.authority != req {
        Err(CourseError::Unauthorized)
    } else if c.count == u64::MAX {
        Err(CourseError::Overflow)
    } else {
        Ok((c.count + 1) as u64)
    }
}

/// The record after an increment request: the count moves up by exactly one
/// on success, and nothing changes on a refused request.
pub open spec fn counter_increment_post(c: CounterView, req: Seq<u8>) -> CounterView {
    if c.authority == req && c.count < u64::MAX {
        (CounterView { count: (c.count + 1) as u64, ..c })
    } else {
        c
    }
}

impl Counter {
    /// A record is well formed when its owner identity has full width.
    pub open spec fn wf(&self) -> bool {
        self.authority.wf()
    }

    /// Increments the count by exactly one, refusing a requester other than
    /// the owner and refusing to wrap past the maximum; on any refusal the
    /// record is left completely unmodified.
    pub fn increment(&mut self, requester: &Pubkey) -> (r: Result<u64, CourseError>)
        ensures
            r == counter_increment_result(old(self)@, requester@),
            final(self)@ == counter_increment_post(old(self)@, requester@),
    {
        if !self.authority.equals(requester) {
            return Err(CourseError::Unauthorized);
        }
        match self.count.checked_add(1) {
            Some(n) => {
                self.count = n;
                Ok(n)
            },
            None => Err(CourseError::Overflow),
        }
    }
}

} // verus!
