//! The increment instruction: an authorized step of the counter.

use vstd::prelude::*;
use crate::error::CourseError;
use crate::pubkey::Pubkey;
use crate::store::{CounterStore, increment_post, increment_result};

verus! {

/// The context of an increment request: the record's address and the
/// identity claiming the right to move its count.
pub struct Increment {
    /// The address of the record to increment.
    pub counter: Pubkey,
    /// The identity requesting the increment.
    pub authority: Pubkey,
}

/// Increments the addressed record on behalf of the request's authority.
/// The authorization gate runs before any write: a foreign requester is
/// refused with `Unauthorized`, a counter at the representable maximum with
/// `Overflow`, and in both cases the store is left unchanged.
pub fn handler(store: &mut CounterStore, ctx: &Increment) -> (r: Result<u64, CourseError>)
    requires
        old(store).wf(),
        old(store).contents().contains_key(ctx.counter@),
    ensures
        final(store).wf(),
        final(store).tag() == old(store).tag(),
        r == increment_result(old(store).contents(), ctx.counter@, ctx.authority@),
        final(store).contents() == increment_post(
            old(store).contents(),
            ctx.counter@,
            ctx.authority@,
        ),
{
    store.increment(&ctx.counter, &ctx.authority)
}

} // verus!
