//! An authorization-gated counter record store addressed by deterministic,
//! owner-derived identifiers.
//!
//! Each distinct owner identity gets exactly one counter record, located at an
//! address derived from the owner's public identity and a fixed namespace tag.
//! Records are created once and then mutated only by their owner, one
//! increment at a time, with overflow rejected rather than wrapped.

pub mod address;
pub mod constants;
pub mod error;
pub mod instructions;
pub mod pubkey;
pub mod state;
pub mod store;

use vstd::prelude::*;
use crate::address::derive_addr;
use crate::error::CourseError;
use crate::instructions::{Increment, Initialize};
use crate::pubkey::Pubkey;
use crate::store::{CounterStore, create_ok, create_post, increment_post, increment_result};

verus! {

/// Program entry point for the create instruction; see
/// [`instructions::initialize::handler`].
pub fn initialize(store: &mut CounterStore, ctx: &Initialize) -> (r: Result<Pubkey, CourseError>)
    requires
        old(store).wf(),
        ctx.authority.wf(),
    ensures
        final(store).wf(),
        final(store).tag() == old(store).tag(),
        final(store).contents() == create_post(
            old(store).contents(),
            old(store).tag(),
            ctx.authority@,
        ),
        r is Ok <==> create_ok(old(store).contents(), old(store).tag(), ctx.authority@),
        r matches Ok(k) ==> k@ == derive_addr(old(store).tag(), ctx.authority@) && k.wf(),
        r matches Err(e) ==> e == CourseError::AlreadyInitialized,
{
    instructions::initialize::handler(store, ctx)
}

/// Program entry point for the increment instruction; see
/// [`instructions::increment::handler`].
pub fn increment(store: &mut CounterStore, ctx: &Increment) -> (r: Result<u64, CourseError>)
    requires
        old(store).wf(),
        old(store).contents().contains_key(ctx.counter@),
    ensures
        final(store).wf(),
        final(store).tag() == old(store).tag(),
        r == increment_result(old(store).contents(), ctx.counter@, ctx.authority@),
        final(store).contents() == increment_post(
            old(store).contents(),
            ctx.counter@,
            ctx.authority@,
        ),
{
    instructions::increment::handler(store, ctx)
}

} // verus!
