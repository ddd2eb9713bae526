//! The create instruction: births a record for the signing authority.

use vstd::prelude::*;
use crate::address::derive_addr;
use crate::error::CourseError;
use crate::pubkey::Pubkey;
use crate::store::{CounterStore, create_ok, create_post};

verus! {

/// The context of a create request: the identity that will own the record.
pub struct Initialize {
    /// The signing authority; the new record is bound to it.
    pub authority: Pubkey,
}

/// Creates the counter record for the request's authority at its derived
/// address: refused with `AlreadyInitialized` if that address is occupied,
/// otherwise installs an owner-bound record with count zero and returns the
/// address.
pub fn handler(store: &mut CounterStore, ctx: &Initialize) -> (r: Result<Pubkey, CourseError>)
    requires
        old(store).wf(),
        ctx.authority.wf(),
    ensures
        final(store).wf(),
        final(store).tag() == old(store).tag(),
        final(store).contents() == create_post(
            old(store).contents(),
            old(store).tag(),
            ctx.authority@,
        ),
        r is Ok <==> create_ok(old(store).contents(), old(store).tag(), ctx.authority@),
        r matches Ok(k) ==> k@ == derive_addr(old(store).tag(), ctx.authority@) && k.wf(),
        r matches Err(e) ==> e == CourseError::AlreadyInitialized,
{
    store.create(&ctx.authority)
}

} // verus!
