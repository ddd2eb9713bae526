//! The address deriver.
//!
//! A record's address is a pure function of the namespace tag and the owner
//! identity, together with a disambiguation seed ("bump") found by a bounded
//! downward search. Derived addresses always carry an odd final byte, while
//! only even-final-byte values can stand as freestanding identities, so a
//! derived record address can never be confused with an identity.

use vstd::prelude::*;
use crate::pubkey::{Pubkey, KEY_LEN};

verus! {

/// Folds a namespace tag to a single byte by xor.
pub open spec fn tag_fold(tag: Seq<u8>) -> u8
    decreases tag.len(),
{
    if tag.len() == 0 {
        0u8
    } else {
        tag_fold(tag.drop_last()) ^ tag.last()
    }
}

/// One byte of the mixed address: the owner byte, folded tag and bump
/// combined.
pub open spec fn mix_byte(owner_byte: u8, t: u8, bump: u8) -> u8 {
    owner_byte ^ t ^ bump
}

/// The full 32-byte mixing of `(tag, owner, bump)`.
pub open spec fn mixed_bytes(tag: Seq<u8>, owner: Seq<u8>, bump: u8) -> Seq<u8> {
    Seq::new(KEY_LEN as nat, |i: int| mix_byte(owner[i], tag_fold(tag), bump))
}

/// Whether an address could stand as a freestanding identity: identities
/// live in the even-final-byte half of the 32-byte space.
pub open spec fn is_identity_capable(a: Seq<u8>) -> bool {
    a.len() == KEY_LEN && a[KEY_LEN - 1] & 1 == 0
}

/// Whether a bump pushes the mixed address out of the identity space.
pub open spec fn bump_ok(tag: Seq<u8>, owner: Seq<u8>, bump: u8) -> bool {
    mix_byte(owner[KEY_LEN - 1], tag_fold(tag), bump) & 1 == 1
}

/// The disambiguation seed: the first bump, searching downward from 255,
/// whose mixed address leaves the identity space. The xor mixing flips the
/// final byte's parity with the bump's, so the search always ends at 255
/// or 254.
pub open spec fn derive_bump(tag: Seq<u8>, owner: Seq<u8>) -> u8 {
    if bump_ok(tag, owner, 255) {
        255u8
    } else {
        254u8
    }
}

/// The derived record address for `(tag, owner)`.
pub open spec fn derive_addr(tag: Seq<u8>, owner: Seq<u8>) -> Seq<u8> {
    mixed_bytes(tag, owner, derive_bump(tag, owner))
}

/// Of two adjacent bumps, at least one gives the mixed byte odd parity.
proof fn lemma_bump_parity(x: u8)
    ensures
        ((x ^ 255u8) & 1 == 1) || ((x ^ 254u8) & 1 == 1),
{
    assert(((x ^ 255u8) & 1 == 1) || ((x ^ 254u8) & 1 == 1)) by (bit_vector);
}

/// The chosen bump always works, so derivation never fails and the derived
/// address never lands in the identity space.
pub proof fn lemma_derive_not_identity(tag: Seq<u8>, owner: Seq<u8>)
    requires
        owner.len() == KEY_LEN,
    ensures
        bump_ok(tag, owner, derive_bump(tag, owner)),
        derive_addr(tag, owner).len() == KEY_LEN,
        !is_identity_capable(derive_addr(tag, owner)),
{
    lemma_bump_parity(owner[KEY_LEN - 1] ^ tag_fold(tag));
    assert(derive_addr(tag, owner)[KEY_LEN - 1]
        == mix_byte(owner[KEY_LEN - 1], tag_fold(tag), derive_bump(tag, owner)));
}

/// Address derivation is a pure function of the namespace tag and the owner
/// identity: two derivations from the same inputs agree.
pub proof fn lemma_derivation_deterministic(
    tag: Seq<u8>,
    owner: Seq<u8>,
    a1: Seq<u8>,
    a2: Seq<u8>,
)
    requires
        a1 == derive_addr(tag, owner),
        a2 == derive_addr(tag, owner),
    ensures
        a1 == a2,
{
}

/// Folds the namespace tag byte by byte.
fn tag_fold_exec(tag: &Vec<u8>) -> (r: u8)
    ensures
        r == tag_fold(tag@),
{
    let mut acc: u8 = 0;
    let mut i: usize = 0;
    while i < tag.len()
        invariant
            i <= tag@.len(),
            acc == tag_fold(tag@.take(i as int)),
        decreases tag@.len() - i,
    {
        proof {
            assert(tag@.take(i + 1).drop_last() =~= tag@.take(i as int));
            assert(tag@.take(i + 1).last() == tag@[i as int]);
        }
        acc = acc ^ tag[i];
        i = i + 1;
    }
    proof {
        assert(tag@.take(tag@.len() as int) =~= tag@);
    }
    acc
}

/// Derives the record address and its disambiguation seed for `owner` under
/// `tag`, searching the bump downward from 255 for a value that leaves the
/// identity space.
pub fn derive_address(tag: &Vec<u8>, owner: &Pubkey) -> (r: (Pubkey, u8))
    requires
        owner.wf(),
    ensures
        r.0@ == derive_addr(tag@, owner@),
        r.1 == derive_bump(tag@, owner@),
        r.0.wf(),
        !is_identity_capable(r.0@),
{
    let t = tag_fold_exec(tag);
    let last_owner_byte = owner.byte_at(KEY_LEN - 1);
    let mut bump: u8 = 255;
    while (last_owner_byte ^ t ^ bump) & 1 != 1
        invariant
            owner.wf(),
            t == tag_fold(tag@),
            last_owner_byte == owner@[KEY_LEN - 1],
            bump == 255 || bump == 254,
            bump == 254 ==> !bump_ok(tag@, owner@, 255),
        decreases bump,
    {
        proof {
            assert(!bump_ok(tag@, owner@, bump));
            if bump == 254 {
                lemma_bump_parity(owner@[KEY_LEN - 1] ^ tag_fold(tag@));
                assert(false);
            }
        }
        bump = bump - 1;
    }
    proof {
        assert(bump_ok(tag@, owner@, bump));
        assert(bump == derive_bump(tag@, owner@));
    }
    let mut out: Vec<u8> = Vec::new();
    let mut i: usize = 0;
    while i < KEY_LEN
        invariant
            owner.wf(),
            t == tag_fold(tag@),
            i <= KEY_LEN,
            out@.len() == i,
            forall|j: int| 0 <= j < i ==> out@[j] == mix_byte(owner@[j], t, bump),
        decreases KEY_LEN - i,
    {
        out.push(owner.byte_at(i) ^ t ^ bump);
        i = i + 1;
    }
    proof {
        assert(out@ =~= mixed_bytes(tag@, owner@, bump));
    }
    (Pubkey::from_vec(out), bump)
}

} // verus!
