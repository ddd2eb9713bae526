//! The namespace tag under which counter records are addressed.

use vstd::prelude::*;

verus! {

/// The bytes of the namespace tag, `b"counter"`.
pub open spec fn counter_seed_spec() -> Seq<u8> {
    seq![99u8, 111u8, 117u8, 110u8, 116u8, 101u8, 114u8]
}

/// Returns the namespace tag that separates counter records from any other
/// use of the same identity space.
pub fn counter_seed() -> (r: Vec<u8>)
    ensures
        r@ == counter_seed_spec(),
{
    let mut out: Vec<u8> = Vec::new();
    out.push(99u8);
    out.push(111u8);
    out.push(117u8);
    out.push(110u8);
    out.push(116u8);
    out.push(101u8);
    out.push(114u8);
    proof {
        assert(out@ =~= counter_seed_spec());
    }
    out
}

} // verus!
