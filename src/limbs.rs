//! Limb decomposition of field values: four limbs of eight bits, least
//! significant first, which covers every value below `2^32`.
use vstd::prelude::*;

verus! {

pub const LIMB_BASE: u64 = 256;

/// The limbs of `v`, least significant first.
pub open spec fn limbs_of(v: int) -> Seq<u64> {
    seq![
        (v % 256) as u64,
        ((v / 256) % 256) as u64,
        ((v / 65536) % 256) as u64,
        ((v / 16777216) % 256) as u64,
    ]
}

/// The limbs of a coordinate.
pub fn coordinate_limbs(v: u64) -> (r: Vec<u64>)
    ensures
        r@ == limbs_of(v as int),
{
    let mut r: Vec<u64> = Vec::new();
    r.push(v % LIMB_BASE);
    r.push((v / 256) % LIMB_BASE);
    r.push((v / 65536) % LIMB_BASE);
    r.push((v / 16777216) % LIMB_BASE);
    proof {
        assert(r@ =~= limbs_of(v as int));
    }
    r
}

} // verus!
