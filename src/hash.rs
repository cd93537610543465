use vstd::prelude::*;

verus! {

/// One mixing round: fold the high half into the low half, then multiply.
pub open spec fn mix(x: u32) -> u32 {
    ((x >> 16u32) ^ x).wrapping_mul(0x45d9f3bu32)
}

/// The integer hash: two mixing rounds and a final fold.
pub open spec fn hash_spec(x: u32) -> u32 {
    let y = mix(mix(x));
    (y >> 16u32) ^ y
}

/// Deterministic pseudo-random mapping of an integer, used for decoration
/// that has to stay the same from one frame to the next.
pub fn hash(x: u32) -> (r: u32)
    ensures
        r == hash_spec(x),
{
    let mut x = x;
    x = ((x >> 16u32) ^ x).wrapping_mul(0x45d9f3bu32);
    x = ((x >> 16u32) ^ x).wrapping_mul(0x45d9f3bu32);
    x = (x >> 16u32) ^ x;
    x
}

} // verus!
