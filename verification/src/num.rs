//! Numeric helpers.

use vstd::prelude::*;

verus! {

/// The key of the 32-bit floating point number with bit pattern `bits`:
/// numbers with the sign bit set are mirrored below those without it.
pub open spec fn order_key(bits: u32) -> u32 {
    if bits >= 0x8000_0000 {
        (0xffff_ffff - bits) as u32
    } else {
        (bits + 0x8000_0000) as u32
    }
}

/// Maps the bit pattern of a 32-bit floating point number to an integer
/// such that the integers are ordered as the IEEE 754 total order orders
/// the numbers: negative numbers before positive ones, and among numbers
/// of one sign by magnitude.
pub fn total_order_key(bits: u32) -> (key: u32)
    ensures
        key == order_key(bits),
{
    if bits >= 0x8000_0000 {
        0xffff_ffff - bits
    } else {
        bits + 0x8000_0000
    }
}

/// Different bit patterns have different keys; patterns without the sign
/// bit keep their order, patterns with it reverse theirs, and every pattern
/// with the sign bit comes before every pattern without it.
pub proof fn lemma_order_key(a: u32, b: u32)
    ensures
        a != b ==> order_key(a) != order_key(b),
        a < b < 0x8000_0000 ==> order_key(a) < order_key(b),
        0x8000_0000 <= a < b ==> order_key(a) > order_key(b),
        a >= 0x8000_0000 && b < 0x8000_0000 ==> order_key(a) < order_key(b),
{
}

} // verus!
