//! Depth keys: the integers by which the framebuffer orders depths.

use vstd::prelude::*;

verus! {

/// The key of a depth given by its bit pattern in sign-and-magnitude form: the
/// magnitude where the sign bit is clear, and its negative where the sign bit
/// is set. The two zeros have one key, and the keys of two depths are ordered
/// as the depths are.
pub open spec fn key_of_bits(bits: u32) -> int {
    if bits < 0x8000_0000 {
        bits as int
    } else {
        0x8000_0000 - bits as int
    }
}

/// The depth key of the depth with the given bit pattern.
pub fn depth_key(bits: u32) -> (key: i32)
    ensures
        key as int == key_of_bits(bits),
{
    if bits < 0x8000_0000 {
        bits as i32
    } else {
        let magnitude: u32 = bits - 0x8000_0000;
        0 - (magnitude as i32)
    }
}

/// Among the patterns with a clear sign bit a larger magnitude has a larger
/// key, among those with a set sign bit it has a smaller key, and no key of
/// the second kind is above a key of the first.
pub proof fn lemma_keys_ordered(a: u32, b: u32)
    ensures
        a < b < 0x8000_0000 ==> key_of_bits(a) < key_of_bits(b),
        0x8000_0000 <= a < b ==> key_of_bits(a) > key_of_bits(b),
        a >= 0x8000_0000 && b < 0x8000_0000 ==> key_of_bits(a) <= key_of_bits(b),
        key_of_bits(0) == key_of_bits(0x8000_0000),
        -0x8000_0000 < key_of_bits(a) < 0x8000_0000,
{
}

} // verus!
