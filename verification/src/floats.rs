//! Floating-point numbers as the library holds them: by their bits.
//!
//! The library computes nothing with floating-point numbers. It takes the
//! IEEE 754 bits of a binary64 number and decides from them what depends on
//! the number's sign and on its place among all numbers.

use vstd::prelude::*;

verus! {

/// The place of a number in the total order of binary64 numbers, from its
/// bits: the larger the number, the larger the key. Negative numbers come
/// before positive ones, and `-0` comes before `+0`.
pub open spec fn order_key_of(bits: u64) -> int {
    if bits < 0x8000_0000_0000_0000 {
        bits as int
    } else {
        0x7fff_ffff_ffff_ffff - bits
    }
}

/// Computes the place of a number in the total order.
pub fn order_key(bits: u64) -> (key: i64)
    ensures
        key == order_key_of(bits),
{
    if bits < 0x8000_0000_0000_0000 {
        bits as i64
    } else {
        let over: u64 = bits - 0x8000_0000_0000_0000;
        -1 - (over as i64)
    }
}

/// Whether the bits are those of a NaN.
pub open spec fn is_nan_bits(bits: u64) -> bool {
    let magnitude = bits % 0x8000_0000_0000_0000;
    magnitude > 0x7ff0_0000_0000_0000
}

/// Whether the number with these bits is greater than zero. A NaN is not.
pub open spec fn positive_bits(bits: u64) -> bool {
    0 < bits <= 0x7ff0_0000_0000_0000
}

/// Whether the number with these bits is at most zero: negative, or a zero
/// of either sign. A NaN is not.
pub open spec fn at_most_zero_bits(bits: u64) -> bool {
    bits == 0 || (bits >= 0x8000_0000_0000_0000 && !is_nan_bits(bits))
}

/// Tells whether a number is at most zero.
pub fn is_at_most_zero(bits: u64) -> (b: bool)
    ensures
        b == at_most_zero_bits(bits),
{
    bits == 0 || (bits >= 0x8000_0000_0000_0000 && bits - 0x8000_0000_0000_0000 <= 0x7ff0_0000_0000_0000)
}

/// A number is at most zero, or greater than zero, or a NaN.
pub proof fn lemma_sign_cases(bits: u64)
    ensures
        at_most_zero_bits(bits) || positive_bits(bits) || is_nan_bits(bits),
        !(at_most_zero_bits(bits) && positive_bits(bits)),
{
}

} // verus!
