//! What this crate takes on trust from the standard library's integers.
//!
//! The counting methods below have no verified body here. Each contract
//! restates the method's documentation over the digits of the number.

use crate::bits::{bit, ones_in};
use vstd::prelude::*;

verus! {

/// `u8::count_ones` returns the number of ones in the binary representation
/// of its argument.
pub assume_specification[ u8::count_ones ](i: u8) -> (r: u32)
    ensures
        r == ones_in(i as nat),
;

/// `u16::count_ones` returns the number of ones in the binary representation
/// of its argument.
pub assume_specification[ u16::count_ones ](i: u16) -> (r: u32)
    ensures
        r == ones_in(i as nat),
;

/// `u32::count_ones` returns the number of ones in the binary representation
/// of its argument.
pub assume_specification[ u32::count_ones ](i: u32) -> (r: u32)
    ensures
        r == ones_in(i as nat),
;

/// `u64::count_ones` returns the number of ones in the binary representation
/// of its argument.
pub assume_specification[ u64::count_ones ](i: u64) -> (r: u32)
    ensures
        r == ones_in(i as nat),
;

/// `u128::count_ones` returns the number of ones in the binary representation
/// of its argument.
pub assume_specification[ u128::count_ones ](i: u128) -> (r: u32)
    ensures
        r == ones_in(i as nat),
;

/// `usize::count_ones` returns the number of ones in the binary
/// representation of its argument.
pub assume_specification[ usize::count_ones ](i: usize) -> (r: u32)
    ensures
        r == ones_in(i as nat),
;

/// `u128::trailing_zeros` returns the number of zeros at the low end of the
/// binary representation: every position below the result holds a zero, and
/// the position of the result holds a one unless the result is 128.
pub assume_specification[ u128::trailing_zeros ](i: u128) -> (r: u32)
    ensures
        r <= 128,
        r < 128 ==> bit(i as nat, r as nat),
        forall|j: nat| j < r ==> !#[trigger] bit(i as nat, j),
;

/// `u128::leading_zeros` returns the number of zeros at the high end of the
/// binary representation: each of the topmost positions, as many as the
/// result says, holds a zero, and the position below them holds a one unless
/// the result is 128.
pub assume_specification[ u128::leading_zeros ](i: u128) -> (r: u32)
    ensures
        r <= 128,
        r < 128 ==> bit(i as nat, (127 - r) as nat),
        forall|j: nat| 128 - r <= j < 128 ==> !#[trigger] bit(i as nat, j),
;

/// `usize::trailing_zeros` returns the number of zeros at the low end of the
/// binary representation: every position below the result holds a zero, and
/// the position of the result holds a one unless the result is `usize::BITS`.
pub assume_specification[ usize::trailing_zeros ](i: usize) -> (r: u32)
    ensures
        r <= usize::BITS,
        r < usize::BITS ==> bit(i as nat, r as nat),
        forall|j: nat| j < r ==> !#[trigger] bit(i as nat, j),
;

/// `usize::leading_zeros` returns the number of zeros at the high end of the
/// binary representation: each of the topmost positions, as many as the
/// result says, holds a zero, and the position below them holds a one unless
/// the result is `usize::BITS`.
pub assume_specification[ usize::leading_zeros ](i: usize) -> (r: u32)
    ensures
        r <= usize::BITS,
        r < usize::BITS ==> bit(i as nat, (usize::BITS - 1 - r) as nat),
        forall|j: nat| usize::BITS - r <= j < usize::BITS ==> !#[trigger] bit(i as nat, j),
;

} // verus!
