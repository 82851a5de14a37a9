//! Bitwise operations on integers of any size behind ApexLang's `mem`
//! module, in two's complement: masks, shifts, single bits, bit counts and
//! rotations.

use vstd::prelude::*;
use vstd::arithmetic::power::{pow, lemma_pow_positive};
use crate::forge::math::{
    abs_int, big_abs, big_and, big_from_i64, big_is_negative, big_is_zero, big_le, big_low_bit, big_neg, big_not,
    big_or, big_shl, big_shr, big_xor, int_and, int_or, int_xor, AFNSBigInt,
};

verus! {

/// Bitwise and
pub fn binary_and(left: &AFNSBigInt, right: &AFNSBigInt) -> (r: AFNSBigInt)
    ensures
        r@ == int_and(left@, right@),
{
    big_and(left, right)
}

/// Bitwise or
pub fn binary_or(left: &AFNSBigInt, right: &AFNSBigInt) -> (r: AFNSBigInt)
    ensures
        r@ == int_or(left@, right@),
{
    big_or(left, right)
}

/// Bitwise exclusive or
pub fn binary_xor(left: &AFNSBigInt, right: &AFNSBigInt) -> (r: AFNSBigInt)
    ensures
        r@ == int_xor(left@, right@),
{
    big_xor(left, right)
}

/// Bitwise complement: -v - 1
pub fn binary_not(value: &AFNSBigInt) -> (r: AFNSBigInt)
    ensures
        r@ == -value@ - 1,
{
    big_not(value)
}

/// A shift to the left: the product with 2^amount
pub fn binary_shift_left(value: &AFNSBigInt, amount: u64) -> (r: AFNSBigInt)
    ensures
        r@ == value@ * pow(2, amount as nat),
{
    big_shl(value, amount)
}

/// A shift to the right: the quotient by 2^amount, rounded down
pub fn binary_shift_right(value: &AFNSBigInt, amount: u64) -> (r: AFNSBigInt)
    ensures
        r@ == value@ / pow(2, amount as nat),
{
    big_shr(value, amount)
}

fn bit_mask(position: u64) -> (m: AFNSBigInt)
    ensures
        m@ == pow(2, position as nat),
{
    big_shl(&big_from_i64(1), position)
}

/// Whether bit `position` is set
pub fn bit_test(value: &AFNSBigInt, position: u64) -> (b: bool)
    ensures
        b == (int_and(value@, pow(2, position as nat)) != 0),
{
    !big_is_zero(&big_and(value, &bit_mask(position)))
}

/// The value with bit `position` set
pub fn bit_set(value: &AFNSBigInt, position: u64) -> (r: AFNSBigInt)
    ensures
        r@ == int_or(value@, pow(2, position as nat)),
{
    big_or(value, &bit_mask(position))
}

/// The value with bit `position` cleared
pub fn bit_clear(value: &AFNSBigInt, position: u64) -> (r: AFNSBigInt)
    ensures
        r@ == int_and(value@, -pow(2, position as nat) - 1),
{
    big_and(value, &big_not(&bit_mask(position)))
}

/// The value with bit `position` flipped
pub fn bit_toggle(value: &AFNSBigInt, position: u64) -> (r: AFNSBigInt)
    ensures
        r@ == int_xor(value@, pow(2, position as nat)),
{
    big_xor(value, &bit_mask(position))
}

/// The number of ones in the binary digits of a natural number.
pub open spec fn ones(n: int) -> int
    decreases n,
{
    if n <= 0 {
        0
    } else {
        n % 2 + ones(n / 2)
    }
}

/// The number of ones in the binary digits of the magnitude
pub fn bit_count(value: &AFNSBigInt) -> (r: AFNSBigInt)
    ensures
        r@ == ones(abs_int(value@)),
{
    let mut n = big_abs(value);
    let mut count = big_from_i64(0);
    let one = big_from_i64(1);
    let zero = big_from_i64(0);
    while !big_le(&n, &zero)
        invariant
            one@ == 1,
            zero@ == 0,
            n@ >= 0,
            count@ + ones(n@) == ones(abs_int(value@)),
        decreases n@,
    {
        if big_le(&big_low_bit(&n), &zero) {
        } else {
            count = count.add(&one);
        }
        n = big_shr(&n, 1);
        proof {
            vstd::arithmetic::power::lemma_pow1(2);
        }
    }
    count
}

/// The number of binary digits of a natural number.
pub open spec fn bit_length(n: int) -> int
    decreases n,
{
    if n <= 0 {
        0
    } else {
        1 + bit_length(n / 2)
    }
}

/// A magnitude rotated by `r` of its `len` binary digits, as the `mem`
/// builtins do it: to the left the shifted value keeps its high part.
pub open spec fn rotated(n: int, len: int, r: int, left: bool) -> int {
    if r == 0 {
        n
    } else if left {
        int_or(n * pow(2, r as nat), int_and(n / pow(2, (len - r) as nat), pow(2, r as nat) - 1))
    } else {
        int_or(n / pow(2, r as nat), int_and(n, pow(2, r as nat) - 1) * pow(2, (len - r) as nat))
    }
}

/// What rotating `value` by `bits` gives: the magnitude rotated with the
/// sign put back; unchanged for no bits or zero.
pub open spec fn rotate_value(value: int, bits: int, left: bool) -> int {
    if bits == 0 || value == 0 {
        value
    } else {
        let n = abs_int(value);
        let len = bit_length(n);
        let x = rotated(n, len, bits % len, left);
        if value < 0 { -x } else { x }
    }
}

/// A positive number has at least one binary digit.
proof fn lemma_bit_length_positive(n: int)
    requires
        n > 0,
    ensures
        bit_length(n) >= 1,
{
    lemma_bit_length_nonnegative(n / 2);
}

/// Binary lengths are not negative.
proof fn lemma_bit_length_nonnegative(n: int)
    ensures
        bit_length(n) >= 0,
    decreases n,
{
    if n > 0 {
        lemma_bit_length_nonnegative(n / 2);
    }
}

/// Rotates the binary digits of the magnitude by `bits` places, to the
/// left or to the right, and puts the sign back. A magnitude with more
/// binary digits than `usize` counts is outside what this accepts.
pub fn rotate_bits(value: &AFNSBigInt, bits: usize, left: bool) -> (r: AFNSBigInt)
    requires
        bit_length(abs_int(value@)) <= usize::MAX,
    ensures
        r@ == rotate_value(value@, bits as int, left),
{
    if bits == 0 || big_is_zero(value) {
        return value.clone();
    }
    let negative = big_is_negative(value);
    let binary = big_abs(value);
    let ghost n = binary@;
    let mut bit_len: usize = 0;
    let mut cursor = binary.clone();
    let zero = big_from_i64(0);
    while !big_le(&cursor, &zero)
        invariant
            zero@ == 0,
            cursor@ >= 0,
            n == abs_int(value@),
            bit_length(n) <= usize::MAX,
            bit_len + bit_length(cursor@) == bit_length(n),
        decreases cursor@,
    {
        proof {
            vstd::arithmetic::power::lemma_pow1(2);
            lemma_bit_length_positive(cursor@);
        }
        cursor = big_shr(&cursor, 1);
        bit_len = bit_len + 1;
    }
    proof {
        lemma_bit_length_positive(n);
    }
    let normalized = bits % bit_len;
    let one = big_from_i64(1);
    let rotated_value = if normalized == 0 {
        binary
    } else if left {
        let low_mask = big_shl(&one, normalized as u64).subtract(&one);
        let high = big_and(&big_shr(&binary, (bit_len - normalized) as u64), &low_mask);
        big_or(&big_shl(&binary, normalized as u64), &high)
    } else {
        let low_mask = big_shl(&one, normalized as u64).subtract(&one);
        let low = big_and(&binary, &low_mask);
        big_or(&big_shr(&binary, normalized as u64), &big_shl(&low, (bit_len - normalized) as u64))
    };
    if negative {
        big_neg(&rotated_value)
    } else {
        rotated_value
    }
}

} // verus!
