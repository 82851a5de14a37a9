//! Exact numbers of the forge library: arbitrary-precision integers.
//!
//! An `AFNSBigInt` holds its value as the two's-complement bytes that
//! `num_bigint` reads and writes, least significant first; the arithmetic
//! is `num_bigint`'s.

use vstd::prelude::*;
use vstd::arithmetic::power::pow;
use num_bigint::BigInt;
use num_integer::Integer;
use num_traits::{Signed, ToPrimitive, Zero};
use crate::apexlang::nats::{is_prime, lemma_even_divisor, lemma_no_small_divisor};

verus! {

/// The value of little-endian bytes read as an unsigned number.
pub open spec fn le_value(b: Seq<u8>) -> nat
    decreases b.len(),
{
    if b.len() == 0 {
        0
    } else {
        b[0] as nat + 256 * le_value(b.drop_first())
    }
}

/// The value of little-endian two's-complement bytes: negative when the
/// top bit of the last byte is set; zero for no bytes.
pub open spec fn signed_le_value(b: Seq<u8>) -> int {
    if b.len() > 0 && b.last() >= 128 {
        le_value(b) - pow(256, b.len())
    } else {
        le_value(b) as int
    }
}

/// The absolute value of an integer.
pub open spec fn abs_int(a: int) -> int {
    if a < 0 { -a } else { a }
}

/// The quotient of a division truncated toward zero.
pub open spec fn trunc_div(a: int, b: int) -> int {
    let q = abs_int(a) / abs_int(b);
    if (a < 0) != (b < 0) { -q } else { q }
}

/// The quotient of a division rounded down.
pub open spec fn floor_div(a: int, b: int) -> int {
    if b > 0 {
        a / b
    } else {
        (-a) / (-b)
    }
}

/// The remainder of a division truncated toward zero: it has the sign of
/// the dividend.
pub open spec fn trunc_rem(a: int, b: int) -> int {
    let r = abs_int(a) % abs_int(b);
    if a < 0 { -r } else { r }
}

/// The greatest common divisor of two natural numbers (zero for two zeros).
pub open spec fn gcd_of(a: nat, b: nat) -> nat
    decreases b,
{
    if b == 0 {
        a
    } else {
        gcd_of(b, a % b)
    }
}

/// The least common multiple of two natural numbers (zero when either is
/// zero).
pub open spec fn lcm_of(a: nat, b: nat) -> nat {
    if a == 0 || b == 0 {
        0
    } else {
        a / gcd_of(a, b) * b
    }
}

/// The lowercase digit of a value below 36.
pub open spec fn radix_digit(d: nat) -> char {
    if d < 10 {
        (48 + d) as char
    } else {
        (87 + d) as char
    }
}

/// The digits of a natural number in a radix, most significant first, "0"
/// for zero.
pub open spec fn radix_digits(n: nat, radix: nat) -> Seq<char>
    decreases n,
{
    if radix < 2 || n < radix {
        seq![radix_digit(n)]
    } else {
        proof {
            assert(n / radix < n) by (nonlinear_arith)
                requires radix >= 2, n >= radix;
        }
        radix_digits(n / radix, radix).push(radix_digit(n % radix))
    }
}

/// An integer written in a radix, with '-' in front when it is negative.
pub open spec fn radix_text(v: int, radix: nat) -> Seq<char> {
    if v < 0 {
        seq!['-'] + radix_digits((-v) as nat, radix)
    } else {
        radix_digits(v as nat, radix)
    }
}

/// The value of a digit character in radixes up to 36: '0'-'9', then the
/// letters in either case from 10 on; 36 for any other character.
pub open spec fn digit_value_of(c: char) -> nat {
    if '0' <= c <= '9' {
        (c as nat - 48) as nat
    } else if 'a' <= c <= 'z' {
        (c as nat - 87) as nat
    } else if 'A' <= c <= 'Z' {
        (c as nat - 55) as nat
    } else {
        36
    }
}

/// The value of digits in a radix in which underscores are skipped; None
/// at any character that is no digit of the radix.
pub open spec fn separated_digits(d: Seq<char>, radix: nat, acc: nat) -> Option<nat>
    decreases d.len(),
{
    if d.len() == 0 {
        Some(acc)
    } else if d[0] == '_' {
        separated_digits(d.drop_first(), radix, acc)
    } else if digit_value_of(d[0]) < radix {
        separated_digits(d.drop_first(), radix, acc * radix + digit_value_of(d[0]))
    } else {
        None
    }
}

/// What `num_bigint` reads from text in a radix: a '-' (not followed by
/// '+'), then a '+' (not followed by another), then at least one
/// character, the first no underscore, all digits of the radix or
/// underscores. The error is the message of the parse error.
pub open spec fn bigint_radix_value(s: Seq<char>, radix: nat) -> Result<int, Seq<char>> {
    let negative = s.len() > 0 && s[0] == '-';
    let s1 = if negative && !(s.len() > 1 && s[1] == '+') { s.drop_first() } else { s };
    let s2 = if s1.len() > 0 && s1[0] == '+' && !(s1.len() > 1 && s1[1] == '+') {
        s1.drop_first()
    } else {
        s1
    };
    if s2.len() == 0 {
        Err("cannot parse integer from empty string"@)
    } else if s2[0] == '_' {
        Err("invalid digit found in string"@)
    } else {
        match separated_digits(s2, radix, 0) {
            None => Err("invalid digit found in string"@),
            Some(v) => Ok(if negative { -v } else { v as int }),
        }
    }
}

/// What `num_bigint` reads from decimal text.
pub open spec fn bigint_text_value(s: Seq<char>) -> Result<int, Seq<char>> {
    bigint_radix_value(s, 10)
}

/// Bitwise and of two integers in two's complement.
pub open spec fn int_and(a: int, b: int) -> int
    decreases abs_int(a) + abs_int(b),
{
    if (a == 0 || a == -1) && (b == 0 || b == -1) {
        if a == -1 && b == -1 { -1 } else { 0 }
    } else {
        proof {
            lemma_half_smaller(a, b);
        }
        2 * int_and(a / 2, b / 2) + (a % 2) * (b % 2)
    }
}

/// Bitwise or of two integers in two's complement.
pub open spec fn int_or(a: int, b: int) -> int
    decreases abs_int(a) + abs_int(b),
{
    if (a == 0 || a == -1) && (b == 0 || b == -1) {
        if a == -1 || b == -1 { -1 } else { 0 }
    } else {
        proof {
            lemma_half_smaller(a, b);
        }
        2 * int_or(a / 2, b / 2) + (a % 2 + b % 2 - (a % 2) * (b % 2))
    }
}

/// Bitwise exclusive or of two integers in two's complement.
pub open spec fn int_xor(a: int, b: int) -> int
    decreases abs_int(a) + abs_int(b),
{
    if (a == 0 || a == -1) && (b == 0 || b == -1) {
        if a != b { -1 } else { 0 }
    } else {
        proof {
            lemma_half_smaller(a, b);
        }
        2 * int_xor(a / 2, b / 2) + (a % 2 + b % 2) % 2
    }
}

/// Halving moves two integers, not both 0 or -1, toward them.
pub proof fn lemma_half_smaller(a: int, b: int)
    requires
        !((a == 0 || a == -1) && (b == 0 || b == -1)),
    ensures
        abs_int(a / 2) + abs_int(b / 2) < abs_int(a) + abs_int(b),
{
}

/// The Newton step for the square root of `v` from `x`.
pub open spec fn newton_step(v: int, x: int) -> int {
    (x + v / x) / 2
}

/// `k` Newton steps for the square root of `v`, from `x`.
pub open spec fn newton_from(v: int, x: int, k: nat) -> int
    decreases k,
{
    if k == 0 {
        x
    } else {
        newton_step(v, newton_from(v, x, (k - 1) as nat))
    }
}

/// An integer of any size.
#[derive(Debug)]
pub struct AFNSBigInt {
    bytes: Vec<u8>,
}

impl View for AFNSBigInt {
    type V = int;

    /// The integer the bytes stand for.
    closed spec fn view(&self) -> int {
        signed_le_value(self.bytes@)
    }
}

/// The integer `num_bigint` parses from text (`BigInt::from_str`), or the
/// message of its parse error.
#[verifier::external_body]
pub(crate) fn big_parse(s: &str) -> (r: Result<AFNSBigInt, String>)
    ensures
        match bigint_text_value(s@) {
            Ok(v) => r matches Ok(b) && b@ == v,
            Err(m) => r matches Err(e) && e@ == m,
        },
{
    match <BigInt as std::str::FromStr>::from_str(s) {
        Ok(x) => Ok(AFNSBigInt { bytes: x.to_signed_bytes_le() }),
        Err(e) => Err(e.to_string()),
    }
}

/// The value of big-endian two's-complement bytes: negative when the top
/// bit of the first byte is set; zero for no bytes.
pub open spec fn signed_be_value(b: Seq<u8>) -> int {
    signed_le_value(b.reverse())
}

/// `BigInt::from_signed_bytes_be`: the integer whose big-endian
/// two's-complement bytes these are (zero for none).
#[verifier::external_body]
pub(crate) fn big_from_signed_bytes_be(b: &[u8]) -> (r: AFNSBigInt)
    ensures
        r@ == signed_be_value(b@),
{
    AFNSBigInt { bytes: BigInt::from_signed_bytes_be(b).to_signed_bytes_le() }
}

/// Whether big-endian two's-complement bytes are as few as can stand for
/// their value: at least one, and no first byte that only repeats the sign
/// of the byte after it.
pub open spec fn shortest_signed_be(b: Seq<u8>) -> bool {
    &&& b.len() >= 1
    &&& b.len() >= 2 ==> !(b[0] == 0 && b[1] < 128) && !(b[0] == 255 && b[1] >= 128)
}

/// The big-endian two's-complement bytes that `BigInt::to_signed_bytes_be`
/// gives for an integer.
pub uninterp spec fn signed_bytes_be_of(v: int) -> Seq<u8>;

/// `BigInt::to_signed_bytes_be`: the shortest big-endian two's-complement
/// bytes that stand for the integer, one zero byte for zero (num-bigint
/// adds a sign byte only where the magnitude's top bit needs one). That no
/// two shortest encodings of one value differ is not proved here, so the
/// bytes also carry a name.
#[verifier::external_body]
pub(crate) fn big_to_signed_bytes_be(a: &AFNSBigInt) -> (r: Vec<u8>)
    ensures
        r@ == signed_bytes_be_of(a@),
        signed_be_value(r@) == a@,
        shortest_signed_be(r@),
{
    BigInt::from_signed_bytes_le(&a.bytes).to_signed_bytes_be()
}

/// `BigInt::from` an `i64`.
#[verifier::external_body]
pub(crate) fn big_from_i64(v: i64) -> (r: AFNSBigInt)
    ensures
        r@ == v,
{
    AFNSBigInt { bytes: BigInt::from(v).to_signed_bytes_le() }
}

/// The sum, by `BigInt`'s `+`.
#[verifier::external_body]
pub(crate) fn big_add(a: &AFNSBigInt, b: &AFNSBigInt) -> (r: AFNSBigInt)
    ensures
        r@ == a@ + b@,
{
    let x = BigInt::from_signed_bytes_le(&a.bytes) + BigInt::from_signed_bytes_le(&b.bytes);
    AFNSBigInt { bytes: x.to_signed_bytes_le() }
}

/// The difference, by `BigInt`'s `-`.
#[verifier::external_body]
pub(crate) fn big_sub(a: &AFNSBigInt, b: &AFNSBigInt) -> (r: AFNSBigInt)
    ensures
        r@ == a@ - b@,
{
    let x = BigInt::from_signed_bytes_le(&a.bytes) - BigInt::from_signed_bytes_le(&b.bytes);
    AFNSBigInt { bytes: x.to_signed_bytes_le() }
}

/// The product, by `BigInt`'s `*`.
#[verifier::external_body]
pub(crate) fn big_mul(a: &AFNSBigInt, b: &AFNSBigInt) -> (r: AFNSBigInt)
    ensures
        r@ == a@ * b@,
{
    let x = BigInt::from_signed_bytes_le(&a.bytes) * BigInt::from_signed_bytes_le(&b.bytes);
    AFNSBigInt { bytes: x.to_signed_bytes_le() }
}

/// The quotient truncated toward zero, by `BigInt`'s `/`, which panics on
/// a zero divisor.
#[verifier::external_body]
pub(crate) fn big_div(a: &AFNSBigInt, b: &AFNSBigInt) -> (r: AFNSBigInt)
    requires
        b@ != 0,
    ensures
        r@ == trunc_div(a@, b@),
{
    let x = BigInt::from_signed_bytes_le(&a.bytes) / BigInt::from_signed_bytes_le(&b.bytes);
    AFNSBigInt { bytes: x.to_signed_bytes_le() }
}

/// The remainder with the sign of the dividend, by `BigInt`'s `%`, which
/// panics on a zero divisor.
#[verifier::external_body]
pub(crate) fn big_rem(a: &AFNSBigInt, b: &AFNSBigInt) -> (r: AFNSBigInt)
    requires
        b@ != 0,
    ensures
        r@ == trunc_rem(a@, b@),
{
    let x = BigInt::from_signed_bytes_le(&a.bytes) % BigInt::from_signed_bytes_le(&b.bytes);
    AFNSBigInt { bytes: x.to_signed_bytes_le() }
}

/// Whether two integers are equal, by `BigInt`'s `==`.
#[verifier::external_body]
pub(crate) fn big_eq(a: &AFNSBigInt, b: &AFNSBigInt) -> (r: bool)
    ensures
        r == (a@ == b@),
{
    BigInt::from_signed_bytes_le(&a.bytes) == BigInt::from_signed_bytes_le(&b.bytes)
}

/// Whether the first integer is at most the second, by `BigInt`'s `<=`.
#[verifier::external_body]
pub(crate) fn big_le(a: &AFNSBigInt, b: &AFNSBigInt) -> (r: bool)
    ensures
        r == (a@ <= b@),
{
    BigInt::from_signed_bytes_le(&a.bytes) <= BigInt::from_signed_bytes_le(&b.bytes)
}

/// Whether an integer is zero, by `Zero::is_zero`.
#[verifier::external_body]
pub(crate) fn big_is_zero(a: &AFNSBigInt) -> (r: bool)
    ensures
        r == (a@ == 0),
{
    BigInt::from_signed_bytes_le(&a.bytes).is_zero()
}

/// Whether an integer is above zero, by `Signed::is_positive`.
#[verifier::external_body]
fn big_is_positive(a: &AFNSBigInt) -> (r: bool)
    ensures
        r == (a@ > 0),
{
    BigInt::from_signed_bytes_le(&a.bytes).is_positive()
}

/// Whether an integer is below zero, by `Signed::is_negative`.
#[verifier::external_body]
pub(crate) fn big_is_negative(a: &AFNSBigInt) -> (r: bool)
    ensures
        r == (a@ < 0),
{
    BigInt::from_signed_bytes_le(&a.bytes).is_negative()
}

/// The absolute value, by `Signed::abs`.
#[verifier::external_body]
pub(crate) fn big_abs(a: &AFNSBigInt) -> (r: AFNSBigInt)
    ensures
        r@ == abs_int(a@),
{
    AFNSBigInt { bytes: BigInt::from_signed_bytes_le(&a.bytes).abs().to_signed_bytes_le() }
}

/// The greatest common divisor of the magnitudes, by `Integer::gcd`.
#[verifier::external_body]
pub(crate) fn big_gcd(a: &AFNSBigInt, b: &AFNSBigInt) -> (r: AFNSBigInt)
    ensures
        r@ == gcd_of(abs_int(a@) as nat, abs_int(b@) as nat),
{
    let x = BigInt::from_signed_bytes_le(&a.bytes).gcd(&BigInt::from_signed_bytes_le(&b.bytes));
    AFNSBigInt { bytes: x.to_signed_bytes_le() }
}

/// The least common multiple of the magnitudes, by `Integer::lcm`.
#[verifier::external_body]
fn big_lcm(a: &AFNSBigInt, b: &AFNSBigInt) -> (r: AFNSBigInt)
    ensures
        r@ == lcm_of(abs_int(a@) as nat, abs_int(b@) as nat),
{
    let x = BigInt::from_signed_bytes_le(&a.bytes).lcm(&BigInt::from_signed_bytes_le(&b.bytes));
    AFNSBigInt { bytes: x.to_signed_bytes_le() }
}

/// A power, by `BigInt::pow`.
#[verifier::external_body]
pub(crate) fn big_pow(a: &AFNSBigInt, e: u32) -> (r: AFNSBigInt)
    ensures
        r@ == pow(a@, e as nat),
{
    AFNSBigInt { bytes: BigInt::from_signed_bytes_le(&a.bytes).pow(e).to_signed_bytes_le() }
}

/// The lowest bit, `a & 1` by `BigInt`'s `&` (two's complement): the
/// remainder of the floored division by two.
#[verifier::external_body]
pub(crate) fn big_low_bit(a: &AFNSBigInt) -> (r: AFNSBigInt)
    ensures
        r@ == a@ % 2,
{
    let x = &BigInt::from_signed_bytes_le(&a.bytes) & BigInt::from(1);
    AFNSBigInt { bytes: x.to_signed_bytes_le() }
}

/// A shift one bit to the right, `a >> 1` by `BigInt`'s `>>`, which
/// rounds down.
#[verifier::external_body]
pub(crate) fn big_half(a: &AFNSBigInt) -> (r: AFNSBigInt)
    ensures
        r@ == a@ / 2,
{
    AFNSBigInt { bytes: (BigInt::from_signed_bytes_le(&a.bytes) >> 1u32).to_signed_bytes_le() }
}

/// The `u128` of an integer in its range, by `ToPrimitive::to_u128`.
#[verifier::external_body]
pub(crate) fn big_to_u128(a: &AFNSBigInt) -> (r: Option<u128>)
    ensures
        0 <= a@ <= u128::MAX ==> r == Some(a@ as u128),
        !(0 <= a@ <= u128::MAX) ==> r is None,
{
    BigInt::from_signed_bytes_le(&a.bytes).to_u128()
}

/// `BigInt::from` a `u128`.
#[verifier::external_body]
pub(crate) fn big_from_u128(v: u128) -> (r: AFNSBigInt)
    ensures
        r@ == v,
{
    AFNSBigInt { bytes: BigInt::from(v).to_signed_bytes_le() }
}

/// The integer `BigInt::parse_bytes` reads from text in a radix, or None.
#[verifier::external_body]
pub(crate) fn big_parse_bytes(s: &str, radix: u32) -> (r: Option<AFNSBigInt>)
    requires
        2 <= radix <= 36,
    ensures
        match bigint_radix_value(s@, radix as nat) {
            Ok(v) => r matches Some(b) && b@ == v,
            Err(_) => r is None,
        },
{
    BigInt::parse_bytes(s.as_bytes(), radix).map(|x| AFNSBigInt { bytes: x.to_signed_bytes_le() })
}

/// Bitwise and, by `BigInt`'s `&`.
#[verifier::external_body]
pub(crate) fn big_and(a: &AFNSBigInt, b: &AFNSBigInt) -> (r: AFNSBigInt)
    ensures
        r@ == int_and(a@, b@),
{
    let x = BigInt::from_signed_bytes_le(&a.bytes) & BigInt::from_signed_bytes_le(&b.bytes);
    AFNSBigInt { bytes: x.to_signed_bytes_le() }
}

/// Bitwise or, by `BigInt`'s `|`.
#[verifier::external_body]
pub(crate) fn big_or(a: &AFNSBigInt, b: &AFNSBigInt) -> (r: AFNSBigInt)
    ensures
        r@ == int_or(a@, b@),
{
    let x = BigInt::from_signed_bytes_le(&a.bytes) | BigInt::from_signed_bytes_le(&b.bytes);
    AFNSBigInt { bytes: x.to_signed_bytes_le() }
}

/// Bitwise exclusive or, by `BigInt`'s `^`.
#[verifier::external_body]
pub(crate) fn big_xor(a: &AFNSBigInt, b: &AFNSBigInt) -> (r: AFNSBigInt)
    ensures
        r@ == int_xor(a@, b@),
{
    let x = BigInt::from_signed_bytes_le(&a.bytes) ^ BigInt::from_signed_bytes_le(&b.bytes);
    AFNSBigInt { bytes: x.to_signed_bytes_le() }
}

/// The negation, by `BigInt`'s unary `-`.
#[verifier::external_body]
pub(crate) fn big_neg(a: &AFNSBigInt) -> (r: AFNSBigInt)
    ensures
        r@ == -a@,
{
    AFNSBigInt { bytes: (-BigInt::from_signed_bytes_le(&a.bytes)).to_signed_bytes_le() }
}

/// The quotient rounded down, by `Integer::div_floor`, which panics on a
/// zero divisor.
#[verifier::external_body]
pub(crate) fn big_div_floor(a: &AFNSBigInt, b: &AFNSBigInt) -> (r: AFNSBigInt)
    requires
        b@ != 0,
    ensures
        r@ == floor_div(a@, b@),
{
    let x = BigInt::from_signed_bytes_le(&a.bytes).div_floor(&BigInt::from_signed_bytes_le(&b.bytes));
    AFNSBigInt { bytes: x.to_signed_bytes_le() }
}

/// The remainder of the division rounded down, by `Integer::mod_floor`; for
/// a positive divisor it lies between zero and the divisor.
#[verifier::external_body]
pub(crate) fn big_mod_floor(a: &AFNSBigInt, b: &AFNSBigInt) -> (r: AFNSBigInt)
    requires
        b@ > 0,
    ensures
        r@ == a@ % b@,
{
    let x = BigInt::from_signed_bytes_le(&a.bytes).mod_floor(&BigInt::from_signed_bytes_le(&b.bytes));
    AFNSBigInt { bytes: x.to_signed_bytes_le() }
}

/// The `u32` of an integer in its range, by `ToPrimitive::to_u32`.
#[verifier::external_body]
pub(crate) fn big_to_u32(a: &AFNSBigInt) -> (r: Option<u32>)
    ensures
        0 <= a@ <= u32::MAX ==> r == Some(a@ as u32),
        !(0 <= a@ <= u32::MAX) ==> r is None,
{
    BigInt::from_signed_bytes_le(&a.bytes).to_u32()
}

/// The `u64` of an integer in its range, by `ToPrimitive::to_u64`.
#[verifier::external_body]
pub(crate) fn big_to_u64(a: &AFNSBigInt) -> (r: Option<u64>)
    ensures
        0 <= a@ <= u64::MAX ==> r == Some(a@ as u64),
        !(0 <= a@ <= u64::MAX) ==> r is None,
{
    BigInt::from_signed_bytes_le(&a.bytes).to_u64()
}

/// The `usize` of an integer in its range, by `ToPrimitive::to_usize`.
#[verifier::external_body]
pub(crate) fn big_to_usize(a: &AFNSBigInt) -> (r: Option<usize>)
    ensures
        0 <= a@ <= usize::MAX ==> r == Some(a@ as usize),
        !(0 <= a@ <= usize::MAX) ==> r is None,
{
    BigInt::from_signed_bytes_le(&a.bytes).to_usize()
}

/// A shift to the left, `a << bits` by `BigInt`'s `<<`: a product with a
/// power of two.
#[verifier::external_body]
pub(crate) fn big_shl(a: &AFNSBigInt, bits: u64) -> (r: AFNSBigInt)
    ensures
        r@ == a@ * pow(2, bits as nat),
{
    AFNSBigInt { bytes: (BigInt::from_signed_bytes_le(&a.bytes) << bits).to_signed_bytes_le() }
}

/// A shift to the right, `a >> bits` by `BigInt`'s `>>`, which rounds
/// down: the quotient by a power of two rounded toward minus infinity.
#[verifier::external_body]
pub(crate) fn big_shr(a: &AFNSBigInt, bits: u64) -> (r: AFNSBigInt)
    ensures
        r@ == a@ / pow(2, bits as nat),
{
    AFNSBigInt { bytes: (BigInt::from_signed_bytes_le(&a.bytes) >> bits).to_signed_bytes_le() }
}

/// The bitwise complement, by `BigInt`'s `!` (two's complement): -a - 1.
#[verifier::external_body]
pub(crate) fn big_not(a: &AFNSBigInt) -> (r: AFNSBigInt)
    ensures
        r@ == -a@ - 1,
{
    AFNSBigInt { bytes: (!BigInt::from_signed_bytes_le(&a.bytes)).to_signed_bytes_le() }
}

/// The quotient and remainder of a division truncated toward zero, by
/// `Integer::div_rem`, which panics on a zero divisor.
#[verifier::external_body]
pub(crate) fn big_div_rem(a: &AFNSBigInt, b: &AFNSBigInt) -> (r: (AFNSBigInt, AFNSBigInt))
    requires
        b@ != 0,
    ensures
        r.0@ == trunc_div(a@, b@),
        r.1@ == trunc_rem(a@, b@),
{
    let (q, m) = BigInt::from_signed_bytes_le(&a.bytes).div_rem(&BigInt::from_signed_bytes_le(&b.bytes));
    (AFNSBigInt { bytes: q.to_signed_bytes_le() }, AFNSBigInt { bytes: m.to_signed_bytes_le() })
}

/// The digits of an integer in a radix, by `BigInt::to_str_radix`, which
/// panics outside radixes 2 to 36.
#[verifier::external_body]
pub(crate) fn big_to_str_radix(a: &AFNSBigInt, radix: u32) -> (s: String)
    requires
        2 <= radix <= 36,
    ensures
        s@ == radix_text(a@, radix as nat),
{
    BigInt::from_signed_bytes_le(&a.bytes).to_str_radix(radix)
}

/// The decimal text of an integer, by `BigInt`'s `Display`.
#[verifier::external_body]
fn big_decimal_text(a: &AFNSBigInt) -> (s: String)
    ensures
        s@ == radix_text(a@, 10),
{
    BigInt::from_signed_bytes_le(&a.bytes).to_string()
}

/// The binary text of an integer, by `BigInt`'s `Binary` format.
#[verifier::external_body]
fn big_binary_text(a: &AFNSBigInt) -> (s: String)
    ensures
        s@ == radix_text(a@, 2),
{
    format!("{:b}", BigInt::from_signed_bytes_le(&a.bytes))
}

/// The lowercase hexadecimal text of an integer, by `BigInt`'s `LowerHex`
/// format.
#[verifier::external_body]
fn big_hex_text(a: &AFNSBigInt) -> (s: String)
    ensures
        s@ == radix_text(a@, 16),
{
    format!("{:x}", BigInt::from_signed_bytes_le(&a.bytes))
}

/// The octal text of an integer, by `BigInt`'s `Octal` format.
#[verifier::external_body]
fn big_octal_text(a: &AFNSBigInt) -> (s: String)
    ensures
        s@ == radix_text(a@, 8),
{
    format!("{:o}", BigInt::from_signed_bytes_le(&a.bytes))
}

/// A divisor that is a multiple of a number that does not divide `value`
/// does not divide it either.
proof fn lemma_multiple_divisor(value: int, d: int, k: int)
    requires
        value >= 0,
        k >= 1,
        d >= k,
        d % k == 0,
        value % k != 0,
    ensures
        value % d != 0,
{
    if value % d == 0 {
        let q = value / d;
        let m = d / k;
        assert(value == d * q) by (nonlinear_arith)
            requires value % d == 0, d >= 1, q == value / d;
        assert(d == k * m) by (nonlinear_arith)
            requires d % k == 0, k >= 1, m == d / k;
        assert(value == k * (m * q)) by (nonlinear_arith)
            requires value == d * q, d == k * m;
        assert(value % k == 0) by (nonlinear_arith)
            requires value == k * (m * q), k >= 1;
    }
}

impl AFNSBigInt {
    /// The integer written in decimal text, or the parse error
    pub fn new(value: &str) -> (r: Result<Self, String>)
        ensures
            match bigint_text_value(value@) {
                Ok(v) => r matches Ok(b) && b@ == v,
                Err(m) => r matches Err(e) && e@ == "Invalid BigInt: "@ + m,
            },
    {
        match big_parse(value) {
            Ok(b) => Ok(b),
            Err(m) => {
                let mut e = String::from_str("Invalid BigInt: ");
                e.append(m.as_str());
                Err(e)
            },
        }
    }

    /// The sum
    pub fn add(&self, other: &AFNSBigInt) -> (r: AFNSBigInt)
        ensures
            r@ == self@ + other@,
    {
        big_add(self, other)
    }

    /// The difference
    pub fn subtract(&self, other: &AFNSBigInt) -> (r: AFNSBigInt)
        ensures
            r@ == self@ - other@,
    {
        big_sub(self, other)
    }

    /// The product
    pub fn multiply(&self, other: &AFNSBigInt) -> (r: AFNSBigInt)
        ensures
            r@ == self@ * other@,
    {
        big_mul(self, other)
    }

    /// The quotient truncated toward zero; an error for a zero divisor
    pub fn divide(&self, other: &AFNSBigInt) -> (r: Result<AFNSBigInt, String>)
        ensures
            other@ == 0 ==> (r matches Err(e) && e@ == "Division by zero"@),
            other@ != 0 ==> (r matches Ok(q) && q@ == trunc_div(self@, other@)),
    {
        if big_is_zero(other) {
            Err(String::from_str("Division by zero"))
        } else {
            Ok(big_div(self, other))
        }
    }

    /// The remainder, with the sign of this number; an error for a zero
    /// divisor
    pub fn modulo(&self, other: &AFNSBigInt) -> (r: Result<AFNSBigInt, String>)
        ensures
            other@ == 0 ==> (r matches Err(e) && e@ == "Modulo by zero"@),
            other@ != 0 ==> (r matches Ok(q) && q@ == trunc_rem(self@, other@)),
    {
        if big_is_zero(other) {
            Err(String::from_str("Modulo by zero"))
        } else {
            Ok(big_rem(self, other))
        }
    }

    /// Whether the number is even
    pub fn is_even(&self) -> (b: bool)
        ensures
            b == (self@ % 2 == 0),
    {
        let two = big_from_i64(2);
        let zero = big_from_i64(0);
        let r = big_rem(self, &two);
        proof {
            lemma_trunc_rem_two(self@);
        }
        big_eq(&r, &zero)
    }

    /// Whether the number is odd
    pub fn is_odd(&self) -> (b: bool)
        ensures
            b == (self@ % 2 != 0),
    {
        let two = big_from_i64(2);
        let zero = big_from_i64(0);
        let r = big_rem(self, &two);
        proof {
            lemma_trunc_rem_two(self@);
        }
        !big_eq(&r, &zero)
    }

    /// Whether the number is prime, by trial division with the divisors
    /// 6k - 1 and 6k + 1 up to its square root
    pub fn is_prime(&self) -> (b: bool)
        ensures
            b == is_prime(self@),
    {
        let one = big_from_i64(1);
        if big_le(self, &one) {
            return false;
        }
        let three = big_from_i64(3);
        if big_le(self, &three) {
            proof {
                if self@ == 3 {
                    assert(3int % 2 != 0);
                }
            }
            return true;
        }
        let ghost v = self@;
        let zero = big_from_i64(0);
        let two = big_from_i64(2);
        if big_eq(&big_rem(self, &two), &zero) {
            assert(v % 2 == 0);
            assert(!is_prime(v));
            return false;
        }
        if big_eq(&big_rem(self, &three), &zero) {
            assert(v % 3 == 0);
            assert(!is_prime(v));
            return false;
        }
        let six = big_from_i64(6);
        let mut i = big_from_i64(5);
        proof {
            assert forall|d: int| 2 <= d < 5 implies #[trigger] (v % d) != 0 by {
                if d == 4 {
                    lemma_even_divisor(v, d);
                }
            }
        }
        loop
            invariant
                v == self@,
                v >= 4,
                v % 2 == 1,
                v % 3 != 0,
                i@ >= 5,
                i@ % 6 == 5,
                zero@ == 0,
                two@ == 2,
                six@ == 6,
                forall|d: int| 2 <= d < i@ ==> #[trigger] (v % d) != 0,
            decreases v - i@ + 6,
        {
            let square = big_mul(&i, &i);
            if !big_le(&square, self) {
                proof {
                    lemma_no_small_divisor(v, i@);
                }
                return true;
            }
            let ghost a = i@;
            proof {
                assert(a + 2 < v) by (nonlinear_arith)
                    requires a * a <= v, a >= 5;
            }
            if big_eq(&big_rem(self, &i), &zero) {
                assert(v % a == 0);
                return false;
            }
            let next = big_add(&i, &two);
            if big_eq(&big_rem(self, &next), &zero) {
                assert(v % (a + 2) == 0);
                return false;
            }
            proof {
                assert forall|d: int| 2 <= d < a + 6 implies #[trigger] (v % d) != 0 by {
                    if d == a + 1 || d == a + 3 || d == a + 5 {
                        lemma_even_divisor(v, d);
                    } else if d == a + 4 {
                        lemma_multiple_divisor(v, d, 3);
                    }
                }
            }
            i = big_add(&i, &six);
        }
    }

    /// The greatest common divisor of the magnitudes
    pub fn gcd(&self, other: &AFNSBigInt) -> (r: AFNSBigInt)
        ensures
            r@ == gcd_of(abs_int(self@) as nat, abs_int(other@) as nat),
    {
        big_gcd(self, other)
    }

    /// The least common multiple of the magnitudes
    pub fn lcm(&self, other: &AFNSBigInt) -> (r: AFNSBigInt)
        ensures
            r@ == lcm_of(abs_int(self@) as nat, abs_int(other@) as nat),
    {
        big_lcm(self, other)
    }

    /// The number raised to a power
    pub fn pow(&self, exponent: u32) -> (r: AFNSBigInt)
        ensures
            r@ == pow(self@, exponent as nat),
    {
        big_pow(self, exponent)
    }

    /// Ten Newton steps toward the square root, from the number itself; an
    /// error for a negative number. Zero is outside what this accepts: its
    /// first step divides by zero.
    pub fn sqrt(&self) -> (r: Result<AFNSBigInt, String>)
        requires
            self@ != 0,
        ensures
            self@ < 0 ==> (r matches Err(e) && e@ == "Square root of negative number"@),
            self@ > 0 ==> (r matches Ok(x) && x@ == newton_from(self@, self@, 10)),
    {
        if big_is_negative(self) {
            return Err(String::from_str("Square root of negative number"));
        }
        let ghost v = self@;
        let two = big_from_i64(2);
        let mut x = self.clone();
        let mut k: u32 = 0;
        while k < 10
            invariant
                v == self@,
                v > 0,
                two@ == 2,
                k <= 10,
                x@ >= 1,
                x@ == newton_from(v, v, k as nat),
            decreases 10 - k,
        {
            let q = big_div(self, &x);
            let s = big_add(&x, &q);
            let next = big_div(&s, &two);
            proof {
                let a = x@;
                assert(trunc_div(v, a) == v / a);
                assert(v / a >= 0) by (nonlinear_arith)
                    requires v > 0, a >= 1;
                assert(trunc_div(a + v / a, 2) == (a + v / a) / 2);
                if a == 1 {
                    assert(v / 1 == v);
                } else {
                    assert(v / a >= 0);
                }
                assert((a + v / a) / 2 >= 1);
            }
            x = next;
            k = k + 1;
        }
        Ok(x)
    }

    /// The absolute value
    pub fn abs(&self) -> (r: AFNSBigInt)
        ensures
            r@ == abs_int(self@),
    {
        big_abs(self)
    }

    /// 1 above zero, -1 below zero, 0 for zero
    pub fn sign(&self) -> (s: i32)
        ensures
            s == (if self@ > 0 { 1int } else if self@ < 0 { -1int } else { 0int }),
    {
        if big_is_positive(self) {
            1
        } else if big_is_negative(self) {
            -1
        } else {
            0
        }
    }

    /// The binary digits, with '-' in front of a negative number
    pub fn to_binary(&self) -> (s: String)
        ensures
            s@ == radix_text(self@, 2),
    {
        big_binary_text(self)
    }

    /// The lowercase hexadecimal digits, with '-' in front of a negative
    /// number
    pub fn to_hex(&self) -> (s: String)
        ensures
            s@ == radix_text(self@, 16),
    {
        big_hex_text(self)
    }

    /// The octal digits, with '-' in front of a negative number
    pub fn to_octal(&self) -> (s: String)
        ensures
            s@ == radix_text(self@, 8),
    {
        big_octal_text(self)
    }

    /// The integer written in decimal text, or the parse error
    pub fn parse(value: &str) -> (r: Result<AFNSBigInt, String>)
        ensures
            match bigint_text_value(value@) {
                Ok(v) => r matches Ok(b) && b@ == v,
                Err(m) => r matches Err(e) && e@ == "Invalid BigInt: "@ + m,
            },
    {
        AFNSBigInt::new(value)
    }

    /// The decimal digits, with '-' in front of a negative number
    pub fn to_string(&self) -> (s: String)
        ensures
            s@ == radix_text(self@, 10),
    {
        big_decimal_text(self)
    }

    /// An equal integer
    pub fn clone(&self) -> (r: AFNSBigInt)
        ensures
            r@ == self@,
    {
        AFNSBigInt { bytes: self.bytes.clone() }
    }

    /// An equal integer
    pub fn copy(&self) -> (r: AFNSBigInt)
        ensures
            r@ == self@,
    {
        self.clone()
    }
}

/// The remainder of a division by two truncated toward zero is zero
/// exactly for even numbers.
proof fn lemma_trunc_rem_two(v: int)
    ensures
        (trunc_rem(v, 2) == 0) == (v % 2 == 0),
{
    if v < 0 {
        assert(((-v) % 2 == 0) == (v % 2 == 0));
    }
}

} // verus!
