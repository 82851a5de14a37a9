//! Digit-based number properties behind ApexLang's `nats` module: digit
//! sums, digital roots, palindromes and the Harshad, Armstrong,
//! automorphic and Kaprekar numbers.

use vstd::prelude::*;
use vstd::arithmetic::power::{pow, lemma_pow_increases, lemma_pow_positive};
use crate::apexlang::error::ApexError;
use crate::apexlang::nats::too_large;
use crate::forge::math::{
    abs_int, big_abs, big_div, big_div_rem, big_eq, big_from_i64, big_from_u128, big_is_zero, big_le, big_mul,
    big_pow, big_rem, big_to_str_radix, big_to_u128, big_to_u32, radix_digit, radix_digits, radix_text, AFNSBigInt,
};
use crate::text::chars_of;

verus! {

/// The sum of the digits of a natural number in a base.
pub open spec fn digit_sum(n: int, b: int) -> int
    decreases n,
{
    if n > 0 && b >= 2 {
        proof {
            assert(n / b < n) by (nonlinear_arith)
                requires n > 0, b >= 2;
        }
        n % b + digit_sum(n / b, b)
    } else {
        0
    }
}

/// The sum of the digits of an integer's magnitude in a base of at least 2
pub fn sum_digits_impl(value: &AFNSBigInt, base: u32) -> (r: AFNSBigInt)
    requires
        base >= 2,
    ensures
        r@ == digit_sum(abs_int(value@), base as int),
{
    if big_is_zero(value) {
        return big_from_i64(0);
    }
    let b = big_from_u128(base as u128);
    let mut n = big_abs(value);
    let mut sum = big_from_i64(0);
    while !big_is_zero(&n)
        invariant
            n@ >= 0,
            b@ == base,
            base >= 2,
            sum@ + digit_sum(n@, base as int) == digit_sum(abs_int(value@), base as int),
        decreases n@,
    {
        let (q, r) = big_div_rem(&n, &b);
        proof {
            assert(abs_int(n@) == n@);
            assert(abs_int(base as int) == base);
            assert(n@ / (base as int) < n@) by (nonlinear_arith)
                requires n@ > 0, base >= 2;
        }
        sum = sum.add(&r);
        n = q;
    }
    sum
}

/// The sum of the digits of a natural number in a base; an error for a
/// base past `u128` or below 2. The base is cut to `u32`; a base that is
/// cut below 2 is outside what this accepts.
pub fn sum_digits_base(value: &AFNSBigInt, base: &AFNSBigInt) -> (r: Result<AFNSBigInt, ApexError>)
    requires
        value@ >= 0,
        base@ >= 0,
        2 <= base@ <= u128::MAX ==> ((base@ as u128) as u32) >= 2,
    ensures
        base@ > u128::MAX ==> (r matches Err(e) && e@ == too_large("sum_digits_base"@, base@, "u128"@)),
        base@ < 2 ==> (r matches Err(e) && e@ == "sum_digits_base requires base >= 2"@),
        2 <= base@ <= u128::MAX ==> (r matches Ok(v) && v@ == digit_sum(value@, ((base@ as u128) as u32) as int)),
{
    let radix = match big_to_u128(base) {
        Some(x) => x,
        None => {
            let mut m = String::from_str("sum_digits_base");
            m.append(" argument '");
            m.append(base.to_string().as_str());
            m.append("' is too large to fit in ");
            m.append("u128");
            return Err(ApexError::new(m));
        },
    };
    if radix < 2 {
        return Err(ApexError::new(String::from_str("sum_digits_base requires base >= 2")));
    }
    Ok(sum_digits_impl(value, radix as u32))
}

/// The number of decimal digits of a natural number, 0 for zero
pub fn num_digits(value: &AFNSBigInt) -> (r: usize)
    requires
        value@ >= 0,
    ensures
        value@ == 0 ==> r == 0,
        value@ > 0 ==> r == radix_digits(value@ as nat, 10).len(),
{
    if big_is_zero(value) {
        return 0;
    }
    let text = big_to_str_radix(value, 10);
    chars_of(text.as_str()).len()
}

/// The number of decimal digits of a natural number, 1 for zero
pub fn decimal_digit_count(n: &AFNSBigInt) -> (r: usize)
    requires
        n@ >= 0,
    ensures
        r == radix_digits(n@ as nat, 10).len(),
{
    if big_is_zero(n) {
        return 1;
    }
    let text = big_to_str_radix(n, 10);
    chars_of(text.as_str()).len()
}

/// Ten to the power `count`
pub fn ten_to_power(count: usize) -> (r: AFNSBigInt)
    ensures
        r@ == pow(10, count as nat),
{
    let mut value = big_from_i64(1);
    let ten = big_from_i64(10);
    let mut i: usize = 0;
    proof {
        vstd::arithmetic::power::lemma_pow0(10);
    }
    while i < count
        invariant
            i <= count,
            ten@ == 10,
            value@ == pow(10, i as nat),
        decreases count - i,
    {
        proof {
            assert(pow(10, (i + 1) as nat) == 10 * pow(10, i as nat)) by {
                reveal(pow);
            }
            assert(pow(10, i as nat) * 10 == 10 * pow(10, i as nat)) by (nonlinear_arith);
        }
        value = big_mul(&value, &ten);
        i = i + 1;
    }
    value
}

/// Whether a natural number is automorphic: its square ends in its own
/// digits
pub fn is_automorphic(n: &AFNSBigInt) -> (b: bool)
    requires
        n@ >= 0,
    ensures
        b == (n@ == 0 || (n@ * n@) % pow(10, radix_digits(n@ as nat, 10).len()) == n@),
{
    if big_is_zero(n) {
        return true;
    }
    let digits = decimal_digit_count(n);
    let modulus = ten_to_power(digits);
    proof {
        lemma_pow_positive(10, digits as nat);
        assert(n@ * n@ >= 0) by (nonlinear_arith);
        assert(abs_int(n@ * n@) == n@ * n@);
        assert(abs_int(modulus@) == modulus@);
    }
    let square = big_rem(&big_mul(n, n), &modulus);
    big_eq(&square, n)
}

/// Whether a natural number is a Harshad number: zero, or divisible by
/// the sum of its decimal digits
pub fn is_harshad(n: &AFNSBigInt) -> (b: bool)
    requires
        n@ >= 0,
    ensures
        b == (n@ == 0 || (digit_sum(n@, 10) != 0 && n@ % digit_sum(n@, 10) == 0)),
{
    if big_is_zero(n) {
        return true;
    }
    let sum = sum_digits_impl(n, 10);
    if big_is_zero(&sum) {
        return false;
    }
    proof {
        lemma_digit_sum_nonnegative(n@, 10);
        assert(abs_int(n@) == n@);
        assert(abs_int(sum@) == sum@);
    }
    big_is_zero(&big_rem(n, &sum))
}

/// Digit sums are not negative.
pub proof fn lemma_digit_sum_nonnegative(n: int, b: int)
    ensures
        digit_sum(n, b) >= 0,
    decreases n,
{
    if n > 0 && b >= 2 {
        assert(n / b < n) by (nonlinear_arith)
            requires n > 0, b >= 2;
        lemma_digit_sum_nonnegative(n / b, b);
    }
}

/// A number of at least two digits has a smaller decimal digit sum.
pub proof fn lemma_digit_sum_smaller(n: int)
    requires
        n >= 0,
    ensures
        digit_sum(n, 10) <= n,
        n >= 10 ==> digit_sum(n, 10) < n,
    decreases n,
{
    if n > 0 {
        lemma_digit_sum_smaller(n / 10);
    }
}

/// The digital root: decimal digit sums taken until one digit is left.
pub open spec fn digital_root_of(n: int) -> int
    decreases n,
{
    if n >= 10 {
        proof {
            lemma_digit_sum_smaller(n);
            lemma_digit_sum_nonnegative(n, 10);
        }
        digital_root_of(digit_sum(n, 10))
    } else {
        n
    }
}

/// The digital root of a natural number
pub fn digital_root(n: &AFNSBigInt) -> (r: AFNSBigInt)
    requires
        n@ >= 0,
    ensures
        r@ == digital_root_of(n@),
{
    let ten = big_from_i64(10);
    let mut x = n.clone();
    while big_le(&ten, &x)
        invariant
            ten@ == 10,
            x@ >= 0,
            digital_root_of(x@) == digital_root_of(n@),
        decreases x@,
    {
        proof {
            lemma_digit_sum_smaller(x@);
            lemma_digit_sum_nonnegative(x@, 10);
            assert(abs_int(x@) == x@);
        }
        x = sum_digits_impl(&x, 10);
    }
    x
}

/// The decimal digits of a number are the characters '0' to '9'.
pub proof fn lemma_decimal_chars(n: nat)
    ensures
        forall|i: int| 0 <= i < radix_digits(n, 10).len() ==> '0' <= #[trigger] radix_digits(n, 10)[i] <= '9',
        radix_digits(n, 10).len() >= 1,
    decreases n,
{
    if n >= 10 {
        lemma_decimal_chars(n / 10);
        let s = radix_digits(n / 10, 10);
        assert(radix_digits(n, 10) == s.push(radix_digit(n % 10)));
        assert forall|i: int| 0 <= i < radix_digits(n, 10).len() implies '0' <= #[trigger] radix_digits(n, 10)[i]
            <= '9' by {
            if i < s.len() {
                assert(radix_digits(n, 10)[i] == s[i]);
            }
        }
    }
}

/// Whether the decimal digits of a natural number read the same both ways
pub fn is_palindromic(n: &AFNSBigInt) -> (b: bool)
    requires
        n@ >= 0,
    ensures
        b == (forall|k: int| 0 <= k < radix_digits(n@ as nat, 10).len() ==> #[trigger] radix_digits(n@ as nat, 10)[k]
            == radix_digits(n@ as nat, 10)[radix_digits(n@ as nat, 10).len() - 1 - k]),
{
    let text = big_to_str_radix(n, 10);
    let c = chars_of(text.as_str());
    let ghost t = radix_digits(n@ as nat, 10);
    assert(c@ == t);
    let len = c.len();
    let mut i: usize = 0;
    let mut j: usize = if len == 0 { 0 } else { len - 1 };
    while i < j
        invariant
            t == radix_digits(n@ as nat, 10),
            c@ == t,
            len == t.len(),
            i + j == if len == 0 { 0 } else { len - 1 },
            j < len || len == 0,
            forall|k: int| 0 <= k < i ==> #[trigger] t[k] == t[len - 1 - k],
            forall|k: int| j < k < len ==> #[trigger] t[k] == t[len - 1 - k],
        ensures
            i >= j,
            i + j == if len == 0 { 0 } else { len - 1 },
            forall|k: int| 0 <= k < i ==> #[trigger] t[k] == t[len - 1 - k],
            forall|k: int| j < k < len ==> #[trigger] t[k] == t[len - 1 - k],
        decreases j + 1 - i,
    {
        if c[i] != c[j] {
            assert(t[i as int] != t[len - 1 - i]);
            assert(!(forall|k: int| 0 <= k < t.len() ==> #[trigger] t[k] == t[t.len() - 1 - k])) by {
                assert(0 <= i < t.len());
                assert(t.len() - 1 - i == len - 1 - i);
            }
            return false;
        }
        i = i + 1;
        if j == 0 {
            break;
        }
        j = j - 1;
    }
    proof {
        assert forall|k: int| 0 <= k < len implies #[trigger] t[k] == t[len - 1 - k] by {
            if i <= k && k <= j {
                assert(k == len - 1 - k);
            }
        }
    }
    true
}

/// The sum of each digit raised to the power `p`.
pub open spec fn armstrong_sum(t: Seq<char>, p: nat) -> int
    decreases t.len(),
{
    if t.len() == 0 {
        0
    } else {
        armstrong_sum(t.drop_last(), p) + pow(t.last() as int - 48, p)
    }
}

/// Whether a natural number is an Armstrong number: the sum of its digits,
/// each raised to the number of digits, is the number itself
pub fn is_armstrong(n: &AFNSBigInt) -> (b: bool)
    requires
        n@ >= 0,
    ensures
        b == (armstrong_sum(radix_digits(n@ as nat, 10), (radix_digits(n@ as nat, 10).len() as u32) as nat) == n@),
{
    let text = big_to_str_radix(n, 10);
    let c = chars_of(text.as_str());
    let ghost t = radix_digits(n@ as nat, 10);
    proof {
        lemma_decimal_chars(n@ as nat);
    }
    let power = c.len() as u32;
    let mut sum = big_from_i64(0);
    let mut i: usize = 0;
    while i < c.len()
        invariant
            c@ == t,
            i <= c@.len(),
            power == (t.len() as u32),
            forall|k: int| 0 <= k < t.len() ==> '0' <= #[trigger] t[k] <= '9',
            sum@ == armstrong_sum(t.take(i as int), power as nat),
        decreases c@.len() - i,
    {
        let d = (c[i] as u32) - 48;
        proof {
            assert(t.take(i + 1).drop_last() =~= t.take(i as int));
            assert(t.take(i + 1).last() == t[i as int]);
        }
        sum = sum.add(&big_pow(&big_from_u128(d as u128), power));
        i = i + 1;
    }
    assert(t.take(i as int) =~= t);
    big_eq(&sum, n)
}

/// The sum of the squares of the decimal digits.
pub open spec fn digit_square_sum_of(n: int) -> int
    decreases n,
{
    if n > 0 {
        (n % 10) * (n % 10) + digit_square_sum_of(n / 10)
    } else {
        0
    }
}

/// The sum of the squares of the decimal digits of a natural number
pub fn digit_square_sum(n: &AFNSBigInt) -> (r: AFNSBigInt)
    requires
        n@ >= 0,
    ensures
        r@ == digit_square_sum_of(n@),
{
    if big_is_zero(n) {
        return big_from_i64(0);
    }
    let ten = big_from_i64(10);
    let mut total = big_from_i64(0);
    let mut current = n.clone();
    while !big_is_zero(&current)
        invariant
            ten@ == 10,
            current@ >= 0,
            total@ + digit_square_sum_of(current@) == digit_square_sum_of(n@),
        decreases current@,
    {
        let (q, r) = big_div_rem(&current, &ten);
        proof {
            assert(abs_int(current@) == current@);
        }
        total = total.add(&big_mul(&r, &r));
        current = q;
    }
    total
}

/// Whether some split of the square of `n` after `k` digits from the right
/// has a nonzero right part and parts that add up to `n`.
pub open spec fn kaprekar_split(n: int, k: nat) -> bool {
    pow(10, k) <= n * n && (n * n) % pow(10, k) != 0 && (n * n) / pow(10, k) + (n * n) % pow(10, k) == n
}

/// Whether a natural number is a Kaprekar number: 0, 1, or its square
/// splits into two parts, the right one not zero, that add up to it
pub fn is_kaprekar(n: &AFNSBigInt) -> (b: bool)
    requires
        n@ >= 0,
    ensures
        b == (n@ <= 1 || exists|k: nat| #[trigger] kaprekar_split(n@, k)),
{
    let one = big_from_i64(1);
    if big_le(n, &one) {
        return true;
    }
    let square = big_mul(n, n);
    let ten = big_from_i64(10);
    let mut power = big_from_i64(1);
    let ghost nv = n@;
    let ghost mut k: nat = 0;
    proof {
        vstd::arithmetic::power::lemma_pow0(10);
        assert(nv * nv >= 0) by (nonlinear_arith);
    }
    while big_le(&power, &square)
        invariant
            nv == n@,
            nv >= 2,
            square@ == nv * nv,
            ten@ == 10,
            power@ == pow(10, k),
            power@ >= 1,
            forall|j: nat| j < k ==> !#[trigger] kaprekar_split(nv, j),
        decreases if power@ <= square@ + 1 { square@ + 1 - power@ } else { 0 },
    {
        proof {
            assert(abs_int(square@) == square@) by {
                assert(nv * nv >= 0) by (nonlinear_arith);
            }
            assert(abs_int(power@) == power@);
        }
        let right = big_rem(&square, &power);
        let left = big_div(&square, &power);
        if !big_is_zero(&right) && big_eq(&left.add(&right), n) {
            assert(kaprekar_split(nv, k));
            return true;
        }
        proof {
            assert(pow(10, k + 1) == 10 * pow(10, k)) by {
                reveal(pow);
            }
        }
        power = big_mul(&power, &ten);
        proof {
            k = k + 1;
        }
    }
    proof {
        assert forall|j: nat| !#[trigger] kaprekar_split(nv, j) by {
            if j >= k {
                lemma_pow_increases(10, k, j);
            }
        }
    }
    false
}


/// The decimal digits of a number, most significant first.
pub open spec fn decimal_digit_seq(v: nat) -> Seq<u32>
    decreases v,
{
    if v < 10 {
        seq![v as u32]
    } else {
        decimal_digit_seq(v / 10).push((v % 10) as u32)
    }
}

/// The decimal digits of a number with leading zeros up to four digits,
/// as `{:04}` writes it.
pub open spec fn padded_digits(v: nat) -> Seq<u32> {
    let d = decimal_digit_seq(v);
    if d.len() < 4 {
        Seq::new((4 - d.len()) as nat, |i: int| 0u32) + d
    } else {
        d
    }
}

/// The order of digits.
pub open spec fn digit_le() -> spec_fn(u32, u32) -> bool {
    |x: u32, y: u32| x <= y
}

/// The number that digits spell, most significant first.
pub open spec fn digits_number(s: Seq<u32>) -> int
    decreases s.len(),
{
    if s.len() == 0 {
        0
    } else {
        digits_number(s.drop_last()) * 10 + s.last()
    }
}

/// The digits of a number sorted in increasing order.
pub open spec fn kaprekar_sorted(v: nat) -> Seq<u32> {
    padded_digits(v).sort_by(digit_le())
}

/// One step of Kaprekar's routine: the digits in decreasing order less the
/// digits in increasing order.
pub open spec fn kaprekar_step_of(v: nat) -> int {
    digits_number(kaprekar_sorted(v).reverse()) - digits_number(kaprekar_sorted(v))
}

/// The number the digits of `v` spell in decreasing order.
pub open spec fn kaprekar_large(v: nat) -> int {
    digits_number(kaprekar_sorted(v).reverse())
}

proof fn lemma_digit_le_total()
    ensures
        vstd::relations::total_ordering(digit_le()),
{
}

/// A number spelled by digits is the first digit's place value plus the
/// rest.
proof fn lemma_digits_number_front(s: Seq<u32>)
    requires
        s.len() >= 1,
    ensures
        digits_number(s) == s[0] * pow(10, (s.len() - 1) as nat) + digits_number(s.drop_first()),
    decreases s.len(),
{
    if s.len() == 1 {
        vstd::arithmetic::power::lemma_pow0(10);
        assert(s.drop_first() =~= Seq::<u32>::empty());
        assert(s.drop_last() =~= Seq::<u32>::empty());
    } else {
        lemma_digits_number_front(s.drop_last());
        assert(s.drop_last().drop_first() =~= s.drop_first().drop_last());
        assert(s.drop_first().last() == s.last());
        assert(pow(10, (s.len() - 1) as nat) == 10 * pow(10, (s.len() - 2) as nat)) by {
            reveal(pow);
        }
        assert(s.drop_last()[0] == s[0]);
        assert((s[0] * pow(10, (s.len() - 2) as nat) + digits_number(s.drop_first().drop_last())) * 10 + s.last()
            == s[0] * (10 * pow(10, (s.len() - 2) as nat)) + (digits_number(s.drop_first().drop_last()) * 10
            + s.last())) by (nonlinear_arith);
    }
}

/// Digits spell a number below ten to their count.
proof fn lemma_digits_number_bound(s: Seq<u32>)
    requires
        forall|i: int| 0 <= i < s.len() ==> #[trigger] s[i] <= 9,
    ensures
        0 <= digits_number(s) < pow(10, s.len()),
    decreases s.len(),
{
    if s.len() == 0 {
        vstd::arithmetic::power::lemma_pow0(10);
    } else {
        let r = s.drop_last();
        assert forall|i: int| 0 <= i < r.len() implies #[trigger] r[i] <= 9 by {
            assert(r[i] == s[i]);
        }
        lemma_digits_number_bound(r);
        assert(s[s.len() - 1] <= 9);
        assert(pow(10, s.len()) == 10 * pow(10, r.len())) by {
            reveal(pow);
        }
        assert(digits_number(r) * 10 + s.last() < 10 * pow(10, r.len())) by (nonlinear_arith)
            requires digits_number(r) < pow(10, r.len()), s.last() <= 9, digits_number(r) >= 0;
    }
}

/// Sorted digits spell no more than the same digits reversed.
proof fn lemma_sorted_digits_smaller(s: Seq<u32>)
    requires
        vstd::relations::sorted_by(s, digit_le()),
        forall|i: int| 0 <= i < s.len() ==> #[trigger] s[i] <= 9,
    ensures
        digits_number(s) <= digits_number(s.reverse()),
    decreases s.len(),
{
    if s.len() >= 2 {
        let n = s.len();
        let mid = s.subrange(1, n - 1);
        assert forall|i: int, j: int| 0 <= i < j < mid.len() implies (digit_le())(mid[i], mid[j]) by {
            assert(mid[i] == s[i + 1]);
            assert(mid[j] == s[j + 1]);
        }
        assert forall|i: int| 0 <= i < mid.len() implies #[trigger] mid[i] <= 9 by {
            assert(mid[i] == s[i + 1]);
        }
        lemma_sorted_digits_smaller(mid);
        let r = s.reverse();
        assert(r.subrange(1, n - 1) =~= mid.reverse());
        let a = s[0];
        let b = s[n - 1];
        assert((digit_le())(a, b));
        lemma_digits_number_front(s);
        lemma_digits_number_front(r);
        assert(s.drop_first().drop_last() =~= mid);
        assert(r.drop_first().drop_last() =~= mid.reverse());
        assert(s.drop_first().last() == b);
        assert(r.drop_first().last() == a);
        assert(r[0] == b);
        assert(digits_number(s.drop_first()) == digits_number(mid) * 10 + b);
        assert(digits_number(r.drop_first()) == digits_number(mid.reverse()) * 10 + a);
        lemma_pow_positive(10, (n - 1) as nat);
        assert(pow(10, (n - 1) as nat) >= 1);
        assert(a * pow(10, (n - 1) as nat) + digits_number(mid) * 10 + b <= b * pow(10, (n - 1) as nat)
            + digits_number(mid.reverse()) * 10 + a) by (nonlinear_arith)
            requires
                a <= b,
                digits_number(mid) <= digits_number(mid.reverse()),
                pow(10, (n - 1) as nat) >= 1,
        ;
    } else {
        assert(s.reverse() =~= s);
    }
}

/// The padded digits of a `u32` are at most ten digits from 0 to 9.
proof fn lemma_digit_seq_facts(v: nat)
    ensures
        forall|i: int| 0 <= i < decimal_digit_seq(v).len() ==> #[trigger] decimal_digit_seq(v)[i] <= 9,
        decimal_digit_seq(v).len() >= 1,
        v < pow(10, 10) ==> decimal_digit_seq(v).len() <= 10,
        v < pow(10, 4) ==> decimal_digit_seq(v).len() <= 4,
    decreases v,
{
    if v >= 10 {
        lemma_digit_seq_facts(v / 10);
        let d = decimal_digit_seq(v / 10);
        assert forall|i: int| 0 <= i < decimal_digit_seq(v).len() implies #[trigger] decimal_digit_seq(v)[i] <= 9 by {
            if i < d.len() {
                assert(decimal_digit_seq(v)[i] == d[i]);
            }
        }
        assert(pow(10, 10) == 10 * pow(10, 9)) by {
            reveal(pow);
        }
        assert(pow(10, 4) == 10 * pow(10, 3)) by {
            reveal(pow);
        }
        lemma_digit_seq_bound9(v / 10);
    }
}

/// Fewer digits below the lower powers of ten.
proof fn lemma_digit_seq_bound9(v: nat)
    ensures
        v < pow(10, 9) ==> decimal_digit_seq(v).len() <= 9,
        v < pow(10, 3) ==> decimal_digit_seq(v).len() <= 3,
{
    lemma_digit_seq_len_bound(v, 9);
    lemma_digit_seq_len_bound(v, 3);
}

/// A number below 10^k has at most k digits, for k at least 1.
proof fn lemma_digit_seq_len_bound(v: nat, k: nat)
    requires
        k >= 1,
    ensures
        v < pow(10, k) ==> decimal_digit_seq(v).len() <= k,
    decreases v,
{
    if v >= 10 && v < pow(10, k) {
        if k == 1 {
            assert(pow(10, 1) == 10) by {
                vstd::arithmetic::power::lemma_pow1(10);
            }
        } else {
            assert(pow(10, k) == 10 * pow(10, (k - 1) as nat)) by {
                reveal(pow);
            }
            assert(v / 10 < pow(10, (k - 1) as nat)) by (nonlinear_arith)
                requires v < 10 * pow(10, (k - 1) as nat), v >= 10;
            lemma_digit_seq_len_bound(v / 10, (k - 1) as nat);
        }
    }
}

/// The padded digits of a number, most significant first
fn padded_digit_vec(value: u32) -> (v: Vec<u32>)
    ensures
        v@ == padded_digits(value as nat),
        v@.len() <= 10,
        value <= 9999 ==> v@.len() == 4,
{
    let mut digits: Vec<u32> = Vec::new();
    let mut x = value;
    while x >= 10
        invariant
            decimal_digit_seq(value as nat) == decimal_digit_seq(x as nat) + digits@,
        decreases x,
    {
        let ghost before = digits@;
        digits.insert(0, x % 10);
        proof {
            assert(decimal_digit_seq(x as nat) == decimal_digit_seq((x / 10) as nat).push(x % 10));
            assert(decimal_digit_seq((x / 10) as nat).push(x % 10) + before =~= decimal_digit_seq((x / 10) as nat)
                + digits@);
        }
        x = x / 10;
    }
    digits.insert(0, x);
    proof {
        assert(decimal_digit_seq(x as nat) == seq![x]);
        assert(digits@ =~= decimal_digit_seq(value as nat));
        lemma_digit_seq_facts(value as nat);
        assert(pow(10, 10) == 10000000000) by {
            reveal_with_fuel(pow, 11);
        }
        assert(pow(10, 4) == 10000) by {
            reveal_with_fuel(pow, 5);
        }
    }
    let ghost d = digits@;
    while digits.len() < 4
        invariant
            digits@.len() <= 4 || digits@ == d,
            d.len() >= 1,
            digits@.len() >= d.len(),
            digits@ == Seq::new((digits@.len() - d.len()) as nat, |i: int| 0u32) + d,
        decreases 4 - digits@.len(),
    {
        digits.insert(0, 0);
        proof {
            assert(digits@ =~= Seq::new((digits@.len() - d.len()) as nat, |i: int| 0u32) + d);
        }
    }
    proof {
        if d.len() >= 4 {
            assert(digits@ =~= d);
        } else {
            assert(digits@.len() == 4);
        }
    }
    digits
}

/// The digits sorted in increasing order
fn sort_digits(v: &Vec<u32>) -> (s: Vec<u32>)
    ensures
        s@ == v@.sort_by(digit_le()),
{
    let mut out: Vec<u32> = Vec::new();
    let mut i: usize = 0;
    proof {
        broadcast use vstd::seq_lib::group_to_multiset_ensures;
        assert(v@.take(0) =~= Seq::<u32>::empty());
        assert(out@ =~= Seq::<u32>::empty());
    }
    while i < v.len()
        invariant
            i <= v@.len(),
            vstd::relations::sorted_by(out@, digit_le()),
            out@.to_multiset() == v@.take(i as int).to_multiset(),
        decreases v@.len() - i,
    {
        let x = v[i];
        let mut j: usize = out.len();
        while j > 0 && out[j - 1] > x
            invariant
                j <= out@.len(),
                forall|m: int| j <= m < out@.len() ==> out@[m] > x,
            decreases j,
        {
            j = j - 1;
        }
        let ghost before = out@;
        out.insert(j, x);
        proof {
            broadcast use vstd::seq_lib::to_multiset_insert;
            broadcast use vstd::seq_lib::to_multiset_build;
            assert(v@.take(i + 1) =~= v@.take(i as int).push(x));
            assert forall|a: int, b: int| 0 <= a < b < out@.len() implies (digit_le())(out@[a], out@[b]) by {
                assert(vstd::relations::sorted_by(before, digit_le()));
                if b < j {
                    assert(out@[a] == before[a] && out@[b] == before[b]);
                } else if b == j {
                    assert(out@[a] == before[a]);
                    if j > 0 {
                        assert(before[j - 1] <= x);
                        if a < j - 1 {
                            assert((digit_le())(before[a], before[j - 1]));
                        }
                    }
                } else if a < j {
                    assert(out@[a] == before[a] && out@[b] == before[b - 1]);
                } else if a == j {
                    assert(out@[b] == before[b - 1]);
                    assert(before[b - 1] > x);
                } else {
                    assert(out@[a] == before[a - 1] && out@[b] == before[b - 1]);
                }
            }
        }
        i = i + 1;
    }
    proof {
        assert(v@.take(i as int) =~= v@);
        lemma_digit_le_total();
        v@.lemma_sort_by_ensures(digit_le());
        vstd::seq_lib::lemma_sorted_unique(out@, v@.sort_by(digit_le()), digit_le());
    }
    out
}

/// The number digits spell, in `u64`, for at most ten digits
fn digits_value(s: &Vec<u32>, reversed: bool) -> (n: u64)
    requires
        s@.len() <= 10,
        forall|i: int| 0 <= i < s@.len() ==> #[trigger] s@[i] <= 9,
    ensures
        n == digits_number(if reversed { s@.reverse() } else { s@ }),
{
    let ghost t = if reversed { s@.reverse() } else { s@ };
    let mut acc: u64 = 0;
    let mut i: usize = 0;
    proof {
        vstd::arithmetic::power::lemma_pow0(10);
        assert(pow(10, 10) == 10000000000) by {
            reveal_with_fuel(pow, 11);
        }
    }
    while i < s.len()
        invariant
            t == if reversed { s@.reverse() } else { s@ },
            s@.len() <= 10,
            forall|k: int| 0 <= k < s@.len() ==> #[trigger] s@[k] <= 9,
            i <= s@.len(),
            acc == digits_number(t.take(i as int)),
            acc < pow(10, i as nat),
            pow(10, 10) == 10000000000,
        decreases s@.len() - i,
    {
        let d = if reversed { s[s.len() - 1 - i] } else { s[i] };
        proof {
            assert(t[i as int] == d);
            assert(t.take(i + 1).drop_last() =~= t.take(i as int));
            assert(t.take(i + 1).last() == d);
            assert(pow(10, (i + 1) as nat) == 10 * pow(10, i as nat)) by {
                reveal(pow);
            }
            vstd::arithmetic::power::lemma_pow_increases(10, (i + 1) as nat, 10);
            assert(acc * 10 + d < 10 * pow(10, i as nat)) by (nonlinear_arith)
                requires acc < pow(10, i as nat), d <= 9;
        }
        acc = acc * 10 + d as u64;
        i = i + 1;
    }
    assert(t.take(i as int) =~= t);
    acc
}

/// One step of Kaprekar's routine on a number whose digits in decreasing
/// order fit in `u32`
pub fn kaprekar_step(value: u32) -> (r: u32)
    requires
        kaprekar_large(value as nat) <= u32::MAX,
    ensures
        r == kaprekar_step_of(value as nat),
{
    let digits = padded_digit_vec(value);
    let sorted = sort_digits(&digits);
    proof {
        lemma_digit_seq_facts(value as nat);
        let p = padded_digits(value as nat);
        assert forall|i: int| 0 <= i < p.len() implies #[trigger] p[i] <= 9 by {
            let d = decimal_digit_seq(value as nat);
            if d.len() < 4 {
                if i >= 4 - d.len() {
                    assert(p[i] == d[i - (4 - d.len())]);
                }
            }
        }
        lemma_digit_le_total();
        p.lemma_sort_by_ensures(digit_le());
        assert forall|i: int| 0 <= i < sorted@.len() implies #[trigger] sorted@[i] <= 9 by {
            vstd::seq_lib::to_multiset_contains(sorted@, sorted@[i]);
            assert(sorted@.to_multiset().contains(sorted@[i]));
            assert(p.to_multiset().contains(sorted@[i]));
            vstd::seq_lib::to_multiset_contains(p, sorted@[i]);
        }
        vstd::seq_lib::to_multiset_len(p);
        vstd::seq_lib::to_multiset_len(sorted@);
        lemma_sorted_digits_smaller(sorted@);
    }
    let small = digits_value(&sorted, false);
    let large = digits_value(&sorted, true);
    (large - small) as u32
}

/// Whether the four-digit form of a number has two different digits
pub fn kaprekar_has_distinct_digits(value: u32) -> (b: bool)
    ensures
        b == exists|i: int| 0 <= i < padded_digits(value as nat).len() && #[trigger] padded_digits(value as nat)[i]
            != padded_digits(value as nat)[0],
{
    let digits = padded_digit_vec(value);
    let mut i: usize = 0;
    while i < digits.len()
        invariant
            digits@ == padded_digits(value as nat),
            digits@.len() >= 4,
            i <= digits@.len(),
            forall|k: int| 0 <= k < i ==> #[trigger] digits@[k] == digits@[0],
        decreases digits@.len() - i,
    {
        if digits[i] != digits[0] {
            return true;
        }
        i = i + 1;
    }
    false
}

/// Kaprekar's routine applied `k` times.
pub open spec fn kaprekar_iter(v: nat, k: nat) -> nat
    decreases k,
{
    if k == 0 {
        v
    } else {
        kaprekar_step_of(kaprekar_iter(v, (k - 1) as nat)) as nat
    }
}

/// Steps of Kaprekar's routine keep a four-digit number at four digits.
proof fn lemma_kaprekar_step_small(v: nat)
    requires
        v <= 9999,
    ensures
        0 <= kaprekar_step_of(v) <= kaprekar_large(v) <= 9999,
{
    lemma_digit_seq_facts(v);
    assert(pow(10, 4) == 10000) by {
        reveal_with_fuel(pow, 5);
    }
    let p = padded_digits(v);
    assert forall|i: int| 0 <= i < p.len() implies #[trigger] p[i] <= 9 by {
        let d = decimal_digit_seq(v);
        if d.len() < 4 {
            if i >= 4 - d.len() {
                assert(p[i] == d[i - (4 - d.len())]);
            }
        }
    }
    lemma_digit_le_total();
    p.lemma_sort_by_ensures(digit_le());
    let s = kaprekar_sorted(v);
    assert forall|i: int| 0 <= i < s.len() implies #[trigger] s[i] <= 9 by {
        vstd::seq_lib::to_multiset_contains(s, s[i]);
        vstd::seq_lib::to_multiset_contains(p, s[i]);
    }
    vstd::seq_lib::to_multiset_len(p);
    vstd::seq_lib::to_multiset_len(s);
    assert(p.len() == 4);
    lemma_sorted_digits_smaller(s);
    assert forall|i: int| 0 <= i < s.reverse().len() implies #[trigger] s.reverse()[i] <= 9 by {
        assert(s.reverse()[i] == s[s.len() - 1 - i]);
    }
    lemma_digits_number_bound(s);
    lemma_digits_number_bound(s.reverse());
}

/// Whether Kaprekar's routine takes a four-digit number with two different
/// digits to 6174 within eight steps
pub fn kaprekar_reaches_constant(value: u32) -> (b: bool)
    requires
        value <= 9999,
    ensures
        b == ((exists|i: int| 0 <= i < padded_digits(value as nat).len() && #[trigger] padded_digits(value as nat)[i]
            != padded_digits(value as nat)[0]) && (exists|k: nat| k <= 8 && #[trigger] kaprekar_iter(value as nat, k)
            == 6174)),
{
    if !kaprekar_has_distinct_digits(value) {
        return false;
    }
    let mut v = value;
    let mut k: u32 = 0;
    while k < 8
        invariant
            k <= 8,
            v <= 9999,
            exists|i: int| 0 <= i < padded_digits(value as nat).len() && #[trigger] padded_digits(value as nat)[i]
                != padded_digits(value as nat)[0],
            v == kaprekar_iter(value as nat, k as nat),
            forall|j: nat| j < k ==> #[trigger] kaprekar_iter(value as nat, j) != 6174,
        decreases 8 - k,
    {
        if v == 6174 {
            assert(kaprekar_iter(value as nat, k as nat) == 6174);
            return true;
        }
        proof {
            lemma_kaprekar_step_small(v as nat);
        }
        v = kaprekar_step(v);
        k = k + 1;
    }
    proof {
        if v != 6174 {
            assert forall|j: nat| j <= 8 implies #[trigger] kaprekar_iter(value as nat, j) != 6174 by {
                if j < 8 {
                } else {
                    assert(j == 8);
                }
            }
        } else {
            assert(kaprekar_iter(value as nat, 8) == 6174);
        }
    }
    v == 6174
}

/// Whether Kaprekar's theorem holds of a number up to 9999; an error past
/// `u32` or above 9999
pub fn kaprekar_theorem(n: &AFNSBigInt) -> (r: Result<bool, ApexError>)
    requires
        n@ >= 0,
    ensures
        n@ > u32::MAX ==> (r matches Err(e) && e@ == "kaprekar_theorem currently supports inputs up to 32-bit"@),
        9999 < n@ <= u32::MAX ==> (r matches Err(e) && e@
            == "kaprekar_theorem expects a four-digit value (leading zeros allowed)"@),
        n@ <= 9999 ==> r == Ok::<bool, ApexError>(
            (exists|i: int| 0 <= i < padded_digits(n@ as nat).len() && #[trigger] padded_digits(n@ as nat)[i]
                != padded_digits(n@ as nat)[0]) && (exists|k: nat| k <= 8 && #[trigger] kaprekar_iter(n@ as nat, k)
                == 6174),
        ),
{
    let value = match big_to_u32(n) {
        Some(v) => v,
        None => return Err(ApexError::new(String::from_str("kaprekar_theorem currently supports inputs up to 32-bit"))),
    };
    if value > 9999 {
        return Err(ApexError::new(String::from_str("kaprekar_theorem expects a four-digit value (leading zeros allowed)")));
    }
    assert(value as nat == n@ as nat);
    let b = kaprekar_reaches_constant(value);
    assert(padded_digits(value as nat) == padded_digits(n@ as nat));
    assert(forall|k: nat| kaprekar_iter(value as nat, k) == #[trigger] kaprekar_iter(n@ as nat, k));
    Ok(b)
}

/// Whether Kaprekar's routine from `v` stays within `u32` for as long as
/// the step count goes.
pub open spec fn kaprekar_fits(v: nat, k: nat) -> bool
    decreases 101 - k,
{
    if v == 6174 || v == 0 || k >= 101 {
        true
    } else {
        kaprekar_large(v) <= u32::MAX && kaprekar_fits(kaprekar_step_of(v) as nat, k + 1)
    }
}

/// The number of Kaprekar steps from `v`, counted from `k`, until 6174 or
/// 0, giving up past 100 steps.
pub open spec fn kaprekar_steps_from(v: nat, k: nat) -> nat
    decreases 101 - k,
{
    if v == 6174 || v == 0 {
        k
    } else if k >= 100 {
        k + 1
    } else {
        kaprekar_steps_from(kaprekar_step_of(v) as nat, k + 1)
    }
}

/// Whether Kaprekar's routine from a number stays within `u32` for as
/// long as the step count goes
pub fn kaprekar_steps_fit(value: u32) -> (b: bool)
    ensures
        b == kaprekar_fits(value as nat, 0),
{
    let mut current = value;
    let mut steps: u32 = 0;
    while current != 6174 && current != 0 && steps < 101
        invariant
            steps <= 101,
            kaprekar_fits(current as nat, steps as nat) == kaprekar_fits(value as nat, 0),
        decreases 101 - steps,
    {
        if !kaprekar_large_fits(current) {
            return false;
        }
        current = kaprekar_step(current);
        steps = steps + 1;
    }
    true
}

/// Whether the digits of a number in decreasing order fit in `u32`
fn kaprekar_large_fits(value: u32) -> (b: bool)
    ensures
        b == (kaprekar_large(value as nat) <= u32::MAX),
{
    let digits = padded_digit_vec(value);
    let sorted = sort_digits(&digits);
    proof {
        lemma_digit_seq_facts(value as nat);
        let p = padded_digits(value as nat);
        assert forall|i: int| 0 <= i < p.len() implies #[trigger] p[i] <= 9 by {
            let d = decimal_digit_seq(value as nat);
            if d.len() < 4 {
                if i >= 4 - d.len() {
                    assert(p[i] == d[i - (4 - d.len())]);
                }
            }
        }
        lemma_digit_le_total();
        p.lemma_sort_by_ensures(digit_le());
        assert forall|i: int| 0 <= i < sorted@.len() implies #[trigger] sorted@[i] <= 9 by {
            vstd::seq_lib::to_multiset_contains(sorted@, sorted@[i]);
            vstd::seq_lib::to_multiset_contains(p, sorted@[i]);
        }
        vstd::seq_lib::to_multiset_len(p);
        vstd::seq_lib::to_multiset_len(sorted@);
    }
    let large = digits_value(&sorted, true);
    large <= 4294967295
}

/// The number of steps Kaprekar's routine takes to 6174 or 0, at most 101;
/// an error past `u32`. A start whose routine leaves `u32` is outside what
/// this accepts.
pub fn kaprekar_6174_steps(n: &AFNSBigInt) -> (r: Result<u32, ApexError>)
    requires
        n@ >= 0,
        n@ <= u32::MAX ==> kaprekar_fits(n@ as nat, 0),
    ensures
        n@ > u32::MAX ==> (r matches Err(e) && e@ == "kaprekar_6174_steps currently supports inputs up to 32-bit"@),
        n@ <= u32::MAX ==> r == Ok::<u32, ApexError>(kaprekar_steps_from(n@ as nat, 0) as u32),
{
    let mut current = match big_to_u32(n) {
        Some(v) => v,
        None => return Err(ApexError::new(String::from_str("kaprekar_6174_steps currently supports inputs up to 32-bit"))),
    };
    let mut steps: u32 = 0;
    while current != 6174 && current != 0
        invariant_except_break
            steps <= 100,
            kaprekar_fits(current as nat, steps as nat),
            kaprekar_steps_from(current as nat, steps as nat) == kaprekar_steps_from(n@ as nat, 0),
        ensures
            kaprekar_steps_from(n@ as nat, 0) == steps,
        decreases 101 - steps,
    {
        let ghost before = current as nat;
        current = kaprekar_step(current);
        steps = steps + 1;
        if steps > 100 {
            assert(kaprekar_steps_from(before, 100) == 101);
            break;
        }
    }
    Ok(steps)
}


/// The sum of the squares of the decimal digits, applied `k` times.
pub open spec fn happy_iter(n: int, k: nat) -> int
    decreases k,
{
    if k == 0 {
        n
    } else {
        digit_square_sum_of(happy_iter(n, (k - 1) as nat))
    }
}

/// Whether value `k` of the digit-square sequence from `n` came up before.
pub open spec fn repeats_before(n: int, k: nat) -> bool {
    exists|j: nat| j < k && #[trigger] happy_iter(n, j) == happy_iter(n, k)
}

/// Whether the sequence from `n` stops at step `k`: a repeated value or 1.
pub open spec fn happy_stop(n: int, k: nat) -> bool {
    repeats_before(n, k) || happy_iter(n, k) == 1
}

/// The values of integers.
pub open spec fn big_values(v: Seq<AFNSBigInt>) -> Seq<int> {
    v.map_values(|b: AFNSBigInt| b@)
}

/// Digit-square sums of natural numbers are natural numbers.
proof fn lemma_digit_square_sum_nonnegative(n: int)
    ensures
        digit_square_sum_of(n) >= 0,
    decreases n,
{
    if n > 0 {
        lemma_digit_square_sum_nonnegative(n / 10);
        assert((n % 10) * (n % 10) >= 0) by (nonlinear_arith);
    }
}

/// Whether a natural number is happy, and the steps its digit-square
/// sequence takes to stop: at 1 (happy) or at a value seen before (not
/// happy). None when it does not stop within as many steps as `u32`
/// counts.
pub fn happy_classification(n: &AFNSBigInt) -> (r: Option<(bool, u32)>)
    requires
        n@ >= 0,
    ensures
        match r {
            Some((happy, steps)) => happy_stop(n@, steps as nat) && (forall|j: nat| j < steps ==> !#[trigger] happy_stop(
                n@,
                j,
            )) && happy == (happy_iter(n@, steps as nat) == 1 && !repeats_before(n@, steps as nat)),
            None => forall|k: nat| k <= u32::MAX ==> !#[trigger] happy_stop(n@, k),
        },
{
    let one = big_from_i64(1);
    let mut seen: Vec<AFNSBigInt> = Vec::new();
    let mut current = n.clone();
    let mut steps: u32 = 0;
    loop
        invariant
            one@ == 1,
            current@ == happy_iter(n@, steps as nat),
            current@ >= 0,
            seen@.len() == steps,
            big_values(seen@) == Seq::new(steps as nat, |j: int| happy_iter(n@, j as nat)),
            forall|j: nat| j < steps ==> !#[trigger] happy_stop(n@, j),
        decreases u32::MAX - steps,
    {
        let mut found = false;
        let mut i: usize = 0;
        while i < seen.len()
            invariant
                i <= seen@.len(),
                seen@.len() == steps,
                big_values(seen@) == Seq::new(steps as nat, |j: int| happy_iter(n@, j as nat)),
                !found ==> forall|j: int| 0 <= j < i ==> #[trigger] happy_iter(n@, j as nat) != current@,
                found ==> repeats_before(n@, steps as nat),
                current@ == happy_iter(n@, steps as nat),
            decreases seen@.len() - i,
        {
            assert(big_values(seen@)[i as int] == seen@[i as int]@);
            assert(big_values(seen@)[i as int] == happy_iter(n@, i as nat));
            if big_eq(&seen[i], &current) {
                assert(happy_iter(n@, i as nat) == happy_iter(n@, steps as nat));
                assert((i as nat) < steps);
                found = true;
            }
            i = i + 1;
        }
        if found {
            return Some((false, steps));
        }
        proof {
            assert(!repeats_before(n@, steps as nat)) by {
                assert forall|j: nat| j < steps implies #[trigger] happy_iter(n@, j) != happy_iter(n@, steps as nat) by {
                    let ji = j as int;
                    assert(0 <= ji < i);
                    assert((ji as nat) == j);
                    assert(happy_iter(n@, ji as nat) != current@);
                }
            }
        }
        let ghost before = big_values(seen@);
        seen.push(current.clone());
        proof {
            assert(big_values(seen@) =~= before.push(current@));
            assert(big_values(seen@) =~= Seq::new((steps + 1) as nat, |j: int| happy_iter(n@, j as nat)));
        }
        if big_eq(&current, &one) {
            return Some((true, steps));
        }
        proof {
            assert(!happy_stop(n@, steps as nat));
            lemma_digit_square_sum_nonnegative(current@);
        }
        if steps == u32::MAX {
            proof {
                assert forall|k: nat| k <= u32::MAX implies !#[trigger] happy_stop(n@, k) by {
                    if k < steps {
                    } else {
                        assert(k == steps);
                    }
                }
            }
            return None;
        }
        current = digit_square_sum(&current);
        steps = steps + 1;
    }
}

/// Whether a natural number is happy; None when its sequence does not stop
/// within as many steps as `u32` counts
pub fn is_happy(n: &AFNSBigInt) -> (b: Option<bool>)
    requires
        n@ >= 0,
    ensures
        match b {
            Some(h) => exists|k: nat| #[trigger] happy_stop(n@, k) && (forall|j: nat| j < k ==> !#[trigger] happy_stop(
                n@,
                j,
            )) && h == (happy_iter(n@, k) == 1 && !repeats_before(n@, k)),
            None => forall|k: nat| k <= u32::MAX ==> !#[trigger] happy_stop(n@, k),
        },
{
    match happy_classification(n) {
        Some((happy, steps)) => {
            assert(happy_stop(n@, steps as nat));
            Some(happy)
        },
        None => None,
    }
}

/// The steps a happy number's digit-square sequence takes to reach 1; -1
/// when it is not happy; None when it does not stop within as many steps as
/// `u32` counts
pub fn happy_steps(n: &AFNSBigInt) -> (r: Option<i64>)
    requires
        n@ >= 0,
    ensures
        match r {
            Some(v) => exists|k: nat| #[trigger] happy_stop(n@, k) && (forall|j: nat| j < k ==> !#[trigger] happy_stop(
                n@,
                j,
            )) && v == (if happy_iter(n@, k) == 1 && !repeats_before(n@, k) { k as int } else { -1 }),
            None => forall|k: nat| k <= u32::MAX ==> !#[trigger] happy_stop(n@, k),
        },
{
    match happy_classification(n) {
        Some((happy, steps)) => {
            assert(happy_stop(n@, steps as nat));
            if happy {
                Some(steps as i64)
            } else {
                Some(-1)
            }
        },
        None => None,
    }
}

} // verus!
