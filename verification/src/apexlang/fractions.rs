//! Exact fractions behind ApexLang's `fractions` module: a fraction is a
//! pair of integers, numerator and denominator, kept in lowest terms with a
//! positive denominator.

use vstd::prelude::*;
use vstd::arithmetic::power::{pow, lemma_pow1};
use vstd::arithmetic::div_mod::lemma_mul_mod_noop_left;
use crate::apexlang::error::ApexError;
use crate::forge::math::{
    abs_int, big_abs, big_div, big_div_floor, big_eq, big_from_i64, big_gcd, big_is_negative, big_is_zero, big_le,
    big_mod_floor, big_mul, big_neg, big_rem, floor_div, gcd_of, trunc_div, AFNSBigInt,
};

verus! {

/// A fraction in lowest terms with a positive denominator: the sign moves
/// to the numerator and both are divided by their greatest common
/// divisor. A zero denominator is an error.
pub open spec fn normalized(n: int, d: int) -> Result<(int, int), Seq<char>> {
    if d == 0 {
        Err("Fraction denominator cannot be zero"@)
    } else {
        let n1 = if d < 0 { -n } else { n };
        let d1 = if d < 0 { -d } else { d };
        let g = gcd_of(abs_int(n1) as nat, abs_int(d1) as nat) as int;
        if g == 0 {
            Ok((n1, d1))
        } else {
            Ok((trunc_div(n1, g), trunc_div(d1, g)))
        }
    }
}

/// Whether a computed fraction is the one a specification gives.
pub open spec fn gives(
    r: Result<(AFNSBigInt, AFNSBigInt), ApexError>,
    s: Result<(int, int), Seq<char>>,
) -> bool {
    match s {
        Ok((n, d)) => r matches Ok((a, b)) && a@ == n && b@ == d,
        Err(m) => r matches Err(e) && e@ == m,
    }
}

/// A fraction in lowest terms with a positive denominator
pub fn normalize_fraction(numerator: &AFNSBigInt, denominator: &AFNSBigInt) -> (r: Result<
    (AFNSBigInt, AFNSBigInt),
    ApexError,
>)
    ensures
        gives(r, normalized(numerator@, denominator@)),
{
    if big_is_zero(denominator) {
        return Err(ApexError::new(String::from_str("Fraction denominator cannot be zero")));
    }
    let (num, den) = if big_is_negative(denominator) {
        (big_neg(numerator), big_neg(denominator))
    } else {
        (numerator.clone(), denominator.clone())
    };
    let g = big_gcd(&num, &den);
    if !big_is_zero(&g) {
        Ok((big_div(&num, &g), big_div(&den, &g)))
    } else {
        Ok((num, den))
    }
}

/// The sum of two fractions
pub fn fraction_add(
    a_num: &AFNSBigInt,
    a_den: &AFNSBigInt,
    b_num: &AFNSBigInt,
    b_den: &AFNSBigInt,
) -> (r: Result<(AFNSBigInt, AFNSBigInt), ApexError>)
    ensures
        gives(r, normalized(a_num@ * b_den@ + b_num@ * a_den@, a_den@ * b_den@)),
{
    let numerator = big_mul(a_num, b_den).add(&big_mul(b_num, a_den));
    let denominator = big_mul(a_den, b_den);
    normalize_fraction(&numerator, &denominator)
}

/// The difference of two fractions
pub fn fraction_subtract(
    a_num: &AFNSBigInt,
    a_den: &AFNSBigInt,
    b_num: &AFNSBigInt,
    b_den: &AFNSBigInt,
) -> (r: Result<(AFNSBigInt, AFNSBigInt), ApexError>)
    ensures
        gives(r, normalized(a_num@ * b_den@ - b_num@ * a_den@, a_den@ * b_den@)),
{
    let numerator = big_mul(a_num, b_den).subtract(&big_mul(b_num, a_den));
    let denominator = big_mul(a_den, b_den);
    normalize_fraction(&numerator, &denominator)
}

/// The product of two fractions
pub fn fraction_multiply(
    a_num: &AFNSBigInt,
    a_den: &AFNSBigInt,
    b_num: &AFNSBigInt,
    b_den: &AFNSBigInt,
) -> (r: Result<(AFNSBigInt, AFNSBigInt), ApexError>)
    ensures
        gives(r, normalized(a_num@ * b_num@, a_den@ * b_den@)),
{
    normalize_fraction(&big_mul(a_num, b_num), &big_mul(a_den, b_den))
}

/// The quotient of two fractions; an error when the divisor's numerator
/// is zero
pub fn fraction_divide(
    a_num: &AFNSBigInt,
    a_den: &AFNSBigInt,
    b_num: &AFNSBigInt,
    b_den: &AFNSBigInt,
) -> (r: Result<(AFNSBigInt, AFNSBigInt), ApexError>)
    ensures
        b_num@ == 0 ==> (r matches Err(e) && e@ == "Cannot divide by a zero numerator"@),
        b_num@ != 0 ==> gives(r, normalized(a_num@ * b_den@, a_den@ * b_num@)),
{
    if big_is_zero(b_num) {
        return Err(ApexError::new(String::from_str("Cannot divide by a zero numerator")));
    }
    normalize_fraction(&big_mul(a_num, b_den), &big_mul(a_den, b_num))
}

/// The fraction turned upside down; an error for zero
pub fn fraction_reciprocal(num: &AFNSBigInt, den: &AFNSBigInt) -> (r: Result<
    (AFNSBigInt, AFNSBigInt),
    ApexError,
>)
    ensures
        num@ == 0 ==> (r matches Err(e) && e@ == "Zero has no reciprocal"@),
        num@ != 0 ==> (r matches Ok((a, b)) && a@ == den@ && b@ == num@),
{
    if big_is_zero(num) {
        return Err(ApexError::new(String::from_str("Zero has no reciprocal")));
    }
    Ok((den.clone(), num.clone()))
}

/// The mediant of two fractions: numerators added over denominators added
pub fn fraction_mediant(
    a_num: &AFNSBigInt,
    a_den: &AFNSBigInt,
    b_num: &AFNSBigInt,
    b_den: &AFNSBigInt,
) -> (r: Result<(AFNSBigInt, AFNSBigInt), ApexError>)
    ensures
        gives(r, normalized(a_num@ + b_num@, a_den@ + b_den@)),
{
    normalize_fraction(&a_num.add(b_num), &a_den.add(b_den))
}

/// Whether two fractions are Farey neighbours: their cross difference is
/// 1 or -1
pub fn fraction_farey_neighbors(
    a_num: &AFNSBigInt,
    a_den: &AFNSBigInt,
    b_num: &AFNSBigInt,
    b_den: &AFNSBigInt,
) -> (b: bool)
    ensures
        b == (abs_int(a_num@ * b_den@ - b_num@ * a_den@) == 1),
{
    let determinant = big_mul(a_num, b_den).subtract(&big_mul(b_num, a_den));
    big_eq(&big_abs(&determinant), &big_from_i64(1))
}

/// Whether a fraction lies strictly between -1 and 1
pub fn fraction_is_proper(num: &AFNSBigInt, den: &AFNSBigInt) -> (b: bool)
    ensures
        b == (abs_int(num@) < den@),
{
    let a = big_abs(num);
    big_le(&a, den) && !big_eq(&a, den)
}

/// Whether a fraction is a unit fraction: numerator 1 or -1 over a
/// denominator of at least 1
pub fn fraction_is_unit(num: &AFNSBigInt, den: &AFNSBigInt) -> (b: bool)
    ensures
        b == (abs_int(num@) == 1 && den@ >= 1),
{
    let one = big_from_i64(1);
    big_eq(&big_abs(num), &one) && big_le(&one, den)
}

/// A positive number with the factors `p` divided out.
pub open spec fn strip_factor(d: int, p: int) -> int
    decreases d,
{
    if d > 0 && p > 1 && d % p == 0 {
        proof {
            assert(d / p < d) by (nonlinear_arith)
                requires d > 0, p > 1;
        }
        strip_factor(d / p, p)
    } else {
        d
    }
}

/// A denominator with its factors 2 and 5 divided out.
pub open spec fn without_twos_and_fives(d: int) -> int {
    strip_factor(strip_factor(abs_int(d), 2), 5)
}

/// Divides a positive number by `p` as often as it goes
fn strip(d: AFNSBigInt, p: i64) -> (r: AFNSBigInt)
    requires
        d@ > 0,
        p == 2 || p == 5,
    ensures
        r@ == strip_factor(d@, p as int),
        r@ > 0,
{
    let factor = big_from_i64(p);
    let zero = big_from_i64(0);
    let ghost d0 = d@;
    let mut x = d;
    while big_eq(&big_rem(&x, &factor), &zero)
        invariant
            x@ > 0,
            factor@ == p,
            zero@ == 0,
            p == 2 || p == 5,
            strip_factor(x@, p as int) == strip_factor(d0, p as int),
        decreases x@,
    {
        proof {
            let xv = x@;
            let pv = p as int;
            assert(xv / pv < xv) by (nonlinear_arith)
                requires xv > 0, pv > 1;
            assert(xv / pv > 0) by (nonlinear_arith)
                requires xv > 0, pv > 1, xv % pv == 0;
        }
        x = big_div(&x, &factor);
    }
    x
}

/// Whether a fraction's decimal expansion ends: its denominator has no
/// prime factors but 2 and 5
pub fn fraction_is_terminating(den: &AFNSBigInt) -> (b: bool)
    requires
        den@ != 0,
    ensures
        b == (without_twos_and_fives(den@) == 1),
{
    let d = strip(strip(big_abs(den), 2), 5);
    big_eq(&d, &big_from_i64(1))
}

/// The message of a repeating period too long to search.
pub open spec fn period_search_message() -> Seq<char> {
    "Repeating-period search exceeded 100000 iterations"@
}

/// The length of the repeating period of a fraction's decimal expansion:
/// 0 when it ends, else the least `p` with 10^p ≡ 1 modulo the denominator
/// without its factors 2 and 5; an error when that is above 100001
pub fn fraction_period_length(den: &AFNSBigInt) -> (r: Result<u64, ApexError>)
    requires
        den@ != 0,
    ensures
        without_twos_and_fives(den@) == 1 ==> r == Ok::<u64, ApexError>(0),
        without_twos_and_fives(den@) != 1 ==> match r {
            Ok(p) => 1 <= p <= 100001 && pow(10, p as nat) % without_twos_and_fives(den@) == 1 && forall|j: nat|
                1 <= j < p ==> #[trigger] pow(10, j) % without_twos_and_fives(den@) != 1,
            Err(e) => e@ == period_search_message() && forall|j: nat|
                1 <= j <= 100001 ==> #[trigger] pow(10, j) % without_twos_and_fives(den@) != 1,
        },
{
    let d = strip(strip(big_abs(den), 2), 5);
    let one = big_from_i64(1);
    if big_eq(&d, &one) {
        return Ok(0);
    }
    let ghost m = d@;
    let ten = big_from_i64(10);
    let mut remainder = big_mod_floor(&ten, &d);
    let mut period: u64 = 1;
    let mut guard: u64 = 0;
    proof {
        lemma_pow1(10);
    }
    while !big_eq(&remainder, &one)
        invariant
            m == d@,
            m > 1,
            m == without_twos_and_fives(den@),
            one@ == 1,
            ten@ == 10,
            period == guard + 1,
            guard <= 100000,
            remainder@ == pow(10, period as nat) % m,
            forall|j: nat| 1 <= j < period ==> #[trigger] pow(10, j) % m != 1,
        decreases 100001 - guard,
    {
        proof {
            assert(pow(10, (period + 1) as nat) == 10 * pow(10, period as nat)) by {
                reveal(pow);
            }
            lemma_mul_mod_noop_left(pow(10, period as nat), 10, m);
        }
        remainder = big_mod_floor(&big_mul(&remainder, &ten), &d);
        period = period + 1;
        guard = guard + 1;
        if guard > 100000 {
            return Err(ApexError::new(String::from_str("Repeating-period search exceeded 100000 iterations")));
        }
    }
    Ok(period)
}

/// The greedy Egyptian-fraction terms from step `k` on: the denominators
/// of the largest unit fractions taken off one after the other; an error
/// past 64 terms.
pub open spec fn egyptian_from(num: int, den: int, k: nat) -> Result<Seq<int>, Seq<char>>
    decreases 65 - k,
{
    if num == 0 {
        Ok(Seq::empty())
    } else if k >= 64 {
        Err("Egyptian fraction decomposition exceeded 64 terms"@)
    } else {
        let u = floor_div(den + num - 1, num);
        match normalized(num * u - den, den * u) {
            Err(m) => Err(m),
            Ok((n2, d2)) => match egyptian_from(n2, d2, k + 1) {
                Ok(t) => Ok(seq![u] + t),
                Err(m) => Err(m),
            },
        }
    }
}

/// The values of integers.
pub open spec fn int_values(v: Seq<AFNSBigInt>) -> Seq<int> {
    v.map_values(|b: AFNSBigInt| b@)
}

/// The denominators of the greedy Egyptian-fraction decomposition of a
/// fraction between 0 and 1; an error for a negative part, for a fraction
/// that is not proper, and past 64 terms
pub fn fraction_egyptian_terms(num: &AFNSBigInt, den: &AFNSBigInt) -> (r: Result<Vec<AFNSBigInt>, ApexError>)
    ensures
        num@ < 0 || den@ < 0 ==> (r matches Err(e) && e@
            == "Egyptian fraction decomposition expects positive fractions"@),
        num@ >= 0 && den@ >= 0 && num@ >= den@ ==> (r matches Err(e) && e@
            == "Egyptian fraction decomposition only applies to proper fractions"@),
        0 <= num@ < den@ ==> match egyptian_from(num@, den@, 0) {
            Ok(t) => r matches Ok(v) && int_values(v@) == t,
            Err(m) => r matches Err(e) && e@ == m,
        },
{
    if big_is_negative(num) || big_is_negative(den) {
        return Err(ApexError::new(String::from_str("Egyptian fraction decomposition expects positive fractions")));
    }
    if big_le(den, num) {
        return Err(ApexError::new(String::from_str("Egyptian fraction decomposition only applies to proper fractions")));
    }
    let one = big_from_i64(1);
    let mut n = num.clone();
    let mut d = den.clone();
    let mut terms: Vec<AFNSBigInt> = Vec::new();
    let mut iterations: u32 = 0;
    let ghost whole = egyptian_from(num@, den@, 0);
    assert(int_values(terms@) =~= Seq::<int>::empty());
    while !big_is_zero(&n)
        invariant
            one@ == 1,
            iterations <= 64,
            0 <= num@ < den@,
            whole == egyptian_from(num@, den@, 0),
            whole == match egyptian_from(n@, d@, iterations as nat) {
                Ok(t) => Ok(int_values(terms@) + t),
                Err(m) => Err(m),
            },
        decreases 64 - iterations,
    {
        if iterations >= 64 {
            return Err(ApexError::new(String::from_str("Egyptian fraction decomposition exceeded 64 terms")));
        }
        iterations = iterations + 1;
        let unit_den = big_div_floor(&d.add(&n).subtract(&one), &n);
        let ghost before = int_values(terms@);
        terms.push(unit_den.clone());
        assert(int_values(terms@) =~= before.push(unit_den@));
        let new_num = big_mul(&n, &unit_den).subtract(&d);
        let new_den = big_mul(&d, &unit_den);
        match normalize_fraction(&new_num, &new_den) {
            Ok((a, b)) => {
                proof {
                    match egyptian_from(a@, b@, iterations as nat) {
                        Ok(t) => {
                            assert(before + (seq![unit_den@] + t) =~= before.push(unit_den@) + t);
                        },
                        Err(_) => {},
                    }
                }
                n = a;
                d = b;
            },
            Err(e) => return Err(e),
        }
    }
    assert(int_values(terms@) + Seq::<int>::empty() =~= int_values(terms@));
    Ok(terms)
}

} // verus!
