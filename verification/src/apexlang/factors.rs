//! Prime factorizations behind ApexLang's `nats` module, and the
//! arithmetic functions read off them: divisor counts and sums, Euler's
//! totient, the Möbius function and Carmichael's function.

use vstd::prelude::*;
use vstd::arithmetic::power::{pow, lemma_pow_positive, lemma_pow_increases};
use crate::apexlang::error::ApexError;
use crate::apexlang::nats::{
    is_prime, lemma_even_divisor, lemma_gcd_positive, lemma_no_small_divisor, mod_pow, mod_pow_value,
    too_large, two_to,
};
use crate::forge::math::{
    abs_int, big_div, big_eq, big_from_i64, big_from_u128, big_is_zero, big_le, big_mul, big_rem, big_shl, big_to_u128,
    gcd_of, trunc_div, AFNSBigInt,
};

verus! {

/// The number that prime powers multiply to.
pub open spec fn factor_product(fs: Seq<(int, int)>) -> int
    decreases fs.len(),
{
    if fs.len() == 0 {
        1
    } else {
        factor_product(fs.drop_last()) * pow(fs.last().0, fs.last().1 as nat)
    }
}

/// Whether `fs` is the prime factorization of `n`: primes in increasing
/// order, each with a positive exponent, whose powers multiply to `n`.
pub open spec fn is_factorization(n: int, fs: Seq<(int, int)>) -> bool {
    &&& forall|i: int| 0 <= i < fs.len() ==> is_prime(#[trigger] fs[i].0) && fs[i].1 >= 1
    &&& forall|i: int, j: int| 0 <= i < j < fs.len() ==> #[trigger] fs[i].0 < #[trigger] fs[j].0
    &&& factor_product(fs) == n
}

/// The factors as integers.
pub open spec fn factor_view(v: Seq<(u128, u32)>) -> Seq<(int, int)> {
    v.map_values(|f: (u128, u32)| (f.0 as int, f.1 as int))
}

/// The message of a factorization asked of zero.
pub open spec fn zero_factor_message(name: Seq<char>) -> Seq<char> {
    name + " is undefined for zero"@
}

fn too_large_u128(name: &str, n: &AFNSBigInt) -> (e: ApexError)
    ensures
        e@ == too_large(name@, n@, "u128"@),
{
    let mut m = String::from_str(name);
    m.append(" argument '");
    m.append(n.to_string().as_str());
    m.append("' is too large to fit in ");
    m.append("u128");
    ApexError::new(m)
}

/// Divisibility passes down to a divisor: if `d` divides `b` and `b`
/// divides `a`, `d` divides `a`.
proof fn lemma_divides_trans(a: int, b: int, d: int)
    requires
        b >= 1,
        d >= 1,
        a % b == 0,
        b % d == 0,
    ensures
        a % d == 0,
{
    let k = a / b;
    let m = b / d;
    assert(a == b * k) by (nonlinear_arith)
        requires a % b == 0, b >= 1, k == a / b;
    assert(b == d * m) by (nonlinear_arith)
        requires b % d == 0, d >= 1, m == b / d;
    assert(a == d * (m * k)) by (nonlinear_arith)
        requires a == b * k, b == d * m;
    vstd::arithmetic::div_mod::lemma_mod_multiples_basic(m * k, d);
    assert(a % d == 0) by (nonlinear_arith)
        requires a == d * (m * k), (m * k) * d % d == 0, d >= 1;
}

/// The smallest divisor above 1 of a number is prime.
proof fn lemma_least_divisor_prime(n: int, d: int)
    requires
        d >= 2,
        n >= 1,
        n % d == 0,
        forall|e: int| 2 <= e < d ==> #[trigger] (n % e) != 0,
    ensures
        is_prime(d),
{
    assert forall|e: int| 2 <= e < d implies #[trigger] (d % e) != 0 by {
        if d % e == 0 {
            lemma_divides_trans(n, d, e);
        }
    }
}

/// The prime factorization of a positive number; an error for zero and
/// for a number past `u128`. The trial divisors go up to the square root
/// of what is left, and stop where their square would leave `u128`.
pub fn prime_factors_u128(n: &AFNSBigInt, name: &str) -> (r: Result<Vec<(u128, u32)>, ApexError>)
    requires
        n@ >= 0,
    ensures
        n@ == 0 ==> (r matches Err(e) && e@ == zero_factor_message(name@)),
        n@ > u128::MAX ==> (r matches Err(e) && e@ == too_large(name@, n@, "u128"@)),
        0 < n@ <= u128::MAX ==> (r matches Ok(fs) && is_factorization(n@, factor_view(fs@))),
{
    if big_is_zero(n) {
        let mut m = String::from_str(name);
        m.append(" is undefined for zero");
        return Err(ApexError::new(m));
    }
    let n0 = match big_to_u128(n) {
        Some(v) => v,
        None => return Err(too_large_u128(name, n)),
    };
    let mut remaining = n0;
    let mut factors: Vec<(u128, u32)> = Vec::new();
    let mut divisor: u128 = 2;
    proof {
        assert(factor_view(factors@) =~= Seq::<(int, int)>::empty());
    }
    loop
        invariant
            n0 as int == n@,
            n0 >= 1,
            remaining >= 1,
            2 <= divisor,
            divisor == 2 || divisor % 2 == 1,
            divisor > 2 ==> remaining % 2 != 0,
            factor_product(factor_view(factors@)) * remaining == n0,
            forall|i: int| 0 <= i < factors@.len() ==> is_prime(#[trigger] factor_view(factors@)[i].0)
                && factor_view(factors@)[i].1 >= 1 && factor_view(factors@)[i].0 < divisor,
            forall|i: int, j: int| 0 <= i < j < factors@.len() ==> #[trigger] factor_view(factors@)[i].0
                < #[trigger] factor_view(factors@)[j].0,
            forall|d: int| 2 <= d < divisor ==> #[trigger] ((remaining as int) % d) != 0,
        ensures
            (divisor as int) * (divisor as int) > remaining,
        decreases u128::MAX - divisor,
    {
        let square = divisor.checked_mul(divisor);
        let go_on = match square {
            Some(sq) => sq <= remaining,
            None => false,
        };
        if !go_on {
            break;
        }
        proof {
            assert(divisor <= remaining) by (nonlinear_arith)
                requires divisor * divisor <= remaining, divisor >= 2;
        }
        if remaining % divisor == 0 {
            let ghost start = remaining;
            let ghost fv = factor_view(factors@);
            let mut exp: u32 = 0;
            proof {
                vstd::arithmetic::power::lemma_pow0(divisor as int);
                lemma_least_divisor_prime(start as int, divisor as int);
            }
            while remaining % divisor == 0
                invariant
                    2 <= divisor,
                    remaining >= 1,
                    start >= 1,
                    (remaining as int) * pow(divisor as int, exp as nat) == start,
                    start % divisor == 0,
                    exp <= 128,
                    forall|d: int| 2 <= d < divisor ==> #[trigger] ((start as int) % d) != 0,
                decreases remaining,
            {
                let ghost old_r = remaining;
                remaining = remaining / divisor;
                proof {
                    assert(old_r == divisor * remaining) by (nonlinear_arith)
                        requires old_r % divisor == 0, remaining == old_r / divisor, divisor >= 2;
                    assert(remaining >= 1) by (nonlinear_arith)
                        requires old_r == divisor * remaining, old_r >= 1, divisor >= 2;
                    assert(remaining < old_r) by (nonlinear_arith)
                        requires old_r == divisor * remaining, remaining >= 1, divisor >= 2;
                    assert(pow(divisor as int, (exp + 1) as nat) == divisor * pow(divisor as int, exp as nat)) by {
                        reveal(pow);
                    }
                    assert((remaining as int) * pow(divisor as int, (exp + 1) as nat) == start) by (nonlinear_arith)
                        requires
                            old_r == divisor * remaining,
                            (old_r as int) * pow(divisor as int, exp as nat) == start,
                            pow(divisor as int, (exp + 1) as nat) == divisor * pow(divisor as int, exp as nat),
                    ;
                    lemma_exponent_bound(divisor as int, (exp + 1) as nat, start as int, remaining as int);
                }
                exp = exp + 1;
            }
            proof {
                assert(exp >= 1) by {
                    if exp == 0 {
                        assert(remaining == start);
                    }
                }
                assert forall|d: int| 2 <= d < divisor + 1 implies #[trigger] ((remaining as int) % d) != 0 by {
                    if d < divisor && (remaining as int) % d == 0 {
                        lemma_pow_positive(divisor as int, exp as nat);
                        assert((start as int) % (remaining as int) == 0) by {
                            vstd::arithmetic::div_mod::lemma_mod_multiples_basic(
                                pow(divisor as int, exp as nat),
                                remaining as int,
                            );
                            assert((start as int) == pow(divisor as int, exp as nat) * (remaining as int))
                                by (nonlinear_arith)
                                requires (remaining as int) * pow(divisor as int, exp as nat) == start;
                        }
                        lemma_divides_trans(start as int, remaining as int, d);
                    }
                }
                if divisor > 2 {
                    assert((remaining as int) % 2 != 0);
                } else {
                    assert((remaining as int) % 2 != 0);
                }
            }
            factors.push((divisor, exp));
            proof {
                let nf = factor_view(factors@);
                assert(nf.drop_last() =~= fv);
                assert(nf.last() == (divisor as int, exp as int));
                assert(factor_product(nf) == factor_product(fv) * pow(divisor as int, exp as nat));
                assert(factor_product(fv) * start == n0);
                assert(factor_product(nf) * remaining == n0) by (nonlinear_arith)
                    requires
                        factor_product(nf) == factor_product(fv) * pow(divisor as int, exp as nat),
                        factor_product(fv) * start == n0,
                        (remaining as int) * pow(divisor as int, exp as nat) == start,
                ;
                assert forall|i: int| 0 <= i < factors@.len() implies is_prime(#[trigger] nf[i].0) && nf[i].1 >= 1
                    && nf[i].0 < divisor + 1 by {
                    if i < fv.len() {
                        assert(nf[i] == fv[i]);
                    }
                }
                assert forall|i: int, j: int| 0 <= i < j < factors@.len() implies #[trigger] nf[i].0
                    < #[trigger] nf[j].0 by {
                    if j < fv.len() {
                        assert(nf[i] == fv[i]);
                        assert(nf[j] == fv[j]);
                    } else {
                        assert(nf[i] == fv[i]);
                    }
                }
            }
        }
        let step: u128 = if divisor == 2 { 1 } else { 2 };
        proof {
            assert(divisor + step <= u128::MAX) by (nonlinear_arith)
                requires divisor * divisor <= u128::MAX, divisor >= 2, step <= 2;
            assert forall|d: int| 2 <= d < divisor + step implies #[trigger] ((remaining as int) % d) != 0 by {
                if d == divisor + 1 && step == 2 {
                    lemma_even_divisor(remaining as int, d);
                }
            }
            let fv = factor_view(factors@);
            assert forall|i: int| 0 <= i < factors@.len() implies is_prime(#[trigger] fv[i].0) && fv[i].1 >= 1
                && fv[i].0 < divisor + step by {
            }
        }
        divisor = divisor + step;
    }
    if remaining > 1 {
        let ghost fv = factor_view(factors@);
        proof {
            assert(divisor * divisor > remaining);
            lemma_no_small_divisor(remaining as int, divisor as int);
            assert(remaining >= divisor) by {
                if remaining < divisor {
                    vstd::arithmetic::div_mod::lemma_mod_self_0(remaining as int);
                }
            }
        }
        factors.push((remaining, 1));
        proof {
            let nf = factor_view(factors@);
            assert(nf.drop_last() =~= fv);
            assert(pow(remaining as int, 1) == remaining) by {
                vstd::arithmetic::power::lemma_pow1(remaining as int);
            }
            assert(factor_product(nf) == factor_product(fv) * remaining);
            assert forall|i: int| 0 <= i < factors@.len() implies is_prime(#[trigger] nf[i].0) && nf[i].1 >= 1 by {
                if i < fv.len() {
                    assert(nf[i] == fv[i]);
                }
            }
            assert forall|i: int, j: int| 0 <= i < j < factors@.len() implies #[trigger] nf[i].0 < #[trigger] nf[j].0 by {
                assert(nf[i] == fv[i]);
                if j < fv.len() {
                    assert(nf[j] == fv[j]);
                }
            }
        }
    } else {
        proof {
            assert(factor_product(factor_view(factors@)) == n0);
        }
    }
    Ok(factors)
}

/// A prime power that divides a number in `u128` has an exponent of at
/// most 128.
proof fn lemma_exponent_bound(p: int, e: nat, n: int, rest: int)
    requires
        p >= 2,
        rest >= 1,
        rest * pow(p, e) == n,
        n <= u128::MAX,
    ensures
        e <= 128,
{
    if e > 128 {
        lemma_pow_increases(p as nat, 129, e);
        lemma_pow_base_at_least_two(p, 129);
        lemma_two_to_pow(129);
        assert(two_to(129) > u128::MAX) by {
            lemma_two_to_grows(129);
        }
        lemma_pow_positive(p, e);
        assert(rest * pow(p, e) >= pow(p, e)) by (nonlinear_arith)
            requires rest >= 1, pow(p, e) > 0;
    }
}

/// Powers of a base of at least 2 are at least the powers of 2.
proof fn lemma_pow_base_at_least_two(p: int, e: nat)
    requires
        p >= 2,
    ensures
        pow(p, e) >= pow(2, e),
    decreases e,
{
    if e == 0 {
        vstd::arithmetic::power::lemma_pow0(p);
        vstd::arithmetic::power::lemma_pow0(2);
    } else {
        lemma_pow_base_at_least_two(p, (e - 1) as nat);
        lemma_pow_positive(2, (e - 1) as nat);
        assert(pow(p, e) == p * pow(p, (e - 1) as nat)) by {
            reveal(pow);
        }
        assert(pow(2, e) == 2 * pow(2, (e - 1) as nat)) by {
            reveal(pow);
        }
        assert(p * pow(p, (e - 1) as nat) >= 2 * pow(2, (e - 1) as nat)) by (nonlinear_arith)
            requires p >= 2, pow(p, (e - 1) as nat) >= pow(2, (e - 1) as nat), pow(2, (e - 1) as nat) > 0;
    }
}

/// `pow(2, e)` is `two_to(e)`.
proof fn lemma_two_to_pow(e: nat)
    ensures
        pow(2, e) == two_to(e),
    decreases e,
{
    if e == 0 {
        vstd::arithmetic::power::lemma_pow0(2);
    } else {
        lemma_two_to_pow((e - 1) as nat);
        assert(pow(2, e) == 2 * pow(2, (e - 1) as nat)) by {
            reveal(pow);
        }
    }
}

/// 2^k exceeds the largest `u128` from k = 128 on.
proof fn lemma_two_to_grows(k: nat)
    requires
        k >= 128,
    ensures
        two_to(k) > u128::MAX,
    decreases k,
{
    if k == 128 {
        crate::apexlang::nats::lemma_two_to_128();
    } else {
        lemma_two_to_grows((k - 1) as nat);
    }
}


/// 1 + p + p^2 + ... + p^e.
pub open spec fn geometric_sum(p: int, e: nat) -> int
    decreases e,
{
    if e == 0 {
        1
    } else {
        geometric_sum(p, (e - 1) as nat) + pow(p, e)
    }
}

/// The sum of the divisors of the number a factorization stands for.
pub open spec fn sigma_of(fs: Seq<(int, int)>) -> int
    decreases fs.len(),
{
    if fs.len() == 0 {
        1
    } else {
        sigma_of(fs.drop_last()) * geometric_sum(fs.last().0, fs.last().1 as nat)
    }
}

/// Whether `s` is the sum of the divisors of `n`, read off its prime
/// factorization; zero for zero.
pub open spec fn is_divisor_sum(n: int, s: int) -> bool {
    if n == 0 {
        s == 0
    } else {
        exists|fs: Seq<(int, int)>| is_factorization(n, fs) && s == #[trigger] sigma_of(fs)
    }
}

/// The geometric sum of a prime power is at least the power.
proof fn lemma_geometric_sum_bound(p: int, e: nat)
    requires
        p >= 2,
    ensures
        geometric_sum(p, e) >= pow(p, e),
        geometric_sum(p, e) >= 1,
    decreases e,
{
    if e == 0 {
        vstd::arithmetic::power::lemma_pow0(p);
    } else {
        lemma_geometric_sum_bound(p, (e - 1) as nat);
        lemma_pow_positive(p, e);
    }
}

/// The divisor sum is at least the number.
proof fn lemma_sigma_bound(fs: Seq<(int, int)>)
    requires
        forall|i: int| 0 <= i < fs.len() ==> #[trigger] fs[i].0 >= 2 && fs[i].1 >= 0,
    ensures
        sigma_of(fs) >= factor_product(fs),
        factor_product(fs) >= 1,
    decreases fs.len(),
{
    if fs.len() > 0 {
        let rest = fs.drop_last();
        assert forall|i: int| 0 <= i < rest.len() implies #[trigger] rest[i].0 >= 2 && rest[i].1 >= 0 by {
            assert(rest[i] == fs[i]);
        }
        lemma_sigma_bound(rest);
        let (p, e) = fs.last();
        assert(fs[fs.len() - 1] == fs.last());
        lemma_geometric_sum_bound(p, e as nat);
        lemma_pow_positive(p, e as nat);
        assert(sigma_of(rest) * geometric_sum(p, e as nat) >= factor_product(rest) * pow(p, e as nat))
            by (nonlinear_arith)
            requires
                sigma_of(rest) >= factor_product(rest),
                factor_product(rest) >= 1,
                geometric_sum(p, e as nat) >= pow(p, e as nat),
                pow(p, e as nat) >= 1,
        ;
        assert(factor_product(rest) * pow(p, e as nat) >= 1) by (nonlinear_arith)
            requires factor_product(rest) >= 1, pow(p, e as nat) >= 1;
    }
}

/// The sum of the divisors of a natural number, from its prime
/// factorization; an error past `u128`
pub fn sum_of_divisors(n: &AFNSBigInt, name: &str) -> (r: Result<AFNSBigInt, ApexError>)
    requires
        n@ >= 0,
    ensures
        n@ > u128::MAX ==> (r matches Err(e) && e@ == too_large(name@, n@, "u128"@)),
        n@ <= u128::MAX ==> (r matches Ok(v) && is_divisor_sum(n@, v@) && v@ >= n@),
{
    if big_is_zero(n) {
        return Ok(big_from_i64(0));
    }
    let factors = match prime_factors_u128(n, name) {
        Ok(f) => f,
        Err(e) => return Err(e),
    };
    let ghost fs = factor_view(factors@);
    let mut result = big_from_i64(1);
    let mut i: usize = 0;
    while i < factors.len()
        invariant
            fs == factor_view(factors@),
            i <= factors@.len(),
            result@ == sigma_of(fs.take(i as int)),
        decreases factors@.len() - i,
    {
        let (prime, exponent) = factors[i];
        let p = big_from_u128(prime);
        let mut term = big_from_i64(0);
        let mut current = big_from_i64(1);
        let count: u64 = exponent as u64 + 1;
        let mut k: u64 = 0;
        proof {
            vstd::arithmetic::power::lemma_pow0(prime as int);
        }
        while k < count
            invariant
                p@ == prime,
                count == exponent + 1,
                k <= count,
                current@ == pow(prime as int, k as nat),
                k == 0 ==> term@ == 0,
                k > 0 ==> term@ == geometric_sum(prime as int, (k - 1) as nat),
            decreases count - k,
        {
            term = term.add(&current);
            current = big_mul(&current, &p);
            proof {
                assert(pow(prime as int, (k + 1) as nat) == prime * pow(prime as int, k as nat)) by {
                    reveal(pow);
                }
                assert(pow(prime as int, k as nat) * prime == prime * pow(prime as int, k as nat))
                    by (nonlinear_arith);
                if k > 0 {
                    assert(geometric_sum(prime as int, k as nat) == geometric_sum(prime as int, (k - 1) as nat)
                        + pow(prime as int, k as nat));
                } else {
                    vstd::arithmetic::power::lemma_pow0(prime as int);
                    assert(geometric_sum(prime as int, 0) == 1);
                }
            }
            k = k + 1;
        }
        proof {
            assert(fs.take(i + 1).drop_last() =~= fs.take(i as int));
            assert(fs.take(i + 1).last() == fs[i as int]);
            assert(fs[i as int] == (prime as int, exponent as int));
        }
        result = big_mul(&result, &term);
        i = i + 1;
    }
    proof {
        assert(fs.take(i as int) =~= fs);
        assert forall|j: int| 0 <= j < fs.len() implies #[trigger] fs[j].0 >= 2 && fs[j].1 >= 0 by {
            assert(is_prime(fs[j].0));
        }
        lemma_sigma_bound(fs);
    }
    Ok(result)
}

/// The number of divisors a factorization gives: the product of the
/// exponents plus one.
pub open spec fn divisor_count_of(fs: Seq<(int, int)>) -> int
    decreases fs.len(),
{
    if fs.len() == 0 {
        1
    } else {
        divisor_count_of(fs.drop_last()) * (fs.last().1 + 1)
    }
}

/// The divisor count is at most the number.
proof fn lemma_divisor_count_bound(fs: Seq<(int, int)>)
    requires
        forall|i: int| 0 <= i < fs.len() ==> #[trigger] fs[i].0 >= 2 && fs[i].1 >= 0,
    ensures
        1 <= divisor_count_of(fs) <= factor_product(fs),
    decreases fs.len(),
{
    if fs.len() > 0 {
        let rest = fs.drop_last();
        assert forall|i: int| 0 <= i < rest.len() implies #[trigger] rest[i].0 >= 2 && rest[i].1 >= 0 by {
            assert(rest[i] == fs[i]);
        }
        lemma_divisor_count_bound(rest);
        let (p, e) = fs.last();
        assert(fs[fs.len() - 1] == fs.last());
        lemma_exponent_below_power(p, e as nat);
        assert(divisor_count_of(rest) * (e + 1) <= factor_product(rest) * pow(p, e as nat)) by (nonlinear_arith)
            requires
                1 <= divisor_count_of(rest) <= factor_product(rest),
                1 <= e + 1 <= pow(p, e as nat),
        ;
        assert(divisor_count_of(rest) * (e + 1) >= 1) by (nonlinear_arith)
            requires divisor_count_of(rest) >= 1, e + 1 >= 1;
    }
}

/// e + 1 is at most p^e for p at least 2.
proof fn lemma_exponent_below_power(p: int, e: nat)
    requires
        p >= 2,
    ensures
        e + 1 <= pow(p, e),
    decreases e,
{
    if e == 0 {
        vstd::arithmetic::power::lemma_pow0(p);
    } else {
        lemma_exponent_below_power(p, (e - 1) as nat);
        assert(pow(p, e) == p * pow(p, (e - 1) as nat)) by {
            reveal(pow);
        }
        assert(p * pow(p, (e - 1) as nat) >= e + 1) by (nonlinear_arith)
            requires p >= 2, pow(p, (e - 1) as nat) >= e, e >= 1;
    }
}

/// A prefix of a factorization multiplies to at most the whole.
proof fn lemma_prefix_product(fs: Seq<(int, int)>, i: int)
    requires
        0 <= i <= fs.len(),
        forall|j: int| 0 <= j < fs.len() ==> #[trigger] fs[j].0 >= 2 && fs[j].1 >= 0,
    ensures
        factor_product(fs.take(i)) <= factor_product(fs),
    decreases fs.len() - i,
{
    if i < fs.len() {
        lemma_prefix_product(fs.drop_last(), if i < fs.len() { i } else { i - 1 });
        let rest = fs.drop_last();
        assert forall|j: int| 0 <= j < rest.len() implies #[trigger] rest[j].0 >= 2 && rest[j].1 >= 0 by {
            assert(rest[j] == fs[j]);
        }
        assert(rest.take(i) =~= fs.take(i));
        lemma_divisor_count_bound(rest);
        let (p, e) = fs.last();
        assert(fs[fs.len() - 1] == fs.last());
        lemma_pow_positive(p, e as nat);
        assert(factor_product(rest) * pow(p, e as nat) >= factor_product(rest)) by (nonlinear_arith)
            requires factor_product(rest) >= 1, pow(p, e as nat) >= 1;
    } else {
        assert(fs.take(i) =~= fs);
    }
}

/// The number of divisors of a positive number; an error for zero and
/// past `u128`
pub fn divisors_count(n: &AFNSBigInt) -> (r: Result<u128, ApexError>)
    requires
        n@ >= 0,
    ensures
        n@ == 0 ==> (r matches Err(e) && e@ == zero_factor_message("divisors_count"@)),
        n@ > u128::MAX ==> (r matches Err(e) && e@ == too_large("divisors_count"@, n@, "u128"@)),
        0 < n@ <= u128::MAX ==> (r matches Ok(c) && exists|fs: Seq<(int, int)>|
            is_factorization(n@, fs) && c == #[trigger] divisor_count_of(fs)),
{
    let factors = match prime_factors_u128(n, "divisors_count") {
        Ok(f) => f,
        Err(e) => return Err(e),
    };
    let ghost fs = factor_view(factors@);
    proof {
        assert forall|j: int| 0 <= j < fs.len() implies #[trigger] fs[j].0 >= 2 && fs[j].1 >= 0 by {
            assert(is_prime(fs[j].0));
        }
    }
    let mut count: u128 = 1;
    let mut i: usize = 0;
    while i < factors.len()
        invariant
            fs == factor_view(factors@),
            is_factorization(n@, fs),
            n@ <= u128::MAX,
            forall|j: int| 0 <= j < fs.len() ==> #[trigger] fs[j].0 >= 2 && fs[j].1 >= 0,
            i <= factors@.len(),
            count == divisor_count_of(fs.take(i as int)),
        decreases factors@.len() - i,
    {
        let (_, exp) = factors[i];
        proof {
            let t = fs.take(i + 1);
            assert(t.drop_last() =~= fs.take(i as int));
            assert(t.last() == fs[i as int]);
            assert forall|j: int| 0 <= j < t.len() implies #[trigger] t[j].0 >= 2 && t[j].1 >= 0 by {
                assert(t[j] == fs[j]);
            }
            lemma_divisor_count_bound(t);
            lemma_prefix_product(fs, i + 1);
        }
        count = count * (exp as u128 + 1);
        i = i + 1;
    }
    proof {
        assert(fs.take(i as int) =~= fs);
    }
    Ok(count)
}

/// The sum of the proper divisors of a positive number; an error for zero
/// and past `u128`
pub fn proper_divisors_sum(n: &AFNSBigInt) -> (r: Result<AFNSBigInt, ApexError>)
    requires
        n@ >= 0,
    ensures
        n@ == 0 ==> (r matches Err(e) && e@ == "proper_divisors_sum is undefined for zero"@),
        n@ > u128::MAX ==> (r matches Err(e) && e@ == too_large("proper_divisors_sum"@, n@, "u128"@)),
        0 < n@ <= u128::MAX ==> (r matches Ok(v) && is_divisor_sum(n@, v@ + n@)),
{
    if big_is_zero(n) {
        return Err(ApexError::new(String::from_str("proper_divisors_sum is undefined for zero")));
    }
    match sum_of_divisors(n, "proper_divisors_sum") {
        Ok(s) => Ok(s.subtract(n)),
        Err(e) => Err(e),
    }
}

/// How the sum of the proper divisors of a positive number compares with
/// it: -1 below, 0 equal, 1 above; 0 is no number of these kinds
fn divisor_excess(n: &AFNSBigInt, name: &str) -> (r: Result<i32, ApexError>)
    requires
        n@ > 0,
    ensures
        n@ > u128::MAX ==> (r matches Err(e) && e@ == too_large(name@, n@, "u128"@)),
        n@ <= u128::MAX ==> (r matches Ok(c) && exists|s: int| #[trigger] is_divisor_sum(n@, s) && c == (if s - n@
            < n@ { -1i32 } else if s - n@ == n@ { 0i32 } else { 1i32 })),
{
    let s = match sum_of_divisors(n, name) {
        Ok(s) => s,
        Err(e) => return Err(e),
    };
    let proper = s.subtract(n);
    let c: i32 = if big_eq(&proper, n) {
        0
    } else if big_le(&proper, n) {
        -1
    } else {
        1
    };
    assert(is_divisor_sum(n@, s@));
    Ok(c)
}

/// Whether a number is perfect: its proper divisors add up to it; zero is
/// not
pub fn is_perfect(n: &AFNSBigInt) -> (r: Result<bool, ApexError>)
    requires
        n@ >= 0,
    ensures
        n@ == 0 ==> r == Ok::<bool, ApexError>(false),
        n@ > u128::MAX ==> (r matches Err(e) && e@ == too_large("is_perfect"@, n@, "u128"@)),
        0 < n@ <= u128::MAX ==> (r matches Ok(b) && exists|s: int| #[trigger] is_divisor_sum(n@, s) && b == (s - n@
            == n@)),
{
    if big_is_zero(n) {
        return Ok(false);
    }
    match divisor_excess(n, "is_perfect") {
        Ok(c) => Ok(c == 0),
        Err(e) => Err(e),
    }
}

/// Whether a number is abundant: its proper divisors add up to more; zero
/// is not
pub fn is_abundant(n: &AFNSBigInt) -> (r: Result<bool, ApexError>)
    requires
        n@ >= 0,
    ensures
        n@ == 0 ==> r == Ok::<bool, ApexError>(false),
        n@ > u128::MAX ==> (r matches Err(e) && e@ == too_large("is_abundant"@, n@, "u128"@)),
        0 < n@ <= u128::MAX ==> (r matches Ok(b) && exists|s: int| #[trigger] is_divisor_sum(n@, s) && b == (s - n@
            > n@)),
{
    if big_is_zero(n) {
        return Ok(false);
    }
    match divisor_excess(n, "is_abundant") {
        Ok(c) => Ok(c == 1),
        Err(e) => Err(e),
    }
}

/// Whether a number is deficient: its proper divisors add up to less;
/// zero is not
pub fn is_deficient(n: &AFNSBigInt) -> (r: Result<bool, ApexError>)
    requires
        n@ >= 0,
    ensures
        n@ == 0 ==> r == Ok::<bool, ApexError>(false),
        n@ > u128::MAX ==> (r matches Err(e) && e@ == too_large("is_deficient"@, n@, "u128"@)),
        0 < n@ <= u128::MAX ==> (r matches Ok(b) && exists|s: int| #[trigger] is_divisor_sum(n@, s) && b == (s - n@
            < n@)),
{
    if big_is_zero(n) {
        return Ok(false);
    }
    match divisor_excess(n, "is_deficient") {
        Ok(c) => Ok(c == -1),
        Err(e) => Err(e),
    }
}

/// Euler's totient from `m` on, taking away `m / p` for each prime `p` of a
/// factorization in turn.
pub open spec fn totient_steps(m: int, fs: Seq<(int, int)>) -> int
    decreases fs.len(),
{
    if fs.len() == 0 {
        m
    } else {
        let t = totient_steps(m, fs.drop_last());
        t - t / fs.last().0
    }
}

/// Euler's totient of a natural number, from the primes of its
/// factorization; 0 for zero; an error past `u128`
pub fn totient_value(n: &AFNSBigInt, name: &str) -> (r: Result<AFNSBigInt, ApexError>)
    requires
        n@ >= 0,
    ensures
        n@ == 0 ==> (r matches Ok(v) && v@ == 0),
        n@ > u128::MAX ==> (r matches Err(e) && e@ == too_large(name@, n@, "u128"@)),
        0 < n@ <= u128::MAX ==> (r matches Ok(v) && exists|fs: Seq<(int, int)>|
            is_factorization(n@, fs) && v@ == #[trigger] totient_steps(n@, fs)),
        r matches Ok(v) ==> v@ >= 0,
{
    if big_is_zero(n) {
        return Ok(big_from_i64(0));
    }
    let factors = match prime_factors_u128(n, name) {
        Ok(f) => f,
        Err(e) => return Err(e),
    };
    let ghost fs = factor_view(factors@);
    let mut result = n.clone();
    let mut i: usize = 0;
    while i < factors.len()
        invariant
            fs == factor_view(factors@),
            forall|j: int| 0 <= j < fs.len() ==> is_prime(#[trigger] fs[j].0),
            i <= factors@.len(),
            n@ > 0,
            result@ == totient_steps(n@, fs.take(i as int)),
            result@ >= 0,
        decreases factors@.len() - i,
    {
        let (p, _) = factors[i];
        let pb = big_from_u128(p);
        proof {
            assert(is_prime(fs[i as int].0));
            assert(abs_int(result@) == result@);
            assert(abs_int(p as int) == p);
            assert(fs.take(i + 1).drop_last() =~= fs.take(i as int));
            assert(fs.take(i + 1).last() == fs[i as int]);
            assert(result@ - result@ / (p as int) >= 0) by (nonlinear_arith)
                requires result@ >= 0, p >= 2;
        }
        result = result.subtract(&big_div(&result, &pb));
        i = i + 1;
    }
    proof {
        assert(fs.take(i as int) =~= fs);
    }
    Ok(result)
}

/// Whether Euler's theorem a^φ(m) ≡ 1 (mod m) holds: false when `base`
/// and `modulus` share a factor; an error for a modulus up to 1 or past
/// `u128`
pub fn euler_totient_theorem(base: &AFNSBigInt, modulus: &AFNSBigInt) -> (r: Result<bool, ApexError>)
    requires
        base@ >= 0,
        modulus@ >= 0,
    ensures
        modulus@ <= 1 ==> (r matches Err(e) && e@ == "euler_totient_theorem requires modulus greater than 1"@),
        modulus@ > 1 && gcd_of(base@ as nat, modulus@ as nat) != 1 ==> r == Ok::<bool, ApexError>(false),
        modulus@ > u128::MAX && gcd_of(base@ as nat, modulus@ as nat) == 1 ==> (r matches Err(e) && e@
            == too_large("euler_totient_theorem"@, modulus@, "u128"@)),
        1 < modulus@ <= u128::MAX && gcd_of(base@ as nat, modulus@ as nat) == 1 ==> (r matches Ok(b) && exists|
            fs: Seq<(int, int)>,
        | is_factorization(modulus@, fs) && b == (mod_pow_value(base@, #[trigger] totient_steps(modulus@, fs), modulus@)
            == 1)),
{
    let one = big_from_i64(1);
    if big_le(modulus, &one) {
        return Err(ApexError::new(String::from_str("euler_totient_theorem requires modulus greater than 1")));
    }
    if !big_eq(&base.gcd(modulus), &one) {
        return Ok(false);
    }
    let totient = match totient_value(modulus, "euler_totient_theorem") {
        Ok(t) => t,
        Err(e) => return Err(e),
    };
    let residue = mod_pow(base, &totient, modulus);
    Ok(big_eq(&residue, &one))
}

/// The Möbius function read off a factorization: 0 with a square factor,
/// else -1 to the number of primes.
pub open spec fn mobius_of(fs: Seq<(int, int)>) -> int {
    if exists|i: int| 0 <= i < fs.len() && #[trigger] fs[i].1 > 1 {
        0
    } else if fs.len() % 2 == 0 {
        1
    } else {
        -1
    }
}

/// The Möbius function of a natural number; 0 for zero; an error past
/// `u128`
pub fn mobius(n: &AFNSBigInt) -> (r: Result<i32, ApexError>)
    requires
        n@ >= 0,
    ensures
        n@ == 0 ==> r == Ok::<i32, ApexError>(0),
        n@ > u128::MAX ==> (r matches Err(e) && e@ == too_large("mobius"@, n@, "u128"@)),
        0 < n@ <= u128::MAX ==> (r matches Ok(m) && exists|fs: Seq<(int, int)>|
            is_factorization(n@, fs) && m == #[trigger] mobius_of(fs)),
{
    if big_is_zero(n) {
        return Ok(0);
    }
    let factors = match prime_factors_u128(n, "mobius") {
        Ok(f) => f,
        Err(e) => return Err(e),
    };
    let ghost fs = factor_view(factors@);
    let mut i: usize = 0;
    while i < factors.len()
        invariant
            fs == factor_view(factors@),
            0 < n@ <= u128::MAX,
            is_factorization(n@, fs),
            i <= factors@.len(),
            forall|j: int| 0 <= j < i ==> #[trigger] fs[j].1 <= 1,
        decreases factors@.len() - i,
    {
        if factors[i].1 > 1 {
            assert(fs[i as int].1 > 1);
            assert(mobius_of(fs) == 0);
            return Ok(0);
        }
        i = i + 1;
    }
    assert(!exists|j: int| 0 <= j < fs.len() && #[trigger] fs[j].1 > 1);
    assert(fs.len() == factors@.len());
    if factors.len() % 2 == 0 {
        assert(mobius_of(fs) == 1);
        Ok(1)
    } else {
        assert(mobius_of(fs) == -1);
        Ok(-1)
    }
}

/// Carmichael's function of a prime power.
pub open spec fn carmichael_lambda(p: int, e: int) -> int {
    if p == 2 {
        if e <= 2 {
            1
        } else {
            pow(2, (e - 2) as nat)
        }
    } else {
        (p - 1) * pow(p, (e - 1) as nat)
    }
}

/// Carmichael's function of a prime power that fits in `u128`
pub fn carmichael_prime_power(prime: u128, exponent: u32) -> (r: AFNSBigInt)
    requires
        prime >= 2,
        exponent >= 1,
        pow(prime as int, exponent as nat) <= u128::MAX,
    ensures
        r@ == carmichael_lambda(prime as int, exponent as int),
{
    if prime == 2 {
        if exponent <= 2 {
            return big_from_i64(1);
        }
        return big_shl(&big_from_i64(1), (exponent - 2) as u64);
    }
    let mut power: u128 = 1;
    let mut k: u32 = 0;
    proof {
        vstd::arithmetic::power::lemma_pow0(prime as int);
    }
    while k < exponent - 1
        invariant
            prime >= 2,
            k <= exponent - 1,
            power == pow(prime as int, k as nat),
            pow(prime as int, exponent as nat) <= u128::MAX,
        decreases exponent - 1 - k,
    {
        proof {
            assert(pow(prime as int, (k + 1) as nat) == prime * pow(prime as int, k as nat)) by {
                reveal(pow);
            }
            vstd::arithmetic::power::lemma_pow_increases(prime as nat, (k + 1) as nat, exponent as nat);
        }
        power = power * prime;
        k = k + 1;
    }
    proof {
        assert(pow(prime as int, exponent as nat) == prime * pow(prime as int, (exponent - 1) as nat)) by {
            reveal(pow);
        }
        assert((prime - 1) * power <= prime * power) by (nonlinear_arith)
            requires power >= 0;
    }
    big_from_u128((prime - 1) * power)
}

/// The least common multiple as Carmichael's function combines it: zero
/// when either is zero, else `a / gcd * b`
pub fn lcm_bigints(a: &AFNSBigInt, b: &AFNSBigInt) -> (r: AFNSBigInt)
    ensures
        a@ == 0 || b@ == 0 ==> r@ == 0,
        a@ != 0 && b@ != 0 ==> r@ == trunc_div(a@, gcd_of(abs_int(a@) as nat, abs_int(b@) as nat) as int)
            * b@,
{
    if big_is_zero(a) || big_is_zero(b) {
        return big_from_i64(0);
    }
    let g = a.gcd(b);
    proof {
        lemma_gcd_positive(abs_int(a@) as nat, abs_int(b@) as nat);
    }
    big_mul(&big_div(a, &g), b)
}


/// The least common multiple as `lcm_bigints` computes it.
pub open spec fn lcm_value(a: int, b: int) -> int {
    if a == 0 || b == 0 {
        0
    } else {
        trunc_div(a, gcd_of(abs_int(a) as nat, abs_int(b) as nat) as int) * b
    }
}

/// Carmichael's function read off a factorization: the least common
/// multiple of its values at the prime powers, taken in order.
pub open spec fn carmichael_of(fs: Seq<(int, int)>) -> int
    decreases fs.len(),
{
    if fs.len() == 0 {
        1
    } else {
        lcm_value(carmichael_of(fs.drop_last()), carmichael_lambda(fs.last().0, fs.last().1))
    }
}

/// Each prime power of a factorization is at most the number.
proof fn lemma_prime_power_bound(fs: Seq<(int, int)>, i: int)
    requires
        0 <= i < fs.len(),
        forall|j: int| 0 <= j < fs.len() ==> #[trigger] fs[j].0 >= 2 && fs[j].1 >= 0,
    ensures
        pow(fs[i].0, fs[i].1 as nat) <= factor_product(fs),
    decreases fs.len(),
{
    let rest = fs.drop_last();
    assert forall|j: int| 0 <= j < rest.len() implies #[trigger] rest[j].0 >= 2 && rest[j].1 >= 0 by {
        assert(rest[j] == fs[j]);
        assert(fs[j].0 >= 2 && fs[j].1 >= 0);
    }
    lemma_divisor_count_bound(rest);
    let (p, e) = fs.last();
    assert(fs[fs.len() - 1] == fs.last());
    assert(fs[fs.len() - 1].0 >= 2);
    lemma_pow_positive(p, e as nat);
    if i == fs.len() - 1 {
        assert(factor_product(rest) * pow(p, e as nat) >= pow(p, e as nat)) by (nonlinear_arith)
            requires factor_product(rest) >= 1, pow(p, e as nat) >= 1;
    } else {
        lemma_prime_power_bound(rest, i);
        assert(rest[i] == fs[i]);
        assert(factor_product(rest) * pow(p, e as nat) >= factor_product(rest)) by (nonlinear_arith)
            requires factor_product(rest) >= 1, pow(p, e as nat) >= 1;
    }
}

/// Carmichael's function of a natural number: 0 up to 1; an error past
/// `u128`
pub fn carmichael(n: &AFNSBigInt) -> (r: Result<AFNSBigInt, ApexError>)
    requires
        n@ >= 0,
    ensures
        n@ <= 1 ==> (r matches Ok(v) && v@ == 0),
        n@ > u128::MAX ==> (r matches Err(e) && e@ == too_large("carmichael"@, n@, "u128"@)),
        1 < n@ <= u128::MAX ==> (r matches Ok(v) && exists|fs: Seq<(int, int)>|
            is_factorization(n@, fs) && v@ == #[trigger] carmichael_of(fs)),
{
    if big_le(n, &big_from_i64(1)) {
        return Ok(big_from_i64(0));
    }
    let factors = match prime_factors_u128(n, "carmichael") {
        Ok(f) => f,
        Err(e) => return Err(e),
    };
    let ghost fs = factor_view(factors@);
    proof {
        assert forall|j: int| 0 <= j < fs.len() implies #[trigger] fs[j].0 >= 2 && fs[j].1 >= 0 by {
            assert(is_prime(fs[j].0));
        }
    }
    let mut result = big_from_i64(1);
    let mut i: usize = 0;
    while i < factors.len()
        invariant
            fs == factor_view(factors@),
            is_factorization(n@, fs),
            1 < n@ <= u128::MAX,
            forall|j: int| 0 <= j < fs.len() ==> #[trigger] fs[j].0 >= 2 && fs[j].1 >= 0,
            i <= factors@.len(),
            result@ == carmichael_of(fs.take(i as int)),
        decreases factors@.len() - i,
    {
        let (prime, exponent) = factors[i];
        proof {
            lemma_prime_power_bound(fs, i as int);
            assert(fs[i as int] == (prime as int, exponent as int));
            assert(fs.take(i + 1).drop_last() =~= fs.take(i as int));
            assert(fs.take(i + 1).last() == fs[i as int]);
        }
        let component = carmichael_prime_power(prime, exponent);
        result = lcm_bigints(&result, &component);
        i = i + 1;
    }
    proof {
        assert(fs.take(i as int) =~= fs);
    }
    Ok(result)
}

/// Korselt's criterion read off a factorization of `n`: square-free, with
/// p - 1 dividing n - 1 for each prime p.
pub open spec fn korselt(n: int, fs: Seq<(int, int)>) -> bool {
    fs.len() > 0 && forall|i: int| 0 <= i < fs.len() ==> #[trigger] fs[i].1 == 1 && (n - 1) % (fs[i].0 - 1) == 0
}

/// Whether a number is a Carmichael number: composite and passing
/// Korselt's criterion; an error past `u128`
pub fn is_carmichael(n: &AFNSBigInt) -> (r: Result<bool, ApexError>)
    requires
        n@ >= 0,
    ensures
        n@ <= 2 ==> r == Ok::<bool, ApexError>(false),
        n@ > u128::MAX ==> (r matches Err(e) && e@ == too_large("is_carmichael"@, n@, "u128"@)),
        2 < n@ <= u128::MAX && is_prime(n@) ==> r == Ok::<bool, ApexError>(false),
        2 < n@ <= u128::MAX && !is_prime(n@) ==> (r matches Ok(b) && exists|fs: Seq<(int, int)>|
            is_factorization(n@, fs) && b == #[trigger] korselt(n@, fs)),
{
    if big_le(n, &big_from_i64(2)) {
        return Ok(false);
    }
    let prime = match crate::apexlang::nats::is_prime_u128(n, "is_carmichael") {
        Ok(b) => b,
        Err(e) => return Err(e),
    };
    if prime {
        return Ok(false);
    }
    let factors = match prime_factors_u128(n, "is_carmichael") {
        Ok(f) => f,
        Err(e) => return Err(e),
    };
    let ghost fs = factor_view(factors@);
    if factors.len() == 0 {
        assert(!korselt(n@, fs));
        return Ok(false);
    }
    let one = big_from_i64(1);
    let n_minus_one = n.subtract(&one);
    let mut i: usize = 0;
    while i < factors.len()
        invariant
            fs == factor_view(factors@),
            fs.len() > 0,
            is_factorization(n@, fs),
            2 < n@ <= u128::MAX,
            n_minus_one@ == n@ - 1,
            i <= factors@.len(),
            forall|j: int| 0 <= j < i ==> #[trigger] fs[j].1 == 1 && (n@ - 1) % (fs[j].0 - 1) == 0,
        decreases factors@.len() - i,
    {
        let (p, exponent) = factors[i];
        proof {
            assert(fs[i as int] == (p as int, exponent as int));
            assert(is_prime(fs[i as int].0));
        }
        if exponent > 1 {
            assert(!korselt(n@, fs));
            return Ok(false);
        }
        let pm = big_from_u128(p - 1);
        proof {
            assert(abs_int(n_minus_one@) == n_minus_one@);
            assert(abs_int(pm@) == pm@);
        }
        if !big_is_zero(&big_rem(&n_minus_one, &pm)) {
            assert(!korselt(n@, fs));
            return Ok(false);
        }
        i = i + 1;
    }
    assert(korselt(n@, fs));
    Ok(true)
}

/// Whether a number is amicable: the sum `s` of its proper divisors is not
/// zero, not the number, and has the number as the sum of its own proper
/// divisors; an error when a number tested does not fit in `u128`
pub fn is_amicable(n: &AFNSBigInt) -> (r: Result<bool, ApexError>)
    requires
        n@ >= 0,
    ensures
        n@ == 0 ==> r == Ok::<bool, ApexError>(false),
        n@ > u128::MAX ==> (r matches Err(e) && e@ == too_large("is_amicable"@, n@, "u128"@)),
        0 < n@ <= u128::MAX ==> exists|s: int| #[trigger] is_divisor_sum(n@, s) && (if s - n@ == 0 {
            r == Ok::<bool, ApexError>(false)
        } else if s - n@ > u128::MAX {
            r matches Err(e) && e@ == too_large("is_amicable"@, s - n@, "u128"@)
        } else {
            r matches Ok(b) && exists|t: int| #[trigger] is_divisor_sum(s - n@, t) && b == (t - (s - n@) == n@ && s
                - n@ != n@)
        }),
{
    if big_is_zero(n) {
        return Ok(false);
    }
    let sum = match sum_of_divisors(n, "is_amicable") {
        Ok(s) => s,
        Err(e) => return Err(e),
    };
    let s1 = sum.subtract(n);
    assert(is_divisor_sum(n@, sum@));
    if big_is_zero(&s1) {
        return Ok(false);
    }
    let sum2 = match sum_of_divisors(&s1, "is_amicable") {
        Ok(s) => s,
        Err(e) => return Err(e),
    };
    assert(is_divisor_sum(s1@, sum2@));
    let s2 = sum2.subtract(&s1);
    Ok(big_eq(&s2, n) && !big_eq(&s1, n))
}


/// Whether `a` is an aliquot sequence from `n` so far: it starts at `n`;
/// each value before the last is positive, new, among the first 1000, and
/// followed by the sum of its proper divisors.
pub open spec fn aliquot_run(n: int, a: Seq<int>) -> bool {
    &&& a.len() >= 1
    &&& a[0] == n
    &&& forall|k: int| 0 <= k < a.len() - 1 ==> #[trigger] aliquot_step(a, k)
}

/// Whether value `k` of a sequence is positive, new, among the first 1000,
/// and followed by the sum of its proper divisors.
pub open spec fn aliquot_step(a: Seq<int>, k: int) -> bool {
    a[k] > 0 && k < 1000 && !a.take(k).contains(a[k]) && is_divisor_sum(a[k], a[k + 1] + a[k])
}

/// Whether an aliquot sequence stops at its last value: one that is not
/// positive, the thousandth step, or a value seen before.
pub open spec fn aliquot_stops(a: Seq<int>) -> bool {
    let k = a.len() - 1;
    a[k] <= 0 || k >= 1000 || a.take(k).contains(a[k])
}

/// The values of integers.
pub open spec fn int_list(v: Seq<AFNSBigInt>) -> Seq<int> {
    v.map_values(|b: AFNSBigInt| b@)
}

/// The length of the aliquot sequence of a natural number: the steps until
/// a value that is not positive or repeats, at most 1000; an error when a
/// value does not fit in `u128`
pub fn aliquot_length(n: &AFNSBigInt) -> (r: Result<u32, ApexError>)
    requires
        n@ >= 0,
    ensures
        match r {
            Ok(len) => exists|a: Seq<int>| #[trigger] aliquot_run(n@, a) && a.len() == len + 1 && aliquot_stops(a),
            Err(e) => exists|a: Seq<int>| #[trigger] aliquot_run(n@, a) && !aliquot_stops(a) && a.last() > u128::MAX
                && e@ == too_large("aliquot_length"@, a.last(), "u128"@),
        },
{
    let mut current = n.clone();
    let mut length: u32 = 0;
    let mut seen: Vec<AFNSBigInt> = Vec::new();
    let ghost mut a: Seq<int> = seq![n@];
    let zero = big_from_i64(0);
    loop
        invariant
            zero@ == 0,
            aliquot_run(n@, a),
            a.len() == length + 1,
            a.last() == current@,
            current@ >= 0,
            length <= 1000,
            seen@.len() == length,
            int_list(seen@) == a.take(length as int),
        decreases 1000 - length,
    {
        if !(big_le(&current, &zero) == false && length < 1000) {
            assert(aliquot_stops(a));
            return Ok(length);
        }
        let mut found = false;
        let mut i: usize = 0;
        while i < seen.len()
            invariant
                i <= seen@.len(),
                seen@.len() == length,
                int_list(seen@) == a.take(length as int),
                a.len() == length + 1,
                !found ==> forall|j: int| 0 <= j < i ==> #[trigger] a[j] != current@,
                found ==> a.take(length as int).contains(current@),
            decreases seen@.len() - i,
        {
            assert(int_list(seen@)[i as int] == seen@[i as int]@);
            if big_eq(&seen[i], &current) {
                assert(a.take(length as int)[i as int] == current@);
                found = true;
            }
            i = i + 1;
        }
        if found {
            assert(a[length as int] == current@);
            assert(aliquot_stops(a));
            return Ok(length);
        }
        proof {
            assert(!a.take(length as int).contains(current@)) by {
                if a.take(length as int).contains(current@) {
                    let j = choose|j: int| 0 <= j < length && a.take(length as int)[j] == current@;
                    assert(a[j] == current@);
                }
            }
        }
        let ghost before = int_list(seen@);
        seen.push(current.clone());
        let sum = match sum_of_divisors(&current, "aliquot_length") {
            Ok(s) => s,
            Err(e) => {
                proof {
                    assert(!aliquot_stops(a)) by {
                        assert(a[a.len() - 1] == current@);
                    }
                }
                return Err(e);
            },
        };
        let next = sum.subtract(&current);
        proof {
            let old_a = a;
            a = a.push(next@);
            assert(a[0] == old_a[0]);
            assert(int_list(seen@) =~= before.push(current@));
            assert(int_list(seen@) =~= a.take(length + 1));
            assert forall|k: int| 0 <= k < a.len() - 1 implies #[trigger] aliquot_step(a, k) by {
                if k < old_a.len() - 1 {
                    assert(a[k] == old_a[k]);
                    assert(a[k + 1] == old_a[k + 1]);
                    assert(a.take(k) =~= old_a.take(k));
                    assert(aliquot_step(old_a, k));
                } else {
                    assert(k == length);
                    assert(a[k] == current@);
                    assert(current@ > 0);
                    assert(a.take(k) =~= old_a.take(k));
                    assert(!old_a.take(k).contains(current@));
                    assert(a[k + 1] + a[k] == sum@);
                    assert(is_divisor_sum(current@, sum@));
                }
            }
            assert(a.len() >= 1);
            assert(a[0] == n@);
            assert(aliquot_run(n@, a));
        }
        current = next;
        length = length + 1;
    }
}

} // verus!
