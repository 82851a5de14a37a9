//! Prime searches behind ApexLang's `nats` module: trial division, the
//! Goldbach pair of an even number, the Bertrand prime above a number,
//! modular powers and the Fermat, strong-pseudoprime and Miller-Rabin tests.

use vstd::prelude::*;
use vstd::arithmetic::power::{
    pow, lemma_pow_adds, lemma_pow_mod_noop, lemma_pow_multiplies, lemma_pow_positive, lemma_pow1,
    lemma_square_is_pow2,
};
use vstd::arithmetic::div_mod::{lemma_mul_mod_noop, lemma_mul_mod_noop_left, lemma_mul_mod_noop_right};
use crate::apexlang::error::ApexError;
use crate::forge::math::{
    big_div, big_eq, big_from_i64, big_from_u128, big_half, big_is_negative, big_is_zero, big_le, big_low_bit,
    big_mul, big_pow, big_rem, big_shl, big_to_u128, big_to_u32, big_to_usize, gcd_of, radix_text, trunc_rem, trunc_div, abs_int,
    AFNSBigInt,
};

verus! {

/// Whether a number is prime: at least 2, and divisible by no number from
/// 2 up to it.
pub open spec fn is_prime(n: int) -> bool {
    n >= 2 && forall|d: int| 2 <= d < n ==> #[trigger] (n % d) != 0
}

pub(crate) proof fn lemma_even_divisor(value: int, d: int)
    requires
        value >= 0,
        value % 2 == 1,
        d >= 2,
        d % 2 == 0,
    ensures
        value % d != 0,
{
    if value % d == 0 {
        let k = value / d;
        let m = d / 2;
        assert(value == d * k) by (nonlinear_arith)
            requires
                value % d == 0,
                d >= 2,
                k == value / d,
        ;
        assert(value == 2 * (m * k)) by (nonlinear_arith)
            requires
                value == d * k,
                d == 2 * m,
        ;
        assert(value % 2 == 0) by (nonlinear_arith)
            requires
                value == 2 * (m * k),
        ;
    }
}

/// A number with no divisor below `s`, where `s * s` exceeds it, is prime.
pub(crate) proof fn lemma_no_small_divisor(value: int, s: int)
    requires
        value >= 2,
        s >= 2,
        s * s > value,
        forall|d: int| 2 <= d < s ==> #[trigger] (value % d) != 0,
    ensures
        is_prime(value),
{
    assert forall|d: int| 2 <= d < value implies #[trigger] (value % d) != 0 by {
        if value % d == 0 && d >= s {
            let q = value / d;
            assert(value == d * q) by (nonlinear_arith)
                requires
                    value % d == 0,
                    d >= 2,
                    q == value / d,
            ;
            assert(2 <= q < s) by (nonlinear_arith)
                requires
                    value == d * q,
                    d >= s,
                    s * s > value,
                    d < value,
                    s >= 2,
                    value >= 2,
            ;
            assert(value % q == 0) by (nonlinear_arith)
                requires
                    value == d * q,
                    q >= 2,
            ;
        }
    }
}

/// Whether a number is prime, by trial division with odd divisors up to
/// its square root
pub fn is_prime_raw(value: u128) -> (b: bool)
    ensures
        b == is_prime(value as int),
{
    if value < 2 {
        return false;
    }
    if value == 2 || value == 3 {
        return true;
    }
    if value % 2 == 0 {
        assert(!is_prime(value as int)) by {
            assert((value as int) % 2 == 0);
        }
        return false;
    }
    let mut divisor: u128 = 3;
    loop
        invariant
            value >= 5,
            value % 2 == 1,
            divisor >= 3,
            divisor % 2 == 1,
            forall|d: int| 2 <= d < divisor ==> #[trigger] ((value as int) % d) != 0,
        decreases value - divisor,
    {
        let square = divisor.checked_mul(divisor);
        let stop = match square {
            None => true,
            Some(sq) => sq > value,
        };
        if stop {
            proof {
                lemma_no_small_divisor(value as int, divisor as int);
            }
            return true;
        }
        if value % divisor == 0 {
            assert(!is_prime(value as int)) by {
                assert(divisor * divisor <= value);
                assert(divisor < value) by (nonlinear_arith)
                    requires
                        divisor * divisor <= value,
                        divisor >= 3,
                ;
                assert((value as int) % (divisor as int) == 0);
            }
            return false;
        }
        proof {
            assert(divisor + 2 <= value) by (nonlinear_arith)
                requires
                    divisor * divisor <= value,
                    divisor >= 3,
            ;
            lemma_even_divisor(value as int, divisor + 1);
            assert forall|d: int| 2 <= d < divisor + 2 implies #[trigger] ((value as int) % d) != 0 by {
                if d == divisor + 1 {
                    lemma_even_divisor(value as int, d);
                }
            }
        }
        divisor = divisor + 2;
    }
}

/// Whether `p` and `target - p` are both prime.
pub open spec fn goldbach_split(target: int, p: int) -> bool {
    is_prime(p) && is_prime(target - p)
}

proof fn lemma_even_not_prime(x: int)
    requires
        x > 2,
        x % 2 == 0,
    ensures
        !is_prime(x),
{
    assert(x % 2 == 0);
}

/// The Goldbach pair of `target` with the smallest prime: the first prime
/// `p` up to `target / 2` for which `target - p` is prime too, or None
pub fn find_goldbach_pair(target: u128) -> (r: Option<(u128, u128)>)
    ensures
        match r {
            Some((p, q)) => p + q == target && p <= target / 2 && goldbach_split(target as int, p as int)
                && forall|x: int| 2 <= x < p ==> !goldbach_split(target as int, x),
            None => forall|x: int| 2 <= x <= target / 2 ==> !goldbach_split(target as int, x),
        },
{
    let mut candidate: u128 = 2;
    while candidate <= target / 2
        invariant
            candidate >= 2,
            candidate == 2 || candidate % 2 == 1,
            candidate <= target / 2 + 2,
            forall|x: int| 2 <= x < candidate ==> !goldbach_split(target as int, x),
        decreases target / 2 + 2 - candidate,
    {
        if is_prime_raw(candidate) {
            let other = target - candidate;
            if is_prime_raw(other) {
                return Some((candidate, other));
            }
        }
        let step: u128 = if candidate == 2 { 1 } else { 2 };
        proof {
            assert forall|x: int| 2 <= x < candidate + step implies !goldbach_split(target as int, x) by {
                if x == candidate + 1 && step == 2 {
                    lemma_even_not_prime(x);
                }
            }
        }
        candidate = candidate + step;
    }
    None
}

/// The first prime in the candidates from `c` up to `end`: each candidate
/// is followed by the next odd number (after 2, by 3).
pub open spec fn first_prime_from(c: int, end: int) -> Option<int>
    decreases end + 2 - c,
{
    if c > end || c < 2 {
        None
    } else if is_prime(c) {
        Some(c)
    } else {
        first_prime_from(c + if c == 2 { 1int } else { 2int }, end)
    }
}

/// The prime that Bertrand's postulate puts between `n` and `2n`: the
/// first prime among the candidates from `max(n + 1, 2)` up to `2n`, each
/// followed by the candidate two above it (by 3 after 2); None when `n + 1`
/// or `2n` do not fit in 128 bits or no candidate is prime
pub fn find_bertrand_prime(n: u128) -> (r: Option<u128>)
    ensures
        n == u128::MAX || 2 * n > u128::MAX ==> r is None,
        n < u128::MAX && 2 * n <= u128::MAX ==> match first_prime_from(
            if n + 1 >= 2 { n + 1 } else { 2 },
            2 * n,
        ) {
            Some(p) => r == Some(p as u128),
            None => r is None,
        },
{
    let start = match n.checked_add(1) {
        Some(s) => s,
        None => return None,
    };
    let end = match n.checked_mul(2) {
        Some(e) => e,
        None => return None,
    };
    let mut candidate = if start >= 2 { start } else { 2 };
    let ghost first = candidate as int;
    loop
        invariant
            candidate >= 2,
            end == 2 * n,
            n < u128::MAX,
            first == (if n + 1 >= 2 { n + 1 } else { 2 }),
            first_prime_from(first, end as int) == first_prime_from(candidate as int, end as int),
        decreases end + 2 - candidate,
    {
        if candidate > end {
            return None;
        }
        if is_prime_raw(candidate) {
            return Some(candidate);
        }
        let step: u128 = if candidate == 2 { 1 } else { 2 };
        match candidate.checked_add(step) {
            Some(next) => {
                candidate = next;
            },
            None => {
                assert(first_prime_from(candidate + step, end as int) is None);
                return None;
            },
        }
    }
}

/// How many primes there are up to `n`.
pub open spec fn prime_count(n: int) -> nat
    decreases n,
{
    if n < 2 {
        0
    } else {
        prime_count(n - 1) + if is_prime(n) { 1nat } else { 0nat }
    }
}

/// Whether no prime below `bound` (and below `j`) divides `j`.
pub open spec fn no_prime_factor_below(j: int, bound: int) -> bool {
    forall|p: int| 2 <= p < bound && p < j && is_prime(p) ==> #[trigger] (j % p) != 0
}

proof fn lemma_divides_trans(n: int, d: int, p: int)
    requires
        n >= 1,
        d >= 1,
        p >= 1,
        n % d == 0,
        d % p == 0,
    ensures
        n % p == 0,
{
    let a = n / d;
    let b = d / p;
    assert(n == d * a) by (nonlinear_arith)
        requires
            n % d == 0,
            d >= 1,
            a == n / d,
    ;
    assert(d == p * b) by (nonlinear_arith)
        requires
            d % p == 0,
            p >= 1,
            b == d / p,
    ;
    assert(n == p * (b * a)) by (nonlinear_arith)
        requires
            n == d * a,
            d == p * b,
    ;
    assert(n % p == 0) by (nonlinear_arith)
        requires
            n == p * (b * a),
            p >= 1,
    ;
}

proof fn lemma_multiple(k: int, i: int)
    requires
        i >= 1,
    ensures
        (k * i) % i == 0,
{
    assert((k * i) % i == 0) by (nonlinear_arith)
        requires
            i >= 1,
    ;
}

proof fn lemma_between_multiples(x: int, k: int, i: int)
    requires
        i >= 1,
        k * i < x < (k + 1) * i,
    ensures
        x % i != 0,
{
    assert(x % i != 0) by (nonlinear_arith)
        requires
            i >= 1,
            k * i < x < (k + 1) * i,
    ;
}

/// A number that is not prime has a prime factor below it.
proof fn lemma_prime_factor(n: int)
    requires
        n >= 2,
        !is_prime(n),
    ensures
        exists|p: int| 2 <= p < n && is_prime(p) && #[trigger] (n % p) == 0,
    decreases n,
{
    let d = choose|d: int| 2 <= d < n && #[trigger] (n % d) == 0;
    if is_prime(d) {
        assert(n % d == 0);
    } else {
        lemma_prime_factor(d);
        let p = choose|p: int| 2 <= p < d && is_prime(p) && #[trigger] (d % p) == 0;
        lemma_divides_trans(n, d, p);
        assert(n % p == 0);
    }
}

/// How many primes there are up to `limit`, by the sieve of Eratosthenes
pub fn sieve_prime_count(limit: usize) -> (count: usize)
    requires
        limit < isize::MAX,
    ensures
        count == prime_count(limit as int),
{
    if limit < 2 {
        return 0;
    }
    let mut sieve: Vec<bool> = vec![true; limit + 1];
    sieve.set(0, false);
    sieve.set(1, false);
    let mut count: usize = 0;
    let mut i: usize = 2;
    proof {
        assert forall|x: int| 0 <= x <= limit implies #[trigger] sieve@[x] == (x >= 2 && no_prime_factor_below(x, 2)) by {
        }
    }
    while i <= limit
        invariant
            2 <= i <= limit + 1,
            limit < isize::MAX,
            sieve@.len() == limit + 1,
            count <= i,
            count == prime_count(i - 1),
            forall|x: int| 0 <= x <= limit ==> #[trigger] sieve@[x] == (x >= 2 && no_prime_factor_below(x, i as int)),
        decreases limit + 1 - i,
    {
        proof {
            if !sieve@[i as int] {
                assert(!no_prime_factor_below(i as int, i as int));
            }
            if no_prime_factor_below(i as int, i as int) && !is_prime(i as int) {
                lemma_prime_factor(i as int);
            }
        }
        let ghost prime = is_prime(i as int);
        assert(sieve@[i as int] == prime);
        if sieve[i] {
            count = count + 1;
            let ghost before = sieve@;
            let mut j = i * 2;
            let ghost mut k: int = 2;
            proof {
                assert forall|x: int| 0 <= x <= limit implies #[trigger] sieve@[x] == (if x % (i as int) == 0 && i < x && x < j { false } else { before[x] }) by {
                    if i < x && x < j {
                        lemma_between_multiples(x, 1, i as int);
                    }
                }
            }
            while j <= limit
                invariant
                    2 <= i <= limit,
                    limit < isize::MAX,
                    sieve@.len() == limit + 1,
                    i < j <= limit + i,
                    k >= 2,
                    j == k * i,
                    forall|x: int| 0 <= x <= limit ==> #[trigger] sieve@[x] == (if x % (i as int) == 0 && i < x && x < j { false } else { before[x] }),
                decreases limit + i - j,
            {
                sieve.set(j, false);
                proof {
                    lemma_multiple(k, i as int);
                    let ii = i as int;
                    assert((k + 1) * ii == k * ii + ii) by (nonlinear_arith);
                    assert forall|x: int| 0 <= x <= limit implies #[trigger] sieve@[x] == (if x % (i as int) == 0 && i < x && x < j + i { false } else { before[x] }) by {
                        if j < x && x < j + i {
                            lemma_between_multiples(x, k, i as int);
                        }
                    }
                    k = k + 1;
                }
                j = j + i;
            }
            proof {
                assert forall|x: int| 0 <= x <= limit implies #[trigger] sieve@[x] == (x >= 2 && no_prime_factor_below(x, i + 1)) by {
                    if x % (i as int) == 0 && i < x {
                        assert(!no_prime_factor_below(x, i + 1));
                    } else {
                        assert(before[x] == (x >= 2 && no_prime_factor_below(x, i as int)));
                        if x >= 2 && no_prime_factor_below(x, i as int) {
                            assert forall|p: int| 2 <= p < i + 1 && p < x && is_prime(p) implies #[trigger] (x % p) != 0 by {
                                if p < i {
                                    assert(no_prime_factor_below(x, i as int));
                                }
                            }
                        }
                    }
                }
            }
        } else {
            proof {
                assert forall|x: int| 0 <= x <= limit implies #[trigger] sieve@[x] == (x >= 2 && no_prime_factor_below(x, i + 1)) by {
                    if x >= 2 && no_prime_factor_below(x, i as int) {
                        assert forall|p: int| 2 <= p < i + 1 && p < x && is_prime(p) implies #[trigger] (x % p) != 0 by {
                            if p < i {
                                assert(no_prime_factor_below(x, i as int));
                            }
                        }
                    }
                }
            }
        }
        i = i + 1;
    }
    count
}

/// `b` to the power `e` modulo `m` as square-and-multiply gives it: the
/// power reduced modulo `m`, and 1 for a zero exponent.
pub open spec fn mod_pow_value(b: int, e: int, m: int) -> int {
    if e <= 0 {
        1
    } else {
        pow(b, e as nat) % m
    }
}

/// One square-and-multiply step keeps `r * b^e` modulo `m`.
proof fn lemma_mod_pow_step(r: int, b: int, e: int, m: int)
    requires
        m > 0,
        e > 0,
        r >= 0,
        b >= 0,
    ensures
        e % 2 == 1 ==> ((r * b) % m) * pow((b * b) % m, (e / 2) as nat) % m == r * pow(b, e as nat) % m,
        e % 2 == 0 ==> r * pow((b * b) % m, (e / 2) as nat) % m == r * pow(b, e as nat) % m,
{
    let h = (e / 2) as nat;
    lemma_square_is_pow2(b);
    lemma_pow_multiplies(b, 2, h);
    lemma_pow_mod_noop(b * b, h, m);
    let p = pow(b * b, h);
    let q = pow((b * b) % m, h);
    assert(pow(b, 2 * h) == p);
    if e % 2 == 1 {
        assert(e == 1 + 2 * h);
        lemma_pow_adds(b, 1, 2 * h);
        lemma_pow1(b);
        assert(pow(b, e as nat) == b * p);
        let x = (r * b) % m;
        lemma_mul_mod_noop_right(x, q, m);
        lemma_mul_mod_noop_right(x, p, m);
        lemma_mul_mod_noop_left(r * b, p, m);
        assert((r * b) * p == r * (b * p)) by (nonlinear_arith);
    } else {
        assert(e == 2 * h);
        lemma_mul_mod_noop_right(r, q, m);
        lemma_mul_mod_noop_right(r, p, m);
    }
}

/// `base` to the power `exp` modulo `modulus`, by squaring and
/// multiplying
pub fn mod_pow(base: &AFNSBigInt, exp: &AFNSBigInt, modulus: &AFNSBigInt) -> (r: AFNSBigInt)
    requires
        base@ >= 0,
        exp@ >= 0,
        modulus@ > 0,
    ensures
        r@ == mod_pow_value(base@, exp@, modulus@),
{
    let ghost m = modulus@;
    let ghost b0 = base@;
    let ghost e0 = exp@;
    let one = big_from_i64(1);
    let mut result = big_from_i64(1);
    let mut b = big_rem(base, modulus);
    let mut e = exp.clone();
    proof {
        lemma_pow_mod_noop(b0, e0 as nat, m);
    }
    while !big_is_zero(&e)
        invariant
            m == modulus@,
            m > 0,
            e0 >= 0,
            0 <= b@ < m,
            e@ >= 0,
            result@ >= 0,
            one@ == 1,
            result@ * pow(b@, e@ as nat) % m == pow(b0, e0 as nat) % m,
            result@ == 1 || result@ < m,
            e0 > 0 && e@ == 0 ==> result@ < m,
            e0 == 0 ==> e@ == 0 && result@ == 1,
        decreases e@,
    {
        let ghost r0 = result@;
        let ghost bb = b@;
        let ghost ee = e@;
        proof {
            lemma_mod_pow_step(r0, bb, ee, m);
        }
        if big_eq(&big_low_bit(&e), &one) {
            result = big_rem(&big_mul(&result, &b), modulus);
        }
        e = big_half(&e);
        b = big_rem(&big_mul(&b, &b), modulus);
    }
    proof {
        if e0 > 0 {
            assert(pow(b@, 0) == 1) by {
                vstd::arithmetic::power::lemma_pow0(b@);
            }
            assert(result@ % m == result@) by {
                vstd::arithmetic::div_mod::lemma_small_mod(result@ as nat, m as nat);
            }
        }
    }
    result
}

/// The number of factors two in a positive number.
pub open spec fn two_exponent(x: int) -> nat
    decreases x,
{
    if x > 0 && x % 2 == 0 {
        1 + two_exponent(x / 2)
    } else {
        0
    }
}

/// A positive number with its factors two divided out.
pub open spec fn odd_part(x: int) -> int
    decreases x,
{
    if x > 0 && x % 2 == 0 {
        odd_part(x / 2)
    } else {
        x
    }
}

/// `a` to the power `d * 2^r`.
pub open spec fn square_chain(a: int, d: int, r: nat) -> int {
    pow(a, (d * pow(2, r)) as nat)
}

/// Whether `n` is a strong probable prime to base `a`: with n - 1 = d·2^s
/// and d odd, a^d ≡ 1 or a^(d·2^r) ≡ -1 (mod n) for some r < s. A number
/// up to 3 is one exactly when it is 2 or 3; a base outside 1 < a < n, an
/// even n or a base sharing a factor with n gives false.
pub open spec fn is_strong_probable_prime(n: int, a: int) -> bool {
    if n <= 3 {
        n == 2 || n == 3
    } else if a <= 1 || a >= n || n % 2 == 0 || gcd_of(a as nat, n as nat) != 1 {
        false
    } else {
        let d = odd_part(n - 1);
        pow(a, d as nat) % n == 1 || exists|r: nat|
            r < two_exponent(n - 1) && #[trigger] square_chain(a, d, r) % n == n - 1
    }
}

/// The inputs on which the strong-probable-prime test counts the factors
/// two of n - 1 in a `u32` without overflow.
pub open spec fn sprp_counter_fits(n: int, a: int) -> bool {
    n <= 3 || a <= 1 || a >= n || n % 2 == 0 || gcd_of(a as nat, n as nat) != 1 || two_exponent(n - 1)
        <= u32::MAX
}

/// The next link of the chain is the square of the last one.
proof fn lemma_chain_next(a: int, d: int, r: nat, n: int)
    requires
        d >= 1,
        n > 0,
    ensures
        square_chain(a, d, r + 1) % n == (square_chain(a, d, r) % n) * (square_chain(a, d, r) % n) % n,
{
    lemma_pow_positive(2, r);
    let k = d * pow(2, r);
    assert(k >= 0) by (nonlinear_arith)
        requires d >= 1, pow(2, r) > 0, k == d * pow(2, r);
    assert(pow(2, r + 1) == 2 * pow(2, r)) by {
        reveal(pow);
    }
    assert(d * pow(2, r + 1) == k + k) by (nonlinear_arith)
        requires pow(2, r + 1) == 2 * pow(2, r), k == d * pow(2, r);
    lemma_pow_adds(a, k as nat, k as nat);
    lemma_mul_mod_noop(pow(a, k as nat), pow(a, k as nat), n);
}

/// Once the chain reaches 1 it stays there.
proof fn lemma_chain_stays_one(a: int, d: int, i: nat, k: nat, n: int)
    requires
        d >= 1,
        n > 1,
        i <= k,
        square_chain(a, d, i) % n == 1,
    ensures
        square_chain(a, d, k) % n == 1,
    decreases k - i,
{
    if i < k {
        lemma_chain_next(a, d, i, n);
        vstd::arithmetic::div_mod::lemma_small_mod(1, n as nat);
        lemma_chain_stays_one(a, d, (i + 1) as nat, k, n);
    }
}

/// Whether `n` is a strong probable prime to `base`
pub fn strong_probable_prime(n: &AFNSBigInt, base: &AFNSBigInt) -> (b: bool)
    requires
        sprp_counter_fits(n@, base@),
    ensures
        b == is_strong_probable_prime(n@, base@),
{
    let one = big_from_i64(1);
    let two = big_from_i64(2);
    let three = big_from_i64(3);
    if big_le(n, &three) {
        return big_eq(n, &two) || big_eq(n, &three);
    }
    if big_le(base, &one) || big_le(n, base) {
        return false;
    }
    if n.is_even() {
        return false;
    }
    if !big_eq(&base.gcd(n), &one) {
        return false;
    }
    let ghost nv = n@;
    let ghost a = base@;
    let mut d = n.subtract(&one);
    let mut s: u32 = 0;
    proof {
        vstd::arithmetic::power::lemma_pow0(2);
        assert(two_exponent(nv - 1) >= 1);
    }
    while d.is_even()
        invariant
            nv == n@,
            d@ >= 1,
            odd_part(d@) == odd_part(nv - 1),
            two_exponent(nv - 1) == s + two_exponent(d@),
            two_exponent(nv - 1) <= u32::MAX,
            two_exponent(nv - 1) >= 1,
            d@ * pow(2, s as nat) == nv - 1,
        decreases d@,
    {
        let ghost old_d = d@;
        d = big_half(&d);
        proof {
            assert(pow(2, (s + 1) as nat) == 2 * pow(2, s as nat)) by {
                reveal(pow);
            }
            assert(d@ * pow(2, (s + 1) as nat) == nv - 1) by (nonlinear_arith)
                requires
                    pow(2, (s + 1) as nat) == 2 * pow(2, s as nat),
                    old_d * pow(2, s as nat) == nv - 1,
                    old_d == 2 * d@,
            ;
        }
        s = s + 1;
    }
    let ghost dv = d@;
    assert(odd_part(dv) == dv);
    assert(two_exponent(dv) == 0);
    let n_minus_one = n.subtract(&one);
    let mut x = mod_pow(base, &d, n);
    assert(square_chain(a, dv, 0) == pow(a, dv as nat)) by {
        assert(pow(2, 0) == 1) by {
            reveal(pow);
        }
    }
    if big_eq(&x, &one) || big_eq(&x, &n_minus_one) {
        proof {
            assert(x@ == pow(a, dv as nat) % nv);
            assert(dv == odd_part(nv - 1));
            assert(nv > 3);
            assert(nv % 2 == 1);
            assert(1 < a < nv);
            assert(gcd_of(a as nat, nv as nat) == 1);
            if x@ == nv - 1 {
                assert(square_chain(a, dv, 0) % nv == nv - 1);
            }
        }
        return true;
    }
    let mut i: u32 = 1;
    while i < s
        invariant
            nv == n@,
            nv > 3,
            dv >= 1,
            a == base@,
            one@ == 1,
            n_minus_one@ == nv - 1,
            s == two_exponent(nv - 1),
            dv == odd_part(nv - 1),
            1 < a < nv,
            nv % 2 == 1,
            gcd_of(a as nat, nv as nat) == 1,
            1 <= i,
            i <= s || s == 0,
            x@ == square_chain(a, dv, (i - 1) as nat) % nv,
            pow(a, dv as nat) % nv != 1,
            forall|r: nat| r < i ==> #[trigger] square_chain(a, dv, r) % nv != nv - 1,
        decreases s - i,
    {
        let ghost prev = x@;
        proof {
            lemma_chain_next(a, dv, (i - 1) as nat, nv);
        }
        x = big_rem(&big_mul(&x, &x), n);
        assert(x@ == square_chain(a, dv, i as nat) % nv);
        if big_eq(&x, &n_minus_one) {
            assert(square_chain(a, dv, i as nat) % nv == nv - 1);
            return true;
        }
        if big_eq(&x, &one) {
            proof {
                assert forall|r: nat| r < two_exponent(nv - 1) implies #[trigger] square_chain(a, dv, r) % nv
                    != nv - 1 by {
                    if r >= i {
                        lemma_chain_stays_one(a, dv, i as nat, r, nv);
                    }
                }
            }
            return false;
        }
        i = i + 1;
    }
    proof {
        assert forall|r: nat| r < two_exponent(nv - 1) implies #[trigger] square_chain(a, dv, r) % nv != nv
            - 1 by {
            assert(r < i);
        }
    }
    false
}

/// How many of the bases 2, 3, 5, 7, 11, 13 and 17 lie below `n`.
pub open spec fn small_base_count(n: int) -> int {
    if n <= 2 {
        0
    } else if n <= 3 {
        1
    } else if n <= 5 {
        2
    } else if n <= 7 {
        3
    } else if n <= 11 {
        4
    } else if n <= 13 {
        5
    } else if n <= 17 {
        6
    } else {
        7
    }
}

/// The `i`-th of the fixed small bases.
pub open spec fn small_base(i: int) -> int {
    seq![2int, 3, 5, 7, 11, 13, 17][i]
}

/// The base of round `i` of the Miller-Rabin test of `n`: the small bases
/// below `n` first, then 19, 21, 23, ... taken modulo n - 3, plus 2.
pub open spec fn miller_rabin_base(n: int, i: int) -> int {
    let c = small_base_count(n);
    if i < c {
        small_base(i)
    } else {
        (19 + 2 * (i - c)) % (n - 3) + 2
    }
}

/// The message of a number past the range of `u128`.
pub open spec fn too_large_for_u128(name: Seq<char>, v: int) -> Seq<char> {
    name + " argument '"@ + radix_text(v, 10) + "' is too large to fit in u128"@
}

/// Two to the power `k`.
pub open spec fn two_to(k: nat) -> int
    decreases k,
{
    if k == 0 {
        1
    } else {
        2 * two_to((k - 1) as nat)
    }
}

/// Powers of two multiply by adding exponents.
proof fn lemma_two_to_adds(a: nat, b: nat)
    ensures
        two_to(a + b) == two_to(a) * two_to(b),
    decreases a,
{
    if a > 0 {
        lemma_two_to_adds((a - 1) as nat, b);
        assert(two_to(a + b) == 2 * two_to((a - 1 + b) as nat));
        assert(2 * (two_to((a - 1) as nat) * two_to(b)) == (2 * two_to((a - 1) as nat)) * two_to(b))
            by (nonlinear_arith);
    }
}

/// 2^128 is one more than the largest `u128`.
pub(crate) proof fn lemma_two_to_128()
    ensures
        two_to(128) == u128::MAX + 1,
{
    reveal_with_fuel(two_to, 9);
    assert(two_to(8) == 256);
    lemma_two_to_adds(8, 8);
    assert(two_to(16) == 65536);
    lemma_two_to_adds(16, 16);
    assert(two_to(32) == 4294967296);
    lemma_two_to_adds(32, 32);
    assert(two_to(64) == 18446744073709551616);
    lemma_two_to_adds(64, 64);
    assert(two_to(128) == 340282366920938463463374607431768211456);
}

/// A number below 2^k has fewer than k factors two.
proof fn lemma_two_exponent_bound(x: int, k: nat)
    requires
        1 <= x < two_to(k),
    ensures
        two_exponent(x) < k,
    decreases k,
{
    if k > 0 && x % 2 == 0 {
        lemma_two_exponent_bound(x / 2, (k - 1) as nat);
    }
}

/// The Miller-Rabin test of `n` with `rounds` bases: an error for no
/// rounds, and for an odd number above 3 that does not fit in `u128`
pub fn miller_rabin_test(n: &AFNSBigInt, rounds: usize) -> (r: Result<bool, ApexError>)
    requires
        n@ >= 0,
    ensures
        rounds == 0 ==> (r matches Err(e) && e@ == "miller_rabin_test requires at least one round"@),
        rounds > 0 && n@ <= 3 ==> r == Ok::<bool, ApexError>(n@ == 2 || n@ == 3),
        rounds > 0 && n@ > 3 && n@ % 2 == 0 ==> r == Ok::<bool, ApexError>(false),
        rounds > 0 && n@ > u128::MAX && n@ % 2 == 1 ==> (r matches Err(e) && e@ == too_large_for_u128(
            "miller_rabin_test"@,
            n@,
        )),
        rounds > 0 && 3 < n@ <= u128::MAX && n@ % 2 == 1 ==> r == Ok::<bool, ApexError>(
            forall|i: int| 0 <= i < rounds ==> #[trigger] is_strong_probable_prime(n@, miller_rabin_base(n@, i)),
        ),
{
    if rounds == 0 {
        return Err(ApexError::new(String::from_str("miller_rabin_test requires at least one round")));
    }
    let two = big_from_i64(2);
    let three = big_from_i64(3);
    if big_le(n, &three) {
        return Ok(big_eq(n, &two) || big_eq(n, &three));
    }
    if n.is_even() {
        return Ok(false);
    }
    let n_u128 = match big_to_u128(n) {
        Some(v) => v,
        None => {
            let mut m = String::from_str("miller_rabin_test");
            m.append(" argument '");
            m.append(n.to_string().as_str());
            m.append("' is too large to fit in u128");
            return Err(ApexError::new(m));
        },
    };
    let ghost nv = n@;
    proof {
        lemma_two_to_128();
        lemma_two_exponent_bound(nv - 1, 128);
    }
    let bases: [u128; 7] = [2, 3, 5, 7, 11, 13, 17];
    let ghost c = small_base_count(nv);
    let mut tests: usize = 0;
    let mut j: usize = 0;
    while j < 7 && tests < rounds
        invariant
            nv == n@,
            nv == n_u128,
            3 < nv <= u128::MAX,
            nv % 2 == 1,
            two_exponent(nv - 1) <= 128,
            c == small_base_count(nv),
            bases@ == seq![2u128, 3, 5, 7, 11, 13, 17],
            j <= 7,
            tests <= rounds,
            tests == (if j < c { j as int } else { c }),
            forall|i: int| 0 <= i < tests ==> #[trigger] is_strong_probable_prime(nv, miller_rabin_base(nv, i)),
        decreases 7 - j,
    {
        let candidate = bases[j];
        if candidate < n_u128 {
            assert(j < c);
            assert(bases@[j as int] == small_base(j as int));
            assert(miller_rabin_base(nv, tests as int) == candidate);
            if !strong_probable_prime(n, &big_from_u128(candidate)) {
                return Ok(false);
            }
            tests = tests + 1;
        } else {
            assert(j >= c);
        }
        j = j + 1;
    }
    if tests == rounds {
        assert(forall|i: int| 0 <= i < rounds ==> #[trigger] is_strong_probable_prime(nv, miller_rabin_base(nv, i)));
        return Ok(true);
    }
    assert(tests == c);
    let mut candidate: u128 = 19;
    while tests < rounds
        invariant
            nv == n@,
            nv == n_u128,
            3 < nv <= u128::MAX,
            nv % 2 == 1,
            two_exponent(nv - 1) <= 128,
            c == small_base_count(nv),
            c <= tests <= rounds,
            candidate == 19 + 2 * (tests - c),
            forall|i: int| 0 <= i < tests ==> #[trigger] is_strong_probable_prime(nv, miller_rabin_base(nv, i)),
        ensures
            tests == rounds,
            forall|i: int| 0 <= i < tests ==> #[trigger] is_strong_probable_prime(nv, miller_rabin_base(nv, i)),
        decreases rounds - tests,
    {
        let range = n_u128 - 3;
        if range == 0 {
            break;
        }
        let base_value = (candidate % range) + 2;
        assert(miller_rabin_base(nv, tests as int) == base_value);
        if !strong_probable_prime(n, &big_from_u128(base_value)) {
            return Ok(false);
        }
        tests = tests + 1;
        candidate = candidate + 2;
    }
    assert(tests == rounds);
    assert(forall|i: int| 0 <= i < rounds ==> #[trigger] is_strong_probable_prime(nv, miller_rabin_base(nv, i)));
    Ok(true)
}

/// The message of a base outside 1 < base < n.
pub open spec fn base_range_message(name: Seq<char>) -> Seq<char> {
    name + " requires base satisfying 1 < base < n"@
}

fn base_range_error(name: &str) -> (e: ApexError)
    ensures
        e@ == base_range_message(name@),
{
    let mut m = String::from_str(name);
    m.append(" requires base satisfying 1 < base < n");
    ApexError::new(m)
}

/// Whether Fermat's little theorem holds for `base` modulo `modulus`:
/// false when they share a factor; an error for a modulus up to 1 or a
/// base outside 1 < base < modulus
pub fn fermat_little(base: &AFNSBigInt, modulus: &AFNSBigInt) -> (r: Result<bool, ApexError>)
    requires
        base@ >= 0,
        modulus@ >= 0,
    ensures
        modulus@ <= 1 ==> (r matches Err(e) && e@ == "fermat_little requires modulus > 1"@),
        modulus@ > 1 && (base@ <= 1 || base@ >= modulus@) ==> (r matches Err(e) && e@ == base_range_message(
            "fermat_little"@,
        )),
        1 < base@ < modulus@ ==> r == Ok::<bool, ApexError>(
            gcd_of(base@ as nat, modulus@ as nat) == 1 && pow(base@, (modulus@ - 1) as nat) % modulus@ == 1,
        ),
{
    let one = big_from_i64(1);
    if big_le(modulus, &one) {
        return Err(ApexError::new(String::from_str("fermat_little requires modulus > 1")));
    }
    if big_le(base, &one) || big_le(modulus, base) {
        return Err(base_range_error("fermat_little"));
    }
    if !big_eq(&base.gcd(modulus), &one) {
        return Ok(false);
    }
    let exponent = modulus.subtract(&one);
    let residue = mod_pow(base, &exponent, modulus);
    Ok(big_eq(&residue, &one))
}

/// Whether `n` is a Fermat pseudoprime to `base`: false up to 3 and for a
/// base sharing a factor with `n`; an error for a base outside 1 < base < n
pub fn is_fermat_pseudoprime(n: &AFNSBigInt, base: &AFNSBigInt) -> (r: Result<bool, ApexError>)
    requires
        n@ >= 0,
        base@ >= 0,
    ensures
        n@ <= 3 ==> r == Ok::<bool, ApexError>(false),
        n@ > 3 && (base@ <= 1 || base@ >= n@) ==> (r matches Err(e) && e@ == base_range_message(
            "is_fermat_pseudoprime"@,
        )),
        n@ > 3 && 1 < base@ < n@ ==> r == Ok::<bool, ApexError>(
            gcd_of(base@ as nat, n@ as nat) == 1 && pow(base@, (n@ - 1) as nat) % n@ == 1,
        ),
{
    let one = big_from_i64(1);
    let three = big_from_i64(3);
    if big_le(n, &three) {
        return Ok(false);
    }
    if big_le(base, &one) || big_le(n, base) {
        return Err(base_range_error("is_fermat_pseudoprime"));
    }
    if big_eq(&base.gcd(n), &one) {
        let exponent = n.subtract(&one);
        Ok(big_eq(&mod_pow(base, &exponent, n), &one))
    } else {
        Ok(false)
    }
}

/// Whether `n` is a strong pseudoprime to `base`: false up to 3; an error
/// for a base outside 1 < base < n
pub fn is_strong_pseudoprime(n: &AFNSBigInt, base: &AFNSBigInt) -> (r: Result<bool, ApexError>)
    requires
        n@ >= 0,
        base@ >= 0,
        sprp_counter_fits(n@, base@),
    ensures
        n@ <= 3 ==> r == Ok::<bool, ApexError>(false),
        n@ > 3 && (base@ <= 1 || base@ >= n@) ==> (r matches Err(e) && e@ == base_range_message(
            "is_strong_pseudoprime"@,
        )),
        n@ > 3 && 1 < base@ < n@ ==> r == Ok::<bool, ApexError>(is_strong_probable_prime(n@, base@)),
{
    let one = big_from_i64(1);
    let three = big_from_i64(3);
    if big_le(n, &three) {
        return Ok(false);
    }
    if big_le(base, &one) || big_le(n, base) {
        return Err(base_range_error("is_strong_pseudoprime"));
    }
    Ok(strong_probable_prime(n, base))
}


fn too_large_error(name: &str, n: &AFNSBigInt, kind: &str) -> (e: ApexError)
    ensures
        e@ == name@ + " argument '"@ + radix_text(n@, 10) + "' is too large to fit in "@ + kind@,
{
    let mut m = String::from_str(name);
    m.append(" argument '");
    m.append(n.to_string().as_str());
    m.append("' is too large to fit in ");
    m.append(kind);
    ApexError::new(m)
}

/// The message of a number past the range of an integer type.
pub open spec fn too_large(name: Seq<char>, v: int, kind: Seq<char>) -> Seq<char> {
    name + " argument '"@ + radix_text(v, 10) + "' is too large to fit in "@ + kind
}

/// The Legendre symbol of `a` modulo an odd prime `p`: 0, 1 or -1, by
/// Euler's criterion; an error for `p` up to 2, past `u128`, or not prime
pub fn legendre_symbol(a: &AFNSBigInt, p: &AFNSBigInt) -> (r: Result<i32, ApexError>)
    requires
        a@ >= 0,
        p@ >= 0,
    ensures
        p@ <= 2 ==> (r matches Err(e) && e@ == "legendre_symbol requires odd prime modulus"@),
        p@ > u128::MAX ==> (r matches Err(e) && e@ == too_large("legendre_symbol"@, p@, "u128"@)),
        2 < p@ <= u128::MAX && !is_prime(p@) ==> (r matches Err(e) && e@
            == "legendre_symbol requires prime modulus"@),
        2 < p@ <= u128::MAX && is_prime(p@) ==> r == Ok::<i32, ApexError>(
            if mod_pow_value(a@, (p@ - 1) / 2, p@) == 0 {
                0i32
            } else if mod_pow_value(a@, (p@ - 1) / 2, p@) == 1 {
                1i32
            } else {
                -1i32
            },
        ),
{
    let one = big_from_i64(1);
    let two = big_from_i64(2);
    if big_le(p, &two) {
        return Err(ApexError::new(String::from_str("legendre_symbol requires odd prime modulus")));
    }
    let pv = match big_to_u128(p) {
        Some(v) => v,
        None => return Err(too_large_error("legendre_symbol", p, "u128")),
    };
    if !is_prime_raw(pv) {
        return Err(ApexError::new(String::from_str("legendre_symbol requires prime modulus")));
    }
    let exponent = big_div(&p.subtract(&one), &two);
    let value = mod_pow(a, &exponent, p);
    if big_is_zero(&value) {
        Ok(0)
    } else if big_eq(&value, &one) {
        Ok(1)
    } else {
        Ok(-1)
    }
}

/// Whether `a` is a quadratic residue modulo an odd prime `p`: its
/// Legendre symbol is 1; the errors of the symbol
pub fn is_quadratic_residue(a: &AFNSBigInt, p: &AFNSBigInt) -> (r: Result<bool, ApexError>)
    requires
        a@ >= 0,
        p@ >= 0,
    ensures
        match r {
            Ok(b) => legendre_symbol_value(a@, p@) is Some && b == (legendre_symbol_value(a@, p@) == Some(1i32)),
            Err(_) => legendre_symbol_value(a@, p@) is None,
        },
{
    match legendre_symbol(a, p) {
        Ok(v) => Ok(v == 1),
        Err(e) => Err(e),
    }
}

/// The Legendre symbol of `a` modulo `p` where it is defined: `p` an odd
/// prime that fits in `u128`.
pub open spec fn legendre_symbol_value(a: int, p: int) -> Option<i32> {
    if 2 < p <= u128::MAX && is_prime(p) {
        let v = mod_pow_value(a, (p - 1) / 2, p);
        Some(if v == 0 { 0i32 } else if v == 1 { 1i32 } else { -1i32 })
    } else {
        None
    }
}

/// The Lucas-Lehmer sequence modulo `m`: 4, then each term squared less 2.
pub open spec fn lucas_lehmer_term(k: nat, m: int) -> int
    decreases k,
{
    if k == 0 {
        4
    } else {
        (lucas_lehmer_term((k - 1) as nat, m) * lucas_lehmer_term((k - 1) as nat, m) - 2) % m
    }
}

/// Whether the Lucas-Lehmer test finds 2^p - 1 prime: p = 2, or term p - 2
/// of the sequence modulo 2^p - 1 is zero.
pub open spec fn lucas_lehmer_holds(p: nat) -> bool {
    p == 2 || lucas_lehmer_term((p - 2) as nat, pow(2, p) - 1) == 0
}

/// The Lucas-Lehmer test of the Mersenne number 2^p - 1, for p at least 2
pub fn lucas_lehmer_sequence(p: u32) -> (b: bool)
    requires
        p >= 2,
    ensures
        b == lucas_lehmer_holds(p as nat),
{
    if p == 2 {
        return true;
    }
    let one = big_from_i64(1);
    let two = big_from_i64(2);
    let modulus = big_shl(&one, p as u64).subtract(&one);
    let ghost m = modulus@;
    proof {
        lemma_pow_positive(2, p as nat);
        assert(pow(2, 3) == 8) by {
            reveal_with_fuel(pow, 4);
        }
        vstd::arithmetic::power::lemma_pow_increases(2, 3, p as nat);
    }
    let mut s = big_from_i64(4);
    let mut k: u32 = 0;
    while k < p - 2
        invariant
            m == modulus@,
            m == pow(2, p as nat) - 1,
            m >= 7,
            two@ == 2,
            k <= p - 2,
            s@ == lucas_lehmer_term(k as nat, m),
        decreases p - 2 - k,
    {
        let t = big_rem(&big_mul(&s, &s).subtract(&two), &modulus);
        proof {
            lemma_trunc_rem_euclid(s@ * s@ - 2, m);
        }
        s = if big_is_negative(&t) { t.add(&modulus) } else { t };
        k = k + 1;
    }
    big_is_zero(&s)
}

/// Fixing a negative truncated remainder by one modulus gives the
/// Euclidean remainder.
proof fn lemma_trunc_rem_euclid(x: int, m: int)
    requires
        m > 0,
    ensures
        (if trunc_rem(x, m) < 0 { trunc_rem(x, m) + m } else { trunc_rem(x, m) }) == x % m,
{
    if x < 0 {
        let r = (-x) % m;
        let q = (-x) / m;
        assert(-x == q * m + r) by (nonlinear_arith)
            requires q == (-x) / m, r == (-x) % m, m > 0;
        if r == 0 {
            assert(x == (-q) * m) by (nonlinear_arith)
                requires -x == q * m + r, r == 0;
            vstd::arithmetic::div_mod::lemma_mod_multiples_basic(-q, m);
            assert(x % m == 0) by (nonlinear_arith)
                requires x == (-q) * m, (-q) * m % m == 0, m > 0;
        } else {
            assert(x == (-q - 1) * m + (m - r)) by (nonlinear_arith)
                requires -x == q * m + r;
            assert(0 < m - r < m);
            vstd::arithmetic::div_mod::lemma_fundamental_div_mod_converse(x, m, -q - 1, m - r);
        }
    }
}

/// The Mersenne number 2^exponent - 1; an error for an exponent below 1 or
/// past `u32`
pub fn mersenne_number(exponent: &AFNSBigInt) -> (r: Result<AFNSBigInt, ApexError>)
    requires
        exponent@ >= 0,
    ensures
        exponent@ > u32::MAX ==> (r matches Err(e) && e@ == too_large("mersenne_number"@, exponent@, "u32"@)),
        exponent@ < 1 ==> (r matches Err(e) && e@ == "mersenne_number requires exponent >= 1"@),
        1 <= exponent@ <= u32::MAX ==> (r matches Ok(v) && v@ == pow(2, exponent@ as nat) - 1),
{
    let bits = match big_to_u32(exponent) {
        Some(b) => b,
        None => return Err(too_large_error("mersenne_number", exponent, "u32")),
    };
    if bits < 1 {
        return Err(ApexError::new(String::from_str("mersenne_number requires exponent >= 1")));
    }
    let one = big_from_i64(1);
    Ok(big_shl(&one, bits as u64).subtract(&one))
}

/// The Lucas-Lehmer test of 2^exponent - 1; an error for an exponent
/// below 2 or past `u32`
pub fn lucas_lehmer(exponent: &AFNSBigInt) -> (r: Result<bool, ApexError>)
    requires
        exponent@ >= 0,
    ensures
        exponent@ > u32::MAX ==> (r matches Err(e) && e@ == too_large("lucas_lehmer"@, exponent@, "u32"@)),
        exponent@ < 2 ==> (r matches Err(e) && e@ == "lucas_lehmer requires exponent >= 2"@),
        2 <= exponent@ <= u32::MAX ==> r == Ok::<bool, ApexError>(lucas_lehmer_holds(exponent@ as nat)),
{
    let p = match big_to_u32(exponent) {
        Some(b) => b,
        None => return Err(too_large_error("lucas_lehmer", exponent, "u32")),
    };
    if p < 2 {
        return Err(ApexError::new(String::from_str("lucas_lehmer requires exponent >= 2")));
    }
    Ok(lucas_lehmer_sequence(p))
}

/// Whether 2^exponent - 1 is a Mersenne prime: the exponent is prime and
/// passes the Lucas-Lehmer test; an error for an exponent past `u128`, or
/// a prime one past `u32`
pub fn is_mersenne_prime(exponent: &AFNSBigInt) -> (r: Result<bool, ApexError>)
    requires
        exponent@ >= 0,
    ensures
        exponent@ > u128::MAX ==> (r matches Err(e) && e@ == too_large("is_mersenne_prime"@, exponent@, "u128"@)),
        exponent@ <= u128::MAX && !is_prime(exponent@) ==> r == Ok::<bool, ApexError>(false),
        exponent@ <= u128::MAX && is_prime(exponent@) && exponent@ > u32::MAX ==> (r matches Err(e) && e@
            == too_large("is_mersenne_prime"@, exponent@, "u32"@)),
        is_prime(exponent@) && exponent@ <= u32::MAX ==> r == Ok::<bool, ApexError>(
            lucas_lehmer_holds(exponent@ as nat),
        ),
{
    let v = match big_to_u128(exponent) {
        Some(v) => v,
        None => return Err(too_large_error("is_mersenne_prime", exponent, "u128")),
    };
    if !is_prime_raw(v) {
        return Ok(false);
    }
    let p = match big_to_u32(exponent) {
        Some(b) => b,
        None => return Err(too_large_error("is_mersenne_prime", exponent, "u32")),
    };
    if p < 2 {
        return Ok(false);
    }
    Ok(lucas_lehmer_sequence(p))
}

/// Whether `n` is a perfect power with exponent `e`: zero, or `m^e` for
/// some `m` of at least 1.
pub open spec fn is_perfect_power(n: int, e: nat) -> bool {
    n == 0 || exists|m: int| m >= 1 && #[trigger] pow(m, e) == n
}

/// Powers grow with their base.
proof fn lemma_pow_base_monotone(a: int, b: int, e: nat)
    requires
        1 <= a <= b,
    ensures
        pow(a, e) <= pow(b, e),
    decreases e,
{
    if e > 0 {
        lemma_pow_base_monotone(a, b, (e - 1) as nat);
        lemma_pow_positive(a, (e - 1) as nat);
        assert(pow(a, e) == a * pow(a, (e - 1) as nat)) by {
            reveal(pow);
        }
        assert(pow(b, e) == b * pow(b, (e - 1) as nat)) by {
            reveal(pow);
        }
        assert(a * pow(a, (e - 1) as nat) <= b * pow(b, (e - 1) as nat)) by (nonlinear_arith)
            requires
                1 <= a <= b,
                0 < pow(a, (e - 1) as nat) <= pow(b, (e - 1) as nat),
        ;
    } else {
        vstd::arithmetic::power::lemma_pow0(a);
        vstd::arithmetic::power::lemma_pow0(b);
    }
}

/// A power with exponent at least 1 is at least its base.
proof fn lemma_pow_at_least_base(m: int, e: nat)
    requires
        m >= 1,
        e >= 1,
    ensures
        pow(m, e) >= m,
{
    lemma_pow_base_monotone(1, m, (e - 1) as nat);
    vstd::arithmetic::power::lemma1_pow((e - 1) as nat);
    assert(pow(m, e) == m * pow(m, (e - 1) as nat)) by {
        reveal(pow);
    }
    assert(m * pow(m, (e - 1) as nat) >= m) by (nonlinear_arith)
        requires m >= 1, pow(m, (e - 1) as nat) >= 1;
}

/// Whether `n` is a perfect power with the given exponent, by binary
/// search for its root; an error for an exponent below 2 or past `usize`.
/// Powers are taken with the exponent cut to `u32`.
pub fn is_power(n: &AFNSBigInt, k: &AFNSBigInt) -> (r: Result<bool, ApexError>)
    requires
        n@ >= 0,
        k@ >= 0,
    ensures
        k@ > usize::MAX ==> (r matches Err(e) && e@ == too_large("is_power"@, k@, "usize"@)),
        k@ < 2 ==> (r matches Err(e) && e@ == "is_power exponent must be >= 2"@),
        2 <= k@ <= usize::MAX ==> r == Ok::<bool, ApexError>(
            is_perfect_power(n@, ((k@ as usize) as u32) as nat),
        ),
{
    let exponent = match big_to_usize(k) {
        Some(e) => e,
        None => return Err(too_large_error("is_power", k, "usize")),
    };
    if exponent < 2 {
        return Err(ApexError::new(String::from_str("is_power exponent must be >= 2")));
    }
    if big_is_zero(n) {
        return Ok(true);
    }
    let e = exponent as u32;
    let ghost ev = e as nat;
    let ghost nv = n@;
    let one = big_from_i64(1);
    let two = big_from_i64(2);
    let mut low = one.clone();
    let mut high = n.clone();
    proof {
        if ev >= 1 {
            assert forall|m: int| m > nv implies #[trigger] pow(m, ev) > nv by {
                lemma_pow_at_least_base(m, ev);
            }
        }
    }
    while big_le(&low, &high)
        invariant
            2 <= k@ <= usize::MAX,
            exponent == k@,
            e == exponent as u32,
            ev == e as nat,
            nv == n@,
            nv >= 1,
            one@ == 1,
            two@ == 2,
            1 <= low@,
            high@ <= nv,
            ev >= 1 ==> forall|m: int| m > high@ ==> #[trigger] pow(m, ev) > nv,
            ev == 0 ==> (nv > 1 || (low@ == 1 && high@ == nv)),
            forall|m: int| 1 <= m < low@ ==> #[trigger] pow(m, ev) < nv,
        ensures
            low@ > high@,
            1 <= low@,
            ev >= 1 ==> forall|m: int| m > high@ ==> #[trigger] pow(m, ev) > nv,
            ev == 0 ==> (nv > 1 || (low@ == 1 && high@ == nv)),
            forall|m: int| 1 <= m < low@ ==> #[trigger] pow(m, ev) < nv,
        decreases high@ - low@ + 1,
    {
        let mid = big_div(&low.add(&high), &two);
        let power = big_pow(&mid, e);
        let ghost mv = mid@;
        proof {
            let sum = low@ + high@;
            assert(abs_int(sum) == sum);
            assert(abs_int(2) == 2);
            assert(mv == sum / 2);
        }
        assert(low@ <= mv <= high@);
        if big_eq(&power, n) {
            assert(pow(mv, ev) == nv);
            return Ok(true);
        }
        if big_le(&power, n) {
            proof {
                assert forall|m: int| 1 <= m < mv + 1 implies #[trigger] pow(m, ev) < nv by {
                    lemma_pow_base_monotone(m, mv, ev);
                }
                if ev == 0 {
                    assert(pow(mv, 0) == 1) by {
                        vstd::arithmetic::power::lemma_pow0(mv);
                    }
                }
            }
            low = mid.add(&one);
        } else {
            if big_eq(&mid, &one) {
                proof {
                    vstd::arithmetic::power::lemma1_pow(ev);
                }
                break;
            }
            proof {
                assert forall|m: int| m > mv - 1 implies #[trigger] pow(m, ev) > nv by {
                    if m >= 1 {
                        lemma_pow_base_monotone(mv, m, ev);
                    }
                }
                if ev == 0 {
                    assert(pow(mv, 0) == 1) by {
                        vstd::arithmetic::power::lemma_pow0(mv);
                    }
                }
            }
            high = mid.subtract(&one);
        }
    }
    proof {
        assert forall|m: int| m >= 1 implies #[trigger] pow(m, ev) != nv by {
            if m < low@ {
            } else if ev >= 1 {
            } else {
                vstd::arithmetic::power::lemma_pow0(m);
            }
        }
    }
    Ok(false)
}


/// Whether a number is prime; an error when it does not fit in `u128`
pub fn is_prime_u128(n: &AFNSBigInt, name: &str) -> (r: Result<bool, ApexError>)
    requires
        n@ >= 0,
    ensures
        n@ > u128::MAX ==> (r matches Err(e) && e@ == too_large(name@, n@, "u128"@)),
        n@ <= u128::MAX ==> r == Ok::<bool, ApexError>(is_prime(n@)),
{
    match big_to_u128(n) {
        Some(v) => Ok(is_prime_raw(v)),
        None => Err(too_large_error(name, n, "u128")),
    }
}

/// Whether a number is composite: above 1 and not prime; an error when it
/// does not fit in `u128`
pub fn is_composite(n: &AFNSBigInt, name: &str) -> (r: Result<bool, ApexError>)
    requires
        n@ >= 0,
    ensures
        n@ > u128::MAX ==> (r matches Err(e) && e@ == too_large(name@, n@, "u128"@)),
        n@ <= u128::MAX ==> r == Ok::<bool, ApexError>(n@ > 1 && !is_prime(n@)),
{
    let prime = match is_prime_u128(n, name) {
        Ok(b) => b,
        Err(e) => return Err(e),
    };
    Ok(!big_le(n, &big_from_i64(1)) && !prime)
}

/// Whether `n` is a twin prime: prime, with `n - 2` or `n + 2` prime; an
/// error when a number tested does not fit in `u128`
pub fn is_twin_prime(n: &AFNSBigInt) -> (r: Result<bool, ApexError>)
    requires
        n@ >= 0,
    ensures
        n@ > u128::MAX ==> (r matches Err(e) && e@ == too_large("is_twin_prime"@, n@, "u128"@)),
        n@ <= u128::MAX && !is_prime(n@) ==> r == Ok::<bool, ApexError>(false),
        n@ <= u128::MAX && is_prime(n@) && n@ > 2 && is_prime(n@ - 2) ==> r == Ok::<bool, ApexError>(true),
        n@ <= u128::MAX && is_prime(n@) && !(n@ > 2 && is_prime(n@ - 2)) ==> if n@ + 2 > u128::MAX {
            r matches Err(e) && e@ == too_large("is_twin_prime"@, n@ + 2, "u128"@)
        } else {
            r == Ok::<bool, ApexError>(is_prime(n@ + 2))
        },
{
    let prime = match is_prime_u128(n, "is_twin_prime") {
        Ok(b) => b,
        Err(e) => return Err(e),
    };
    if !prime {
        return Ok(false);
    }
    let two = big_from_i64(2);
    let mut has_partner = false;
    if !big_le(n, &two) {
        let lower = n.subtract(&two);
        has_partner = match is_prime_u128(&lower, "is_twin_prime") {
            Ok(b) => b,
            Err(e) => return Err(e),
        };
    }
    if !has_partner {
        let upper = n.add(&two);
        has_partner = match is_prime_u128(&upper, "is_twin_prime") {
            Ok(b) => b,
            Err(e) => return Err(e),
        };
    }
    Ok(has_partner)
}

/// Whether `n` is a Sophie Germain prime: prime, with `2n + 1` prime; an
/// error when a number tested does not fit in `u128`
pub fn is_sophie_germain_prime(n: &AFNSBigInt) -> (r: Result<bool, ApexError>)
    requires
        n@ >= 0,
    ensures
        n@ > u128::MAX ==> (r matches Err(e) && e@ == too_large("is_sophie_germain_prime"@, n@, "u128"@)),
        n@ <= u128::MAX && !is_prime(n@) ==> r == Ok::<bool, ApexError>(false),
        n@ <= u128::MAX && is_prime(n@) ==> if 2 * n@ + 1 > u128::MAX {
            r matches Err(e) && e@ == too_large("is_sophie_germain_prime"@, 2 * n@ + 1, "u128"@)
        } else {
            r == Ok::<bool, ApexError>(is_prime(2 * n@ + 1))
        },
{
    let prime = match is_prime_u128(n, "is_sophie_germain_prime") {
        Ok(b) => b,
        Err(e) => return Err(e),
    };
    if !prime {
        return Ok(false);
    }
    let doubled = big_mul(n, &big_from_i64(2)).add(&big_from_i64(1));
    is_prime_u128(&doubled, "is_sophie_germain_prime")
}

/// Whether `n` is a Cunningham prime of the second kind: prime, with
/// `2n - 1` prime; an error when a number tested does not fit in `u128`
pub fn is_cunningham_prime(n: &AFNSBigInt) -> (r: Result<bool, ApexError>)
    requires
        n@ >= 0,
    ensures
        n@ <= 1 ==> r == Ok::<bool, ApexError>(false),
        n@ > u128::MAX ==> (r matches Err(e) && e@ == too_large("is_cunningham_prime"@, n@, "u128"@)),
        1 < n@ <= u128::MAX && !is_prime(n@) ==> r == Ok::<bool, ApexError>(false),
        n@ <= u128::MAX && is_prime(n@) ==> if 2 * n@ - 1 > u128::MAX {
            r matches Err(e) && e@ == too_large("is_cunningham_prime"@, 2 * n@ - 1, "u128"@)
        } else {
            r == Ok::<bool, ApexError>(is_prime(2 * n@ - 1))
        },
{
    let one = big_from_i64(1);
    if big_le(n, &one) {
        return Ok(false);
    }
    let prime = match is_prime_u128(n, "is_cunningham_prime") {
        Ok(b) => b,
        Err(e) => return Err(e),
    };
    if !prime {
        return Ok(false);
    }
    let partner = big_mul(n, &big_from_i64(2)).subtract(&one);
    if big_le(&partner, &one) {
        return Ok(false);
    }
    is_prime_u128(&partner, "is_cunningham_prime")
}

/// The product of the numbers from 1 to `n`.
pub open spec fn factorial(n: int) -> int
    decreases n,
{
    if n <= 1 {
        1
    } else {
        n * factorial(n - 1)
    }
}

/// Whether Wilson's theorem holds of `n`: (n - 1)! ≡ -1 (mod n), for `n`
/// above 1
pub fn wilson_theorem(n: &AFNSBigInt) -> (b: bool)
    requires
        n@ >= 0,
    ensures
        b == (n@ > 1 && (factorial(n@ - 1) + 1) % n@ == 0),
{
    let one = big_from_i64(1);
    if big_le(n, &one) {
        return false;
    }
    let ghost m = n@;
    let mut residue = big_from_i64(1);
    let mut candidate = big_from_i64(2);
    proof {
        vstd::arithmetic::div_mod::lemma_small_mod(1, m as nat);
    }
    while big_le(&candidate, n) && !big_eq(&candidate, n)
        invariant
            m == n@,
            m > 1,
            one@ == 1,
            2 <= candidate@ <= m,
            0 <= residue@,
            residue@ == factorial(candidate@ - 1) % m,
        decreases m - candidate@,
    {
        let ghost c = candidate@;
        proof {
            vstd::arithmetic::div_mod::lemma_mul_mod_noop_left(factorial(c - 1), c, m);
            assert(factorial(c) == c * factorial(c - 1));
            assert(factorial(c - 1) * c == c * factorial(c - 1)) by (nonlinear_arith);
        }
        residue = big_rem(&big_mul(&residue, &candidate), n);
        candidate = candidate.add(&one);
    }
    let total = residue.add(&one);
    proof {
        vstd::arithmetic::div_mod::lemma_add_mod_noop(factorial(m - 1), 1, m);
        vstd::arithmetic::div_mod::lemma_small_mod(1, m as nat);
        vstd::arithmetic::div_mod::lemma_mod_twice(factorial(m - 1), m);
        vstd::arithmetic::div_mod::lemma_add_mod_noop(residue@, 0, m);
    }
    big_is_zero(&big_rem(&total, n))
}

/// The extended Euclidean algorithm on natural numbers: the greatest
/// common divisor and the Bezout coefficients it finds.
pub open spec fn egcd(a: int, b: int) -> (int, int, int)
    decreases b,
{
    if b <= 0 || a < 0 {
        (a, 1, 0)
    } else {
        let (g, x1, y1) = egcd(b, a % b);
        (g, y1, x1 - (a / b) * y1)
    }
}

/// The extended Euclidean algorithm: the greatest common divisor of two
/// natural numbers and coefficients that combine them into it
pub fn extended_gcd(a: &AFNSBigInt, b: &AFNSBigInt) -> (r: (AFNSBigInt, AFNSBigInt, AFNSBigInt))
    requires
        a@ >= 0,
        b@ >= 0,
    ensures
        (r.0@, r.1@, r.2@) == egcd(a@, b@),
    decreases b@,
{
    if big_is_zero(b) {
        return (a.clone(), big_from_i64(1), big_from_i64(0));
    }
    let rest = big_rem(a, b);
    let (g, x1, y1) = extended_gcd(b, &rest);
    let y = x1.subtract(&big_mul(&big_div(a, b), &y1));
    (g, y1, y)
}

/// The extended Euclidean algorithm finds the greatest common divisor and
/// a Bezout combination for it.
pub proof fn lemma_egcd(a: int, b: int)
    requires
        a >= 0,
        b >= 0,
    ensures
        egcd(a, b).0 == gcd_of(a as nat, b as nat),
        a * egcd(a, b).1 + b * egcd(a, b).2 == egcd(a, b).0,
    decreases b,
{
    if b > 0 {
        lemma_egcd(b, a % b);
        let (g, x1, y1) = egcd(b, a % b);
        let q = a / b;
        assert(a == q * b + a % b) by (nonlinear_arith)
            requires b > 0, q == a / b;
        assert(a * y1 + b * (x1 - q * y1) == b * x1 + (a % b) * y1) by (nonlinear_arith)
            requires a == q * b + a % b;
    }
}

/// The inverse of `a` modulo `m`, between 0 and `m`; an error for a zero
/// modulus or inputs with a common factor
pub fn modinv(a: &AFNSBigInt, m: &AFNSBigInt) -> (r: Result<AFNSBigInt, ApexError>)
    requires
        a@ >= 0,
        m@ >= 0,
    ensures
        m@ == 0 ==> (r matches Err(e) && e@ == "modinv requires modulus > 0"@),
        m@ > 0 && gcd_of(a@ as nat, m@ as nat) != 1 ==> (r matches Err(e) && e@
            == "modinv requires coprime inputs"@),
        m@ > 0 && gcd_of(a@ as nat, m@ as nat) == 1 ==> (r matches Ok(v) && v@ == egcd(a@, m@).1 % m@),
{
    if big_is_zero(m) {
        return Err(ApexError::new(String::from_str("modinv requires modulus > 0")));
    }
    let (g, x, _) = extended_gcd(a, m);
    proof {
        lemma_egcd(a@, m@);
    }
    if !big_eq(&g, &big_from_i64(1)) {
        return Err(ApexError::new(String::from_str("modinv requires coprime inputs")));
    }
    let t = big_rem(&x, m);
    proof {
        lemma_trunc_rem_euclid(x@, m@);
    }
    if big_is_negative(&t) {
        Ok(t.add(m))
    } else {
        Ok(t)
    }
}

/// The inverse that `modinv` gives is an inverse: its product with `a` is
/// 1 modulo `m`.
pub proof fn lemma_modinv_inverts(a: int, m: int)
    requires
        a >= 0,
        m > 1,
        gcd_of(a as nat, m as nat) == 1,
    ensures
        (a * (egcd(a, m).1 % m)) % m == 1,
{
    lemma_egcd(a, m);
    let (g, x, y) = egcd(a, m);
    assert(a * x == 1 - m * y);
    vstd::arithmetic::div_mod::lemma_mul_mod_noop_right(a, x, m);
    assert((1 - m * y) % m == 1) by {
        vstd::arithmetic::div_mod::lemma_mod_multiples_vanish(-y, 1, m);
        assert(1 - m * y == m * (-y) + 1) by (nonlinear_arith);
        vstd::arithmetic::div_mod::lemma_small_mod(1, m as nat);
    }
}

/// The integer square root: the largest number whose square is at most `n`
pub fn integer_sqrt(n: &AFNSBigInt) -> (r: AFNSBigInt)
    requires
        n@ >= 0,
    ensures
        r@ >= 0,
        r@ * r@ <= n@ < (r@ + 1) * (r@ + 1),
{
    if big_is_zero(n) {
        return big_from_i64(0);
    }
    let ghost nv = n@;
    let one = big_from_i64(1);
    let two = big_from_i64(2);
    let mut x = n.clone();
    let mut y = big_div(&x.add(&one), &two);
    proof {
        assert forall|t: int| t >= 0 && #[trigger] (t * t) <= nv implies t <= x@ by {
            if t > x@ {
                assert(t * t > nv) by (nonlinear_arith)
                    requires t > nv, nv >= 1;
            }
        }
        assert(y@ == (nv + 1) / 2);
        lemma_newton_step_bound(nv, nv);
        assert(nv / nv == 1) by (nonlinear_arith)
            requires nv >= 1;
    }
    while big_le(&y, &x) && !big_eq(&y, &x)
        invariant
            nv == n@,
            nv >= 1,
            one@ == 1,
            two@ == 2,
            x@ >= 1,
            y@ == (nv / x@ + x@) / 2,
            forall|t: int| t >= 0 && #[trigger] (t * t) <= nv ==> t <= x@,
        decreases x@,
    {
        proof {
            lemma_newton_step_bound(nv, x@);
        }
        x = y.clone();
        proof {
            assert(x@ >= 1) by {
                assert(1 * 1 <= nv);
            }
            assert(abs_int(nv) == nv);
            assert(abs_int(x@) == x@);
        }
        y = big_div(&big_div(n, &x).add(&x), &two);
        proof {
            assert(nv / x@ >= 0) by (nonlinear_arith)
                requires nv >= 1, x@ >= 1;
        }
    }
    proof {
        assert(nv / x@ >= x@) by (nonlinear_arith)
            requires (nv / x@ + x@) / 2 >= x@;
        assert(x@ * x@ <= nv) by (nonlinear_arith)
            requires nv / x@ >= x@, x@ >= 1, nv >= 0;
        let s = x@ + 1;
        if s * s <= nv {
            assert(s <= x@);
        }
    }
    x
}

/// A Newton step from any positive `x` stays at or above every number
/// whose square is at most `n`.
proof fn lemma_newton_step_bound(n: int, x: int)
    requires
        n >= 1,
        x >= 1,
    ensures
        forall|t: int| t >= 0 && #[trigger] (t * t) <= n ==> t <= (n / x + x) / 2,
{
    assert forall|t: int| t >= 0 && #[trigger] (t * t) <= n implies t <= (n / x + x) / 2 by {
        let q = n / x;
        assert(n < (q + 1) * x) by (nonlinear_arith)
            requires q == n / x, x >= 1;
        assert(x + q >= 2 * t) by (nonlinear_arith)
            requires n < (q + 1) * x, t * t <= n, x >= 1, t >= 0;
    }
}

/// Whether a natural number is a perfect square
pub fn is_square(n: &AFNSBigInt) -> (b: bool)
    requires
        n@ >= 0,
    ensures
        b == exists|m: int| m >= 0 && #[trigger] (m * m) == n@,
{
    let s = integer_sqrt(n);
    let b = big_eq(&big_mul(&s, &s), n);
    proof {
        if !b {
            assert forall|m: int| m >= 0 implies #[trigger] (m * m) != n@ by {
                if m * m == n@ {
                    if m < s@ {
                        assert(m * m < s@ * s@) by (nonlinear_arith)
                            requires 0 <= m < s@;
                    } else if m > s@ {
                        assert(m * m >= (s@ + 1) * (s@ + 1)) by (nonlinear_arith)
                            requires m >= s@ + 1, s@ >= 0;
                    }
                }
            }
        }
    }
    b
}


/// The least common multiple as the `lcm` builtin computes it: zero when
/// either is zero, else `a / gcd * b`, with the signs of the inputs
pub fn lcm(a: &AFNSBigInt, b: &AFNSBigInt) -> (r: AFNSBigInt)
    ensures
        a@ == 0 || b@ == 0 ==> r@ == 0,
        a@ != 0 && b@ != 0 ==> r@ == trunc_div(a@, gcd_of(abs_int(a@) as nat, abs_int(b@) as nat) as int)
            * b@,
{
    if big_is_zero(a) || big_is_zero(b) {
        return big_from_i64(0);
    }
    let g = a.gcd(b);
    proof {
        lemma_gcd_positive(abs_int(a@) as nat, abs_int(b@) as nat);
    }
    big_mul(&big_div(a, &g), b)
}

/// The greatest common divisor of two numbers, one of them not zero, is
/// positive.
pub proof fn lemma_gcd_positive(a: nat, b: nat)
    requires
        a != 0 || b != 0,
    ensures
        gcd_of(a, b) > 0,
    decreases b,
{
    if b != 0 {
        lemma_gcd_positive(b, a % b);
    }
}

/// Whether two numbers are coprime: their greatest common divisor is 1
pub fn coprime(a: &AFNSBigInt, b: &AFNSBigInt) -> (r: bool)
    ensures
        r == (gcd_of(abs_int(a@) as nat, abs_int(b@) as nat) == 1),
{
    big_eq(&a.gcd(b), &big_from_i64(1))
}

/// The next even number after `n`
pub fn next_even(n: &AFNSBigInt) -> (r: AFNSBigInt)
    ensures
        r@ == if n@ % 2 == 0 { n@ + 2 } else { n@ + 1 },
{
    if big_is_zero(&big_low_bit(n)) {
        n.add(&big_from_i64(2))
    } else {
        n.add(&big_from_i64(1))
    }
}

/// The next odd number after `n`
pub fn next_odd(n: &AFNSBigInt) -> (r: AFNSBigInt)
    ensures
        r@ == if n@ % 2 == 0 { n@ + 1 } else { n@ + 2 },
{
    if big_is_zero(&big_low_bit(n)) {
        n.add(&big_from_i64(1))
    } else {
        n.add(&big_from_i64(2))
    }
}

/// `base` to the power `exp` modulo `modulus`; an error for a zero modulus
pub fn modpow(base: &AFNSBigInt, exp: &AFNSBigInt, modulus: &AFNSBigInt) -> (r: Result<AFNSBigInt, ApexError>)
    requires
        base@ >= 0,
        exp@ >= 0,
        modulus@ >= 0,
    ensures
        modulus@ == 0 ==> (r matches Err(e) && e@ == "modpow requires modulus > 0"@),
        modulus@ > 0 ==> (r matches Ok(v) && v@ == mod_pow_value(base@, exp@, modulus@)),
{
    if big_is_zero(modulus) {
        return Err(ApexError::new(String::from_str("modpow requires modulus > 0")));
    }
    Ok(mod_pow(base, exp, modulus))
}

/// The message of a Goldbach target that is no even number above 4.
pub open spec fn goldbach_target_message(name: Seq<char>) -> Seq<char> {
    name + " requires an even integer greater than 4"@
}

/// The even number above 4 that a Goldbach search is asked about; an error
/// past `u128` or for any other number
pub fn validate_goldbach_target(n: &AFNSBigInt, name: &str) -> (r: Result<u128, ApexError>)
    requires
        n@ >= 0,
    ensures
        n@ > u128::MAX ==> (r matches Err(e) && e@ == too_large(name@, n@, "u128"@)),
        n@ <= u128::MAX && (n@ <= 4 || n@ % 2 != 0) ==> (r matches Err(e) && e@ == goldbach_target_message(
            name@,
        )),
        n@ <= u128::MAX && n@ > 4 && n@ % 2 == 0 ==> r == Ok::<u128, ApexError>(n@ as u128),
{
    let target = match big_to_u128(n) {
        Some(t) => t,
        None => return Err(too_large_error(name, n, "u128")),
    };
    if target <= 4 || target % 2 != 0 {
        let mut m = String::from_str(name);
        m.append(" requires an even integer greater than 4");
        return Err(ApexError::new(m));
    }
    Ok(target)
}

/// Whether an even number above 4 is the sum of two primes; the errors of
/// the target's check
pub fn goldbach_holds(n: &AFNSBigInt) -> (r: Result<bool, ApexError>)
    requires
        n@ >= 0,
    ensures
        n@ > u128::MAX ==> (r matches Err(e) && e@ == too_large("goldbach_holds"@, n@, "u128"@)),
        n@ <= u128::MAX && (n@ <= 4 || n@ % 2 != 0) ==> (r matches Err(e) && e@ == goldbach_target_message(
            "goldbach_holds"@,
        )),
        n@ <= u128::MAX && n@ > 4 && n@ % 2 == 0 ==> r == Ok::<bool, ApexError>(
            exists|x: int| 2 <= x <= n@ / 2 && #[trigger] goldbach_split(n@, x),
        ),
{
    let target = match validate_goldbach_target(n, "goldbach_holds") {
        Ok(t) => t,
        Err(e) => return Err(e),
    };
    match find_goldbach_pair(target) {
        Some((p, q)) => {
            assert(goldbach_split(n@, p as int));
            Ok(true)
        },
        None => Ok(false),
    }
}

/// The smallest prime of a Goldbach pair of an even number above 4; the
/// errors of the target's check, and one when there is no pair
pub fn goldbach_witness(n: &AFNSBigInt) -> (r: Result<u128, ApexError>)
    requires
        n@ >= 0,
    ensures
        n@ > u128::MAX ==> (r matches Err(e) && e@ == too_large("goldbach_witness"@, n@, "u128"@)),
        n@ <= u128::MAX && (n@ <= 4 || n@ % 2 != 0) ==> (r matches Err(e) && e@ == goldbach_target_message(
            "goldbach_witness"@,
        )),
        n@ <= u128::MAX && n@ > 4 && n@ % 2 == 0 ==> match r {
            Ok(p) => 2 <= p <= n@ / 2 && goldbach_split(n@, p as int) && forall|x: int|
                2 <= x < p ==> !#[trigger] goldbach_split(n@, x),
            Err(e) => e@ == "Goldbach search failed to find a witness"@ && forall|x: int|
                2 <= x <= n@ / 2 ==> !#[trigger] goldbach_split(n@, x),
        },
{
    let target = match validate_goldbach_target(n, "goldbach_witness") {
        Ok(t) => t,
        Err(e) => return Err(e),
    };
    match find_goldbach_pair(target) {
        Some((p, _)) => {
            proof {
                if p < 2 {
                    assert(!is_prime(p as int));
                }
            }
            Ok(p)
        },
        None => Err(ApexError::new(String::from_str("Goldbach search failed to find a witness"))),
    }
}

/// The message of a Bertrand input up to 1.
pub open spec fn bertrand_small_message(name: Seq<char>) -> Seq<char> {
    name + " requires an integer greater than 1"@
}

/// The message of a Bertrand input whose double leaves `u128`.
pub open spec fn bertrand_large_message(name: Seq<char>, v: int) -> Seq<char> {
    name + " argument '"@ + radix_text(v, 10) + "' is too large for 2n upper bound"@
}

/// The number above 1 whose Bertrand prime is sought; an error up to 1,
/// past `u128`, or when its double leaves `u128`
pub fn validate_bertrand_input(n: &AFNSBigInt, name: &str) -> (r: Result<u128, ApexError>)
    requires
        n@ >= 0,
    ensures
        n@ <= 1 ==> (r matches Err(e) && e@ == bertrand_small_message(name@)),
        n@ > u128::MAX ==> (r matches Err(e) && e@ == too_large(name@, n@, "u128"@)),
        1 < n@ <= u128::MAX && n@ > u128::MAX / 2 ==> (r matches Err(e) && e@ == bertrand_large_message(
            name@,
            n@,
        )),
        1 < n@ <= u128::MAX / 2 ==> r == Ok::<u128, ApexError>(n@ as u128),
{
    if big_le(n, &big_from_i64(1)) {
        let mut m = String::from_str(name);
        m.append(" requires an integer greater than 1");
        return Err(ApexError::new(m));
    }
    let value = match big_to_u128(n) {
        Some(v) => v,
        None => return Err(too_large_error(name, n, "u128")),
    };
    if value > u128::MAX / 2 {
        let mut m = String::from_str(name);
        m.append(" argument '");
        m.append(n.to_string().as_str());
        m.append("' is too large for 2n upper bound");
        return Err(ApexError::new(m));
    }
    Ok(value)
}

/// Whether a prime lies above `n` and at most `2n`; the errors of the
/// input's check
pub fn bertrand_postulate(n: &AFNSBigInt) -> (r: Result<bool, ApexError>)
    requires
        n@ >= 0,
    ensures
        n@ <= 1 ==> (r matches Err(e) && e@ == bertrand_small_message("bertrand_postulate"@)),
        n@ > u128::MAX ==> (r matches Err(e) && e@ == too_large("bertrand_postulate"@, n@, "u128"@)),
        1 < n@ <= u128::MAX && n@ > u128::MAX / 2 ==> (r matches Err(e) && e@ == bertrand_large_message(
            "bertrand_postulate"@,
            n@,
        )),
        1 < n@ <= u128::MAX / 2 ==> r == Ok::<bool, ApexError>(first_prime_from(n@ + 1, 2 * n@) is Some),
{
    let value = match validate_bertrand_input(n, "bertrand_postulate") {
        Ok(v) => v,
        Err(e) => return Err(e),
    };
    Ok(find_bertrand_prime(value).is_some())
}

/// The smallest prime above `n` and at most `2n`; the errors of the
/// input's check, and one when there is none
pub fn bertrand_prime(n: &AFNSBigInt) -> (r: Result<u128, ApexError>)
    requires
        n@ >= 0,
    ensures
        n@ <= 1 ==> (r matches Err(e) && e@ == bertrand_small_message("bertrand_prime"@)),
        n@ > u128::MAX ==> (r matches Err(e) && e@ == too_large("bertrand_prime"@, n@, "u128"@)),
        1 < n@ <= u128::MAX && n@ > u128::MAX / 2 ==> (r matches Err(e) && e@ == bertrand_large_message(
            "bertrand_prime"@,
            n@,
        )),
        1 < n@ <= u128::MAX / 2 ==> match first_prime_from(n@ + 1, 2 * n@) {
            Some(p) => r == Ok::<u128, ApexError>(p as u128),
            None => r matches Err(e) && e@ == "Bertrand search failed to find a prime in range"@,
        },
{
    let value = match validate_bertrand_input(n, "bertrand_prime") {
        Ok(v) => v,
        Err(e) => return Err(e),
    };
    match find_bertrand_prime(value) {
        Some(p) => Ok(p),
        None => Err(ApexError::new(String::from_str("Bertrand search failed to find a prime in range"))),
    }
}

/// The number of primes up to `n`; an error past `usize`. A limit that
/// leaves no room for the sieve's table is outside what this accepts.
pub fn prime_count_up_to(n: &AFNSBigInt) -> (r: Result<usize, ApexError>)
    requires
        n@ >= 0,
        n@ <= usize::MAX ==> n@ < isize::MAX,
    ensures
        n@ > usize::MAX ==> (r matches Err(e) && e@ == too_large("prime_count_up_to"@, n@, "usize"@)),
        n@ <= usize::MAX ==> (r matches Ok(c) && c == prime_count(n@)),
{
    let limit = match big_to_usize(n) {
        Some(l) => l,
        None => return Err(too_large_error("prime_count_up_to", n, "usize")),
    };
    Ok(sieve_prime_count(limit))
}

} // verus!
