//! Integer sequences behind ApexLang's `nats` module: Fibonacci numbers,
//! factorials, binomial coefficients, Catalan numbers and the figurate
//! numbers, with the identities the module checks.

use vstd::prelude::*;
use vstd::arithmetic::power::pow;
use crate::apexlang::error::ApexError;
use crate::apexlang::nats::{factorial, integer_sqrt, too_large};
use crate::forge::math::{
    abs_int, big_div, big_eq, big_from_i64, big_from_u128, big_le, big_mul, big_pow, big_rem, big_to_usize,
    trunc_div, trunc_rem, AFNSBigInt,
};

verus! {

fn too_large_usize(name: &str, n: &AFNSBigInt) -> (e: ApexError)
    ensures
        e@ == too_large(name@, n@, "usize"@),
{
    let mut m = String::from_str(name);
    m.append(" argument '");
    m.append(n.to_string().as_str());
    m.append("' is too large to fit in ");
    m.append("usize");
    ApexError::new(m)
}

/// The Fibonacci numbers `k` and `k + 1`, from 0 and 1.
pub open spec fn fib_pair(k: nat) -> (int, int)
    decreases k,
{
    if k == 0 {
        (0, 1)
    } else {
        let (a, b) = fib_pair((k - 1) as nat);
        (b, a + b)
    }
}

/// The `n`-th Fibonacci number; an error past `usize`
pub fn fib(n: &AFNSBigInt) -> (r: Result<AFNSBigInt, ApexError>)
    requires
        n@ >= 0,
    ensures
        n@ > usize::MAX ==> (r matches Err(e) && e@ == too_large("fib"@, n@, "usize"@)),
        n@ <= usize::MAX ==> (r matches Ok(v) && v@ == fib_pair(n@ as nat).0),
{
    let count = match big_to_usize(n) {
        Some(c) => c,
        None => return Err(too_large_usize("fib", n)),
    };
    let mut a = big_from_i64(0);
    let mut b = big_from_i64(1);
    let mut i: usize = 0;
    while i < count
        invariant
            i <= count,
            (a@, b@) == fib_pair(i as nat),
        decreases count - i,
    {
        let next = a.add(&b);
        a = b;
        b = next;
        i = i + 1;
    }
    Ok(a)
}

/// The factorial of `n`; an error past `usize`
pub fn fact(n: &AFNSBigInt) -> (r: Result<AFNSBigInt, ApexError>)
    requires
        n@ >= 0,
    ensures
        n@ > usize::MAX ==> (r matches Err(e) && e@ == too_large("fact"@, n@, "usize"@)),
        n@ <= usize::MAX ==> (r matches Ok(v) && v@ == factorial(n@)),
{
    let count = match big_to_usize(n) {
        Some(c) => c,
        None => return Err(too_large_usize("fact", n)),
    };
    let mut result = big_from_i64(1);
    if count < 2 {
        return Ok(result);
    }
    let mut i: usize = 2;
    while i <= count
        invariant
            2 <= i <= count,
            count as int == n@,
            result@ == factorial(i - 1),
        decreases count + 1 - i,
    {
        result = big_mul(&result, &big_from_u128(i as u128));
        proof {
            assert(factorial(i as int) == i * factorial(i - 1));
            assert(result@ == factorial(i - 1) * i);
            assert(factorial(i - 1) * i == i * factorial(i - 1)) by (nonlinear_arith);
        }
        if i == count {
            return Ok(result);
        }
        i = i + 1;
    }
    Ok(result)
}

/// The product n (n - 1) ... (n - k + 1).
pub open spec fn falling(n: int, k: nat) -> int
    decreases k,
{
    if k == 0 {
        1
    } else {
        falling(n, (k - 1) as nat) * (n - (k - 1))
    }
}

/// The binomial coefficient as computed: the falling product over the
/// factorial of the smaller of `r` and `n - r`.
pub open spec fn binomial_value(n: int, r: int) -> int {
    let k = if r <= n - r { r } else { n - r };
    falling(n, k as nat) / factorial(k)
}

/// The number of ways to choose `r` of `n`, for `r` at most `n`
pub fn binomial(n: usize, r: usize) -> (v: AFNSBigInt)
    requires
        r <= n,
    ensures
        v@ == binomial_value(n as int, r as int),
{
    let k = if r <= n - r { r } else { n - r };
    let mut numerator = big_from_i64(1);
    let mut denominator = big_from_i64(1);
    let mut i: usize = 0;
    while i < k
        invariant
            i <= k,
            k <= n,
            numerator@ == falling(n as int, i as nat),
            denominator@ == factorial(i as int),
        decreases k - i,
    {
        numerator = big_mul(&numerator, &big_from_u128((n - i) as u128));
        denominator = big_mul(&denominator, &big_from_u128((i + 1) as u128));
        proof {
            assert(factorial(i + 1) == (i + 1) * factorial(i as int));
            assert(denominator@ == factorial(i as int) * (i + 1));
            assert(factorial(i as int) * (i + 1) == (i + 1) * factorial(i as int)) by (nonlinear_arith);
        }
        i = i + 1;
    }
    proof {
        lemma_factorial_positive(k as int);
        assert(abs_int(denominator@) == denominator@);
        lemma_falling_nonnegative(n as int, k as nat);
        assert(abs_int(numerator@) == numerator@);
    }
    big_div(&numerator, &denominator)
}

/// Factorials are positive.
pub proof fn lemma_factorial_positive(n: int)
    ensures
        factorial(n) >= 1,
    decreases n,
{
    if n > 1 {
        lemma_factorial_positive(n - 1);
        assert(n * factorial(n - 1) >= 1) by (nonlinear_arith)
            requires n > 1, factorial(n - 1) >= 1;
    }
}

/// A falling product that stays at or above zero is not negative.
proof fn lemma_falling_nonnegative(n: int, k: nat)
    requires
        k <= n,
    ensures
        falling(n, k) >= 0,
    decreases k,
{
    if k > 0 {
        lemma_falling_nonnegative(n, (k - 1) as nat);
        assert(falling(n, (k - 1) as nat) * (n - (k - 1)) >= 0) by (nonlinear_arith)
            requires falling(n, (k - 1) as nat) >= 0, n - (k - 1) >= 1;
    }
}

/// The number of ways to choose `r` of `n`: 0 when `r` is larger; an error
/// past `usize`
pub fn ncr(n: &AFNSBigInt, r: &AFNSBigInt) -> (v: Result<AFNSBigInt, ApexError>)
    requires
        n@ >= 0,
        r@ >= 0,
    ensures
        r@ > n@ ==> (v matches Ok(x) && x@ == 0),
        r@ <= n@ && n@ > usize::MAX ==> (v matches Err(e) && e@ == too_large("nCr"@, n@, "usize"@)),
        r@ <= n@ <= usize::MAX ==> (v matches Ok(x) && x@ == binomial_value(n@, r@)),
{
    if !big_le(r, n) {
        return Ok(big_from_i64(0));
    }
    let nu = match big_to_usize(n) {
        Some(x) => x,
        None => return Err(too_large_usize("nCr", n)),
    };
    let ru = match big_to_usize(r) {
        Some(x) => x,
        None => return Err(too_large_usize("nCr", r)),
    };
    Ok(binomial(nu, ru))
}

/// The `n`-th Catalan number as computed: the central binomial coefficient
/// over `n + 1`.
pub open spec fn catalan_of(n: int) -> int {
    if n == 0 {
        1
    } else {
        binomial_value(2 * n, n) / (n + 1)
    }
}

/// The `n`-th Catalan number, for `n` whose double fits in `usize`
pub fn catalan_value(n: usize) -> (v: AFNSBigInt)
    requires
        n <= usize::MAX / 2,
    ensures
        v@ == catalan_of(n as int),
{
    if n == 0 {
        return big_from_i64(1);
    }
    let numerator = binomial(2 * n, n);
    proof {
        let k: nat = n as nat;
        lemma_factorial_positive(k as int);
        lemma_falling_nonnegative(2 * n, k);
        assert(numerator@ >= 0) by (nonlinear_arith)
            requires numerator@ == falling(2 * n, k) / factorial(k as int), falling(2 * n, k) >= 0,
                factorial(k as int) >= 1;
    }
    big_div(&numerator, &big_from_u128((n + 1) as u128))
}

/// The `n`-th Catalan number; an error past `usize`. An index whose double
/// leaves `usize` is outside what this accepts.
pub fn catalan_number(n: &AFNSBigInt) -> (r: Result<AFNSBigInt, ApexError>)
    requires
        n@ >= 0,
        n@ <= usize::MAX ==> n@ <= usize::MAX / 2,
    ensures
        n@ > usize::MAX ==> (r matches Err(e) && e@ == too_large("catalan_number"@, n@, "usize"@)),
        n@ <= usize::MAX ==> (r matches Ok(v) && v@ == catalan_of(n@)),
{
    let index = match big_to_usize(n) {
        Some(x) => x,
        None => return Err(too_large_usize("catalan_number", n)),
    };
    Ok(catalan_value(index))
}

/// The sum of the products of Catalan numbers `i` and `n - i` for `i`
/// below `k`.
pub open spec fn catalan_convolution(n: int, k: nat) -> int
    decreases k,
{
    if k == 0 {
        0
    } else {
        catalan_convolution(n, (k - 1) as nat) + catalan_of(k - 1) * catalan_of(n - (k - 1))
    }
}

/// Whether the Catalan recursion C(n+1) = Σ C(i) C(n-i) holds at `n`, for
/// `n` whose index `n + 1` can be doubled in `usize`
pub fn validate_catalan_recursion(n: usize) -> (b: bool)
    requires
        n + 1 <= usize::MAX / 2,
    ensures
        b == (catalan_of(n + 1) == catalan_convolution(n as int, (n + 1) as nat)),
{
    let mut values: Vec<AFNSBigInt> = Vec::with_capacity(n + 2);
    let mut i: usize = 0;
    while i <= n + 1
        invariant
            i <= n + 2,
            n + 1 <= usize::MAX / 2,
            values@.len() == i,
            forall|j: int| 0 <= j < i ==> #[trigger] values@[j]@ == catalan_of(j),
        decreases n + 2 - i,
    {
        values.push(catalan_value(i));
        i = i + 1;
    }
    let lhs = values[n + 1].clone();
    let mut rhs = big_from_i64(0);
    let mut k: usize = 0;
    while k <= n
        invariant
            k <= n + 1,
            n + 1 <= usize::MAX / 2,
            values@.len() == n + 2,
            forall|j: int| 0 <= j < n + 2 ==> #[trigger] values@[j]@ == catalan_of(j),
            rhs@ == catalan_convolution(n as int, k as nat),
        decreases n + 1 - k,
    {
        rhs = rhs.add(&big_mul(&values[k], &values[n - k]));
        k = k + 1;
    }
    big_eq(&lhs, &rhs)
}

/// Whether the Catalan recursion holds at `n`; an error past `usize`. An
/// index too large for the table of Catalan numbers is outside what this
/// accepts.
pub fn catalan_theorem(n: &AFNSBigInt) -> (r: Result<bool, ApexError>)
    requires
        n@ >= 0,
        n@ <= usize::MAX ==> n@ + 1 <= usize::MAX / 2,
    ensures
        n@ > usize::MAX ==> (r matches Err(e) && e@ == too_large("catalan_theorem"@, n@, "usize"@)),
        n@ <= usize::MAX ==> r == Ok::<bool, ApexError>(catalan_of(n@ + 1) == catalan_convolution(n@, (n@ + 1) as nat)),
{
    let index = match big_to_usize(n) {
        Some(x) => x,
        None => return Err(too_large_usize("catalan_theorem", n)),
    };
    Ok(validate_catalan_recursion(index))
}

/// The sum 1 + 2 + ... + n.
pub open spec fn sum_to(n: int) -> int
    decreases n,
{
    if n <= 0 {
        0
    } else {
        n + sum_to(n - 1)
    }
}

/// The sum of the numbers from 1 to `n`, added one by one
pub fn triangular_sum_iter(n: &AFNSBigInt) -> (r: AFNSBigInt)
    requires
        n@ >= 0,
    ensures
        r@ == sum_to(n@),
{
    let mut total = big_from_i64(0);
    let one = big_from_i64(1);
    let mut current = big_from_i64(1);
    while big_le(&current, n)
        invariant
            one@ == 1,
            1 <= current@ <= n@ + 1,
            total@ == sum_to(current@ - 1),
        decreases n@ + 1 - current@,
    {
        total = total.add(&current);
        current = current.add(&one);
    }
    total
}

/// The triangular number n (n + 1) / 2
pub fn triangular_sum_formula(n: &AFNSBigInt) -> (r: AFNSBigInt)
    requires
        n@ >= 0,
    ensures
        r@ == n@ * (n@ + 1) / 2,
{
    let product = big_mul(n, &n.add(&big_from_i64(1)));
    proof {
        assert(n@ * (n@ + 1) >= 0) by (nonlinear_arith)
            requires n@ >= 0;
    }
    big_div(&product, &big_from_i64(2))
}

/// Gauss's formula: the sum of the numbers up to `n` is n (n + 1) / 2.
pub proof fn lemma_gauss_sum(n: int)
    requires
        n >= 0,
    ensures
        sum_to(n) == n * (n + 1) / 2,
    decreases n,
{
    if n > 0 {
        lemma_gauss_sum(n - 1);
        let x = (n - 1) * n;
        assert((n - 1) * ((n - 1) + 1) == x);
        assert(n * (n + 1) == x + 2 * n) by (nonlinear_arith)
            requires x == (n - 1) * n;
        assert((x + 2 * n) / 2 == x / 2 + n);
        assert(sum_to(n) == n + sum_to(n - 1));
        assert(sum_to(n) == n * (n + 1) / 2);
    } else {
        assert(sum_to(0) == 0);
    }
}

/// Whether the added-up sum and Gauss's formula agree at `n`; they always
/// do
pub fn gauss_sum_identity(n: &AFNSBigInt) -> (b: bool)
    requires
        n@ >= 0,
    ensures
        b,
{
    proof {
        lemma_gauss_sum(n@);
    }
    big_eq(&triangular_sum_iter(n), &triangular_sum_formula(n))
}

/// The sum of the cubes of the numbers from 1 to `n`.
pub open spec fn cubes_to(n: int) -> int
    decreases n,
{
    if n <= 0 {
        0
    } else {
        pow(n, 3) + cubes_to(n - 1)
    }
}

/// The sum of the cubes of the numbers from 1 to `n`
pub fn sum_of_cubes(n: &AFNSBigInt) -> (r: AFNSBigInt)
    requires
        n@ >= 0,
    ensures
        r@ == cubes_to(n@),
{
    let mut total = big_from_i64(0);
    let one = big_from_i64(1);
    let mut current = big_from_i64(1);
    while big_le(&current, n)
        invariant
            one@ == 1,
            1 <= current@ <= n@ + 1,
            total@ == cubes_to(current@ - 1),
        decreases n@ + 1 - current@,
    {
        total = total.add(&big_pow(&current, 3));
        current = current.add(&one);
    }
    total
}

/// Nicomachus's theorem: the sum of the first `n` cubes is the square of
/// the `n`-th triangular number.
pub proof fn lemma_nicomachus(n: int)
    requires
        n >= 0,
    ensures
        cubes_to(n) == (n * (n + 1) / 2) * (n * (n + 1) / 2),
    decreases n,
{
    if n > 0 {
        lemma_nicomachus(n - 1);
        assert(pow(n, 3) == n * pow(n, 2)) by {
            reveal(pow);
        }
        vstd::arithmetic::power::lemma_square_is_pow2(n);
        assert(n * (n * n) == n * n * n) by (nonlinear_arith);
        let t = (n - 1) * n / 2;
        let u = n * (n + 1) / 2;
        assert(n * (n + 1) == (n - 1) * n + 2 * n) by (nonlinear_arith);
        assert(u == t + n);
        lemma_consecutive_product_even(n);
        assert(2 * t == (n - 1) * n);
        assert(n * n * n + t * t == u * u) by (nonlinear_arith)
            requires u == t + n, 2 * t == (n - 1) * n;
        assert((n - 1) * ((n - 1) + 1) == (n - 1) * n);
        assert(cubes_to(n - 1) == t * t);
        assert(cubes_to(n) == pow(n, 3) + cubes_to(n - 1));
        assert(cubes_to(n) == u * u);
    } else {
        assert(cubes_to(0) == 0);
    }
}

/// The product of two consecutive numbers is even.
proof fn lemma_consecutive_product_even(n: int)
    ensures
        ((n - 1) * n) % 2 == 0,
{
    let k = n / 2;
    if n % 2 == 0 {
        assert(n == 2 * k);
        assert((n - 1) * n == 2 * ((n - 1) * k)) by (nonlinear_arith)
            requires n == 2 * k;
    } else {
        assert(n - 1 == 2 * k);
        assert((n - 1) * n == 2 * (k * n)) by (nonlinear_arith)
            requires n - 1 == 2 * k;
    }
}

/// Whether Nicomachus's theorem holds at `n`; it always does
pub fn nicomachus_theorem(n: &AFNSBigInt) -> (b: bool)
    requires
        n@ >= 0,
    ensures
        b,
{
    let triangular = triangular_sum_formula(n);
    let cubes = sum_of_cubes(n);
    proof {
        lemma_nicomachus(n@);
    }
    big_eq(&cubes, &big_mul(&triangular, &triangular))
}

/// The pentagonal number n (3n - 1) / 2
pub fn pentagonal_value(n: &AFNSBigInt) -> (r: AFNSBigInt)
    requires
        n@ >= 0,
    ensures
        r@ == n@ * (3 * n@ - 1) / 2,
{
    let three_n = big_mul(&big_from_i64(3), n);
    let product = big_mul(n, &three_n.subtract(&big_from_i64(1)));
    proof {
        assert(n@ * (3 * n@ - 1) >= 0) by (nonlinear_arith)
            requires n@ >= 0;
    }
    big_div(&product, &big_from_i64(2))
}

/// The hexagonal number n (2n - 1)
pub fn hexagonal_value(n: &AFNSBigInt) -> (r: AFNSBigInt)
    ensures
        r@ == n@ * (2 * n@ - 1),
{
    big_mul(n, &big_mul(&big_from_i64(2), n).subtract(&big_from_i64(1)))
}

/// Whether `d` has a square root `s` with `s + shift` divisible by `k`.
pub open spec fn root_fits(d: int, shift: int, k: int) -> bool {
    exists|s: int| s >= 0 && #[trigger] (s * s) == d && (s + shift) % k == 0
}

/// The integer square root is the only natural root of a square.
proof fn lemma_isqrt_unique(t: int, s: int, d: int)
    requires
        t >= 0,
        t * t == d,
        s >= 0,
        s * s <= d < (s + 1) * (s + 1),
    ensures
        t == s,
{
    if t < s {
        assert(t * t < s * s) by (nonlinear_arith)
            requires 0 <= t < s;
    } else if t > s {
        assert(t * t >= (s + 1) * (s + 1)) by (nonlinear_arith)
            requires t >= s + 1, s >= 0;
    }
}

/// Whether `d` has a natural square root `s` with `s + shift` divisible by `k`
fn square_root_fits(d: &AFNSBigInt, shift: i64, k: i64) -> (b: bool)
    requires
        d@ >= 1,
        -1 <= shift <= 1,
        k >= 2,
    ensures
        b == root_fits(d@, shift as int, k as int),
{
    let s = integer_sqrt(d);
    if !big_eq(&big_mul(&s, &s), d) {
        proof {
            assert forall|t: int| t >= 0 && #[trigger] (t * t) == d@ implies (t + shift) % (k as int) != 0 by {
                lemma_isqrt_unique(t, s@, d@);
            }
        }
        return false;
    }
    let shifted = s.add(&big_from_i64(shift));
    proof {
        assert(s@ >= 1) by {
            if s@ == 0 {
                assert(s@ * s@ == 0);
            }
        }
        assert(abs_int(shifted@) == shifted@);
        assert(abs_int(k as int) == k);
        assert forall|t: int| t >= 0 && #[trigger] (t * t) == d@ implies t == s@ by {
            lemma_isqrt_unique(t, s@, d@);
        }
    }
    let b = big_eq(&big_rem(&shifted, &big_from_i64(k)), &big_from_i64(0));
    proof {
        if b {
            assert(s@ * s@ == d@);
        }
    }
    b
}

/// Whether `n` is triangular: 8n + 1 is a square whose root less 1 is even
pub fn is_triangular_value(n: &AFNSBigInt) -> (b: bool)
    requires
        n@ >= 0,
    ensures
        b == root_fits(8 * n@ + 1, -1, 2),
{
    let d = big_mul(&big_from_i64(8), n).add(&big_from_i64(1));
    square_root_fits(&d, -1, 2)
}

/// Whether `n` is pentagonal: 24n + 1 is a square whose root plus 1 is a
/// multiple of 6
pub fn is_pentagonal_value(n: &AFNSBigInt) -> (b: bool)
    requires
        n@ >= 0,
    ensures
        b == root_fits(24 * n@ + 1, 1, 6),
{
    let d = big_mul(&big_from_i64(24), n).add(&big_from_i64(1));
    square_root_fits(&d, 1, 6)
}

/// Whether `n` is hexagonal: 8n + 1 is a square whose root plus 1 is a
/// multiple of 4
pub fn is_hexagonal_value(n: &AFNSBigInt) -> (b: bool)
    requires
        n@ >= 0,
    ensures
        b == root_fits(8 * n@ + 1, 1, 4),
{
    let d = big_mul(&big_from_i64(8), n).add(&big_from_i64(1));
    square_root_fits(&d, 1, 4)
}


/// Whether three sides make a right triangle: the squares of the two
/// smaller add up to the square of the largest.
pub open spec fn is_pythagorean(a: int, b: int, c: int) -> bool {
    if c >= a && c >= b {
        a * a + b * b == c * c
    } else if b >= a && b >= c {
        a * a + c * c == b * b
    } else {
        b * b + c * c == a * a
    }
}

/// Whether three natural numbers, in any order, form a Pythagorean triple
pub fn pythagorean_triple(a: &AFNSBigInt, b: &AFNSBigInt, c: &AFNSBigInt) -> (r: bool)
    ensures
        r == is_pythagorean(a@, b@, c@),
{
    let (x, y, z) = if big_le(a, c) && big_le(b, c) {
        (a, b, c)
    } else if big_le(a, b) && big_le(c, b) {
        (a, c, b)
    } else {
        (b, c, a)
    };
    let lhs = big_mul(x, x).add(&big_mul(y, y));
    let rhs = big_mul(z, z);
    big_eq(&lhs, &rhs)
}

} // verus!
