use apexforge::apexlang::factors::{
    carmichael, carmichael_prime_power, divisors_count, euler_totient_theorem, is_abundant,
    is_amicable, is_carmichael, is_deficient, is_perfect, lcm_bigints, mobius, prime_factors_u128,
    proper_divisors_sum, sum_of_divisors, totient_value,
};
use apexforge::forge::math::AFNSBigInt;

fn big(v: i64) -> AFNSBigInt {
    AFNSBigInt::new(&v.to_string()).unwrap()
}

#[test]
fn phi_and_mobius_behave_for_composites() {
    assert_eq!(totient_value(&big(36), "phi").unwrap().to_string(), "12");
    assert_eq!(mobius(&big(30)).unwrap(), -1);
    assert_eq!(mobius(&big(12)).unwrap(), 0);
}

#[test]
fn carmichael_predicate_matches_classical_examples() {
    assert_eq!(is_carmichael(&big(561)).unwrap(), true);
    assert_eq!(is_carmichael(&big(45)).unwrap(), false);
}

#[test]
fn carmichael_function_values() {
    assert_eq!(carmichael(&big(45)).unwrap().to_string(), "12");
    assert_eq!(carmichael(&big(1)).unwrap().to_string(), "0");
    assert_eq!(carmichael(&big(32)).unwrap().to_string(), "8");
    assert_eq!(carmichael(&big(561)).unwrap().to_string(), "80");
    assert_eq!(carmichael_prime_power(2, 1).to_string(), "1");
    assert_eq!(carmichael_prime_power(3, 2).to_string(), "6");
    assert_eq!(lcm_bigints(&big(4), &big(6)).to_string(), "12");
}

#[test]
fn bertrand_and_euler_helpers_cover_theorems() {
    assert_eq!(euler_totient_theorem(&big(7), &big(40)).unwrap(), true);
    assert_eq!(euler_totient_theorem(&big(6), &big(9)).unwrap(), false);
    assert!(euler_totient_theorem(&big(2), &big(1)).is_err());
}

#[test]
fn factorizations_are_ascending_prime_powers() {
    assert_eq!(prime_factors_u128(&big(360), "f").unwrap(), vec![(2, 3), (3, 2), (5, 1)]);
    assert_eq!(prime_factors_u128(&big(97), "f").unwrap(), vec![(97, 1)]);
    assert_eq!(prime_factors_u128(&big(1), "f").unwrap(), vec![]);
    assert_eq!(
        prime_factors_u128(&big(0), "divisors_count").unwrap_err().message(),
        "divisors_count is undefined for zero"
    );
    let big_prime = AFNSBigInt::new("18446744073709551557").unwrap();
    assert_eq!(prime_factors_u128(&big_prime, "f").unwrap(), vec![(18446744073709551557, 1)]);
}

#[test]
fn divisor_functions() {
    assert_eq!(sum_of_divisors(&big(12), "s").unwrap().to_string(), "28");
    assert_eq!(sum_of_divisors(&big(0), "s").unwrap().to_string(), "0");
    assert_eq!(divisors_count(&big(12)).unwrap(), 6);
    assert_eq!(proper_divisors_sum(&big(28)).unwrap().to_string(), "28");
    assert!(proper_divisors_sum(&big(0)).is_err());
    assert_eq!(is_perfect(&big(28)).unwrap(), true);
    assert_eq!(is_perfect(&big(0)).unwrap(), false);
    assert_eq!(is_abundant(&big(12)).unwrap(), true);
    assert_eq!(is_deficient(&big(8)).unwrap(), true);
    assert_eq!(is_amicable(&big(220)).unwrap(), true);
    assert_eq!(is_amicable(&big(28)).unwrap(), false);
    assert_eq!(is_amicable(&big(1)).unwrap(), false);
    assert_eq!(totient_value(&big(0), "phi").unwrap().to_string(), "0");
    assert_eq!(totient_value(&big(1), "phi").unwrap().to_string(), "1");
}
