use apexforge::apexlang::digits::{
    decimal_digit_count, digit_square_sum, digital_root, happy_steps, is_armstrong, is_automorphic,
    is_happy, is_harshad, is_kaprekar, is_palindromic, kaprekar_6174_steps, kaprekar_has_distinct_digits,
    kaprekar_reaches_constant, kaprekar_step, kaprekar_steps_fit, kaprekar_theorem, num_digits, sum_digits_base,
    sum_digits_impl, ten_to_power,
};
use apexforge::apexlang::factors::aliquot_length;
use apexforge::apexlang::nats::{
    bertrand_postulate, bertrand_prime, coprime, extended_gcd, goldbach_holds, goldbach_witness,
    integer_sqrt, is_composite, is_cunningham_prime, is_prime_u128, is_sophie_germain_prime,
    fermat_little, is_square, is_twin_prime, lcm, modinv, modpow, next_even, next_odd,
    prime_count_up_to, wilson_theorem,
};
use apexforge::apexlang::sequences::{
    catalan_number, catalan_theorem, fact, fib, gauss_sum_identity, hexagonal_value,
    is_hexagonal_value, is_pentagonal_value, is_triangular_value, ncr, nicomachus_theorem,
    pentagonal_value, pythagorean_triple, sum_of_cubes, triangular_sum_formula, triangular_sum_iter,
};
use apexforge::forge::math::AFNSBigInt;

fn big(v: i64) -> AFNSBigInt {
    AFNSBigInt::new(&v.to_string()).unwrap()
}

fn text(v: AFNSBigInt) -> String {
    v.to_string()
}

#[test]
fn sum_digits_handles_bases() {
    assert_eq!(text(sum_digits_impl(&big(98765), 10)), "35");
    assert_eq!(text(sum_digits_base(&big(0xFF), &big(16)).unwrap()), "30");
}

#[test]
fn modpow_and_modinv_cover_edge_cases() {
    assert_eq!(text(modpow(&big(2), &big(10), &big(1000)).unwrap()), "24");
    assert_eq!(text(modinv(&big(3), &big(11)).unwrap()), "4");
    assert!(modpow(&big(2), &big(5), &big(0)).is_err());
    assert!(modinv(&big(6), &big(15)).is_err());
}

#[test]
fn gauss_sum_and_identity_verification() {
    assert_eq!(text(triangular_sum_formula(&big(10))), "55");
    assert_eq!(text(triangular_sum_formula(&big(0))), "0");
    assert!(gauss_sum_identity(&big(25)));
}

#[test]
fn figurate_numbers_and_catalan_theorems() {
    assert_eq!(text(triangular_sum_formula(&big(10))), "55");
    assert!(is_triangular_value(&big(55)));
    assert_eq!(text(pentagonal_value(&big(5))), "35");
    assert!(is_pentagonal_value(&big(35)));
    assert_eq!(text(hexagonal_value(&big(4))), "28");
    assert!(is_hexagonal_value(&big(28)));
    assert_eq!(text(catalan_number(&big(5)).unwrap()), "42");
    assert_eq!(catalan_theorem(&big(5)).unwrap(), true);
    assert!(nicomachus_theorem(&big(25)));
}

#[test]
fn twin_prime_aliases_and_wilson_checks() {
    assert_eq!(is_twin_prime(&big(29)).unwrap(), true);
    assert_eq!(is_twin_prime(&big(27)).unwrap(), false);
    assert_eq!(is_prime_u128(&big(13), "is_simple_number").unwrap(), true);
    assert_eq!(is_composite(&big(45), "is_murekkeb_number").unwrap(), true);
    assert!(wilson_theorem(&big(13)));
    assert!(!wilson_theorem(&big(9)));
}

#[test]
fn goldbach_and_prime_flavors() {
    assert_eq!(is_sophie_germain_prime(&big(23)).unwrap(), true);
    assert_eq!(is_sophie_germain_prime(&big(25)).unwrap(), false);
    assert_eq!(is_cunningham_prime(&big(3)).unwrap(), true);
    assert_eq!(is_cunningham_prime(&big(11)).unwrap(), false);
    assert_eq!(goldbach_holds(&big(84)).unwrap(), true);
    assert_eq!(goldbach_witness(&big(84)).unwrap(), 5);
    assert!(goldbach_holds(&big(9)).is_err());
}

#[test]
fn bertrand_helpers() {
    assert_eq!(bertrand_postulate(&big(50)).unwrap(), true);
    assert_eq!(bertrand_prime(&big(50)).unwrap(), 53);
    assert!(bertrand_postulate(&big(1)).is_err());
    assert_eq!(
        bertrand_prime(&big(1)).unwrap_err().message(),
        "bertrand_prime requires an integer greater than 1"
    );
    let half = AFNSBigInt::new("170141183460469231731687303715884105728").unwrap();
    assert_eq!(
        bertrand_prime(&half).unwrap_err().message(),
        "bertrand_prime argument '170141183460469231731687303715884105728' is too large for 2n upper bound"
    );
}

#[test]
fn prime_count_up_to_twenty_five() {
    assert_eq!(prime_count_up_to(&big(25)).unwrap(), 9);
    assert_eq!(prime_count_up_to(&big(0)).unwrap(), 0);
}

#[test]
fn goldbach_target_errors() {
    assert_eq!(
        goldbach_witness(&big(4)).unwrap_err().message(),
        "goldbach_witness requires an even integer greater than 4"
    );
    assert_eq!(goldbach_witness(&big(10)).unwrap(), 3);
}

#[test]
fn sequences_and_combinatorics() {
    assert_eq!(text(fib(&big(0)).unwrap()), "0");
    assert_eq!(text(fib(&big(10)).unwrap()), "55");
    assert_eq!(text(fib(&big(90)).unwrap()), "2880067194370816120");
    assert_eq!(text(fact(&big(0)).unwrap()), "1");
    assert_eq!(text(fact(&big(20)).unwrap()), "2432902008176640000");
    assert_eq!(text(ncr(&big(10), &big(3)).unwrap()), "120");
    assert_eq!(text(ncr(&big(3), &big(10)).unwrap()), "0");
    assert_eq!(text(ncr(&big(52), &big(47)).unwrap()), "2598960");
    assert_eq!(text(triangular_sum_iter(&big(100))), "5050");
    assert_eq!(text(sum_of_cubes(&big(4))), "100");
    assert!(!is_triangular_value(&big(56)));
    assert!(!is_pentagonal_value(&big(36)));
    assert!(!is_hexagonal_value(&big(29)));
}

#[test]
fn gcd_family_and_parity() {
    assert_eq!(text(lcm(&big(4), &big(6))), "12");
    assert_eq!(text(lcm(&big(-4), &big(6))), "-12");
    assert_eq!(text(lcm(&big(0), &big(6))), "0");
    assert!(coprime(&big(8), &big(15)));
    assert!(!coprime(&big(8), &big(12)));
    assert_eq!(text(next_even(&big(4))), "6");
    assert_eq!(text(next_even(&big(-3))), "-2");
    assert_eq!(text(next_odd(&big(4))), "5");
    assert_eq!(text(next_odd(&big(7))), "9");
    let (g, x, y) = extended_gcd(&big(240), &big(46));
    assert_eq!((text(g), text(x), text(y)), ("2".to_string(), "-9".to_string(), "47".to_string()));
    assert_eq!(
        modinv(&big(3), &big(0)).unwrap_err().message(),
        "modinv requires modulus > 0"
    );
    assert_eq!(text(modinv(&big(10), &big(17)).unwrap()), "12");
}

#[test]
fn square_roots() {
    assert_eq!(text(integer_sqrt(&big(0))), "0");
    assert_eq!(text(integer_sqrt(&big(1))), "1");
    assert_eq!(text(integer_sqrt(&big(144))), "12");
    assert_eq!(text(integer_sqrt(&big(145))), "12");
    assert_eq!(text(integer_sqrt(&big(143))), "11");
    assert!(is_square(&big(144)));
    assert!(!is_square(&big(145)));
}

#[test]
fn digit_properties() {
    assert_eq!(num_digits(&big(0)), 0);
    assert_eq!(num_digits(&big(12345)), 5);
    assert_eq!(decimal_digit_count(&big(0)), 1);
    assert_eq!(text(ten_to_power(3)), "1000");
    assert!(is_automorphic(&big(76)));
    assert!(is_automorphic(&big(0)));
    assert!(!is_automorphic(&big(7)));
    assert!(is_palindromic(&big(12321)));
    assert!(is_palindromic(&big(0)));
    assert!(!is_palindromic(&big(12)));
    assert!(is_harshad(&big(18)));
    assert!(!is_harshad(&big(19)));
    assert!(is_armstrong(&big(153)));
    assert!(!is_armstrong(&big(154)));
    assert_eq!(text(digital_root(&big(98765))), "8");
    assert_eq!(text(digit_square_sum(&big(19))), "82");
    assert!(is_kaprekar(&big(45)));
    assert!(!is_kaprekar(&big(10)));
    assert!(is_kaprekar(&big(1)));
    assert!(is_kaprekar(&big(297)));
}

#[test]
fn happy_palindromic_and_pythagorean_helpers() {
    assert_eq!(is_happy(&big(19)), Some(true));
    assert_eq!(happy_steps(&big(19)), Some(4));
    assert_eq!(is_happy(&big(20)), Some(false));
    assert_eq!(happy_steps(&big(20)), Some(-1));
    assert!(is_automorphic(&big(76)));
    assert!(is_palindromic(&big(12321)));
    assert!(pythagorean_triple(&big(3), &big(4), &big(5)));
    assert!(!pythagorean_triple(&big(2), &big(3), &big(4)));
    assert!(pythagorean_triple(&big(13), &big(5), &big(12)));
}

#[test]
fn kaprekar_utilities_cover_numbers_and_constant() {
    assert!(is_kaprekar(&big(45)));
    assert!(!is_kaprekar(&big(10)));
    assert_eq!(kaprekar_6174_steps(&big(3524)).unwrap(), 3);
}

#[test]
fn absolute_and_theorem_helpers() {
    assert_eq!(big(-270).abs().to_string(), "270");
    assert_eq!(fermat_little(&big(5), &big(97)).unwrap(), true);
    assert_eq!(fermat_little(&big(5), &big(15)).unwrap(), false);
    assert_eq!(kaprekar_theorem(&big(3524)).unwrap(), true);
    assert_eq!(kaprekar_theorem(&big(1111)).unwrap(), false);
    assert!(kaprekar_theorem(&big(20_000)).is_err());
}

#[test]
fn prime_count_and_aliquot_length() {
    assert_eq!(prime_count_up_to(&big(25)).unwrap(), 9);
    assert_eq!(aliquot_length(&big(12)).unwrap(), 7);
}

#[test]
fn kaprekar_steps_and_edge_cases() {
    assert_eq!(kaprekar_step(3524), 3087);
    assert_eq!(kaprekar_step(6174), 6174);
    assert_eq!(kaprekar_step(1), 999);
    assert_eq!(kaprekar_6174_steps(&big(6174)).unwrap(), 0);
    assert_eq!(kaprekar_6174_steps(&big(0)).unwrap(), 0);
    assert_eq!(kaprekar_6174_steps(&big(1111)).unwrap(), 1);
    assert!(kaprekar_has_distinct_digits(12));
    assert!(!kaprekar_has_distinct_digits(7777));
    assert!(kaprekar_reaches_constant(1000));
    assert!(kaprekar_steps_fit(3524));
    assert!(!kaprekar_steps_fit(4294967295));
    assert_eq!(
        kaprekar_theorem(&big(20_000)).unwrap_err().message(),
        "kaprekar_theorem expects a four-digit value (leading zeros allowed)"
    );
    assert_eq!(aliquot_length(&big(0)).unwrap(), 0);
    assert_eq!(aliquot_length(&big(6)).unwrap(), 1);
}
