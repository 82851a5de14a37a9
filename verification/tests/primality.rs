use apexforge::apexlang::nats::{
    fermat_little, is_fermat_pseudoprime, is_mersenne_prime, is_power, is_quadratic_residue,
    is_strong_pseudoprime, legendre_symbol, lucas_lehmer, lucas_lehmer_sequence, mersenne_number,
    miller_rabin_test, mod_pow, strong_probable_prime,
};
use apexforge::apexlang::factors::carmichael;
use apexforge::apexlang::nats::{integer_sqrt, is_square};
use apexforge::forge::math::AFNSBigInt;

fn uint(v: u64) -> AFNSBigInt {
    AFNSBigInt::new(&v.to_string()).unwrap()
}

#[test]
fn pseudoprime_classifiers_handle_edge_cases() {
    assert_eq!(is_fermat_pseudoprime(&uint(561), &uint(2)).unwrap(), true);
    assert_eq!(is_fermat_pseudoprime(&uint(15), &uint(2)).unwrap(), false);
    assert_eq!(is_strong_pseudoprime(&uint(561), &uint(2)).unwrap(), false);
    assert_eq!(is_strong_pseudoprime(&uint(2047), &uint(2)).unwrap(), true);
    assert!(is_fermat_pseudoprime(&uint(561), &uint(561)).is_err());
}

#[test]
fn miller_rabin_rounds_detect_composites() {
    assert_eq!(miller_rabin_test(&uint(1_373_653), 3).unwrap(), false);
    assert_eq!(miller_rabin_test(&uint(104_729), 5).unwrap(), true);
    assert!(miller_rabin_test(&uint(17), 0).is_err());
}

#[test]
fn miller_rabin_small_and_even_numbers() {
    assert_eq!(miller_rabin_test(&uint(2), 1).unwrap(), true);
    assert_eq!(miller_rabin_test(&uint(3), 1).unwrap(), true);
    assert_eq!(miller_rabin_test(&uint(1), 1).unwrap(), false);
    assert_eq!(miller_rabin_test(&uint(100), 4).unwrap(), false);
    assert_eq!(miller_rabin_test(&uint(5), 10).unwrap(), true);
    assert_eq!(miller_rabin_test(&uint(561), 12).unwrap(), false);
    assert_eq!(
        miller_rabin_test(&uint(17), 0).unwrap_err().message(),
        "miller_rabin_test requires at least one round"
    );
    let huge = AFNSBigInt::new("340282366920938463463374607431768211457").unwrap();
    assert_eq!(
        miller_rabin_test(&huge, 1).unwrap_err().message(),
        "miller_rabin_test argument '340282366920938463463374607431768211457' is too large to fit in u128"
    );
}

#[test]
fn fermat_little_theorem_checks() {
    assert_eq!(fermat_little(&uint(5), &uint(97)).unwrap(), true);
    assert_eq!(fermat_little(&uint(5), &uint(15)).unwrap(), false);
    assert_eq!(
        fermat_little(&uint(5), &uint(1)).unwrap_err().message(),
        "fermat_little requires modulus > 1"
    );
    assert_eq!(
        fermat_little(&uint(1), &uint(7)).unwrap_err().message(),
        "fermat_little requires base satisfying 1 < base < n"
    );
}

#[test]
fn modular_powers() {
    assert_eq!(mod_pow(&uint(4), &uint(13), &uint(497)).to_string(), "445");
    assert_eq!(mod_pow(&uint(7), &uint(0), &uint(1)).to_string(), "1");
    assert_eq!(mod_pow(&uint(7), &uint(3), &uint(1)).to_string(), "0");
    assert_eq!(mod_pow(&uint(2), &uint(100), &uint(1_000_000_007)).to_string(), "976371285");
}

#[test]
fn strong_probable_primes() {
    assert!(strong_probable_prime(&uint(2047), &uint(2)));
    assert!(!strong_probable_prime(&uint(2047), &uint(3)));
    assert!(strong_probable_prime(&uint(3), &uint(9)));
    assert!(!strong_probable_prime(&uint(15), &uint(5)));
    assert!(!strong_probable_prime(&uint(21), &uint(1)));
}

#[test]
fn legendre_and_quadratic_residue_classification() {
    assert_eq!(legendre_symbol(&uint(4), &uint(7)).unwrap(), 1);
    assert_eq!(legendre_symbol(&uint(3), &uint(7)).unwrap(), -1);
    assert_eq!(is_quadratic_residue(&uint(9), &uint(11)).unwrap(), true);
    assert_eq!(is_quadratic_residue(&uint(2), &uint(11)).unwrap(), false);
    assert!(legendre_symbol(&uint(1), &uint(8)).is_err());
}

#[test]
fn legendre_symbol_errors_and_zero() {
    assert_eq!(legendre_symbol(&uint(14), &uint(7)).unwrap(), 0);
    assert_eq!(
        legendre_symbol(&uint(1), &uint(2)).unwrap_err().message(),
        "legendre_symbol requires odd prime modulus"
    );
    assert_eq!(
        legendre_symbol(&uint(1), &uint(9)).unwrap_err().message(),
        "legendre_symbol requires prime modulus"
    );
}

#[test]
fn mersenne_and_lucas_lehmer_workflow() {
    assert_eq!(mersenne_number(&uint(7)).unwrap().to_string(), "127");
    assert_eq!(lucas_lehmer(&uint(7)).unwrap(), true);
    assert_eq!(is_mersenne_prime(&uint(7)).unwrap(), true);
    assert_eq!(is_mersenne_prime(&uint(11)).unwrap(), false);
    assert!(lucas_lehmer(&uint(1)).is_err());
}

#[test]
fn mersenne_edge_cases() {
    assert_eq!(
        mersenne_number(&uint(0)).unwrap_err().message(),
        "mersenne_number requires exponent >= 1"
    );
    assert_eq!(
        mersenne_number(&uint(5_000_000_000)).unwrap_err().message(),
        "mersenne_number argument '5000000000' is too large to fit in u32"
    );
    assert_eq!(lucas_lehmer(&uint(2)).unwrap(), true);
    assert_eq!(lucas_lehmer(&uint(4)).unwrap(), false);
    assert!(lucas_lehmer_sequence(13));
    assert!(!lucas_lehmer_sequence(23));
    assert_eq!(is_mersenne_prime(&uint(1)).unwrap(), false);
    assert_eq!(is_mersenne_prime(&uint(31)).unwrap(), true);
}

#[test]
fn perfect_powers_by_binary_search() {
    assert_eq!(is_power(&uint(27), &uint(3)).unwrap(), true);
    assert_eq!(is_power(&uint(20), &uint(3)).unwrap(), false);
    assert!(is_power(&uint(8), &uint(1)).is_err());
    assert_eq!(is_power(&uint(0), &uint(5)).unwrap(), true);
    assert_eq!(is_power(&uint(1), &uint(7)).unwrap(), true);
    assert_eq!(is_power(&uint(1024), &uint(10)).unwrap(), true);
    assert_eq!(is_power(&uint(1023), &uint(2)).unwrap(), false);
    assert_eq!(
        is_power(&uint(8), &uint(1)).unwrap_err().message(),
        "is_power exponent must be >= 2"
    );
}

#[test]
fn powers_squares_and_carmichael() {
    assert_eq!(integer_sqrt(&uint(144)).to_string(), "12");
    assert_eq!(is_power(&uint(27), &uint(3)).unwrap(), true);
    assert_eq!(is_power(&uint(20), &uint(3)).unwrap(), false);
    assert!(is_power(&uint(8), &uint(1)).is_err());
    assert_eq!(is_square(&uint(144)), true);
    assert_eq!(is_square(&uint(145)), false);
    assert_eq!(carmichael(&uint(45)).unwrap().to_string(), "12");
}
