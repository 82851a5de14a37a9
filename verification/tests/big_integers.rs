use apexforge::forge::math::AFNSBigInt;

fn big(s: &str) -> AFNSBigInt {
    AFNSBigInt::new(s).unwrap()
}

#[test]
fn big_integers_parse_and_print() {
    assert_eq!(big("123456789012345678901234567890").to_string(), "123456789012345678901234567890");
    assert_eq!(big("-42").to_string(), "-42");
    assert_eq!(big("+7").to_string(), "7");
    assert_eq!(big("1_000").to_string(), "1000");
    assert_eq!(big("0").to_string(), "0");
    assert_eq!(
        AFNSBigInt::new("").unwrap_err(),
        "Invalid BigInt: cannot parse integer from empty string"
    );
    assert_eq!(AFNSBigInt::new("-").unwrap_err(), "Invalid BigInt: cannot parse integer from empty string");
    assert_eq!(AFNSBigInt::new("12a").unwrap_err(), "Invalid BigInt: invalid digit found in string");
    assert_eq!(AFNSBigInt::new("_1").unwrap_err(), "Invalid BigInt: invalid digit found in string");
    assert_eq!(AFNSBigInt::new("-+1").unwrap_err(), "Invalid BigInt: invalid digit found in string");
    assert!(AFNSBigInt::parse("99").is_ok());
}

#[test]
fn big_integer_arithmetic() {
    let a = big("100000000000000000000");
    let b = big("-3");
    assert_eq!(a.add(&b).to_string(), "99999999999999999997");
    assert_eq!(a.subtract(&b).to_string(), "100000000000000000003");
    assert_eq!(a.multiply(&b).to_string(), "-300000000000000000000");
    assert_eq!(big("-7").divide(&big("2")).unwrap().to_string(), "-3");
    assert_eq!(big("-7").modulo(&big("2")).unwrap().to_string(), "-1");
    assert_eq!(big("7").modulo(&big("-2")).unwrap().to_string(), "1");
    assert_eq!(a.divide(&big("0")).unwrap_err(), "Division by zero");
    assert_eq!(a.modulo(&big("0")).unwrap_err(), "Modulo by zero");
    assert_eq!(big("2").pow(100).to_string(), "1267650600228229401496703205376");
    assert_eq!(big("-5").abs().to_string(), "5");
}

#[test]
fn big_integer_properties() {
    assert!(big("10").is_even());
    assert!(big("-3").is_odd());
    assert!(!big("-4").is_odd());
    assert_eq!(big("12").gcd(&big("-18")).to_string(), "6");
    assert_eq!(big("4").lcm(&big("6")).to_string(), "12");
    assert_eq!(big("0").lcm(&big("6")).to_string(), "0");
    assert_eq!(big("5").sign(), 1);
    assert_eq!(big("-5").sign(), -1);
    assert_eq!(big("0").sign(), 0);
}

#[test]
fn big_integer_primes() {
    let primes: Vec<i32> = (0..40).filter(|n| big(&n.to_string()).is_prime()).collect();
    assert_eq!(primes, vec![2, 3, 5, 7, 11, 13, 17, 19, 23, 29, 31, 37]);
    assert!(big("104729").is_prime());
    assert!(!big("1373653").is_prime());
    assert!(!big("-7").is_prime());
    assert!(big("2147483647").is_prime());
}

#[test]
fn big_integer_roots_and_radixes() {
    assert_eq!(big("144").sqrt().unwrap().to_string(), "12");
    assert_eq!(big("10").sqrt().unwrap().to_string(), "3");
    assert_eq!(big("-4").sqrt().unwrap_err(), "Square root of negative number");
    assert_eq!(big("10").to_binary(), "1010");
    assert_eq!(big("-255").to_hex(), "-ff");
    assert_eq!(big("64").to_octal(), "100");
    assert_eq!(big("9").clone().copy().to_string(), "9");
}
