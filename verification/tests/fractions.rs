use apexforge::apexlang::fractions::{
    fraction_add, fraction_divide, fraction_egyptian_terms, fraction_farey_neighbors,
    fraction_is_proper, fraction_is_terminating, fraction_is_unit, fraction_mediant,
    fraction_multiply, fraction_period_length, fraction_reciprocal, fraction_subtract,
    normalize_fraction,
};
use apexforge::forge::math::AFNSBigInt;

fn num(v: i64) -> AFNSBigInt {
    AFNSBigInt::new(&v.to_string()).unwrap()
}

fn pair(r: (AFNSBigInt, AFNSBigInt)) -> (String, String) {
    (r.0.to_string(), r.1.to_string())
}

fn s(a: &str, b: &str) -> (String, String) {
    (a.to_string(), b.to_string())
}

#[test]
fn reduces_and_adds_fractions() {
    assert_eq!(pair(normalize_fraction(&num(6), &num(8)).unwrap()), s("3", "4"));
    assert_eq!(pair(fraction_add(&num(1), &num(2), &num(1), &num(3)).unwrap()), s("5", "6"));
}

#[test]
fn mediant_and_farey_behave() {
    assert_eq!(pair(fraction_mediant(&num(1), &num(3), &num(1), &num(2)).unwrap()), s("2", "5"));
    assert!(fraction_farey_neighbors(&num(1), &num(3), &num(2), &num(5)));
}

#[test]
fn tuple_inputs_flow_into_binary_ops() {
    let (ln, ld) = normalize_fraction(&num(1), &num(3)).unwrap();
    let (rn, rd) = normalize_fraction(&num(1), &num(2)).unwrap();
    assert_eq!(pair(fraction_add(&ln, &ld, &rn, &rd).unwrap()), s("5", "6"));
    assert_eq!(pair(fraction_mediant(&ln, &ld, &rn, &rd).unwrap()), s("2", "5"));
}

#[test]
fn detects_terminating_and_period_length() {
    let (_, den) = normalize_fraction(&num(3), &num(8)).unwrap();
    assert!(fraction_is_terminating(&den));
    let (_, den) = normalize_fraction(&num(1), &num(7)).unwrap();
    assert_eq!(fraction_period_length(&den).unwrap(), 6);
}

#[test]
fn egyptian_terms_cover_examples() {
    let terms = fraction_egyptian_terms(&num(4), &num(13)).unwrap();
    let denominators: Vec<String> = terms.iter().map(|t| t.to_string()).collect();
    assert_eq!(denominators, vec!["4", "18", "468"]);
}

#[test]
fn normalization_moves_the_sign_and_refuses_zero() {
    assert_eq!(pair(normalize_fraction(&num(3), &num(-6)).unwrap()), s("-1", "2"));
    assert_eq!(pair(normalize_fraction(&num(0), &num(-5)).unwrap()), s("0", "1"));
    assert_eq!(
        normalize_fraction(&num(1), &num(0)).unwrap_err().message(),
        "Fraction denominator cannot be zero"
    );
}

#[test]
fn fraction_arithmetic() {
    assert_eq!(pair(fraction_subtract(&num(1), &num(4), &num(1), &num(6)).unwrap()), s("1", "12"));
    assert_eq!(pair(fraction_multiply(&num(2), &num(3), &num(3), &num(4)).unwrap()), s("1", "2"));
    assert_eq!(pair(fraction_divide(&num(1), &num(2), &num(-3), &num(4)).unwrap()), s("-2", "3"));
    assert_eq!(
        fraction_divide(&num(1), &num(2), &num(0), &num(1)).unwrap_err().message(),
        "Cannot divide by a zero numerator"
    );
    assert_eq!(pair(fraction_reciprocal(&num(-2), &num(3)).unwrap()), s("3", "-2"));
    assert_eq!(fraction_reciprocal(&num(0), &num(1)).unwrap_err().message(), "Zero has no reciprocal");
}

#[test]
fn fraction_predicates() {
    assert!(fraction_is_proper(&num(-2), &num(3)));
    assert!(!fraction_is_proper(&num(3), &num(3)));
    assert!(fraction_is_unit(&num(-1), &num(9)));
    assert!(!fraction_is_unit(&num(2), &num(9)));
    assert!(!fraction_is_terminating(&num(6)));
    assert!(fraction_is_terminating(&num(-40)));
    assert_eq!(fraction_period_length(&num(20)).unwrap(), 0);
    assert_eq!(fraction_period_length(&num(3)).unwrap(), 1);
    assert_eq!(fraction_period_length(&num(12)).unwrap(), 1);
    assert_eq!(fraction_period_length(&num(13)).unwrap(), 6);
}

#[test]
fn egyptian_terms_refuse_improper_input() {
    assert_eq!(
        fraction_egyptian_terms(&num(-1), &num(3)).unwrap_err().message(),
        "Egyptian fraction decomposition expects positive fractions"
    );
    assert_eq!(
        fraction_egyptian_terms(&num(3), &num(3)).unwrap_err().message(),
        "Egyptian fraction decomposition only applies to proper fractions"
    );
    assert!(fraction_egyptian_terms(&num(0), &num(3)).unwrap().is_empty());
    let terms = fraction_egyptian_terms(&num(2), &num(3)).unwrap();
    assert_eq!(terms.iter().map(|t| t.to_string()).collect::<Vec<_>>(), vec!["2", "6"]);
}
