use apexforge::apexlang::toml::{parse_toml_number, TomlNumber};

fn ok(text: &str, pos: usize) -> (TomlNumber, usize) {
    parse_toml_number(text.as_bytes(), pos).unwrap()
}

fn err(text: &str) -> String {
    match parse_toml_number(text.as_bytes(), 0) {
        Err(e) => e.message().to_string(),
        Ok(_) => panic!("expected an error"),
    }
}

#[test]
fn integers_in_each_range() {
    assert_eq!(ok("42", 0), (TomlNumber::Int(42), 2));
    assert_eq!(ok("-1_000", 0), (TomlNumber::Int(-1000), 6));
    assert_eq!(ok("+7", 0), (TomlNumber::Int(7), 2));
    assert_eq!(ok("-9223372036854775808", 0), (TomlNumber::Int(i64::MIN), 20));
    assert_eq!(ok("18446744073709551615", 0), (TomlNumber::UInt(u64::MAX), 20));
    assert_eq!(ok("x = 5", 4), (TomlNumber::Int(5), 5));
    assert_eq!(ok("1.", 0), (TomlNumber::Int(1), 1));
    assert_eq!(ok("1__2", 0), (TomlNumber::Int(1), 2));
    assert_eq!(err("18446744073709551616"), "serde.from_toml integer literal is out of range");
    assert_eq!(err("-9223372036854775809"), "serde.from_toml integer literal is out of range");
}

#[test]
fn floats_keep_their_text() {
    assert_eq!(ok("3.14", 0), (TomlNumber::Float("3.14".to_string()), 4));
    assert_eq!(ok("1e10", 0), (TomlNumber::Float("1e10".to_string()), 4));
    assert_eq!(ok("1_0.5_0e+1_2,", 0), (TomlNumber::Float("10.50e+12".to_string()), 12));
}

#[test]
fn malformed_numbers_are_refused() {
    assert_eq!(err("abc"), "serde.from_toml number literal must contain digits");
    assert_eq!(err("-"), "serde.from_toml number literal must contain digits");
    assert_eq!(err("1e"), "serde.from_toml exponent component requires digits");
    assert_eq!(err("2E+x"), "serde.from_toml exponent component requires digits");
}
