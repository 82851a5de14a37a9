use apexforge::apexlang::assembly::parse_register;
use apexforge::apexlang::formats::{
    base64_value, decode_base64_string, encode_base64_bytes, escape_xml, read_length,
    unescape_xml, write_length,
};
use apexforge::apexlang::nats::{
    find_bertrand_prime, find_goldbach_pair, is_prime_raw, sieve_prime_count,
};
use apexforge::apexlang::net::{format_ipv4, prefix_mask};

#[test]
fn base64_encodes_with_padding() {
    assert_eq!(encode_base64_bytes(b"Man"), "TWFu");
    assert_eq!(encode_base64_bytes(b"Ma"), "TWE=");
    assert_eq!(encode_base64_bytes(b"M"), "TQ==");
    assert_eq!(encode_base64_bytes(b""), "");
    assert_eq!(encode_base64_bytes(&[0xfb, 0xff]), "+/8=");
}

#[test]
fn base64_decodes_and_ignores_whitespace() {
    assert_eq!(decode_base64_string("TWFu").unwrap(), b"Man".to_vec());
    assert_eq!(decode_base64_string("TW\nE=").unwrap(), b"Ma".to_vec());
    assert_eq!(decode_base64_string(" TQ== ").unwrap(), b"M".to_vec());
    assert_eq!(decode_base64_string("").unwrap(), Vec::<u8>::new());
}

#[test]
fn base64_reports_bad_input() {
    assert_eq!(
        decode_base64_string("TWF").unwrap_err().message(),
        "serde.from_base64 expected groups of 4 characters"
    );
    assert_eq!(
        decode_base64_string("TW*u").unwrap_err().message(),
        "serde.from_base64 found invalid characters"
    );
}

#[test]
fn base64_round_trip_on_all_bytes() {
    let bytes: Vec<u8> = (0..=255u8).collect();
    let text = encode_base64_bytes(&bytes);
    assert_eq!(decode_base64_string(&text).unwrap(), bytes);
}

#[test]
fn base64_digit_values() {
    assert_eq!(base64_value(b'A'), Some(0));
    assert_eq!(base64_value(b'z'), Some(51));
    assert_eq!(base64_value(b'0'), Some(52));
    assert_eq!(base64_value(b'+'), Some(62));
    assert_eq!(base64_value(b'/'), Some(63));
    assert_eq!(base64_value(b'='), None);
}

#[test]
fn xml_escape_and_unescape() {
    let text = "a<b & \"c\" > 'd'";
    let escaped = escape_xml(text);
    assert_eq!(escaped, "a&lt;b &amp; &quot;c&quot; &gt; &apos;d&apos;");
    assert_eq!(unescape_xml(&escaped).unwrap(), text);
    assert_eq!(
        unescape_xml("a &amp b").unwrap_err().message(),
        "serde.from_xml encountered an unterminated entity"
    );
    assert_eq!(
        unescape_xml("&nbsp;").unwrap_err().message(),
        "serde.from_xml encountered an unknown entity"
    );
    assert!(unescape_xml("a&b").is_err());
    assert!(unescape_xml("&foo;").is_err());
}

#[test]
fn lengths_round_trip_through_four_bytes() {
    let mut out = vec![9u8];
    write_length(0x01020304, &mut out).unwrap();
    assert_eq!(out, vec![9, 1, 2, 3, 4]);
    let mut cursor = 1usize;
    assert_eq!(read_length(&out, &mut cursor).unwrap(), 0x01020304);
    assert_eq!(cursor, 5);
    let mut late = 2usize;
    assert_eq!(
        read_length(&out, &mut late).unwrap_err().message(),
        "serde.from_bin length header extends beyond the buffer"
    );
    assert_eq!(late, 2);
}

#[test]
fn primes_by_trial_division() {
    assert!(!is_prime_raw(0));
    assert!(!is_prime_raw(1));
    assert!(is_prime_raw(2));
    assert!(is_prime_raw(97));
    assert!(!is_prime_raw(91));
    assert!(is_prime_raw(104_729));
    assert!(!is_prime_raw(1_373_653));
}

#[test]
fn goldbach_pairs_start_from_the_smallest_prime() {
    assert_eq!(find_goldbach_pair(84), Some((5, 79)));
    assert_eq!(find_goldbach_pair(4), Some((2, 2)));
    assert_eq!(find_goldbach_pair(11), None);
}

#[test]
fn bertrand_primes_lie_between_n_and_twice_n() {
    assert_eq!(find_bertrand_prime(50), Some(53));
    assert_eq!(find_bertrand_prime(1), Some(2));
    assert_eq!(find_bertrand_prime(2), Some(3));
    assert_eq!(find_bertrand_prime(0), None);
}

#[test]
fn sieve_counts_primes_up_to_a_limit() {
    assert_eq!(sieve_prime_count(25), 9);
    assert_eq!(sieve_prime_count(1), 0);
    assert_eq!(sieve_prime_count(2), 1);
    assert_eq!(sieve_prime_count(100), 25);
}

#[test]
fn subnet_masks_and_addresses() {
    assert_eq!(prefix_mask(24), 0xFFFF_FF00);
    assert_eq!(prefix_mask(0), 0);
    assert_eq!(prefix_mask(32), u32::MAX);
    assert_eq!(format_ipv4(0xC0A8_0001), "192.168.0.1");
    assert_eq!(format_ipv4(0), "0.0.0.0");
}

#[test]
fn registers_are_numbered() {
    assert_eq!(parse_register("r3").unwrap(), 3);
    assert_eq!(parse_register("r15").unwrap(), 15);
    assert_eq!(
        parse_register("x1").unwrap_err().message(),
        "Expected register operand but found 'x1'"
    );
    assert_eq!(parse_register("r+2").unwrap(), 2);
    assert!(parse_register("r").is_err());
    assert_eq!(parse_register("rx").unwrap_err().message(), "Unable to parse register 'rx'");
}
