use apexforge::apexlang::net::{
    cidr_contains, cidr_overlap, cidr_split, int_to_ipv4, ipv4_broadcast, ipv4_class,
    ipv4_host_count, ipv4_network, ipv4_next, ipv4_prev, ipv4_range, ipv4_same_subnet,
    ipv4_supernet, ipv4_to_binary, ipv4_to_int, is_link_local, is_loopback, is_multicast,
    is_private_ipv4, mask_to_prefix, parse_cidr, parse_ipv4, reverse_ptr, subnet_mask,
};
use apexforge::forge::math::AFNSBigInt;

fn big(v: i64) -> AFNSBigInt {
    AFNSBigInt::new(&v.to_string()).unwrap()
}

#[test]
fn ipv4_helpers_cover_networks() {
    assert!(parse_ipv4("127.0.0.1"));
    assert_eq!(subnet_mask(&big(24)).unwrap(), "255.255.255.0");
    assert_eq!(is_private_ipv4("192.168.0.1").unwrap(), true);
    assert_eq!(is_private_ipv4("8.8.8.8").unwrap(), false);
    assert_eq!(cidr_contains("192.168.0.0/24", "192.168.0.42").unwrap(), true);
    assert_eq!(ipv4_network("10.0.1.5", &big(16)).unwrap(), "10.0.0.0");
    assert_eq!(ipv4_broadcast("10.0.1.5", &big(24)).unwrap(), "10.0.1.255");
    let (a, b) = ipv4_range("10.0.1.0/24").unwrap();
    assert_eq!((a.as_str(), b.as_str()), ("10.0.1.0", "10.0.1.255"));
    assert_eq!(ipv4_supernet("10.0.1.0/24").unwrap(), "10.0.0.0/23");
    assert_eq!(ipv4_same_subnet("10.0.0.1", "10.0.1.2", &big(23)).unwrap(), true);
    let (x, y) = cidr_split("10.0.0.0/23").unwrap();
    assert_eq!((x.as_str(), y.as_str()), ("10.0.0.0/24", "10.0.1.0/24"));
    assert_eq!(cidr_overlap("10.0.0.0/24", "10.0.0.128/25").unwrap(), true);
    assert_eq!(ipv4_to_int("127.0.0.1").unwrap(), 2130706433);
    assert_eq!(int_to_ipv4(&big(3232235777)).unwrap(), "192.168.1.1");
    assert_eq!(ipv4_class("224.0.0.1").unwrap(), "D");
    assert_eq!(is_loopback("127.1.2.3").unwrap(), true);
    assert_eq!(ipv4_next("192.168.0.1").unwrap(), "192.168.0.2");
    assert_eq!(ipv4_prev("192.168.0.2").unwrap(), "192.168.0.1");
    assert_eq!(ipv4_host_count(&big(24)).unwrap().to_string(), "256");
    assert_eq!(reverse_ptr("1.2.3.4").unwrap(), "4.3.2.1.in-addr.arpa");
    assert_eq!(is_multicast("239.1.2.3").unwrap(), true);
    assert_eq!(mask_to_prefix("255.255.0.0").unwrap(), 16);
    assert!(ipv4_to_binary("10.0.0.1").unwrap().starts_with("00001010"));
    assert_eq!(is_link_local("169.254.1.1").unwrap(), true);
}

#[test]
fn ipv4_parsing_follows_dot_decimal_rules() {
    assert!(parse_ipv4("0.0.0.0"));
    assert!(parse_ipv4("255.255.255.255"));
    assert!(!parse_ipv4("256.0.0.1"));
    assert!(!parse_ipv4("01.2.3.4"));
    assert!(!parse_ipv4("1.2.3"));
    assert!(!parse_ipv4("1.2.3.4.5"));
    assert!(!parse_ipv4("1.2.3.4."));
    assert!(!parse_ipv4("1..3.4"));
    assert!(!parse_ipv4("+1.2.3.4"));
    assert!(!parse_ipv4("1.2.3.1000"));
    assert!(!parse_ipv4(""));
}

#[test]
fn ipv4_errors_name_their_function() {
    assert_eq!(
        subnet_mask(&big(33)).unwrap_err().message(),
        "net.subnet_mask expects a prefix length between 0 and 32"
    );
    assert_eq!(is_private_ipv4("x").unwrap_err().message(), "Expected valid IPv4 address");
    assert_eq!(parse_cidr("10.0.0.0").unwrap_err().message(), "CIDR expects address/prefix");
    assert_eq!(parse_cidr("10.0.0.0/8/8").unwrap_err().message(), "CIDR expects address/prefix");
    assert_eq!(parse_cidr("10.0.0.0/x").unwrap_err().message(), "CIDR prefix must be integer");
    assert_eq!(parse_cidr("10.0.0.0/33").unwrap_err().message(), "CIDR prefix must be between 0 and 32");
    assert_eq!(
        parse_cidr("10.0.0/8").unwrap_err().message(),
        "net.cidr_contains expects a valid IPv4 address"
    );
    assert_eq!(parse_cidr("10.0.0.0/+8").unwrap(), (167772160, 8));
    assert_eq!(
        ipv4_network("10.0.0.1", &big(-1)).unwrap_err().message(),
        "net.ipv4_network expects prefix in [0, 32]"
    );
    assert_eq!(
        ipv4_supernet("10.0.0.0/0").unwrap_err().message(),
        "net.ipv4_supernet expects a prefix larger than 0"
    );
    assert_eq!(
        cidr_split("10.0.0.1/32").unwrap_err().message(),
        "net.cidr_split cannot subdivide a /32 network"
    );
    assert_eq!(
        int_to_ipv4(&big(-1)).unwrap_err().message(),
        "net.int_to_ipv4 expects unsigned integer"
    );
    assert_eq!(
        int_to_ipv4(&big(4294967296)).unwrap_err().message(),
        "net.int_to_ipv4 expects a value that fits in 32 bits"
    );
    assert_eq!(
        ipv4_next("255.255.255.255").unwrap_err().message(),
        "Cannot increment the broadcast address"
    );
    assert_eq!(ipv4_prev("0.0.0.0").unwrap_err().message(), "Cannot decrement 0.0.0.0");
    assert_eq!(
        mask_to_prefix("255.0.255.0").unwrap_err().message(),
        "net.mask_to_prefix expects contiguous ones in the mask"
    );
    assert_eq!(mask_to_prefix("0.0.0.0").unwrap(), 0);
    assert_eq!(mask_to_prefix("255.255.255.255").unwrap(), 32);
    assert_eq!(ipv4_host_count(&big(0)).unwrap().to_string(), "4294967296");
    assert_eq!(ipv4_class("10.0.0.1").unwrap(), "A");
    assert_eq!(ipv4_class("250.0.0.1").unwrap(), "E");
    assert_eq!(ipv4_to_binary("1.2.3.255").unwrap(), "00000001.00000010.00000011.11111111");
    let (a, b) = cidr_split("0.0.0.0/0").unwrap();
    assert_eq!((a.as_str(), b.as_str()), ("0.0.0.0/1", "128.0.0.0/1"));
}
