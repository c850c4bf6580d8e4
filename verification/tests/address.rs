use ipmi::address::{is_address, is_ipv4, is_ipv6};

#[test]
fn ipv4_plain() {
    assert!(is_ipv4("192.168.1.10"));
    assert!(is_ipv4("0.0.0.0"));
    assert!(is_ipv4("255.255.255.255"));
    assert!(is_ipv4("1.2.3.4"));
}

#[test]
fn ipv4_leading_zeros() {
    assert!(is_ipv4("000.000.000.000"));
    assert!(is_ipv4("200.050.005.000"));
    assert!(is_ipv4("200.050.005.001"));
    assert!(is_ipv4("01.02.03.04"));
}

#[test]
fn ipv4_out_of_range() {
    assert!(!is_ipv4("999.999.999.999"));
    assert!(!is_ipv4("256.0.0.0"));
    assert!(!is_ipv4("0.0.0.256"));
    assert!(!is_ipv4("1.2.3.0255"));
}

#[test]
fn ipv4_malformed() {
    assert!(!is_ipv4(""));
    assert!(!is_ipv4("UNKNOWN"));
    assert!(!is_ipv4("1.2.3"));
    assert!(!is_ipv4("1.2.3.4.5"));
    assert!(!is_ipv4("1.2.3.4."));
    assert!(!is_ipv4(".1.2.3.4"));
    assert!(!is_ipv4("1..3.4"));
    assert!(!is_ipv4("1.2.3.a"));
    assert!(!is_ipv4("1.2.3.-4"));
    assert!(!is_ipv4("1.2.3.+4"));
    assert!(!is_ipv4(" 1.2.3.4"));
    assert!(!is_ipv4("1.2.3.4 "));
    assert!(!is_ipv4("١.٢.٣.٤"));
}

#[test]
fn ipv6_full() {
    assert!(is_ipv6("2001:0db8:85a3:0000:0000:8a2e:0370:7334"));
    assert!(is_ipv6("1:2:3:4:5:6:7:8"));
    assert!(is_ipv6("FFFF:ffff:AbCd:0:0:0:0:1"));
    assert!(is_ipv6("1:2:3:4:5:6:1.2.3.4"));
}

#[test]
fn ipv6_compressed() {
    assert!(is_ipv6("::"));
    assert!(is_ipv6("::1"));
    assert!(is_ipv6("1::"));
    assert!(is_ipv6("fe80::1"));
    assert!(is_ipv6("2001:db8::8a2e:370:7334"));
    assert!(is_ipv6("1:2:3:4:5:6:7::"));
    assert!(is_ipv6("::1:2:3:4:5:6:7"));
    assert!(is_ipv6("1::2:3:4:5:6:7"));
    assert!(is_ipv6("::ffff:192.168.1.1"));
    assert!(is_ipv6("::1.2.3.4"));
    assert!(is_ipv6("1:2:3:4:5::1.2.3.4"));
    assert!(is_ipv6("64:ff9b::192.0.2.33"));
}

#[test]
fn ipv6_wrong_count() {
    assert!(!is_ipv6("1:2:3:4:5:6:7"));
    assert!(!is_ipv6("1:2:3:4:5:6:7:8:9"));
    assert!(!is_ipv6("1:2:3:4:5:6:7:1.2.3.4"));
    assert!(!is_ipv6("1:2:3:4:5:1.2.3.4"));
    assert!(!is_ipv6("1::2:3:4:5:6:7:8"));
    assert!(!is_ipv6("1:2:3:4:5:6:7:8::"));
    assert!(!is_ipv6("::1:2:3:4:5:6:7:8"));
    assert!(!is_ipv6("1:2:3:4:5:6::1.2.3.4"));
    assert!(!is_ipv6("1.2.3.4"));
}

#[test]
fn ipv6_malformed() {
    assert!(!is_ipv6(""));
    assert!(!is_ipv6(":"));
    assert!(!is_ipv6(":::"));
    assert!(!is_ipv6("1::2::3"));
    assert!(!is_ipv6(":1:2:3:4:5:6:7"));
    assert!(!is_ipv6("1:2:3:4:5:6:7:"));
    assert!(!is_ipv6("12345::1"));
    assert!(!is_ipv6("g::1"));
    assert!(!is_ipv6("1.2.3.4::"));
    assert!(!is_ipv6("1.2.3.4::1"));
    assert!(!is_ipv6("::1.2.3.4:5"));
    assert!(!is_ipv6("::1.2.3"));
    assert!(!is_ipv6("::999.1.1.1"));
    assert!(!is_ipv6("fe80::1%eth0"));
    assert!(!is_ipv6("[::1]"));
    assert!(!is_ipv6(" ::1"));
}

#[test]
fn address_is_either_family() {
    assert!(is_address("10.0.0.1"));
    assert!(is_address("::1"));
    assert!(is_address("000.000.000.000"));
    assert!(!is_address("999.999.999.999"));
    assert!(!is_address("UNKNOWN"));
    assert!(!is_address("example.org"));
    assert!(!is_address(""));
}

#[test]
fn long_garbage_is_rejected() {
    let many_colons = ":".repeat(500);
    assert!(!is_address(&many_colons));
    let many_dots = "1.".repeat(500);
    assert!(!is_address(&many_dots));
    let many_groups = "1:".repeat(40);
    assert!(!is_address(&many_groups));
}
