use preers::ip::{parse_host_ip, parse_ipv4, parse_ipv6_host, IpLiteral};

fn parse(s: &str) -> Option<(u8, u8, u8, u8)> {
    parse_ipv4(&s.as_bytes().to_vec())
}

fn parse6(s: &str) -> Option<([u16; 8], u32)> {
    parse_ipv6_host(&s.as_bytes().to_vec())
        .map(|(g, scope)| ([g.s0, g.s1, g.s2, g.s3, g.s4, g.s5, g.s6, g.s7], scope))
}

#[test]
fn loopback_parses() {
    assert_eq!(parse("127.0.0.1"), Some((127, 0, 0, 1)));
}

#[test]
fn all_octet_widths_parse() {
    assert_eq!(parse("1.23.123.0"), Some((1, 23, 123, 0)));
    assert_eq!(parse("255.255.255.255"), Some((255, 255, 255, 255)));
    assert_eq!(parse("0.0.0.0"), Some((0, 0, 0, 0)));
}

#[test]
fn out_of_range_octet_is_rejected() {
    assert_eq!(parse("256.1.1.1"), None);
    assert_eq!(parse("1.1.1.999"), None);
}

#[test]
fn leading_zeros_are_rejected() {
    assert_eq!(parse("01.2.3.4"), None);
    assert_eq!(parse("1.2.3.007"), None);
}

#[test]
fn wrong_shape_is_rejected() {
    assert_eq!(parse(""), None);
    assert_eq!(parse("1.2.3"), None);
    assert_eq!(parse("1.2.3.4.5"), None);
    assert_eq!(parse("1.2.3.4 "), None);
    assert_eq!(parse("1..2.3"), None);
    assert_eq!(parse(".1.2.3"), None);
    assert_eq!(parse("1.2.3."), None);
}

#[test]
fn host_names_are_rejected() {
    assert_eq!(parse("localhost"), None);
    assert_eq!(parse("example.com"), None);
}

#[test]
fn four_digit_runs_are_rejected() {
    assert_eq!(parse("1234.1.1.1"), None);
}

#[test]
fn bracketed_ipv6_literals_parse() {
    assert_eq!(parse6("[::1]"), Some(([0, 0, 0, 0, 0, 0, 0, 1], 0)));
    assert_eq!(parse6("[::]"), Some(([0; 8], 0)));
    assert_eq!(parse6("[1:2:3:4:5:6:7:8]"), Some(([1, 2, 3, 4, 5, 6, 7, 8], 0)));
    assert_eq!(
        parse6("[2001:db8::8:800:200c:417a]"),
        Some(([0x2001, 0xdb8, 0, 0, 8, 0x800, 0x200c, 0x417a], 0))
    );
    assert_eq!(parse6("[1::8]"), Some(([1, 0, 0, 0, 0, 0, 0, 8], 0)));
    assert_eq!(parse6("[0001::]"), Some(([1, 0, 0, 0, 0, 0, 0, 0], 0)));
    assert_eq!(parse6("[1:2:3:4:5:6:7::]"), Some(([1, 2, 3, 4, 5, 6, 7, 0], 0)));
    assert_eq!(parse6("[ABCD::ef01]"), Some(([0xabcd, 0, 0, 0, 0, 0, 0, 0xef01], 0)));
}

#[test]
fn embedded_dotted_quads_parse() {
    assert_eq!(
        parse6("[::ffff:192.168.0.1]"),
        Some(([0, 0, 0, 0, 0, 0xffff, 0xc0a8, 0x0001], 0))
    );
    assert_eq!(
        parse6("[1:2:3:4:5:6:7.8.9.10]"),
        Some(([1, 2, 3, 4, 5, 6, 0x0708, 0x090a], 0))
    );
}

#[test]
fn scope_identifiers_parse() {
    assert_eq!(parse6("[fe80::1%42]"), Some(([0xfe80, 0, 0, 0, 0, 0, 0, 1], 42)));
    assert_eq!(parse6("[fe80::1%0042]"), Some(([0xfe80, 0, 0, 0, 0, 0, 0, 1], 42)));
    assert_eq!(parse6("[fe80::1%]"), None);
    assert_eq!(parse6("[fe80::1%4294967296]"), None);
}

#[test]
fn malformed_ipv6_hosts_are_rejected() {
    assert_eq!(parse6("::1"), None);
    assert_eq!(parse6("[::1]x"), None);
    assert_eq!(parse6("[1:2:3:4:5:6:7]"), None);
    assert_eq!(parse6("[1:2:3:4:5:6:7:8:9]"), None);
    assert_eq!(parse6("[1:2:3:4:5:6:7:8::]"), None);
    assert_eq!(parse6("[12345::]"), None);
    assert_eq!(parse6("[1::2::3]"), None);
    assert_eq!(parse6("[:::1]"), None);
    assert_eq!(parse6("[::1.2.3]"), None);
    assert_eq!(parse6("[1.2.3.4]"), None);
    assert_eq!(parse6("[]"), None);
}

#[test]
fn host_ip_accepts_either_family() {
    assert_eq!(
        parse_host_ip(&b"127.0.0.1".to_vec()),
        Some(IpLiteral::V4(127, 0, 0, 1))
    );
    assert!(matches!(
        parse_host_ip(&b"[::1]".to_vec()),
        Some(IpLiteral::V6(_, 0))
    ));
    assert_eq!(parse_host_ip(&b"localhost".to_vec()), None);
}
