use websocket_proxy::addr::{
    extract_addr, header_tail_of, parse_ip_addr, parse_ipv4_addr, parse_ipv6_addr, IpAddress,
};

#[test]
fn test_header_addr() {
    let fb = IpAddress::V4(127, 0, 0, 1);

    let test = |header: &str, expected: IpAddress| {
        let result = extract_addr(header, fb);
        assert_eq!(result, expected);
    };

    test("129.1.1.1", IpAddress::V4(129, 1, 1, 1));
    test("129.1.1.1,130.1.1.1", IpAddress::V4(130, 1, 1, 1));
    test("129.1.1.1  ,  130.1.1.1   ", IpAddress::V4(130, 1, 1, 1));
    test("nonsense", fb);
    test("400.0.0.1", fb);
    test("120.0.0.1.0", fb);
}

#[test]
fn empty_header_falls_back() {
    let fb = IpAddress::V4(10, 0, 0, 1);
    assert_eq!(extract_addr("", fb), fb);
    assert_eq!(extract_addr("1.2.3.4,", fb), fb);
    assert_eq!(extract_addr("   ", fb), fb);
}

#[test]
fn tail_is_last_trimmed_element() {
    assert_eq!(header_tail_of("a, b ,\tc "), "c");
    assert_eq!(header_tail_of("  x  "), "x");
    assert_eq!(header_tail_of("x,"), "");
}

#[test]
fn tail_of_tail_is_tail() {
    for h in ["129.1.1.1", " 1.2.3.4 ", "a , 5.6.7.8  ", "nonsense"] {
        let once = header_tail_of(h);
        let twice = header_tail_of(once);
        assert_eq!(once, twice);
        let fb = IpAddress::V4(127, 0, 0, 1);
        assert_eq!(extract_addr(once, fb), extract_addr(h, fb));
    }
}

#[test]
fn octet_rules() {
    assert_eq!(parse_ipv4_addr("0.0.0.0"), Some(IpAddress::V4(0, 0, 0, 0)));
    assert_eq!(parse_ipv4_addr("255.255.255.255"), Some(IpAddress::V4(255, 255, 255, 255)));
    assert_eq!(parse_ipv4_addr("256.1.1.1"), None);
    assert_eq!(parse_ipv4_addr("01.1.1.1"), None);
    assert_eq!(parse_ipv4_addr("1.1.1"), None);
    assert_eq!(parse_ipv4_addr("1..1.1"), None);
    assert_eq!(parse_ipv4_addr("1.1.1.1 "), None);
    assert_eq!(parse_ipv4_addr("1234.1.1.1"), None);
    assert_eq!(parse_ipv4_addr("a.b.c.d"), None);
}

#[test]
fn ipv6_forms() {
    let v6 = |g: [u16; 8]| IpAddress::V6(g[0], g[1], g[2], g[3], g[4], g[5], g[6], g[7]);
    assert_eq!(parse_ipv6_addr("::"), Some(v6([0; 8])));
    assert_eq!(parse_ipv6_addr("::1"), Some(v6([0, 0, 0, 0, 0, 0, 0, 1])));
    assert_eq!(parse_ipv6_addr("1::"), Some(v6([1, 0, 0, 0, 0, 0, 0, 0])));
    assert_eq!(
        parse_ipv6_addr("2001:DB8:0:0:8:800:200C:417a"),
        Some(v6([0x2001, 0xdb8, 0, 0, 8, 0x800, 0x200c, 0x417a]))
    );
    assert_eq!(
        parse_ipv6_addr("fe80::1:2"),
        Some(v6([0xfe80, 0, 0, 0, 0, 0, 1, 2]))
    );
    assert_eq!(
        parse_ipv6_addr("::ffff:129.1.1.1"),
        Some(v6([0, 0, 0, 0, 0, 0xffff, 0x8101, 0x0101]))
    );
    assert_eq!(
        parse_ipv6_addr("1:2:3:4:5:6:7::"),
        Some(v6([1, 2, 3, 4, 5, 6, 7, 0]))
    );
    assert_eq!(parse_ipv6_addr("1:2:3:4:5:6:7:8::"), None);
    assert_eq!(parse_ipv6_addr("1::2::3"), None);
    assert_eq!(parse_ipv6_addr(":::"), None);
    assert_eq!(parse_ipv6_addr("12345::"), None);
    assert_eq!(parse_ipv6_addr("1:2:3:4:5:6:7"), None);
    assert_eq!(parse_ipv6_addr("1.2.3.4::"), None);
    assert_eq!(parse_ipv6_addr("::1.2.3.4:5"), None);
    assert_eq!(parse_ipv6_addr(""), None);
    assert_eq!(parse_ip_addr("10.0.0.1"), Some(IpAddress::V4(10, 0, 0, 1)));
    assert_eq!(parse_ip_addr("::2"), Some(v6([0, 0, 0, 0, 0, 0, 0, 2])));
}

#[test]
fn ipv6_header_tail() {
    let fb = IpAddress::V4(127, 0, 0, 1);
    assert_eq!(
        extract_addr("129.1.1.1, 2001:db8::7 ", fb),
        IpAddress::V6(0x2001, 0xdb8, 0, 0, 0, 0, 0, 7)
    );
    assert_eq!(extract_addr("2001:db8::7, bad::x", fb), fb);
}
