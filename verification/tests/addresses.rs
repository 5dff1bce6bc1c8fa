use singboard::ip::{parse_ip, IpAddress};

fn v6(g: [u16; 8]) -> Option<IpAddress> {
    Some(IpAddress::V6(g[0], g[1], g[2], g[3], g[4], g[5], g[6], g[7]))
}

#[test]
fn ipv4_dotted_quads() {
    assert_eq!(parse_ip("1.2.3.4"), Some(IpAddress::V4(1, 2, 3, 4)));
    assert_eq!(parse_ip("255.255.255.255"), Some(IpAddress::V4(255, 255, 255, 255)));
    assert_eq!(parse_ip("0.0.0.0"), Some(IpAddress::V4(0, 0, 0, 0)));
    assert_eq!(parse_ip("172.19.0.1"), Some(IpAddress::V4(172, 19, 0, 1)));
}

#[test]
fn ipv4_rejects_what_std_rejects() {
    assert_eq!(parse_ip("01.2.3.4"), None);
    assert_eq!(parse_ip("256.1.1.1"), None);
    assert_eq!(parse_ip("1.2.3"), None);
    assert_eq!(parse_ip("1.2.3.4.5"), None);
    assert_eq!(parse_ip("1.2.3.0004"), None);
    assert_eq!(parse_ip(" 1.2.3.4"), None);
    assert_eq!(parse_ip("1..3.4"), None);
    assert_eq!(parse_ip(""), None);
    assert_eq!(parse_ip("+1.2.3.4"), None);
}

#[test]
fn ipv6_forms() {
    assert_eq!(parse_ip("::"), v6([0; 8]));
    assert_eq!(parse_ip("::1"), v6([0, 0, 0, 0, 0, 0, 0, 1]));
    assert_eq!(parse_ip("1::"), v6([1, 0, 0, 0, 0, 0, 0, 0]));
    assert_eq!(parse_ip("1:2:3:4:5:6:7:8"), v6([1, 2, 3, 4, 5, 6, 7, 8]));
    assert_eq!(parse_ip("1:2:3:4:5:6:7::"), v6([1, 2, 3, 4, 5, 6, 7, 0]));
    assert_eq!(parse_ip("::2:3:4:5:6:7:8"), v6([0, 2, 3, 4, 5, 6, 7, 8]));
    assert_eq!(parse_ip("fdfe:dcba:9876::1"), v6([0xfdfe, 0xdcba, 0x9876, 0, 0, 0, 0, 1]));
    assert_eq!(parse_ip("FE80::ABCD"), v6([0xfe80, 0, 0, 0, 0, 0, 0, 0xabcd]));
    assert_eq!(parse_ip("::ffff:1.2.3.4"), v6([0, 0, 0, 0, 0, 0xffff, 0x0102, 0x0304]));
    assert_eq!(parse_ip("1:2:3:4:5:6:1.2.3.4"), v6([1, 2, 3, 4, 5, 6, 0x0102, 0x0304]));
    assert_eq!(parse_ip("0001:0:0:0:0:0:0:000f"), v6([1, 0, 0, 0, 0, 0, 0, 15]));
}

#[test]
fn ipv6_rejects_what_std_rejects() {
    for bad in [
        ":", ":::", "1:::2", "1::2::3", "12345::", "1.2.3.4::", "1:2:3:4:5:6:7:8:9",
        "1:2:3:4:5:6:7:8::", "1:2:3:4:5:6:7::8", "1:2:3:4:5:6::1.2.3.4", "::1.2.3", "1::2:",
        ":1::2", "fe80::1%eth0", "[::1]", "1:2:3:4:5:1.2.3.4", "::1.2.3.4:5", "g::",
    ] {
        assert_eq!(parse_ip(bad), None, "{bad}");
    }
}

#[test]
fn ipv6_mixed_case_and_leading_zeros() {
    assert_eq!(parse_ip("ab:CD::eF"), v6([0xab, 0xcd, 0, 0, 0, 0, 0, 0xef]));
    assert_eq!(parse_ip("0000::"), v6([0; 8]));
    assert_eq!(parse_ip("00000::"), None);
    assert_eq!(parse_ip("::0.0.0.0"), v6([0; 8]));
    assert_eq!(parse_ip("2001:db8::8a2e:370:7334"), v6([0x2001, 0xdb8, 0, 0, 0, 0x8a2e, 0x370, 0x7334]));
    assert_eq!(parse_ip("1.2.3.4:53"), None);
}

#[test]
fn display_text_reads_back() {
    for (a, b, c, d) in [(0u8, 0u8, 0u8, 0u8), (10, 0, 255, 7), (192, 168, 1, 100), (255, 9, 99, 100)] {
        let text = format!("{}.{}.{}.{}", a, b, c, d);
        assert_eq!(parse_ip(&text), Some(IpAddress::V4(a, b, c, d)), "{text}");
    }
    assert_eq!(parse_ip("10.00.0.1"), None);
}
