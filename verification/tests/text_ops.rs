use singboard::text::{concat_text, lines_chars, parse_unsigned_range, text_eq, trim};

#[test]
fn trim_removes_unicode_white_space() {
    assert_eq!(trim("  a b \t\n"), "a b");
    assert_eq!(trim("\u{3000}x\u{a0}\u{2009}"), "x");
    assert_eq!(trim("\u{200b}x"), "\u{200b}x");
    assert_eq!(trim("   "), "");
    assert_eq!(trim(""), "");
}

#[test]
fn lines_like_str_lines() {
    let as_strings = |s: &str| -> Vec<String> { lines_chars(s).into_iter().map(|l| l.into_iter().collect()).collect() };
    for s in ["a\r\nb\r", "a\n\nb\n", "", "\n", "x", "\r\n\r\n", "a\rb"] {
        let expected: Vec<String> = s.lines().map(String::from).collect();
        assert_eq!(as_strings(s), expected, "{s:?}");
    }
}

#[test]
fn equality_and_concatenation() {
    assert!(text_eq("tun", "tun"));
    assert!(!text_eq("tun", "Tun"));
    assert!(!text_eq("tun", "tun "));
    assert_eq!(concat_text("a", "bc"), "abc");
}

#[test]
fn trim_agrees_with_std_on_every_char_up_to_u3100() {
    for u in 0u32..0x3100 {
        if let Some(c) = char::from_u32(u) {
            let s = format!("{c}x{c}");
            assert_eq!(trim(&s), s.trim(), "{u:#x}");
        }
    }
}

#[test]
fn unsigned_parsing_agrees_with_std() {
    for s in ["0", "53", "+53", "0053", "65535", "65536", "", "+", "-1", "++1", "1+", " 1", "1 ", "99999999999999999999", "+0", "00000000000000000000000007"] {
        let v: Vec<char> = s.chars().collect();
        let ours16 = parse_unsigned_range(&v, 0, v.len(), 65535).map(|x| x as u16);
        assert_eq!(ours16, s.parse::<u16>().ok(), "{s}");
        let ours32 = parse_unsigned_range(&v, 0, v.len(), u32::MAX);
        assert_eq!(ours32, s.parse::<u32>().ok(), "{s}");
    }
}
