use proxy_gateway::text::{
    char_vec, eq_ascii_lowercase, ends_with_str, parse_u16_str, split_once_str, starts_with_str,
    str_eq, trim_matches_char, trim_str,
};

#[test]
fn trim_removes_unicode_white_space_at_both_ends() {
    assert_eq!(trim_str("  \t key \n"), "key");
    assert_eq!(trim_str("\u{3000}x y\u{2009}"), "x y");
    assert_eq!(trim_str("   "), "");
    assert_eq!(trim_str(""), "");
    assert_eq!(trim_str("a"), "a");
}

#[test]
fn trim_twice_is_trim_once() {
    for s in ["  a b  ", "\u{85}x\u{a0}", "plain", " ", "\t\n\r"] {
        assert_eq!(trim_str(trim_str(s)), trim_str(s));
        assert_eq!(trim_str(s), s.trim());
    }
}

#[test]
fn split_once_splits_at_the_first_separator() {
    assert_eq!(split_once_str("a:b:c", ':'), Some(("a", "b:c")));
    assert_eq!(split_once_str(":x", ':'), Some(("", "x")));
    assert_eq!(split_once_str("x:", ':'), Some(("x", "")));
    assert_eq!(split_once_str("none", ':'), None);
}

#[test]
fn split_once_rejoins_to_the_text() {
    for s in ["host:80", "a:b:c", "::", "x"] {
        if let Some((a, b)) = split_once_str(s, ':') {
            assert_eq!(format!("{}:{}", a, b), s);
            assert!(!a.contains(':'));
        } else {
            assert!(!s.contains(':'));
        }
    }
}

#[test]
fn parse_u16_accepts_decimal_ports_only() {
    assert_eq!(parse_u16_str("80"), Some(80));
    assert_eq!(parse_u16_str("+443"), Some(443));
    assert_eq!(parse_u16_str("0080"), Some(80));
    assert_eq!(parse_u16_str("65535"), Some(65535));
    assert_eq!(parse_u16_str("65536"), None);
    assert_eq!(parse_u16_str("99999999999"), None);
    assert_eq!(parse_u16_str(""), None);
    assert_eq!(parse_u16_str("+"), None);
    assert_eq!(parse_u16_str("-1"), None);
    assert_eq!(parse_u16_str("8o"), None);
    assert_eq!(parse_u16_str(" 80"), None);
    for s in ["0", "1", "+7", "12345", "65535", "65536", "-0", "++1", "1a"] {
        assert_eq!(parse_u16_str(s), s.parse::<u16>().ok());
    }
}

#[test]
fn ascii_case_folding_and_prefixes() {
    assert!(eq_ascii_lowercase("HiGh", "high"));
    assert!(!eq_ascii_lowercase("HIGHER", "high"));
    assert!(starts_with_str("*.example.com", "*."));
    assert!(!starts_with_str("*", "*."));
    assert!(ends_with_str("a.example.com", ".example.com"));
    assert!(!ends_with_str("example.com", ".example.com"));
    assert!(str_eq("same", "same"));
    assert!(!str_eq("same", "Same"));
    assert_eq!(char_vec("héllo").len(), 5);
}

#[test]
fn trim_matches_strips_one_character() {
    assert_eq!(trim_matches_char("//example.com/", '/'), "example.com");
    assert_eq!(trim_matches_char("a/b", '/'), "a/b");
    assert_eq!(trim_matches_char("///", '/'), "");
    assert_eq!(trim_matches_char("", '/'), "");
}
