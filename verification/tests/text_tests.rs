use nmm_cli::text::{escape_url_spaces, i32_to_decimal, line_end, str_contains, trim_str};

#[test]
fn decimal_rendering() {
    assert_eq!(i32_to_decimal(0), "0");
    assert_eq!(i32_to_decimal(7), "7");
    assert_eq!(i32_to_decimal(10), "10");
    assert_eq!(i32_to_decimal(7364), "7364");
    assert_eq!(i32_to_decimal(-42), "-42");
    assert_eq!(i32_to_decimal(i32::MAX), "2147483647");
    assert_eq!(i32_to_decimal(i32::MIN), "-2147483648");
    for n in [-1000, -1, 1, 99, 100, 123456] {
        assert_eq!(i32_to_decimal(n), n.to_string());
    }
}

#[test]
fn decimal_rendering_distinct_ids() {
    assert_ne!(i32_to_decimal(12), i32_to_decimal(-12));
    assert_ne!(i32_to_decimal(1), i32_to_decimal(10));
}

#[test]
fn substring_search() {
    assert!(str_contains("Nexus CDN", "CDN"));
    assert!(str_contains("Paris", "Paris"));
    assert!(str_contains("abc", ""));
    assert!(str_contains("", ""));
    assert!(!str_contains("ab", "abc"));
    assert!(!str_contains("Amsterdam", "Paris"));
    assert!(str_contains("zürich-ä", "ich-ä"));
}

#[test]
fn url_space_escaping() {
    assert_eq!(escape_url_spaces("a b  c"), "a%20b%20%20c");
    assert_eq!(escape_url_spaces("no-spaces"), "no-spaces");
    assert_eq!(escape_url_spaces(""), "");
    assert_eq!(escape_url_spaces(" "), "%20");
    let escaped = escape_url_spaces("https://x/my file (1).zip");
    assert!(!escaped.contains(' '));
    assert_eq!(escaped, "https://x/my file (1).zip".replace(" ", "%20"));
}

#[test]
fn whitespace_trimming() {
    assert_eq!(trim_str("  \t x y \n "), "x y");
    assert_eq!(trim_str("\u{3000}a\u{a0}"), "a");
    assert_eq!(trim_str("   "), "");
    assert_eq!(trim_str(""), "");
    assert_eq!(trim_str("\u{2003}mid dle\u{85}"), "mid dle");
    for s in ["\n\nab\r\n", "\u{200b}x", " a\u{1680}"] {
        assert_eq!(trim_str(s), s.trim());
    }
}

#[test]
fn line_ends() {
    assert_eq!(line_end("ab\ncd", 0), 2);
    assert_eq!(line_end("ab\ncd", 3), 5);
    assert_eq!(line_end("abc", 0), 3);
    assert_eq!(line_end("", 0), 0);
}
