use cmdnavi::text::{
    chars_of, is_blank_str, parse_usize_str, push_decimal, str_eq, str_lt, strip_line_end_str,
    trim_str,
};

#[test]
fn trim_removes_unicode_whitespace_at_both_ends() {
    assert_eq!(trim_str("  a b \t"), "a b");
    assert_eq!(trim_str("\u{3000}x\u{a0}\u{2028}"), "x");
    assert_eq!(trim_str("\n\r\t "), "");
    assert_eq!(trim_str(""), "");
    assert_eq!(trim_str("x\u{200b}"), "x\u{200b}");
    for s in ["  a b \t", "\u{85}y\u{205f}", "plain", " \u{1680} "] {
        assert_eq!(trim_str(s), s.trim());
    }
}

#[test]
fn blank_means_only_whitespace() {
    assert!(is_blank_str(""));
    assert!(is_blank_str(" \t\r\n\u{2003}"));
    assert!(!is_blank_str(" x "));
    assert!(!is_blank_str("\u{200b}"));
}

#[test]
fn parse_usize_follows_std() {
    for s in ["0", "7", "+5", "007", "18446744073709551615", "", "+", "-", "-1", "1 ", "12a", "18446744073709551616", "++1"] {
        assert_eq!(parse_usize_str(s), s.parse::<usize>().ok(), "{s:?}");
    }
}

#[test]
fn decimal_notation() {
    for n in [0usize, 9, 10, 1234, usize::MAX] {
        let mut s = String::from("#");
        push_decimal(&mut s, n);
        assert_eq!(s, format!("#{n}"));
    }
}

#[test]
fn line_endings_are_stripped_at_the_end_only() {
    assert_eq!(strip_line_end_str("abc\r\n\n"), "abc");
    assert_eq!(strip_line_end_str("a\rb\r"), "a\rb");
    assert_eq!(strip_line_end_str("\n"), "");
}

#[test]
fn names_compare_like_strings() {
    let names = ["", "a", "ab", "b", "docker", "network", "Network", "net-work", "ネット"];
    for a in names {
        for b in names {
            assert_eq!(str_lt(a, b), a < b, "{a:?} {b:?}");
            assert_eq!(str_eq(a, b), a == b, "{a:?} {b:?}");
        }
    }
    assert_eq!(chars_of("aネ"), vec!['a', 'ネ']);
}
