//! Text helpers.

use compactor::text::{
    chars_of, contains, decimal_text, is_white_space, join, parse_number, push_hex, push_signed,
    rsplit_once, same, same_ignoring_case, split_once, starts_with, strip_prefix, strip_suffix,
    to_lower, trim,
};

#[test]
fn numbers_are_written_and_read_back() {
    for n in [0u64, 7, 10, 99, 100, 65535, 1 << 40, u64::MAX] {
        assert_eq!(decimal_text(n), n.to_string());
        assert_eq!(parse_number(&decimal_text(n), u64::MAX), Some(n));
    }
    let mut s = String::from("x");
    push_hex(&mut s, 0xdead_beef, 8);
    push_hex(&mut s, 0x1f, 4);
    assert_eq!(s, "xdeadbeef001f");
    let mut s = String::new();
    push_signed(&mut s, -1);
    push_signed(&mut s, 22);
    push_signed(&mut s, i32::MIN);
    assert_eq!(s, "-122-2147483648");
}

#[test]
fn numbers_that_are_none() {
    for s in ["", "+", "-", "-1", "1x", " 1", "1 ", "++1", "٣", "0x10"] {
        assert_eq!(parse_number(s, u64::MAX), s.parse::<u64>().ok(), "{s:?}");
        assert_eq!(parse_number(s, u64::MAX), None);
    }
    assert_eq!(parse_number("+5", 9), Some(5));
    assert_eq!(parse_number("0009", 9), Some(9));
    assert_eq!(parse_number("10", 9), None);
    assert_eq!(parse_number("18446744073709551616", u64::MAX), None);
    assert_eq!(parse_number("99999999999999999999999999999999999999999999", u64::MAX), None);
}

#[test]
fn white_space() {
    for c in (0..=0x10ffffu32).filter_map(char::from_u32) {
        assert_eq!(is_white_space(c), c.is_whitespace(), "{c:?}");
    }
    for s in ["", " ", "a", " a b \t", "\u{a0}x\u{3000}", "\r\n\n", "é "] {
        assert_eq!(trim(s), s.trim());
    }
}

#[test]
fn case_is_folded_for_ascii_only() {
    for s in ["", "ABCxyz[\\]@", "É-Z", "K\u{212a}"] {
        assert_eq!(to_lower(s), s.to_ascii_lowercase());
    }
    assert!(same_ignoring_case("Content-LENGTH", "content-length"));
    assert!(!same_ignoring_case("É", "é"));
    assert!(!same_ignoring_case("k", "\u{212a}"));
}

#[test]
fn comparison() {
    assert!(same("", ""));
    assert!(same("déjà", "déjà"));
    assert!(!same("a", "b"));
    assert!(!same("a", "ab"));
    assert!(!same("ab", "a"));
}

#[test]
fn parts_of_texts() {
    let pair = |a: &str, b: &str| Some((a.to_string(), b.to_string()));
    assert_eq!(split_once("a=b=c", '='), pair("a", "b=c"));
    assert_eq!(split_once("abc", '='), None);
    assert_eq!(split_once("=", '='), pair("", ""));
    assert_eq!(rsplit_once("a.b.c", '.'), pair("a.b", "c"));
    assert_eq!(rsplit_once("abc", '.'), None);
    assert_eq!(rsplit_once(".", '.'), pair("", ""));
    assert_eq!(strip_prefix("out_time=1", "out_"), Some("time=1".to_string()));
    assert_eq!(strip_prefix("out", "out_"), None);
    assert_eq!(strip_suffix("a.cpt", ".cpt"), Some("a".to_string()));
    assert_eq!(strip_suffix(".cpt", ".cpt"), Some(String::new()));
    assert_eq!(strip_suffix("cpt", ".cpt"), None);
    assert!(starts_with("http://x", "http://"));
    assert!(!starts_with("http:/", "http://"));
    assert!(contains("xxUnsupported URLxx", "Unsupported URL"));
    assert!(contains("abc", ""));
    assert!(contains("", ""));
    assert!(!contains("ab", "abc"));
    assert!(contains("aab", "ab"));
    assert_eq!(chars_of("aé€"), vec!['a', 'é', '€']);
}

#[test]
fn joining() {
    let v = |list: &[&str]| list.iter().map(|s| s.to_string()).collect::<Vec<String>>();
    for list in [v(&[]), v(&["a"]), v(&["a", "b", "c"]), v(&["", ""])] {
        assert_eq!(join(&list, "; "), list.join("; "));
    }
}
