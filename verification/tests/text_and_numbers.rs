use trading_backend::money::{normalize, to_scaled, DecimalParts};
use trading_backend::numbers::{format_i64, parse_i64};
use trading_backend::text::{
    ascii_lowercase, eq_ignore_ascii_case, key_text, parse_bool, sort_by_key, split, str_le,
    trim,
};

#[test]
fn trimming_uses_unicode_whitespace() {
    assert_eq!(trim("  a b \t\n"), "a b");
    assert_eq!(trim("\u{3000}x\u{a0}"), "x");
    assert_eq!(trim("   "), "");
    assert_eq!(trim(""), "");
}

#[test]
fn whitespace_is_what_std_calls_whitespace() {
    for code in 0u32..=0x10FFFF {
        if let Some(c) = char::from_u32(code) {
            let padded = format!("{c}x{c}");
            assert_eq!(trim(&padded), padded.trim(), "U+{code:04X}");
        }
    }
}

#[test]
fn splitting_matches_str_split() {
    for (s, sep) in [("a::b::c", "::"), ("::", "::"), ("", ","), (":::", "::"), ("a,,b,", ","), ("x", "::")] {
        let expected: Vec<String> = s.split(sep).map(str::to_string).collect();
        assert_eq!(split(s, sep), expected, "{s:?} by {sep:?}");
    }
}

#[test]
fn small_text_helpers() {
    assert_eq!(parse_bool("true"), Some(true));
    assert_eq!(parse_bool("false"), Some(false));
    assert_eq!(parse_bool("True"), None);
    assert!(eq_ignore_ascii_case("TrUe", "true"));
    assert!(!eq_ignore_ascii_case("tru", "true"));
    assert_eq!(ascii_lowercase("AbC-É"), "abc-É");
    assert!(key_text("cohort_1-a"));
    assert!(!key_text("Cohort"));
    assert!(str_le("abc", "abd"));
    assert!(str_le("ab", "abc"));
    assert!(!str_le("b", "abc"));
    assert!(str_le("", ""));
}

#[test]
fn sorting_by_key() {
    let items = vec![
        ("pear".to_string(), 1),
        ("apple".to_string(), 2),
        ("fig".to_string(), 3),
        ("apple pie".to_string(), 4),
    ];
    let sorted = sort_by_key(items);
    let keys: Vec<&str> = sorted.iter().map(|(k, _)| k.as_str()).collect();
    assert_eq!(keys, vec!["apple", "apple pie", "fig", "pear"]);
    assert_eq!(sorted.iter().map(|(_, v)| *v).sum::<i32>(), 10);
}

#[test]
fn integers_as_text() {
    assert_eq!(parse_i64("42"), Some(42));
    assert_eq!(parse_i64("+7"), Some(7));
    assert_eq!(parse_i64("-9223372036854775808"), Some(i64::MIN));
    assert_eq!(parse_i64("9223372036854775807"), Some(i64::MAX));
    assert_eq!(parse_i64("9223372036854775808"), None);
    assert_eq!(parse_i64("99999999999999999999999"), None);
    assert_eq!(parse_i64(""), None);
    assert_eq!(parse_i64("-"), None);
    assert_eq!(parse_i64("1x"), None);
    assert_eq!(parse_i64(" 1"), None);
    for n in [0i64, 5, -5, 10, 1234567890, i64::MIN, i64::MAX] {
        assert_eq!(format_i64(n), n.to_string());
        assert_eq!(parse_i64(&format_i64(n)), Some(n));
    }
}

#[test]
fn decimals() {
    let n = normalize(DecimalParts { mantissa: 150100, scale: 4 });
    assert_eq!((n.mantissa, n.scale), (1501, 2));
    let z = normalize(DecimalParts { mantissa: 0, scale: 5 });
    assert_eq!((z.mantissa, z.scale), (0, 0));
    assert_eq!(to_scaled(DecimalParts { mantissa: 15, scale: 1 }, 2), 150);
    assert_eq!(to_scaled(DecimalParts { mantissa: -3, scale: 0 }, 4), -30_000);
}
