use consul_cluster::text::{
    blank, comes_before, drop_leading_slashes, drop_trailing_slashes, has_prefix, parse_u64,
    push_decimal, same_text, trim_spaces,
};

fn decimal(n: u64) -> String {
    let mut out = String::from("n=");
    push_decimal(&mut out, n);
    out
}

#[test]
fn decimals_are_written() {
    assert_eq!(decimal(0), "n=0");
    assert_eq!(decimal(9), "n=9");
    assert_eq!(decimal(10), "n=10");
    assert_eq!(decimal(8500), "n=8500");
    assert_eq!(decimal(1234567890), "n=1234567890");
    assert_eq!(decimal(u64::MAX), "n=18446744073709551615");
}

#[test]
fn numbers_are_read() {
    for text in [
        "", "+", "++1", "-1", "0", "+0", "007", "12", "1x", "x1", " 1", "1 ", "\u{0661}",
        "18446744073709551615", "18446744073709551616", "99999999999999999999",
        "00000000000000000000000000001", "184467440737095516150",
    ] {
        assert_eq!(parse_u64(text), text.parse::<u64>().ok(), "{text:?}");
    }
}

#[test]
fn numbers_read_back_from_their_decimals() {
    for n in [0, 1, 9, 10, 99, 100, 12345, u64::MAX - 1, u64::MAX] {
        let mut out = String::new();
        push_decimal(&mut out, n);
        assert_eq!(parse_u64(&out), Some(n));
    }
}

#[test]
fn white_space_is_trimmed_as_in_unicode() {
    for code in 0..=0x3100u32 {
        if let Some(c) = char::from_u32(code) {
            let text = format!("{c}a{c}");
            assert_eq!(trim_spaces(&text), text.trim(), "{code:#x}");
            assert_eq!(blank(&c.to_string()), c.to_string().trim().is_empty(), "{code:#x}");
        }
    }
    assert_eq!(trim_spaces(" \n true \t"), "true");
    assert_eq!(trim_spaces(""), "");
    assert!(blank(""));
    assert!(blank(" \u{a0} "));
    assert!(!blank(" . "));
}

#[test]
fn slashes_are_dropped() {
    assert_eq!(drop_leading_slashes("//a/b/"), "a/b/");
    assert_eq!(drop_leading_slashes("///"), "");
    assert_eq!(drop_leading_slashes("a"), "a");
    assert_eq!(drop_trailing_slashes("http://x:8500//"), "http://x:8500");
    assert_eq!(drop_trailing_slashes("///"), "");
    assert_eq!(drop_trailing_slashes("a"), "a");
}

#[test]
fn prefixes_and_equality() {
    assert!(has_prefix("http://x", "http://"));
    assert!(!has_prefix("https://x", "http://"));
    assert!(!has_prefix("htt", "http://"));
    assert!(has_prefix("x", ""));
    assert!(same_text("true", "true"));
    assert!(!same_text("true", "true "));
    assert!(!same_text("trua", "true"));
}

#[test]
fn strings_are_ordered_as_in_the_standard_library() {
    let all = ["", "a", "ab", "abc", "b", "B", "\u{e9}", "z\u{10ffff}", "\u{ffff}", "\u{10000}"];
    for a in all {
        for b in all {
            assert_eq!(comes_before(a, b), a < b, "{a:?} {b:?}");
        }
    }
}
