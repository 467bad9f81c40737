use ssd_tool::text::{parse_i32_str, parse_u32_str, parse_u8_str, trim_str};

#[test]
fn numerals_parse_like_std() {
    assert_eq!(parse_i32_str("0"), Some(0));
    assert_eq!(parse_i32_str("-1"), Some(-1));
    assert_eq!(parse_i32_str("+42"), Some(42));
    assert_eq!(parse_i32_str("2147483647"), Some(2147483647));
    assert_eq!(parse_i32_str("-2147483648"), Some(-2147483648));
    assert_eq!(parse_i32_str("2147483648"), None);
    assert_eq!(parse_i32_str(""), None);
    assert_eq!(parse_i32_str("-"), None);
    assert_eq!(parse_i32_str("1 2"), None);
    assert_eq!(parse_i32_str("12a"), None);
    assert_eq!(parse_u32_str("4294967295"), Some(4294967295));
    assert_eq!(parse_u32_str("4294967296"), None);
    assert_eq!(parse_u32_str("-0"), None);
    assert_eq!(parse_u32_str("+7"), Some(7));
    assert_eq!(parse_u8_str("255"), Some(255));
    assert_eq!(parse_u8_str("256"), None);
    assert_eq!(parse_u8_str("007"), Some(7));
}

#[test]
fn trim_removes_edges_only() {
    assert_eq!(trim_str("  abc  "), "abc");
    assert_eq!(trim_str("\t a b \n"), "a b");
    assert_eq!(trim_str(""), "");
    assert_eq!(trim_str("   "), "");
    assert_eq!(trim_str("x"), "x");
}
