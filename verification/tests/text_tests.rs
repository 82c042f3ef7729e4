use tinker::text::{
    char_to_digit, chars_of, digit_to_char, matches_at, parse_i32_chars, push_chars, push_decimal,
    push_signed_decimal, push_str, string_of,
};

fn chars(s: &str) -> Vec<char> {
    s.chars().collect()
}

fn decimal_of(n: u64) -> String {
    let mut out = Vec::new();
    push_decimal(&mut out, n);
    string_of(&out)
}

fn signed_of(n: i64) -> String {
    let mut out = Vec::new();
    push_signed_decimal(&mut out, n);
    string_of(&out)
}

#[test]
fn strings_and_characters_convert_both_ways() {
    assert_eq!(chars_of("héllo ✓"), chars("héllo ✓"));
    assert_eq!(string_of(&chars("héllo ✓")), "héllo ✓");
    assert_eq!(chars_of(""), Vec::<char>::new());
}

#[test]
fn numerals_have_no_leading_zeros() {
    assert_eq!(decimal_of(0), "0");
    assert_eq!(decimal_of(7), "7");
    assert_eq!(decimal_of(10), "10");
    assert_eq!(decimal_of(128), "128");
    assert_eq!(decimal_of(u64::MAX), "18446744073709551615");
}

#[test]
fn signed_numerals_carry_a_minus() {
    assert_eq!(signed_of(0), "0");
    assert_eq!(signed_of(-1), "-1");
    assert_eq!(signed_of(1720756800), "1720756800");
    assert_eq!(signed_of(i64::MIN), "-9223372036854775808");
    assert_eq!(signed_of(i64::MAX), "9223372036854775807");
}

#[test]
fn pushing_appends() {
    let mut out = chars("ab");
    push_str(&mut out, "cd");
    push_chars(&mut out, &chars("ef"));
    push_decimal(&mut out, 42);
    assert_eq!(string_of(&out), "abcdef42");
}

#[test]
fn digits_and_characters_correspond() {
    for d in 0u8..10 {
        let c = digit_to_char(d);
        assert_eq!(c, (b'0' + d) as char);
        assert_eq!(char_to_digit(c), Some(d));
    }
    assert_eq!(char_to_digit('a'), None);
    assert_eq!(char_to_digit('/'), None);
    assert_eq!(char_to_digit(':'), None);
    assert_eq!(char_to_digit('٣'), None);
}

#[test]
fn integers_parse_as_the_standard_library_parses_them() {
    for text in [
        "0", "128", "+128", "-128", "0000128", "-0", "+0", "2147483647", "2147483648",
        "-2147483648", "-2147483649", "99999999999999999999", "-99999999999999999999",
        "000000000000000000002147483647", "", "+", "-", "12a", "a12", " 12", "12 ", "1_000",
        "--1", "+-1", "١٢", "1.0",
    ] {
        assert_eq!(parse_i32_chars(&chars(text)), text.parse::<i32>().ok(), "{:?}", text);
    }
}

#[test]
fn patterns_match_at_a_position() {
    let s = chars("callback([])");
    assert!(matches_at(&s, 0, &chars("callback(")));
    assert!(matches_at(&s, 9, &chars("[]")));
    assert!(matches_at(&s, 11, &chars(")")));
    assert!(matches_at(&s, 12, &chars("")));
    assert!(!matches_at(&s, 1, &chars("callback(")));
    assert!(!matches_at(&s, 11, &chars("))")));
}
