use script_object::names::{fold, index_name, names_match, parse_index};

#[test]
fn parse_index_reads_plain_digits() {
    assert_eq!(parse_index("0"), Some(0));
    assert_eq!(parse_index("7"), Some(7));
    assert_eq!(parse_index("12"), Some(12));
    assert_eq!(parse_index("4294967295"), Some(4294967295));
}

#[test]
fn parse_index_takes_leading_zeros_and_no_sign() {
    assert_eq!(parse_index("05"), Some(5));
    assert_eq!(parse_index("007"), Some(7));
    assert_eq!(parse_index("00"), Some(0));
    assert_eq!(parse_index("+5"), None);
    assert_eq!(parse_index("+0"), None);
    assert_eq!(parse_index("+007"), None);
    assert_eq!(parse_index("++5"), None);
}

#[test]
fn parse_index_refuses_what_is_no_index() {
    assert_eq!(parse_index(""), None);
    assert_eq!(parse_index("+"), None);
    assert_eq!(parse_index("-1"), None);
    assert_eq!(parse_index("-0"), None);
    assert_eq!(parse_index("1a"), None);
    assert_eq!(parse_index(" 1"), None);
    assert_eq!(parse_index("1 "), None);
    assert_eq!(parse_index("length"), None);
    assert_eq!(parse_index("__proto__"), None);
    assert_eq!(parse_index("1.5"), None);
    assert_eq!(parse_index("\u{0661}"), None);
}

#[test]
fn parse_index_agrees_with_the_standard_parser_on_unsigned_names() {
    let cases = [
        "0", "1", "9", "10", "99", "100", "00", "000123", "-", "", "a", "1e3", "0x10", "١",
        "18446744073709551615", "18446744073709551616", "99999999999999999999999", "4294967296", "1_000",
        "12 ", "٣4",
    ];
    for case in cases.iter() {
        assert_eq!(parse_index(case), case.parse::<usize>().ok(), "{}", case);
    }
}

#[test]
fn parse_index_takes_a_name_with_a_sign_for_no_index() {
    for case in ["+", "+1", "+0", "+12", "+18446744073709551615", "-1", "-0"] {
        assert_eq!(parse_index(case), None, "{}", case);
    }
}

#[test]
fn parse_index_stops_at_the_machine_word() {
    let max = usize::MAX.to_string();
    assert_eq!(parse_index(&max), Some(usize::MAX));
    let beyond = format!("{}0", max);
    assert_eq!(parse_index(&beyond), None);
    let next = format!("{}", usize::MAX as u128 + 1);
    assert_eq!(parse_index(&next), None);
}

#[test]
fn index_name_writes_decimal_digits() {
    assert_eq!(index_name(0), "0");
    assert_eq!(index_name(7), "7");
    assert_eq!(index_name(10), "10");
    assert_eq!(index_name(1234567890), "1234567890");
    assert_eq!(index_name(usize::MAX), usize::MAX.to_string());
}

#[test]
fn index_name_is_read_back() {
    for index in [0usize, 1, 9, 10, 11, 99, 100, 101, 65535, 4294967295, usize::MAX] {
        assert_eq!(parse_index(&index_name(index)), Some(index));
        assert_eq!(index_name(index), index.to_string());
    }
}

#[test]
fn fold_lowers_ascii_capitals_only() {
    assert_eq!(fold('A'), 'a');
    assert_eq!(fold('Z'), 'z');
    assert_eq!(fold('a'), 'a');
    assert_eq!(fold('0'), '0');
    assert_eq!(fold('_'), '_');
    assert_eq!(fold('@'), '@');
    assert_eq!(fold('['), '[');
    assert_eq!(fold('É'), 'É');
    assert_eq!(fold('é'), 'é');
}

#[test]
fn names_match_exactly_when_case_sensitive() {
    assert!(names_match("foo", "foo", true));
    assert!(!names_match("foo", "FOO", true));
    assert!(!names_match("foo", "fo", true));
    assert!(!names_match("fo", "foo", true));
    assert!(names_match("", "", true));
    assert!(!names_match("", "a", true));
}

#[test]
fn names_match_under_ascii_folding() {
    assert!(names_match("foo", "FOO", false));
    assert!(names_match("FoO", "fOo", false));
    assert!(names_match("x_1", "X_1", false));
    assert!(!names_match("foo", "fo", false));
    assert!(!names_match("foo", "bar", false));
    assert!(!names_match("é", "É", false));
    assert!(names_match("é", "é", false));
    assert!(!names_match("k", "\u{212A}", false));
}
