use imag::text::{chars_of, parse_integer, split_chars, string_of};

#[test]
fn integers_are_read_as_the_standard_library_reads_them() {
    for t in [
        "0", "7", "-7", "+7", "007", "-0", "9223372036854775807", "-9223372036854775808",
        "9223372036854775808", "-9223372036854775809", "99999999999999999999999999999999999999999",
        "", "+", "-", "--1", "+-1", "1-", "1 ", " 1", "1_000", "0x10", "1.0", "one",
        "\u{0661}", "12a4", "999999999999999999999999999999a",
    ] {
        assert_eq!(parse_integer(t), t.parse::<i64>().ok(), "for {:?}", t);
    }
    assert_eq!(parse_integer("-42"), Some(-42));
    assert_eq!(parse_integer("9223372036854775807"), Some(i64::MAX));
    assert_eq!(parse_integer("-9223372036854775808"), Some(i64::MIN));
    assert_eq!(parse_integer("9223372036854775808"), None);
}

#[test]
fn split_gives_one_piece_more_than_separators() {
    let cut = |s: &str| split_chars(&chars_of(s), '.');
    assert_eq!(cut("a.b.c"), vec!["a", "b", "c"]);
    assert_eq!(cut(""), vec![""]);
    assert_eq!(cut("."), vec!["", ""]);
    assert_eq!(cut("a..b."), vec!["a", "", "b", ""]);
    assert_eq!(cut("abc"), vec!["abc"]);
}

#[test]
fn chars_and_strings_convert_both_ways() {
    let v = chars_of("h\u{00e9}llo");
    assert_eq!(v, vec!['h', '\u{00e9}', 'l', 'l', 'o']);
    assert_eq!(string_of(&v, 1, 3), "\u{00e9}l");
    assert_eq!(string_of(&v, 2, 2), "");
    assert_eq!(string_of(&v, 0, 5), "h\u{00e9}llo");
}
