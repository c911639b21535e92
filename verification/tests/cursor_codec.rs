use bsky_thread_and_blog_feed::numtext::fmt_dec;
use bsky_thread_and_blog_feed::numtext::parse_dec;

#[test]
fn formats_decimal_offsets() {
    assert_eq!(fmt_dec(0), "0");
    assert_eq!(fmt_dec(7), "7");
    assert_eq!(fmt_dec(10), "10");
    assert_eq!(fmt_dec(10_000), "10000");
}

#[test]
fn parses_digit_strings() {
    assert_eq!(parse_dec("0"), Some(0));
    assert_eq!(parse_dec("123"), Some(123));
    assert_eq!(parse_dec("007"), Some(7));
}

#[test]
fn rejects_non_digit_strings() {
    assert_eq!(parse_dec(""), None);
    assert_eq!(parse_dec("+5"), None);
    assert_eq!(parse_dec("-5"), None);
    assert_eq!(parse_dec("12a"), None);
    assert_eq!(parse_dec("garbage-not-a-number"), None);
}

#[test]
fn rejects_values_past_the_offset_range() {
    assert_eq!(parse_dec("999999999999999999999999999999"), None);
}

#[test]
fn round_trips_offsets() {
    for n in [0usize, 1, 9, 10, 99, 100, 12345] {
        assert_eq!(parse_dec(&fmt_dec(n)), Some(n));
    }
}
