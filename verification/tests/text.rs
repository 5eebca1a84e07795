//! Texts: how numbers are written and read, and how names are ordered.

use ang::tally::Tally;
use ang::text::{
    is_before, parse_i32, parse_u64, parse_usize, push_decimal, push_signed_decimal, same_text,
    starts_with,
};

#[test]
fn numbers_are_written_in_decimal() {
    let mut text = String::from("n=");
    push_decimal(&mut text, 0);
    push_decimal(&mut text, 340282366920938463463374607431768211455);
    assert_eq!(text, "n=0340282366920938463463374607431768211455");
    let mut text = String::new();
    push_signed_decimal(&mut text, i64::MIN);
    text.push(' ');
    push_signed_decimal(&mut text, 42);
    assert_eq!(text, "-9223372036854775808 42");
}

#[test]
fn written_numbers_read_back() {
    for n in [0, 7, 10, 12345, u64::MAX] {
        let mut text = String::new();
        push_decimal(&mut text, n as u128);
        assert_eq!(parse_u64(&text), Some(n));
    }
}

#[test]
fn numbers_are_read_as_the_standard_library_reads_them() {
    for text in [
        "",
        "0",
        "+5",
        "-5",
        "-0",
        "+",
        "-",
        "007",
        " 1",
        "1 ",
        "1_0",
        "--1",
        "+-1",
        "2147483647",
        "2147483648",
        "-2147483648",
        "-2147483649",
        "4294967296",
        "18446744073709551615",
        "18446744073709551616",
        "99999999999999999999999999",
        "0x10",
        "\u{0663}",
    ] {
        assert_eq!(parse_u64(text), text.parse::<u64>().ok(), "{text}");
        assert_eq!(parse_usize(text), text.parse::<usize>().ok(), "{text}");
        assert_eq!(parse_i32(text), text.parse::<i32>().ok(), "{text}");
    }
}

#[test]
fn texts_are_matched_and_ordered() {
    assert!(same_text("ab", "ab"));
    assert!(!same_text("ab", "abc"));
    assert!(!same_text("ab", "ac"));
    assert!(starts_with("message_send", "message_"));
    assert!(!starts_with("message", "message_"));
    for a in ["", "a", "ab", "b", "\u{e9}", "a_b"] {
        for b in ["", "a", "ab", "b", "\u{e9}", "a_b"] {
            assert_eq!(is_before(a, b), a < b, "{a} {b}");
        }
    }
}

#[test]
fn a_tally_counts_names_in_order() {
    let mut tally = Tally::new();
    for name in ["b", "a", "c", "b", "b", "a"] {
        tally.count(name);
    }
    assert_eq!(tally.entries(), vec![("a", 2), ("b", 3), ("c", 1)]);
    assert_eq!(tally.get("b"), Some(3));
    assert_eq!(tally.get("d"), None);
    assert_eq!(tally.clone(), tally);
}
