//! The lines of a log.

use ang::log::{entry_lines, framed, is_blank, log_lines};
use std::io::BufRead;

#[test]
fn a_framed_line_ends_in_a_newline() {
    assert_eq!(framed("{}"), "{}\n");
    assert_eq!(framed(""), "\n");
}

#[test]
fn appended_lines_read_back() {
    let lines = ["{\"a\":1}", "", "x\ry", "\u{e9}\u{2028}"];
    let mut log = String::new();
    for (n, line) in lines.iter().enumerate() {
        log.push_str(&framed(line));
        assert_eq!(log_lines(&log), lines[..n + 1].to_vec());
    }
}

#[test]
fn lines_are_those_of_a_buffered_reader() {
    for text in [
        "",
        "\n",
        "a",
        "a\n",
        "a\nb",
        "a\r\nb\r\n",
        "a\r",
        "a\r\r\n",
        "\r\n\r",
        "a\rb\nc\r\r",
        "\n\n\u{e9}\n",
    ] {
        let expected: Vec<String> = text.as_bytes().lines().map(|l| l.unwrap()).collect();
        assert_eq!(log_lines(text), expected, "{text:?}");
    }
}

#[test]
fn blank_lines_hold_no_event() {
    assert!(is_blank(""));
    assert!(is_blank(" \t\u{a0}\r\n"));
    assert!(!is_blank(" {} "));
    assert!(!is_blank("x"));
    let blanks: Vec<u32> = ('\0'..=char::MAX)
        .filter(|c| is_blank(&c.to_string()))
        .map(|c| c as u32)
        .collect();
    let mut expected = vec![9, 10, 11, 12, 13, 0x20, 0x85, 0xa0, 0x1680];
    expected.extend(0x2000..=0x200a);
    expected.extend([0x2028, 0x2029, 0x202f, 0x205f, 0x3000]);
    assert_eq!(blanks, expected);
    assert_eq!(
        entry_lines("a\n \t\n\nb\r\n\u{a0}\n c"),
        vec!["a", "b", " c"]
    );
    assert!(entry_lines(" \n\n").is_empty());
}
