use zync::number::{decimal, hex, parse_number};
use zync::text::{
    chars_of, contains, contains_any, is_whitespace, next_line, split_once, str_eq,
    strip_carriage_return, trim, trim_line_end,
};

#[test]
fn strings_are_compared_by_their_characters() {
    assert!(str_eq("a\u{e9}", "a\u{e9}"));
    assert!(!str_eq("a", "b"));
    assert!(!str_eq("a", "ab"));
    assert!(str_eq("", ""));
}

#[test]
fn splits_at_the_first_delimiter() {
    for (text, byte) in [("a:b:c", b':'), (":", b':'), ("", b':'), ("\u{e9}\n\u{4e2d}", b'\n')] {
        assert_eq!(split_once(text, byte), text.split_once(byte as char));
    }
}

#[test]
fn lines_end_at_line_feeds() {
    for text in ["a", "a\n", "a\r\n\r\nb\r", "foo\nbar\n\r\nbaz\r", "\u{e9}\n"] {
        let mut rest = text;
        let mut lines = Vec::new();
        while !rest.is_empty() {
            let (line, after) = next_line(rest);
            lines.push(line);
            rest = after;
        }
        assert_eq!(lines, text.lines().collect::<Vec<_>>());
    }
}

#[test]
fn line_ends_are_trimmed() {
    for text in ["", "a", "a\r", "a\r\r\n", "\r\n\r", "\u{e9}\n", "a\rb\n"] {
        assert_eq!(trim_line_end(text), text.trim_end_matches(['\r', '\n']));
    }
    assert_eq!(strip_carriage_return("a\r\r"), "a\r");
    assert_eq!(strip_carriage_return("a"), "a");
    assert_eq!(strip_carriage_return(""), "");
}

#[test]
fn white_space_is_that_of_unicode() {
    for c in (0..=0x10ffff).filter_map(char::from_u32) {
        assert_eq!(is_whitespace(c), c.is_whitespace(), "{c:?}");
    }
}

#[test]
fn outer_white_space_is_trimmed() {
    for text in ["", " ", " a b ", "\u{3000}\u{e9}\u{2003}\n", "\n\t", "x"] {
        assert_eq!(trim(text), text.trim());
    }
}

#[test]
fn parts_are_found() {
    for (text, part) in [
        ("", ""),
        ("", "a"),
        ("abc", ""),
        ("abc", "abc"),
        ("abc", "bc"),
        ("aab", "ab"),
        ("abc", "abcd"),
        ("\u{e9}\u{4e2d}x", "\u{4e2d}x"),
        ("\u{e9}", "e"),
    ] {
        assert_eq!(contains(text, part), text.contains(part));
    }
    assert!(contains_any("one two", &["three", "two"]));
    assert!(!contains_any("one two", &["three"]));
    assert!(!contains_any("one two", &[]));
    assert_eq!(chars_of("a\u{e9}"), vec!['a', '\u{e9}']);
}

#[test]
fn numbers_are_written_in_decimal_and_hexadecimal() {
    for n in [0, 7, 10, 99, 750, 1 << 64, u128::MAX] {
        assert_eq!(decimal(n), format!("{n}"));
    }
    for n in [0, 1, 0xabcdef, 0xcbf29ce484222325, u64::MAX] {
        assert_eq!(hex(n, 16), format!("{n:016x}"));
    }
    assert_eq!(hex(0x1234, 2), "34");
    assert_eq!(hex(5, 0), "");
}

#[test]
fn numbers_are_read_as_the_standard_library_reads_them() {
    for text in [
        "", "+", "-", "0", "-0", "+7", "++7", "007", " 7", "7 ", "7_0", "750", "a", "1a", "\u{662}",
        "18446744073709551615", "18446744073709551616", "99999999999999999999",
        "000000000000000000000000000000000000001", "18446744073709551615x",
    ] {
        assert_eq!(parse_number(text, u64::MAX), text.parse::<u64>().ok(), "{text:?}");
        assert_eq!(parse_number(text, 255), text.parse::<u8>().ok().map(u64::from), "{text:?}");
    }
    for n in [0, 9, 10, u64::MAX] {
        assert_eq!(parse_number(&decimal(n as u128), u64::MAX), Some(n));
    }
}
