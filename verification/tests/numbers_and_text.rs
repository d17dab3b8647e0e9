//! Reading and writing numbers, comparing and trimming text.

use wdctl::number::{decimal_text, hex_text, parse_u32, NumberError};
use wdctl::text::{
    chars_of, contains, is_whitespace, same_text, starts_with, trim, trim_end_from,
};

#[test]
fn numbers_are_written_in_decimal() {
    assert_eq!(decimal_text(0), "0");
    assert_eq!(decimal_text(9), "9");
    assert_eq!(decimal_text(10), "10");
    assert_eq!(decimal_text(4294967295), "4294967295");
}

#[test]
fn numbers_are_written_in_hexadecimal() {
    assert_eq!(hex_text(0, 0), "0");
    assert_eq!(hex_text(0x81a0, 4), "81a0");
    assert_eq!(hex_text(0x20, 4), "0020");
    assert_eq!(hex_text(0x20, 8), "00000020");
    assert_eq!(hex_text(0x12345, 4), "12345");
    assert_eq!(hex_text(0xfedcba98, 8), "fedcba98");
}

#[test]
fn writing_agrees_with_the_standard_formats() {
    for n in [0u32, 1, 7, 10, 15, 16, 255, 256, 999, 65535, 65536, 4294967295] {
        assert_eq!(decimal_text(n), format!("{}", n));
        assert_eq!(hex_text(n, 4), format!("{:04x}", n));
        assert_eq!(hex_text(n, 8), format!("{:08x}", n));
    }
}

#[test]
fn reading_gives_back_what_was_written() {
    for n in [0u32, 1, 9, 10, 60, 4294967294, 4294967295] {
        assert_eq!(parse_u32(&decimal_text(n)), Ok(n));
    }
}

#[test]
fn numbers_are_read() {
    assert_eq!(parse_u32("60"), Ok(60));
    assert_eq!(parse_u32("+60"), Ok(60));
    assert_eq!(parse_u32("0060"), Ok(60));
}

#[test]
fn texts_that_are_no_numbers_are_refused() {
    assert_eq!(parse_u32(""), Err(NumberError::Empty));
    assert_eq!(parse_u32("+"), Err(NumberError::InvalidDigit));
    assert_eq!(parse_u32("-"), Err(NumberError::InvalidDigit));
    assert_eq!(parse_u32("-1"), Err(NumberError::InvalidDigit));
    assert_eq!(parse_u32("++1"), Err(NumberError::InvalidDigit));
    assert_eq!(parse_u32("1 "), Err(NumberError::InvalidDigit));
    assert_eq!(parse_u32("0x10"), Err(NumberError::InvalidDigit));
    assert_eq!(parse_u32("\u{0661}"), Err(NumberError::InvalidDigit));
    assert_eq!(parse_u32("4294967296"), Err(NumberError::Overflow));
    assert_eq!(parse_u32("99999999999x"), Err(NumberError::Overflow));
    assert_eq!(parse_u32("4294967295x"), Err(NumberError::InvalidDigit));
}

#[test]
fn reading_agrees_with_the_standard_parser() {
    for text in [
        "", "+", "-", "0", "+0", "-0", "00", "12a", "a12", "4294967295", "4294967296",
        "99999999999x", "+4294967296", "429496729x6", " 1", "1_000",
    ] {
        assert_eq!(parse_u32(text).ok(), text.parse::<u32>().ok(), "{text:?}");
    }
}

#[test]
fn the_characters_of_a_text() {
    assert_eq!(chars_of("a\u{e9}\u{2014}"), vec!['a', '\u{e9}', '\u{2014}']);
    assert!(chars_of("").is_empty());
}

#[test]
fn texts_are_compared() {
    assert!(same_text("", ""));
    assert!(same_text("watchdog", "watchdog"));
    assert!(!same_text("watchdog", "Watchdog"));
    assert!(!same_text("watchdog", "watchdogs"));
    assert!(starts_with("watchdog0", "watchdog"));
    assert!(starts_with("watchdog", "watchdog"));
    assert!(starts_with("x", ""));
    assert!(!starts_with("watch", "watchdog"));
    assert!(!starts_with("a watchdog", "watchdog"));
    assert!(contains("a watchdog", "watchdog"));
    assert!(contains("aab", "ab"));
    assert!(contains("", ""));
    assert!(!contains("", "a"));
    assert!(!contains("watchdo", "watchdog"));
}

#[test]
fn white_space_is_what_unicode_says() {
    for code in 0..0x110000u32 {
        if let Some(c) = char::from_u32(code) {
            assert_eq!(is_whitespace(c), c.is_whitespace(), "U+{:04x}", code);
        }
    }
}

#[test]
fn trimming_takes_the_outer_space_only() {
    for text in ["", " ", "\n", "a", " a\n", "\t a b \u{3000}\r\n", "a\u{200b} ", "\u{a0}x\u{85}"] {
        assert_eq!(trim(text), text.trim(), "{text:?}");
        assert_eq!(trim(&trim(text)), trim(text));
        assert_eq!(trim_end_from(text, 0), text.trim_end(), "{text:?}");
    }
    assert_eq!(trim_end_from("6,1;x \n", 4), "x");
    assert_eq!(trim_end_from("6,1;", 4), "");
}
