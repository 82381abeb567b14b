use embedded_toolbox::model::ByteOrder;
use embedded_toolbox::numeral::{append_little_endian, read_unsigned};
use embedded_toolbox::search::{find_from, find_subslice};
use embedded_toolbox::text::{append_decimal, eq_ignore_ascii_case, is_white_space, split_path};

#[test]
fn white_space_is_what_the_language_says() {
    for code in 0..=0x10_ffff {
        if let Some(c) = char::from_u32(code) {
            assert_eq!(is_white_space(c), c.is_whitespace());
        }
    }
}

#[test]
fn paths_are_split_into_keys() {
    assert_eq!(split_path(".a..b.c."), ["a", "b", "c"]);
    assert!(split_path("...").is_empty());
    assert_eq!(split_path("\u{e9}t\u{e9}.x"), ["\u{e9}t\u{e9}", "x"]);
}

#[test]
fn only_ascii_letters_are_compared_loosely() {
    assert!(eq_ignore_ascii_case("com10", "COM10"));
    assert!(!eq_ignore_ascii_case("com1", "COM10"));
    assert!(!eq_ignore_ascii_case("\u{e9}", "\u{c9}"));
    assert!(eq_ignore_ascii_case("", ""));
}

#[test]
fn numbers_are_written_in_decimal() {
    for value in [0, 7, 10, 4_194_304, u64::MAX] {
        let mut text = String::new();
        append_decimal(&mut text, value);
        assert_eq!(text, value.to_string());
    }
}

#[test]
fn unsigned_numbers_are_read_and_written() {
    assert_eq!(read_unsigned(&[1, 2, 3], ByteOrder::Little), 0x03_0201);
    assert_eq!(read_unsigned(&[1, 2, 3], ByteOrder::Big), 0x01_0203);
    assert_eq!(read_unsigned(&[], ByteOrder::Big), 0);
    let mut bytes = vec![9];
    append_little_endian(&mut bytes, 0x0102_0304, 3);
    assert_eq!(bytes, [9, 4, 3, 2]);
}

#[test]
fn the_first_occurrence_is_found() {
    assert_eq!(find_subslice(b"abcabc", b"ca"), Some(2));
    assert_eq!(find_subslice(b"abc", b"abcd"), None);
    assert_eq!(find_from(b"abcabc", b"abc", 1), Some(3));
    assert_eq!(find_from(b"abcabc", b"abc", 4), None);
}
