//! Numbers, columns and names as text.

use rawio::number;
use rawio::output::{put_line, put_lines};
use rawio::text;

fn digits(text: &str) -> Vec<char> {
    text.chars().collect()
}

#[test]
fn decimals_read_back() {
    for n in [0u64, 7, 10, 1_000_000, u64::MAX] {
        let spelled = text::decimal(n);
        assert_eq!(spelled, n.to_string());
        assert_eq!(number::parse(&digits(&spelled), 10, u64::MAX), Some(n));
    }
    assert_eq!(number::parse(&digits("18446744073709551616"), 10, u64::MAX), None);
    assert_eq!(number::parse(&digits("256"), 10, 255), None);
    assert_eq!(number::parse(&digits(""), 10, u64::MAX), None);
    assert_eq!(number::parse(&digits("+"), 10, u64::MAX), None);
}

#[test]
fn hexadecimals_read_back() {
    for n in [0u64, 0xf, 0x10, 0xdead_beef, u64::MAX] {
        let mut spelled = String::new();
        text::push_hex(&mut spelled, n, 1);
        assert_eq!(spelled, format!("{n:x}"));
        assert_eq!(number::parse(&digits(&spelled), 16, u64::MAX), Some(n));
        assert_eq!(number::parse(&digits(&spelled.to_uppercase()), 16, u64::MAX), Some(n));
    }
    assert_eq!(number::parse(&digits("g"), 16, u64::MAX), None);
}

#[test]
fn a_column_is_filled_on_either_side() {
    let mut line = String::from(">");
    text::push_left(&mut line, "ab", 4);
    text::push_right(&mut line, "cd", 4);
    text::push_hex(&mut line, 0x2a, 4);
    text::push_signed(&mut line, i32::MIN);
    text::push_repeated(&mut line, '.', 2);
    assert_eq!(line, format!(">{:<4}{:>4}{:04x}{}..", "ab", "cd", 0x2a, i32::MIN));

    let mut wide = String::new();
    text::push_left(&mut wide, "abcdef", 4);
    assert_eq!(wide, "abcdef");
}

#[test]
fn names_compare_without_case_and_without_blanks() {
    assert!(text::eq_ignore_case("BoOt-1", "bOoT-1"));
    assert!(!text::eq_ignore_case("\u{C9}", "\u{E9}"));
    assert!(!text::eq_ignore_case("boot", "boot1"));
    assert_eq!(text::trim(" \t\u{2003}a b\n"), "a b");
    assert_eq!(text::trim("   "), "");
    assert_eq!(text::trim_end_matches("xabab", "ab"), "x");
    assert_eq!(text::join(&vec!["a".into(), "b".into(), "c".into()], ", "), "a, b, c");
    assert_eq!(text::join(&Vec::new(), ", "), "");
}

#[test]
fn utf16_is_decoded_unit_by_unit() {
    let units: Vec<u16> = "a\u{1F600}\u{FFFF}".encode_utf16().collect();
    assert_eq!(text::decode_utf16(&units), digits("a\u{1F600}\u{FFFF}"));
    let odd = [0xDC00u16, 0x61, 0xD800, 0xD801, 0xDC37];
    let expected: Vec<char> = char::decode_utf16(odd)
        .map(|unit| unit.unwrap_or('\u{FFFD}'))
        .collect();
    assert_eq!(text::decode_utf16(&odd), expected);
}

#[test]
fn memory_gains_the_lines() {
    let mut out = String::from("head\n");
    put_line(&mut out, "one").unwrap();
    put_lines(&mut out, &vec!["two".into(), String::new()]).unwrap();
    assert_eq!(out, "head\none\ntwo\n\n");
}
