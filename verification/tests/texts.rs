use net_monitor::number::{decimal_text, parse_number, parse_u32, parse_u64, push_numeral, push_signed};
use net_monitor::order::{stable_order, AscendingNumber, AscendingText, Descending};
use net_monitor::text::{
    contains, eq_ignore_ascii_case, is_whitespace, same_text, split, split_after, split_lines,
    split_whitespace, strip_prefix, to_ascii_lowercase, trim,
};

const SAMPLES: [&str; 12] = [
    "",
    " ",
    "a",
    " a b ",
    "a\tb\u{a0}c\u{2003}",
    "x\ny\r\nz",
    "x\n",
    "\n\n",
    "a\r",
    "a:b::c:",
    "\u{1680}\u{85}word\u{3000}",
    "\u{e9}\u{c9} A",
];

#[test]
fn texts_are_cut_as_in_std() {
    for s in SAMPLES {
        assert_eq!(trim(s), s.trim());
        assert_eq!(split_whitespace(s), s.split_whitespace().collect::<Vec<_>>());
        assert_eq!(split(s, ':'), s.split(':').collect::<Vec<_>>());
        assert_eq!(split_lines(s), s.lines().collect::<Vec<_>>());
        assert_eq!(to_ascii_lowercase(s), s.to_ascii_lowercase());
        for t in SAMPLES {
            assert_eq!(same_text(s, t), s == t);
            assert_eq!(contains(s, t), s.contains(t));
            assert_eq!(strip_prefix(s, t).as_deref(), s.strip_prefix(t));
            assert_eq!(eq_ignore_ascii_case(s, t), s.eq_ignore_ascii_case(t));
            assert_eq!(split_after(s, t).as_deref(), s.find(t).map(|i| &s[i + t.len()..]));
        }
    }
    assert!(eq_ignore_ascii_case("ExPort", "eXpORT"));
}

#[test]
fn white_space_is_that_of_unicode() {
    for n in 0..0x3100u32 {
        if let Some(c) = char::from_u32(n) {
            assert_eq!(is_whitespace(c), c.is_whitespace());
        }
    }
}

#[test]
fn numbers_are_read_as_in_std() {
    for s in ["0", "42", "+7", "-1", "", "+", "4294967295", "4294967296", "18446744073709551615", "18446744073709551616", "1 ", "a", "007", "++1"] {
        assert_eq!(parse_u32(s), s.parse::<u32>().ok());
        assert_eq!(parse_u64(s), s.parse::<u64>().ok());
    }
    for s in ["1F90", "ffff", "10000", "g", "+A", ""] {
        assert_eq!(parse_number(s, 16, 65535), u16::from_str_radix(s, 16).ok().map(u64::from));
    }
}

#[test]
fn numbers_are_written_as_in_std() {
    for n in [0, 9, 10, 12345, u64::MAX] {
        assert_eq!(decimal_text(n), n.to_string());
        assert_eq!(parse_u64(&decimal_text(n)), Some(n));
        let mut hex = String::new();
        push_numeral(&mut hex, n, 16);
        assert_eq!(hex, format!("{n:x}"));
    }
    for n in [0, -1, i64::MIN, i64::MAX] {
        let mut text = String::new();
        push_signed(&mut text, n);
        assert_eq!(text, n.to_string());
    }
}

#[test]
fn equal_keys_keep_their_order() {
    let keys = vec![Descending(1), Descending(3), Descending(1), Descending(3)];
    assert_eq!(stable_order(&keys), vec![1, 3, 0, 2]);
    let keys = vec![AscendingNumber(Some(5)), AscendingNumber(None), AscendingNumber(Some(2))];
    assert_eq!(stable_order(&keys), vec![1, 2, 0]);
    let keys: Vec<AscendingText> =
        ["b", "", "ab", "a", "B"].iter().map(|s| AscendingText(s.to_string())).collect();
    assert_eq!(stable_order(&keys), vec![1, 4, 3, 2, 0]);
}
