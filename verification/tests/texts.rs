//! Texts against the standard library.

use gridterm::bytes::{char_width, index_at, offset_of, text_len};
use gridterm::text::{
    contains_text, decimal_text, from_chars, is_blank, is_control, join_texts, read_integer, same_text,
    signed_decimal_text, split_lines, to_chars, trimmed, trimmed_end,
};

const SAMPLES: [&str; 10] = [
    "",
    " ",
    "a",
    "  a b \t\n",
    "\u{3000}x\u{a0}",
    "é€𝄞",
    "a\r\nb\n\nc\r",
    "\n",
    "a\n",
    "\u{85}\u{2028}z\u{200b}",
];

#[test]
fn trimming() {
    for s in SAMPLES {
        assert_eq!(trimmed(s), s.trim());
        assert_eq!(trimmed_end(s), s.trim_end());
    }
}

#[test]
fn lines() {
    for s in SAMPLES {
        let expected: Vec<String> = s.lines().map(|l| l.to_string()).collect();
        assert_eq!(split_lines(&to_chars(s)), expected, "{s:?}");
    }
}

#[test]
fn numbers() {
    for n in [0u128, 7, 10, 999, 1000, u64::MAX as u128, u128::MAX] {
        assert_eq!(decimal_text(n), n.to_string());
    }
    for n in [0i64, -1, 42, i64::MIN, i64::MAX] {
        assert_eq!(signed_decimal_text(n), n.to_string());
    }
    for s in [
        "", "+", "-", "0", "-0", "+7", "-7", "007", "1 ", "1a", "--1", "9223372036854775807",
        "9223372036854775808", "-9223372036854775808", "-9223372036854775809",
    ] {
        assert_eq!(read_integer(s), s.parse::<i64>().ok(), "{s:?}");
    }
}

#[test]
fn searching() {
    for hay in SAMPLES {
        for needle in ["", "a", "\n", "b", "€"] {
            let (h, n) = (to_chars(hay), to_chars(needle));
            assert_eq!(contains_text(&h, &n), hay.contains(needle));
        }
    }
}

#[test]
fn joining_and_cutting() {
    let parts = vec!["a".to_string(), String::new(), "b".to_string()];
    assert_eq!(join_texts(&parts, ", "), parts.join(", "));
    assert_eq!(join_texts(&vec![], ", "), "");
    let v = to_chars("héllo");
    assert_eq!(from_chars(&v, 1, 3), "él");
    assert!(same_text("a", "a"));
    assert!(!same_text("a", "b"));
}

#[test]
fn bytes_and_characters() {
    for s in SAMPLES {
        assert_eq!(text_len(s), s.len());
        let v = to_chars(s);
        for (k, (i, c)) in s.char_indices().enumerate() {
            assert_eq!(offset_of(&v, k), i);
            assert_eq!(index_at(&v, i), k);
            assert_eq!(char_width(c), c.len_utf8());
        }
    }
}

#[test]
fn white_space_and_control_characters() {
    for n in 0..=0x10ffffu32 {
        let Some(c) = char::from_u32(n) else {
            continue;
        };
        assert_eq!(is_blank(c), c.is_whitespace(), "{n:x}");
        assert_eq!(is_control(c), c.is_control(), "{n:x}");
    }
    assert_eq!(trimmed("\u{1680}a\u{205f}"), "a");
}
