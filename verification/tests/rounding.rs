//! Quantities as they are shown, against double-precision arithmetic.

use gridterm::rounding::{compact_tokens, seconds_text, to_double};

fn by_doubles(n: u64) -> String {
    if n >= 1_000_000 {
        format!("{:.1}M", n as f64 / 1_000_000.0)
    } else if n >= 1_000 {
        format!("{:.1}k", n as f64 / 1_000.0)
    } else {
        n.to_string()
    }
}

#[test]
fn token_counts_are_compact() {
    assert_eq!(compact_tokens(0), "0");
    assert_eq!(compact_tokens(999), "999");
    assert_eq!(compact_tokens(1234), "1.2k");
    assert_eq!(compact_tokens(1_500_000), "1.5M");
}

#[test]
fn token_counts_are_those_of_doubles() {
    for n in 0..20_000u64 {
        assert_eq!(compact_tokens(n), by_doubles(n), "{n}");
    }
    let mut n = 1_000u64;
    while n < u64::MAX / 3 {
        for d in [0, 1, 49, 50, 51, 249, 250, 251, 999] {
            assert_eq!(compact_tokens(n + d), by_doubles(n + d), "{n} {d}");
        }
        n = n * 3 + 17;
    }
    for n in [
        999_949,
        999_950,
        999_999,
        1_050_000,
        1_150_000,
        1_250_000,
        (1 << 53) - 1,
        1 << 53,
        (1 << 53) + 1,
        u64::MAX,
    ] {
        assert_eq!(compact_tokens(n), by_doubles(n), "{n}");
    }
}

#[test]
fn seconds_are_those_of_doubles() {
    for ms in 0..20_000u64 {
        assert_eq!(seconds_text(ms), format!("{:.1}", ms as f64 / 1000.0), "{ms}");
    }
    for ms in [u64::MAX, 1 << 53, (1 << 53) + 1, 123_456_789_012] {
        assert_eq!(seconds_text(ms), format!("{:.1}", ms as f64 / 1000.0), "{ms}");
    }
}

#[test]
fn counts_are_rounded_as_doubles_are() {
    for n in [0u64, 1, (1 << 53) - 1, 1 << 53, (1 << 53) + 1, (1 << 53) + 3, u64::MAX - 1024, u64::MAX]
    {
        assert_eq!(to_double(n), (n as f64) as u128, "{n}");
    }
}
