use accelerator::fixed::{div_floor, isqrt, round_nearest};
use accelerator::parse::parse_decimal;

#[test]
fn div_floor_goes_down() {
    assert_eq!(div_floor(7, 2), 3);
    assert_eq!(div_floor(-7, 2), -4);
    assert_eq!(div_floor(-8, 2), -4);
    assert_eq!(div_floor(0, 5), 0);
}

#[test]
fn isqrt_values() {
    assert_eq!(isqrt(0), 0);
    assert_eq!(isqrt(1), 1);
    assert_eq!(isqrt(99), 9);
    assert_eq!(isqrt(100), 10);
    assert_eq!(isqrt(100_000_000_000_000), 10_000_000);
    let big: u128 = (1u128 << 104) - 1;
    let r = isqrt(big);
    assert!(r * r <= big && (r + 1) * (r + 1) > big);
}

#[test]
fn round_nearest_ties_go_down() {
    assert_eq!(round_nearest(10_062_500), (10, 62_500));
    assert_eq!(round_nearest(2_500_000), (2, 500_000));
    assert_eq!(round_nearest(2_500_001), (3, -499_999));
    assert_eq!(round_nearest(-2_500_000), (-3, 500_000));
    assert_eq!(round_nearest(-2_499_999), (-2, -499_999));
    assert_eq!(round_nearest(0), (0, 0));
}

#[test]
fn parse_decimal_accepts_numbers() {
    assert_eq!(parse_decimal(b"2"), Some(2_000_000));
    assert_eq!(parse_decimal(b"2.0"), Some(2_000_000));
    assert_eq!(parse_decimal(b"-0.01"), Some(-10_000));
    assert_eq!(parse_decimal(b"+3.5"), Some(3_500_000));
    assert_eq!(parse_decimal(b".25"), Some(250_000));
    assert_eq!(parse_decimal(b"7."), Some(7_000_000));
    assert_eq!(parse_decimal(b"1.0000005"), Some(1_000_000));
    assert_eq!(parse_decimal(b"-1.1234567"), Some(-1_123_456));
    assert_eq!(parse_decimal(b"0009000000000000"), Some(9_000_000_000_000_000_000));
}

#[test]
fn parse_decimal_rejects_others() {
    for s in [&b""[..], b"-", b"+", b".", b"-.", b"1e3", b"abc", b"1.2.3", b"1 ", b" 1", b"inf", b"--1"] {
        assert_eq!(parse_decimal(s), None);
    }
    assert_eq!(parse_decimal(b"9000000000001"), None);
}
