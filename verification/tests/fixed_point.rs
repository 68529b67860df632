use solar_telemetry::fixed_point::mul_fixed;
use solar_telemetry::fixed_point::parse_fixed;
use solar_telemetry::fixed_point::parse_i32;
use solar_telemetry::fixed_point::parse_u16;
use solar_telemetry::fixed_point::parse_u32;

#[test]
fn decimal_with_fraction_is_read_in_millionths() {
    assert_eq!(parse_fixed(b"12.5"), Some(12_500_000));
    assert_eq!(parse_fixed(b"0.2"), Some(200_000));
    assert_eq!(parse_fixed(b"13.1"), Some(13_100_000));
}

#[test]
fn decimal_without_fraction_is_read() {
    assert_eq!(parse_fixed(b"20"), Some(20_000_000));
    assert_eq!(parse_fixed(b"0"), Some(0));
    assert_eq!(parse_fixed(b"007"), Some(7_000_000));
}

#[test]
fn decimal_signs_are_read() {
    assert_eq!(parse_fixed(b"-1.5"), Some(-1_500_000));
    assert_eq!(parse_fixed(b"+1.5"), Some(1_500_000));
    assert_eq!(parse_fixed(b"-0"), Some(0));
}

#[test]
fn decimal_may_begin_or_end_with_the_point() {
    assert_eq!(parse_fixed(b".5"), Some(500_000));
    assert_eq!(parse_fixed(b"5."), Some(5_000_000));
    assert_eq!(parse_fixed(b"-.25"), Some(-250_000));
}

#[test]
fn decimal_digits_past_the_sixth_are_dropped() {
    assert_eq!(parse_fixed(b"1.2345678"), Some(1_234_567));
    assert_eq!(parse_fixed(b"0.0000009"), Some(0));
    assert_eq!(parse_fixed(b"-1.9999999"), Some(-1_999_999));
}

#[test]
fn decimal_of_another_shape_is_refused() {
    assert_eq!(parse_fixed(b""), None);
    assert_eq!(parse_fixed(b"."), None);
    assert_eq!(parse_fixed(b"+"), None);
    assert_eq!(parse_fixed(b"-"), None);
    assert_eq!(parse_fixed(b"-."), None);
    assert_eq!(parse_fixed(b"1.2.3"), None);
    assert_eq!(parse_fixed(b"1,5"), None);
    assert_eq!(parse_fixed(b"abc"), None);
    assert_eq!(parse_fixed(b"1e5"), None);
    assert_eq!(parse_fixed(b" 1"), None);
    assert_eq!(parse_fixed(b"1 "), None);
    assert_eq!(parse_fixed(b"--1"), None);
    assert_eq!(parse_fixed(b"1.5x"), None);
}

#[test]
fn decimal_at_the_edge_of_the_range() {
    assert_eq!(parse_fixed(b"9223372036854.775807"), Some(i64::MAX));
    assert_eq!(parse_fixed(b"-9223372036854.775807"), Some(-i64::MAX));
    assert_eq!(parse_fixed(b"9223372036854.775808"), None);
    assert_eq!(parse_fixed(b"9223372036855"), None);
    assert_eq!(parse_fixed(b"99999999999999999999999999999999"), None);
    assert_eq!(parse_fixed(b"000000000000000000000000000001.5"), Some(1_500_000));
}

#[test]
fn signed_integers_are_read() {
    assert_eq!(parse_i32(b"0"), Some(0));
    assert_eq!(parse_i32(b"-17"), Some(-17));
    assert_eq!(parse_i32(b"+17"), Some(17));
    assert_eq!(parse_i32(b"2147483647"), Some(i32::MAX));
    assert_eq!(parse_i32(b"-2147483648"), Some(i32::MIN));
    assert_eq!(parse_i32(b"2147483648"), None);
    assert_eq!(parse_i32(b"-2147483649"), None);
    assert_eq!(parse_i32(b""), None);
    assert_eq!(parse_i32(b"-"), None);
    assert_eq!(parse_i32(b"1.0"), None);
    assert_eq!(parse_i32(b"12a"), None);
}

#[test]
fn signed_integers_agree_with_std() {
    for text in ["0", "-0", "+5", "-5", "5-", "", "+", "-", "00012", "2147483648", "x"] {
        assert_eq!(parse_i32(text.as_bytes()), text.parse::<i32>().ok());
    }
}

#[test]
fn unsigned_integers_are_read() {
    assert_eq!(parse_u32(b"1"), Some(1));
    assert_eq!(parse_u32(b"+1"), Some(1));
    assert_eq!(parse_u32(b"-1"), None);
    assert_eq!(parse_u32(b"-0"), None);
    assert_eq!(parse_u32(b"4294967295"), Some(u32::MAX));
    assert_eq!(parse_u32(b"4294967296"), None);
    assert_eq!(parse_u16(b"101"), Some(101));
    assert_eq!(parse_u16(b"65535"), Some(u16::MAX));
    assert_eq!(parse_u16(b"65536"), None);
    assert_eq!(parse_u16(b""), None);
}

#[test]
fn unsigned_integers_agree_with_std() {
    for text in ["0", "-0", "+5", "-5", "", "+", "00012", "65535", "65536", "4294967296", "1 "] {
        assert_eq!(parse_u32(text.as_bytes()), text.parse::<u32>().ok());
        assert_eq!(parse_u16(text.as_bytes()), text.parse::<u16>().ok());
    }
}

#[test]
fn product_is_exact_where_it_can_be() {
    // 1.1 A at 12.5 V are 13.75 W
    assert_eq!(mul_fixed(1_100_000, 12_500_000), Some(13_750_000));
    assert_eq!(mul_fixed(0, 12_500_000), Some(0));
    assert_eq!(mul_fixed(-2_000_000, 3_000_000), Some(-6_000_000));
}

#[test]
fn product_rounds_toward_zero() {
    // 0.000001 * 0.5 is half a millionth
    assert_eq!(mul_fixed(1, 500_000), Some(0));
    assert_eq!(mul_fixed(-1, 500_000), Some(0));
    assert_eq!(mul_fixed(3, 500_000), Some(1));
    assert_eq!(mul_fixed(-3, 500_000), Some(-1));
}

#[test]
fn product_out_of_range_is_refused() {
    assert_eq!(mul_fixed(i64::MAX, 2_000_000), None);
    assert_eq!(mul_fixed(i64::MIN, 1_000_000), Some(i64::MIN));
    assert_eq!(mul_fixed(i64::MIN, -1_000_000), None);
    assert_eq!(mul_fixed(i64::MAX, 1_000_000), Some(i64::MAX));
}

#[test]
fn decimal_is_within_a_millionth_of_the_float() {
    for text in ["12.5", "0.1", "-3.25", "88", "13.123456789", "0.000001", "1234567.654321", "70.", ".75"] {
        let units = parse_fixed(text.as_bytes()).unwrap();
        let float: f64 = text.parse().unwrap();
        assert!((units as f64 / 1_000_000.0 - float).abs() < 0.000_001, "{}", text);
    }
}
