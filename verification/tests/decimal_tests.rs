use ape_dts::util::decimal::{i64_to_decimal, parse_i64, parse_u64, u64_to_decimal, u64_to_fixed_decimal};

#[test]
fn unsigned_numbers_are_written_without_leading_zeros() {
    assert_eq!(u64_to_decimal(0), b"0".to_vec());
    assert_eq!(u64_to_decimal(7), b"7".to_vec());
    assert_eq!(u64_to_decimal(10), b"10".to_vec());
    assert_eq!(u64_to_decimal(1234567890), b"1234567890".to_vec());
    assert_eq!(u64_to_decimal(u64::MAX), b"18446744073709551615".to_vec());
}

#[test]
fn signed_numbers_carry_a_minus_sign() {
    assert_eq!(i64_to_decimal(0), b"0".to_vec());
    assert_eq!(i64_to_decimal(-1), b"-1".to_vec());
    assert_eq!(i64_to_decimal(42), b"42".to_vec());
    assert_eq!(i64_to_decimal(i64::MAX), b"9223372036854775807".to_vec());
    assert_eq!(i64_to_decimal(i64::MIN), b"-9223372036854775808".to_vec());
}

#[test]
fn fixed_width_pads_with_zeros() {
    assert_eq!(u64_to_fixed_decimal(42, 5), b"00042".to_vec());
    assert_eq!(u64_to_fixed_decimal(0, 3), b"000".to_vec());
    assert_eq!(u64_to_fixed_decimal(12345, 3), b"345".to_vec());
    assert_eq!(u64_to_fixed_decimal(9, 0), Vec::<u8>::new());
    assert_eq!(u64_to_fixed_decimal(u64::MAX, 20), b"18446744073709551615".to_vec());
}

#[test]
fn parse_i64_reads_what_std_reads() {
    let cases: Vec<&str> = vec![
        "0", "7", "-7", "+7", "007", "-0", "9223372036854775807", "-9223372036854775808",
        "9223372036854775808", "-9223372036854775809", "", "+", "-", "1a", " 1", "1 ", "--1", "12-",
        "99999999999999999999999999", "0000000000000000000000000000001",
    ];
    for text in cases {
        assert_eq!(parse_i64(text.as_bytes()), text.parse::<i64>().ok(), "input {:?}", text);
    }
}

#[test]
fn parse_u64_reads_what_std_reads() {
    let cases: Vec<&str> = vec![
        "0", "7", "-7", "+7", "007", "-0", "18446744073709551615", "18446744073709551616", "", "+",
        "-", "1a", "a1", "1.5", "99999999999999999999999999",
    ];
    for text in cases {
        assert_eq!(parse_u64(text.as_bytes()), text.parse::<u64>().ok(), "input {:?}", text);
    }
}

#[test]
fn what_is_written_is_read_back() {
    for n in [0u64, 1, 9, 10, 99, 100, 65535, 4294967296, u64::MAX] {
        assert_eq!(parse_u64(&u64_to_decimal(n)), Some(n));
    }
    for n in [0i64, 1, -1, 10, -10, 123456789, -123456789, i64::MAX, i64::MIN] {
        assert_eq!(parse_i64(&i64_to_decimal(n)), Some(n));
    }
}

#[test]
fn fixed_width_text_orders_as_the_numbers() {
    let numbers = [0u64, 1, 9, 10, 11, 99, 100, 1698499200000, u64::MAX];
    for a in numbers {
        for b in numbers {
            let ta = u64_to_fixed_decimal(a, 20);
            let tb = u64_to_fixed_decimal(b, 20);
            assert_eq!(a < b, ta < tb, "{} and {}", a, b);
        }
    }
}
