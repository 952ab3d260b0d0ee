use test_client_rs::number::{decimal_string, parse_block_height, parse_decimal_u128, IntErrorKind};

#[test]
fn block_height_hex() {
    assert_eq!(parse_block_height("0x1a"), Ok(26));
    assert_eq!(parse_block_height("ff"), Ok(255));
    assert_eq!(parse_block_height("0x0x10"), Ok(16));
}

#[test]
fn block_height_errors() {
    assert_eq!(parse_block_height("0x"), Err(IntErrorKind::Empty));
    assert_eq!(parse_block_height("0xg"), Err(IntErrorKind::InvalidDigit));
    assert_eq!(parse_block_height("0XFF"), Err(IntErrorKind::InvalidDigit));
    assert_eq!(parse_block_height("0x1ffffffffffffffff"), Err(IntErrorKind::PosOverflow));
    assert_eq!(parse_block_height("0xffffffffffffffff"), Ok(u64::MAX));
}

#[test]
fn block_height_matches_std() {
    for s in ["0x1a", "0x", "0x+", "0x+5", "0x-5", "0xAbC", "0x 1", "0xfffffffffffffffff"] {
        let expected = u64::from_str_radix(s.trim_start_matches("0x"), 16);
        match (parse_block_height(s), expected) {
            (Ok(a), Ok(b)) => assert_eq!(a, b),
            (Err(k), Err(e)) => assert_eq!(k.message(), e.to_string()),
            (a, b) => panic!("{:?} vs {:?} on {}", a, b, s),
        }
    }
}

#[test]
fn decimal_parse_matches_std() {
    for s in ["0", "+17", "-1", "", "+", "1 ", "340282366920938463463374607431768211455", "340282366920938463463374607431768211456", "007"] {
        let expected = s.parse::<u128>();
        match (parse_decimal_u128(s), expected) {
            (Ok(a), Ok(b)) => assert_eq!(a, b),
            (Err(k), Err(e)) => assert_eq!(k.message(), e.to_string()),
            (a, b) => panic!("{:?} vs {:?} on {}", a, b, s),
        }
    }
}

#[test]
fn decimal_string_writes_numbers() {
    assert_eq!(decimal_string(0), "0");
    assert_eq!(decimal_string(1700000000123), "1700000000123");
    assert_eq!(decimal_string(u128::MAX), u128::MAX.to_string());
}

#[test]
fn decimal_round_trip_examples() {
    for n in [0u128, 9, 10, 99, 1234567890, u128::MAX] {
        assert_eq!(parse_decimal_u128(&decimal_string(n)), Ok(n));
    }
}
