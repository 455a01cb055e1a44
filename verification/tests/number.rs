use substrate_lessons::number::{handle_number, IntErrorKind};

#[test]
fn handle_number_reads_decimal() {
    assert_eq!(handle_number("8080"), Ok(8080));
    assert_eq!(handle_number("+42"), Ok(42));
    assert_eq!(handle_number("-17"), Ok(-17));
    assert_eq!(handle_number("007"), Ok(7));
    assert_eq!(handle_number("2147483647"), Ok(i32::MAX));
    assert_eq!(handle_number("-2147483648"), Ok(i32::MIN));
}

#[test]
fn handle_number_refuses_non_numbers() {
    assert!(handle_number("").is_err());
    assert!(handle_number("-").is_err());
    assert!(handle_number("80a").is_err());
    assert!(handle_number(" 80").is_err());
    assert!(handle_number("8_0").is_err());
    assert!(handle_number("2147483648").is_err());
    assert!(handle_number("-2147483649").is_err());
    assert!(handle_number("+-1").is_err());
}

#[test]
fn handle_number_reads_back_decimal_text() {
    for n in [0, 1, 9, 10, 99, 8080, -1, -10, i32::MAX, i32::MIN, 123456789, -987654321] {
        assert_eq!(handle_number(&n.to_string()), Ok(n));
    }
}

#[test]
fn handle_number_tells_why() {
    assert_eq!(*handle_number("").unwrap_err().kind(), IntErrorKind::Empty);
    assert_eq!(*handle_number("abc").unwrap_err().kind(), IntErrorKind::InvalidDigit);
    assert_eq!(*handle_number("-").unwrap_err().kind(), IntErrorKind::InvalidDigit);
    assert_eq!(*handle_number("12 ").unwrap_err().kind(), IntErrorKind::InvalidDigit);
    assert_eq!(*handle_number("2147483648").unwrap_err().kind(), IntErrorKind::PosOverflow);
    assert_eq!(*handle_number("-2147483649").unwrap_err().kind(), IntErrorKind::NegOverflow);
    assert_eq!(
        format!("{:?}", handle_number("8o8o").unwrap_err()),
        "ParseIntError { kind: InvalidDigit }"
    );
}
