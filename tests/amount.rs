use ledger_convert::amount::{amount_to_cents, AmountError};
use ledger_convert::format::format_amount;

#[test]
fn one_fraction_digit_is_not_scaled() {
    assert_eq!(amount_to_cents("10.5"), Ok(1005));
}

#[test]
fn two_fraction_digits() {
    assert_eq!(amount_to_cents("10.50"), Ok(1050));
    assert_eq!(amount_to_cents("-3.07"), Ok(-307));
    assert_eq!(amount_to_cents("0.00"), Ok(0));
}

#[test]
fn no_fraction() {
    assert_eq!(amount_to_cents("42"), Ok(4200));
    assert_eq!(amount_to_cents("-0"), Ok(0));
    assert_eq!(amount_to_cents("007"), Ok(700));
}

#[test]
fn malformed_amount_texts() {
    for bad in ["12.345", "abc", "$10", "", "-", "1.", ".5", "+1", "1,000", "1e3", "--1", " 1", "1.2.3", "-.5"] {
        assert_eq!(amount_to_cents(bad), Err(AmountError::InvalidFormat), "{}", bad);
    }
}

#[test]
fn largest_amounts() {
    assert_eq!(amount_to_cents("92233720368547758.07"), Ok(i64::MAX));
    assert_eq!(amount_to_cents("-92233720368547758.08"), Ok(i64::MIN));
    assert_eq!(amount_to_cents("92233720368547758.08"), Err(AmountError::OutOfRange));
    assert_eq!(amount_to_cents("-92233720368547758.09"), Err(AmountError::OutOfRange));
    assert_eq!(amount_to_cents("123456789012345678901234567890"), Err(AmountError::OutOfRange));
}

#[test]
fn formats_two_fraction_digits() {
    assert_eq!(format_amount(1005), "$10.05");
    assert_eq!(format_amount(1050), "$10.50");
    assert_eq!(format_amount(0), "$0.00");
    assert_eq!(format_amount(7), "$0.07");
    assert_eq!(format_amount(123456), "$1234.56");
}

#[test]
fn negative_sign_follows_dollar() {
    assert_eq!(format_amount(-1000), "$-10.00");
    assert_eq!(format_amount(-5), "$-0.05");
    assert_eq!(format_amount(i64::MIN), "$-92233720368547758.08");
    assert_eq!(format_amount(i64::MAX), "$92233720368547758.07");
}

#[test]
fn format_of_parse_round_trip() {
    for text in ["10.50", "-3.07", "0.00", "1234.56", "-0.05"] {
        let cents = amount_to_cents(text).unwrap();
        assert_eq!(format_amount(cents), format!("${}", text));
    }
}
