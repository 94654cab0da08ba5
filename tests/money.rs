use grakawa::money::{Euro, ParseMoneyError};

#[test]
fn parses_two_fraction_digits() {
    assert_eq!(Euro::from_str("7.10").unwrap().cents(), 710);
}

#[test]
fn displays_two_fraction_digits() {
    assert_eq!(Euro::from_cents(710).to_string(), "7.10");
}

#[test]
fn one_fraction_digit_fills_second_with_zero() {
    assert_eq!(Euro::from_str("7.1").unwrap().cents(), 710);
}

#[test]
fn negative_amount_is_rejected() {
    assert_eq!(Euro::from_str("-7.10").err(), Some(ParseMoneyError::Malformed));
}

#[test]
fn non_numeric_text_is_rejected() {
    assert_eq!(Euro::from_str("abc").err(), Some(ParseMoneyError::Malformed));
    assert_eq!(Euro::from_str("").err(), Some(ParseMoneyError::Malformed));
    assert_eq!(Euro::from_str(".").err(), Some(ParseMoneyError::Malformed));
    assert_eq!(Euro::from_str("1.2.3").err(), Some(ParseMoneyError::Malformed));
    assert_eq!(Euro::from_str("7,10").err(), Some(ParseMoneyError::Malformed));
}

#[test]
fn whole_and_bare_fraction_amounts() {
    assert_eq!(Euro::from_str("7").unwrap().cents(), 700);
    assert_eq!(Euro::from_str("7.").unwrap().cents(), 700);
    assert_eq!(Euro::from_str(".5").unwrap().cents(), 50);
    assert_eq!(Euro::from_str("0.05").unwrap().cents(), 5);
}

#[test]
fn extra_fraction_digits_are_truncated() {
    assert_eq!(Euro::from_str("7.109").unwrap().cents(), 710);
    assert_eq!(Euro::from_str("19.999").unwrap().cents(), 1999);
}

#[test]
fn largest_amount_and_overflow() {
    assert_eq!(Euro::from_str("184467440737095516.15").unwrap().cents(), u64::MAX);
    assert_eq!(Euro::from_str("184467440737095516.16").err(), Some(ParseMoneyError::OutOfRange));
    assert_eq!(Euro::from_str("99999999999999999999").err(), Some(ParseMoneyError::OutOfRange));
}

#[test]
fn display_pads_cents_and_keeps_whole_part() {
    assert_eq!(Euro::from_cents(0).to_string(), "0.00");
    assert_eq!(Euro::from_cents(5).to_string(), "0.05");
    assert_eq!(Euro::from_cents(123456).to_string(), "1234.56");
    assert_eq!(Euro::from_cents(u64::MAX).to_string(), "184467440737095516.15");
}

#[test]
fn display_then_parse_gives_same_amount() {
    for c in [0u64, 1, 99, 100, 710, 725, 123456789] {
        let text = Euro::from_cents(c).to_string();
        assert_eq!(Euro::from_str(&text).unwrap().cents(), c);
    }
}
