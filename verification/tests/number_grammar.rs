use json::data_structures::j_number::NumberError;
use json::data_structures::{JNumber, Sign};

fn chars(s: &str) -> Vec<char> {
    s.chars().collect()
}

fn error(s: &str) -> NumberError {
    JNumber::from_chars(&chars(s)).unwrap_err()
}

fn rendered(s: &str) -> String {
    JNumber::from_str(s).unwrap().to_string()
}

#[test]
fn leading_zero_is_rejected_at_the_second_digit() {
    assert_eq!(NumberError::PointExpected { index: 1 }, error("00"));
    assert_eq!(1, error("00").index());
    assert_eq!(NumberError::PointExpected { index: 1 }, error("01"));
    assert_eq!(NumberError::PointExpected { index: 2 }, error("-00"));
    assert_eq!(NumberError::PointExpected { index: 2 }, error("-01.5"));
    assert_eq!(NumberError::PointExpected { index: 1 }, error("0x"));
    assert_eq!(NumberError::PointExpected { index: 1 }, error("0-"));
}

#[test]
fn unary_plus_is_rejected_at_the_first_character() {
    assert_eq!(NumberError::IllegalSymbol { symbol: '+', index: 0 }, error("+0"));
    assert_eq!(0, error("+0").index());
    assert_eq!(NumberError::IllegalSymbol { symbol: '.', index: 0 }, error(".5"));
    assert_eq!(NumberError::IllegalSymbol { symbol: 'e', index: 0 }, error("e5"));
    assert_eq!(NumberError::IllegalSymbol { symbol: ' ', index: 0 }, error(" 1"));
}

#[test]
fn a_sign_is_legal_first_and_behind_the_exponent_marker_only() {
    assert_eq!("-1e-5".to_string(), rendered("-1e-5"));
    assert_eq!("1E+5".to_string(), rendered("1E+5"));
    assert_eq!(NumberError::IllegalSign { index: 1 }, error("--1"));
    assert_eq!(NumberError::IllegalSign { index: 1 }, error("-+1"));
    assert_eq!(NumberError::IllegalSign { index: 1 }, error("1+2"));
    assert_eq!(NumberError::IllegalSign { index: 3 }, error("1.5-2"));
    assert_eq!(NumberError::IllegalSign { index: 3 }, error("1e+-2"));
    assert_eq!(NumberError::IllegalSign { index: 3 }, error("1e5+2"));
}

#[test]
fn a_missing_digit_is_named_where_it_should_stand() {
    assert_eq!(NumberError::DigitExpected { index: 0 }, error(""));
    assert_eq!(NumberError::DigitExpected { index: 1 }, error("-"));
    assert_eq!(NumberError::DigitExpected { index: 1 }, error("-.5"));
    assert_eq!(NumberError::DigitExpected { index: 1 }, error("-e5"));
    assert_eq!(NumberError::DigitExpected { index: 2 }, error("1."));
    assert_eq!(NumberError::DigitExpected { index: 2 }, error("0."));
    assert_eq!(NumberError::DigitExpected { index: 2 }, error("1.e5"));
    assert_eq!(NumberError::DigitExpected { index: 2 }, error("1.x"));
    assert_eq!(NumberError::DigitExpected { index: 2 }, error("1e"));
    assert_eq!(NumberError::DigitExpected { index: 3 }, error("1e+"));
    assert_eq!(NumberError::DigitExpected { index: 4 }, error("1.5E"));
    assert_eq!("Digit was expected at index 2".to_string(), error("1.").message());
}

#[test]
fn stray_characters_are_named_by_their_kind() {
    assert_eq!(NumberError::IllegalPoint { index: 3 }, error("1.3.0"));
    assert_eq!(NumberError::IllegalPoint { index: 2 }, error("1e.5"));
    assert_eq!(NumberError::IllegalPoint { index: 3 }, error("1e5."));
    assert_eq!(NumberError::IllegalSymbol { symbol: 'e', index: 4 }, error("13e2e3"));
    assert_eq!(NumberError::IllegalSymbol { symbol: 'E', index: 2 }, error("1eE"));
    assert_eq!(NumberError::IllegalFirstSymbol { symbol: 'x', index: 1 }, error("1x"));
    assert_eq!(NumberError::IllegalFirstSymbol { symbol: 'x', index: 1 }, error("-x"));
    assert_eq!(NumberError::IllegalFirstSymbol { symbol: ' ', index: 2 }, error("1e 5"));
    assert_eq!("Illegal first symbol x at index 1".to_string(), error("1x").message());
    assert_eq!(
        "Illegal first symbol x at index 10".to_string(),
        error("1234567890x").message()
    );
    assert_eq!(
        "An illegal point at index 123".to_string(),
        NumberError::IllegalPoint { index: 123 }.message()
    );
    assert_eq!(
        "Illegal symbol E at index 18446744073709551615".to_string(),
        NumberError::IllegalSymbol { symbol: 'E', index: 18446744073709551615 }.message()
    );
}

#[test]
fn a_zero_may_have_a_fraction_and_an_exponent() {
    assert_eq!("0e5".to_string(), rendered("0e5"));
    assert_eq!("-0E-5".to_string(), rendered("-0E-5"));
    assert_eq!("0.5e5".to_string(), rendered("0.5e5"));
    assert_eq!("0.00".to_string(), rendered("0.00"));
}

#[test]
fn the_parts_of_a_literal() {
    let n = JNumber::from_str("-12.034E+56").unwrap();
    assert_eq!(Sign::Negative, n.sign());
    assert_eq!(&chars("12"), n.integer_digits());
    assert_eq!(&chars("034"), n.fractional_digits());
    assert_eq!(&chars("56"), n.exponent_digits());
    assert_eq!(Sign::Positive, n.exponent_sign());
    assert_eq!(Some('E'), n.exponent_marker());

    let n = JNumber::from_str("7").unwrap();
    assert_eq!(Sign::NoSign, n.sign());
    assert_eq!(&chars("7"), n.integer_digits());
    assert_eq!(&chars("0"), n.fractional_digits());
    assert_eq!(&chars("0"), n.exponent_digits());
    assert_eq!(Sign::NoSign, n.exponent_sign());
    assert_eq!(None, n.exponent_marker());
}

#[test]
fn rendering_reproduces_a_literal_without_redundant_parts() {
    for s in ["2.5e7", "0", "-0", "10", "-0.001", "1e-2", "1E+2", "123.456e789", "0.10", "1e00"] {
        assert_eq!(s.to_string(), rendered(s));
    }
}

#[test]
fn rendering_omits_a_fraction_or_an_exponent_that_is_zero() {
    assert_eq!("1".to_string(), rendered("1.0"));
    assert_eq!("1".to_string(), rendered("1e0"));
    assert_eq!("1".to_string(), rendered("1E+0"));
    assert_eq!("1.5".to_string(), rendered("1.5e-0"));
    assert_eq!("-3e7".to_string(), rendered("-3.0e7"));
}

#[test]
fn numbers_are_equal_by_value() {
    let n = |s: &str| JNumber::from_str(s).unwrap();
    assert_eq!(n("1e2"), n("100"));
    assert_eq!(n("100"), n("100.0"));
    assert_eq!(n("1e2"), n("100.0"));
    assert_eq!(n("0"), n("-0"));
    assert_eq!(n("0.0e5"), n("0"));
    assert_eq!(n("0e-99999999999999999999999999"), n("-0.000"));
    assert_eq!(n("10e-1"), n("1"));
    assert_eq!(n("0.001e3"), n("1"));
    assert_eq!(n("100e-2"), n("1.000"));
    assert_eq!(n("-2.50"), n("-25e-1"));
    assert_eq!(n("1.5e+3"), n("1500"));
    assert_eq!(n("12.5e1"), n("125"));
    assert_ne!(n("1"), n("2"));
    assert_ne!(n("1"), n("-1"));
    assert_ne!(n("1e1"), n("1"));
    assert_ne!(n("1e-1"), n("1e1"));
    assert_ne!(n("1.01"), n("1.1"));
    assert_ne!(n("0"), n("0.0001"));
    assert_ne!(n("19"), n("29"));
    assert_ne!(n("9007199254740993"), n("9007199254740992"));
}

#[test]
fn numbers_with_exponents_beyond_any_machine_word_are_compared_exactly() {
    let n = |s: &str| JNumber::from_str(s).unwrap();
    let big = "1e100000000000000000000000000000000000000";
    assert_eq!(n(big), n("10e99999999999999999999999999999999999999"));
    assert_eq!(n(big), n("0.1e100000000000000000000000000000000000001"));
    assert_ne!(n(big), n("1e100000000000000000000000000000000000001"));
    assert_ne!(n(big), n("1e-100000000000000000000000000000000000000"));
    assert_eq!(
        n("1e-100000000000000000000000000000000000000"),
        n("0.1e-99999999999999999999999999999999999999")
    );
    assert_ne!(n("1e5"), n("1e-5"));
    assert_eq!(n("1e-0"), n("1e+0"));
}

#[test]
fn an_error_names_the_first_character_that_cannot_stand() {
    for (text, index) in [("12x", 2), ("1.x5", 2), ("-e", 1), ("1e+.", 3), ("0.5e3e", 5), ("00", 1)] {
        let e = error(text);
        assert_eq!(index, e.index());
        // Nothing that follows the character mends the text.
        for more in ["0", "5e5", ".5", "x", "-"] {
            assert_eq!(e, error(&format!("{}{}", text, more)));
        }
        // What stands before it is a literal, or lacks only a digit.
        let before = &text[..index];
        assert!(
            JNumber::from_str(before).is_ok() || JNumber::from_str(&format!("{}0", before)).is_ok()
        );
    }
}
