use tax_shell::decimal::Decimal;

fn canonical(text: &str) -> Option<String> {
    Decimal::parse(text).map(|d| d.to_text())
}

#[test]
fn canonical_numerals_come_back_unchanged() {
    for text in ["0", "7", "10", "18.5", "0.25", "-3", "-0.5", "-0", "100", "12345678901234567890123.000001"] {
        assert_eq!(canonical(text), Some(text.to_string()), "{}", text);
    }
}

#[test]
fn leading_zeros_are_dropped() {
    assert_eq!(canonical("007"), Some("7".to_string()));
    assert_eq!(canonical("000"), Some("0".to_string()));
    assert_eq!(canonical("00.5"), Some("0.5".to_string()));
    assert_eq!(canonical("-010.25"), Some("-10.25".to_string()));
}

#[test]
fn trailing_zeros_are_dropped() {
    assert_eq!(canonical("18.50"), Some("18.5".to_string()));
    assert_eq!(canonical("18.000"), Some("18".to_string()));
    assert_eq!(canonical("0.0"), Some("0".to_string()));
    assert_eq!(canonical("-1.10"), Some("-1.1".to_string()));
}

#[test]
fn a_plus_sign_is_dropped() {
    assert_eq!(canonical("+5"), Some("5".to_string()));
    assert_eq!(canonical("+0.50"), Some("0.5".to_string()));
}

#[test]
fn a_bare_point_before_or_behind_digits_is_accepted() {
    assert_eq!(canonical("7."), Some("7".to_string()));
    assert_eq!(canonical(".25"), Some("0.25".to_string()));
    assert_eq!(canonical("-.5"), Some("-0.5".to_string()));
}

#[test]
fn what_is_no_numeral_is_refused() {
    for text in ["", "abc", ".", "-", "+", "+-1", "--1", "1.2.3", "1,5", "12a", "a12", "1e5", " 1", "1 ", "-.", "٣"] {
        assert!(Decimal::parse(text).is_none(), "{:?}", text);
    }
}

#[test]
fn parsing_the_text_of_a_number_gives_the_number_back() {
    for text in ["18.50", "007", "+3.0", "-0", ".5"] {
        let first = Decimal::parse(text).unwrap();
        let again = Decimal::parse(&first.to_text()).unwrap();
        assert_eq!(first, again);
        assert_eq!(first.to_text(), again.to_text());
    }
}

#[test]
fn natural_numbers_are_written_in_decimal() {
    assert_eq!(Decimal::from_natural(0).to_text(), "0");
    assert_eq!(Decimal::from_natural(7).to_text(), "7");
    assert_eq!(Decimal::from_natural(10).to_text(), "10");
    assert_eq!(Decimal::from_natural(37).to_text(), "37");
    assert_eq!(Decimal::from_natural(1000).to_text(), "1000");
    assert_eq!(Decimal::from_natural(u64::MAX).to_text(), "18446744073709551615");
    assert_eq!(Decimal::from_natural(120), Decimal::parse("120.0").unwrap());
}
