use tactful::phone::{strip_whitespace, PhoneNumber, PhoneNumberError, PhoneNumberType};

#[test]
fn phone_number_validation() {
    assert_eq!(PhoneNumber::validate("+1 555 123"), Ok(()));
    assert_eq!(PhoneNumber::validate("555-123"), Err(PhoneNumberError::NonDigit));
    assert_eq!(PhoneNumber::validate(""), Err(PhoneNumberError::Empty));
    assert_eq!(PhoneNumber::validate("abc"), Err(PhoneNumberError::InvalidFirstCharacter));
}

#[test]
fn phone_number_validation_edge_cases() {
    assert_eq!(PhoneNumber::validate(" \t\n "), Err(PhoneNumberError::Empty));
    assert_eq!(PhoneNumber::validate("  +41\u{a0}79 123"), Ok(()));
    assert_eq!(PhoneNumber::validate("1+2"), Err(PhoneNumberError::NonDigit));
    assert_eq!(PhoneNumber::validate("++1"), Err(PhoneNumberError::NonDigit));
    assert_eq!(PhoneNumber::validate("+"), Ok(()));
    assert_eq!(PhoneNumber::validate("0"), Ok(()));
}

#[test]
fn new_keeps_number_and_type() {
    let p = PhoneNumber::new("+1 555 123".to_string(), PhoneNumberType::Work).expect("valid");
    assert_eq!(p.number(), "+1 555 123");
    assert_eq!(p.ty(), PhoneNumberType::Work);
    assert_eq!(
        PhoneNumber::new("x".to_string(), PhoneNumberType::Home).map(|_| ()),
        Err(PhoneNumberError::InvalidFirstCharacter)
    );
}

#[test]
fn whitespace_is_stripped() {
    assert_eq!(strip_whitespace(" +1 555\t123\n"), "+1555123");
    assert_eq!(strip_whitespace("\u{2003}1\u{3000}2"), "12");
    assert_eq!(strip_whitespace(""), "");
}
