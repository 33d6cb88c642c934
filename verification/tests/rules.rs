//! Tests for the rule primitives and their combinators.

use borang::{Email, ErrorKind, Length, Range, Required, Rule, Rules, ValidationRule, WithMessage};

#[test]
fn required_rejects_empty() {
    assert!(matches!(
        Required.validate("name", "").unwrap_err().kind(),
        ErrorKind::Required { field } if field == "name"
    ));
}

#[test]
fn required_rejects_whitespace() {
    assert!(matches!(
        Required.validate("name", "  ").unwrap_err().kind(),
        ErrorKind::Required { .. }
    ));
    assert!(matches!(
        Required.validate("name", " \t\n ").unwrap_err().kind(),
        ErrorKind::Required { .. }
    ));
}

#[test]
fn required_accepts_content() {
    assert!(Required.validate("name", "x").is_ok());
    assert!(Required.validate("name", "  x  ").is_ok());
}

#[test]
fn required_default_message() {
    let err = Required.validate("name", "").unwrap_err();
    assert_eq!(err.message(), "name is required");
}

#[test]
fn email_accepts_simple_address() {
    assert!(Email.validate("email", "a@b.co").is_ok());
    assert!(Email.validate("email", "user.name+tag@example-domain.co").is_ok());
    assert!(Email.validate("email", "A_1%x-@sub.domain.org").is_ok());
}

#[test]
fn email_rejects_missing_domain_dot() {
    assert!(matches!(
        Email.validate("email", "a@b").unwrap_err().kind(),
        ErrorKind::InvalidEmail { field } if field == "email"
    ));
}

#[test]
fn email_passes_empty_value() {
    assert!(Email.validate("email", "").is_ok());
}

#[test]
fn email_rejects_malformed_addresses() {
    assert!(Email.validate("email", "@b.co").is_err());
    assert!(Email.validate("email", "a@@b.co").is_err());
    assert!(Email.validate("email", "a@b.c").is_err());
    assert!(Email.validate("email", "a@b.co1").is_err());
    assert!(Email.validate("email", "a b@c.co").is_err());
    assert!(Email.validate("email", "a@.co").is_err());
}

#[test]
fn length_bounds() {
    let rule = Length::min(2).max(100);
    let err = rule.validate("name", "a").unwrap_err();
    assert!(matches!(
        err.kind(),
        ErrorKind::InvalidLength { min: Some(2), max: Some(100), .. }
    ));
    assert!(rule.validate("name", "ab").is_ok());
    let long = "x".repeat(101);
    assert!(matches!(
        rule.validate("name", &long).unwrap_err().kind(),
        ErrorKind::InvalidLength { min: Some(2), max: Some(100), .. }
    ));
    assert!(rule.validate("name", &"x".repeat(100)).is_ok());
}

#[test]
fn length_counts_characters_not_bytes() {
    let rule = Length::min(2).max(2);
    // two characters, four bytes
    assert!(rule.validate("name", "éé").is_ok());
    assert!(rule.validate("name", "é").is_err());
}

#[test]
fn length_message_names_bounds() {
    let err = Length::min(2).max(100).validate("name", "a").unwrap_err();
    assert_eq!(err.message(), "name must be between 2 and 100 characters");
}

#[test]
fn range_checks_numeric_projection() {
    let rule = Range::min(18).max(120);
    assert!(matches!(
        rule.validate("age", "17").unwrap_err().kind(),
        ErrorKind::InvalidRange { min: Some(18), max: Some(120), .. }
    ));
    assert!(rule.validate("age", "18").is_ok());
    assert!(rule.validate("age", "120").is_ok());
    assert!(rule.validate("age", "121").is_err());
    assert!(rule.validate("age", "-3").is_err());
}

#[test]
fn range_on_unparseable_value_is_parse_error() {
    let err = Range::min(18).validate("age", "abc").unwrap_err();
    assert!(matches!(
        err.kind(),
        ErrorKind::ParseError { expected_type, .. } if expected_type == "number"
    ));
}

#[test]
fn rules_chain_first_failure_wins() {
    let chain = Rules::new().add(Required).add(Length::min(2).max(100));
    assert!(matches!(
        chain.validate("name", "").unwrap_err().kind(),
        ErrorKind::Required { .. }
    ));
    assert!(matches!(
        chain.validate("name", "a").unwrap_err().kind(),
        ErrorKind::InvalidLength { .. }
    ));
    assert!(chain.validate("name", "ab").is_ok());
}

#[test]
fn empty_chain_passes_everything() {
    let chain = Rules::new();
    assert!(chain.validate("name", "").is_ok());
}

#[test]
fn with_message_overrides_failure_message() {
    let rule = WithMessage::new(Required, "please fill this in");
    let err = rule.validate("name", "").unwrap_err();
    assert_eq!(err.message(), "please fill this in");
    assert!(matches!(
        err.kind(),
        ErrorKind::Custom { field, message } if field == "name" && message == "please fill this in"
    ));
}

#[test]
fn with_message_never_swallows_success() {
    let rule = WithMessage::new(Required, "please fill this in");
    assert!(rule.validate("name", "x").is_ok());
}

#[test]
fn rule_enum_checks_like_the_structs() {
    assert!(matches!(
        Rule::Required.check("f", " ").unwrap_err().kind(),
        ErrorKind::Required { .. }
    ));
    assert!(Rule::Email.check("f", "a@b.co").is_ok());
    let wrapped = Rule::Message {
        inner: Box::new(Rule::Length { min: Some(3), max: None }),
        message: "too short".to_string(),
    };
    let err = wrapped.check("f", "ab").unwrap_err();
    assert_eq!(err.message(), "too short");
    assert!(wrapped.check("f", "abc").is_ok());
}
