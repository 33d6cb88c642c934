//! Tests for the error model: structured kinds, default messages and
//! translation.

use borang::{ErrorKind, ValidationError};

#[test]
fn required_kind_message() {
    let e = ValidationError::with_kind(ErrorKind::Required { field: "name".to_string() });
    assert_eq!(e.field, "name");
    assert_eq!(e.message(), "name is required");
}

#[test]
fn invalid_email_kind_message() {
    let e = ValidationError::with_kind(ErrorKind::InvalidEmail { field: "email".to_string() });
    assert_eq!(e.message(), "email must be a valid email address");
}

#[test]
fn invalid_length_messages() {
    let both = ValidationError::with_kind(ErrorKind::InvalidLength {
        field: "name".to_string(),
        min: Some(2),
        max: Some(100),
    });
    assert_eq!(both.message(), "name must be between 2 and 100 characters");
    let min_only = ValidationError::with_kind(ErrorKind::InvalidLength {
        field: "name".to_string(),
        min: Some(8),
        max: None,
    });
    assert_eq!(min_only.message(), "name must be at least 8 characters");
    let max_only = ValidationError::with_kind(ErrorKind::InvalidLength {
        field: "name".to_string(),
        min: None,
        max: Some(10),
    });
    assert_eq!(max_only.message(), "name must be at most 10 characters");
    let neither = ValidationError::with_kind(ErrorKind::InvalidLength {
        field: "name".to_string(),
        min: None,
        max: None,
    });
    assert_eq!(neither.message(), "name has invalid length");
}

#[test]
fn invalid_range_messages() {
    let both = ValidationError::with_kind(ErrorKind::InvalidRange {
        field: "age".to_string(),
        min: Some(18),
        max: Some(120),
    });
    assert_eq!(both.message(), "age must be between 18 and 120");
    let neg = ValidationError::with_kind(ErrorKind::InvalidRange {
        field: "depth".to_string(),
        min: Some(-40),
        max: None,
    });
    assert_eq!(neg.message(), "depth must be at least -40");
    let max_only = ValidationError::with_kind(ErrorKind::InvalidRange {
        field: "age".to_string(),
        min: None,
        max: Some(120),
    });
    assert_eq!(max_only.message(), "age must be at most 120");
    let neither = ValidationError::with_kind(ErrorKind::InvalidRange {
        field: "age".to_string(),
        min: None,
        max: None,
    });
    assert_eq!(neither.message(), "age is out of range");
}

#[test]
fn parse_error_message() {
    let e = ValidationError::with_kind(ErrorKind::ParseError {
        field: "age".to_string(),
        expected_type: "number".to_string(),
    });
    assert_eq!(e.message(), "age must be a valid number");
}

#[test]
fn custom_kind_message_is_the_message() {
    let e = ValidationError::with_kind(ErrorKind::Custom {
        field: "name".to_string(),
        message: "no digits allowed".to_string(),
    });
    assert_eq!(e.message(), "no digits allowed");
    assert_eq!(e.field, "name");
}

#[test]
fn legacy_new_synthesizes_custom_kind() {
    let e = ValidationError::new("email", "Email is required");
    assert_eq!(e.message(), "Email is required");
    assert!(matches!(
        e.kind(),
        ErrorKind::Custom { field, message } if field == "email" && message == "Email is required"
    ));
}

#[test]
fn kind_field_always_matches_carrier_field() {
    let kinds = vec![
        ErrorKind::Required { field: "a".to_string() },
        ErrorKind::InvalidEmail { field: "b".to_string() },
        ErrorKind::InvalidLength { field: "c".to_string(), min: Some(1), max: None },
        ErrorKind::InvalidRange { field: "d".to_string(), min: None, max: Some(9) },
        ErrorKind::ParseError { field: "e".to_string(), expected_type: "number".to_string() },
        ErrorKind::Custom { field: "f".to_string(), message: "m".to_string() },
    ];
    for kind in kinds {
        let e = ValidationError::with_kind(kind);
        assert_eq!(e.field, e.kind().field());
    }
}

#[test]
fn translate_renders_from_kind() {
    let e = ValidationError::with_kind(ErrorKind::Required { field: "name".to_string() });
    let rendered = e.translate(|kind| match kind {
        ErrorKind::Required { field } => format!("{} es requerido", field),
        other => other.default_message(),
    });
    assert_eq!(rendered, "name es requerido");
    // translation does not mutate the stored message
    assert_eq!(e.message(), "name is required");
}
