//! Tests for the conversion layer: string to typed value and back.

use borang::{ErrorKind, FromFieldValue};

#[test]
fn i64_parses_decimal() {
    assert_eq!(i64::from_field_value("age", "42").unwrap(), 42);
    assert_eq!(i64::from_field_value("age", "-7").unwrap(), -7);
    assert_eq!(i64::from_field_value("age", "+5").unwrap(), 5);
    assert_eq!(i64::from_field_value("age", "0").unwrap(), 0);
    assert_eq!(
        i64::from_field_value("age", "-9223372036854775808").unwrap(),
        i64::MIN
    );
    assert_eq!(
        i64::from_field_value("age", "9223372036854775807").unwrap(),
        i64::MAX
    );
}

#[test]
fn i64_rejects_garbage_as_parse_error() {
    for bad in ["abc", "", " 42", "42 ", "4.2", "--1", "9223372036854775808"] {
        let err = i64::from_field_value("age", bad).unwrap_err();
        assert!(
            matches!(
                err.kind(),
                ErrorKind::ParseError { field, expected_type }
                    if field == "age" && expected_type == "number"
            ),
            "expected parse error for {:?}",
            bad
        );
    }
}

#[test]
fn u64_parses_and_bounds() {
    assert_eq!(u64::from_field_value("n", "18446744073709551615").unwrap(), u64::MAX);
    assert!(u64::from_field_value("n", "18446744073709551616").is_err());
    assert!(u64::from_field_value("n", "-1").is_err());
}

#[test]
fn u32_bounds() {
    assert_eq!(u32::from_field_value("n", "4294967295").unwrap(), u32::MAX);
    assert!(u32::from_field_value("n", "4294967296").is_err());
}

#[test]
fn i32_bounds() {
    assert_eq!(i32::from_field_value("n", "-2147483648").unwrap(), i32::MIN);
    assert_eq!(i32::from_field_value("n", "2147483647").unwrap(), i32::MAX);
    assert!(i32::from_field_value("n", "-2147483649").is_err());
    assert!(i32::from_field_value("n", "2147483648").is_err());
}

#[test]
fn integers_render_in_decimal() {
    assert_eq!(42i64.to_field_value(), "42");
    assert_eq!((-7i64).to_field_value(), "-7");
    assert_eq!(i64::MIN.to_field_value(), "-9223372036854775808");
    assert_eq!(0u64.to_field_value(), "0");
    assert_eq!(u64::MAX.to_field_value(), "18446744073709551615");
    assert_eq!(1005u32.to_field_value(), "1005");
    assert_eq!((-12i32).to_field_value(), "-12");
}

#[test]
fn bool_parses_checkbox_values_and_never_fails() {
    assert_eq!(bool::from_field_value("f", "on").unwrap(), true);
    assert_eq!(bool::from_field_value("f", "true").unwrap(), true);
    assert_eq!(bool::from_field_value("f", "1").unwrap(), true);
    assert_eq!(bool::from_field_value("f", "off").unwrap(), false);
    assert_eq!(bool::from_field_value("f", "").unwrap(), false);
    assert_eq!(bool::from_field_value("f", "yes").unwrap(), false);
}

#[test]
fn bool_renders_true_false() {
    assert_eq!(true.to_field_value(), "true");
    assert_eq!(false.to_field_value(), "false");
}

#[test]
fn string_passes_through() {
    assert_eq!(String::from_field_value("f", "  hello ").unwrap(), "  hello ");
    assert_eq!("hi".to_string().to_field_value(), "hi");
}

#[test]
fn built_in_round_trips() {
    for v in [0i64, 1, -1, 42, i64::MIN, i64::MAX] {
        assert_eq!(i64::from_field_value("f", &v.to_field_value()).unwrap(), v);
    }
    for v in [0u64, 9, 10, u64::MAX] {
        assert_eq!(u64::from_field_value("f", &v.to_field_value()).unwrap(), v);
    }
    for v in [true, false] {
        assert_eq!(bool::from_field_value("f", &v.to_field_value()).unwrap(), v);
    }
    for v in ["", "x", "a b c"] {
        let s = v.to_string();
        assert_eq!(String::from_field_value("f", &s.to_field_value()).unwrap(), s);
    }
}
