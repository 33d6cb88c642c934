//! End-to-end tests for the form state machine.

use borang::{
    compile_schema, Converter, Directive, ErrorKind, FieldDef, Form, FormValidation, Param,
    ParamValue, Schema, SchemaForm,
};

fn bare(name: &str) -> Directive {
    Directive { name: name.to_string(), params: Vec::new() }
}

fn with_params(name: &str, params: Vec<(&str, ParamValue)>) -> Directive {
    Directive {
        name: name.to_string(),
        params: params
            .into_iter()
            .map(|(n, v)| Param { name: n.to_string(), value: v })
            .collect(),
    }
}

/// A schema with `name: required + length(2, 100)` and
/// `email: required + email`.
fn contact_schema() -> Schema {
    compile_schema(&vec![
        FieldDef {
            name: "name".to_string(),
            converter: Converter::Text,
            directives: vec![
                bare("required"),
                with_params(
                    "length",
                    vec![("min", ParamValue::Int(2)), ("max", ParamValue::Int(100))],
                ),
            ],
        },
        FieldDef {
            name: "email".to_string(),
            converter: Converter::Text,
            directives: vec![bare("required"), bare("email")],
        },
    ])
    .unwrap()
}

fn contact_form() -> Form<SchemaForm> {
    Form::from(SchemaForm::new(contact_schema()))
}

/// A schema with a numeric `age: range(18, 120)` field.
fn age_schema() -> Schema {
    compile_schema(&vec![FieldDef {
        name: "age".to_string(),
        converter: Converter::Signed,
        directives: vec![with_params(
            "range",
            vec![("min", ParamValue::Int(18)), ("max", ParamValue::Int(120))],
        )],
    }])
    .unwrap()
}

#[test]
fn end_to_end_submit_and_fix() {
    let mut form = contact_form();
    form.set_field_value("name", "");
    form.set_field_value("email", "bad");

    assert!(!form.validate());
    assert!(!form.is_valid());
    // Required runs before Length, so the empty name reports Required
    assert!(matches!(
        form.state.errors.get("name").unwrap().kind(),
        ErrorKind::Required { .. }
    ));
    assert!(matches!(
        form.state.errors.get("email").unwrap().kind(),
        ErrorKind::InvalidEmail { .. }
    ));

    form.set_field_value("name", "Jo");
    form.set_field_value("email", "jo@x.co");
    assert!(form.validate());
    assert!(form.is_valid());
    assert!(form.state.errors.get("name").is_none());
    assert!(form.state.errors.get("email").is_none());
}

#[test]
fn parse_error_takes_precedence_over_range() {
    let mut form: Form<SchemaForm> = Form::from(SchemaForm::new(age_schema()));
    form.set_field_value("age", "abc");
    assert!(!form.validate());
    let err = form.state.errors.get("age").unwrap();
    assert!(matches!(
        err.kind(),
        ErrorKind::ParseError { expected_type, .. } if expected_type == "number"
    ));
    // the unparseable field is never additionally checked against range
    assert!(!matches!(err.kind(), ErrorKind::InvalidRange { .. }));
}

#[test]
fn range_violation_after_successful_parse() {
    let mut form: Form<SchemaForm> = Form::from(SchemaForm::new(age_schema()));
    form.set_field_value("age", "17");
    assert!(!form.validate());
    assert!(matches!(
        form.state.errors.get("age").unwrap().kind(),
        ErrorKind::InvalidRange { min: Some(18), max: Some(120), .. }
    ));
    form.set_field_value("age", "30");
    assert!(form.validate());
    assert_eq!(
        form.data().value_of("age").unwrap(),
        &borang::TypedValue::Signed(30)
    );
}

#[test]
fn validate_field_is_idempotent() {
    let mut form = contact_form();
    form.set_field_value("name", "a");
    form.validate_field("name");
    let first = form.state.errors.get("name").cloned();
    form.validate_field("name");
    let second = form.state.errors.get("name").cloned();
    assert_eq!(first, second);
    assert!(first.is_some());

    form.set_field_value("name", "ab");
    form.validate_field("name");
    assert!(form.state.errors.get("name").is_none());
    form.validate_field("name");
    assert!(form.state.errors.get("name").is_none());
}

#[test]
fn error_message_is_gated_on_touch() {
    let mut form = contact_form();
    form.set_field_value("name", "");
    form.validate_field("name");
    // the error exists, but is not surfaced before the field is touched
    assert!(form.field_state("name").has_error());
    assert_eq!(form.error_message("name"), None);

    form.mark_touched("name");
    // surfaced immediately after touch, with no further value change
    assert_eq!(form.error_message("name").unwrap(), "name is required");
    let fs = form.field_state("name");
    assert!(fs.touched);
    assert_eq!(fs.error_message().unwrap(), "name is required");
}

#[test]
fn dirtiness_compares_to_initial_not_previous() {
    let mut data = SchemaForm::new(contact_schema());
    data.sync_field("name", "Jed");
    let mut form: Form<SchemaForm> = Form::from(data);
    assert!(!form.state.is_field_dirty("name"));

    form.set_field_value("name", "Jed");
    assert!(!form.state.is_field_dirty("name"));

    form.set_field_value("name", "Jedd");
    assert!(form.state.is_field_dirty("name"));
    assert!(form.state.is_form_dirty());

    form.set_field_value("name", "Jed");
    assert!(!form.state.is_field_dirty("name"));
    assert!(!form.state.is_form_dirty());
}

#[test]
fn reset_clears_values_touched_and_initials() {
    let mut form = contact_form();
    form.set_field_value("name", "Jo");
    form.set_field_value("email", "broken");
    form.mark_touched("name");
    form.validate();
    assert!(!form.is_valid());

    form.reset();
    let values = form.values();
    assert_eq!(values.get("name").unwrap().as_str(), "");
    assert_eq!(values.get("email").unwrap().as_str(), "");
    assert!(!form.state.is_field_touched("name"));
    assert!(!form.state.is_field_touched("email"));
    assert!(!form.state.is_form_touched());
    assert!(!form.state.is_form_dirty());
    assert!(form.is_valid());
    assert_eq!(form.data().value_of("name").unwrap(), &borang::TypedValue::Text(String::new()));
}

#[test]
fn unknown_field_names_are_silent_no_ops() {
    let mut form = contact_form();
    form.validate_field("no_such_field");
    assert!(form.state.errors.get("no_such_field").is_none());
    form.mark_touched("no_such_field");
    assert!(!form.state.is_form_touched());
}

#[test]
fn get_or_create_field_registers_lazily_and_idempotently() {
    let mut form: Form<SchemaForm> = Form::new();
    let sig = form.get_or_create_field("note");
    assert_eq!(sig.value, "");
    form.set_field_value("note", "hello");
    let again = form.get_or_create_field("note");
    assert_eq!(again.value, "hello");
}

#[test]
fn from_seeds_values_and_initials_from_the_data() {
    let mut data = SchemaForm::new(contact_schema());
    data.sync_field("name", "Jed");
    data.sync_field("email", "jed@email.co");
    let form: Form<SchemaForm> = Form::from(data);
    let values = form.values();
    assert_eq!(values.get("name").unwrap().as_str(), "Jed");
    assert_eq!(values.get("email").unwrap().as_str(), "jed@email.co");
    assert!(!form.state.is_form_dirty());
    assert!(!form.state.is_form_touched());
}

#[test]
fn component_state_reports_derived_flags() {
    let mut form = contact_form();
    let snapshot = form.component_state();
    assert!(!snapshot.dirty);
    assert!(!snapshot.touched);
    assert!(snapshot.valid);

    form.set_field_value("name", "x");
    form.mark_touched("name");
    form.validate();
    let snapshot = form.component_state();
    assert!(snapshot.dirty);
    assert!(snapshot.touched);
    assert!(!snapshot.valid);
    assert_eq!(snapshot.values.get("name").unwrap().as_str(), "x");
    assert!(snapshot.errors.get("name").is_some());
}

#[test]
fn fields_without_directives_are_excluded() {
    let schema = compile_schema(&vec![
        FieldDef {
            name: "name".to_string(),
            converter: Converter::Text,
            directives: vec![bare("required")],
        },
        FieldDef {
            name: "nickname".to_string(),
            converter: Converter::Text,
            directives: vec![],
        },
    ])
    .unwrap();
    let data = SchemaForm::new(schema);
    assert_eq!(data.field_names(), vec!["name".to_string()]);
}

#[test]
fn flag_fields_sync_from_checkbox_values() {
    let schema = compile_schema(&vec![FieldDef {
        name: "subscribed".to_string(),
        converter: Converter::Flag,
        directives: vec![bare("required")],
    }])
    .unwrap();
    let mut form: Form<SchemaForm> = Form::from(SchemaForm::new(schema));
    form.set_field_value("subscribed", "on");
    assert!(form.validate());
    assert_eq!(
        form.data().value_of("subscribed").unwrap(),
        &borang::TypedValue::Flag(true)
    );
}
