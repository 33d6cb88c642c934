//! Tests for the schema compiler: directive parsing and semantic checks.

use borang::{
    compile_schema, parse_directive, Converter, Directive, FieldDef, Param, ParamValue,
    SchemaError, Validator,
};

fn bare(name: &str) -> Directive {
    Directive { name: name.to_string(), params: Vec::new() }
}

fn with_params(name: &str, params: Vec<(&str, ParamValue)>) -> Directive {
    Directive {
        name: name.to_string(),
        params: params
            .into_iter()
            .map(|(n, v)| Param { name: n.to_string(), value: v })
            .collect(),
    }
}

#[test]
fn parses_bare_required_and_email() {
    assert_eq!(parse_directive(&bare("required")).unwrap(), Validator::Required);
    assert_eq!(parse_directive(&bare("email")).unwrap(), Validator::Email);
}

#[test]
fn unknown_directive_is_an_error_naming_the_token() {
    let err = parse_directive(&bare("requred")).unwrap_err();
    assert_eq!(err, SchemaError::UnknownDirective { name: "requred".to_string() });
    assert_eq!(
        err.message(),
        "Unknown validator: 'requred'. Valid validators are: required, email, length, range, custom"
    );
}

#[test]
fn length_requires_at_least_one_bound() {
    let err = parse_directive(&bare("length")).unwrap_err();
    assert_eq!(err, SchemaError::MissingBound { directive: "length".to_string() });
    assert_eq!(err.message(), "length validator requires at least one of: min, max");
    assert_eq!(
        parse_directive(&bare("range")).unwrap_err(),
        SchemaError::MissingBound { directive: "range".to_string() }
    );
}

#[test]
fn required_does_not_accept_parameters() {
    let d = with_params("required", vec![("min", ParamValue::Int(1))]);
    assert_eq!(
        parse_directive(&d).unwrap_err(),
        SchemaError::UnknownDirective { name: "required".to_string() }
    );
}

#[test]
fn length_with_bounds() {
    let d = with_params("length", vec![("min", ParamValue::Int(2)), ("max", ParamValue::Int(100))]);
    assert_eq!(
        parse_directive(&d).unwrap(),
        Validator::Length { min: Some(2), max: Some(100) }
    );
    let d = with_params("length", vec![("max", ParamValue::Int(10))]);
    assert_eq!(parse_directive(&d).unwrap(), Validator::Length { min: None, max: Some(10) });
}

#[test]
fn length_bound_must_be_an_integer() {
    let d = Directive { name: "length".to_string(), params: vec![Param {
        name: "min".to_string(),
        value: ParamValue::Str("2".to_string()),
    }] };
    let err = parse_directive(&d).unwrap_err();
    assert_eq!(
        err,
        SchemaError::ParamType { directive: "length".to_string(), param: "min".to_string() }
    );
    assert_eq!(err.message(), "min parameter must be an integer");
}

#[test]
fn length_unknown_parameter() {
    let d = with_params("length", vec![("minimum", ParamValue::Int(2))]);
    let err = parse_directive(&d).unwrap_err();
    assert_eq!(
        err,
        SchemaError::UnknownParam { directive: "length".to_string(), param: "minimum".to_string() }
    );
    assert_eq!(
        err.message(),
        "Unknown parameter 'minimum' for length validator. Valid parameters: min, max"
    );
}

#[test]
fn length_rejects_negative_bound() {
    let d = with_params("length", vec![("min", ParamValue::Int(-1))]);
    assert_eq!(
        parse_directive(&d).unwrap_err(),
        SchemaError::InvalidBound { directive: "length".to_string(), param: "min".to_string() }
    );
}

#[test]
fn range_with_bounds_and_negative_values() {
    let d = with_params("range", vec![("min", ParamValue::Int(-40)), ("max", ParamValue::Int(120))]);
    assert_eq!(
        parse_directive(&d).unwrap(),
        Validator::Range { min: Some(-40), max: Some(120) }
    );
}

#[test]
fn later_parameter_assignment_wins() {
    let d = with_params(
        "range",
        vec![("min", ParamValue::Int(1)), ("min", ParamValue::Int(5))],
    );
    assert_eq!(parse_directive(&d).unwrap(), Validator::Range { min: Some(5), max: None });
}

#[test]
fn custom_takes_exactly_one_string_argument() {
    let ok = with_params("custom", vec![("method", ParamValue::Str("check_name".to_string()))]);
    assert_eq!(
        parse_directive(&ok).unwrap(),
        Validator::Custom { method: "check_name".to_string() }
    );
    let not_a_string = with_params("custom", vec![("method", ParamValue::Int(3))]);
    assert_eq!(parse_directive(&not_a_string).unwrap_err(), SchemaError::CustomArg);
    let too_many = with_params(
        "custom",
        vec![
            ("a", ParamValue::Str("x".to_string())),
            ("b", ParamValue::Str("y".to_string())),
        ],
    );
    assert_eq!(parse_directive(&too_many).unwrap_err(), SchemaError::CustomArg);
}

fn contact_defs() -> Vec<FieldDef> {
    vec![
        FieldDef {
            name: "name".to_string(),
            converter: Converter::Text,
            directives: vec![
                bare("required"),
                with_params(
                    "length",
                    vec![("min", ParamValue::Int(2)), ("max", ParamValue::Int(100))],
                ),
            ],
        },
        FieldDef {
            name: "email".to_string(),
            converter: Converter::Text,
            directives: vec![bare("required"), bare("email")],
        },
    ]
}

#[test]
fn compiles_a_contact_schema() {
    assert!(compile_schema(&contact_defs()).is_ok());
}

#[test]
fn duplicate_field_names_are_rejected() {
    let mut defs = contact_defs();
    defs.push(FieldDef {
        name: "name".to_string(),
        converter: Converter::Text,
        directives: vec![bare("required")],
    });
    assert_eq!(
        compile_schema(&defs).unwrap_err(),
        SchemaError::DuplicateField { name: "name".to_string() }
    );
}

#[test]
fn custom_is_not_compilable_into_a_dynamic_schema() {
    let defs = vec![FieldDef {
        name: "name".to_string(),
        converter: Converter::Text,
        directives: vec![with_params(
            "custom",
            vec![("method", ParamValue::Str("check_name".to_string()))],
        )],
    }];
    assert_eq!(
        compile_schema(&defs).unwrap_err(),
        SchemaError::CustomUnsupported { method: "check_name".to_string() }
    );
}

#[test]
fn range_needs_a_numeric_field() {
    let defs = vec![FieldDef {
        name: "age".to_string(),
        converter: Converter::Text,
        directives: vec![with_params("range", vec![("min", ParamValue::Int(18))])],
    }];
    assert_eq!(
        compile_schema(&defs).unwrap_err(),
        SchemaError::RangeNeedsNumber { field: "age".to_string() }
    );
}

#[test]
fn a_directive_error_inside_a_field_surfaces() {
    let defs = vec![FieldDef {
        name: "name".to_string(),
        converter: Converter::Text,
        directives: vec![bare("requierd")],
    }];
    assert_eq!(
        compile_schema(&defs).unwrap_err(),
        SchemaError::UnknownDirective { name: "requierd".to_string() }
    );
}
