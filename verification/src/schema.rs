//! The declarative schema compiler.
//!
//! A domain object declares, per field, an ordered list of validator
//! directives written as plain data (`Directive`): a directive name and
//! named parameters. `parse_directive` checks one directive against the
//! closed directive language and `compile_schema` turns a list of field
//! definitions into a compiled `Schema` for the dynamic form, enforcing the
//! semantic rules: `length` and `range` need at least one bound, `custom`
//! needs exactly one string argument, unknown names and parameters are
//! errors, fields without directives are excluded, and duplicate field
//! names are rejected.

use vstd::prelude::*;
use vstd::string::*;

use crate::text::{dec_str, int_str};

verus! {

// ---------------------------------------------------------------------------
// Raw directives
// ---------------------------------------------------------------------------

/// Ghost model of a directive parameter value.
pub enum ParamValueV {
    Int(int),
    Str(Seq<char>),
}

/// A literal argument of a directive: an integer or a string.
pub enum ParamValue {
    Int(i64),
    Str(String),
}

impl View for ParamValue {
    type V = ParamValueV;

    open spec fn view(&self) -> ParamValueV {
        match self {
            ParamValue::Int(v) => ParamValueV::Int(*v as int),
            ParamValue::Str(s) => ParamValueV::Str(s@),
        }
    }
}

/// Ghost model of a named directive parameter.
pub struct ParamV {
    pub name: Seq<char>,
    pub value: ParamValueV,
}

/// A named directive parameter, such as `min = 2`.
pub struct Param {
    pub name: String,
    pub value: ParamValue,
}

impl View for Param {
    type V = ParamV;

    open spec fn view(&self) -> ParamV {
        ParamV { name: self.name@, value: self.value@ }
    }
}

/// Ghost model of a raw directive.
pub struct DirectiveV {
    pub name: Seq<char>,
    pub params: Seq<ParamV>,
}

/// A raw validator directive as the domain object's author wrote it: a name
/// and its parameters, e.g. `required` or `length(min = 2, max = 100)`.
pub struct Directive {
    pub name: String,
    pub params: Vec<Param>,
}

impl View for Directive {
    type V = DirectiveV;

    open spec fn view(&self) -> DirectiveV {
        DirectiveV { name: self.name@, params: self.params@.map_values(|p: Param| p@) }
    }
}

// ---------------------------------------------------------------------------
// Parsed validators and compile errors
// ---------------------------------------------------------------------------

/// Ghost model of a parsed validator.
pub enum ValidatorV {
    Required,
    Email,
    Length { min: Option<int>, max: Option<int> },
    Range { min: Option<int>, max: Option<int> },
    Custom { method: Seq<char> },
}

/// A parsed validator directive.
#[derive(Debug, PartialEq)]
pub enum Validator {
    Required,
    Email,
    Length { min: Option<usize>, max: Option<usize> },
    Range { min: Option<i64>, max: Option<i64> },
    Custom { method: String },
}

impl View for Validator {
    type V = ValidatorV;

    open spec fn view(&self) -> ValidatorV {
        match self {
            Validator::Required => ValidatorV::Required,
            Validator::Email => ValidatorV::Email,
            Validator::Length { min, max } => ValidatorV::Length {
                min: crate::rules::opt_usize_int(*min),
                max: crate::rules::opt_usize_int(*max),
            },
            Validator::Range { min, max } => ValidatorV::Range {
                min: crate::rules::opt_i64_int(*min),
                max: crate::rules::opt_i64_int(*max),
            },
            Validator::Custom { method } => ValidatorV::Custom { method: method@ },
        }
    }
}

/// Ghost model of a schema compile error.
pub enum SchemaErrorV {
    UnknownDirective { name: Seq<char> },
    UnknownParam { directive: Seq<char>, param: Seq<char> },
    ParamType { directive: Seq<char>, param: Seq<char> },
    InvalidBound { directive: Seq<char>, param: Seq<char> },
    MissingBound { directive: Seq<char> },
    CustomArg,
    DuplicateField { name: Seq<char> },
    CustomUnsupported { method: Seq<char> },
    RangeNeedsNumber { field: Seq<char> },
}

/// A schema compile error: the directive language's definition-time
/// failures. These are fatal at schema-definition time, never at run time.
#[derive(Debug, PartialEq)]
pub enum SchemaError {
    /// The directive name is not one of the closed directive language.
    UnknownDirective { name: String },
    /// The directive does not accept a parameter of this name.
    UnknownParam { directive: String, param: String },
    /// The parameter value must be an integer.
    ParamType { directive: String, param: String },
    /// The integer bound does not fit the parameter.
    InvalidBound { directive: String, param: String },
    /// `length` and `range` require at least one of `min`, `max`.
    MissingBound { directive: String },
    /// `custom` requires exactly one string argument naming a method.
    CustomArg,
    /// Two kept field definitions share one name.
    DuplicateField { name: String },
    /// The dynamic schema cannot call named methods.
    CustomUnsupported { method: String },
    /// `range` applies only to numeric fields.
    RangeNeedsNumber { field: String },
}

impl View for SchemaError {
    type V = SchemaErrorV;

    open spec fn view(&self) -> SchemaErrorV {
        match self {
            SchemaError::UnknownDirective { name } => SchemaErrorV::UnknownDirective {
                name: name@,
            },
            SchemaError::UnknownParam { directive, param } => SchemaErrorV::UnknownParam {
                directive: directive@,
                param: param@,
            },
            SchemaError::ParamType { directive, param } => SchemaErrorV::ParamType {
                directive: directive@,
                param: param@,
            },
            SchemaError::InvalidBound { directive, param } => SchemaErrorV::InvalidBound {
                directive: directive@,
                param: param@,
            },
            SchemaError::MissingBound { directive } => SchemaErrorV::MissingBound {
                directive: directive@,
            },
            SchemaError::CustomArg => SchemaErrorV::CustomArg,
            SchemaError::DuplicateField { name } => SchemaErrorV::DuplicateField { name: name@ },
            SchemaError::CustomUnsupported { method } => SchemaErrorV::CustomUnsupported {
                method: method@,
            },
            SchemaError::RangeNeedsNumber { field } => SchemaErrorV::RangeNeedsNumber {
                field: field@,
            },
        }
    }
}

/// The rendering of a schema error, naming the offending token and the
/// valid alternatives.
pub open spec fn schema_error_message(e: SchemaErrorV) -> Seq<char> {
    match e {
        SchemaErrorV::UnknownDirective { name } => "Unknown validator: '"@ + name
            + "'. Valid validators are: required, email, length, range, custom"@,
        SchemaErrorV::UnknownParam { directive, param } => "Unknown parameter '"@ + param
            + "' for "@ + directive + " validator. Valid parameters: min, max"@,
        SchemaErrorV::ParamType { directive: _, param } => param
            + " parameter must be an integer"@,
        SchemaErrorV::InvalidBound { directive: _, param } => "Invalid "@ + param + " value"@,
        SchemaErrorV::MissingBound { directive } => directive
            + " validator requires at least one of: min, max"@,
        SchemaErrorV::CustomArg =>
            "custom validator requires exactly one string argument naming a method"@,
        SchemaErrorV::DuplicateField { name } => "Duplicate field: '"@ + name + "'"@,
        SchemaErrorV::CustomUnsupported { method } => "Custom validator '"@ + method
            + "' requires a hand-written FormValidation implementation"@,
        SchemaErrorV::RangeNeedsNumber { field } => "Range validator on field '"@ + field
            + "' requires a numeric field"@,
    }
}

impl SchemaError {
    /// Render this error as text.
    pub fn message(&self) -> (r: String)
        ensures
            r@ == schema_error_message(self@),
    {
        match self {
            SchemaError::UnknownDirective { name } => {
                let mut r = "Unknown validator: '".to_owned();
                r.append(name.as_str());
                r.append("'. Valid validators are: required, email, length, range, custom");
                r
            },
            SchemaError::UnknownParam { directive, param } => {
                let mut r = "Unknown parameter '".to_owned();
                r.append(param.as_str());
                r.append("' for ");
                r.append(directive.as_str());
                r.append(" validator. Valid parameters: min, max");
                r
            },
            SchemaError::ParamType { directive: _, param } => {
                let mut r = param.clone();
                r.append(" parameter must be an integer");
                r
            },
            SchemaError::InvalidBound { directive: _, param } => {
                let mut r = "Invalid ".to_owned();
                r.append(param.as_str());
                r.append(" value");
                r
            },
            SchemaError::MissingBound { directive } => {
                let mut r = directive.clone();
                r.append(" validator requires at least one of: min, max");
                r
            },
            SchemaError::CustomArg => {
                "custom validator requires exactly one string argument naming a method".to_owned()
            },
            SchemaError::DuplicateField { name } => {
                let mut r = "Duplicate field: '".to_owned();
                r.append(name.as_str());
                r.append("'");
                r
            },
            SchemaError::CustomUnsupported { method } => {
                let mut r = "Custom validator '".to_owned();
                r.append(method.as_str());
                r.append("' requires a hand-written FormValidation implementation");
                r
            },
            SchemaError::RangeNeedsNumber { field } => {
                let mut r = "Range validator on field '".to_owned();
                r.append(field.as_str());
                r.append("' requires a numeric field");
                r
            },
        }
    }
}

// ---------------------------------------------------------------------------
// Directive parsing
// ---------------------------------------------------------------------------

/// A bound is admissible: `length` bounds must fit a `usize`, `range`
/// bounds are any `i64`.
pub open spec fn bound_ok(v: int, signed: bool) -> bool {
    if signed {
        true
    } else {
        0 <= v <= usize::MAX
    }
}

/// Fold the `min` / `max` parameters of a `length` or `range` directive, in
/// order, later assignments overriding earlier ones.
pub open spec fn fold_bounds(
    directive: Seq<char>,
    signed: bool,
    params: Seq<ParamV>,
    lo: Option<int>,
    hi: Option<int>,
) -> Result<(Option<int>, Option<int>), SchemaErrorV>
    decreases params.len(),
{
    if params.len() == 0 {
        Ok((lo, hi))
    } else {
        let p = params[0];
        if p.name == "min"@ {
            match p.value {
                ParamValueV::Int(v) => if bound_ok(v, signed) {
                    fold_bounds(directive, signed, params.drop_first(), Some(v), hi)
                } else {
                    Err(SchemaErrorV::InvalidBound { directive, param: p.name })
                },
                ParamValueV::Str(_) => Err(SchemaErrorV::ParamType { directive, param: p.name }),
            }
        } else if p.name == "max"@ {
            match p.value {
                ParamValueV::Int(v) => if bound_ok(v, signed) {
                    fold_bounds(directive, signed, params.drop_first(), lo, Some(v))
                } else {
                    Err(SchemaErrorV::InvalidBound { directive, param: p.name })
                },
                ParamValueV::Str(_) => Err(SchemaErrorV::ParamType { directive, param: p.name }),
            }
        } else {
            Err(SchemaErrorV::UnknownParam { directive, param: p.name })
        }
    }
}

/// The result of parsing one raw directive.
pub open spec fn parse_directive_spec(d: DirectiveV) -> Result<ValidatorV, SchemaErrorV> {
    if d.name == "required"@ {
        if d.params.len() == 0 {
            Ok(ValidatorV::Required)
        } else {
            Err(SchemaErrorV::UnknownDirective { name: d.name })
        }
    } else if d.name == "email"@ {
        if d.params.len() == 0 {
            Ok(ValidatorV::Email)
        } else {
            Err(SchemaErrorV::UnknownDirective { name: d.name })
        }
    } else if d.name == "length"@ {
        match fold_bounds(d.name, false, d.params, None, None) {
            Ok((lo, hi)) => if lo is None && hi is None {
                Err(SchemaErrorV::MissingBound { directive: d.name })
            } else {
                Ok(ValidatorV::Length { min: lo, max: hi })
            },
            Err(e) => Err(e),
        }
    } else if d.name == "range"@ {
        match fold_bounds(d.name, true, d.params, None, None) {
            Ok((lo, hi)) => if lo is None && hi is None {
                Err(SchemaErrorV::MissingBound { directive: d.name })
            } else {
                Ok(ValidatorV::Range { min: lo, max: hi })
            },
            Err(e) => Err(e),
        }
    } else if d.name == "custom"@ {
        if d.params.len() == 1 {
            match d.params[0].value {
                ParamValueV::Str(method) => Ok(ValidatorV::Custom { method }),
                ParamValueV::Int(_) => Err(SchemaErrorV::CustomArg),
            }
        } else {
            Err(SchemaErrorV::CustomArg)
        }
    } else {
        Err(SchemaErrorV::UnknownDirective { name: d.name })
    }
}

/// Fold the bound parameters at run time; `signed` selects the admissible
/// bound domain.
fn fold_bounds_exec(
    directive: &String,
    signed: bool,
    params: &Vec<Param>,
) -> (r: Result<(Option<i64>, Option<i64>), SchemaError>)
    ensures
        match (r, fold_bounds(directive@, signed, params@.map_values(|p: Param| p@), None, None)) {
            (Ok((lo, hi)), Ok((slo, shi))) => crate::rules::opt_i64_int(lo) == slo
                && crate::rules::opt_i64_int(hi) == shi && (!signed ==> (match lo {
                Some(v) => 0 <= v <= usize::MAX,
                None => true,
            }) && (match hi {
                Some(v) => 0 <= v <= usize::MAX,
                None => true,
            })),
            (Err(e), Err(se)) => e@ == se,
            _ => false,
        },
{
    let ghost full = params@.map_values(|p: Param| p@);
    let n = params.len();
    let mut lo: Option<i64> = None;
    let mut hi: Option<i64> = None;
    let mut i: usize = 0;
    proof {
        assert(full.skip(0) =~= full);
    }
    while i < n
        invariant
            i <= n,
            n == params@.len(),
            full == params@.map_values(|p: Param| p@),
            fold_bounds(directive@, signed, full, None, None) == fold_bounds(
                directive@,
                signed,
                full.skip(i as int),
                crate::rules::opt_i64_int(lo),
                crate::rules::opt_i64_int(hi),
            ),
            !signed ==> (match lo {
                Some(v) => 0 <= v <= usize::MAX,
                None => true,
            }),
            !signed ==> (match hi {
                Some(v) => 0 <= v <= usize::MAX,
                None => true,
            }),
        decreases n - i,
    {
        proof {
            assert(full.skip(i as int)[0] == full[i as int]);
            assert(full.skip(i as int).drop_first() =~= full.skip(i as int + 1));
        }
        let p = &params[i];
        let is_min = crate::text::str_eq(p.name.as_str(), "min");
        let is_max = if is_min {
            false
        } else {
            crate::text::str_eq(p.name.as_str(), "max")
        };
        if is_min || is_max {
            match &p.value {
                ParamValue::Int(v) => {
                    let admissible = if signed {
                        true
                    } else {
                        0 <= *v && (*v as u64) <= (usize::MAX as u64)
                    };
                    if admissible {
                        if is_min {
                            lo = Some(*v);
                        } else {
                            hi = Some(*v);
                        }
                    } else {
                        return Err(SchemaError::InvalidBound {
                            directive: directive.clone(),
                            param: p.name.clone(),
                        });
                    }
                },
                ParamValue::Str(_) => {
                    return Err(SchemaError::ParamType {
                        directive: directive.clone(),
                        param: p.name.clone(),
                    });
                },
            }
        } else {
            return Err(SchemaError::UnknownParam {
                directive: directive.clone(),
                param: p.name.clone(),
            });
        }
        i += 1;
    }
    proof {
        assert(full.skip(n as int) =~= Seq::<ParamV>::empty());
    }
    Ok((lo, hi))
}

/// Parse one raw directive against the closed directive language.
pub fn parse_directive(d: &Directive) -> (r: Result<Validator, SchemaError>)
    ensures
        match (r, parse_directive_spec(d@)) {
            (Ok(v), Ok(sv)) => v@ == sv,
            (Err(e), Err(se)) => e@ == se,
            _ => false,
        },
{
    let has_params = d.params.len() > 0;
    if crate::text::str_eq(d.name.as_str(), "required") {
        if !has_params {
            Ok(Validator::Required)
        } else {
            Err(SchemaError::UnknownDirective { name: d.name.clone() })
        }
    } else if crate::text::str_eq(d.name.as_str(), "email") {
        if !has_params {
            Ok(Validator::Email)
        } else {
            Err(SchemaError::UnknownDirective { name: d.name.clone() })
        }
    } else if crate::text::str_eq(d.name.as_str(), "length") {
        match fold_bounds_exec(&d.name, false, &d.params) {
            Ok((lo, hi)) => {
                if lo.is_none() && hi.is_none() {
                    Err(SchemaError::MissingBound { directive: d.name.clone() })
                } else {
                    let min: Option<usize> = match lo {
                        Some(v) => Some(v as usize),
                        None => None,
                    };
                    let max: Option<usize> = match hi {
                        Some(v) => Some(v as usize),
                        None => None,
                    };
                    Ok(Validator::Length { min, max })
                }
            },
            Err(e) => Err(e),
        }
    } else if crate::text::str_eq(d.name.as_str(), "range") {
        match fold_bounds_exec(&d.name, true, &d.params) {
            Ok((lo, hi)) => {
                if lo.is_none() && hi.is_none() {
                    Err(SchemaError::MissingBound { directive: d.name.clone() })
                } else {
                    Ok(Validator::Range { min: lo, max: hi })
                }
            },
            Err(e) => Err(e),
        }
    } else if crate::text::str_eq(d.name.as_str(), "custom") {
        if d.params.len() == 1 {
            match &d.params[0].value {
                ParamValue::Str(method) => {
                    proof {
                        assert(d@.params[0] == d.params@[0]@);
                    }
                    Ok(Validator::Custom { method: method.clone() })
                },
                ParamValue::Int(_) => {
                    proof {
                        assert(d@.params[0] == d.params@[0]@);
                    }
                    Err(SchemaError::CustomArg)
                },
            }
        } else {
            Err(SchemaError::CustomArg)
        }
    } else {
        Err(SchemaError::UnknownDirective { name: d.name.clone() })
    }
}


// ---------------------------------------------------------------------------
// Converters and typed values
// ---------------------------------------------------------------------------

/// The conversion applied between a field's string form and its slot in the
/// dynamic domain object.
#[derive(Clone, Copy, PartialEq, Eq, Structural, Debug)]
pub enum Converter {
    /// Pass-through text.
    Text,
    /// Signed integer, parsed as `i64`.
    Signed,
    /// Unsigned integer, parsed as `u64`.
    Unsigned,
    /// Boolean: `"on" | "true" | "1"` mean true, anything else false.
    Flag,
}

/// A converter with a numeric projection, admissible for `range`.
pub open spec fn numeric_converter(c: Converter) -> bool {
    c == Converter::Signed || c == Converter::Unsigned
}

/// Ghost model of a typed field value.
pub enum TypedV {
    Text(Seq<char>),
    Signed(i64),
    Unsigned(u64),
    Flag(bool),
}

/// A typed field value in the dynamic domain object.
#[derive(Debug, PartialEq)]
pub enum TypedValue {
    Text(String),
    Signed(i64),
    Unsigned(u64),
    Flag(bool),
}

impl View for TypedValue {
    type V = TypedV;

    open spec fn view(&self) -> TypedV {
        match self {
            TypedValue::Text(s) => TypedV::Text(s@),
            TypedValue::Signed(v) => TypedV::Signed(*v),
            TypedValue::Unsigned(v) => TypedV::Unsigned(*v),
            TypedValue::Flag(b) => TypedV::Flag(*b),
        }
    }
}

impl Clone for TypedValue {
    fn clone(&self) -> (r: Self)
        ensures
            r == *self,
    {
        match self {
            TypedValue::Text(s) => TypedValue::Text(s.clone()),
            TypedValue::Signed(v) => TypedValue::Signed(*v),
            TypedValue::Unsigned(v) => TypedValue::Unsigned(*v),
            TypedValue::Flag(b) => TypedValue::Flag(*b),
        }
    }
}

/// The typed value matches its converter.
pub open spec fn typed_matches(c: Converter, tv: TypedV) -> bool {
    match (c, tv) {
        (Converter::Text, TypedV::Text(_)) => true,
        (Converter::Signed, TypedV::Signed(_)) => true,
        (Converter::Unsigned, TypedV::Unsigned(_)) => true,
        (Converter::Flag, TypedV::Flag(_)) => true,
        _ => false,
    }
}

/// The string rendering of a typed value, as shown in its field.
pub open spec fn render_typed(tv: TypedV) -> Seq<char> {
    match tv {
        TypedV::Text(s) => s,
        TypedV::Signed(v) => int_str(v as int),
        TypedV::Unsigned(v) => dec_str(v as nat),
        TypedV::Flag(b) => if b {
            "true"@
        } else {
            "false"@
        },
    }
}

/// The numeric projection of a typed value (zero where none exists; the
/// compiled schema admits `range` only on numeric fields).
pub open spec fn proj_typed(tv: TypedV) -> int {
    match tv {
        TypedV::Signed(v) => v as int,
        TypedV::Unsigned(v) => v as int,
        _ => 0,
    }
}

/// The default typed value of a converter.
pub open spec fn default_typed(c: Converter) -> TypedV {
    match c {
        Converter::Text => TypedV::Text(Seq::empty()),
        Converter::Signed => TypedV::Signed(0),
        Converter::Unsigned => TypedV::Unsigned(0),
        Converter::Flag => TypedV::Flag(false),
    }
}

/// The result of parsing a raw field string under a converter.
pub open spec fn parse_typed_spec(c: Converter, field: Seq<char>, raw: Seq<char>) -> Result<
    TypedV,
    crate::errors::ErrorV,
> {
    match c {
        Converter::Text => Ok(TypedV::Text(raw)),
        Converter::Signed => match crate::text::parse_i64_spec(raw) {
            Some(n) => Ok(TypedV::Signed(n)),
            None => Err(crate::convert::number_parse_error(field)),
        },
        Converter::Unsigned => match crate::text::parse_u64_spec(raw) {
            Some(n) => Ok(TypedV::Unsigned(n)),
            None => Err(crate::convert::number_parse_error(field)),
        },
        Converter::Flag => Ok(TypedV::Flag(raw == "on"@ || raw == "true"@ || raw == "1"@)),
    }
}

/// The default typed value of a converter, at run time.
pub fn default_value(c: Converter) -> (r: TypedValue)
    ensures
        r@ == default_typed(c),
{
    match c {
        Converter::Text => {
            let r = TypedValue::Text(String::new());
            proof {
                assert(r@ == default_typed(c));
            }
            r
        },
        Converter::Signed => TypedValue::Signed(0),
        Converter::Unsigned => TypedValue::Unsigned(0),
        Converter::Flag => TypedValue::Flag(false),
    }
}

/// Parse a raw field string under a converter.
pub fn parse_typed(c: Converter, field_name: &str, raw: &str) -> (r: Result<
    TypedValue,
    crate::errors::ValidationError,
>)
    ensures
        match (r, parse_typed_spec(c, field_name@, raw@)) {
            (Ok(v), Ok(tv)) => v@ == tv,
            (Err(e), Err(se)) => e@ == se && e@.wf(),
            _ => false,
        },
{
    match c {
        Converter::Text => Ok(TypedValue::Text(raw.to_owned())),
        Converter::Signed => {
            let chars = crate::text::chars_of(raw);
            match crate::text::parse_i64_chars(&chars) {
                Some(n) => Ok(TypedValue::Signed(n)),
                None => Err(crate::errors::ValidationError::with_kind(
                    crate::errors::ErrorKind::ParseError {
                        field: field_name.to_owned(),
                        expected_type: "number".to_owned(),
                    },
                )),
            }
        },
        Converter::Unsigned => {
            let chars = crate::text::chars_of(raw);
            match crate::text::parse_u64_chars(&chars) {
                Some(n) => Ok(TypedValue::Unsigned(n)),
                None => Err(crate::errors::ValidationError::with_kind(
                    crate::errors::ErrorKind::ParseError {
                        field: field_name.to_owned(),
                        expected_type: "number".to_owned(),
                    },
                )),
            }
        },
        Converter::Flag => Ok(TypedValue::Flag(
            crate::text::str_eq(raw, "on") || crate::text::str_eq(raw, "true")
                || crate::text::str_eq(raw, "1"),
        )),
    }
}

/// Render a typed value back to its field string.
pub fn render_value(tv: &TypedValue) -> (r: String)
    ensures
        r@ == render_typed(tv@),
{
    match tv {
        TypedValue::Text(s) => s.clone(),
        TypedValue::Signed(v) => crate::text::i64_to_string(*v),
        TypedValue::Unsigned(v) => crate::text::u64_to_string(*v),
        TypedValue::Flag(b) => if *b {
            "true".to_owned()
        } else {
            "false".to_owned()
        },
    }
}

// ---------------------------------------------------------------------------
// Validator evaluation on typed values
// ---------------------------------------------------------------------------

/// The outcome of one parsed validator on one typed value. String-shaped
/// validators look at the value's rendering; `range` looks at the numeric
/// projection; `custom` is not evaluable here (the compiled schema excludes
/// it) and passes.
pub open spec fn validator_error(
    v: ValidatorV,
    field: Seq<char>,
    tv: TypedV,
) -> Option<crate::errors::KindV> {
    match v {
        ValidatorV::Required => crate::rules::rule_error(
            crate::rules::RuleV::Required,
            field,
            render_typed(tv),
        ),
        ValidatorV::Email => crate::rules::rule_error(
            crate::rules::RuleV::Email,
            field,
            render_typed(tv),
        ),
        ValidatorV::Length { min, max } => crate::rules::rule_error(
            crate::rules::RuleV::Length { min, max },
            field,
            render_typed(tv),
        ),
        ValidatorV::Range { min, max } => crate::rules::range_error_num(
            field,
            proj_typed(tv),
            min,
            max,
        ),
        ValidatorV::Custom { .. } => None,
    }
}

/// The first failure among `vs[i..]` on one typed value.
pub open spec fn validators_error_from(
    vs: Seq<ValidatorV>,
    i: int,
    field: Seq<char>,
    tv: TypedV,
) -> Option<crate::errors::KindV>
    decreases vs.len() - i,
{
    if i < 0 || i >= vs.len() {
        None
    } else {
        match validator_error(vs[i], field, tv) {
            Some(k) => Some(k),
            None => validators_error_from(vs, i + 1, field, tv),
        }
    }
}

/// The first failure of a validator chain on one typed value.
pub open spec fn validators_error(
    vs: Seq<ValidatorV>,
    field: Seq<char>,
    tv: TypedV,
) -> Option<crate::errors::KindV> {
    validators_error_from(vs, 0, field, tv)
}

fn check_validator(v: &Validator, field_name: &str, tv: &TypedValue) -> (r: Option<
    crate::errors::ValidationError,
>)
    ensures
        match validator_error(v@, field_name@, tv@) {
            None => r is None,
            Some(k) => r matches Some(e) && e@ == crate::errors::error_of(k) && e@.wf(),
        },
{
    match v {
        Validator::Required => {
            let rendered = render_value(tv);
            if crate::text::is_blank(rendered.as_str()) {
                Some(crate::errors::ValidationError::with_kind(
                    crate::errors::ErrorKind::Required { field: field_name.to_owned() },
                ))
            } else {
                None
            }
        },
        Validator::Email => {
            let rendered = render_value(tv);
            if rendered.as_str().is_empty() {
                None
            } else if crate::email::matches_email(rendered.as_str()) {
                None
            } else {
                Some(crate::errors::ValidationError::with_kind(
                    crate::errors::ErrorKind::InvalidEmail { field: field_name.to_owned() },
                ))
            }
        },
        Validator::Length { min, max } => {
            let rendered = render_value(tv);
            let len = rendered.as_str().unicode_len();
            let fails = match min {
                Some(mn) => len < *mn,
                None => false,
            } || match max {
                Some(mx) => len > *mx,
                None => false,
            };
            if fails {
                Some(crate::errors::ValidationError::with_kind(
                    crate::errors::ErrorKind::InvalidLength {
                        field: field_name.to_owned(),
                        min: *min,
                        max: *max,
                    },
                ))
            } else {
                None
            }
        },
        Validator::Range { min, max } => {
            let below = match (min, tv) {
                (Some(m), TypedValue::Signed(v)) => *v < *m,
                (Some(m), TypedValue::Unsigned(v)) => *m > 0 && *v < (*m as u64),
                (Some(m), _) => 0 < *m,
                (None, _) => false,
            };
            let above = match (max, tv) {
                (Some(m), TypedValue::Signed(v)) => *v > *m,
                (Some(m), TypedValue::Unsigned(v)) => *m < 0 || *v > (*m as u64),
                (Some(m), _) => 0 > *m,
                (None, _) => false,
            };
            if below || above {
                Some(crate::errors::ValidationError::with_kind(
                    crate::errors::ErrorKind::InvalidRange {
                        field: field_name.to_owned(),
                        min: *min,
                        max: *max,
                    },
                ))
            } else {
                None
            }
        },
        Validator::Custom { .. } => None,
    }
}

/// Check a compiled validator chain against one typed value, first failure
/// wins.
pub fn check_validators(vs: &Vec<Validator>, field_name: &str, tv: &TypedValue) -> (r: Option<
    crate::errors::ValidationError,
>)
    ensures
        match validators_error(vs@.map_values(|v: Validator| v@), field_name@, tv@) {
            None => r is None,
            Some(k) => r matches Some(e) && e@ == crate::errors::error_of(k) && e@.wf(),
        },
{
    let ghost m = vs@.map_values(|v: Validator| v@);
    let n = vs.len();
    let mut i: usize = 0;
    while i < n
        invariant
            i <= n,
            n == vs@.len(),
            m == vs@.map_values(|v: Validator| v@),
            validators_error_from(m, 0, field_name@, tv@) == validators_error_from(
                m,
                i as int,
                field_name@,
                tv@,
            ),
        decreases n - i,
    {
        let result = check_validator(&vs[i], field_name, tv);
        proof {
            assert(m[i as int] == vs@[i as int]@);
        }
        match result {
            Some(e) => {
                return Some(e);
            },
            None => {
                proof {
                    assert(validators_error_from(m, i as int, field_name@, tv@)
                        == validators_error_from(m, i as int + 1, field_name@, tv@));
                }
            },
        }
        i += 1;
    }
    None
}

// ---------------------------------------------------------------------------
// Field definitions and schema compilation
// ---------------------------------------------------------------------------

/// Ghost model of a field definition.
pub struct FieldDefV {
    pub name: Seq<char>,
    pub converter: Converter,
    pub directives: Seq<DirectiveV>,
}

/// One field of a domain object: its name, its converter, and its ordered
/// validator directives.
pub struct FieldDef {
    pub name: String,
    pub converter: Converter,
    pub directives: Vec<Directive>,
}

impl View for FieldDef {
    type V = FieldDefV;

    open spec fn view(&self) -> FieldDefV {
        FieldDefV {
            name: self.name@,
            converter: self.converter,
            directives: self.directives@.map_values(|d: Directive| d@),
        }
    }
}

/// Ghost model of a compiled field schema.
pub struct FieldSchemaV {
    pub name: Seq<char>,
    pub converter: Converter,
    pub validators: Seq<ValidatorV>,
}

/// A compiled field: name, converter and parsed validator chain.
#[derive(Debug)]
pub struct FieldSchema {
    pub name: String,
    pub converter: Converter,
    pub validators: Vec<Validator>,
}

impl View for FieldSchema {
    type V = FieldSchemaV;

    open spec fn view(&self) -> FieldSchemaV {
        FieldSchemaV {
            name: self.name@,
            converter: self.converter,
            validators: self.validators@.map_values(|v: Validator| v@),
        }
    }
}

/// A validator chain is free of `custom` directives.
pub open spec fn custom_free(vs: Seq<ValidatorV>) -> bool {
    forall|j: int| 0 <= j < vs.len() ==> !(#[trigger] vs[j] is Custom)
}

/// A validator chain contains a `range` directive.
pub open spec fn has_range(vs: Seq<ValidatorV>) -> bool {
    exists|j: int| 0 <= j < vs.len() && #[trigger] vs[j] is Range
}

/// The method name of the first `custom` directive, if any.
pub open spec fn find_custom(vs: Seq<ValidatorV>) -> Option<Seq<char>>
    decreases vs.len(),
{
    if vs.len() == 0 {
        None
    } else {
        match vs[0] {
            ValidatorV::Custom { method } => Some(method),
            _ => find_custom(vs.drop_first()),
        }
    }
}

/// The names of a compiled field list, in order.
pub open spec fn schema_names(s: Seq<FieldSchemaV>) -> Seq<Seq<char>> {
    s.map_values(|f: FieldSchemaV| f.name)
}

/// The names of a field definition list, in order.
pub open spec fn def_names(defs: Seq<FieldDefV>) -> Seq<Seq<char>> {
    defs.map_values(|d: FieldDefV| d.name)
}

/// Well-formedness of a compiled field list: distinct names, no `custom`
/// validators, and `range` only on numeric fields.
pub open spec fn schema_wf_fields(s: Seq<FieldSchemaV>) -> bool {
    &&& s.map_values(|f: FieldSchemaV| f.name).no_duplicates()
    &&& forall|i: int| 0 <= i < s.len() ==> custom_free(#[trigger] s[i].validators)
    &&& forall|i: int|
        0 <= i < s.len() && has_range(#[trigger] s[i].validators) ==> numeric_converter(
            s[i].converter,
        )
}

/// Parse a field's directives in order; the first parse error wins.
pub open spec fn parse_directives_spec(ds: Seq<DirectiveV>) -> Result<
    Seq<ValidatorV>,
    SchemaErrorV,
>
    decreases ds.len(),
{
    if ds.len() == 0 {
        Ok(Seq::empty())
    } else {
        match parse_directive_spec(ds[0]) {
            Err(e) => Err(e),
            Ok(v) => match parse_directives_spec(ds.drop_first()) {
                Err(e) => Err(e),
                Ok(rest) => Ok(seq![v] + rest),
            },
        }
    }
}

/// Compile the kept fields (those with at least one directive), in order.
pub open spec fn compile_fields_spec(defs: Seq<FieldDefV>) -> Result<
    Seq<FieldSchemaV>,
    SchemaErrorV,
>
    decreases defs.len(),
{
    if defs.len() == 0 {
        Ok(Seq::empty())
    } else {
        let d = defs[0];
        if d.directives.len() == 0 {
            compile_fields_spec(defs.drop_first())
        } else {
            match parse_directives_spec(d.directives) {
                Err(e) => Err(e),
                Ok(vs) => match find_custom(vs) {
                    Some(method) => Err(SchemaErrorV::CustomUnsupported { method }),
                    None => if has_range(vs) && !numeric_converter(d.converter) {
                        Err(SchemaErrorV::RangeNeedsNumber { field: d.name })
                    } else {
                        match compile_fields_spec(defs.drop_first()) {
                            Err(e) => Err(e),
                            Ok(rest) => Ok(
                                seq![
                                    FieldSchemaV {
                                        name: d.name,
                                        converter: d.converter,
                                        validators: vs,
                                    },
                                ] + rest,
                            ),
                        }
                    },
                },
            }
        }
    }
}

/// The full compilation: duplicate names are rejected first, then the kept
/// fields are compiled in order.
pub open spec fn compile_schema_spec(defs: Seq<FieldDefV>) -> Result<
    Seq<FieldSchemaV>,
    SchemaErrorV,
> {
    if !defs.map_values(|d: FieldDefV| d.name).no_duplicates() {
        Err(SchemaErrorV::DuplicateField { name: first_dup(defs.map_values(|d: FieldDefV| d.name)) })
    } else {
        compile_fields_spec(defs)
    }
}

/// The earliest name that repeats an earlier one.
pub open spec fn first_dup(names: Seq<Seq<char>>) -> Seq<char> {
    first_dup_from(names, 0)
}

pub open spec fn first_dup_from(names: Seq<Seq<char>>, j: int) -> Seq<char>
    decreases names.len() - j,
{
    if j < 0 || j >= names.len() {
        Seq::empty()
    } else if exists|i: int| 0 <= i < j && names[i] == names[j] {
        names[j]
    } else {
        first_dup_from(names, j + 1)
    }
}

/// The declared field with the given name, if any (first match).
pub open spec fn find_field(fields: Seq<FieldSchemaV>, name: Seq<char>) -> Option<FieldSchemaV>
    decreases fields.len(),
{
    if fields.len() == 0 {
        None
    } else if fields[0].name == name {
        Some(fields[0])
    } else {
        find_field(fields.drop_first(), name)
    }
}

/// Every declared field at its converter's default value.
pub open spec fn cleared_values(fields: Seq<FieldSchemaV>) -> Map<Seq<char>, TypedV> {
    Map::new(
        |n: Seq<char>| schema_names(fields).contains(n),
        |n: Seq<char>|
            match find_field(fields, n) {
                Some(f) => default_typed(f.converter),
                None => arbitrary(),
            },
    )
}

/// A compiled schema: the kept fields in declaration order, with distinct
/// names, no `custom` validators, and `range` only on numeric fields.
#[derive(Debug)]
pub struct Schema {
    fields: Vec<FieldSchema>,
}

impl View for Schema {
    type V = Seq<FieldSchemaV>;

    closed spec fn view(&self) -> Seq<FieldSchemaV> {
        self.fields@.map_values(|f: FieldSchema| f@)
    }
}

impl Schema {
    /// Well-formedness of the compiled schema.
    pub open spec fn wf(&self) -> bool {
        schema_wf_fields(self@)
    }

    /// The empty schema, declaring no fields.
    pub fn empty() -> (r: Schema)
        ensures
            r@ =~= Seq::<FieldSchemaV>::empty(),
            r.wf(),
    {
        let r = Schema { fields: Vec::new() };
        proof {
            assert(r@ =~= Seq::<FieldSchemaV>::empty());
            assert(schema_names(r@) =~= Seq::<Seq<char>>::empty());
        }
        r
    }

    /// The compiled fields.
    pub(crate) fn fields(&self) -> (r: &Vec<FieldSchema>)
        ensures
            r@.map_values(|f: FieldSchema| f@) == self@,
    {
        &self.fields
    }
}

proof fn lemma_compile_fields_wf(defs: Seq<FieldDefV>)
    requires
        defs.map_values(|d: FieldDefV| d.name).no_duplicates(),
    ensures
        match compile_fields_spec(defs) {
            Ok(s) => schema_wf_fields(s) && forall|k: Seq<char>|
                #[trigger] schema_names(s).contains(k) ==> def_names(defs).contains(k),
            Err(_) => true,
        },
    decreases defs.len(),
{
    if defs.len() > 0 {
        let rest = defs.drop_first();
        assert(forall|j: int|
            0 <= j < rest.len() ==> #[trigger] def_names(rest)[j] == def_names(defs)[j + 1]);
        assert(def_names(rest).no_duplicates());
        lemma_compile_fields_wf(rest);
        let d = defs[0];
        if d.directives.len() == 0 {
            match compile_fields_spec(defs) {
                Ok(s) => {
                    assert(compile_fields_spec(rest) == Ok::<Seq<FieldSchemaV>, SchemaErrorV>(s));
                },
                Err(_) => {},
            }
        } else {
            match parse_directives_spec(d.directives) {
                Err(_) => {},
                Ok(vs) => {
                    match find_custom(vs) {
                        Some(_) => {},
                        None => {
                            lemma_find_custom_none(vs);
                            if has_range(vs) && !numeric_converter(d.converter) {
                            } else {
                                match compile_fields_spec(rest) {
                                    Err(_) => {},
                                    Ok(rtail) => {
                                        let head = FieldSchemaV {
                                            name: d.name,
                                            converter: d.converter,
                                            validators: vs,
                                        };
                                        let s = seq![head] + rtail;
                                        let snames = schema_names(s);
                                        let rnames = schema_names(rtail);
                                        let dnames = def_names(defs);
                                        assert(snames.len() == 1 + rnames.len());
                                        assert(snames[0] == d.name);
                                        assert(forall|j: int|
                                            0 <= j < rnames.len() ==> snames[j + 1] == rnames[j]);
                                        assert(forall|k: Seq<char>|
                                            #[trigger] rnames.contains(k) ==> def_names(
                                                rest,
                                            ).contains(k));
                                        assert(!rnames.contains(d.name)) by {
                                            if rnames.contains(d.name) {
                                                assert(def_names(rest).contains(d.name));
                                                let i = choose|i: int|
                                                    0 <= i < rest.len() && #[trigger] def_names(
                                                        rest,
                                                    )[i] == d.name;
                                                assert(dnames[i + 1] == d.name);
                                                assert(dnames[0] == d.name);
                                            }
                                        }
                                        assert(snames.no_duplicates()) by {
                                            assert(rnames.no_duplicates());
                                            assert forall|a: int, b: int|
                                                0 <= a < b < snames.len() implies snames[a]
                                                != snames[b] by {
                                                if a == 0 {
                                                    assert(snames[b] == rnames[b - 1]);
                                                    assert(rnames.contains(rnames[b - 1]));
                                                } else {
                                                    assert(snames[a] == rnames[a - 1]);
                                                    assert(snames[b] == rnames[b - 1]);
                                                }
                                            }
                                        }
                                        assert(forall|k: Seq<char>|
                                            snames.contains(k) ==> dnames.contains(k)) by {
                                            assert forall|k: Seq<char>|
                                                snames.contains(k) implies dnames.contains(k) by {
                                                let i = choose|i: int|
                                                    0 <= i < snames.len() && #[trigger] snames[i]
                                                        == k;
                                                if i == 0 {
                                                    assert(dnames[0] == k);
                                                } else {
                                                    assert(rnames[i - 1] == k);
                                                    assert(rnames.contains(k));
                                                    let j = choose|j: int|
                                                        0 <= j < rest.len() && #[trigger] def_names(
                                                            rest,
                                                        )[j] == k;
                                                    assert(dnames[j + 1] == k);
                                                }
                                            }
                                        }
                                        assert(forall|i: int|
                                            0 <= i < s.len() ==> custom_free(
                                                #[trigger] s[i].validators,
                                            )) by {
                                            assert(custom_free(vs));
                                            assert(forall|i: int|
                                                1 <= i < s.len() ==> s[i] == rtail[i - 1]);
                                        }
                                        assert(forall|i: int|
                                            0 <= i < s.len() && has_range(
                                                #[trigger] s[i].validators,
                                            ) ==> numeric_converter(s[i].converter)) by {
                                            assert(forall|i: int|
                                                1 <= i < s.len() ==> s[i] == rtail[i - 1]);
                                        }
                                    },
                                }
                            }
                        },
                    }
                },
            }
        }
    }
}

/// A chain with no first `custom` has no `custom` at all.
proof fn lemma_find_custom_none(vs: Seq<ValidatorV>)
    requires
        find_custom(vs) is None,
    ensures
        custom_free(vs),
    decreases vs.len(),
{
    if vs.len() > 0 {
        match vs[0] {
            ValidatorV::Custom { .. } => {
                assert(false);
            },
            _ => {
                lemma_find_custom_none(vs.drop_first());
                assert forall|j: int| 0 <= j < vs.len() implies !(#[trigger] vs[j] is Custom) by {
                    if j > 0 {
                        assert(vs[j] == vs.drop_first()[j - 1]);
                        assert(!(vs.drop_first()[j - 1] is Custom));
                    }
                }
            },
        }
    }
}


fn parse_field_directives(ds: &Vec<Directive>) -> (r: Result<Vec<Validator>, SchemaError>)
    ensures
        match (r, parse_directives_spec(ds@.map_values(|d: Directive| d@))) {
            (Ok(vs), Ok(sv)) => vs@.map_values(|v: Validator| v@) == sv,
            (Err(e), Err(se)) => e@ == se,
            _ => false,
        },
{
    let ghost full = ds@.map_values(|d: Directive| d@);
    let n = ds.len();
    let mut acc: Vec<Validator> = Vec::new();
    let mut i: usize = 0;
    proof {
        assert(full.skip(0) =~= full);
        assert(acc@.map_values(|v: Validator| v@) =~= Seq::<ValidatorV>::empty());
    }
    while i < n
        invariant
            i <= n,
            n == ds@.len(),
            full == ds@.map_values(|d: Directive| d@),
            parse_directives_spec(full) == (match parse_directives_spec(full.skip(i as int)) {
                Ok(rest) => Ok::<Seq<ValidatorV>, SchemaErrorV>(
                    acc@.map_values(|v: Validator| v@) + rest,
                ),
                Err(e) => Err(e),
            }),
        decreases n - i,
    {
        let ghost pre = acc@.map_values(|v: Validator| v@);
        proof {
            assert(full.skip(i as int)[0] == full[i as int]);
            assert(full.skip(i as int).drop_first() =~= full.skip(i as int + 1));
        }
        match parse_directive(&ds[i]) {
            Ok(v) => {
                acc.push(v);
                proof {
                    assert(acc@.map_values(|v2: Validator| v2@) =~= pre.push(acc@.last()@));
                    assert(forall|rest: Seq<ValidatorV>|
                        pre + (seq![acc@.last()@] + rest) =~= #[trigger] (pre.push(acc@.last()@)
                            + rest));
                }
            },
            Err(e) => {
                return Err(e);
            },
        }
        i += 1;
    }
    proof {
        assert(full.skip(n as int) =~= Seq::<DirectiveV>::empty());
        assert(acc@.map_values(|v: Validator| v@) + Seq::<ValidatorV>::empty() =~= acc@.map_values(
            |v: Validator| v@,
        ));
    }
    Ok(acc)
}

fn find_custom_exec(vs: &Vec<Validator>) -> (r: Option<String>)
    ensures
        match r {
            Some(m) => find_custom(vs@.map_values(|v: Validator| v@)) == Some(m@),
            None => find_custom(vs@.map_values(|v: Validator| v@)) is None,
        },
{
    let ghost full = vs@.map_values(|v: Validator| v@);
    let n = vs.len();
    let mut i: usize = 0;
    proof {
        assert(full.skip(0) =~= full);
    }
    while i < n
        invariant
            i <= n,
            n == vs@.len(),
            full == vs@.map_values(|v: Validator| v@),
            find_custom(full) == find_custom(full.skip(i as int)),
        decreases n - i,
    {
        proof {
            assert(full.skip(i as int)[0] == full[i as int]);
            assert(full.skip(i as int).drop_first() =~= full.skip(i as int + 1));
        }
        match &vs[i] {
            Validator::Custom { method } => {
                return Some(method.clone());
            },
            _ => {},
        }
        i += 1;
    }
    proof {
        assert(full.skip(n as int) =~= Seq::<ValidatorV>::empty());
    }
    None
}

fn has_range_exec(vs: &Vec<Validator>) -> (r: bool)
    ensures
        r == has_range(vs@.map_values(|v: Validator| v@)),
{
    let ghost full = vs@.map_values(|v: Validator| v@);
    let n = vs.len();
    let mut i: usize = 0;
    while i < n
        invariant
            i <= n,
            n == vs@.len(),
            full == vs@.map_values(|v: Validator| v@),
            forall|j: int| 0 <= j < i ==> !(#[trigger] full[j] is Range),
        decreases n - i,
    {
        match &vs[i] {
            Validator::Range { .. } => {
                proof {
                    assert(full[i as int] is Range);
                }
                return true;
            },
            _ => {},
        }
        i += 1;
    }
    false
}

fn first_dup_exec(defs: &Vec<FieldDef>) -> (r: Option<String>)
    ensures
        match r {
            Some(nm) => !def_names(defs@.map_values(|d: FieldDef| d@)).no_duplicates() && nm@
                == first_dup(def_names(defs@.map_values(|d: FieldDef| d@))),
            None => def_names(defs@.map_values(|d: FieldDef| d@)).no_duplicates(),
        },
{
    let ghost names = def_names(defs@.map_values(|d: FieldDef| d@));
    proof {
        assert(forall|k: int|
            0 <= k < defs@.len() ==> #[trigger] names[k] == defs@[k].name@);
    }
    let n = defs.len();
    let mut j: usize = 0;
    while j < n
        invariant
            j <= n,
            n == defs@.len(),
            names == def_names(defs@.map_values(|d: FieldDef| d@)),
            names.len() == n,
            forall|k: int| 0 <= k < defs@.len() ==> #[trigger] names[k] == defs@[k].name@,
            forall|b: int, a: int| 0 <= a < b < j ==> names[a] != names[b],
            first_dup_from(names, 0) == first_dup_from(names, j as int),
        decreases n - j,
    {
        let mut i: usize = 0;
        while i < j
            invariant
                i <= j < n,
                n == defs@.len(),
                names == def_names(defs@.map_values(|d: FieldDef| d@)),
                names.len() == n,
                forall|k: int| 0 <= k < defs@.len() ==> #[trigger] names[k] == defs@[k].name@,
                forall|a: int| 0 <= a < i ==> names[a] != names[j as int],
                first_dup_from(names, 0) == first_dup_from(names, j as int),
            decreases j - i,
        {
            if crate::text::str_eq(defs[i].name.as_str(), defs[j].name.as_str()) {
                let nm = defs[j].name.clone();
                proof {
                    assert(names[i as int] == names[j as int]);
                    assert(first_dup_from(names, j as int) == names[j as int]) by {
                        assert(0 <= (i as int) && (i as int) < (j as int) && names[i as int] == names[j as int]);
                    }
                    assert(first_dup(names) == names[j as int]);
                    assert(nm@ == names[j as int]);
                    assert(!names.no_duplicates());
                }
                return Some(nm);
            }
            i += 1;
        }
        proof {
            assert(!(exists|a: int| 0 <= a < j && names[a] == names[j as int]));
            assert(first_dup_from(names, j as int) == first_dup_from(names, j as int + 1));
        }
        j += 1;
    }
    proof {
        assert(names.no_duplicates());
    }
    None
}

/// Compile a list of field definitions into a schema for the dynamic form.
pub fn compile_schema(defs: &Vec<FieldDef>) -> (r: Result<Schema, SchemaError>)
    ensures
        match (r, compile_schema_spec(defs@.map_values(|d: FieldDef| d@))) {
            (Ok(s), Ok(sv)) => s@ == sv && s.wf(),
            (Err(e), Err(se)) => e@ == se,
            _ => false,
        },
{
    let ghost dv = defs@.map_values(|d: FieldDef| d@);
    match first_dup_exec(defs) {
        Some(nm) => {
            return Err(SchemaError::DuplicateField { name: nm });
        },
        None => {},
    }
    let n = defs.len();
    let mut acc: Vec<FieldSchema> = Vec::new();
    let mut i: usize = 0;
    proof {
        assert(dv.skip(0) =~= dv);
        assert(acc@.map_values(|f: FieldSchema| f@) =~= Seq::<FieldSchemaV>::empty());
    }
    while i < n
        invariant
            i <= n,
            n == defs@.len(),
            dv == defs@.map_values(|d: FieldDef| d@),
            def_names(dv).no_duplicates(),
            compile_fields_spec(dv) == (match compile_fields_spec(dv.skip(i as int)) {
                Ok(rest) => Ok::<Seq<FieldSchemaV>, SchemaErrorV>(
                    acc@.map_values(|f: FieldSchema| f@) + rest,
                ),
                Err(e) => Err(e),
            }),
        decreases n - i,
    {
        let ghost pre = acc@.map_values(|f: FieldSchema| f@);
        proof {
            assert(dv.skip(i as int)[0] == dv[i as int]);
            assert(dv.skip(i as int).drop_first() =~= dv.skip(i as int + 1));
            assert(dv[i as int].directives == defs@[i as int].directives@.map_values(
                |d: Directive| d@,
            ));
        }
        let d = &defs[i];
        if d.directives.len() == 0 {
        } else {
            match parse_field_directives(&d.directives) {
                Err(e) => {
                    return Err(e);
                },
                Ok(vs) => {
                    match find_custom_exec(&vs) {
                        Some(m) => {
                            return Err(SchemaError::CustomUnsupported { method: m });
                        },
                        None => {},
                    }
                    let is_numeric = match d.converter {
                        Converter::Signed => true,
                        Converter::Unsigned => true,
                        _ => false,
                    };
                    if has_range_exec(&vs) && !is_numeric {
                        return Err(SchemaError::RangeNeedsNumber { field: d.name.clone() });
                    }
                    acc.push(FieldSchema {
                        name: d.name.clone(),
                        converter: d.converter,
                        validators: vs,
                    });
                    proof {
                        assert(acc@.map_values(|f: FieldSchema| f@) =~= pre.push(acc@.last()@));
                        assert(forall|rest: Seq<FieldSchemaV>|
                            pre + (seq![acc@.last()@] + rest) =~= #[trigger] (pre.push(
                                acc@.last()@,
                            ) + rest));
                    }
                },
            }
        }
        i += 1;
    }
    proof {
        assert(dv.skip(n as int) =~= Seq::<FieldDefV>::empty());
        assert(acc@.map_values(|f: FieldSchema| f@) + Seq::<FieldSchemaV>::empty()
            =~= acc@.map_values(|f: FieldSchema| f@));
        lemma_compile_fields_wf(dv);
    }
    Ok(Schema { fields: acc })
}

} // verus!
