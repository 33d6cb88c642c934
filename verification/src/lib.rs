//! Reactive form-state and validation library.
//!
//! The crate tracks field values, dirtiness, touched state and validation
//! errors for a structured form. Validation rules are composable predicates
//! over the string representation of a field; a declarative schema compiler
//! turns per-field directive lists into compiled rule chains; the form state
//! machine keeps per-field and form-level derived state (dirty / touched /
//! valid) consistent as field values change.

pub mod convert;
pub mod email;
pub mod errors;
pub mod form;
pub mod rules;
pub mod schema;
pub mod schema_form;
pub mod strmap;
pub mod text;
pub mod validation;

pub use convert::FromFieldValue;
pub use errors::{ErrorKind, ValidationError};
pub use form::{FieldSignal, FieldState, Form, FormComponentState, FormState};
pub use rules::{Email, IntoRule, Length, Range, Required, Rule, Rules, ValidationRule, WithMessage};
pub use schema::{
    compile_schema, parse_directive, Converter, Directive, FieldDef, Param, ParamValue, Schema,
    SchemaError, TypedValue, Validator,
};
pub use schema_form::SchemaForm;
pub use strmap::StrMap;
pub use validation::{sync_from_strings, validate_all, FormValidation, ValidationResult};
