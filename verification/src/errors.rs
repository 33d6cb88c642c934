//! The error model: structured validation error kinds and the error carrier.
//!
//! `ErrorKind` is a closed tagged union of validation outcomes with their
//! parameters, so that a localisation collaborator can render messages from
//! the structure alone. `ValidationError` carries the owning field name, a
//! cached default rendering, and the kind; the invariant `wf` says the three
//! agree.

use vstd::prelude::*;
use vstd::string::*;

use crate::text::{dec_str, int_str, u64_to_string, i64_to_string};

verus! {

/// Ghost model of an error kind: field names and parameters as mathematical
/// values.
pub enum KindV {
    Required { field: Seq<char> },
    InvalidEmail { field: Seq<char> },
    InvalidLength { field: Seq<char>, min: Option<int>, max: Option<int> },
    InvalidRange { field: Seq<char>, min: Option<int>, max: Option<int> },
    ParseError { field: Seq<char>, expected_type: Seq<char> },
    Custom { field: Seq<char>, message: Seq<char> },
}

/// The owning field name of an error kind.
pub open spec fn field_of(k: KindV) -> Seq<char> {
    match k {
        KindV::Required { field } => field,
        KindV::InvalidEmail { field } => field,
        KindV::InvalidLength { field, .. } => field,
        KindV::InvalidRange { field, .. } => field,
        KindV::ParseError { field, .. } => field,
        KindV::Custom { field, .. } => field,
    }
}

/// The default English rendering of an error kind.
pub open spec fn message_of(k: KindV) -> Seq<char> {
    match k {
        KindV::Required { field } => field + " is required"@,
        KindV::InvalidEmail { field } => field + " must be a valid email address"@,
        KindV::InvalidLength { field, min: Some(mn), max: Some(mx) } => field
            + " must be between "@ + dec_str(mn as nat) + " and "@ + dec_str(mx as nat)
            + " characters"@,
        KindV::InvalidLength { field, min: Some(mn), max: None } => field + " must be at least "@
            + dec_str(mn as nat) + " characters"@,
        KindV::InvalidLength { field, min: None, max: Some(mx) } => field + " must be at most "@
            + dec_str(mx as nat) + " characters"@,
        KindV::InvalidLength { field, min: None, max: None } => field + " has invalid length"@,
        KindV::InvalidRange { field, min: Some(mn), max: Some(mx) } => field + " must be between "@
            + int_str(mn) + " and "@ + int_str(mx),
        KindV::InvalidRange { field, min: Some(mn), max: None } => field + " must be at least "@
            + int_str(mn),
        KindV::InvalidRange { field, min: None, max: Some(mx) } => field + " must be at most "@
            + int_str(mx),
        KindV::InvalidRange { field, min: None, max: None } => field + " is out of range"@,
        KindV::ParseError { field, expected_type } => field + " must be a valid "@ + expected_type,
        KindV::Custom { field: _, message } => message,
    }
}

/// The kind of validation error that occurred, with its parameters.
#[derive(Debug, PartialEq)]
pub enum ErrorKind {
    /// Field is required but blank.
    Required { field: String },
    /// Email format is invalid.
    InvalidEmail { field: String },
    /// Character-count constraints not met.
    InvalidLength { field: String, min: Option<usize>, max: Option<usize> },
    /// Numeric range constraints not met.
    InvalidRange { field: String, min: Option<i64>, max: Option<i64> },
    /// The value could not be converted to the field's domain type.
    ParseError { field: String, expected_type: String },
    /// Outcome of a custom validator.
    Custom { field: String, message: String },
}

impl View for ErrorKind {
    type V = KindV;

    open spec fn view(&self) -> KindV {
        match self {
            ErrorKind::Required { field } => KindV::Required { field: field@ },
            ErrorKind::InvalidEmail { field } => KindV::InvalidEmail { field: field@ },
            ErrorKind::InvalidLength { field, min, max } => KindV::InvalidLength {
                field: field@,
                min: match min {
                    Some(m) => Some(*m as int),
                    None => None,
                },
                max: match max {
                    Some(m) => Some(*m as int),
                    None => None,
                },
            },
            ErrorKind::InvalidRange { field, min, max } => KindV::InvalidRange {
                field: field@,
                min: match min {
                    Some(m) => Some(*m as int),
                    None => None,
                },
                max: match max {
                    Some(m) => Some(*m as int),
                    None => None,
                },
            },
            ErrorKind::ParseError { field, expected_type } => KindV::ParseError {
                field: field@,
                expected_type: expected_type@,
            },
            ErrorKind::Custom { field, message } => KindV::Custom {
                field: field@,
                message: message@,
            },
        }
    }
}

impl Clone for ErrorKind {
    fn clone(&self) -> (r: Self)
        ensures
            r == *self,
    {
        match self {
            ErrorKind::Required { field } => ErrorKind::Required { field: field.clone() },
            ErrorKind::InvalidEmail { field } => ErrorKind::InvalidEmail { field: field.clone() },
            ErrorKind::InvalidLength { field, min, max } => ErrorKind::InvalidLength {
                field: field.clone(),
                min: *min,
                max: *max,
            },
            ErrorKind::InvalidRange { field, min, max } => ErrorKind::InvalidRange {
                field: field.clone(),
                min: *min,
                max: *max,
            },
            ErrorKind::ParseError { field, expected_type } => ErrorKind::ParseError {
                field: field.clone(),
                expected_type: expected_type.clone(),
            },
            ErrorKind::Custom { field, message } => ErrorKind::Custom {
                field: field.clone(),
                message: message.clone(),
            },
        }
    }
}

impl ErrorKind {
    /// The name of the field this error belongs to.
    pub fn field(&self) -> (r: &str)
        ensures
            r@ == field_of(self@),
    {
        match self {
            ErrorKind::Required { field } => field.as_str(),
            ErrorKind::InvalidEmail { field } => field.as_str(),
            ErrorKind::InvalidLength { field, .. } => field.as_str(),
            ErrorKind::InvalidRange { field, .. } => field.as_str(),
            ErrorKind::ParseError { field, .. } => field.as_str(),
            ErrorKind::Custom { field, .. } => field.as_str(),
        }
    }

    /// The default English message for this error.
    pub fn default_message(&self) -> (r: String)
        ensures
            r@ == message_of(self@),
    {
        match self {
            ErrorKind::Required { field } => {
                let mut r = field.clone();
                r.append(" is required");
                r
            },
            ErrorKind::InvalidEmail { field } => {
                let mut r = field.clone();
                r.append(" must be a valid email address");
                r
            },
            ErrorKind::InvalidLength { field, min: Some(mn), max: Some(mx) } => {
                let mut r = field.clone();
                r.append(" must be between ");
                let mn_str = u64_to_string(*mn as u64);
                r.append(mn_str.as_str());
                r.append(" and ");
                let mx_str = u64_to_string(*mx as u64);
                r.append(mx_str.as_str());
                r.append(" characters");
                r
            },
            ErrorKind::InvalidLength { field, min: Some(mn), max: None } => {
                let mut r = field.clone();
                r.append(" must be at least ");
                let mn_str = u64_to_string(*mn as u64);
                r.append(mn_str.as_str());
                r.append(" characters");
                r
            },
            ErrorKind::InvalidLength { field, min: None, max: Some(mx) } => {
                let mut r = field.clone();
                r.append(" must be at most ");
                let mx_str = u64_to_string(*mx as u64);
                r.append(mx_str.as_str());
                r.append(" characters");
                r
            },
            ErrorKind::InvalidLength { field, min: None, max: None } => {
                let mut r = field.clone();
                r.append(" has invalid length");
                r
            },
            ErrorKind::InvalidRange { field, min: Some(mn), max: Some(mx) } => {
                let mut r = field.clone();
                r.append(" must be between ");
                let mn_str = i64_to_string(*mn);
                r.append(mn_str.as_str());
                r.append(" and ");
                let mx_str = i64_to_string(*mx);
                r.append(mx_str.as_str());
                r
            },
            ErrorKind::InvalidRange { field, min: Some(mn), max: None } => {
                let mut r = field.clone();
                r.append(" must be at least ");
                let mn_str = i64_to_string(*mn);
                r.append(mn_str.as_str());
                r
            },
            ErrorKind::InvalidRange { field, min: None, max: Some(mx) } => {
                let mut r = field.clone();
                r.append(" must be at most ");
                let mx_str = i64_to_string(*mx);
                r.append(mx_str.as_str());
                r
            },
            ErrorKind::InvalidRange { field, min: None, max: None } => {
                let mut r = field.clone();
                r.append(" is out of range");
                r
            },
            ErrorKind::ParseError { field, expected_type } => {
                let mut r = field.clone();
                r.append(" must be a valid ");
                r.append(expected_type.as_str());
                r
            },
            ErrorKind::Custom { field: _, message } => message.clone(),
        }
    }
}

/// Ghost model of a validation error.
pub struct ErrorV {
    pub field: Seq<char>,
    pub message: Seq<char>,
    pub kind: KindV,
}

impl ErrorV {
    /// Internal consistency: the field is the kind's field, and the message
    /// is the kind's default rendering.
    pub open spec fn wf(self) -> bool {
        &&& self.field == field_of(self.kind)
        &&& self.message == message_of(self.kind)
    }
}

/// A validation error for a specific field: the field name, a cached default
/// message, and the structured kind.
#[derive(Debug, PartialEq)]
pub struct ValidationError {
    /// The name of the field that failed validation.
    pub field: String,
    /// The cached default rendering of `kind`.
    pub message: String,
    /// The structured error kind.
    pub kind: ErrorKind,
}

impl View for ValidationError {
    type V = ErrorV;

    open spec fn view(&self) -> ErrorV {
        ErrorV { field: self.field@, message: self.message@, kind: self.kind@ }
    }
}

impl Clone for ValidationError {
    fn clone(&self) -> (r: Self)
        ensures
            r == *self,
    {
        ValidationError {
            field: self.field.clone(),
            message: self.message.clone(),
            kind: self.kind.clone(),
        }
    }
}

/// The error carried by `ValidationError::with_kind(k)`, as a ghost value.
pub open spec fn error_of(k: KindV) -> ErrorV {
    ErrorV { field: field_of(k), message: message_of(k), kind: k }
}

impl ValidationError {
    /// Create an error from a plain message; the kind becomes `Custom`.
    pub fn new(field: &str, message: &str) -> (r: Self)
        ensures
            r@ == error_of(KindV::Custom { field: field@, message: message@ }),
            r@.wf(),
    {
        ValidationError {
            field: field.to_owned(),
            message: message.to_owned(),
            kind: ErrorKind::Custom { field: field.to_owned(), message: message.to_owned() },
        }
    }

    /// Create an error from a structured kind; field and message are derived.
    pub fn with_kind(kind: ErrorKind) -> (r: Self)
        ensures
            r@ == error_of(kind@),
            r@.wf(),
    {
        let field = kind.field().to_owned();
        let message = kind.default_message();
        ValidationError { field, message, kind }
    }

    /// The cached default message.
    pub fn message(&self) -> (r: &str)
        ensures
            r@ == self@.message,
    {
        self.message.as_str()
    }

    /// The structured error kind.
    pub fn kind(&self) -> (r: &ErrorKind)
        ensures
            r@ == self@.kind,
    {
        &self.kind
    }

    /// Render the message afresh from the kind with a caller-supplied
    /// translator, without touching stored state.
    pub fn translate<F: FnOnce(&ErrorKind) -> String>(&self, translator: F) -> (r: String)
        requires
            call_requires(translator, (&self.kind,)),
        ensures
            call_ensures(translator, (&self.kind,), r),
    {
        translator(&self.kind)
    }
}

} // verus!
