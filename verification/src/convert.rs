//! The conversion layer: bidirectional mapping between a field's string
//! representation and its typed domain value.
//!
//! Built-in coverage: pass-through for text, integer parsing with failures
//! mapped to `ParseError { expected_type: "number" }`, and booleans where
//! `"on" | "true" | "1"` mean true and anything else false (never fails).
//! The round-trip laws at the bottom say that rendering a built-in value and
//! parsing it back returns the same value.

use vstd::prelude::*;

use crate::errors::{error_of, ErrorKind, ErrorV, KindV, ValidationError};
use crate::text::{
    chars_of, dec_str, int_str, is_digit_char, i64_to_string, parse_i64_chars, parse_i64_spec,
    parse_u64_chars, parse_u64_spec, str_eq, u64_to_string,
};

verus! {

/// The parse error recorded when a numeric field holds a non-numeric value.
pub open spec fn number_parse_error(field: Seq<char>) -> ErrorV {
    error_of(KindV::ParseError { field, expected_type: "number"@ })
}

fn make_number_parse_error(field_name: &str) -> (r: ValidationError)
    ensures
        r@ == number_parse_error(field_name@),
        r@.wf(),
{
    ValidationError::with_kind(ErrorKind::ParseError {
        field: field_name.to_owned(),
        expected_type: "number".to_owned(),
    })
}

/// Types that can be parsed from a form field string and rendered back.
pub trait FromFieldValue: Sized + View {
    /// The ghost parse function: the view of the parsed value, or the exact
    /// error recorded.
    spec fn spec_from(field: Seq<char>, value: Seq<char>) -> Result<Self::V, ErrorV>;

    /// The ghost rendering of a value back to its field string.
    spec fn spec_to(m: Self::V) -> Seq<char>;

    /// Parse a string value from a form field into this type.
    fn from_field_value(field_name: &str, value: &str) -> (r: Result<Self, ValidationError>)
        ensures
            match (r, Self::spec_from(field_name@, value@)) {
                (Ok(v), Ok(m)) => v@ == m,
                (Err(e), Err(me)) => e@ == me && e@.wf(),
                _ => false,
            },
    ;

    /// Render this value back to its field string.
    fn to_field_value(&self) -> (r: String)
        ensures
            r@ == Self::spec_to(self@),
    ;
}

impl FromFieldValue for String {
    open spec fn spec_from(field: Seq<char>, value: Seq<char>) -> Result<Seq<char>, ErrorV> {
        Ok(value)
    }

    open spec fn spec_to(m: Seq<char>) -> Seq<char> {
        m
    }

    fn from_field_value(field_name: &str, value: &str) -> (r: Result<Self, ValidationError>) {
        Ok(value.to_owned())
    }

    fn to_field_value(&self) -> (r: String) {
        self.clone()
    }
}

impl FromFieldValue for i64 {
    open spec fn spec_from(field: Seq<char>, value: Seq<char>) -> Result<i64, ErrorV> {
        match parse_i64_spec(value) {
            Some(n) => Ok(n),
            None => Err(number_parse_error(field)),
        }
    }

    open spec fn spec_to(m: i64) -> Seq<char> {
        int_str(m as int)
    }

    fn from_field_value(field_name: &str, value: &str) -> (r: Result<Self, ValidationError>) {
        let chars = chars_of(value);
        match parse_i64_chars(&chars) {
            Some(n) => Ok(n),
            None => Err(make_number_parse_error(field_name)),
        }
    }

    fn to_field_value(&self) -> (r: String) {
        i64_to_string(*self)
    }
}

impl FromFieldValue for u64 {
    open spec fn spec_from(field: Seq<char>, value: Seq<char>) -> Result<u64, ErrorV> {
        match parse_u64_spec(value) {
            Some(n) => Ok(n),
            None => Err(number_parse_error(field)),
        }
    }

    open spec fn spec_to(m: u64) -> Seq<char> {
        dec_str(m as nat)
    }

    fn from_field_value(field_name: &str, value: &str) -> (r: Result<Self, ValidationError>) {
        let chars = chars_of(value);
        match parse_u64_chars(&chars) {
            Some(n) => Ok(n),
            None => Err(make_number_parse_error(field_name)),
        }
    }

    fn to_field_value(&self) -> (r: String) {
        u64_to_string(*self)
    }
}

impl FromFieldValue for i32 {
    open spec fn spec_from(field: Seq<char>, value: Seq<char>) -> Result<i32, ErrorV> {
        match parse_i64_spec(value) {
            Some(n) => if i32::MIN <= n <= i32::MAX {
                Ok(n as i32)
            } else {
                Err(number_parse_error(field))
            },
            None => Err(number_parse_error(field)),
        }
    }

    open spec fn spec_to(m: i32) -> Seq<char> {
        int_str(m as int)
    }

    fn from_field_value(field_name: &str, value: &str) -> (r: Result<Self, ValidationError>) {
        let chars = chars_of(value);
        match parse_i64_chars(&chars) {
            Some(n) => if i32::MIN as i64 <= n && n <= i32::MAX as i64 {
                Ok(n as i32)
            } else {
                Err(make_number_parse_error(field_name))
            },
            None => Err(make_number_parse_error(field_name)),
        }
    }

    fn to_field_value(&self) -> (r: String) {
        i64_to_string(*self as i64)
    }
}

impl FromFieldValue for u32 {
    open spec fn spec_from(field: Seq<char>, value: Seq<char>) -> Result<u32, ErrorV> {
        match parse_u64_spec(value) {
            Some(n) => if n <= u32::MAX {
                Ok(n as u32)
            } else {
                Err(number_parse_error(field))
            },
            None => Err(number_parse_error(field)),
        }
    }

    open spec fn spec_to(m: u32) -> Seq<char> {
        dec_str(m as nat)
    }

    fn from_field_value(field_name: &str, value: &str) -> (r: Result<Self, ValidationError>) {
        let chars = chars_of(value);
        match parse_u64_chars(&chars) {
            Some(n) => if n <= u32::MAX as u64 {
                Ok(n as u32)
            } else {
                Err(make_number_parse_error(field_name))
            },
            None => Err(make_number_parse_error(field_name)),
        }
    }

    fn to_field_value(&self) -> (r: String) {
        u64_to_string(*self as u64)
    }
}

impl FromFieldValue for bool {
    open spec fn spec_from(field: Seq<char>, value: Seq<char>) -> Result<bool, ErrorV> {
        Ok(value == "on"@ || value == "true"@ || value == "1"@)
    }

    open spec fn spec_to(m: bool) -> Seq<char> {
        if m {
            "true"@
        } else {
            "false"@
        }
    }

    fn from_field_value(field_name: &str, value: &str) -> (r: Result<Self, ValidationError>) {
        Ok(str_eq(value, "on") || str_eq(value, "true") || str_eq(value, "1"))
    }

    fn to_field_value(&self) -> (r: String) {
        if *self {
            "true".to_owned()
        } else {
            "false".to_owned()
        }
    }
}

// ---------------------------------------------------------------------------
// Round-trip laws for the built-in conversions
// ---------------------------------------------------------------------------

/// Text round trip: parsing a rendered string value gives it back.
pub proof fn lemma_string_round_trip(field: Seq<char>, m: Seq<char>)
    ensures
        <String as FromFieldValue>::spec_from(field, <String as FromFieldValue>::spec_to(m))
            == Ok::<Seq<char>, ErrorV>(m),
{
}

/// Unsigned round trip: parsing a rendered `u64` gives it back.
pub proof fn lemma_u64_round_trip(field: Seq<char>, m: u64)
    ensures
        <u64 as FromFieldValue>::spec_from(field, <u64 as FromFieldValue>::spec_to(m))
            == Ok::<u64, ErrorV>(m),
{
    crate::text::lemma_dec_str_round_trip(m as nat);
    let s = dec_str(m as nat);
    assert(is_digit_char(s[0]));
    assert(s[0] != '+');
    assert(parse_u64_spec(s) == Some(m));
}

/// Signed round trip: parsing a rendered `i64` gives it back.
pub proof fn lemma_i64_round_trip(field: Seq<char>, m: i64)
    ensures
        <i64 as FromFieldValue>::spec_from(field, <i64 as FromFieldValue>::spec_to(m))
            == Ok::<i64, ErrorV>(m),
{
    let s = int_str(m as int);
    if m >= 0 {
        crate::text::lemma_dec_str_round_trip(m as nat);
        assert(is_digit_char(s[0]));
        assert(s[0] != '-' && s[0] != '+');
        assert(parse_i64_spec(s) == Some(m));
    } else {
        let mag = (-(m as int)) as nat;
        crate::text::lemma_dec_str_round_trip(mag);
        let d = dec_str(mag);
        assert(s == seq!['-'] + d);
        assert(s.len() == 1 + d.len());
        assert(s[0] == '-');
        assert(s.drop_first() =~= d);
        assert(mag <= 9223372036854775808);
        assert(parse_i64_spec(s) == Some((-(mag as int)) as i64));
        assert((-(mag as int)) as i64 == m);
    }
}

/// Boolean round trip: rendering gives `"true"` or `"false"`, and parsing
/// those returns the original value.
pub proof fn lemma_bool_round_trip(field: Seq<char>, m: bool)
    ensures
        <bool as FromFieldValue>::spec_from(field, <bool as FromFieldValue>::spec_to(m))
            == Ok::<bool, ErrorV>(m),
{
    reveal_strlit("on");
    reveal_strlit("true");
    reveal_strlit("false");
    reveal_strlit("1");
    if m {
        assert("true"@ != "on"@) by {
            assert("true"@.len() == 4 && "on"@.len() == 2);
        }
        assert("true"@ != "1"@) by {
            assert("true"@.len() == 4 && "1"@.len() == 1);
        }
    } else {
        assert("false"@ != "on"@) by {
            assert("false"@.len() == 5 && "on"@.len() == 2);
        }
        assert("false"@ != "true"@) by {
            assert("false"@.len() == 5 && "true"@.len() == 4);
        }
        assert("false"@ != "1"@) by {
            assert("false"@.len() == 5 && "1"@.len() == 1);
        }
    }
}


/// Signed 32-bit round trip: parsing a rendered `i32` gives it back.
pub proof fn lemma_i32_round_trip(field: Seq<char>, m: i32)
    ensures
        <i32 as FromFieldValue>::spec_from(field, <i32 as FromFieldValue>::spec_to(m))
            == Ok::<i32, ErrorV>(m),
{
    lemma_i64_round_trip(field, m as i64);
    assert(<i32 as FromFieldValue>::spec_to(m) == <i64 as FromFieldValue>::spec_to(m as i64));
    assert(parse_i64_spec(int_str(m as int)) == Some(m as i64));
}

/// Unsigned 32-bit round trip: parsing a rendered `u32` gives it back.
pub proof fn lemma_u32_round_trip(field: Seq<char>, m: u32)
    ensures
        <u32 as FromFieldValue>::spec_from(field, <u32 as FromFieldValue>::spec_to(m))
            == Ok::<u32, ErrorV>(m),
{
    lemma_u64_round_trip(field, m as u64);
    assert(<u32 as FromFieldValue>::spec_to(m) == <u64 as FromFieldValue>::spec_to(m as u64));
    assert(parse_u64_spec(dec_str(m as nat)) == Some(m as u64));
}

} // verus!
