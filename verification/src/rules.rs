//! The validation rule engine.
//!
//! A rule checks one field's string value and either passes or produces a
//! structured error kind. Rules exist in two interchangeable forms: a closed
//! enum (`Rule`) for chains assembled at run time, and a polymorphic trait
//! (`ValidationRule`) implemented by the individual rule structs and their
//! combinators. Both forms share one ghost model (`RuleV`) and one spec
//! evaluator (`rule_error` / `chain_error`), so their contracts agree.

use vstd::prelude::*;

use crate::email::is_valid_email;
use crate::errors::{error_of, ErrorKind, KindV, ValidationError};
use crate::text::{blank, chars_of, is_blank, parse_i64_chars, parse_i64_spec};

verus! {

/// Ghost model of a validation rule.
pub enum RuleV {
    Required,
    Email,
    Length { min: Option<int>, max: Option<int> },
    Range { min: Option<int>, max: Option<int> },
    /// A wrapped chain whose failures are re-rendered with a fixed message.
    Message { inner: Seq<RuleV>, message: Seq<char> },
}

/// A length or range bound is violated from below.
pub open spec fn below_min(v: int, min: Option<int>) -> bool {
    match min {
        Some(m) => v < m,
        None => false,
    }
}

/// A length or range bound is violated from above.
pub open spec fn above_max(v: int, max: Option<int>) -> bool {
    match max {
        Some(m) => v > m,
        None => false,
    }
}

/// The outcome of the numeric range check on an already-parsed value.
pub open spec fn range_error_num(
    field: Seq<char>,
    v: int,
    min: Option<int>,
    max: Option<int>,
) -> Option<KindV> {
    if below_min(v, min) || above_max(v, max) {
        Some(KindV::InvalidRange { field, min, max })
    } else {
        None
    }
}

/// The outcome of one rule on one field value. `None` means the rule passes.
pub open spec fn rule_error(r: RuleV, field: Seq<char>, value: Seq<char>) -> Option<KindV>
    decreases r, 0int,
{
    match r {
        RuleV::Required => if blank(value) {
            Some(KindV::Required { field })
        } else {
            None
        },
        RuleV::Email => if value.len() > 0 && !is_valid_email(value) {
            Some(KindV::InvalidEmail { field })
        } else {
            None
        },
        RuleV::Length { min, max } => if below_min(value.len() as int, min) || above_max(
            value.len() as int,
            max,
        ) {
            Some(KindV::InvalidLength { field, min, max })
        } else {
            None
        },
        RuleV::Range { min, max } => match parse_i64_spec(value) {
            None => Some(KindV::ParseError { field, expected_type: "number"@ }),
            Some(n) => range_error_num(field, n as int, min, max),
        },
        RuleV::Message { inner, message } => match chain_error_from(inner, 0, field, value) {
            None => None,
            Some(_) => Some(KindV::Custom { field, message }),
        },
    }
}

/// The first failure of the chain `rs[i..]`, or `None` when every rule
/// passes.
pub open spec fn chain_error_from(
    rs: Seq<RuleV>,
    i: int,
    field: Seq<char>,
    value: Seq<char>,
) -> Option<KindV>
    decreases rs, rs.len() - i,
{
    if i < 0 || i >= rs.len() {
        None
    } else {
        match rule_error(rs[i], field, value) {
            Some(k) => Some(k),
            None => chain_error_from(rs, i + 1, field, value),
        }
    }
}

/// The first failure of an ordered rule chain.
pub open spec fn chain_error(rs: Seq<RuleV>, field: Seq<char>, value: Seq<char>) -> Option<
    KindV,
> {
    chain_error_from(rs, 0, field, value)
}

/// The first failure of a singleton chain is the failure of its one rule.
proof fn lemma_chain_singleton(r: RuleV, field: Seq<char>, value: Seq<char>)
    ensures
        chain_error(seq![r], field, value) == rule_error(r, field, value),
{
    let s = seq![r];
    assert(s.len() == 1);
    assert(s[0] == r);
    assert(chain_error_from(s, 1, field, value) is None);
    assert(chain_error_from(s, 0, field, value) == match rule_error(r, field, value) {
        Some(k) => Some(k),
        None => chain_error_from(s, 1, field, value),
    });
}

/// A composable validation rule over a field's string value. The model is a
/// rule chain; `validate` returns the chain's first failure as an error.
pub trait ValidationRule {
    /// The ghost rule chain this value stands for.
    spec fn model(&self) -> Seq<RuleV>;

    /// Check one field value, returning the first failure.
    fn validate(&self, field_name: &str, value: &str) -> (r: Result<(), ValidationError>)
        ensures
            match chain_error(self.model(), field_name@, value@) {
                None => r is Ok,
                Some(k) => r matches Err(e) && e@ == error_of(k) && e@.wf(),
            },
    ;
}

// ---------------------------------------------------------------------------
// Shared runtime checks
// ---------------------------------------------------------------------------

fn required_check(field_name: &str, value: &str) -> (r: Result<(), ValidationError>)
    ensures
        match rule_error(RuleV::Required, field_name@, value@) {
            None => r is Ok,
            Some(k) => r matches Err(e) && e@ == error_of(k) && e@.wf(),
        },
{
    if is_blank(value) {
        Err(ValidationError::with_kind(ErrorKind::Required { field: field_name.to_owned() }))
    } else {
        Ok(())
    }
}

fn email_check(field_name: &str, value: &str) -> (r: Result<(), ValidationError>)
    ensures
        match rule_error(RuleV::Email, field_name@, value@) {
            None => r is Ok,
            Some(k) => r matches Err(e) && e@ == error_of(k) && e@.wf(),
        },
{
    if value.is_empty() {
        Ok(())
    } else if crate::email::matches_email(value) {
        Ok(())
    } else {
        Err(ValidationError::with_kind(ErrorKind::InvalidEmail { field: field_name.to_owned() }))
    }
}

/// Map an optional `usize` bound into the ghost integer domain.
pub open spec fn opt_usize_int(o: Option<usize>) -> Option<int> {
    match o {
        Some(v) => Some(v as int),
        None => None,
    }
}

/// Map an optional `i64` bound into the ghost integer domain.
pub open spec fn opt_i64_int(o: Option<i64>) -> Option<int> {
    match o {
        Some(v) => Some(v as int),
        None => None,
    }
}

fn length_check(
    field_name: &str,
    value: &str,
    min: Option<usize>,
    max: Option<usize>,
) -> (r: Result<(), ValidationError>)
    ensures
        match rule_error(
            RuleV::Length { min: opt_usize_int(min), max: opt_usize_int(max) },
            field_name@,
            value@,
        ) {
            None => r is Ok,
            Some(k) => r matches Err(e) && e@ == error_of(k) && e@.wf(),
        },
{
    let len = value.unicode_len();
    let fails = match min {
        Some(mn) => len < mn,
        None => false,
    } || match max {
        Some(mx) => len > mx,
        None => false,
    };
    if fails {
        Err(ValidationError::with_kind(ErrorKind::InvalidLength {
            field: field_name.to_owned(),
            min,
            max,
        }))
    } else {
        Ok(())
    }
}

fn range_check(
    field_name: &str,
    value: &str,
    min: Option<i64>,
    max: Option<i64>,
) -> (r: Result<(), ValidationError>)
    ensures
        match rule_error(
            RuleV::Range { min: opt_i64_int(min), max: opt_i64_int(max) },
            field_name@,
            value@,
        ) {
            None => r is Ok,
            Some(k) => r matches Err(e) && e@ == error_of(k) && e@.wf(),
        },
{
    let chars = chars_of(value);
    match parse_i64_chars(&chars) {
        None => Err(ValidationError::with_kind(ErrorKind::ParseError {
            field: field_name.to_owned(),
            expected_type: "number".to_owned(),
        })),
        Some(n) => {
            let fails = match min {
                Some(mn) => n < mn,
                None => false,
            } || match max {
                Some(mx) => n > mx,
                None => false,
            };
            if fails {
                Err(ValidationError::with_kind(ErrorKind::InvalidRange {
                    field: field_name.to_owned(),
                    min,
                    max,
                }))
            } else {
                Ok(())
            }
        },
    }
}

// ---------------------------------------------------------------------------
// Rule structs
// ---------------------------------------------------------------------------

/// Fails exactly when the value's trimmed textual form is empty.
pub struct Required;

impl ValidationRule for Required {
    open spec fn model(&self) -> Seq<RuleV> {
        seq![RuleV::Required]
    }

    fn validate(&self, field_name: &str, value: &str) -> (r: Result<(), ValidationError>) {
        let r = required_check(field_name, value);
        proof {
            lemma_chain_singleton(RuleV::Required, field_name@, value@);
        }
        r
    }
}

/// Fails exactly when the value is non-empty and not a valid email. Empty
/// values pass; combine with `Required` to force presence.
pub struct Email;

impl ValidationRule for Email {
    open spec fn model(&self) -> Seq<RuleV> {
        seq![RuleV::Email]
    }

    fn validate(&self, field_name: &str, value: &str) -> (r: Result<(), ValidationError>) {
        let r = email_check(field_name, value);
        proof {
            lemma_chain_singleton(RuleV::Email, field_name@, value@);
        }
        r
    }
}

/// Bounds the number of characters (not bytes) of the value.
pub struct Length {
    pub min: Option<usize>,
    pub max: Option<usize>,
}

impl Length {
    /// A length rule with a lower bound only.
    pub fn min(min: usize) -> (r: Self)
        ensures
            r.min == Some(min),
            r.max == None::<usize>,
    {
        Length { min: Some(min), max: None }
    }

    /// Add an upper bound to a length rule.
    pub fn max(self, max: usize) -> (r: Self)
        ensures
            r.min == self.min,
            r.max == Some(max),
    {
        Length { min: self.min, max: Some(max) }
    }
}

impl ValidationRule for Length {
    open spec fn model(&self) -> Seq<RuleV> {
        seq![RuleV::Length { min: opt_usize_int(self.min), max: opt_usize_int(self.max) }]
    }

    fn validate(&self, field_name: &str, value: &str) -> (r: Result<(), ValidationError>) {
        let r = length_check(field_name, value, self.min, self.max);
        proof {
            lemma_chain_singleton(
                RuleV::Length { min: opt_usize_int(self.min), max: opt_usize_int(self.max) },
                field_name@,
                value@,
            );
        }
        r
    }
}

/// Bounds the numeric (integer) projection of the value; a value with no
/// such projection fails with a parse error.
pub struct Range {
    pub min: Option<i64>,
    pub max: Option<i64>,
}

impl Range {
    /// A range rule with a lower bound only.
    pub fn min(min: i64) -> (r: Self)
        ensures
            r.min == Some(min),
            r.max == None::<i64>,
    {
        Range { min: Some(min), max: None }
    }

    /// Add an upper bound to a range rule.
    pub fn max(self, max: i64) -> (r: Self)
        ensures
            r.min == self.min,
            r.max == Some(max),
    {
        Range { min: self.min, max: Some(max) }
    }
}

impl ValidationRule for Range {
    open spec fn model(&self) -> Seq<RuleV> {
        seq![RuleV::Range { min: opt_i64_int(self.min), max: opt_i64_int(self.max) }]
    }

    fn validate(&self, field_name: &str, value: &str) -> (r: Result<(), ValidationError>) {
        let r = range_check(field_name, value, self.min, self.max);
        proof {
            lemma_chain_singleton(
                RuleV::Range { min: opt_i64_int(self.min), max: opt_i64_int(self.max) },
                field_name@,
                value@,
            );
        }
        r
    }
}

// ---------------------------------------------------------------------------
// The closed rule enum
// ---------------------------------------------------------------------------

/// A validation rule as a closed tagged union, for chains assembled at run
/// time.
pub enum Rule {
    Required,
    Email,
    Length { min: Option<usize>, max: Option<usize> },
    Range { min: Option<i64>, max: Option<i64> },
    /// A wrapped rule whose failure is re-rendered with a fixed message.
    Message { inner: Box<Rule>, message: String },
}

/// The ghost model of a `Rule` value.
pub open spec fn rule_model(r: Rule) -> RuleV
    decreases r,
{
    match r {
        Rule::Required => RuleV::Required,
        Rule::Email => RuleV::Email,
        Rule::Length { min, max } => RuleV::Length {
            min: opt_usize_int(min),
            max: opt_usize_int(max),
        },
        Rule::Range { min, max } => RuleV::Range { min: opt_i64_int(min), max: opt_i64_int(max) },
        Rule::Message { inner, message } => RuleV::Message {
            inner: seq![rule_model(*inner)],
            message: message@,
        },
    }
}

impl View for Rule {
    type V = RuleV;

    open spec fn view(&self) -> RuleV {
        rule_model(*self)
    }
}

impl Rule {
    /// Check one field value against this rule.
    pub fn check(&self, field_name: &str, value: &str) -> (r: Result<(), ValidationError>)
        ensures
            match rule_error(self@, field_name@, value@) {
                None => r is Ok,
                Some(k) => r matches Err(e) && e@ == error_of(k) && e@.wf(),
            },
        decreases *self,
    {
        match self {
            Rule::Required => required_check(field_name, value),
            Rule::Email => email_check(field_name, value),
            Rule::Length { min, max } => length_check(field_name, value, *min, *max),
            Rule::Range { min, max } => range_check(field_name, value, *min, *max),
            Rule::Message { inner, message } => {
                let inner_result = inner.check(field_name, value);
                proof {
                    let ghost m = rule_model(**inner);
                    assert(chain_error_from(seq![m], 0, field_name@, value@) == match rule_error(
                        m,
                        field_name@,
                        value@,
                    ) {
                        Some(k) => Some(k),
                        None => chain_error_from(seq![m], 1, field_name@, value@),
                    });
                }
                match inner_result {
                    Ok(()) => Ok(()),
                    Err(_) => Err(ValidationError::new(field_name, message.as_str())),
                }
            },
        }
    }
}

/// Conversion of a rule value into the closed enum, used by `Rules::add`.
pub trait IntoRule: Sized {
    /// The ghost model of the resulting rule.
    spec fn rule_view(&self) -> RuleV;

    /// Convert into the closed enum.
    fn into_rule(self) -> (r: Rule)
        ensures
            r@ == self.rule_view(),
    ;
}

impl IntoRule for Required {
    open spec fn rule_view(&self) -> RuleV {
        RuleV::Required
    }

    fn into_rule(self) -> (r: Rule) {
        Rule::Required
    }
}

impl IntoRule for Email {
    open spec fn rule_view(&self) -> RuleV {
        RuleV::Email
    }

    fn into_rule(self) -> (r: Rule) {
        Rule::Email
    }
}

impl IntoRule for Length {
    open spec fn rule_view(&self) -> RuleV {
        RuleV::Length { min: opt_usize_int(self.min), max: opt_usize_int(self.max) }
    }

    fn into_rule(self) -> (r: Rule) {
        Rule::Length { min: self.min, max: self.max }
    }
}

impl IntoRule for Range {
    open spec fn rule_view(&self) -> RuleV {
        RuleV::Range { min: opt_i64_int(self.min), max: opt_i64_int(self.max) }
    }

    fn into_rule(self) -> (r: Rule) {
        Rule::Range { min: self.min, max: self.max }
    }
}

impl IntoRule for Rule {
    open spec fn rule_view(&self) -> RuleV {
        rule_model(*self)
    }

    fn into_rule(self) -> (r: Rule) {
        self
    }
}

// ---------------------------------------------------------------------------
// Combinators
// ---------------------------------------------------------------------------

/// An ordered rule chain: every rule must pass, and the first failure wins.
pub struct Rules {
    rules: Vec<Rule>,
}

impl View for Rules {
    type V = Seq<RuleV>;

    closed spec fn view(&self) -> Seq<RuleV> {
        self.rules@.map_values(|r: Rule| rule_model(r))
    }
}

impl Rules {
    /// The empty chain, which always passes.
    pub fn new() -> (r: Self)
        ensures
            r@ =~= Seq::<RuleV>::empty(),
    {
        Rules { rules: Vec::new() }
    }

    /// Append a rule to the chain.
    pub fn add<R: IntoRule>(self, rule: R) -> (r: Self)
        ensures
            r@ =~= self@.push(rule.rule_view()),
    {
        let ghost old_rules = self.rules@;
        let mut rules = self.rules;
        rules.push(rule.into_rule());
        proof {
            assert(rules@.map_values(|r: Rule| rule_model(r)) =~= old_rules.map_values(
                |r: Rule| rule_model(r),
            ).push(rule.rule_view()));
        }
        Rules { rules }
    }
}

impl ValidationRule for Rules {
    open spec fn model(&self) -> Seq<RuleV> {
        self@
    }

    fn validate(&self, field_name: &str, value: &str) -> (r: Result<(), ValidationError>) {
        let n = self.rules.len();
        let mut i: usize = 0;
        while i < n
            invariant
                i <= n,
                n == self.rules@.len(),
                n == self@.len(),
                self@ == self.rules@.map_values(|r: Rule| rule_model(r)),
                chain_error_from(self@, 0, field_name@, value@) == chain_error_from(
                    self@,
                    i as int,
                    field_name@,
                    value@,
                ),
            decreases n - i,
        {
            let result = self.rules[i].check(field_name, value);
            match result {
                Ok(()) => {
                    proof {
                        assert(self@[i as int] == rule_model(self.rules@[i as int]));
                        assert(chain_error_from(self@, i as int, field_name@, value@)
                            == chain_error_from(self@, i as int + 1, field_name@, value@));
                    }
                },
                Err(e) => {
                    proof {
                        assert(self@[i as int] == rule_model(self.rules@[i as int]));
                    }
                    return Err(e);
                },
            }
            i += 1;
        }
        Ok(())
    }
}

/// Wraps a rule and substitutes a fixed message for any failure, preserving
/// the field name; a success is never swallowed.
pub struct WithMessage<R> {
    pub rule: R,
    pub message: String,
}

impl<R> WithMessage<R> {
    /// Wrap `rule`, rendering its failures with `message`.
    pub fn new(rule: R, message: &str) -> (r: Self)
        ensures
            r.rule == rule,
            r.message@ == message@,
    {
        WithMessage { rule, message: message.to_owned() }
    }
}

impl<R: ValidationRule> ValidationRule for WithMessage<R> {
    open spec fn model(&self) -> Seq<RuleV> {
        seq![RuleV::Message { inner: self.rule.model(), message: self.message@ }]
    }

    fn validate(&self, field_name: &str, value: &str) -> (r: Result<(), ValidationError>) {
        let inner_result = self.rule.validate(field_name, value);
        proof {
            let ghost m = RuleV::Message { inner: self.rule.model(), message: self.message@ };
            assert(chain_error_from(seq![m], 0, field_name@, value@) == match rule_error(
                m,
                field_name@,
                value@,
            ) {
                Some(k) => Some(k),
                None => chain_error_from(seq![m], 1, field_name@, value@),
            });
        }
        match inner_result {
            Ok(()) => Ok(()),
            Err(_) => Err(ValidationError::new(field_name, self.message.as_str())),
        }
    }
}

impl<R: IntoRule> IntoRule for WithMessage<R> {
    open spec fn rule_view(&self) -> RuleV {
        RuleV::Message { inner: seq![self.rule.rule_view()], message: self.message@ }
    }

    fn into_rule(self) -> (r: Rule) {
        Rule::Message { inner: Box::new(self.rule.into_rule()), message: self.message }
    }
}

} // verus!
