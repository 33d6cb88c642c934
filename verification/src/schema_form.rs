//! The dynamic domain object: a `FormValidation` implementation driven by a
//! compiled schema.
//!
//! `SchemaForm` holds one typed value per declared field and implements the
//! whole capability from the schema alone: parsing by the field's
//! converter, validation by the field's compiled directive chain. It is the
//! run-time counterpart of a generated implementation, and the escape hatch
//! for schemas assembled dynamically.

use vstd::prelude::*;

use crate::errors::{error_of, field_of, ErrorV, ValidationError};
use crate::schema::{
    check_validators, cleared_values, default_typed, default_value, find_field, parse_typed,
    parse_typed_spec, render_typed, render_value, schema_names, schema_wf_fields, typed_matches,
    validator_error, validators_error, validators_error_from, FieldSchemaV, Schema, TypedV,
    TypedValue, ValidatorV,
};
use crate::strmap::StrMap;
use crate::text::str_eq;
use crate::validation::{FormValidation, ValidationResult};

verus! {

/// Ghost model of a dynamic domain object: the compiled fields and the
/// current typed value of each.
#[verifier::ext_equal]
pub struct SchemaFormV {
    pub fields: Seq<FieldSchemaV>,
    pub values: Map<Seq<char>, TypedV>,
}

/// A typed domain object whose shape and rules come from a compiled schema.
pub struct SchemaForm {
    schema: Schema,
    values: StrMap<TypedValue>,
}

impl View for SchemaForm {
    type V = SchemaFormV;

    closed spec fn view(&self) -> SchemaFormV {
        SchemaFormV { fields: self.schema@, values: self.values@ }
    }
}

/// Every kind produced by a validator chain names the validated field.
proof fn lemma_validators_error_field(vs: Seq<ValidatorV>, i: int, field: Seq<char>, tv: TypedV)
    ensures
        match validators_error_from(vs, i, field, tv) {
            Some(k) => field_of(k) == field,
            None => true,
        },
    decreases vs.len() - i,
{
    if 0 <= i < vs.len() {
        match validator_error(vs[i], field, tv) {
            Some(k) => {},
            None => {
                lemma_validators_error_field(vs, i + 1, field, tv);
            },
        }
    }
}

/// `find_field` finds exactly the declared names.
proof fn lemma_find_field(fields: Seq<FieldSchemaV>, n: Seq<char>)
    ensures
        match find_field(fields, n) {
            Some(f) => schema_names(fields).contains(n) && f.name == n && exists|i: int|
                0 <= i < fields.len() && #[trigger] fields[i] == f,
            None => !schema_names(fields).contains(n),
        },
    decreases fields.len(),
{
    if fields.len() > 0 {
        if fields[0].name == n {
            assert(schema_names(fields)[0] == n);
        } else {
            lemma_find_field(fields.drop_first(), n);
            let rest = fields.drop_first();
            assert(forall|j: int|
                0 <= j < rest.len() ==> #[trigger] schema_names(rest)[j] == schema_names(
                    fields,
                )[j + 1]);
            match find_field(rest, n) {
                Some(f) => {
                    let i = choose|i: int| 0 <= i < rest.len() && #[trigger] rest[i] == f;
                    assert(fields[i + 1] == f);
                    let j = choose|j: int|
                        0 <= j < schema_names(rest).len() && schema_names(rest)[j] == n;
                    assert(schema_names(fields)[j + 1] == n);
                },
                None => {
                    if schema_names(fields).contains(n) {
                        let j = choose|j: int|
                            0 <= j < schema_names(fields).len() && schema_names(fields)[j] == n;
                        assert(j != 0);
                        assert(schema_names(rest)[j - 1] == n);
                        assert(schema_names(rest).contains(n));
                    }
                },
            }
        }
    }
}

impl SchemaForm {
    /// Find the position of a declared field.
    fn find_pos(&self, name: &str) -> (r: Option<usize>)
        ensures
            match r {
                Some(i) => i < self.schema@.len() && self.schema@[i as int].name == name@
                    && find_field(self.schema@, name@) == Some(self.schema@[i as int]),
                None => find_field(self.schema@, name@) is None,
            },
    {
        let ghost full = self.schema@;
        let fields = self.schema.fields();
        let n = fields.len();
        let mut i: usize = 0;
        proof {
            assert(full.skip(0) =~= full);
        }
        while i < n
            invariant
                i <= n,
                n == fields@.len(),
                full == fields@.map_values(|f: crate::schema::FieldSchema| f@),
                full == self.schema@,
                find_field(full, name@) == find_field(full.skip(i as int), name@),
            decreases n - i,
        {
            proof {
                assert(full.skip(i as int)[0] == full[i as int]);
                assert(full.skip(i as int).drop_first() =~= full.skip(i as int + 1));
            }
            if str_eq(fields[i].name.as_str(), name) {
                return Some(i);
            }
            i += 1;
        }
        proof {
            assert(full.skip(n as int) =~= Seq::<FieldSchemaV>::empty());
        }
        None
    }

    /// Build a fresh domain object from a compiled schema, every field at
    /// its default value.
    pub fn new(schema: Schema) -> (r: Self)
        requires
            schema.wf(),
        ensures
            Self::m_inv(r@),
            r@.fields == schema@,
            r@.values =~= cleared_values(schema@),
    {
        let ghost sv = schema@;
        let n = schema.fields().len();
        let mut values: StrMap<TypedValue> = StrMap::new();
        let mut i: usize = 0;
        while i < n
            invariant
                i <= n,
                n == sv.len(),
                sv == schema@,
                schema.wf(),
                values.wf(),
                forall|k: Seq<char>|
                    #[trigger] values@.contains_key(k) <==> exists|j: int|
                        0 <= j < i && #[trigger] sv[j].name == k,
                forall|k: Seq<char>|
                    values@.contains_key(k) ==> #[trigger] values@[k] == (match find_field(sv, k) {
                        Some(f) => default_typed(f.converter),
                        None => arbitrary(),
                    }),
            decreases n - i,
        {
            let fields = schema.fields();
            let f = &fields[i];
            proof {
                assert(f@ == sv[i as int]);
            }
            values.insert(f.name.as_str(), default_value(f.converter));
            proof {
                lemma_find_field(sv, f.name@);
                assert(schema_names(sv)[i as int] == sv[i as int].name);
                assert(schema_names(sv).contains(f.name@));
                match find_field(sv, f.name@) {
                    Some(ff) => {
                        let j = choose|j: int| 0 <= j < sv.len() && #[trigger] sv[j] == ff;
                        assert(schema_names(sv)[j] == ff.name);
                        assert(schema_names(sv).no_duplicates());
                        assert(ff == sv[i as int]) by {
                            if j != i {
                                assert(schema_names(sv)[j] == schema_names(sv)[i as int]);
                            }
                        }
                    },
                    None => {
                        assert(false);
                    },
                }
                assert(forall|k: Seq<char>|
                    #[trigger] values@.contains_key(k) <==> exists|j: int|
                        0 <= j < i + 1 && #[trigger] sv[j].name == k) by {
                    assert(sv[i as int].name == f.name@);
                }
            }
            i += 1;
        }
        let r = SchemaForm { schema, values };
        proof {
            assert(r@.values =~= cleared_values(sv)) by {
                assert(forall|k: Seq<char>|
                    #[trigger] schema_names(sv).contains(k) ==> exists|j: int|
                        0 <= j < sv.len() && #[trigger] sv[j].name == k) by {
                    assert(forall|j: int|
                        0 <= j < sv.len() ==> #[trigger] schema_names(sv)[j] == sv[j].name);
                }
                assert forall|j: int|
                    0 <= j < sv.len() implies schema_names(sv).contains(#[trigger] sv[j].name) by {
                    assert(schema_names(sv)[j] == sv[j].name);
                }
            }
            lemma_schema_form_inv(r@);
        }
        r
    }

    /// The current typed value of a declared field.
    pub fn value_of(&self, name: &str) -> (r: Option<&TypedValue>)
        ensures
            match r {
                Some(v) => self@.values.contains_key(name@) && v@ == self@.values[name@],
                None => !self@.values.contains_key(name@),
            },
    {
        self.values.get(name)
    }
}

/// The invariant of a dynamic domain object: a well-formed schema, one
/// value per declared name, each matching its converter.
proof fn lemma_schema_form_inv(m: SchemaFormV)
    requires
        schema_wf_fields(m.fields),
        forall|k: Seq<char>|
            #[trigger] m.values.contains_key(k) <==> schema_names(m.fields).contains(k),
        forall|k: Seq<char>|
            m.values.contains_key(k) ==> #[trigger] m.values[k] == (match find_field(
                m.fields,
                k,
            ) {
                Some(f) => default_typed(f.converter),
                None => arbitrary(),
            }),
    ensures
        SchemaForm::m_inv(m),
{
    assert forall|k: Seq<char>| #[trigger] m.values.contains_key(k) implies (match find_field(
        m.fields,
        k,
    ) {
        Some(f) => typed_matches(f.converter, m.values[k]),
        None => false,
    }) by {
        lemma_find_field(m.fields, k);
        match find_field(m.fields, k) {
            Some(f) => {
                assert(m.values[k] == default_typed(f.converter));
                assert(typed_matches(f.converter, default_typed(f.converter)));
            },
            None => {},
        }
    }
}

impl FormValidation for SchemaForm {
    open spec fn m_inv(m: SchemaFormV) -> bool {
        &&& schema_wf_fields(m.fields)
        &&& forall|k: Seq<char>|
            #[trigger] m.values.contains_key(k) <==> schema_names(m.fields).contains(k)
        &&& forall|k: Seq<char>|
            #[trigger] m.values.contains_key(k) ==> (match find_field(m.fields, k) {
                Some(f) => typed_matches(f.converter, m.values[k]),
                None => false,
            })
    }

    open spec fn m_field_names(m: SchemaFormV) -> Seq<Seq<char>> {
        schema_names(m.fields)
    }

    open spec fn m_field_string(m: SchemaFormV, name: Seq<char>) -> Seq<char> {
        if m.values.contains_key(name) {
            render_typed(m.values[name])
        } else {
            Seq::empty()
        }
    }

    open spec fn m_validate(m: SchemaFormV, name: Seq<char>) -> Option<ErrorV> {
        match find_field(m.fields, name) {
            None => None,
            Some(f) => if m.values.contains_key(name) {
                match validators_error(f.validators, name, m.values[name]) {
                    Some(k) => Some(error_of(k)),
                    None => None,
                }
            } else {
                None
            },
        }
    }

    open spec fn m_sync(m: SchemaFormV, name: Seq<char>, raw: Seq<char>) -> SchemaFormV {
        match find_field(m.fields, name) {
            None => m,
            Some(f) => match parse_typed_spec(f.converter, name, raw) {
                Ok(tv) => SchemaFormV { fields: m.fields, values: m.values.insert(name, tv) },
                Err(_) => m,
            },
        }
    }

    open spec fn m_sync_err(m: SchemaFormV, name: Seq<char>, raw: Seq<char>) -> Option<ErrorV> {
        match find_field(m.fields, name) {
            None => None,
            Some(f) => match parse_typed_spec(f.converter, name, raw) {
                Ok(_) => None,
                Err(e) => Some(e),
            },
        }
    }

    open spec fn m_cleared(m: SchemaFormV) -> SchemaFormV {
        SchemaFormV { fields: m.fields, values: cleared_values(m.fields) }
    }

    proof fn lemma_model_laws(m: SchemaFormV, name: Seq<char>, raw: Seq<char>) {
        lemma_find_field(m.fields, name);
        match find_field(m.fields, name) {
            None => {},
            Some(f) => {
                match parse_typed_spec(f.converter, name, raw) {
                    Ok(tv) => {
                        let m1 = Self::m_sync(m, name, raw);
                        assert(typed_matches(f.converter, tv));
                        assert(Self::m_inv(m1)) by {
                            assert(forall|k: Seq<char>|
                                #[trigger] m1.values.contains_key(k) <==> schema_names(
                                    m1.fields,
                                ).contains(k));
                        }
                    },
                    Err(_) => {},
                }
                if m.values.contains_key(name) {
                    match validators_error(f.validators, name, m.values[name]) {
                        Some(k) => {
                            lemma_validators_error_field(f.validators, 0, name, m.values[name]);
                        },
                        None => {},
                    }
                }
            },
        }
        let c = Self::m_cleared(m);
        assert(Self::m_inv(c)) by {
            assert forall|k: Seq<char>| #[trigger] c.values.contains_key(k) implies (
            match find_field(c.fields, k) {
                Some(f) => typed_matches(f.converter, c.values[k]),
                None => false,
            }) by {
                lemma_find_field(c.fields, k);
            }
        }
    }

    proof fn lemma_sync_stable(
        m: SchemaFormV,
        n1: Seq<char>,
        r1: Seq<char>,
        n2: Seq<char>,
        r2: Seq<char>,
    ) {
        let m1 = Self::m_sync(m, n1, r1);
        assert(m1.fields == m.fields);
        let m2 = Self::m_sync(m1, n1, r1);
        assert(m2 =~= m1);
    }

    fn fresh() -> (r: Self) {
        let schema = Schema::empty();
        SchemaForm::new(schema)
    }

    fn field_names(&self) -> (r: Vec<String>) {
        let fields = self.schema.fields();
        let n = fields.len();
        let mut names: Vec<String> = Vec::new();
        let mut i: usize = 0;
        while i < n
            invariant
                i <= n,
                n == fields@.len(),
                fields@.map_values(|f: crate::schema::FieldSchema| f@) == self.schema@,
                names@.len() == i,
                forall|j: int|
                    0 <= j < i ==> #[trigger] names@[j]@ == schema_names(self.schema@)[j],
            decreases n - i,
        {
            names.push(fields[i].name.clone());
            i += 1;
        }
        proof {
            assert(names@.map_values(|s: String| s@) =~= schema_names(self.schema@));
        }
        names
    }

    fn validate_field(&self, field_name: &str) -> (r: ValidationResult) {
        match self.find_pos(field_name) {
            None => Ok(()),
            Some(i) => {
                let fields = self.schema.fields();
                let f = &fields[i];
                proof {
                    assert(f@ == self.schema@[i as int]);
                }
                match self.values.get(field_name) {
                    None => {
                        proof {
                            lemma_find_field(self@.fields, field_name@);
                        }
                        Ok(())
                    },
                    Some(tv) => {
                        let tv_now = tv.clone();
                        match check_validators(&f.validators, field_name, &tv_now) {
                            None => Ok(()),
                            Some(e) => Err(e),
                        }
                    },
                }
            },
        }
    }

    fn sync_field(&mut self, field_name: &str, raw: &str) -> (r: Option<ValidationError>) {
        match self.find_pos(field_name) {
            None => None,
            Some(i) => {
                let conv = self.schema.fields()[i].converter;
                proof {
                    assert(self.schema@[i as int].converter == conv);
                }
                match parse_typed(conv, field_name, raw) {
                    Ok(tv) => {
                        self.values.insert(field_name, tv);
                        proof {
                            assert(final(self)@ =~= Self::m_sync(old(self)@, field_name@, raw@));
                        }
                        None
                    },
                    Err(e) => Some(e),
                }
            },
        }
    }

    fn to_strings(&self) -> (r: StrMap<String>) {
        let ghost mv = self@;
        let ghost ns = Self::m_field_names(self@);
        let fields = self.schema.fields();
        let n = fields.len();
        let mut out: StrMap<String> = StrMap::new();
        let mut i: usize = 0;
        proof {
            assert(out.keys() =~= ns.subrange(0, 0));
        }
        while i < n
            invariant
                i <= n,
                n == fields@.len(),
                fields@.map_values(|f: crate::schema::FieldSchema| f@) == self.schema@,
                mv == self@,
                Self::m_inv(mv),
                ns == Self::m_field_names(mv),
                ns.len() == n,
                ns.no_duplicates(),
                out.wf(),
                out.keys() =~= ns.subrange(0, i as int),
                forall|k: Seq<char>|
                    #[trigger] out@.contains_key(k) ==> out@[k] == Self::m_field_string(mv, k),
            decreases n - i,
        {
            let f = &fields[i];
            proof {
                assert(f@ == self.schema@[i as int]);
                assert(ns[i as int] == f.name@);
            }
            let rendered = match self.values.get(f.name.as_str()) {
                Some(tv) => render_value(tv),
                None => String::new(),
            };
            proof {
                out.lemma_keys_dom(f.name@);
                assert(!out.keys().contains(f.name@)) by {
                    if out.keys().contains(f.name@) {
                        let j = choose|j: int|
                            0 <= j < out.keys().len() && out.keys()[j] == f.name@;
                        assert(ns.subrange(0, i as int)[j] == ns[i as int]);
                    }
                }
            }
            out.insert(f.name.as_str(), rendered);
            proof {
                assert(out.keys() =~= ns.subrange(0, i as int + 1)) by {
                    assert(forall|j: int|
                        0 <= j < i ==> ns.subrange(0, i as int)[j] == #[trigger] ns.subrange(
                            0,
                            i as int + 1,
                        )[j]);
                }
            }
            i += 1;
        }
        proof {
            assert(ns.subrange(0, n as int) =~= ns);
            assert(out.keys() == ns);
        }
        out
    }

    fn clear(&mut self) {
        let ghost m0 = old(self)@;
        let n = self.schema.fields().len();
        let mut i: usize = 0;
        while i < n
            invariant
                i <= n,
                n == self.schema@.len(),
                self.schema@ == m0.fields,
                Self::m_inv(m0),
                forall|k: Seq<char>|
                    #[trigger] self.values@.contains_key(k) <==> m0.values.contains_key(k),
                forall|k: Seq<char>|
                    #[trigger] self.values@.contains_key(k) ==> self.values@[k] == (
                    if exists|j: int| 0 <= j < i && #[trigger] m0.fields[j].name == k {
                        cleared_values(m0.fields)[k]
                    } else {
                        m0.values[k]
                    }),
            decreases n - i,
        {
            let conv = self.schema.fields()[i].converter;
            let name = self.schema.fields()[i].name.clone();
            proof {
                assert(self.schema@[i as int].converter == conv);
                assert(self.schema@[i as int].name == name@);
                lemma_find_field(m0.fields, name@);
                assert(schema_names(m0.fields)[i as int] == name@);
                assert(schema_names(m0.fields).contains(name@));
            }
            self.values.insert(name.as_str(), default_value(conv));
            proof {
                match find_field(m0.fields, name@) {
                    Some(ff) => {
                        let j = choose|j: int|
                            0 <= j < m0.fields.len() && #[trigger] m0.fields[j] == ff;
                        assert(schema_names(m0.fields)[j] == ff.name);
                        assert(ff == m0.fields[i as int]) by {
                            if j != i {
                                assert(schema_names(m0.fields)[j] == schema_names(
                                    m0.fields,
                                )[i as int]);
                            }
                        }
                        assert(cleared_values(m0.fields)[name@] == default_typed(ff.converter));
                    },
                    None => {
                        assert(false);
                    },
                }
                assert(forall|k: Seq<char>|
                    #[trigger] self.values@.contains_key(k) ==> self.values@[k] == (
                    if exists|j: int| 0 <= j < i + 1 && #[trigger] m0.fields[j].name == k {
                        cleared_values(m0.fields)[k]
                    } else {
                        m0.values[k]
                    })) by {
                    assert(m0.fields[i as int].name == name@);
                }
            }
            i += 1;
        }
        proof {
            assert(final(self)@ =~= Self::m_cleared(m0)) by {
                assert forall|k: Seq<char>| #[trigger] self.values@.contains_key(k) implies
                    self.values@[k] == cleared_values(m0.fields)[k] by {
                    assert(m0.values.contains_key(k));
                    assert(schema_names(m0.fields).contains(k));
                    let j = choose|j: int|
                        0 <= j < schema_names(m0.fields).len() && schema_names(m0.fields)[j] == k;
                    assert(m0.fields[j].name == k);
                }
                assert(self.values@.dom() =~= cleared_values(m0.fields).dom()) by {
                    assert(forall|k: Seq<char>|
                        #[trigger] m0.values.contains_key(k) <==> schema_names(
                            m0.fields,
                        ).contains(k));
                }
            }
        }
    }
}

} // verus!
