//! The form state machine.
//!
//! `FormState` holds the per-field live values, errors, touched flags and
//! recorded initial values. `Form` pairs a `FormState` with one typed
//! domain object implementing `FormValidation` and orchestrates the
//! synchronise-then-validate cycle: parse failures take precedence over
//! semantic failures, validation runs per field or for the whole form, and
//! the derived views (dirty, touched, valid, gated error messages) are
//! recomputed from the state. The policy is: validate on every change if
//! the caller wishes, but gate error *display* on the field having been
//! touched.

use vstd::prelude::*;

use crate::errors::{ErrorV, ValidationError};
use crate::strmap::StrMap;
use crate::validation::{
    lemma_sync_all, lemma_sync_errors, lemma_validate_errors, sync_all, sync_errors,
    validate_errors, FormValidation,
};

verus! {

/// A field's value cell: the live string value shown in its input widget.
pub struct FieldSignal {
    /// The field's current string value.
    pub value: String,
}

impl View for FieldSignal {
    type V = Seq<char>;

    open spec fn view(&self) -> Seq<char> {
        self.value@
    }
}

impl Clone for FieldSignal {
    fn clone(&self) -> (r: Self)
        ensures
            r == *self,
    {
        FieldSignal { value: self.value.clone() }
    }
}

impl FieldSignal {
    /// A cell holding the given value.
    pub fn new(value: String) -> (r: Self)
        ensures
            r@ == value@,
    {
        FieldSignal { value }
    }

    /// Read the cell.
    pub fn get(&self) -> (r: String)
        ensures
            r@ == self@,
    {
        self.value.clone()
    }

    /// Overwrite the cell.
    pub fn set(&mut self, value: String)
        ensures
            final(self)@ == value@,
    {
        self.value = value;
    }
}

/// A field is dirty when its live value differs from its recorded initial
/// value.
pub open spec fn field_dirty(
    fields: Map<Seq<char>, Seq<char>>,
    initial: Map<Seq<char>, Seq<char>>,
    k: Seq<char>,
) -> bool {
    fields.contains_key(k) && initial.contains_key(k) && fields[k] != initial[k]
}

/// A field is touched when its flag has been set.
pub open spec fn touched_at(touched: Map<Seq<char>, bool>, k: Seq<char>) -> bool {
    touched.contains_key(k) && touched[k]
}

/// The per-field reactive state of a form: live values, errors, touched
/// flags, and the initial values against which dirtiness is judged.
pub struct FormState {
    /// The live value of each registered field.
    pub fields: StrMap<FieldSignal>,
    /// The current error of each invalid field.
    pub errors: StrMap<ValidationError>,
    /// The touched flag of each field that has been touched.
    pub touched: StrMap<bool>,
    /// The initial value recorded for each registered field.
    pub initial_values: StrMap<String>,
}

impl FormState {
    /// Well-formed: the maps are well-formed, every registered field has a
    /// recorded initial value, and every stored error names its own field.
    pub open spec fn wf(&self) -> bool {
        &&& self.fields.wf()
        &&& self.errors.wf()
        &&& self.touched.wf()
        &&& self.initial_values.wf()
        &&& forall|k: Seq<char>|
            #[trigger] self.fields@.contains_key(k) <==> self.initial_values@.contains_key(k)
        &&& forall|k: Seq<char>|
            #[trigger] self.errors@.contains_key(k) ==> self.errors@[k].field == k
                && self.errors@[k].wf()
    }

    /// The empty form state.
    pub fn new() -> (r: Self)
        ensures
            r.wf(),
            r.fields@ =~= Map::<Seq<char>, Seq<char>>::empty(),
            r.errors@ =~= Map::<Seq<char>, ErrorV>::empty(),
            r.touched@ =~= Map::<Seq<char>, bool>::empty(),
            r.initial_values@ =~= Map::<Seq<char>, Seq<char>>::empty(),
            r.fields.keys() =~= Seq::<Seq<char>>::empty(),
    {
        FormState {
            fields: StrMap::new(),
            errors: StrMap::new(),
            touched: StrMap::new(),
            initial_values: StrMap::new(),
        }
    }

    /// Get a field's value cell, registering the field with an empty value
    /// on first reference; idempotent.
    pub fn get_or_create_field(&mut self, name: &str) -> (r: FieldSignal)
        requires
            old(self).wf(),
        ensures
            final(self).wf(),
            final(self).errors == old(self).errors,
            final(self).touched == old(self).touched,
            old(self).fields@.contains_key(name@) ==> *final(self) == *old(self) && r@ == old(
                self,
            ).fields@[name@],
            !old(self).fields@.contains_key(name@) ==> final(self).fields@ =~= old(
                self,
            ).fields@.insert(name@, Seq::empty()) && final(self).initial_values@ =~= old(
                self,
            ).initial_values@.insert(name@, Seq::empty()) && r@ == Seq::<char>::empty(),
    {
        let existing = match self.fields.get(name) {
            Some(sig) => Some(sig.clone()),
            None => None,
        };
        match existing {
            Some(sig) => sig,
            None => {
                let sig = FieldSignal::new(String::new());
                self.fields.insert(name, sig.clone());
                self.initial_values.insert(name, String::new());
                sig
            },
        }
    }

    /// Overwrite a field's live value, registering the field first if it is
    /// new (its initial value is then empty).
    pub fn set_field_value(&mut self, name: &str, value: &str)
        requires
            old(self).wf(),
        ensures
            final(self).wf(),
            final(self).errors == old(self).errors,
            final(self).touched == old(self).touched,
            final(self).fields@ =~= old(self).fields@.insert(name@, value@),
            final(self).initial_values@ =~= if old(self).fields@.contains_key(name@) {
                old(self).initial_values@
            } else {
                old(self).initial_values@.insert(name@, Seq::empty())
            },
    {
        if !self.fields.contains_key(name) {
            self.initial_values.insert(name, String::new());
        }
        self.fields.insert(name, FieldSignal::new(value.to_owned()));
    }

    /// Mark a field as touched (normally on blur); unknown names are
    /// ignored. The flag never auto-clears.
    pub fn mark_touched(&mut self, name: &str)
        requires
            old(self).wf(),
        ensures
            final(self).wf(),
            final(self).fields == old(self).fields,
            final(self).errors == old(self).errors,
            final(self).initial_values == old(self).initial_values,
            old(self).fields@.contains_key(name@) ==> final(self).touched@ =~= old(
                self,
            ).touched@.insert(name@, true),
            !old(self).fields@.contains_key(name@) ==> *final(self) == *old(self),
    {
        if self.fields.contains_key(name) {
            self.touched.insert(name, true);
        }
    }

    /// Whether a field's live value differs from its initial value.
    pub fn is_field_dirty(&self, name: &str) -> (r: bool)
        ensures
            r == field_dirty(self.fields@, self.initial_values@, name@),
    {
        match self.fields.get(name) {
            None => false,
            Some(sig) => match self.initial_values.get(name) {
                None => false,
                Some(init) => {
                    let live = sig.get();
                    !crate::text::str_eq(live.as_str(), init.as_str())
                },
            },
        }
    }

    /// Whether any field is dirty.
    pub fn is_form_dirty(&self) -> (r: bool)
        requires
            self.wf(),
        ensures
            r == exists|k: Seq<char>| #[trigger] field_dirty(self.fields@, self.initial_values@, k),
    {
        let n = self.fields.len();
        let mut i: usize = 0;
        while i < n
            invariant
                i <= n,
                n == self.fields.keys().len(),
                self.wf(),
                forall|j: int|
                    0 <= j < i ==> !field_dirty(
                        self.fields@,
                        self.initial_values@,
                        #[trigger] self.fields.keys()[j],
                    ),
            decreases n - i,
        {
            let key = self.fields.key_at(i).to_owned();
            proof {
                self.fields.lemma_keys_dom(key@);
            }
            if self.is_field_dirty(key.as_str()) {
                return true;
            }
            i += 1;
        }
        proof {
            if exists|k: Seq<char>| #[trigger] field_dirty(self.fields@, self.initial_values@, k) {
                let k = choose|k: Seq<char>|
                    #[trigger] field_dirty(self.fields@, self.initial_values@, k);
                self.fields.lemma_keys_dom(k);
                let j = choose|j: int|
                    0 <= j < self.fields.keys().len() && self.fields.keys()[j] == k;
                assert(!field_dirty(self.fields@, self.initial_values@, self.fields.keys()[j]));
            }
        }
        false
    }

    /// Whether a field has been touched.
    pub fn is_field_touched(&self, name: &str) -> (r: bool)
        ensures
            r == touched_at(self.touched@, name@),
    {
        match self.touched.get(name) {
            None => false,
            Some(flag) => *flag,
        }
    }

    /// Whether any field has been touched.
    pub fn is_form_touched(&self) -> (r: bool)
        requires
            self.wf(),
        ensures
            r == exists|k: Seq<char>| #[trigger] touched_at(self.touched@, k),
    {
        let n = self.touched.len();
        let mut i: usize = 0;
        while i < n
            invariant
                i <= n,
                n == self.touched.keys().len(),
                self.wf(),
                forall|j: int|
                    0 <= j < i ==> !touched_at(self.touched@, #[trigger] self.touched.keys()[j]),
            decreases n - i,
        {
            let key = self.touched.key_at(i).to_owned();
            proof {
                self.touched.lemma_keys_dom(key@);
            }
            if self.is_field_touched(key.as_str()) {
                return true;
            }
            i += 1;
        }
        proof {
            if exists|k: Seq<char>| #[trigger] touched_at(self.touched@, k) {
                let k = choose|k: Seq<char>| #[trigger] touched_at(self.touched@, k);
                self.touched.lemma_keys_dom(k);
                let j = choose|j: int|
                    0 <= j < self.touched.keys().len() && self.touched.keys()[j] == k;
                assert(!touched_at(self.touched@, self.touched.keys()[j]));
            }
        }
        false
    }

    /// The message to surface for a field: present exactly when the field
    /// is both touched and in error. Errors exist before touch but are not
    /// surfaced until touch, so pristine fields show no message.
    pub fn error_message(&self, name: &str) -> (r: Option<String>)
        ensures
            match r {
                Some(s) => touched_at(self.touched@, name@) && self.errors@.contains_key(name@)
                    && s@ == self.errors@[name@].message,
                None => !(touched_at(self.touched@, name@) && self.errors@.contains_key(name@)),
            },
    {
        if self.is_field_touched(name) {
            match self.errors.get(name) {
                Some(e) => Some(e.message().to_owned()),
                None => None,
            }
        } else {
            None
        }
    }
}

// ---------------------------------------------------------------------------
// The form orchestrator
// ---------------------------------------------------------------------------

/// Ghost model of a whole form: the state maps and the domain object model.
#[verifier::ext_equal]
pub struct FormV<M> {
    pub fields: Map<Seq<char>, Seq<char>>,
    pub errors: Map<Seq<char>, ErrorV>,
    pub touched: Map<Seq<char>, bool>,
    pub initial: Map<Seq<char>, Seq<char>>,
    pub data: M,
}

/// The gated error message of one field: present exactly when the field is
/// both touched and in error.
pub open spec fn em_spec<M>(v: FormV<M>, name: Seq<char>) -> Option<Seq<char>> {
    if touched_at(v.touched, name) && v.errors.contains_key(name) {
        Some(v.errors[name].message)
    } else {
        None
    }
}

/// The form after marking one registered field as touched.
pub open spec fn mt_step<M>(v: FormV<M>, name: Seq<char>) -> FormV<M> {
    if v.fields.contains_key(name) {
        FormV {
            fields: v.fields,
            errors: v.errors,
            touched: v.touched.insert(name, true),
            initial: v.initial,
            data: v.data,
        }
    } else {
        v
    }
}

/// The form after overwriting one field's live value (registering the field
/// with an empty initial value if it is new).
pub open spec fn sv_step<M>(v: FormV<M>, name: Seq<char>, val: Seq<char>) -> FormV<M> {
    FormV {
        fields: v.fields.insert(name, val),
        errors: v.errors,
        touched: v.touched,
        initial: if v.fields.contains_key(name) {
            v.initial
        } else {
            v.initial.insert(name, Seq::empty())
        },
        data: v.data,
    }
}

/// The form after validating one field: the field is synchronised to the
/// typed mirror; a parse failure is recorded and semantic validation is
/// skipped; otherwise the semantic outcome replaces or clears the field's
/// error. Unregistered names are silent no-ops.
pub open spec fn vf_step<T: FormValidation>(v: FormV<T::V>, name: Seq<char>) -> FormV<T::V> {
    if !v.fields.contains_key(name) {
        v
    } else {
        let raw = v.fields[name];
        let d1 = T::m_sync(v.data, name, raw);
        match T::m_sync_err(v.data, name, raw) {
            Some(e) => FormV {
                fields: v.fields,
                errors: v.errors.insert(name, e),
                touched: v.touched,
                initial: v.initial,
                data: d1,
            },
            None => match T::m_validate(d1, name) {
                Some(e) => FormV {
                    fields: v.fields,
                    errors: v.errors.insert(name, e),
                    touched: v.touched,
                    initial: v.initial,
                    data: d1,
                },
                None => FormV {
                    fields: v.fields,
                    errors: v.errors.remove(name),
                    touched: v.touched,
                    initial: v.initial,
                    data: d1,
                },
            },
        }
    }
}

/// Whole-form validation and its outcome: every field is synchronised to
/// the typed mirror first; if any parse error arose the parse errors are
/// recorded and the semantic validators do not run; otherwise the semantic
/// failures replace the entire error map, and the form is valid exactly
/// when that map is empty.
pub open spec fn validate_step<T: FormValidation>(v: FormV<T::V>) -> (FormV<T::V>, bool) {
    let names = T::m_field_names(v.data);
    let d1 = sync_all::<T>(v.data, names, v.fields);
    let perrs = sync_errors::<T>(v.data, names, v.fields);
    if exists|k: Seq<char>| perrs.contains_key(k) {
        (
            FormV {
                fields: v.fields,
                errors: v.errors.union_prefer_right(perrs),
                touched: v.touched,
                initial: v.initial,
                data: d1,
            },
            false,
        )
    } else {
        let errs = validate_errors::<T>(d1, names);
        (
            FormV {
                fields: v.fields,
                errors: errs,
                touched: v.touched,
                initial: v.initial,
                data: d1,
            },
            !(exists|k: Seq<char>| errs.contains_key(k)),
        )
    }
}

/// A reactive form: the per-field state plus one typed domain object kept
/// in sync with the field strings.
pub struct Form<T: FormValidation> {
    /// The per-field reactive state.
    pub state: FormState,
    /// The typed mirror of the form's data.
    pub form_data: T,
}

impl<T: FormValidation> View for Form<T> {
    type V = FormV<T::V>;

    open spec fn view(&self) -> FormV<T::V> {
        FormV {
            fields: self.state.fields@,
            errors: self.state.errors@,
            touched: self.state.touched@,
            initial: self.state.initial_values@,
            data: self.form_data@,
        }
    }
}

impl<T: FormValidation> Form<T> {
    /// Well-formed: the state is well-formed, the mirror is valid, and
    /// errors exist only for declared fields.
    pub open spec fn wf(&self) -> bool {
        &&& self.state.wf()
        &&& T::m_inv(self.form_data@)
        &&& forall|k: Seq<char>|
            #[trigger] self.state.errors@.contains_key(k) ==> T::m_field_names(
                self.form_data@,
            ).contains(k)
    }

    /// An empty form around a fresh domain object.
    pub fn new() -> (r: Self)
        ensures
            r.wf(),
            r@.fields =~= Map::<Seq<char>, Seq<char>>::empty(),
            r@.errors =~= Map::<Seq<char>, ErrorV>::empty(),
            r@.touched =~= Map::<Seq<char>, bool>::empty(),
            r@.initial =~= Map::<Seq<char>, Seq<char>>::empty(),
            T::m_inv(r@.data),
    {
        Form { state: FormState::new(), form_data: T::fresh() }
    }

    /// A form initialised from an existing domain object: the field values
    /// and the recorded initial values are its rendered field strings.
    pub fn from(data: T) -> (r: Self)
        requires
            T::m_inv(data@),
        ensures
            r.wf(),
            r.form_data == data,
            r@.errors =~= Map::<Seq<char>, ErrorV>::empty(),
            r@.touched =~= Map::<Seq<char>, bool>::empty(),
            r.state.fields.keys() == T::m_field_names(data@),
            forall|n: Seq<char>|
                #[trigger] r@.fields.contains_key(n) <==> T::m_field_names(data@).contains(n),
            forall|n: Seq<char>|
                #[trigger] r@.fields.contains_key(n) ==> r@.fields[n] == T::m_field_string(
                    data@,
                    n,
                ),
            r@.initial =~= r@.fields,
    {
        let ghost names = T::m_field_names(data@);
        let strings = data.to_strings();
        let mut state = FormState::new();
        let n = strings.len();
        let mut i: usize = 0;
        proof {
            assert(state.fields.keys() =~= strings.keys().subrange(0, 0));
        }
        while i < n
            invariant
                i <= n,
                n == strings.keys().len(),
                strings.wf(),
                strings.keys() == names,
                forall|k: Seq<char>|
                    #[trigger] strings@.contains_key(k) ==> strings@[k] == T::m_field_string(
                        data@,
                        k,
                    ),
                state.fields.wf(),
                state.initial_values.wf(),
                state.errors.wf(),
                state.touched.wf(),
                state.errors@ =~= Map::<Seq<char>, ErrorV>::empty(),
                state.touched@ =~= Map::<Seq<char>, bool>::empty(),
                state.fields.keys() =~= strings.keys().subrange(0, i as int),
                forall|k: Seq<char>|
                    #[trigger] state.fields@.contains_key(k) ==> strings@.contains_key(k)
                        && state.fields@[k] == strings@[k],
                state.initial_values@ =~= state.fields@,
            decreases n - i,
        {
            let key = strings.key_at(i).to_owned();
            let val = match strings.get(key.as_str()) {
                Some(v) => v.clone(),
                None => String::new(),
            };
            proof {
                strings.lemma_keys_dom(key@);
                assert(strings@.contains_key(key@));
                state.fields.lemma_keys_dom(key@);
                assert(!state.fields.keys().contains(key@)) by {
                    if state.fields.keys().contains(key@) {
                        let j = choose|j: int|
                            0 <= j < state.fields.keys().len() && state.fields.keys()[j] == key@;
                        assert(strings.keys().subrange(0, i as int)[j] == strings.keys()[i as int]);
                    }
                }
            }
            state.fields.insert(key.as_str(), FieldSignal::new(val.clone()));
            state.initial_values.insert(key.as_str(), val);
            proof {
                assert(state.fields.keys() =~= strings.keys().subrange(0, i as int + 1)) by {
                    assert(forall|j: int|
                        0 <= j < i ==> strings.keys().subrange(0, i as int)[j]
                            == #[trigger] strings.keys().subrange(0, i as int + 1)[j]);
                }
                assert(state.initial_values@ =~= state.fields@);
            }
            i += 1;
        }
        proof {
            assert(strings.keys().subrange(0, n as int) =~= strings.keys());
            assert(state.fields.keys() == names);
        }
        let r = Form { state, form_data: data };
        proof {
            assert forall|k: Seq<char>| #[trigger] r.state.fields@.contains_key(k) implies
                names.contains(k) by {
                r.state.fields.lemma_keys_dom(k);
            }
            assert forall|k: Seq<char>| names.contains(k) implies r.state.fields@.contains_key(
                k,
            ) by {
                r.state.fields.lemma_keys_dom(k);
            }
            assert(r.state.wf());
        }
        r
    }

    /// The current live values of every registered field.
    pub fn values(&self) -> (r: StrMap<String>)
        requires
            self.wf(),
        ensures
            r@ =~= self@.fields,
            r.keys() == self.state.fields.keys(),
            r.wf(),
    {
        let n = self.state.fields.len();
        let mut out: StrMap<String> = StrMap::new();
        let mut i: usize = 0;
        proof {
            assert(out.keys() =~= self.state.fields.keys().subrange(0, 0));
        }
        while i < n
            invariant
                i <= n,
                n == self.state.fields.keys().len(),
                self.wf(),
                out.wf(),
                out.keys() =~= self.state.fields.keys().subrange(0, i as int),
                forall|k: Seq<char>|
                    #[trigger] out@.contains_key(k) ==> self.state.fields@.contains_key(k)
                        && out@[k] == self.state.fields@[k],
            decreases n - i,
        {
            let key = self.state.fields.key_at(i).to_owned();
            let val = match self.state.fields.get(key.as_str()) {
                Some(sig) => sig.get(),
                None => String::new(),
            };
            proof {
                self.state.fields.lemma_keys_dom(key@);
                out.lemma_keys_dom(key@);
                assert(!out.keys().contains(key@)) by {
                    if out.keys().contains(key@) {
                        let j = choose|j: int|
                            0 <= j < out.keys().len() && out.keys()[j] == key@;
                        assert(self.state.fields.keys().subrange(0, i as int)[j]
                            == self.state.fields.keys()[i as int]);
                        assert(self.state.fields.wf());
                    }
                }
            }
            out.insert(key.as_str(), val);
            proof {
                assert(out.keys() =~= self.state.fields.keys().subrange(0, i as int + 1)) by {
                    assert(forall|j: int|
                        0 <= j < i ==> self.state.fields.keys().subrange(0, i as int)[j]
                            == #[trigger] self.state.fields.keys().subrange(0, i as int + 1)[j]);
                }
            }
            i += 1;
        }
        proof {
            assert(self.state.fields.keys().subrange(0, n as int) =~= self.state.fields.keys());
            assert(out@ =~= self@.fields) by {
                assert forall|k: Seq<char>| self@.fields.contains_key(k) implies
                    out@.contains_key(k) by {
                    self.state.fields.lemma_keys_dom(k);
                    out.lemma_keys_dom(k);
                }
            }
        }
        out
    }

    /// The typed domain object (current as of the last synchronisation).
    pub fn data(&self) -> (r: &T)
        ensures
            *r == self.form_data,
    {
        &self.form_data
    }

    /// Get a field's value cell, registering the field on first reference.
    pub fn get_or_create_field(&mut self, name: &str) -> (r: FieldSignal)
        requires
            old(self).wf(),
        ensures
            final(self).wf(),
            final(self).form_data == old(self).form_data,
            final(self)@.errors == old(self)@.errors,
            final(self)@.touched == old(self)@.touched,
            old(self)@.fields.contains_key(name@) ==> *final(self) == *old(self) && r@ == old(
                self,
            )@.fields[name@],
            !old(self)@.fields.contains_key(name@) ==> final(self)@.fields =~= old(
                self,
            )@.fields.insert(name@, Seq::empty()) && final(self)@.initial =~= old(
                self,
            )@.initial.insert(name@, Seq::empty()) && r@ == Seq::<char>::empty(),
    {
        self.state.get_or_create_field(name)
    }

    /// Overwrite a field's live value (registering it if new). Validation
    /// is not run here; call `validate_field` after the change for live
    /// feedback.
    pub fn set_field_value(&mut self, name: &str, value: &str)
        requires
            old(self).wf(),
        ensures
            final(self).wf(),
            final(self).form_data == old(self).form_data,
            final(self)@ =~= sv_step(old(self)@, name@, value@),
    {
        self.state.set_field_value(name, value);
    }

    /// Mark a field as touched; unknown names are ignored.
    pub fn mark_touched(&mut self, name: &str)
        requires
            old(self).wf(),
        ensures
            final(self).wf(),
            final(self).form_data == old(self).form_data,
            final(self)@ =~= mt_step(old(self)@, name@),
    {
        self.state.mark_touched(name);
    }

    /// The gated error message of one field: present exactly when the
    /// field is both touched and in error.
    pub fn error_message(&self, name: &str) -> (r: Option<String>)
        ensures
            match r {
                Some(s) => em_spec(self@, name@) == Some(s@),
                None => em_spec(self@, name@) is None,
            },
    {
        self.state.error_message(name)
    }

    /// Whether the error map is empty: the form-level validity view.
    pub fn is_valid(&self) -> (r: bool)
        ensures
            r == !(exists|k: Seq<char>| #[trigger] self@.errors.contains_key(k)),
    {
        let empty = self.state.errors.is_empty();
        proof {
            if empty {
                assert(self@.errors =~= Map::<Seq<char>, ErrorV>::empty());
                if exists|k: Seq<char>| #[trigger] self@.errors.contains_key(k) {
                    let k = choose|k: Seq<char>| #[trigger] self@.errors.contains_key(k);
                    assert(false);
                }
            } else {
                let k0 = self.state.errors.keys()[0];
                assert(self.state.errors.keys().contains(k0));
                self.state.errors.lemma_keys_dom(k0);
                assert(self.state.errors@.contains_key(k0));
                assert(self@.errors.contains_key(k0));
            }
        }
        empty
    }

    /// Validate one field: synchronise its current string to the typed
    /// mirror; on parse failure record the parse error and stop; otherwise
    /// run the field's semantic rules and replace or clear its error.
    pub fn validate_field(&mut self, name: &str)
        requires
            old(self).wf(),
        ensures
            final(self).wf(),
            final(self)@ =~= vf_step::<T>(old(self)@, name@),
    {
        let raw = match self.state.fields.get(name) {
            Some(sig) => Some(sig.get()),
            None => None,
        };
        match raw {
            None => {},
            Some(raw_s) => {
                let sync_result = self.form_data.sync_field(name, raw_s.as_str());
                proof {
                    T::lemma_model_laws(old(self).form_data@, name@, raw_s@);
                }
                match sync_result {
                    Some(e) => {
                        self.state.errors.insert(name, e);
                    },
                    None => {
                        let validate_result = self.form_data.validate_field(name);
                        proof {
                            T::lemma_model_laws(self.form_data@, name@, raw_s@);
                        }
                        match validate_result {
                            Ok(()) => {
                                self.state.errors.remove(name);
                            },
                            Err(e) => {
                                self.state.errors.insert(name, e);
                            },
                        }
                    },
                }
            },
        }
    }

    /// Validate the whole form: synchronise every field, record parse
    /// errors (which suppress semantic validation), otherwise replace the
    /// error map with the semantic failures. Returns the validity verdict.
    pub fn validate(&mut self) -> (r: bool)
        requires
            old(self).wf(),
        ensures
            final(self).wf(),
            final(self)@ =~= validate_step::<T>(old(self)@).0,
            r == validate_step::<T>(old(self)@).1,
    {
        let ghost names = T::m_field_names(old(self).form_data@);
        let ghost m0 = old(self).form_data@;
        let vals = self.values();
        let perrs = crate::validation::sync_from_strings(&mut self.form_data, &vals);
        proof {
            lemma_sync_all::<T>(m0, names, old(self)@.fields);
        }
        if !perrs.is_empty() {
            let ghost spe = sync_errors::<T>(m0, names, old(self)@.fields);
            proof {
                perrs.lemma_keys_dom(perrs.keys()[0]);
                assert(perrs@.contains_key(perrs.keys()[0]));
                assert(exists|k: Seq<char>| spe.contains_key(k)) by {
                    assert(spe.contains_key(perrs.keys()[0]));
                }
            }
            let pn = perrs.len();
            let mut j: usize = 0;
            while j < pn
                invariant
                    j <= pn,
                    pn == perrs.keys().len(),
                    perrs.wf(),
                    perrs@ =~= spe,
                    self.state.errors.wf(),
                    T::m_inv(m0),
                    names == T::m_field_names(m0),
                    spe == sync_errors::<T>(m0, names, old(self)@.fields),
                    old(self).wf(),
                    self.form_data@ == sync_all::<T>(m0, names, old(self)@.fields),
                    T::m_field_names(self.form_data@) == names,
                    T::m_inv(self.form_data@),
                    self.state.fields == old(self).state.fields,
                    self.state.touched == old(self).state.touched,
                    self.state.initial_values == old(self).state.initial_values,
                    forall|k: Seq<char>|
                        #[trigger] self.state.errors@.contains_key(k) <==> (old(
                            self,
                        )@.errors.contains_key(k) || perrs.keys().subrange(0, j as int).contains(
                            k,
                        )),
                    forall|k: Seq<char>|
                        #[trigger] perrs.keys().subrange(0, j as int).contains(k)
                            ==> self.state.errors@[k] == perrs@[k],
                    forall|k: Seq<char>|
                        #[trigger] self.state.errors@.contains_key(k) && !perrs.keys().subrange(
                            0,
                            j as int,
                        ).contains(k) ==> self.state.errors@[k] == old(self)@.errors[k],
                decreases pn - j,
            {
                let key = perrs.key_at(j).to_owned();
                let err = match perrs.get(key.as_str()) {
                    Some(e) => e.clone(),
                    None => ValidationError::new(key.as_str(), ""),
                };
                proof {
                    perrs.lemma_keys_dom(key@);
                    assert(perrs@.contains_key(key@));
                }
                self.state.errors.insert(key.as_str(), err);
                proof {
                    assert(perrs.keys().subrange(0, j as int + 1)[j as int] == key@);
                    assert(forall|k2: int|
                        0 <= k2 < j ==> perrs.keys().subrange(0, j as int)[k2]
                            == #[trigger] perrs.keys().subrange(0, j as int + 1)[k2]);
                    assert(forall|k: Seq<char>|
                        #[trigger] perrs.keys().subrange(0, j as int).contains(k)
                            ==> perrs.keys().subrange(0, j as int + 1).contains(k));
                    assert forall|k: Seq<char>|
                        #[trigger] perrs.keys().subrange(0, j as int + 1).contains(k) implies (
                        perrs.keys().subrange(0, j as int).contains(k) || k == key@) by {
                        let idx = choose|idx: int|
                            0 <= idx < perrs.keys().subrange(0, j as int + 1).len()
                                && #[trigger] perrs.keys().subrange(0, j as int + 1)[idx] == k;
                        if idx < j {
                            assert(perrs.keys().subrange(0, j as int)[idx] == k);
                        }
                    }
                }
                j += 1;
            }
            proof {
                assert(perrs.keys().subrange(0, pn as int) =~= perrs.keys());
                assert(self.state.errors@ =~= old(self)@.errors.union_prefer_right(spe)) by {
                    assert forall|k: Seq<char>| #[trigger] spe.contains_key(k) implies
                        perrs.keys().contains(k) by {
                        perrs.lemma_keys_dom(k);
                    }
                    assert forall|k: Seq<char>| #[trigger] perrs.keys().contains(k) implies
                        spe.contains_key(k) by {
                        perrs.lemma_keys_dom(k);
                    }
                }
                assert(final(self).wf()) by {
                    assert forall|k: Seq<char>| #[trigger] self.state.errors@.contains_key(k)
                        implies T::m_field_names(self.form_data@).contains(k)
                        && self.state.errors@[k].field == k && self.state.errors@[k].wf() by {
                        if perrs.keys().contains(k) {
                            perrs.lemma_keys_dom(k);
                            assert(perrs@.contains_key(k));
                            assert(self.state.errors@[k] == perrs@[k]);
                            lemma_sync_errors::<T>(m0, names, old(self)@.fields, k);
                            T::lemma_model_laws(m0, k, old(self)@.fields[k]);
                        } else {
                            assert(!perrs.keys().subrange(0, pn as int).contains(k));
                            assert(old(self)@.errors.contains_key(k));
                            assert(self.state.errors@[k] == old(self)@.errors[k]);
                            assert(old(self).state.wf());
                            assert(self.state.errors@[k].field == k);
                            assert(self.state.errors@[k].wf());
                            assert(T::m_field_names(m0).contains(k));
                            assert(T::m_field_names(self.form_data@) == T::m_field_names(m0));
                        }
                    }
                }
            }
            false
        } else {
            let ghost spe = sync_errors::<T>(m0, names, old(self)@.fields);
            proof {
                assert(perrs@ =~= Map::<Seq<char>, ErrorV>::empty());
                assert(!(exists|k: Seq<char>| spe.contains_key(k))) by {
                    if exists|k: Seq<char>| spe.contains_key(k) {
                        let k = choose|k: Seq<char>| spe.contains_key(k);
                        assert(perrs@.contains_key(k));
                    }
                }
            }
            let errs = crate::validation::validate_all(&self.form_data);
            self.state.errors = errs;
            let valid = self.is_valid();
            proof {
                let ghost d1 = sync_all::<T>(m0, names, old(self)@.fields);
                assert(self.form_data@ == d1);
                assert(self.state.errors@ =~= validate_errors::<T>(d1, names));
                assert(final(self).wf()) by {
                    assert forall|k: Seq<char>| #[trigger] self.state.errors@.contains_key(k)
                        implies T::m_field_names(self.form_data@).contains(k)
                        && self.state.errors@[k].field == k && self.state.errors@[k].wf() by {
                        lemma_validate_errors::<T>(d1, names, k);
                        T::lemma_model_laws(d1, k, Seq::empty());
                    }
                }
                assert(final(self)@ =~= validate_step::<T>(old(self)@).0);
                assert(valid == validate_step::<T>(old(self)@).1) by {
                    assert((exists|k: Seq<char>|
                        #[trigger] self@.errors.contains_key(k)) == (exists|k: Seq<char>|
                        validate_errors::<T>(d1, names).contains_key(k))) by {
                        if exists|k: Seq<char>| #[trigger] self@.errors.contains_key(k) {
                            let k = choose|k: Seq<char>| #[trigger] self@.errors.contains_key(k);
                            assert(validate_errors::<T>(d1, names).contains_key(k));
                        }
                        if exists|k: Seq<char>| validate_errors::<T>(d1, names).contains_key(k) {
                            let k = choose|k: Seq<char>|
                                validate_errors::<T>(d1, names).contains_key(k);
                            assert(self@.errors.contains_key(k));
                        }
                    }
                }
            }
            valid
        }
    }

    /// Reset the form: every live value and recorded initial value becomes
    /// empty, touched flags and errors are cleared, and the typed mirror is
    /// replaced by its cleared state.
    pub fn reset(&mut self)
        requires
            old(self).wf(),
        ensures
            final(self).wf(),
            final(self)@.errors =~= Map::<Seq<char>, ErrorV>::empty(),
            final(self)@.touched =~= Map::<Seq<char>, bool>::empty(),
            forall|k: Seq<char>|
                #[trigger] final(self)@.fields.contains_key(k) <==> old(
                    self,
                )@.fields.contains_key(k),
            forall|k: Seq<char>|
                #[trigger] final(self)@.fields.contains_key(k) ==> final(self)@.fields[k]
                    == Seq::<char>::empty(),
            forall|k: Seq<char>|
                #[trigger] final(self)@.initial.contains_key(k) <==> old(
                    self,
                )@.initial.contains_key(k),
            forall|k: Seq<char>|
                #[trigger] final(self)@.initial.contains_key(k) ==> final(self)@.initial[k]
                    == Seq::<char>::empty(),
            final(self)@.data == T::m_cleared(old(self)@.data),
    {
        let n = self.state.fields.len();
        let mut i: usize = 0;
        while i < n
            invariant
                i <= n,
                n == self.state.fields.keys().len(),
                self.state.fields.wf(),
                self.state.fields.keys() == old(self).state.fields.keys(),
                forall|k: Seq<char>|
                    #[trigger] self.state.fields@.contains_key(k) <==> old(
                        self,
                    ).state.fields@.contains_key(k),
                forall|j: int|
                    0 <= j < i ==> self.state.fields@[#[trigger] self.state.fields.keys()[j]]
                        == Seq::<char>::empty(),
                self.state.errors == old(self).state.errors,
                self.state.touched == old(self).state.touched,
                self.state.initial_values == old(self).state.initial_values,
                self.form_data == old(self).form_data,
            decreases n - i,
        {
            let key = self.state.fields.key_at(i).to_owned();
            proof {
                self.state.fields.lemma_keys_dom(key@);
            }
            self.state.fields.insert(key.as_str(), FieldSignal::new(String::new()));
            proof {
                assert(self.state.fields.keys() =~= old(self).state.fields.keys());
                assert forall|j: int| 0 <= j < i + 1 implies self.state.fields@[
                    #[trigger] self.state.fields.keys()[j]] == Seq::<char>::empty() by {
                    if j < i {
                        assert(self.state.fields.keys()[j] != key@) by {
                            assert(self.state.fields.keys().no_duplicates());
                        }
                    }
                }
            }
            i += 1;
        }
        proof {
            assert forall|k: Seq<char>| #[trigger] self.state.fields@.contains_key(k) implies
                self.state.fields@[k] == Seq::<char>::empty() by {
                self.state.fields.lemma_keys_dom(k);
            }
        }
        let m = self.state.initial_values.len();
        let mut j: usize = 0;
        while j < m
            invariant
                j <= m,
                m == self.state.initial_values.keys().len(),
                self.state.initial_values.wf(),
                self.state.initial_values.keys() == old(self).state.initial_values.keys(),
                forall|k: Seq<char>|
                    #[trigger] self.state.initial_values@.contains_key(k) <==> old(
                        self,
                    ).state.initial_values@.contains_key(k),
                forall|j2: int|
                    0 <= j2 < j ==> self.state.initial_values@[
                        #[trigger] self.state.initial_values.keys()[j2]] == Seq::<char>::empty(),
                self.state.errors == old(self).state.errors,
                self.state.touched == old(self).state.touched,
                self.form_data == old(self).form_data,
                self.state.fields.wf(),
                forall|k: Seq<char>|
                    #[trigger] self.state.fields@.contains_key(k) <==> old(
                        self,
                    ).state.fields@.contains_key(k),
                forall|k: Seq<char>|
                    #[trigger] self.state.fields@.contains_key(k) ==> self.state.fields@[k]
                        == Seq::<char>::empty(),
            decreases m - j,
        {
            let key = self.state.initial_values.key_at(j).to_owned();
            proof {
                self.state.initial_values.lemma_keys_dom(key@);
            }
            self.state.initial_values.insert(key.as_str(), String::new());
            proof {
                assert(self.state.initial_values.keys() =~= old(
                    self,
                ).state.initial_values.keys());
                assert forall|j2: int| 0 <= j2 < j + 1 implies self.state.initial_values@[
                    #[trigger] self.state.initial_values.keys()[j2]] == Seq::<char>::empty() by {
                    if j2 < j {
                        assert(self.state.initial_values.keys()[j2] != key@) by {
                            assert(self.state.initial_values.keys().no_duplicates());
                        }
                    }
                }
            }
            j += 1;
        }
        self.state.errors.clear();
        self.state.touched.clear();
        proof {
            T::lemma_model_laws(old(self).form_data@, Seq::empty(), Seq::empty());
        }
        self.form_data.clear();
        proof {
            assert forall|k: Seq<char>| #[trigger] self.state.fields@.contains_key(k) implies
                self.state.fields@[k] == Seq::<char>::empty() by {
                self.state.fields.lemma_keys_dom(k);
            }
            assert forall|k: Seq<char>| #[trigger] self.state.initial_values@.contains_key(k)
                implies self.state.initial_values@[k] == Seq::<char>::empty() by {
                self.state.initial_values.lemma_keys_dom(k);
            }
        }
    }
}

impl<T: FormValidation> Default for Form<T> {
    /// The empty form, as `new` builds it.
    fn default() -> (r: Self)
        ensures
            r.wf(),
    {
        Form::new()
    }
}

// ---------------------------------------------------------------------------
// Laws of the form state machine
// ---------------------------------------------------------------------------

/// Validating a field twice with no intervening value change gives the same
/// form: the second pass synchronises the same raw string to the same
/// mirror and reproduces the same error decision.
pub proof fn lemma_validate_field_idempotent<T: FormValidation>(v: FormV<T::V>, name: Seq<char>)
    requires
        T::m_inv(v.data),
    ensures
        vf_step::<T>(vf_step::<T>(v, name), name) =~= vf_step::<T>(v, name),
{
    if v.fields.contains_key(name) {
        let raw = v.fields[name];
        let d1 = T::m_sync(v.data, name, raw);
        T::lemma_model_laws(v.data, name, raw);
        T::lemma_sync_stable(v.data, name, raw, name, raw);
        let v1 = vf_step::<T>(v, name);
        assert(v1.fields == v.fields);
        assert(v1.data == d1);
        assert(T::m_sync(d1, name, raw) == d1);
        assert(T::m_sync_err(d1, name, raw) == T::m_sync_err(v.data, name, raw));
        match T::m_sync_err(v.data, name, raw) {
            Some(e) => {
                assert(v1.errors == v.errors.insert(name, e));
                assert(vf_step::<T>(v1, name).errors =~= v1.errors);
                assert(vf_step::<T>(v1, name) =~= v1);
            },
            None => {
                match T::m_validate(d1, name) {
                    Some(e) => {
                        assert(vf_step::<T>(v1, name).errors =~= v1.errors);
                        assert(vf_step::<T>(v1, name) =~= v1);
                    },
                    None => {
                        assert(vf_step::<T>(v1, name).errors =~= v1.errors);
                        assert(vf_step::<T>(v1, name) =~= v1);
                    },
                }
            },
        }
    }
}

/// Touch-gating: before a field is touched its message is withheld even if
/// it is in error; marking it touched surfaces exactly the stored error's
/// message, with no further value change.
pub proof fn lemma_touch_gating<M>(v: FormV<M>, name: Seq<char>)
    requires
        v.fields.contains_key(name),
    ensures
        !touched_at(v.touched, name) ==> em_spec(v, name) is None,
        em_spec(mt_step(v, name), name) is Some <==> v.errors.contains_key(name),
        v.errors.contains_key(name) ==> em_spec(mt_step(v, name), name) == Some(
            v.errors[name].message,
        ),
{
    let v1 = mt_step(v, name);
    assert(touched_at(v1.touched, name));
}

/// Dirtiness tracks the initial value, not the previous value: after
/// setting a registered field, the field is dirty exactly when the new
/// value differs from the recorded initial value.
pub proof fn lemma_dirty_tracks_initial<M>(v: FormV<M>, name: Seq<char>, val: Seq<char>)
    requires
        v.fields.contains_key(name),
        v.initial.contains_key(name),
    ensures
        field_dirty(sv_step(v, name, val).fields, sv_step(v, name, val).initial, name) <==> val
            != v.initial[name],
{
}

/// Parse failures take precedence: when whole-form validation finds a parse
/// error for a field, the verdict is invalid and that field's recorded
/// error is exactly the parse error — the semantic validators never run on
/// it, so no semantic error can take its place.
pub proof fn lemma_sync_precedence<T: FormValidation>(v: FormV<T::V>, name: Seq<char>)
    requires
        T::m_inv(v.data),
        sync_errors::<T>(v.data, T::m_field_names(v.data), v.fields).contains_key(name),
    ensures
        validate_step::<T>(v).1 == false,
        validate_step::<T>(v).0.errors.contains_key(name),
        validate_step::<T>(v).0.errors[name] == sync_errors::<T>(
            v.data,
            T::m_field_names(v.data),
            v.fields,
        )[name],
{
    let names = T::m_field_names(v.data);
    let perrs = sync_errors::<T>(v.data, names, v.fields);
    assert(exists|k: Seq<char>| perrs.contains_key(k)) by {
        assert(perrs.contains_key(name));
    }
}


// ---------------------------------------------------------------------------
// Snapshot views for UI bindings
// ---------------------------------------------------------------------------

/// A snapshot of one field's state, for a UI binding: its error, dirty and
/// touched flags, name and live value, as of the moment it was taken.
pub struct FieldState {
    /// The field's current validation error, if any (ungated).
    pub err: Option<ValidationError>,
    /// Whether the live value differs from the initial value.
    pub dirty: bool,
    /// Whether the field has been touched.
    pub touched: bool,
    /// The field's name.
    pub field_name: String,
    /// The field's live value.
    pub value: String,
}

impl FieldState {
    /// Whether the field currently has an error (regardless of touch).
    pub fn has_error(&self) -> (r: bool)
        ensures
            r == (self.err is Some),
    {
        match &self.err {
            Some(_) => true,
            None => false,
        }
    }

    /// The field's current error, if any.
    pub fn get_error(&self) -> (r: Option<ValidationError>)
        ensures
            r == self.err,
    {
        match &self.err {
            Some(e) => Some(e.clone()),
            None => None,
        }
    }

    /// The field's live value.
    pub fn value(&self) -> (r: String)
        ensures
            r@ == self.value@,
    {
        self.value.clone()
    }

    /// The message to surface: present exactly when the field is both
    /// touched and in error.
    pub fn error_message(&self) -> (r: Option<String>)
        ensures
            match r {
                Some(s) => self.touched && (self.err matches Some(e) && s@ == e@.message),
                None => !(self.touched && self.err is Some),
            },
    {
        if self.touched {
            match &self.err {
                Some(e) => Some(e.message().to_owned()),
                None => None,
            }
        } else {
            None
        }
    }
}

/// A snapshot of the whole form's derived state, for a UI binding.
pub struct FormComponentState {
    /// The live values of every registered field.
    pub values: StrMap<String>,
    /// The current error of every invalid field.
    pub errors: StrMap<ValidationError>,
    /// Whether any field is dirty.
    pub dirty: bool,
    /// Whether any field has been touched.
    pub touched: bool,
    /// Whether the error map is empty.
    pub valid: bool,
}

fn clone_errors(m: &StrMap<ValidationError>) -> (r: StrMap<ValidationError>)
    requires
        m.wf(),
    ensures
        r@ =~= m@,
        r.keys() == m.keys(),
        r.wf(),
{
    let n = m.len();
    let mut out: StrMap<ValidationError> = StrMap::new();
    let mut i: usize = 0;
    proof {
        assert(out.keys() =~= m.keys().subrange(0, 0));
    }
    while i < n
        invariant
            i <= n,
            n == m.keys().len(),
            m.wf(),
            out.wf(),
            out.keys() =~= m.keys().subrange(0, i as int),
            forall|k: Seq<char>|
                #[trigger] out@.contains_key(k) ==> m@.contains_key(k) && out@[k] == m@[k],
        decreases n - i,
    {
        let key = m.key_at(i).to_owned();
        let val = match m.get(key.as_str()) {
            Some(e) => e.clone(),
            None => ValidationError::new(key.as_str(), ""),
        };
        proof {
            m.lemma_keys_dom(key@);
            out.lemma_keys_dom(key@);
            assert(!out.keys().contains(key@)) by {
                if out.keys().contains(key@) {
                    let j = choose|j: int| 0 <= j < out.keys().len() && out.keys()[j] == key@;
                    assert(m.keys().subrange(0, i as int)[j] == m.keys()[i as int]);
                }
            }
        }
        out.insert(key.as_str(), val);
        proof {
            assert(out.keys() =~= m.keys().subrange(0, i as int + 1)) by {
                assert(forall|j: int|
                    0 <= j < i ==> m.keys().subrange(0, i as int)[j] == #[trigger] m.keys().subrange(
                        0,
                        i as int + 1,
                    )[j]);
            }
        }
        i += 1;
    }
    proof {
        assert(m.keys().subrange(0, n as int) =~= m.keys());
        assert(out@ =~= m@) by {
            assert forall|k: Seq<char>| m@.contains_key(k) implies out@.contains_key(k) by {
                m.lemma_keys_dom(k);
                out.lemma_keys_dom(k);
            }
        }
    }
    out
}

impl<T: FormValidation> Form<T> {
    /// A snapshot of one field's state.
    pub fn field_state(&self, name: &str) -> (r: FieldState)
        requires
            self.wf(),
        ensures
            r.field_name@ == name@,
            match r.err {
                Some(e) => self@.errors.contains_key(name@) && e@ == self@.errors[name@],
                None => !self@.errors.contains_key(name@),
            },
            r.dirty == field_dirty(self@.fields, self@.initial, name@),
            r.touched == touched_at(self@.touched, name@),
            r.value@ == if self@.fields.contains_key(name@) {
                self@.fields[name@]
            } else {
                Seq::<char>::empty()
            },
    {
        let err = match self.state.errors.get(name) {
            Some(e) => Some(e.clone()),
            None => None,
        };
        let dirty = self.state.is_field_dirty(name);
        let touched = self.state.is_field_touched(name);
        let value = match self.state.fields.get(name) {
            Some(sig) => sig.get(),
            None => String::new(),
        };
        FieldState { err, dirty, touched, field_name: name.to_owned(), value }
    }

    /// A snapshot of the whole form's derived state.
    pub fn component_state(&self) -> (r: FormComponentState)
        requires
            self.wf(),
        ensures
            r.values@ =~= self@.fields,
            r.errors@ =~= self@.errors,
            r.dirty == exists|k: Seq<char>| #[trigger] field_dirty(self@.fields, self@.initial, k),
            r.touched == exists|k: Seq<char>| #[trigger] touched_at(self@.touched, k),
            r.valid == !(exists|k: Seq<char>| #[trigger] self@.errors.contains_key(k)),
    {
        let dirty = self.state.is_form_dirty();
        let touched = self.state.is_form_touched();
        proof {
            if exists|k: Seq<char>|
                #[trigger] field_dirty(self.state.fields@, self.state.initial_values@, k) {
                let k = choose|k: Seq<char>|
                    #[trigger] field_dirty(self.state.fields@, self.state.initial_values@, k);
                assert(field_dirty(self@.fields, self@.initial, k));
            }
            if exists|k: Seq<char>| #[trigger] field_dirty(self@.fields, self@.initial, k) {
                let k = choose|k: Seq<char>|
                    #[trigger] field_dirty(self@.fields, self@.initial, k);
                assert(field_dirty(self.state.fields@, self.state.initial_values@, k));
            }
            if exists|k: Seq<char>| #[trigger] touched_at(self.state.touched@, k) {
                let k = choose|k: Seq<char>| #[trigger] touched_at(self.state.touched@, k);
                assert(touched_at(self@.touched, k));
            }
            if exists|k: Seq<char>| #[trigger] touched_at(self@.touched, k) {
                let k = choose|k: Seq<char>| #[trigger] touched_at(self@.touched, k);
                assert(touched_at(self.state.touched@, k));
            }
        }
        FormComponentState {
            values: self.values(),
            errors: clone_errors(&self.state.errors),
            dirty,
            touched,
            valid: self.is_valid(),
        }
    }
}

} // verus!
