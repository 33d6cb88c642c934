//! The `FormValidation` capability: what a domain object must offer so that
//! a form can validate and synchronise it.
//!
//! The capability is specified over an abstract model (the implementing
//! type's view): the declared field names, the per-field string rendering,
//! per-field validation, per-field synchronisation from a raw string, and a
//! cleared (default) state. The laws (`lemma_model_laws`,
//! `lemma_sync_stable`) pin down what every implementation must guarantee:
//! distinct field names, unknown names as silent no-ops, errors that carry
//! their own field name, and parsing that depends only on the raw string
//! and the declared schema, never on current values.
//!
//! The whole-form operations — validate every field, synchronise every
//! field — are generic functions over the capability, verified here once
//! against the per-field primitives.

use vstd::prelude::*;

use crate::errors::{ErrorV, ValidationError};
use crate::strmap::StrMap;

verus! {

/// Result of validating one field.
pub type ValidationResult = Result<(), ValidationError>;

/// The capability a form needs from its typed domain object.
pub trait FormValidation: Sized + View {
    /// Validity of a model value.
    spec fn m_inv(m: Self::V) -> bool;

    /// The declared field names, in declaration order.
    spec fn m_field_names(m: Self::V) -> Seq<Seq<char>>;

    /// The string rendering of one field's current value.
    spec fn m_field_string(m: Self::V, name: Seq<char>) -> Seq<char>;

    /// The outcome of validating one field against its rules.
    spec fn m_validate(m: Self::V, name: Seq<char>) -> Option<ErrorV>;

    /// The model after synchronising one field from a raw string (unchanged
    /// when parsing fails or the name is unknown).
    spec fn m_sync(m: Self::V, name: Seq<char>, raw: Seq<char>) -> Self::V;

    /// The parse error of synchronising one field, if any.
    spec fn m_sync_err(m: Self::V, name: Seq<char>, raw: Seq<char>) -> Option<ErrorV>;

    /// The model with every field reset to its default value.
    spec fn m_cleared(m: Self::V) -> Self::V;

    /// The structural laws of the capability.
    proof fn lemma_model_laws(m: Self::V, name: Seq<char>, raw: Seq<char>)
        requires
            Self::m_inv(m),
        ensures
            Self::m_field_names(m).no_duplicates(),
            Self::m_inv(Self::m_sync(m, name, raw)),
            Self::m_inv(Self::m_cleared(m)),
            Self::m_field_names(Self::m_sync(m, name, raw)) == Self::m_field_names(m),
            Self::m_field_names(Self::m_cleared(m)) == Self::m_field_names(m),
            !Self::m_field_names(m).contains(name) ==> Self::m_sync(m, name, raw) == m
                && Self::m_sync_err(m, name, raw) is None && Self::m_validate(m, name) is None,
            match Self::m_validate(m, name) {
                Some(e) => e.wf() && e.field == name && Self::m_field_names(m).contains(name),
                None => true,
            },
            match Self::m_sync_err(m, name, raw) {
                Some(e) => e.wf() && e.field == name && Self::m_field_names(m).contains(name),
                None => true,
            },
    ;

    /// Synchronisation is idempotent, and its parse outcome depends only on
    /// the raw string and the declared schema, never on current values.
    proof fn lemma_sync_stable(
        m: Self::V,
        n1: Seq<char>,
        r1: Seq<char>,
        n2: Seq<char>,
        r2: Seq<char>,
    )
        requires
            Self::m_inv(m),
        ensures
            Self::m_sync_err(Self::m_sync(m, n1, r1), n2, r2) == Self::m_sync_err(m, n2, r2),
            Self::m_sync(Self::m_sync(m, n1, r1), n1, r1) == Self::m_sync(m, n1, r1),
    ;

    /// A valid instance with no particular content.
    fn fresh() -> (r: Self)
        ensures
            Self::m_inv(r@),
    ;

    /// The declared field names.
    fn field_names(&self) -> (r: Vec<String>)
        requires
            Self::m_inv(self@),
        ensures
            r@.map_values(|s: String| s@) == Self::m_field_names(self@),
    ;

    /// Validate one field by name; unknown names succeed silently.
    fn validate_field(&self, field_name: &str) -> (r: ValidationResult)
        requires
            Self::m_inv(self@),
        ensures
            match Self::m_validate(self@, field_name@) {
                None => r is Ok,
                Some(e) => r matches Err(err) && err@ == e,
            },
    ;

    /// Synchronise one field from a raw string, reporting the parse error
    /// if any; unknown names are silent no-ops.
    fn sync_field(&mut self, field_name: &str, raw: &str) -> (r: Option<ValidationError>)
        requires
            Self::m_inv(old(self)@),
        ensures
            final(self)@ == Self::m_sync(old(self)@, field_name@, raw@),
            match Self::m_sync_err(old(self)@, field_name@, raw@) {
                None => r is None,
                Some(e) => r matches Some(err) && err@ == e,
            },
    ;

    /// Render every declared field's value to a string map.
    fn to_strings(&self) -> (r: StrMap<String>)
        requires
            Self::m_inv(self@),
        ensures
            r.keys() == Self::m_field_names(self@),
            r.wf(),
            forall|n: Seq<char>|
                #[trigger] r@.contains_key(n) ==> r@[n] == Self::m_field_string(self@, n),
    ;

    /// Reset every field to its default value.
    fn clear(&mut self)
        requires
            Self::m_inv(old(self)@),
        ensures
            final(self)@ == Self::m_cleared(old(self)@),
    ;
}

/// The model after synchronising the named fields, in order, from the
/// supplied string map; names absent from the map are skipped.
pub open spec fn sync_all<T: FormValidation>(
    m: T::V,
    names: Seq<Seq<char>>,
    fields: Map<Seq<char>, Seq<char>>,
) -> T::V
    decreases names.len(),
{
    if names.len() == 0 {
        m
    } else {
        let m1 = if fields.contains_key(names[0]) {
            T::m_sync(m, names[0], fields[names[0]])
        } else {
            m
        };
        sync_all::<T>(m1, names.drop_first(), fields)
    }
}

/// The parse errors of synchronising the named fields from the supplied
/// string map. By `lemma_sync_stable` the outcomes do not depend on the
/// values synchronised along the way, so they are all stated against the
/// starting model.
pub open spec fn sync_errors<T: FormValidation>(
    m: T::V,
    names: Seq<Seq<char>>,
    fields: Map<Seq<char>, Seq<char>>,
) -> Map<Seq<char>, ErrorV>
    decreases names.len(),
{
    if names.len() == 0 {
        Map::empty()
    } else {
        let rest = sync_errors::<T>(m, names.drop_first(), fields);
        if fields.contains_key(names[0]) {
            match T::m_sync_err(m, names[0], fields[names[0]]) {
                Some(e) => rest.insert(names[0], e),
                None => rest,
            }
        } else {
            rest
        }
    }
}

/// The failures of validating the named fields.
pub open spec fn validate_errors<T: FormValidation>(
    m: T::V,
    names: Seq<Seq<char>>,
) -> Map<Seq<char>, ErrorV>
    decreases names.len(),
{
    if names.len() == 0 {
        Map::empty()
    } else {
        let rest = validate_errors::<T>(m, names.drop_first());
        match T::m_validate(m, names[0]) {
            Some(e) => rest.insert(names[0], e),
            None => rest,
        }
    }
}

/// Membership and content of the whole-form validation failures.
pub proof fn lemma_validate_errors<T: FormValidation>(
    m: T::V,
    names: Seq<Seq<char>>,
    k: Seq<char>,
)
    ensures
        validate_errors::<T>(m, names).contains_key(k) <==> (names.contains(k) && T::m_validate(
            m,
            k,
        ) is Some),
        match T::m_validate(m, k) {
            Some(e) => validate_errors::<T>(m, names).contains_key(k) ==> validate_errors::<T>(
                m,
                names,
            )[k] == e,
            None => true,
        },
    decreases names.len(),
{
    if names.len() > 0 {
        lemma_validate_errors::<T>(m, names.drop_first(), k);
        if names.contains(k) {
            let i = choose|i: int| 0 <= i < names.len() && names[i] == k;
            if i > 0 {
                assert(names.drop_first()[i - 1] == k);
                assert(names.drop_first().contains(k));
            }
        }
        if names.drop_first().contains(k) {
            let i = choose|i: int|
                0 <= i < names.drop_first().len() && names.drop_first()[i] == k;
            assert(names[i + 1] == k);
            assert(names.contains(k));
        }
        assert(names[0] == names[0] ==> names.contains(names[0]));
    }
}

/// Membership and content of the whole-form parse errors.
pub proof fn lemma_sync_errors<T: FormValidation>(
    m: T::V,
    names: Seq<Seq<char>>,
    fields: Map<Seq<char>, Seq<char>>,
    k: Seq<char>,
)
    ensures
        sync_errors::<T>(m, names, fields).contains_key(k) <==> (names.contains(k)
            && fields.contains_key(k) && T::m_sync_err(m, k, fields[k]) is Some),
        match T::m_sync_err(m, k, fields[k]) {
            Some(e) => sync_errors::<T>(m, names, fields).contains_key(k) ==> sync_errors::<T>(
                m,
                names,
                fields,
            )[k] == e,
            None => true,
        },
    decreases names.len(),
{
    if names.len() > 0 {
        lemma_sync_errors::<T>(m, names.drop_first(), fields, k);
        if names.contains(k) {
            let i = choose|i: int| 0 <= i < names.len() && names[i] == k;
            if i > 0 {
                assert(names.drop_first()[i - 1] == k);
                assert(names.drop_first().contains(k));
            }
        }
        if names.drop_first().contains(k) {
            let i = choose|i: int|
                0 <= i < names.drop_first().len() && names.drop_first()[i] == k;
            assert(names[i + 1] == k);
            assert(names.contains(k));
        }
        assert(names[0] == names[0] ==> names.contains(names[0]));
    }
}

/// Synchronising the whole form preserves validity, the declared names, and
/// the parse outcomes.
pub proof fn lemma_sync_all<T: FormValidation>(
    m: T::V,
    names: Seq<Seq<char>>,
    fields: Map<Seq<char>, Seq<char>>,
)
    requires
        T::m_inv(m),
    ensures
        T::m_inv(sync_all::<T>(m, names, fields)),
        T::m_field_names(sync_all::<T>(m, names, fields)) == T::m_field_names(m),
        forall|n2: Seq<char>, r2: Seq<char>|
            #[trigger] T::m_sync_err(sync_all::<T>(m, names, fields), n2, r2) == T::m_sync_err(
                m,
                n2,
                r2,
            ),
    decreases names.len(),
{
    if names.len() == 0 {
    } else {
        let m1 = if fields.contains_key(names[0]) {
            T::m_sync(m, names[0], fields[names[0]])
        } else {
            m
        };
        if fields.contains_key(names[0]) {
            T::lemma_model_laws(m, names[0], fields[names[0]]);
            assert forall|n2: Seq<char>, r2: Seq<char>|
                #[trigger] T::m_sync_err(m1, n2, r2) == T::m_sync_err(m, n2, r2) by {
                T::lemma_sync_stable(m, names[0], fields[names[0]], n2, r2);
            }
        }
        lemma_sync_all::<T>(m1, names.drop_first(), fields);
    }
}

/// Validate every declared field of a domain object and collect the
/// failures.
pub fn validate_all<T: FormValidation>(t: &T) -> (r: StrMap<ValidationError>)
    requires
        T::m_inv(t@),
    ensures
        r@ =~= validate_errors::<T>(t@, T::m_field_names(t@)),
        r.wf(),
{
    let ghost mv = t@;
    let ghost ns = T::m_field_names(t@);
    let names = t.field_names();
    let n = names.len();
    let mut errors: StrMap<ValidationError> = StrMap::new();
    let mut i: usize = n;
    proof {
        assert(ns.skip(n as int) =~= Seq::<Seq<char>>::empty());
        assert(errors@ =~= validate_errors::<T>(mv, ns.skip(n as int)));
    }
    while i > 0
        invariant
            i <= n,
            n == names@.len(),
            T::m_inv(mv),
            mv == t@,
            ns == T::m_field_names(mv),
            names@.map_values(|s: String| s@) == ns,
            errors.wf(),
            errors@ =~= validate_errors::<T>(mv, ns.skip(i as int)),
        decreases i,
    {
        i -= 1;
        let name = &names[i];
        proof {
            assert(ns[i as int] == names@[i as int]@);
            assert(ns.skip(i as int)[0] == ns[i as int]);
            assert(ns.skip(i as int).drop_first() =~= ns.skip(i as int + 1));
        }
        let result = t.validate_field(name.as_str());
        match result {
            Ok(()) => {
                proof {
                    assert(errors@ =~= validate_errors::<T>(mv, ns.skip(i as int)));
                }
            },
            Err(e) => {
                errors.insert(name.as_str(), e);
                proof {
                    assert(errors@ =~= validate_errors::<T>(mv, ns.skip(i as int)));
                }
            },
        }
    }
    proof {
        assert(ns.skip(0) =~= ns);
    }
    errors
}

/// Synchronise every declared field of a domain object from the supplied
/// string map, collecting the parse errors.
pub fn sync_from_strings<T: FormValidation>(t: &mut T, fields: &StrMap<String>) -> (r: StrMap<
    ValidationError,
>)
    requires
        T::m_inv(old(t)@),
    ensures
        final(t)@ == sync_all::<T>(old(t)@, T::m_field_names(old(t)@), fields@),
        r@ =~= sync_errors::<T>(old(t)@, T::m_field_names(old(t)@), fields@),
        r.wf(),
        T::m_inv(final(t)@),
        T::m_field_names(final(t)@) == T::m_field_names(old(t)@),
{
    let ghost m0 = old(t)@;
    let ghost ns = T::m_field_names(old(t)@);
    let names = t.field_names();
    let n = names.len();
    let mut errors: StrMap<ValidationError> = StrMap::new();
    let mut i: usize = 0;
    proof {
        assert(ns.skip(0) =~= ns);
        T::lemma_model_laws(m0, Seq::empty(), Seq::empty());
        assert(errors@.union_prefer_right(sync_errors::<T>(m0, ns.skip(0), fields@))
            =~= sync_errors::<T>(m0, ns, fields@));
    }
    while i < n
        invariant
            i <= n,
            n == names@.len(),
            T::m_inv(m0),
            T::m_inv(t@),
            ns == T::m_field_names(m0),
            T::m_field_names(t@) == ns,
            names@.map_values(|s: String| s@) == ns,
            errors.wf(),
            ns.no_duplicates(),
            forall|n2: Seq<char>, r2: Seq<char>|
                #[trigger] T::m_sync_err(t@, n2, r2) == T::m_sync_err(m0, n2, r2),
            sync_all::<T>(t@, ns.skip(i as int), fields@) == sync_all::<T>(m0, ns, fields@),
            forall|k: Seq<char>|
                #[trigger] errors@.contains_key(k) ==> ns.subrange(0, i as int).contains(k),
            errors@.union_prefer_right(sync_errors::<T>(m0, ns.skip(i as int), fields@))
                =~= sync_errors::<T>(m0, ns, fields@),
        decreases n - i,
    {
        let ghost pre = t@;
        let ghost pre_errors = errors@;
        let name = &names[i];
        proof {
            assert(ns[i as int] == names@[i as int]@);
            assert(ns.skip(i as int)[0] == ns[i as int]);
            assert(ns.skip(i as int).drop_first() =~= ns.skip(i as int + 1));
            assert(forall|k: Seq<char>|
                #[trigger] ns.subrange(0, i as int).contains(k) ==> ns.subrange(
                    0,
                    i as int + 1,
                ).contains(k)) by {
                assert(forall|j: int|
                    0 <= j < i ==> ns.subrange(0, i as int)[j] == #[trigger] ns.subrange(
                        0,
                        i as int + 1,
                    )[j]);
            }
        }
        match fields.get(name.as_str()) {
            None => {
                proof {
                    assert(sync_all::<T>(t@, ns.skip(i as int), fields@) == sync_all::<T>(
                        t@,
                        ns.skip(i as int + 1),
                        fields@,
                    ));
                    assert(errors@.union_prefer_right(
                        sync_errors::<T>(m0, ns.skip(i as int + 1), fields@),
                    ) =~= sync_errors::<T>(m0, ns, fields@));
                }
            },
            Some(raw) => {
                let raw_s = raw.clone();
                let res = t.sync_field(name.as_str(), raw_s.as_str());
                proof {
                    assert(raw_s@ == fields@[ns[i as int]]);
                    assert(T::m_sync_err(pre, ns[i as int], raw_s@) == T::m_sync_err(
                        m0,
                        ns[i as int],
                        raw_s@,
                    ));
                    T::lemma_model_laws(pre, ns[i as int], raw_s@);
                    assert forall|n2: Seq<char>, r2: Seq<char>|
                        #[trigger] T::m_sync_err(t@, n2, r2) == T::m_sync_err(m0, n2, r2) by {
                        T::lemma_sync_stable(pre, ns[i as int], raw_s@, n2, r2);
                    }
                    assert(sync_all::<T>(t@, ns.skip(i as int + 1), fields@) == sync_all::<T>(
                        pre,
                        ns.skip(i as int),
                        fields@,
                    ));
                }
                match res {
                    None => {
                        proof {
                            assert(errors@.union_prefer_right(
                                sync_errors::<T>(m0, ns.skip(i as int + 1), fields@),
                            ) =~= sync_errors::<T>(m0, ns, fields@));
                        }
                    },
                    Some(e) => {
                        errors.insert(name.as_str(), e);
                        proof {
                            assert(ns.subrange(0, i as int + 1)[i as int] == ns[i as int]);
                            assert(ns.subrange(0, i as int + 1).contains(ns[i as int]));
                            let rest = sync_errors::<T>(m0, ns.skip(i as int + 1), fields@);
                            assert forall|k: Seq<char>| #[trigger] rest.contains_key(k) implies
                                ns.skip(i as int + 1).contains(k) by {
                                lemma_sync_errors::<T>(m0, ns.skip(i as int + 1), fields@, k);
                            }
                            assert(!rest.contains_key(ns[i as int])) by {
                                if rest.contains_key(ns[i as int]) {
                                    let j = choose|j: int|
                                        0 <= j < ns.skip(i as int + 1).len() && #[trigger] ns.skip(
                                            i as int + 1,
                                        )[j] == ns[i as int];
                                    assert(ns[j + i + 1] == ns[i as int]);
                                }
                            }
                            assert(pre_errors.insert(ns[i as int], e@).union_prefer_right(rest)
                                =~= pre_errors.union_prefer_right(rest.insert(ns[i as int], e@)));
                            assert(errors@.union_prefer_right(
                                sync_errors::<T>(m0, ns.skip(i as int + 1), fields@),
                            ) =~= sync_errors::<T>(m0, ns, fields@));
                        }
                    },
                }
            },
        }
        i += 1;
    }
    proof {
        assert(ns.skip(n as int) =~= Seq::<Seq<char>>::empty());
        assert(errors@.union_prefer_right(Map::<Seq<char>, ErrorV>::empty()) =~= errors@);
    }
    errors
}

} // verus!
