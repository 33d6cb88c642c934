//! A verified ordered map with string keys.
//!
//! `StrMap<V>` keeps `(key, value)` entries in insertion order. Its primary
//! model is the `Map<Seq<char>, V::V>` of key views to value views; `keys()`
//! exposes the insertion order, and well-formedness (`wf`) says the keys are
//! distinct. The form state holds its fields, errors, touched flags and
//! initial values in maps of this type.

use vstd::prelude::*;
use vstd::seq_lib::*;

use crate::text::str_eq;

verus! {

/// An ordered map from string keys to values, with view-level contracts.
pub struct StrMap<V> {
    entries: Vec<(String, V)>,
}

/// The map denoted by an entry list; the earliest entry for a key wins.
spec fn map_of<V: View>(e: Seq<(String, V)>) -> Map<Seq<char>, V::V>
    decreases e.len(),
{
    if e.len() == 0 {
        Map::empty()
    } else {
        map_of(e.drop_first()).insert(e[0].0@, e[0].1@)
    }
}

proof fn lemma_map_of_contains<V: View>(e: Seq<(String, V)>, k: Seq<char>)
    ensures
        map_of(e).contains_key(k) <==> exists|i: int| 0 <= i < e.len() && #[trigger] e[i].0@ == k,
    decreases e.len(),
{
    if e.len() > 0 {
        lemma_map_of_contains(e.drop_first(), k);
        if e[0].0@ == k {
            assert(map_of(e).contains_key(k));
        } else {
            if exists|i: int| 0 <= i < e.drop_first().len() && #[trigger] e.drop_first()[i].0@
                == k {
                let i = choose|i: int|
                    0 <= i < e.drop_first().len() && #[trigger] e.drop_first()[i].0@ == k;
                assert(e[i + 1].0@ == k);
            }
            if exists|i: int| 0 <= i < e.len() && #[trigger] e[i].0@ == k {
                let i = choose|i: int| 0 <= i < e.len() && #[trigger] e[i].0@ == k;
                assert(e.drop_first()[i - 1].0@ == k);
            }
        }
    }
}

proof fn lemma_map_of_first<V: View>(e: Seq<(String, V)>, i: int)
    requires
        0 <= i < e.len(),
        forall|j: int| 0 <= j < i ==> #[trigger] e[j].0@ != e[i].0@,
    ensures
        map_of(e).contains_key(e[i].0@),
        map_of(e)[e[i].0@] == e[i].1@,
    decreases e.len(),
{
    if i == 0 {
    } else {
        assert(forall|j: int|
            0 <= j < i - 1 ==> #[trigger] e.drop_first()[j].0@ == e[j + 1].0@);
        lemma_map_of_first(e.drop_first(), i - 1);
        assert(e.drop_first()[i - 1] == e[i]);
        assert(e[0].0@ != e[i].0@);
    }
}

proof fn lemma_map_of_update<V: View>(e: Seq<(String, V)>, i: int, p: (String, V))
    requires
        0 <= i < e.len(),
        forall|j: int| 0 <= j < i ==> #[trigger] e[j].0@ != e[i].0@,
        p.0@ == e[i].0@,
    ensures
        map_of(e.update(i, p)) =~= map_of(e).insert(p.0@, p.1@),
    decreases e.len(),
{
    let k = p.0@;
    if i == 0 {
        assert(e.update(0, p).drop_first() =~= e.drop_first());
        assert(map_of(e.update(0, p)) == map_of(e.drop_first()).insert(k, p.1@));
        assert(map_of(e).insert(k, p.1@) =~= map_of(e.drop_first()).insert(e[0].0@, e[0].1@)
            .insert(k, p.1@));
        assert(map_of(e.drop_first()).insert(e[0].0@, e[0].1@).insert(k, p.1@) =~= map_of(
            e.drop_first(),
        ).insert(k, p.1@));
    } else {
        assert(forall|j: int|
            0 <= j < i - 1 ==> #[trigger] e.drop_first()[j].0@ == e[j + 1].0@);
        assert(e.drop_first()[i - 1] == e[i]);
        lemma_map_of_update(e.drop_first(), i - 1, p);
        assert(e.update(i, p).drop_first() =~= e.drop_first().update(i - 1, p));
        assert(e.update(i, p)[0] == e[0]);
        assert(map_of(e.update(i, p)) == map_of(e.drop_first().update(i - 1, p)).insert(
            e[0].0@,
            e[0].1@,
        ));
        assert(e[0].0@ != k);
        assert(map_of(e.drop_first()).insert(k, p.1@).insert(e[0].0@, e[0].1@) =~= map_of(
            e.drop_first(),
        ).insert(e[0].0@, e[0].1@).insert(k, p.1@));
    }
}

proof fn lemma_map_of_push<V: View>(e: Seq<(String, V)>, p: (String, V))
    requires
        forall|j: int| 0 <= j < e.len() ==> #[trigger] e[j].0@ != p.0@,
    ensures
        map_of(e.push(p)) =~= map_of(e).insert(p.0@, p.1@),
    decreases e.len(),
{
    if e.len() == 0 {
        assert(e.push(p)[0] == p);
        assert(e.push(p).drop_first() =~= Seq::<(String, V)>::empty());
        assert(map_of(e.push(p)) == map_of(e.push(p).drop_first()).insert(p.0@, p.1@));
        assert(map_of(e.push(p)) =~= map_of(e).insert(p.0@, p.1@));
    } else {
        assert(forall|j: int|
            0 <= j < e.drop_first().len() ==> #[trigger] e.drop_first()[j].0@ == e[j + 1].0@);
        lemma_map_of_push(e.drop_first(), p);
        assert(e.push(p).drop_first() =~= e.drop_first().push(p));
        assert(e.push(p)[0] == e[0]);
        assert(map_of(e.push(p)) == map_of(e.drop_first().push(p)).insert(e[0].0@, e[0].1@));
        assert(e[0].0@ != p.0@);
        assert(map_of(e.drop_first()).insert(p.0@, p.1@).insert(e[0].0@, e[0].1@) =~= map_of(
            e.drop_first(),
        ).insert(e[0].0@, e[0].1@).insert(p.0@, p.1@));
        assert(map_of(e) == map_of(e.drop_first()).insert(e[0].0@, e[0].1@));
        assert(map_of(e.push(p)) =~= map_of(e).insert(p.0@, p.1@));
    }
}

proof fn lemma_map_of_remove<V: View>(e: Seq<(String, V)>, i: int)
    requires
        0 <= i < e.len(),
        forall|j: int| 0 <= j < e.len() && j != i ==> #[trigger] e[j].0@ != e[i].0@,
    ensures
        map_of(e.remove(i)) =~= map_of(e).remove(e[i].0@),
    decreases e.len(),
{
    let k = e[i].0@;
    if i == 0 {
        assert(e.remove(0) =~= e.drop_first());
        lemma_map_of_contains(e.drop_first(), k);
        assert(forall|j: int|
            0 <= j < e.drop_first().len() ==> #[trigger] e.drop_first()[j].0@ == e[j + 1].0@);
        assert(!map_of(e.drop_first()).contains_key(k));
        assert(map_of(e).remove(k) =~= map_of(e.drop_first()).insert(k, e[0].1@).remove(k));
        assert(map_of(e.drop_first()).insert(k, e[0].1@).remove(k) =~= map_of(e.drop_first()));
    } else {
        assert(forall|j: int|
            0 <= j < e.drop_first().len() ==> #[trigger] e.drop_first()[j].0@ == e[j + 1].0@);
        assert(e.drop_first()[i - 1] == e[i]);
        lemma_map_of_remove(e.drop_first(), i - 1);
        assert(e.remove(i).drop_first() =~= e.drop_first().remove(i - 1));
        assert(e.remove(i)[0] == e[0]);
        assert(map_of(e.remove(i)) == map_of(e.drop_first().remove(i - 1)).insert(
            e[0].0@,
            e[0].1@,
        ));
        assert(e[0].0@ != k);
        assert(map_of(e.drop_first()).remove(k).insert(e[0].0@, e[0].1@) =~= map_of(
            e.drop_first(),
        ).insert(e[0].0@, e[0].1@).remove(k));
    }
}

impl<V: View> View for StrMap<V> {
    type V = Map<Seq<char>, V::V>;

    closed spec fn view(&self) -> Map<Seq<char>, V::V> {
        map_of(self.entries@)
    }
}

impl<V: View> StrMap<V> {
    /// The keys in insertion order.
    pub closed spec fn keys(&self) -> Seq<Seq<char>> {
        self.entries@.map_values(|p: (String, V)| p.0@)
    }

    /// Well-formed: the keys are distinct.
    pub open spec fn wf(&self) -> bool {
        self.keys().no_duplicates()
    }

    /// A key's view is in the map exactly when some entry holds it.
    pub proof fn lemma_keys_dom(&self, k: Seq<char>)
        ensures
            self@.contains_key(k) <==> self.keys().contains(k),
    {
        lemma_map_of_contains(self.entries@, k);
        if exists|i: int| 0 <= i < self.entries@.len() && #[trigger] self.entries@[i].0@ == k {
            let i = choose|i: int|
                0 <= i < self.entries@.len() && #[trigger] self.entries@[i].0@ == k;
            assert(self.keys()[i] == k);
        }
        if self.keys().contains(k) {
            let i = choose|i: int| 0 <= i < self.keys().len() && self.keys()[i] == k;
            assert(self.entries@[i].0@ == k);
        }
    }

    /// The empty map.
    pub fn new() -> (r: Self)
        ensures
            r@ =~= Map::<Seq<char>, V::V>::empty(),
            r.keys() =~= Seq::<Seq<char>>::empty(),
            r.wf(),
    {
        let r = StrMap { entries: Vec::new() };
        proof {
            assert(r.keys() =~= Seq::<Seq<char>>::empty());
        }
        r
    }

    /// The number of entries.
    pub fn len(&self) -> (r: usize)
        ensures
            r == self.keys().len(),
    {
        self.entries.len()
    }

    /// Whether the map has no entries.
    pub fn is_empty(&self) -> (r: bool)
        ensures
            r == (self.keys().len() == 0),
            r == (self@ =~= Map::<Seq<char>, V::V>::empty()),
    {
        proof {
            if self.entries@.len() > 0 {
                lemma_map_of_first(self.entries@, 0);
                assert(self@.contains_key(self.entries@[0].0@));
                assert(!(self@ =~= Map::<Seq<char>, V::V>::empty()));
            } else {
                assert(self@ =~= Map::<Seq<char>, V::V>::empty());
            }
        }
        self.entries.len() == 0
    }

    /// The key at position `i` in insertion order.
    pub fn key_at(&self, i: usize) -> (r: &str)
        requires
            i < self.keys().len(),
        ensures
            r@ == self.keys()[i as int],
    {
        self.entries[i].0.as_str()
    }

    /// Find the position of the first entry for `key`.
    fn find(&self, key: &str) -> (r: Option<usize>)
        ensures
            match r {
                Some(i) => i < self.entries@.len() && self.entries@[i as int].0@ == key@
                    && forall|j: int| 0 <= j < i ==> #[trigger] self.entries@[j].0@ != key@,
                None => forall|j: int|
                    0 <= j < self.entries@.len() ==> #[trigger] self.entries@[j].0@ != key@,
            },
    {
        let n = self.entries.len();
        let mut i: usize = 0;
        while i < n
            invariant
                i <= n,
                n == self.entries@.len(),
                forall|j: int| 0 <= j < i ==> #[trigger] self.entries@[j].0@ != key@,
            decreases n - i,
        {
            if str_eq(self.entries[i].0.as_str(), key) {
                return Some(i);
            }
            i += 1;
        }
        None
    }

    /// Whether the map holds `key`.
    pub fn contains_key(&self, key: &str) -> (r: bool)
        ensures
            r == self@.contains_key(key@),
    {
        proof {
            lemma_map_of_contains(self.entries@, key@);
        }
        match self.find(key) {
            Some(_) => true,
            None => false,
        }
    }

    /// Look up `key`.
    pub fn get(&self, key: &str) -> (r: Option<&V>)
        ensures
            match r {
                Some(v) => self@.contains_key(key@) && v@ == self@[key@],
                None => !self@.contains_key(key@),
            },
    {
        proof {
            lemma_map_of_contains(self.entries@, key@);
        }
        match self.find(key) {
            Some(i) => {
                proof {
                    lemma_map_of_first(self.entries@, i as int);
                }
                Some(&self.entries[i].1)
            },
            None => None,
        }
    }

    /// Insert or replace the value for `key`. A new key is appended to the
    /// insertion order; an existing key keeps its position.
    pub fn insert(&mut self, key: &str, value: V)
        ensures
            final(self)@ =~= old(self)@.insert(key@, value@),
            final(self).keys() =~= if old(self)@.contains_key(key@) {
                old(self).keys()
            } else {
                old(self).keys().push(key@)
            },
            old(self).wf() ==> final(self).wf(),
    {
        proof {
            lemma_map_of_contains(self.entries@, key@);
        }
        let pos = self.find(key);
        match pos {
            Some(i) => {
                let ghost e = self.entries@;
                self.entries.remove(i);
                self.entries.insert(i, (key.to_owned(), value));
                proof {
                    assert(self.entries@ =~= e.update(i as int, self.entries@[i as int]));
                    lemma_map_of_update(e, i as int, self.entries@[i as int]);
                    assert(final(self).keys() =~= old(self).keys());
                }
            },
            None => {
                let ghost e = self.entries@;
                self.entries.push((key.to_owned(), value));
                proof {
                    lemma_map_of_push(e, self.entries@.last());
                    assert(final(self).keys() =~= old(self).keys().push(key@));
                    if old(self).wf() {
                        old(self).lemma_keys_dom(key@);
                        assert(!old(self).keys().contains(key@));
                    }
                }
            },
        }
    }

    /// Remove the entry for `key`, if any.
    pub fn remove(&mut self, key: &str)
        requires
            old(self).wf(),
        ensures
            final(self)@ =~= old(self)@.remove(key@),
            final(self).keys() =~= old(self).keys().remove_value(key@),
            final(self).wf(),
    {
        let pos = self.find(key);
        match pos {
            Some(i) => {
                let ghost e = self.entries@;
                let ghost ks = self.keys();
                self.entries.remove(i);
                proof {
                    assert(forall|j: int|
                        0 <= j < e.len() && j != i ==> #[trigger] e[j].0@ != e[i as int].0@) by {
                        assert(forall|j: int| 0 <= j < ks.len() ==> ks[j] == #[trigger] e[j].0@);
                    }
                    lemma_map_of_remove(e, i as int);
                    ks.index_of_first_ensures(key@);
                    assert(ks.contains(key@)) by {
                        assert(ks[i as int] == key@);
                    }
                    let idx = ks.index_of_first(key@).unwrap();
                    assert(ks[idx] == key@);
                    assert(idx == i);
                    assert(final(self).keys() =~= ks.remove(i as int));
                    assert(ks.remove_value(key@) == ks.remove(idx));
                    ks.remove_ensures(i as int);
                    let r = ks.remove(i as int);
                    assert(final(self).keys().no_duplicates()) by {
                        assert forall|a: int, b: int| 0 <= a < b < r.len() implies r[a] != r[b] by {
                            let a2 = if a < i { a } else { a + 1 };
                            let b2 = if b < i { b } else { b + 1 };
                            assert(r[a] == ks[a2]);
                            assert(r[b] == ks[b2]);
                            assert(ks[a2] != ks[b2]);
                        }
                    }
                }
            },
            None => {
                proof {
                    lemma_map_of_contains(self.entries@, key@);
                    assert(final(self)@ =~= old(self)@.remove(key@));
                    self.lemma_keys_dom(key@);
                    assert(!self.keys().contains(key@));
                    self.keys().index_of_first_ensures(key@);
                    assert(self.keys().remove_value(key@) == self.keys());
                }
            },
        }
    }

    /// Remove every entry.
    pub fn clear(&mut self)
        ensures
            final(self)@ =~= Map::<Seq<char>, V::V>::empty(),
            final(self).keys() =~= Seq::<Seq<char>>::empty(),
            final(self).wf(),
    {
        self.entries.clear();
    }
}

} // verus!
