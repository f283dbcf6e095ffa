//! Insertion-ordered maps keyed by strings, used for headers, cookies,
//! path parameters and query parameters.
//!
//! A map is modelled by the sequence of its entries, each a key with a
//! value, in the order in which the keys were first inserted. No key
//! occurs twice: inserting under a key that is present replaces its value
//! in place.

use vstd::prelude::*;

verus! {

/// Position of the first entry of `s` with key `k`, or `s.len()`.
pub open spec fn key_index<T>(s: Seq<(Seq<char>, T)>, k: Seq<char>) -> int
    decreases s.len(),
{
    if s.len() == 0 || s[0].0 == k {
        0
    } else {
        1 + key_index(s.drop_first(), k)
    }
}

/// The value stored under `k`, if any.
pub open spec fn lookup<T>(s: Seq<(Seq<char>, T)>, k: Seq<char>) -> Option<T> {
    let i = key_index(s, k);
    if i < s.len() {
        Some(s[i].1)
    } else {
        None
    }
}

/// The entries after storing `v` under `k`: the value is replaced where
/// the key is present, and a new entry is appended where it is not.
pub open spec fn put<T>(s: Seq<(Seq<char>, T)>, k: Seq<char>, v: T) -> Seq<(Seq<char>, T)> {
    let i = key_index(s, k);
    if i < s.len() {
        s.update(i, (k, v))
    } else {
        s.push((k, v))
    }
}

/// No key occurs twice.
pub open spec fn distinct_keys<T>(s: Seq<(Seq<char>, T)>) -> bool {
    forall|i: int, j: int| 0 <= i < j < s.len() ==> (#[trigger] s[i]).0 != (#[trigger] s[j]).0
}

/// `key_index` is within bounds, no earlier entry has the key, and
/// the entry there has it where the index is inside `s`.
pub proof fn lemma_key_index<T>(s: Seq<(Seq<char>, T)>, k: Seq<char>)
    ensures
        0 <= key_index(s, k) <= s.len(),
        forall|j: int| 0 <= j < key_index(s, k) ==> (#[trigger] s[j]).0 != k,
        key_index(s, k) < s.len() ==> s[key_index(s, k)].0 == k,
    decreases s.len(),
{
    if s.len() == 0 || s[0].0 == k {
    } else {
        let t = s.drop_first();
        lemma_key_index(t, k);
        assert forall|j: int| 0 <= j < key_index(s, k) implies (#[trigger] s[j]).0 != k by {
            if j > 0 {
                assert(s[j] == t[j - 1]);
            }
        }
        if key_index(t, k) < t.len() {
            assert(t[key_index(t, k)] == s[key_index(t, k) + 1]);
        }
    }
}

/// The first entry with the key is the only one with the key and
/// none before it.
pub proof fn lemma_key_index_unique<T>(s: Seq<(Seq<char>, T)>, k: Seq<char>, r: int)
    requires
        0 <= r <= s.len(),
        forall|j: int| 0 <= j < r ==> (#[trigger] s[j]).0 != k,
        r < s.len() ==> s[r].0 == k,
    ensures
        key_index(s, k) == r,
{
    lemma_key_index(s, k);
    let i = key_index(s, k);
    if i < r {
        assert(s[i].0 != k);
    } else if r < i {
        assert(s[r].0 != k);
    }
}

/// Storing a value keeps the keys distinct.
pub proof fn lemma_put_distinct<T>(s: Seq<(Seq<char>, T)>, k: Seq<char>, v: T)
    requires
        distinct_keys(s),
    ensures
        distinct_keys(put(s, k, v)),
{
    lemma_key_index(s, k);
    let i = key_index(s, k);
    let p = put(s, k, v);
    assert forall|a: int, b: int| 0 <= a < b < p.len() implies (#[trigger] p[a]).0 != (
    #[trigger] p[b]).0 by {
        if i < s.len() {
            assert(p[a].0 == s[a].0);
            assert(p[b].0 == s[b].0);
        } else {
            if b < s.len() {
                assert(p[a] == s[a] && p[b] == s[b]);
            } else {
                assert(p[a] == s[a]);
                assert(s[a].0 != k);
            }
        }
    }
}

/// A value that a [`FieldMap`] can hold: it has a view, and can be copied
/// without changing it.
pub trait FieldValue: View + Sized {
    /// A copy with the same view.
    fn duplicate(&self) -> (res: Self)
        ensures
            res@ == self@,
    ;
}

impl FieldValue for String {
    fn duplicate(&self) -> (res: String) {
        self.clone()
    }
}

/// A map from strings to values that remembers insertion order.
#[derive(Debug)]
pub struct FieldMap<V: FieldValue> {
    entries: Vec<(String, V)>,
}

/// The entries of a vector by their views.
pub closed spec fn entry_views<V: View>(v: Seq<(String, V)>) -> Seq<(Seq<char>, V::V)> {
    v.map_values(|e: (String, V)| (e.0@, e.1@))
}

impl<V: FieldValue> View for FieldMap<V> {
    type V = Seq<(Seq<char>, V::V)>;

    closed spec fn view(&self) -> Seq<(Seq<char>, V::V)> {
        entry_views(self.entries@)
    }
}

impl<V: FieldValue> FieldMap<V> {
    #[verifier::type_invariant]
    spec fn well_formed(&self) -> bool {
        distinct_keys(self@)
    }

    /// The value stored under `key`, in the model.
    pub open spec fn spec_get(&self, key: Seq<char>) -> Option<V::V> {
        lookup(self@, key)
    }

    /// An empty map.
    pub fn new() -> (m: Self)
        ensures
            m@ == Seq::<(Seq<char>, V::V)>::empty(),
    {
        let m = FieldMap { entries: Vec::new() };
        assert(m@ =~= Seq::<(Seq<char>, V::V)>::empty());
        m
    }

    /// The number of entries. No key occurs twice among them.
    pub fn len(&self) -> (n: usize)
        ensures
            n == self@.len(),
            distinct_keys(self@),
    {
        proof {
            use_type_invariant(self);
        }
        self.entries.len()
    }

    /// Whether the map has no entry.
    pub fn is_empty(&self) -> (b: bool)
        ensures
            b == (self@.len() == 0),
    {
        self.entries.len() == 0
    }

    /// The key and the value of the entry at position `i`.
    pub fn entry(&self, i: usize) -> (e: (&String, &V))
        requires
            i < self@.len(),
        ensures
            e.0@ == self@[i as int].0,
            e.1@ == self@[i as int].1,
    {
        let e = &self.entries[i];
        (&e.0, &e.1)
    }

    /// Position of the entry with key `key`, or the number of entries.
    fn position(&self, key: &str) -> (i: usize)
        ensures
            i == key_index(self@, key@),
            i <= self@.len(),
    {
        let wanted = String::from_str(key);
        let mut i: usize = 0;
        while i < self.entries.len()
            invariant
                i <= self.entries.len(),
                wanted@ == key@,
                forall|j: int| 0 <= j < i ==> (#[trigger] self@[j]).0 != key@,
            ensures
                i < self.entries.len() ==> self@[i as int].0 == key@,
            decreases self.entries.len() - i,
        {
            assert(self@[i as int].0 == self.entries@[i as int].0@);
            if self.entries[i].0 == wanted {
                break;
            }
            i += 1;
        }
        proof {
            lemma_key_index_unique(self@, key@, i as int);
        }
        i
    }

    /// The value stored under `key`, if any.
    pub fn get(&self, key: &str) -> (r: Option<&V>)
        ensures
            r.is_some() == self.spec_get(key@).is_some(),
            r.is_some() ==> r.unwrap()@ == self.spec_get(key@).unwrap(),
    {
        let i = self.position(key);
        if i < self.entries.len() {
            Some(&self.entries[i].1)
        } else {
            None
        }
    }

    /// Whether a value is stored under `key`.
    pub fn contains_key(&self, key: &str) -> (b: bool)
        ensures
            b == self.spec_get(key@).is_some(),
    {
        let i = self.position(key);
        i < self.entries.len()
    }

    /// Stores `value` under `key`, replacing the value that was there.
    pub fn insert(&mut self, key: String, value: V)
        ensures
            final(self)@ == put(old(self)@, key@, value@),
    {
        proof {
            use_type_invariant(&*self);
            lemma_put_distinct(self@, key@, value@);
        }
        let i = self.position(key.as_str());
        let mut entries: Vec<(String, V)> = Vec::new();
        std::mem::swap(&mut self.entries, &mut entries);
        if i < entries.len() {
            entries.set(i, (key, value));
        } else {
            entries.push((key, value));
        }
        assert(entry_views(entries@) =~= put(old(self)@, key@, value@));
        std::mem::swap(&mut self.entries, &mut entries);
    }

    /// A copy of the map with the same entries.
    pub fn duplicate(&self) -> (m: Self)
        ensures
            m@ == self@,
    {
        proof {
            use_type_invariant(self);
        }
        let mut entries: Vec<(String, V)> = Vec::new();
        let mut i: usize = 0;
        while i < self.entries.len()
            invariant
                i <= self.entries.len(),
                entry_views(entries@) == self@.take(i as int),
            decreases self.entries.len() - i,
        {
            let e = &self.entries[i];
            let ghost before = entries@;
            entries.push((e.0.clone(), e.1.duplicate()));
            i += 1;
            assert(entry_views(entries@) =~= entry_views(before).push(self@[i - 1]));
            assert(entry_views(entries@) =~= self@.take(i as int));
        }
        assert(self@.take(i as int) =~= self@);
        FieldMap { entries }
    }
}

impl<V: FieldValue> Clone for FieldMap<V> {
    fn clone(&self) -> (m: Self)
        ensures
            m@ == self@,
    {
        self.duplicate()
    }
}

/// The last write wins: after storing `v` under `k`, looking `k` up
/// gives `v`, looking another key up gives what it gave before, and the
/// number of entries has grown by one exactly where `k` was absent.
pub proof fn law_put_lookup<T>(s: Seq<(Seq<char>, T)>, k: Seq<char>, v: T, other: Seq<char>)
    ensures
        lookup(put(s, k, v), k) == Some(v),
        other != k ==> lookup(put(s, k, v), other) == lookup(s, other),
        put(s, k, v).len() == s.len() + (if lookup(s, k).is_some() {
            0int
        } else {
            1int
        }),
{
    lemma_key_index(s, k);
    lemma_key_index(s, other);
    let p = put(s, k, v);
    let i = key_index(s, k);
    assert forall|j: int| 0 <= j < i implies (#[trigger] p[j]).0 != k by {
        assert(p[j].0 == s[j].0);
    }
    lemma_key_index_unique(p, k, i);
    if other != k {
        let o = key_index(s, other);
        assert forall|j: int| 0 <= j < o && j < p.len() implies (#[trigger] p[j]).0 != other by {
            if j < s.len() {
                assert(p[j].0 == s[j].0 || p[j].0 == k);
            }
        }
        if o < s.len() {
            assert(p[o] == s[o]);
            lemma_key_index_unique(p, other, o);
        } else {
            lemma_key_index_unique(p, other, p.len() as int);
        }
    }
}

} // verus!
