//! An insertion-ordered map from strings to strings.
//!
//! The model is the sequence of `(key, value)` pairs in the order in which the keys
//! were first inserted. A key is looked up from the front, and an insertion replaces
//! the value of the first pair with that key, so no key is ever held twice.

use vstd::prelude::*;

verus! {

/// The model of a [`StringMap`]: its pairs, in insertion order.
pub type Pairs = Seq<(Seq<char>, Seq<char>)>;

/// The value of the first pair with key `key`.
pub open spec fn lookup(m: Pairs, key: Seq<char>) -> Option<Seq<char>>
    decreases m.len(),
{
    if m.len() == 0 {
        None
    } else if m[0].0 == key {
        Some(m[0].1)
    } else {
        lookup(m.drop_first(), key)
    }
}

/// `m` with `key` bound to `value`: in place where `key` is present, at the end
/// where it is not.
pub open spec fn upsert(m: Pairs, key: Seq<char>, value: Seq<char>) -> Pairs
    decreases m.len(),
{
    if m.len() == 0 {
        seq![(key, value)]
    } else if m[0].0 == key {
        seq![(key, value)] + m.drop_first()
    } else {
        seq![m[0]] + upsert(m.drop_first(), key, value)
    }
}

/// No key occurs in two pairs.
pub open spec fn distinct_keys(m: Pairs) -> bool {
    forall|i: int, j: int| 0 <= i < j < m.len() ==> (#[trigger] m[i]).0 != (#[trigger] m[j]).0
}

/// A key that was just bound is found with its value.
pub proof fn lemma_lookup_upsert_same(m: Pairs, key: Seq<char>, value: Seq<char>)
    ensures
        lookup(upsert(m, key, value), key) == Some(value),
    decreases m.len(),
{
    if m.len() == 0 {
    } else if m[0].0 == key {
    } else {
        lemma_lookup_upsert_same(m.drop_first(), key, value);
        assert(upsert(m, key, value).drop_first() =~= upsert(m.drop_first(), key, value));
    }
}

/// Binding one key leaves every other key as it was.
pub proof fn lemma_lookup_upsert_other(m: Pairs, key: Seq<char>, value: Seq<char>, other: Seq<char>)
    requires
        other != key,
    ensures
        lookup(upsert(m, key, value), other) == lookup(m, other),
    decreases m.len(),
{
    if m.len() == 0 {
        let one = upsert(m, key, value);
        assert(one.drop_first().len() == 0);
        assert(lookup(one.drop_first(), other) is None);
    } else if m[0].0 == key {
        assert(upsert(m, key, value).drop_first() =~= m.drop_first());
    } else {
        lemma_lookup_upsert_other(m.drop_first(), key, value, other);
        assert(upsert(m, key, value).drop_first() =~= upsert(m.drop_first(), key, value));
    }
}

/// Where the first pair with `key` stands at `i`, binding `key` replaces that pair.
pub proof fn lemma_upsert_present(m: Pairs, key: Seq<char>, value: Seq<char>, i: int)
    requires
        0 <= i < m.len(),
        m[i].0 == key,
        forall|k: int| 0 <= k < i ==> (#[trigger] m[k]).0 != key,
    ensures
        upsert(m, key, value) == m.update(i, (key, value)),
        lookup(m, key) == Some(m[i].1),
    decreases m.len(),
{
    if i == 0 {
        assert(seq![(key, value)] + m.drop_first() =~= m.update(0, (key, value)));
    } else {
        assert(m[0].0 != key);
        let rest = m.drop_first();
        assert forall|k: int| 0 <= k < i - 1 implies (#[trigger] rest[k]).0 != key by {
            assert(rest[k] == m[k + 1]);
        }
        lemma_upsert_present(rest, key, value, i - 1);
        assert(seq![m[0]] + rest.update(i - 1, (key, value)) =~= m.update(i, (key, value)));
    }
}

/// Where no pair has `key`, binding `key` appends a pair.
pub proof fn lemma_upsert_absent(m: Pairs, key: Seq<char>, value: Seq<char>)
    requires
        forall|k: int| 0 <= k < m.len() ==> (#[trigger] m[k]).0 != key,
    ensures
        upsert(m, key, value) == m.push((key, value)),
        lookup(m, key) is None,
    decreases m.len(),
{
    if m.len() == 0 {
        assert(seq![(key, value)] =~= m.push((key, value)));
    } else {
        assert(m[0].0 != key);
        let rest = m.drop_first();
        assert forall|k: int| 0 <= k < rest.len() implies (#[trigger] rest[k]).0 != key by {
            assert(rest[k] == m[k + 1]);
        }
        lemma_upsert_absent(rest, key, value);
        assert(seq![m[0]] + rest.push((key, value)) =~= m.push((key, value)));
    }
}

/// Binding a key keeps the keys distinct.
pub proof fn lemma_upsert_distinct(m: Pairs, key: Seq<char>, value: Seq<char>)
    requires
        distinct_keys(m),
    ensures
        distinct_keys(upsert(m, key, value)),
{
    if exists|i: int| 0 <= i < m.len() && (#[trigger] m[i]).0 == key {
        let i = choose|i: int| 0 <= i < m.len() && (#[trigger] m[i]).0 == key;
        assert forall|k: int| 0 <= k < i implies (#[trigger] m[k]).0 != key by {}
        lemma_upsert_present(m, key, value, i);
        let r = m.update(i, (key, value));
        assert forall|a: int, b: int| 0 <= a < b < r.len() implies (#[trigger] r[a]).0 != (
        #[trigger] r[b]).0 by {
            assert(r[a].0 == m[a].0);
            assert(r[b].0 == m[b].0);
        }
    } else {
        lemma_upsert_absent(m, key, value);
    }
}

/// An insertion-ordered map from strings to strings.
#[derive(Debug, Clone)]
pub struct StringMap {
    pub entries: Vec<(String, String)>,
}

impl View for StringMap {
    type V = Pairs;

    open spec fn view(&self) -> Pairs {
        Seq::new(self.entries@.len(), |i: int| (self.entries@[i].0@, self.entries@[i].1@))
    }
}

impl StringMap {
    /// The empty map.
    pub fn new() -> (m: StringMap)
        ensures
            m@ == Seq::<(Seq<char>, Seq<char>)>::empty(),
    {
        let m = StringMap { entries: Vec::new() };
        proof {
            assert(m@ =~= Seq::<(Seq<char>, Seq<char>)>::empty());
        }
        m
    }

    /// The number of pairs.
    pub fn len(&self) -> (n: usize)
        ensures
            n == self@.len(),
    {
        self.entries.len()
    }

    /// The position of the first pair with `key`.
    pub fn position(&self, key: &String) -> (r: Option<usize>)
        ensures
            match r {
                Some(i) => {
                    &&& i < self@.len()
                    &&& self@[i as int].0 == key@
                    &&& forall|k: int| 0 <= k < i ==> (#[trigger] self@[k]).0 != key@
                },
                None => forall|k: int| 0 <= k < self@.len() ==> (#[trigger] self@[k]).0 != key@,
            },
    {
        let n = self.entries.len();
        let mut i: usize = 0;
        while i < n
            invariant
                n == self.entries@.len(),
                i <= n,
                forall|k: int| 0 <= k < i ==> (#[trigger] self@[k]).0 != key@,
            decreases n - i,
        {
            if self.entries[i].0 == *key {
                return Some(i);
            }
            i += 1;
        }
        None
    }

    /// Binds `key` to `value`.
    pub fn insert(&mut self, key: String, value: String)
        ensures
            final(self)@ == upsert(old(self)@, key@, value@),
    {
        match self.position(&key) {
            Some(i) => {
                proof {
                    lemma_upsert_present(self@, key@, value@, i as int);
                }
                let ghost k = key@;
                let ghost v = value@;
                self.entries[i] = (key, value);
                proof {
                    assert(self@ =~= old(self)@.update(i as int, (k, v)));
                }
            },
            None => {
                proof {
                    lemma_upsert_absent(self@, key@, value@);
                }
                let ghost k = key@;
                let ghost v = value@;
                self.entries.push((key, value));
                proof {
                    assert(self@ =~= old(self)@.push((k, v)));
                }
            },
        }
    }

    /// The value bound to `key`.
    pub fn get(&self, key: &str) -> (r: Option<&String>)
        ensures
            match r {
                Some(v) => lookup(self@, key@) == Some(v@),
                None => lookup(self@, key@) is None,
            },
    {
        let k = key.to_owned();
        match self.position(&k) {
            Some(i) => {
                proof {
                    lemma_upsert_present(self@, key@, self@[i as int].1, i as int);
                }
                Some(&self.entries[i].1)
            },
            None => {
                proof {
                    lemma_upsert_absent(self@, key@, key@);
                }
                None
            },
        }
    }

    /// A copy of the map.
    pub fn duplicate(&self) -> (m: StringMap)
        ensures
            m@ == self@,
    {
        let mut entries: Vec<(String, String)> = Vec::new();
        let n = self.entries.len();
        let mut i: usize = 0;
        while i < n
            invariant
                n == self.entries@.len(),
                i <= n,
                entries@.len() == i,
                forall|k: int|
                    0 <= k < i ==> (#[trigger] entries@[k]).0@ == self.entries@[k].0@
                        && entries@[k].1@ == self.entries@[k].1@,
            decreases n - i,
        {
            entries.push((self.entries[i].0.clone(), self.entries[i].1.clone()));
            i += 1;
        }
        let m = StringMap { entries };
        proof {
            assert(m@ =~= self@);
        }
        m
    }

    /// Whether `key` is bound.
    pub fn contains_key(&self, key: &str) -> (r: bool)
        ensures
            r == lookup(self@, key@).is_some(),
    {
        self.get(key).is_some()
    }
}

} // verus!
