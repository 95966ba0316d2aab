//! One section of the document: setting names with their raw values, each name
//! at most once, kept in the order in which the names first arrived.

use crate::text::{first_index_of, lemma_first_index_is, lemma_first_index_of};
use vstd::prelude::*;

verus! {

/// The mathematical content of a section: `(key, value)` pairs in order.
pub type Entries = Seq<(Seq<char>, Seq<char>)>;

/// The keys of `e`, in order.
pub open spec fn keys_of(e: Entries) -> Seq<Seq<char>> {
    e.map_values(|p: (Seq<char>, Seq<char>)| p.0)
}

/// No key stands at two positions of `e`.
pub open spec fn distinct_keys(e: Entries) -> bool {
    keys_of(e).no_duplicates()
}

/// Whether some entry of `e` has the key `key`.
pub open spec fn has_key(e: Entries, key: Seq<char>) -> bool {
    keys_of(e).contains(key)
}

/// Position of the first entry of `e` with the key `key`, or `e.len()`.
pub open spec fn position_of(e: Entries, key: Seq<char>) -> int {
    first_index_of(keys_of(e), key)
}

/// The value that `e` holds for `key`; meaningful where `has_key(e, key)`.
pub open spec fn value_of(e: Entries, key: Seq<char>) -> Seq<char> {
    e[position_of(e, key)].1
}

/// `e` after `key` is set to `value`: an existing entry keeps its place and
/// takes the new value, a new key goes to the end.
pub open spec fn with_entry(e: Entries, key: Seq<char>, value: Seq<char>) -> Entries {
    if has_key(e, key) {
        e.update(position_of(e, key), (key, value))
    } else {
        e.push((key, value))
    }
}

/// `e` read as a mapping from key to value.
pub open spec fn as_map(e: Entries) -> Map<Seq<char>, Seq<char>> {
    Map::new(|k: Seq<char>| has_key(e, k), |k: Seq<char>| value_of(e, k))
}

/// Setting a key keeps the keys distinct, and afterwards the mapping is the
/// old one with `key` bound to `value`.
pub proof fn lemma_with_entry(e: Entries, key: Seq<char>, value: Seq<char>)
    requires
        distinct_keys(e),
    ensures
        distinct_keys(with_entry(e, key, value)),
        as_map(with_entry(e, key, value)) == as_map(e).insert(key, value),
        has_key(with_entry(e, key, value), key),
        value_of(with_entry(e, key, value), key) == value,
{
    let r = with_entry(e, key, value);
    let p = position_of(e, key);
    lemma_first_index_of(keys_of(e), key);
    if has_key(e, key) {
        assert(keys_of(r) =~= keys_of(e));
    } else {
        assert(keys_of(r) =~= keys_of(e).push(key));
        assert(keys_of(r)[e.len() as int] == key);
    }
    lemma_first_index_is(keys_of(r), key, p);
    assert forall|k: Seq<char>| has_key(r, k) == (k == key || has_key(e, k)) by {
        if has_key(e, k) {
            let i = choose|i: int| 0 <= i < e.len() && keys_of(e)[i] == k;
            assert(keys_of(r)[i] == k);
        }
        if k == key {
            assert(keys_of(r)[p] == k);
        }
        if has_key(r, k) && k != key {
            let i = choose|i: int| 0 <= i < r.len() && keys_of(r)[i] == k;
            assert(keys_of(e)[i] == k);
        }
    }
    assert forall|k: Seq<char>| has_key(r, k) && k != key implies value_of(r, k) == value_of(
        e,
        k,
    ) by {
        lemma_first_index_of(keys_of(e), k);
        let q = position_of(e, k);
        assert(keys_of(e)[q] == k);
        assert forall|i: int| 0 <= i < q implies keys_of(r)[i] != k by {
            assert(keys_of(e)[i] != k);
        }
        assert(keys_of(r)[q] == k);
        lemma_first_index_is(keys_of(r), k, q);
    }
    assert(as_map(r) =~= as_map(e).insert(key, value));
}

/// With distinct keys, the entry at position `i` is the one its key leads to.
pub proof fn lemma_position_of_entry(e: Entries, i: int)
    requires
        distinct_keys(e),
        0 <= i < e.len(),
    ensures
        has_key(e, e[i].0),
        position_of(e, e[i].0) == i,
        value_of(e, e[i].0) == e[i].1,
{
    assert(keys_of(e)[i] == e[i].0);
    lemma_first_index_of(keys_of(e), e[i].0);
}

/// A section: an ordered list of settings in which every key occurs once.
#[derive(Debug)]
pub struct Section {
    entries: Vec<(String, String)>,
}

impl View for Section {
    type V = Entries;

    closed spec fn view(&self) -> Entries {
        content_of(self.entries@)
    }
}

spec fn content_of(entries: Seq<(String, String)>) -> Entries {
    Seq::new(entries.len(), |i: int| (entries[i].0@, entries[i].1@))
}

impl Section {
    #[verifier::type_invariant]
    spec fn well_formed(&self) -> bool {
        distinct_keys(self@)
    }

    /// A section without entries.
    pub fn new() -> (s: Section)
        ensures
            s@ == Entries::empty(),
    {
        let s = Section { entries: Vec::new() };
        assert(s@ =~= Entries::empty());
        s
    }

    /// Number of entries.
    pub fn len(&self) -> (n: usize)
        ensures
            n == self@.len(),
    {
        self.entries.len()
    }

    /// Whether the section has no entry.
    pub fn is_empty(&self) -> (b: bool)
        ensures
            b == (self@.len() == 0),
    {
        self.entries.len() == 0
    }

    fn find(&self, key: &String) -> (r: Option<usize>)
        ensures
            match r {
                Some(i) => i < self.entries.len() && has_key(self@, key@) && i == position_of(
                    self@,
                    key@,
                ),
                None => !has_key(self@, key@),
            },
    {
        let mut i: usize = 0;
        while i < self.entries.len()
            invariant
                i <= self.entries.len(),
                forall|j: int| 0 <= j < i ==> keys_of(self@)[j] != key@,
            decreases self.entries.len() - i,
        {
            if self.entries[i].0 == *key {
                proof {
                    assert(keys_of(self@)[i as int] == key@);
                    lemma_first_index_is(keys_of(self@), key@, i as int);
                }
                return Some(i);
            }
            i += 1;
        }
        None
    }

    /// Sets `key` to `value`. A key that is already there keeps its place and
    /// takes the new value; a new key is added at the end.
    pub fn insert(&mut self, key: String, value: String)
        ensures
            final(self)@ == with_entry(old(self)@, key@, value@),
            distinct_keys(old(self)@),
            distinct_keys(final(self)@),
    {
        proof {
            use_type_invariant(&*self);
            lemma_with_entry(self@, key@, value@);
        }
        let ghost before = self@;
        let ghost k = key@;
        let ghost v = value@;
        let pos = self.find(&key);
        let mut entries: Vec<(String, String)> = Vec::new();
        std::mem::swap(&mut entries, &mut self.entries);
        match pos {
            Some(i) => {
                entries.set(i, (key, value));
            },
            None => {
                entries.push((key, value));
            },
        }
        assert(content_of(entries@) =~= with_entry(before, k, v));
        self.entries = entries;
    }

    /// The value stored for `key`, if there is one.
    pub fn get(&self, key: &str) -> (r: Option<&String>)
        ensures
            match r {
                Some(v) => has_key(self@, key@) && v@ == value_of(self@, key@),
                None => !has_key(self@, key@),
            },
    {
        let k = key.to_owned();
        match self.find(&k) {
            Some(i) => Some(&self.entries[i].1),
            None => None,
        }
    }

    /// Whether `key` has a value in this section.
    pub fn contains_key(&self, key: &str) -> (b: bool)
        ensures
            b == has_key(self@, key@),
    {
        let k = key.to_owned();
        self.find(&k).is_some()
    }

    /// The entry at position `index`, as `(key, value)`; `None` past the end.
    pub fn entry(&self, index: usize) -> (r: Option<(&String, &String)>)
        ensures
            match r {
                Some(e) => index < self@.len() && e.0@ == self@[index as int].0 && e.1@
                    == self@[index as int].1,
                None => index >= self@.len(),
            },
    {
        if index < self.entries.len() {
            Some((&self.entries[index].0, &self.entries[index].1))
        } else {
            None
        }
    }
}

} // verus!
