//! A map keyed by strings, kept sorted by key so that two maps with the
//! same contents are the same value.

use crate::text::{views, chars_lt, lemma_chars_lt_irreflexive, lemma_chars_lt_total, lemma_chars_lt_transitive, str_eq, str_lt};
use vstd::prelude::*;

verus! {

broadcast use vstd::seq_lib::group_seq_properties;

/// Keys of `entries`, in stored order.
pub open spec fn keys_of<V>(entries: Seq<(String, V)>) -> Seq<Seq<char>> {
    entries.map_values(|e: (String, V)| e.0@)
}

/// Keys strictly increasing: sorted and free of duplicates.
pub open spec fn strictly_sorted(keys: Seq<Seq<char>>) -> bool {
    forall|i: int, j: int| 0 <= i < j < keys.len() ==> chars_lt(#[trigger] keys[i], #[trigger] keys[j])
}

/// The map that a sequence of entries with distinct keys stands for.
pub open spec fn entries_map<V>(entries: Seq<(String, V)>) -> Map<Seq<char>, V> {
    Map::new(
        |k: Seq<char>| keys_of(entries).contains(k),
        |k: Seq<char>| entries[keys_of(entries).index_of(k)].1,
    )
}

/// A strictly increasing key sequence has no duplicates.
pub proof fn lemma_strictly_sorted_no_duplicates(keys: Seq<Seq<char>>)
    requires
        strictly_sorted(keys),
    ensures
        keys.no_duplicates(),
{
    assert forall|i: int, j: int| 0 <= i < keys.len() && 0 <= j < keys.len() && i != j implies keys[i]
        != keys[j] by {
        if i < j {
            assert(chars_lt(keys[i], keys[j]));
        } else {
            assert(chars_lt(keys[j], keys[i]));
        }
        lemma_chars_lt_irreflexive(keys[i]);
    }
}

/// Entry `i` is in the map under its own key.
pub proof fn lemma_entries_map_index<V>(entries: Seq<(String, V)>, i: int)
    requires
        strictly_sorted(keys_of(entries)),
        0 <= i < entries.len(),
    ensures
        entries_map(entries).contains_key(entries[i].0@),
        entries_map(entries)[entries[i].0@] == entries[i].1,
{
    let keys = keys_of(entries);
    lemma_strictly_sorted_no_duplicates(keys);
    assert(keys[i] == entries[i].0@);
    assert(keys.contains(keys[i]));
    let j = keys.index_of(keys[i]);
    assert(keys[j] == keys[i]);
}

/// A string-keyed map.
#[derive(Debug, PartialEq, Eq)]
pub struct StrMap<V> {
    entries: Vec<(String, V)>,
}

impl<V> View for StrMap<V> {
    type V = Map<Seq<char>, V>;

    closed spec fn view(&self) -> Map<Seq<char>, V> {
        entries_map(self.entries@)
    }
}

impl<V> StrMap<V> {
    /// Keys strictly increasing; holds of every map.
    #[verifier::type_invariant]
    pub closed spec fn wf(self) -> bool {
        strictly_sorted(keys_of(self.entries@))
    }

    /// The keys in increasing order.
    pub closed spec fn key_seq(self) -> Seq<Seq<char>> {
        keys_of(self.entries@)
    }

    /// The values, in the order of `key_seq`.
    pub closed spec fn value_seq(self) -> Seq<V> {
        self.entries@.map_values(|e: (String, V)| e.1)
    }

    /// The key sequence is increasing, as long as the value sequence,
    /// and lists exactly the map's domain, each key with its value.
    pub proof fn lemma_seqs(self)
        requires
            self.wf(),
        ensures
            strictly_sorted(self.key_seq()),
            self.key_seq().no_duplicates(),
            self.key_seq().len() == self.value_seq().len(),
            self@.dom() == self.key_seq().to_set(),
            self@.dom().finite(),
            self@.len() == self.key_seq().len(),
            forall|i: int|
                0 <= i < self.key_seq().len() ==> #[trigger] self@[self.key_seq()[i]]
                    == self.value_seq()[i],
    {
        let keys = self.key_seq();
        lemma_strictly_sorted_no_duplicates(keys);
        assert(self@.dom() =~= keys.to_set());
        keys.unique_seq_to_set();
        assert forall|i: int| 0 <= i < keys.len() implies #[trigger] self@[keys[i]]
            == self.value_seq()[i] by {
            lemma_entries_map_index(self.entries@, i);
        }
    }

    /// An empty map.
    pub fn new() -> (r: Self)
        ensures
            r@ == Map::<Seq<char>, V>::empty(),
    {
        let r = StrMap { entries: Vec::new() };
        assert(r@ =~= Map::<Seq<char>, V>::empty());
        r
    }

    /// Number of keys.
    pub fn len(&self) -> (r: usize)
        ensures
            r == self@.len(),
    {
        proof {
            use_type_invariant(self);
            self.lemma_seqs();
        }
        self.entries.len()
    }

    /// Whether the map has no key.
    pub fn is_empty(&self) -> (r: bool)
        ensures
            r == (self@.len() == 0),
    {
        self.len() == 0
    }

    /// Position of `key` among the keys, if present.
    fn find(&self, key: &str) -> (r: Option<usize>)
        ensures
            match r {
                Some(i) => i < self.key_seq().len() && self.key_seq()[i as int] == key@,
                None => !self.key_seq().contains(key@),
            },
    {
        let mut i: usize = 0;
        while i < self.entries.len()
            invariant
                i <= self.entries@.len(),
                forall|j: int| 0 <= j < i ==> self.entries@[j].0@ != key@,
            decreases self.entries@.len() - i,
        {
            if str_eq(self.entries[i].0.as_str(), key) {
                return Some(i);
            }
            i = i + 1;
        }
        None
    }

    /// Whether `key` is present.
    pub fn contains_key(&self, key: &str) -> (r: bool)
        ensures
            r == self@.contains_key(key@),
    {
        proof {
            use_type_invariant(self);
            self.lemma_seqs();
        }
        self.find(key).is_some()
    }

    /// The value under `key`, if any.
    pub fn get(&self, key: &str) -> (r: Option<&V>)
        ensures
            r is Some == self@.contains_key(key@),
            r matches Some(v) ==> *v == self@[key@],
    {
        proof {
            use_type_invariant(self);
            self.lemma_seqs();
        }
        match self.find(key) {
            Some(i) => Some(&self.entries[i].1),
            None => None,
        }
    }

    /// The `i`-th key in increasing order.
    pub fn key_at(&self, i: usize) -> (r: &String)
        requires
            i < self@.len(),
        ensures
            r@ == self.key_seq()[i as int],
    {
        proof {
            use_type_invariant(self);
            self.lemma_seqs();
        }
        &self.entries[i].0
    }

    /// The value of the `i`-th key in increasing order.
    pub fn value_at(&self, i: usize) -> (r: &V)
        requires
            i < self@.len(),
        ensures
            *r == self.value_seq()[i as int],
    {
        proof {
            use_type_invariant(self);
            self.lemma_seqs();
        }
        &self.entries[i].1
    }

    /// Sets `key` to `value`, replacing any value it had.
    pub fn insert(&mut self, key: String, value: V)
        ensures
            final(self)@ == old(self)@.insert(key@, value),
    {
        proof {
            use_type_invariant(&*self);
            self.lemma_seqs();
        }
        let ghost old_entries = self.entries@;
        let ghost k = key@;
        let mut entries: Vec<(String, V)> = Vec::new();
        std::mem::swap(&mut entries, &mut self.entries);
        assert(entries@ == old_entries);
        // first position whose key is not below `key`
        let mut i: usize = 0;
        while i < entries.len() && str_lt(entries[i].0.as_str(), key.as_str())
            invariant
                entries@ == old_entries,
                key@ == k,
                strictly_sorted(keys_of(old_entries)),
                i <= entries@.len(),
                forall|j: int| 0 <= j < i ==> chars_lt(#[trigger] old_entries[j].0@, k),
            decreases entries@.len() - i,
        {
            i = i + 1;
        }
        let ghost old_keys = keys_of(old_entries);
        if i < entries.len() && str_eq(entries[i].0.as_str(), key.as_str()) {
            entries.set(i, (key, value));
            proof {
                let new_keys = keys_of(entries@);
                assert(old_keys[i as int] == k);
                assert(new_keys =~= old_keys);
                assert(entries_map(entries@) =~= entries_map(old_entries).insert(k, value)) by {
                    lemma_strictly_sorted_no_duplicates(new_keys);
                    lemma_strictly_sorted_no_duplicates(old_keys);
                    assert forall|q: Seq<char>| #[trigger] entries_map(entries@).contains_key(q)
                        <==> entries_map(old_entries).insert(k, value).contains_key(q) by {
                        if new_keys.contains(q) {
                            let j = choose|j: int| 0 <= j < new_keys.len() && new_keys[j] == q;
                            if j != i {
                                assert(old_keys[j] == q);
                            }
                        }
                        if old_keys.contains(q) {
                            let j = choose|j: int| 0 <= j < old_keys.len() && old_keys[j] == q;
                            assert(new_keys[j] == q || j == i);
                            if j == i {
                                assert(new_keys[i as int] == k);
                            }
                        }
                        if q == k {
                            assert(new_keys[i as int] == k);
                        }
                    }
                    assert forall|q: Seq<char>| #[trigger] entries_map(entries@).contains_key(q)
                        implies entries_map(entries@)[q] == entries_map(old_entries).insert(
                        k,
                        value,
                    )[q] by {
                        let j = choose|j: int| 0 <= j < new_keys.len() && new_keys[j] == q;
                        lemma_entries_map_index(entries@, j);
                        if j != i {
                            assert(old_keys[j] == q);
                            lemma_entries_map_index(old_entries, j);
                        }
                    }
                }
            }
            self.entries = entries;
        } else {
            proof {
                if i < entries@.len() {
                    lemma_chars_lt_total(old_keys[i as int], k);
                }
            }
            entries.insert(i, (key, value));
            proof {
                let new_keys = keys_of(entries@);
                assert(new_keys =~= old_keys.insert(i as int, k));
                assert forall|a: int, b: int| 0 <= a < b < new_keys.len() implies chars_lt(
                    #[trigger] new_keys[a],
                    #[trigger] new_keys[b],
                ) by {
                    if b < i {
                    } else if a < i && b == i {
                    } else if a < i && b > i {
                        assert(chars_lt(old_keys[a], k));
                        assert(chars_lt(k, old_keys[i as int]));
                        if b - 1 > i {
                            assert(chars_lt(old_keys[i as int], old_keys[b - 1]));
                            lemma_chars_lt_transitive(k, old_keys[i as int], old_keys[b - 1]);
                        }
                        lemma_chars_lt_transitive(old_keys[a], k, old_keys[b - 1]);
                    } else if a == i {
                        assert(chars_lt(k, old_keys[i as int]));
                        if b - 1 > i {
                            assert(chars_lt(old_keys[i as int], old_keys[b - 1]));
                            lemma_chars_lt_transitive(k, old_keys[i as int], old_keys[b - 1]);
                        }
                    } else {
                        assert(chars_lt(old_keys[a - 1], old_keys[b - 1]));
                    }
                }
                lemma_strictly_sorted_no_duplicates(new_keys);
                lemma_strictly_sorted_no_duplicates(old_keys);
                assert(!old_keys.contains(k)) by {
                    if old_keys.contains(k) {
                        let j = choose|j: int| 0 <= j < old_keys.len() && old_keys[j] == k;
                        if j < i {
                            assert(chars_lt(old_keys[j], k));
                            lemma_chars_lt_irreflexive(k);
                        } else {
                            if j > i {
                                assert(chars_lt(old_keys[i as int], old_keys[j]));
                            }
                            assert(chars_lt(k, old_keys[i as int]));
                            if j > i {
                                lemma_chars_lt_transitive(k, old_keys[i as int], k);
                            }
                            lemma_chars_lt_irreflexive(k);
                        }
                    }
                }
                assert(entries_map(entries@) =~= entries_map(old_entries).insert(k, value)) by {
                    assert forall|q: Seq<char>| #[trigger] entries_map(entries@).contains_key(q)
                        <==> entries_map(old_entries).insert(k, value).contains_key(q) by {
                        if new_keys.contains(q) {
                            let j = choose|j: int| 0 <= j < new_keys.len() && new_keys[j] == q;
                            if j < i {
                                assert(old_keys[j] == q);
                            } else if j > i {
                                assert(old_keys[j - 1] == q);
                            }
                        }
                        if old_keys.contains(q) {
                            let j = choose|j: int| 0 <= j < old_keys.len() && old_keys[j] == q;
                            if j < i {
                                assert(new_keys[j] == q);
                            } else {
                                assert(new_keys[j + 1] == q);
                            }
                        }
                        if q == k {
                            assert(new_keys[i as int] == k);
                        }
                    }
                    assert forall|q: Seq<char>| #[trigger] entries_map(entries@).contains_key(q)
                        implies entries_map(entries@)[q] == entries_map(old_entries).insert(
                        k,
                        value,
                    )[q] by {
                        let j = choose|j: int| 0 <= j < new_keys.len() && new_keys[j] == q;
                        lemma_entries_map_index(entries@, j);
                        if j < i {
                            assert(old_keys[j] == q);
                            lemma_entries_map_index(old_entries, j);
                        } else if j > i {
                            assert(old_keys[j - 1] == q);
                            lemma_entries_map_index(old_entries, j - 1);
                        }
                    }
                }
            }
            self.entries = entries;
        }
    }
}


impl<V: Clone> Clone for StrMap<V> {
    /// A map with the same keys, each value cloned.
    fn clone(&self) -> (r: Self)
        ensures
            r.key_seq() == self.key_seq(),
            r.value_seq().len() == self.value_seq().len(),
            forall|i: int|
                0 <= i < self.value_seq().len() ==> cloned::<V>(
                    self.value_seq()[i],
                    #[trigger] r.value_seq()[i],
                ),
    {
        proof {
            use_type_invariant(self);
        }
        let mut entries: Vec<(String, V)> = Vec::new();
        let mut i: usize = 0;
        while i < self.entries.len()
            invariant
                i <= self.entries@.len(),
                entries@.len() == i,
                forall|j: int| 0 <= j < i ==> #[trigger] entries@[j].0@ == self.entries@[j].0@,
                forall|j: int|
                    0 <= j < i ==> cloned::<V>(self.entries@[j].1, #[trigger] entries@[j].1),
            decreases self.entries@.len() - i,
        {
            let k = self.entries[i].0.clone();
            let v = self.entries[i].1.clone();
            entries.push((k, v));
            i = i + 1;
        }
        assert(keys_of(entries@) =~= keys_of(self.entries@));
        StrMap { entries }
    }
}

impl StrMap<String> {
    /// A copy of a map of strings.
    pub fn copy(&self) -> (r: Self)
        ensures
            r@ == self@,
    {
        proof {
            use_type_invariant(self);
            self.lemma_seqs();
        }
        let r = self.clone();
        proof {
            use_type_invariant(&r);
            r.lemma_seqs();
            assert(r.value_seq() =~= self.value_seq());
            assert(r@ =~= self@);
        }
        r
    }
}

impl<V> Default for StrMap<V> {
    fn default() -> (r: Self)
        ensures
            r@ == Map::<Seq<char>, V>::empty(),
    {
        Self::new()
    }
}


/// A set of strings, kept in increasing order.
#[derive(Debug, PartialEq, Eq)]
pub struct NameSet {
    names: StrMap<()>,
}

impl View for NameSet {
    type V = Set<Seq<char>>;

    closed spec fn view(&self) -> Set<Seq<char>> {
        self.names@.dom()
    }
}

impl NameSet {
    /// The underlying map is well formed; holds of every set.
    #[verifier::type_invariant]
    pub closed spec fn wf(self) -> bool {
        self.names.wf()
    }

    /// The members in increasing order.
    pub closed spec fn sorted(self) -> Seq<Seq<char>> {
        self.names.key_seq()
    }

    /// The members are `sorted()`, which is increasing and free of
    /// duplicates; the set is finite.
    pub proof fn lemma_sorted(self)
        requires
            self.wf(),
        ensures
            strictly_sorted(self.sorted()),
            self.sorted().no_duplicates(),
            self@ == self.sorted().to_set(),
            self@.finite(),
            self@.len() == self.sorted().len(),
    {
        self.names.lemma_seqs();
    }

    /// The empty set.
    pub fn new() -> (r: Self)
        ensures
            r@ == Set::<Seq<char>>::empty(),
    {
        let names = StrMap::new();
        proof {
            use_type_invariant(&names);
        }
        let r = NameSet { names };
        assert(r@ =~= Set::<Seq<char>>::empty());
        r
    }

    /// Number of members.
    pub fn len(&self) -> (r: usize)
        ensures
            r == self@.len(),
    {
        self.names.len()
    }

    /// Whether the set has no member.
    pub fn is_empty(&self) -> (r: bool)
        ensures
            r == (self@.len() == 0),
    {
        self.names.is_empty()
    }

    /// Whether `name` is a member.
    pub fn contains(&self, name: &str) -> (r: bool)
        ensures
            r == self@.contains(name@),
    {
        self.names.contains_key(name)
    }

    /// Adds `name`.
    pub fn insert(&mut self, name: String)
        ensures
            final(self)@ == old(self)@.insert(name@),
    {
        let ghost n = name@;
        let mut names = StrMap::new();
        proof {
            use_type_invariant(&names);
        }
        std::mem::swap(&mut names, &mut self.names);
        names.insert(name, ());
        proof {
            use_type_invariant(&names);
        }
        self.names = names;
        assert(self@ =~= old(self)@.insert(n));
    }

    /// The set of the given names.
    pub fn from_names(names: Vec<String>) -> (r: Self)
        ensures
            r@ == views(names@).to_set(),
    {
        let mut r = NameSet::new();
        let mut i: usize = 0;
        while i < names.len()
            invariant
                i <= names@.len(),
                r@ == views(names@.subrange(0, i as int)).to_set(),
            decreases names@.len() - i,
        {
            r.insert(names[i].clone());
            proof {
                assert(views(names@.subrange(0, i + 1)) =~= views(names@.subrange(0, i as int)).push(
                    names@[i as int]@,
                ));
                assert(views(names@.subrange(0, i + 1)).to_set() =~= views(
                    names@.subrange(0, i as int),
                ).to_set().insert(names@[i as int]@));
            }
            i = i + 1;
        }
        assert(names@.subrange(0, names@.len() as int) =~= names@);
        r
    }

    /// The members, in increasing order.
    pub fn to_vec(&self) -> (r: Vec<String>)
        ensures
            views(r@) == self.sorted(),
    {
        proof {
            use_type_invariant(&self.names);
            self.names.lemma_seqs();
        }
        let n = self.names.len();
        let mut r: Vec<String> = Vec::new();
        let mut i: usize = 0;
        while i < n
            invariant
                n == self.names@.len(),
                n == self.sorted().len(),
                i <= n,
                views(r@) == self.sorted().subrange(0, i as int),
            decreases n - i,
        {
            let k = self.names.key_at(i).clone();
            let ghost before = r@;
            r.push(k);
            proof {
                assert(r@ == before.push(k));
                assert(views(r@) =~= views(before).push(k@));
                assert(views(r@) =~= self.sorted().subrange(0, i + 1));
            }
            i = i + 1;
        }
        assert(self.sorted().subrange(0, n as int) =~= self.sorted());
        r
    }
}

impl Clone for NameSet {
    /// The same set.
    fn clone(&self) -> (r: Self)
        ensures
            r@ == self@,
    {
        NameSet::from_names(self.to_vec())
    }
}

impl Default for NameSet {
    fn default() -> (r: Self)
        ensures
            r@ == Set::<Seq<char>>::empty(),
    {
        Self::new()
    }
}

} // verus!
