//! Maps from text to values.
use vstd::prelude::*;

use crate::text::same_text;
use crate::views::Duplicate;

verus! {

/// A map with text for keys. Each key occurs once; keys stay in the order in which they came.
pub struct StringMap<V> {
    entries: Vec<(String, V)>,
}

/// The keys of a list of entries, in order.
spec fn entry_keys<V>(entries: Seq<(String, V)>) -> Seq<Seq<char>> {
    entries.map_values(|entry: (String, V)| entry.0@)
}

/// The map that a list of entries with distinct keys stands for.
spec fn entries_map<V: DeepView>(entries: Seq<(String, V)>) -> Map<Seq<char>, V::V> {
    Map::new(
        |key: Seq<char>| entry_keys(entries).contains(key),
        |key: Seq<char>| entries[entry_keys(entries).index_of(key)].1.deep_view(),
    )
}

/// The entry at a position is the one under its key.
proof fn lemma_entry<V: DeepView>(entries: Seq<(String, V)>, i: int)
    requires
        entry_keys(entries).no_duplicates(),
        0 <= i < entries.len(),
    ensures
        entries_map(entries).contains_key(entries[i].0@),
        entries_map(entries)[entries[i].0@] == entries[i].1.deep_view(),
{
    assert(entry_keys(entries)[i] == entries[i].0@);
    assert(entry_keys(entries).index_of(entries[i].0@) == i);
}

/// A list of entries whose keys are distinct, and are those of `map`, and whose values are those
/// of `map`, stands for `map`.
proof fn lemma_entries_map<V: DeepView>(entries: Seq<(String, V)>, map: Map<Seq<char>, V::V>)
    requires
        entry_keys(entries).no_duplicates(),
        forall|key: Seq<char>| #[trigger]
            map.contains_key(key) <==> entry_keys(entries).contains(key),
        forall|i: int|
            0 <= i < entries.len() ==> map[(#[trigger] entries[i]).0@] == entries[i].1.deep_view(),
    ensures
        entries_map(entries) == map,
{
    assert forall|key: Seq<char>| #[trigger] map.contains_key(key) implies entries_map(entries)[key]
        == map[key] by {
        let i = entry_keys(entries).index_of(key);
        assert(entries[i].0@ == key);
    }
    assert(entries_map(entries) =~= map);
}

impl<V> StringMap<V> {
    #[verifier::type_invariant]
    spec fn keys_are_distinct(self) -> bool {
        entry_keys(self.entries@).no_duplicates()
    }

    /// The keys, in the order in which they came.
    pub closed spec fn keys(self) -> Seq<Seq<char>> {
        entry_keys(self.entries@)
    }
}

impl<V: DeepView> View for StringMap<V> {
    type V = Map<Seq<char>, V::V>;

    closed spec fn view(&self) -> Map<Seq<char>, V::V> {
        entries_map(self.entries@)
    }
}

impl<V: DeepView> DeepView for StringMap<V> {
    type V = Map<Seq<char>, V::V>;

    open spec fn deep_view(&self) -> Map<Seq<char>, V::V> {
        self@
    }
}

/// The keys are those of the map, each once.
pub open spec fn lists_keys<V>(keys: Seq<Seq<char>>, map: Map<Seq<char>, V>) -> bool {
    &&& keys.no_duplicates()
    &&& keys.to_set() =~= map.dom()
}

impl<V: DeepView> StringMap<V> {
    /// The map without entries.
    pub fn new() -> (map: Self)
        ensures
            map@ == Map::<Seq<char>, V::V>::empty(),
            map.keys() == Seq::<Seq<char>>::empty(),
    {
        let map = StringMap { entries: Vec::new() };
        assert(map@ =~= Map::<Seq<char>, V::V>::empty());
        map
    }

    /// The number of entries.
    pub fn len(&self) -> (n: usize)
        ensures
            n == self.keys().len(),
            lists_keys(self.keys(), self@),
    {
        proof {
            use_type_invariant(self);
        }
        self.entries.len()
    }

    /// Whether there is no entry.
    pub fn is_empty(&self) -> (res: bool)
        ensures
            res == (self@ == Map::<Seq<char>, V::V>::empty()),
    {
        if self.entries.len() == 0 {
            assert(self@ =~= Map::<Seq<char>, V::V>::empty());
            true
        } else {
            assert(self.keys()[0] == self.entries@[0].0@);
            assert(self@.contains_key(self.keys()[0]));
            false
        }
    }

    /// The key at position `i`.
    pub fn key_at(&self, i: usize) -> (key: &String)
        requires
            i < self.keys().len(),
        ensures
            key@ == self.keys()[i as int],
            self@.contains_key(key@),
    {
        &self.entries[i].0
    }

    /// The value at position `i`.
    pub fn value_at(&self, i: usize) -> (value: &V)
        requires
            i < self.keys().len(),
        ensures
            self@.contains_key(self.keys()[i as int]),
            self@[self.keys()[i as int]] == value.deep_view(),
    {
        proof {
            use_type_invariant(self);
            lemma_entry(self.entries@, i as int);
        }
        &self.entries[i].1
    }

    /// The position of `key`.
    fn position(&self, key: &str) -> (at: Option<usize>)
        ensures
            match at {
                Some(at) => at < self.entries@.len() && self.entries@[at as int].0@ == key@,
                None => !self.keys().contains(key@),
            },
    {
        let mut at: usize = 0;
        while at < self.entries.len()
            invariant
                at <= self.entries.len(),
                forall|i: int| 0 <= i < at ==> #[trigger] self.keys()[i] != key@,
            decreases self.entries.len() - at,
        {
            if same_text(self.entries[at].0.as_str(), key) {
                return Some(at);
            }
            at = at + 1;
        }
        None
    }

    /// The value under `key`.
    pub fn get(&self, key: &str) -> (value: Option<&V>)
        ensures
            match value {
                Some(value) => self@.contains_key(key@) && self@[key@] == value.deep_view(),
                None => !self@.contains_key(key@),
            },
    {
        proof {
            use_type_invariant(self);
        }
        match self.position(key) {
            Some(at) => {
                proof {
                    lemma_entry(self.entries@, at as int);
                }
                Some(&self.entries[at].1)
            },
            None => None,
        }
    }

    /// Whether there is a value under `key`.
    pub fn contains_key(&self, key: &str) -> (res: bool)
        ensures
            res == self@.contains_key(key@),
    {
        self.get(key).is_some()
    }

    /// Puts `value` under `key`, in place of what was there.
    pub fn insert(&mut self, key: String, value: V)
        ensures
            final(self)@ == old(self)@.insert(key@, value.deep_view()),
            final(self).keys() == (if old(self)@.contains_key(key@) {
                old(self).keys()
            } else {
                old(self).keys().push(key@)
            }),
    {
        proof {
            use_type_invariant(&*self);
        }
        let found = self.position(key.as_str());
        let mut entries: Vec<(String, V)> = Vec::new();
        std::mem::swap(&mut entries, &mut self.entries);
        let ghost before = entries@;
        let ghost name = key@;
        let ghost result = entries_map(before).insert(key@, value.deep_view());
        match found {
            Some(at) => {
                entries.set(at, (key, value));
                proof {
                    let keys = entry_keys(before);
                    assert(entry_keys(entries@) =~= keys);
                    assert(keys[at as int] == name);
                    assert forall|i: int| 0 <= i < entries@.len() implies result[(
                    #[trigger] entries@[i]).0@] == entries@[i].1.deep_view() by {
                        lemma_entry(before, i);
                        if i != at {
                            assert(keys[i] != keys[at as int]);
                        }
                    }
                    lemma_entries_map(entries@, result);
                }
            },
            None => {
                entries.push((key, value));
                proof {
                    let keys = entry_keys(before);
                    assert(entry_keys(entries@) =~= keys.push(name));
                    assert forall|k: Seq<char>| #[trigger] result.contains_key(k) implies entry_keys(
                        entries@,
                    ).contains(k) by {
                        if k == name {
                            assert(entry_keys(entries@)[before.len() as int] == k);
                        } else {
                            let i = keys.index_of(k);
                            assert(entry_keys(entries@)[i] == k);
                        }
                    }
                    assert forall|i: int| 0 <= i < entries@.len() implies result[(
                    #[trigger] entries@[i]).0@] == entries@[i].1.deep_view() by {
                        if i < before.len() {
                            lemma_entry(before, i);
                            assert(keys[i] == entries@[i].0@);
                        }
                    }
                    lemma_entries_map(entries@, result);
                }
            },
        }
        self.entries = entries;
    }

    /// Takes the entry under `key` out, and returns its value.
    pub fn remove(&mut self, key: &str) -> (value: Option<V>)
        ensures
            final(self)@ == old(self)@.remove(key@),
            match value {
                Some(value) => old(self)@.contains_key(key@) && old(self)@[key@]
                    == value.deep_view(),
                None => !old(self)@.contains_key(key@),
            },
    {
        proof {
            use_type_invariant(&*self);
        }
        let found = self.position(key);
        match found {
            Some(at) => {
                let mut entries: Vec<(String, V)> = Vec::new();
                std::mem::swap(&mut entries, &mut self.entries);
                let ghost before = entries@;
                let ghost keys = entry_keys(before);
                let ghost result = entries_map(before).remove(key@);
                let removed = entries.remove(at);
                proof {
                    lemma_entry(before, at as int);
                    assert(entry_keys(entries@) =~= keys.remove(at as int));
                    assert(entry_keys(entries@).no_duplicates());
                    assert forall|k: Seq<char>| #[trigger] result.contains_key(k) implies entry_keys(
                        entries@,
                    ).contains(k) by {
                        let i = keys.index_of(k);
                        assert(keys[at as int] == key@);
                        let j = if i < at {
                            i
                        } else {
                            i - 1
                        };
                        assert(entry_keys(entries@)[j] == k);
                    }
                    assert forall|i: int| 0 <= i < entries@.len() implies result[(
                    #[trigger] entries@[i]).0@] == entries@[i].1.deep_view() && result.contains_key(
                        entries@[i].0@,
                    ) by {
                        let j = if i < at {
                            i
                        } else {
                            i + 1
                        };
                        lemma_entry(before, j);
                        assert(keys[j] == entries@[i].0@);
                        assert(keys[at as int] == key@);
                    }
                    assert forall|k: Seq<char>| #[trigger] entry_keys(entries@).contains(
                        k,
                    ) implies result.contains_key(k) by {
                        let i = entry_keys(entries@).index_of(k);
                        assert(entries@[i].0@ == k);
                    }
                    lemma_entries_map(entries@, result);
                }
                self.entries = entries;
                Some(removed.1)
            },
            None => {
                assert(self@.remove(key@) =~= self@);
                None
            },
        }
    }
}

impl<V: Duplicate> StringMap<V> {
    /// Takes over the entries of `other` whose keys are missing here.
    pub fn add_missing(&mut self, other: &StringMap<V>)
        ensures
            final(self)@ == other@.union_prefer_right(old(self)@),
    {
        let ghost before = self@;
        let n = other.len();
        let ghost keys = other.keys();
        let mut i: usize = 0;
        while i < n
            invariant
                i <= n,
                n == keys.len(),
                keys == other.keys(),
                lists_keys(keys, other@),
                forall|k: Seq<char>| #[trigger]
                    self@.contains_key(k) <==> before.contains_key(k) || keys.take(
                        i as int,
                    ).contains(k),
                forall|k: Seq<char>| #[trigger]
                    self@.contains_key(k) ==> self@[k] == if before.contains_key(k) {
                        before[k]
                    } else {
                        other@[k]
                    },
            decreases n - i,
        {
            let ghost here = self@;
            let key = other.key_at(i);
            proof {
                assert(keys.take(i + 1) =~= keys.take(i as int).push(key@));
                assert forall|k: Seq<char>| #[trigger]
                    keys.take(i + 1).contains(k) <==> keys.take(i as int).contains(k) || k
                        == key@ by {
                    if keys.take(i as int).contains(k) {
                        let j = keys.take(i as int).index_of(k);
                        assert(keys.take(i + 1)[j] == k);
                    }
                    assert(keys.take(i + 1)[i as int] == key@);
                }
            }
            if !self.contains_key(key.as_str()) {
                self.insert(key.clone(), other.value_at(i).duplicate());
            }
            i = i + 1;
        }
        proof {
            assert(keys.take(n as int) =~= keys);
            assert forall|k: Seq<char>| #[trigger]
                keys.contains(k) <==> other@.contains_key(k) by {
                assert(keys.to_set().contains(k) <==> other@.dom().contains(k));
            }
            assert(self@ =~= other@.union_prefer_right(before));
        }
    }
}

impl<V: Duplicate> Duplicate for StringMap<V> {
    fn duplicate(&self) -> (copy: Self) {
        let mut copy = StringMap::new();
        copy.add_missing(self);
        assert(copy@ =~= self@);
        copy
    }
}

impl<V: DeepView> StringMap<V> {
    /// The entries whose keys occur in `other` too.
    pub fn retain_keys_of<W: DeepView>(self, other: &StringMap<W>) -> (kept: StringMap<V>)
        ensures
            kept@ == self@.restrict(other@.dom()),
    {
        proof {
            use_type_invariant(&self);
        }
        let mut kept = StringMap::new();
        let ghost all = self.entries@;
        let ghost keys = entry_keys(all);
        for entry in iter: self.entries
            invariant
                iter.seq() == all,
                keys == entry_keys(all),
                keys.no_duplicates(),
                forall|k: Seq<char>| #[trigger]
                    kept@.contains_key(k) <==> other@.contains_key(k) && keys.take(
                        iter.index() as int,
                    ).contains(k),
                forall|k: Seq<char>| #[trigger]
                    kept@.contains_key(k) ==> kept@[k] == entries_map(all)[k],
        {
            let ghost done = iter.index() as int;
            let (key, value) = entry;
            proof {
                lemma_entry(all, done);
                assert(keys[done] == key@);
                assert(keys.take(done + 1) =~= keys.take(done).push(key@));
                assert forall|k: Seq<char>| #[trigger]
                    keys.take(done + 1).contains(k) <==> keys.take(done).contains(k) || k
                        == key@ by {
                    if keys.take(done).contains(k) {
                        let j = keys.take(done).index_of(k);
                        assert(keys.take(done + 1)[j] == k);
                    }
                    assert(keys.take(done + 1)[done] == key@);
                }
            }
            if other.contains_key(key.as_str()) {
                kept.insert(key, value);
            }
        }
        proof {
            assert(keys.take(all.len() as int) =~= keys);
            assert(kept@ =~= self@.restrict(other@.dom()));
        }
        kept
    }
}

} // verus!
