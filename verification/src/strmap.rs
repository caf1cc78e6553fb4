//! A map from text to values, kept in the order in which its keys came.

use crate::text;
use vstd::prelude::*;

verus! {

/// Whether one of the keys is `k`.
pub open spec fn has_key<V>(es: Seq<(String, V)>, k: Seq<char>) -> bool {
    exists|i: int| 0 <= i < es.len() && (#[trigger] es[i]).0@ == k
}

/// The place of the key `k`.
pub open spec fn key_index<V>(es: Seq<(String, V)>, k: Seq<char>) -> int {
    choose|i: int| 0 <= i < es.len() && (#[trigger] es[i]).0@ == k
}

/// No key occurs twice.
pub open spec fn keys_unique<V>(es: Seq<(String, V)>) -> bool {
    forall|i: int, j: int|
        0 <= i < j < es.len() ==> (#[trigger] es[i]).0@ != (#[trigger] es[j]).0@
}

/// The map that the entries make.
pub open spec fn entries_map<V>(es: Seq<(String, V)>) -> Map<Seq<char>, V> {
    Map::new(|k: Seq<char>| has_key(es, k), |k: Seq<char>| es[key_index(es, k)].1)
}

/// A map to strings as a map to text.
pub open spec fn texts(m: Map<Seq<char>, String>) -> Map<Seq<char>, Seq<char>> {
    m.map_values(|s: String| s@)
}

/// An entry is what the map holds under its key.
pub proof fn lemma_entry<V>(es: Seq<(String, V)>, i: int)
    requires
        keys_unique(es),
        0 <= i < es.len(),
    ensures
        has_key(es, es[i].0@),
        key_index(es, es[i].0@) == i,
        entries_map(es).contains_key(es[i].0@),
        entries_map(es)[es[i].0@] == es[i].1,
{
    let k = key_index(es, es[i].0@);
    assert(0 <= k < es.len() && es[k].0@ == es[i].0@);
    if k < i {
        assert(es[k].0@ != es[i].0@);
    }
    if i < k {
        assert(es[i].0@ != es[k].0@);
    }
}

/// Entries that agree with a map, one for each of its keys, make that map.
pub proof fn lemma_entries_are<V>(es: Seq<(String, V)>, m: Map<Seq<char>, V>)
    requires
        keys_unique(es),
        forall|i: int| 0 <= i < es.len() ==> m.contains_key((#[trigger] es[i]).0@),
        forall|i: int| 0 <= i < es.len() ==> m[(#[trigger] es[i]).0@] == es[i].1,
        forall|k: Seq<char>| m.contains_key(k) ==> has_key(es, k),
    ensures
        entries_map(es) == m,
{
    assert forall|k: Seq<char>| #[trigger] has_key(es, k) implies m.contains_key(k)
        && entries_map(es)[k] == m[k] by {
        let i = key_index(es, k);
        assert(0 <= i < es.len() && es[i].0@ == k);
    }
    assert(entries_map(es) =~= m);
}

/// A map from text to values.
#[derive(Debug)]
pub struct StrMap<V> {
    entries: Vec<(String, V)>,
}

impl<V> View for StrMap<V> {
    type V = Map<Seq<char>, V>;

    closed spec fn view(&self) -> Map<Seq<char>, V> {
        entries_map(self.entries@)
    }
}

impl<V> StrMap<V> {
    /// The entries in the order in which their keys came.
    pub closed spec fn entries(&self) -> Seq<(String, V)> {
        self.entries@
    }

    #[verifier::type_invariant]
    spec fn inv(self) -> bool {
        keys_unique(self.entries@)
    }

    /// A map without entries.
    pub fn new() -> (m: Self)
        ensures
            m@ == Map::<Seq<char>, V>::empty(),
            m.entries().len() == 0,
    {
        let m = StrMap { entries: Vec::new() };
        assert(m@ =~= Map::<Seq<char>, V>::empty());
        m
    }

    /// How many entries there are.
    pub fn len(&self) -> (n: usize)
        ensures
            n == self.entries().len(),
            keys_unique(self.entries()),
            self@ == entries_map(self.entries()),
            self@.dom().finite(),
            n == self@.dom().len(),
    {
        proof {
            use_type_invariant(self);
            lemma_count(self.entries@);
        }
        self.entries.len()
    }

    /// The entry at a place.
    pub fn at(&self, i: usize) -> (e: (&String, &V))
        requires
            i < self.entries().len(),
        ensures
            *e.0 == self.entries()[i as int].0,
            *e.1 == self.entries()[i as int].1,
            self@.contains_key(e.0@),
            self@[e.0@] == *e.1,
    {
        proof {
            use_type_invariant(self);
            lemma_entry(self.entries@, i as int);
        }
        let e = &self.entries[i];
        (&e.0, &e.1)
    }

    /// The place of a key.
    pub fn find(&self, key: &str) -> (r: Option<usize>)
        ensures
            match r {
                Some(i) => i < self.entries().len() && self.entries()[i as int].0@ == key@
                    && self@.contains_key(key@) && self@[key@] == self.entries()[i as int].1,
                None => !self@.contains_key(key@),
            },
    {
        proof {
            use_type_invariant(self);
        }
        let mut i: usize = 0;
        while i < self.entries.len()
            invariant
                i <= self.entries@.len(),
                keys_unique(self.entries@),
                forall|j: int| 0 <= j < i ==> (#[trigger] self.entries@[j]).0@ != key@,
            decreases self.entries@.len() - i,
        {
            if text::same(self.entries[i].0.as_str(), key) {
                proof {
                    lemma_entry(self.entries@, i as int);
                }
                return Some(i);
            }
            i = i + 1;
        }
        None
    }

    /// The value under a key.
    pub fn get(&self, key: &str) -> (r: Option<&V>)
        ensures
            match r {
                Some(v) => self@.contains_key(key@) && self@[key@] == *v,
                None => !self@.contains_key(key@),
            },
    {
        match self.find(key) {
            Some(i) => Some(&self.entries[i].1),
            None => None,
        }
    }

    /// Whether there is a value under the key.
    pub fn contains_key(&self, key: &str) -> (r: bool)
        ensures
            r == self@.contains_key(key@),
    {
        self.find(key).is_some()
    }

    /// Puts the value under the key, in place of what was there.
    pub fn insert(&mut self, key: String, value: V)
        ensures
            final(self)@ == old(self)@.insert(key@, value),
    {
        proof {
            use_type_invariant(&*self);
        }
        let ghost before = self.entries@;
        let ghost m = self@.insert(key@, value);
        let found = self.find(key.as_str());
        let mut es: Vec<(String, V)> = Vec::new();
        std::mem::swap(&mut es, &mut self.entries);
        match found {
            Some(i) => {
                es.set(i, (key, value));
                proof {
                    lemma_replaced(before, i as int, key, value);
                }
            },
            None => {
                es.push((key, value));
                proof {
                    lemma_added(before, key, value);
                }
            },
        }
        self.entries = es;
    }

    /// Removes the entry under the key, and hands out its value.
    pub fn remove(&mut self, key: &str) -> (r: Option<V>)
        ensures
            final(self)@ == old(self)@.remove(key@),
            match r {
                Some(v) => old(self)@.contains_key(key@) && old(self)@[key@] == v,
                None => !old(self)@.contains_key(key@),
            },
    {
        proof {
            use_type_invariant(&*self);
        }
        let ghost before = self.entries@;
        match self.find(key) {
            Some(i) => {
                let mut es: Vec<(String, V)> = Vec::new();
                std::mem::swap(&mut es, &mut self.entries);
                let (_k, v) = es.remove(i);
                proof {
                    lemma_removed(before, i as int);
                    assert(es@ =~= before.remove(i as int));
                }
                self.entries = es;
                Some(v)
            },
            None => {
                assert(self@.remove(key@) =~= self@);
                None
            },
        }
    }
}

/// Replacing the value of an entry changes the map under its key alone.
proof fn lemma_replaced<V>(es: Seq<(String, V)>, i: int, key: String, value: V)
    requires
        keys_unique(es),
        0 <= i < es.len(),
        es[i].0@ == key@,
    ensures
        keys_unique(es.update(i, (key, value))),
        entries_map(es.update(i, (key, value))) == entries_map(es).insert(key@, value),
{
    let after = es.update(i, (key, value));
    let m = entries_map(es).insert(key@, value);
    assert forall|a: int, b: int| 0 <= a < b < after.len() implies (#[trigger] after[a]).0@ != (
    #[trigger] after[b]).0@ by {
        assert(es[a].0@ != es[b].0@);
    }
    assert forall|j: int| 0 <= j < after.len() implies m.contains_key((#[trigger] after[j]).0@)
        && m[after[j].0@] == after[j].1 by {
        lemma_entry(es, j);
        if j != i {
            if j < i {
                assert(es[j].0@ != es[i].0@);
            } else {
                assert(es[i].0@ != es[j].0@);
            }
        }
    }
    assert forall|k: Seq<char>| m.contains_key(k) implies has_key(after, k) by {
        if k == key@ {
            assert(after[i].0@ == k);
        } else {
            let j = key_index(es, k);
            assert(after[j].0@ == k);
        }
    }
    lemma_entries_are(after, m);
}

/// An entry under a new key adds to the map.
proof fn lemma_added<V>(es: Seq<(String, V)>, key: String, value: V)
    requires
        keys_unique(es),
        !has_key(es, key@),
    ensures
        keys_unique(es.push((key, value))),
        entries_map(es.push((key, value))) == entries_map(es).insert(key@, value),
{
    let after = es.push((key, value));
    let m = entries_map(es).insert(key@, value);
    assert forall|a: int, b: int| 0 <= a < b < after.len() implies (#[trigger] after[a]).0@ != (
    #[trigger] after[b]).0@ by {
        assert(after[a] == es[a]);
        if b < es.len() {
            assert(es[a].0@ != es[b].0@);
        }
    }
    assert forall|j: int| 0 <= j < after.len() implies m.contains_key((#[trigger] after[j]).0@)
        && m[after[j].0@] == after[j].1 by {
        if j < es.len() {
            lemma_entry(es, j);
        }
    }
    assert forall|k: Seq<char>| m.contains_key(k) implies has_key(after, k) by {
        if k == key@ {
            assert(after[es.len() as int].0@ == k);
        } else {
            let j = key_index(es, k);
            assert(after[j].0@ == k);
        }
    }
    lemma_entries_are(after, m);
}

/// Removing an entry removes its key from the map.
proof fn lemma_removed<V>(es: Seq<(String, V)>, i: int)
    requires
        keys_unique(es),
        0 <= i < es.len(),
    ensures
        keys_unique(es.remove(i)),
        entries_map(es.remove(i)) == entries_map(es).remove(es[i].0@),
{
    let after = es.remove(i);
    let m = entries_map(es).remove(es[i].0@);
    assert forall|j: int| 0 <= j < after.len() implies #[trigger] after[j] == es[if j < i {
        j
    } else {
        j + 1
    }] by {}
    assert forall|a: int, b: int| 0 <= a < b < after.len() implies (#[trigger] after[a]).0@ != (
    #[trigger] after[b]).0@ by {
        let x = if a < i {
            a
        } else {
            a + 1
        };
        let y = if b < i {
            b
        } else {
            b + 1
        };
        assert(es[x].0@ != es[y].0@);
    }
    assert forall|j: int| 0 <= j < after.len() implies m.contains_key((#[trigger] after[j]).0@)
        && m[after[j].0@] == after[j].1 by {
        let x = if j < i {
            j
        } else {
            j + 1
        };
        lemma_entry(es, x);
        lemma_entry(es, i);
    }
    assert forall|k: Seq<char>| m.contains_key(k) implies has_key(after, k) by {
        let x = key_index(es, k);
        let j = if x < i {
            x
        } else {
            x - 1
        };
        assert(after[j].0@ == k);
    }
    lemma_entries_are(after, m);
}

/// There are as many keys as entries.
proof fn lemma_count<V>(es: Seq<(String, V)>)
    requires
        keys_unique(es),
    ensures
        entries_map(es).dom().finite(),
        entries_map(es).dom().len() == es.len(),
{
    let keys = es.map_values(|e: (String, V)| e.0@);
    assert(keys.no_duplicates()) by {
        assert forall|i: int, j: int| 0 <= i < j < keys.len() implies keys[i] != keys[j] by {
            assert(es[i].0@ != es[j].0@);
        }
    }
    keys.unique_seq_to_set();
    assert(keys.to_set() =~= entries_map(es).dom()) by {
        assert forall|k: Seq<char>| keys.to_set().contains(k) == entries_map(es).dom().contains(
            k,
        ) by {
            if keys.contains(k) {
                let i = choose|i: int| 0 <= i < keys.len() && keys[i] == k;
                assert(es[i].0@ == k);
            }
            if has_key(es, k) {
                let i = key_index(es, k);
                assert(keys[i] == k);
            }
        }
    }
}

} // verus!
