//! The interfaces of all nodes, one record for each node and name.

use super::model;
use super::records::{InterfaceView, NodeInterface};
use crate::text;
use vstd::prelude::*;

verus! {

/// The node and the name by which an interface is found.
pub type InterfaceKey = (Seq<char>, Seq<char>);

/// The key of a record.
pub open spec fn key_of(i: NodeInterface) -> InterfaceKey {
    (i.node_id@, i.name@)
}

/// Whether one of the records has that key.
pub open spec fn has_row(rows: Seq<NodeInterface>, k: InterfaceKey) -> bool {
    exists|i: int| 0 <= i < rows.len() && key_of(#[trigger] rows[i]) == k
}

/// The place of the record with that key.
pub open spec fn row_index(rows: Seq<NodeInterface>, k: InterfaceKey) -> int {
    choose|i: int| 0 <= i < rows.len() && key_of(#[trigger] rows[i]) == k
}

/// No two records have the same key.
pub open spec fn rows_unique(rows: Seq<NodeInterface>) -> bool {
    forall|i: int, j: int|
        0 <= i < j < rows.len() ==> key_of(#[trigger] rows[i]) != key_of(#[trigger] rows[j])
}

/// The map that the records make.
pub open spec fn rows_map(rows: Seq<NodeInterface>) -> Map<InterfaceKey, InterfaceView> {
    Map::new(|k: InterfaceKey| has_row(rows, k), |k: InterfaceKey| rows[row_index(rows, k)]@)
}

/// A record is what the map holds under its key.
proof fn lemma_row(rows: Seq<NodeInterface>, i: int)
    requires
        rows_unique(rows),
        0 <= i < rows.len(),
    ensures
        has_row(rows, key_of(rows[i])),
        row_index(rows, key_of(rows[i])) == i,
        rows_map(rows).contains_key(key_of(rows[i])),
        rows_map(rows)[key_of(rows[i])] == rows[i]@,
{
    let k = row_index(rows, key_of(rows[i]));
    assert(0 <= k < rows.len() && key_of(rows[k]) == key_of(rows[i]));
    if k < i {
        assert(key_of(rows[k]) != key_of(rows[i]));
    }
    if i < k {
        assert(key_of(rows[i]) != key_of(rows[k]));
    }
}

/// Records that agree with a map, one for each of its keys, make that map.
proof fn lemma_rows_are(rows: Seq<NodeInterface>, m: Map<InterfaceKey, InterfaceView>)
    requires
        rows_unique(rows),
        forall|i: int| 0 <= i < rows.len() ==> m.contains_key(key_of(#[trigger] rows[i])),
        forall|i: int| 0 <= i < rows.len() ==> m[key_of(#[trigger] rows[i])] == rows[i]@,
        forall|k: InterfaceKey| m.contains_key(k) ==> has_row(rows, k),
    ensures
        rows_map(rows) == m,
{
    assert forall|k: InterfaceKey| #[trigger] has_row(rows, k) implies m.contains_key(k)
        && rows_map(rows)[k] == m[k] by {
        let i = row_index(rows, k);
        assert(0 <= i < rows.len() && key_of(rows[i]) == k);
    }
    assert(rows_map(rows) =~= m);
}

/// The interfaces of all nodes.
pub struct InterfaceTable {
    rows: Vec<NodeInterface>,
}

impl View for InterfaceTable {
    type V = Map<InterfaceKey, InterfaceView>;

    closed spec fn view(&self) -> Map<InterfaceKey, InterfaceView> {
        rows_map(self.rows@)
    }
}

impl InterfaceTable {
    #[verifier::type_invariant]
    spec fn inv(self) -> bool {
        rows_unique(self.rows@)
    }

    /// No interfaces.
    pub fn new() -> (t: Self)
        ensures
            t@ == Map::<InterfaceKey, InterfaceView>::empty(),
    {
        let t = InterfaceTable { rows: Vec::new() };
        assert(t@ =~= Map::<InterfaceKey, InterfaceView>::empty());
        t
    }

    /// Every record stands under its own node and name.
    pub fn keyed(&self)
        ensures
            forall|k: InterfaceKey| #[trigger]
                self@.contains_key(k) ==> (self@[k].node_id, self@[k].name) == k,
    {
        proof {
            use_type_invariant(self);
            assert forall|k: InterfaceKey| #[trigger] self@.contains_key(k) implies (
            self@[k].node_id, self@[k].name) == k by {
                let i = row_index(self.rows@, k);
                assert(0 <= i < self.rows@.len() && key_of(self.rows@[i]) == k);
            }
        }
    }

    fn find(&self, node_id: &str, name: &str) -> (r: Option<usize>)
        ensures
            match r {
                Some(i) => i < self.rows@.len() && key_of(self.rows@[i as int]) == (
                    node_id@,
                    name@,
                ) && self@.contains_key((node_id@, name@)) && self@[(node_id@, name@)]
                    == self.rows@[i as int]@,
                None => !self@.contains_key((node_id@, name@)),
            },
    {
        proof {
            use_type_invariant(self);
        }
        let mut i: usize = 0;
        while i < self.rows.len()
            invariant
                i <= self.rows@.len(),
                rows_unique(self.rows@),
                forall|j: int| 0 <= j < i ==> key_of(#[trigger] self.rows@[j]) != (node_id@, name@),
            decreases self.rows@.len() - i,
        {
            if text::same(self.rows[i].node_id.as_str(), node_id) && text::same(
                self.rows[i].name.as_str(),
                name,
            ) {
                proof {
                    lemma_row(self.rows@, i as int);
                }
                return Some(i);
            }
            i = i + 1;
        }
        None
    }

    /// The record of an interface.
    pub fn get(&self, node_id: &str, name: &str) -> (r: Option<&NodeInterface>)
        ensures
            match r {
                Some(i) => self@.contains_key((node_id@, name@)) && self@[(node_id@, name@)] == i@
                    && i.node_id@ == node_id@ && i.name@ == name@,
                None => !self@.contains_key((node_id@, name@)),
            },
    {
        match self.find(node_id, name) {
            Some(i) => Some(&self.rows[i]),
            None => None,
        }
    }

    /// Keeps a record, in place of one with its node and name.
    pub fn put(&mut self, row: NodeInterface)
        ensures
            final(self)@ == old(self)@.insert((row.node_id@, row.name@), row@),
    {
        proof {
            use_type_invariant(&*self);
        }
        let ghost before = self.rows@;
        let ghost m = self@.insert(key_of(row), row@);
        let found = self.find(row.node_id.as_str(), row.name.as_str());
        let mut rows: Vec<NodeInterface> = Vec::new();
        std::mem::swap(&mut rows, &mut self.rows);
        match found {
            Some(i) => {
                rows.set(i, row);
            },
            None => {
                rows.push(row);
            },
        }
        proof {
            let at = match found {
                Some(i) => i as int,
                None => before.len() as int,
            };
            assert forall|j: int| 0 <= j < rows@.len() implies #[trigger] rows@[j] == (if j == at {
                row
            } else {
                before[j]
            }) by {}
            assert forall|a: int, b: int| 0 <= a < b < rows@.len() implies key_of(
                #[trigger] rows@[a],
            ) != key_of(#[trigger] rows@[b]) by {
                if b < before.len() {
                    assert(key_of(before[a]) != key_of(before[b]));
                } else {
                    lemma_row(before, a);
                }
            }
            assert forall|j: int| 0 <= j < rows@.len() implies m.contains_key(
                key_of(#[trigger] rows@[j]),
            ) && m[key_of(rows@[j])] == rows@[j]@ by {
                if j < before.len() {
                    lemma_row(before, j);
                    if j != at && at < before.len() {
                        if j < at {
                            assert(key_of(before[j]) != key_of(before[at]));
                        } else {
                            assert(key_of(before[at]) != key_of(before[j]));
                        }
                    }
                }
            }
            assert forall|k: InterfaceKey| m.contains_key(k) implies has_row(rows@, k) by {
                if k == key_of(row) {
                    assert(key_of(rows@[at]) == k);
                } else {
                    let j = row_index(before, k);
                    assert(key_of(rows@[j]) == k);
                }
            }
            lemma_rows_are(rows@, m);
        }
        self.rows = rows;
    }

    /// Drops all interfaces of a node.
    pub fn remove_node(&mut self, node_id: &str)
        ensures
            final(self)@ == model::kept(
                old(self)@,
                |k: InterfaceKey, i: InterfaceView| k.0 != node_id@,
            ),
    {
        proof {
            use_type_invariant(&*self);
        }
        let ghost before = self.rows@;
        let ghost m = model::kept(self@, |k: InterfaceKey, i: InterfaceView| k.0 != node_id@);
        let mut rows: Vec<NodeInterface> = Vec::new();
        std::mem::swap(&mut rows, &mut self.rows);
        let mut out: Vec<NodeInterface> = Vec::new();
        let ghost mut n: int = 0;
        while rows.len() > 0
            invariant
                rows_unique(before),
                0 <= n <= before.len(),
                rows@ == before.skip(n),
                m == model::kept(
                    rows_map(before),
                    |k: InterfaceKey, i: InterfaceView| k.0 != node_id@,
                ),
                rows_unique(out@),
                forall|j: int|
                    0 <= j < out@.len() ==> m.contains_key(key_of(#[trigger] out@[j]))
                        && m[key_of(out@[j])] == out@[j]@ && row_index(before, key_of(out@[j]))
                        < n,
                forall|j: int|
                    0 <= j < n && (#[trigger] before[j]).node_id@ != node_id@ ==> has_row(
                        out@,
                        key_of(before[j]),
                    ),
            decreases rows@.len(),
        {
            let ghost held = out@;
            let row = rows.remove(0);
            proof {
                assert(row == before[n]);
                lemma_row(before, n);
                assert(rows@ =~= before.skip(n + 1));
            }
            if !text::same(row.node_id.as_str(), node_id) {
                out.push(row);
                proof {
                    assert forall|a: int, b: int| 0 <= a < b < out@.len() implies key_of(
                        #[trigger] out@[a],
                    ) != key_of(#[trigger] out@[b]) by {
                        if b < held.len() {
                            assert(key_of(held[a]) != key_of(held[b]));
                        } else {
                            assert(row_index(before, key_of(held[a])) < n);
                        }
                    }
                }
            }
            proof {
                assert forall|j: int|
                    0 <= j < n + 1 && (#[trigger] before[j]).node_id@ != node_id@ implies has_row(
                    out@,
                    key_of(before[j]),
                ) by {
                    if j < n {
                        let i = row_index(held, key_of(before[j]));
                        assert(key_of(held[i]) == key_of(before[j]));
                        assert(key_of(out@[i]) == key_of(before[j]));
                    } else {
                        assert(key_of(out@[held.len() as int]) == key_of(before[j]));
                    }
                }
                n = n + 1;
            }
        }
        proof {
            assert forall|k: InterfaceKey| m.contains_key(k) implies has_row(out@, k) by {
                let j = row_index(before, k);
                assert(0 <= j < before.len() && key_of(before[j]) == k);
            }
            lemma_rows_are(out@, m);
        }
        self.rows = out;
    }

    /// All records.
    pub fn list(&self) -> (v: Vec<NodeInterface>)
        ensures
            model::lists(
                super::interface_views(v@),
                self@,
                |i: InterfaceView| true,
            ),
    {
        proof {
            use_type_invariant(self);
        }
        let mut v: Vec<NodeInterface> = Vec::new();
        let ghost mut ks: Seq<InterfaceKey> = Seq::empty();
        let mut i: usize = 0;
        while i < self.rows.len()
            invariant
                i <= self.rows@.len(),
                rows_unique(self.rows@),
                ks.len() == i,
                v@.len() == i,
                forall|j: int| 0 <= j < i ==> #[trigger] ks[j] == key_of(self.rows@[j]),
                forall|j: int| 0 <= j < i ==> (#[trigger] v@[j])@ == self.rows@[j]@,
            decreases self.rows@.len() - i,
        {
            v.push(self.rows[i].clone());
            proof {
                ks = ks.push(key_of(self.rows@[i as int]));
            }
            i = i + 1;
        }
        proof {
            let out = super::interface_views(v@);
            assert(ks.no_duplicates()) by {
                assert forall|a: int, b: int| 0 <= a < b < ks.len() implies ks[a] != ks[b] by {
                    assert(key_of(self.rows@[a]) != key_of(self.rows@[b]));
                }
            }
            assert forall|j: int| 0 <= j < ks.len() implies self@.contains_key(#[trigger] ks[j])
                && self@[ks[j]] == out[j] by {
                lemma_row(self.rows@, j);
            }
            assert forall|k: InterfaceKey| self@.contains_key(k) implies ks.contains(k) by {
                let j = row_index(self.rows@, k);
                assert(ks[j] == k);
            }
            assert(model::lists_keys(out, self@, |i: InterfaceView| true, ks));
        }
        v
    }

    /// The records of one node.
    pub fn list_node(&self, node_id: &str) -> (v: Vec<NodeInterface>)
        ensures
            model::lists(
                super::interface_views(v@),
                self@,
                |i: InterfaceView| i.node_id == node_id@,
            ),
    {
        proof {
            use_type_invariant(self);
        }
        let ghost keep = |i: InterfaceView| i.node_id == node_id@;
        let mut v: Vec<NodeInterface> = Vec::new();
        let ghost mut ks: Seq<InterfaceKey> = Seq::empty();
        let mut i: usize = 0;
        while i < self.rows.len()
            invariant
                i <= self.rows@.len(),
                rows_unique(self.rows@),
                keep == (|i: InterfaceView| i.node_id == node_id@),
                ks.len() == v@.len(),
                ks.no_duplicates(),
                forall|j: int|
                    0 <= j < ks.len() ==> self@.contains_key(#[trigger] ks[j]) && self@[ks[j]]
                        == v@[j]@ && keep(v@[j]@) && row_index(self.rows@, ks[j]) < i,
                forall|j: int|
                    0 <= j < i && keep((#[trigger] self.rows@[j])@) ==> ks.contains(
                        key_of(self.rows@[j]),
                    ),
            decreases self.rows@.len() - i,
        {
            let ghost held = ks;
            let ghost listed = v@;
            proof {
                lemma_row(self.rows@, i as int);
            }
            if text::same(self.rows[i].node_id.as_str(), node_id) {
                v.push(self.rows[i].clone());
                proof {
                    ks = ks.push(key_of(self.rows@[i as int]));
                    assert(ks[held.len() as int] == key_of(self.rows@[i as int]));
                    assert(v@[held.len() as int]@ == self.rows@[i as int]@);
                    assert(keep(self.rows@[i as int]@));
                    assert forall|j: int| 0 <= j < ks.len() implies self@.contains_key(
                        #[trigger] ks[j],
                    ) && self@[ks[j]] == v@[j]@ && keep(v@[j]@) && row_index(self.rows@, ks[j]) < i
                        + 1 by {
                        if j < held.len() {
                            assert(held[j] == ks[j]);
                            assert(listed[j] == v@[j]);
                        }
                    }
                    assert(ks.no_duplicates()) by {
                        assert forall|a: int, b: int| 0 <= a < b < ks.len() implies ks[a]
                            != ks[b] by {
                            if b == held.len() {
                                assert(row_index(self.rows@, held[a]) < i);
                            }
                        }
                    }
                }
            }
            proof {
                assert forall|j: int|
                    0 <= j < i + 1 && keep((#[trigger] self.rows@[j])@) implies ks.contains(
                    key_of(self.rows@[j]),
                ) by {
                    if j < i {
                        let a = choose|a: int| 0 <= a < held.len() && held[a] == key_of(
                            self.rows@[j],
                        );
                        assert(ks[a] == key_of(self.rows@[j]));
                    }
                }
            }
            i = i + 1;
        }
        proof {
            let out = super::interface_views(v@);
            assert forall|k: InterfaceKey|
                self@.contains_key(k) && #[trigger] keep(self@[k]) implies ks.contains(k) by {
                let j = row_index(self.rows@, k);
                assert(0 <= j < self.rows@.len() && key_of(self.rows@[j]) == k);
                lemma_row(self.rows@, j);
            }
            assert(model::lists_keys(out, self@, keep, ks));
        }
        v
    }
}

} // verus!
