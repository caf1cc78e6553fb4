//! The latest metrics of each node.

use crate::store::records::{self, copy_bytes};
use crate::strmap::{self, StrMap};
use crate::text;
use crate::timestamp::Timestamp;
use vstd::prelude::*;

verus! {

broadcast use vstd::string::group_string_axioms;

/// Most-recent metrics snapshot for one node.
pub struct NodeMetrics {
    pub received_at: Timestamp,
    pub timestamp_ns: u64,
    /// Raw Prometheus exposition text (UTF-8, but stored as bytes).
    pub prometheus_text: Vec<u8>,
    /// Hostname reported by the node agent, if known.
    pub hostname: Option<String>,
}

/// What a metrics snapshot holds.
pub struct MetricsView {
    pub received_at: Timestamp,
    pub timestamp_ns: u64,
    pub prometheus_text: Seq<u8>,
    pub hostname: Option<Seq<char>>,
}

impl View for NodeMetrics {
    type V = MetricsView;

    open spec fn view(&self) -> MetricsView {
        MetricsView {
            received_at: self.received_at,
            timestamp_ns: self.timestamp_ns,
            prometheus_text: self.prometheus_text@,
            hostname: text::opt_text(self.hostname),
        }
    }
}

/// Stores the most-recent Prometheus metrics snapshot per node.
///
/// The management stream calls `update()` each time a `MetricsUpdate`
/// arrives. Readers call `get()` or `all_node_ids()`.
pub struct MetricsStore {
    data: StrMap<NodeMetrics>,
}

impl View for MetricsStore {
    type V = Map<Seq<char>, MetricsView>;

    closed spec fn view(&self) -> Map<Seq<char>, MetricsView> {
        self.data@.map_values(|m: NodeMetrics| m@)
    }
}

impl MetricsStore {
    /// No metrics yet.
    pub fn new() -> (s: Self)
        ensures
            s@ == Map::<Seq<char>, MetricsView>::empty(),
    {
        let s = MetricsStore { data: StrMap::new() };
        assert(s@ =~= Map::<Seq<char>, MetricsView>::empty());
        s
    }

    /// Store (or replace) the latest metrics snapshot for `node_id`.
    pub fn update(
        &mut self,
        node_id: &str,
        timestamp_ns: u64,
        prometheus_text: Vec<u8>,
        hostname: Option<String>,
        received_at: Timestamp,
    )
        ensures
            final(self)@ == old(self)@.insert(
                node_id@,
                MetricsView {
                    received_at,
                    timestamp_ns,
                    prometheus_text: prometheus_text@,
                    hostname: text::opt_text(hostname),
                },
            ),
    {
        let m = NodeMetrics { received_at, timestamp_ns, prometheus_text, hostname };
        self.data.insert(node_id.to_string(), m);
        assert(self@ =~= old(self)@.insert(node_id@, m@));
    }

    /// Retrieve the latest metrics text for a node. Returns `None` if no data
    /// has been received yet.
    pub fn get(&self, node_id: &str) -> (r: Option<Vec<u8>>)
        ensures
            match r {
                Some(t) => self@.contains_key(node_id@) && t@ == self@[node_id@].prometheus_text,
                None => !self@.contains_key(node_id@),
            },
    {
        match self.data.get(node_id) {
            Some(m) => Some(copy_bytes(m.prometheus_text.as_slice())),
            None => None,
        }
    }

    /// Retrieve the hostname for a node. Returns `None` if no data has been
    /// received yet or no hostname was reported.
    pub fn get_hostname(&self, node_id: &str) -> (r: Option<String>)
        ensures
            text::opt_text(r) == (if self@.contains_key(node_id@) {
                self@[node_id@].hostname
            } else {
                None
            }),
    {
        match self.data.get(node_id) {
            Some(m) => records::copy_opt(&m.hostname),
            None => None,
        }
    }

    /// IDs of all nodes for which at least one metrics snapshot has been stored,
    /// each once.
    pub fn all_node_ids(&self) -> (v: Vec<String>)
        ensures
            text::texts(v@).no_duplicates(),
            forall|id: Seq<char>| #[trigger]
                text::texts(v@).contains(id) <==> self@.contains_key(id),
    {
        let ghost es = self.data.entries();
        let n: usize = self.data.len();
        let mut v: Vec<String> = Vec::new();
        let mut i: usize = 0;
        while i < n
            invariant
                i <= n == es.len(),
                es == self.data.entries(),
                v@.len() == i,
                forall|j: int| 0 <= j < i ==> (#[trigger] v@[j])@ == es[j].0@,
            decreases n - i,
        {
            let (k, _m) = self.data.at(i);
            v.push(k.clone());
            i = i + 1;
        }
        proof {
            let ids = text::texts(v@);
            assert(ids.no_duplicates()) by {
                assert forall|a: int, b: int| 0 <= a < b < ids.len() implies ids[a] != ids[b] by {
                    assert(v@[a]@ != v@[b]@) by {
                        assert(es[a].0@ != es[b].0@);
                    }
                }
            }
            assert forall|id: Seq<char>| #[trigger] ids.contains(id) <==> self@.contains_key(
                id,
            ) by {
                if ids.contains(id) {
                    let j = choose|j: int| 0 <= j < ids.len() && ids[j] == id;
                    assert(v@[j]@ == id);
                    strmap::lemma_entry(es, j);
                }
                if self@.contains_key(id) {
                    let j = strmap::key_index(es, id);
                    assert(0 <= j < es.len() && es[j].0@ == id);
                    assert(v@[j]@ == id);
                    assert(ids[j] == id);
                }
            }
        }
        v
    }
}

} // verus!
