//! Prometheus metrics of the fleet.

use super::Reply;
use crate::metrics_parser;
use crate::metrics_store::{MetricsStore, MetricsView};
use crate::order::{self, Ranked};
use crate::text;
use vstd::prelude::*;

verus! {

broadcast use vstd::string::group_string_axioms;

/// The metrics of a node as text, if they are UTF-8.
pub open spec fn metrics_text(m: MetricsView) -> Option<Seq<char>> {
    if vstd::utf8::valid_utf8(m.prometheus_text) {
        Some(vstd::utf8::decode_utf8(m.prometheus_text))
    } else {
        None
    }
}

/// Whether labels can be added to the metrics of a node.
pub open spec fn can_label(m: MetricsView) -> bool {
    metrics_text(m) matches Some(t) ==> metrics_parser::labelable(t)
}

/// The metrics text of a node, every sample of which names the node.
pub open spec fn labeled(m: MetricsView, node_id: Seq<char>, t: Seq<char>) -> Seq<char> {
    metrics_parser::labeled_lines(
        text::lines(t),
        metrics_parser::node_labels(node_id, m.hostname),
    )
}

/// Serve the most-recent Prometheus metrics for one node.
///
/// Each metric line is rewritten to include a `node_id="<id>"` label so that
/// a Prometheus server scraping this endpoint can distinguish per-node series.
pub fn metrics_node(store: &MetricsStore, node_id: &str) -> (r: Reply)
    requires
        store@.contains_key(node_id@) ==> can_label(store@[node_id@]),
    ensures
        if store@.contains_key(node_id@) {
            let m = store@[node_id@];
            super::replies(
                r,
                super::OK,
                labeled(
                    m,
                    node_id@,
                    match metrics_text(m) {
                        Some(t) => t,
                        None => ""@,
                    },
                ),
            )
        } else {
            super::replies(
                r,
                super::NOT_FOUND,
                "No metrics stored for node '"@ + node_id@ + "'"@,
            )
        },
{
    match store.get(node_id) {
        Some(bytes) => {
            let raw: String = match text::from_utf8(bytes.as_slice()) {
                Some(t) => t,
                None => {
                    proof {
                        lemma_empty_is_labelable();
                    }
                    "".to_string()
                },
            };
            let hostname = store.get_hostname(node_id);
            let body = metrics_parser::inject_node_label(
                raw.as_str(),
                node_id,
                lend(&hostname),
            );
            Reply { status: super::OK, body }
        },
        None => Reply {
            status: super::NOT_FOUND,
            body: text::concat3("No metrics stored for node '", node_id, "'"),
        },
    }
}

/// Nothing is a sample in an empty text.
proof fn lemma_empty_is_labelable()
    ensures
        metrics_parser::labelable(""@),
{
    reveal_strlit("");
    assert(text::lines(""@) =~= Seq::<Seq<char>>::empty());
}

/// The text, lent.
fn lend(o: &Option<String>) -> (r: Option<&str>)
    ensures
        text::opt_str(r) == text::opt_text(*o),
{
    match o {
        Some(s) => Some(s.as_str()),
        None => None,
    }
}

/// Whether the sequence has the ids of the set, in ascending order, each once.
pub open spec fn lists(ids: Seq<Seq<char>>, set: Set<Seq<char>>) -> bool {
    &&& forall|i: int, j: int|
        0 <= i < j < ids.len() ==> text::at_most(#[trigger] ids[i], #[trigger] ids[j]) && ids[i]
            != ids[j]
    &&& forall|id: Seq<char>| #[trigger] ids.contains(id) <==> set.contains(id)
}

/// There is only one way to list a set.
pub proof fn lists_one_way(a: Seq<Seq<char>>, b: Seq<Seq<char>>, set: Set<Seq<char>>)
    requires
        lists(a, set),
        lists(b, set),
    ensures
        a == b,
    decreases a.len(),
{
    if a.len() == 0 {
        if b.len() > 0 {
            assert(b.contains(b[0]));
            assert(a.contains(b[0]));
        }
        assert(a =~= b);
    } else {
        assert(a.contains(a.last()));
        assert(b.contains(a.last()));
        assert(b.contains(b.last()));
        assert(a.contains(b.last()));
        let i = choose|i: int| 0 <= i < b.len() && b[i] == a.last();
        let j = choose|j: int| 0 <= j < a.len() && a[j] == b.last();
        if a.last() != b.last() {
            assert(text::at_most(b[i], b[b.len() - 1]));
            assert(text::at_most(a[j], a[a.len() - 1]));
            text::at_most_antisymmetric(a.last(), b.last());
        }
        let x = a.last();
        let rest = set.remove(x);
        assert(lists(a.drop_last(), rest)) by {
            lemma_lists_but_last(a, set);
        }
        assert(lists(b.drop_last(), rest)) by {
            lemma_lists_but_last(b, set);
        }
        lists_one_way(a.drop_last(), b.drop_last(), rest);
        assert(a =~= a.drop_last().push(x));
        assert(b =~= b.drop_last().push(x));
    }
}

/// A list without its last id lists the set without it.
proof fn lemma_lists_but_last(a: Seq<Seq<char>>, set: Set<Seq<char>>)
    requires
        lists(a, set),
        a.len() > 0,
    ensures
        lists(a.drop_last(), set.remove(a.last())),
{
    let d = a.drop_last();
    assert forall|i: int, j: int| 0 <= i < j < d.len() implies text::at_most(
        #[trigger] d[i],
        #[trigger] d[j],
    ) && d[i] != d[j] by {
        assert(d[i] == a[i] && d[j] == a[j]);
    }
    assert forall|id: Seq<char>| #[trigger] d.contains(id) <==> set.remove(a.last()).contains(
        id,
    ) by {
        if d.contains(id) {
            let i = choose|i: int| 0 <= i < d.len() && d[i] == id;
            assert(a[i] == id);
            assert(a.contains(id));
            assert(a[i] != a[a.len() - 1]);
        }
        if set.remove(a.last()).contains(id) {
            assert(a.contains(id));
            let i = choose|i: int| 0 <= i < a.len() && a[i] == id;
            assert(d[i] == id);
        }
    }
}

/// The block of one node: a header, its metrics, and an empty line.
pub open spec fn node_block(m: MetricsView, node_id: Seq<char>) -> Seq<char> {
    "# node: "@ + node_id + "\n"@ + (match metrics_text(m) {
        Some(t) => labeled(m, node_id, t),
        None => "# (non-UTF-8 metrics, skipped)\n"@,
    }) + "\n"@
}

/// The blocks of nodes, one behind the other.
pub open spec fn node_blocks(ids: Seq<Seq<char>>, store: Map<Seq<char>, MetricsView>) -> Seq<char>
    decreases ids.len(),
{
    if ids.len() == 0 {
        Seq::empty()
    } else {
        node_blocks(ids.drop_last(), store) + node_block(store[ids.last()], ids.last())
    }
}

/// What follows the blocks of the nodes: the controller's own metrics.
pub open spec fn own_blocks(fleet: Seq<char>, events: Seq<char>, alerts: Seq<char>) -> Seq<char> {
    (if fleet.len() > 0 {
        "# controller fleet metrics\n"@ + fleet
    } else {
        Seq::empty()
    }) + "\n# event pipeline metrics\n"@ + events + "\n# alert pipeline metrics\n"@ + alerts
}

/// Whether the text serves the metrics of all nodes, in the order of their ids, and then
/// the controller's own.
pub open spec fn serves_all(
    out: Seq<char>,
    ids: Seq<Seq<char>>,
    store: Map<Seq<char>, MetricsView>,
    own: Seq<char>,
) -> bool {
    lists(ids, store.dom()) && out == node_blocks(ids, store) + own
}

/// Serve the most-recent Prometheus metrics for ALL nodes, concatenated, plus
/// controller-native metrics.
///
/// Each node's block is preceded by a `# node: <id>` comment header and every
/// metric line carries a `node_id="<id>"` label, so a single Prometheus scrape
/// of this endpoint yields properly-labelled multi-node series.  After the
/// forwarded engine metrics come what only the controller knows of its fleet, and its
/// event and alert counters.
pub fn metrics_all(store: &MetricsStore, fleet: &str, events: &str, alerts: &str) -> (out: String)
    requires
        forall|id: Seq<char>| #[trigger]
            store@.contains_key(id) ==> can_label(store@[id]),
    ensures
        exists|ids: Seq<Seq<char>>| #[trigger]
            serves_all(out@, ids, store@, own_blocks(fleet@, events@, alerts@)),
{
    let found = store.all_node_ids();
    let ghost given = found@;
    let node_ids = order::sort(found);
    let ghost ids = text::texts(node_ids@);
    proof {
        lemma_sorted_lists(given, store@.dom());
    }
    let mut out: String = String::new();
    let mut i: usize = 0;
    assert(ids.take(0) =~= Seq::<Seq<char>>::empty());
    while i < node_ids.len()
        invariant
            i <= node_ids@.len(),
            ids == text::texts(node_ids@),
            lists(ids, store@.dom()),
            forall|id: Seq<char>| #[trigger]
                store@.contains_key(id) ==> can_label(store@[id]),
            out@ == node_blocks(ids.take(i as int), store@),
        decreases node_ids@.len() - i,
    {
        let node_id: &str = node_ids[i].as_str();
        proof {
            assert(ids[i as int] == node_id@);
            assert(ids.contains(node_id@));
            assert(store@.contains_key(node_id@));
            assert(ids.take(i + 1).drop_last() =~= ids.take(i as int));
            assert(ids.take(i + 1).last() == node_id@);
        }
        let ghost before = out@;
        if let Some(bytes) = store.get(node_id) {
            out.push_str("# node: ");
            out.push_str(node_id);
            out.push_str("\n");
            let hostname = store.get_hostname(node_id);
            match text::from_utf8(bytes.as_slice()) {
                Some(t) => {
                    let block = metrics_parser::inject_node_label(
                        t.as_str(),
                        node_id,
                        lend(&hostname),
                    );
                    out.push_str(block.as_str());
                },
                None => {
                    out.push_str("# (non-UTF-8 metrics, skipped)\n");
                },
            }
            out.push_str("\n");
        }
        assert(out@ =~= before + node_block(store@[node_id@], node_id@));
        i = i + 1;
    }
    assert(ids.take(i as int) =~= ids);
    let ghost blocks = out@;
    if !fleet.is_empty() {
        out.push_str("# controller fleet metrics\n");
        out.push_str(fleet);
    }
    out.push_str("\n# event pipeline metrics\n");
    out.push_str(events);
    out.push_str("\n# alert pipeline metrics\n");
    out.push_str(alerts);
    proof {
        let own = own_blocks(fleet@, events@, alerts@);
        assert(out@ =~= blocks + own);
        assert(serves_all(out@, ids, store@, own));
    }
    out
}

/// Sorting the ids of a set, each given once, lists it.
proof fn lemma_sorted_lists(given: Seq<String>, set: Set<Seq<char>>)
    requires
        text::texts(given).no_duplicates(),
        forall|id: Seq<char>| #[trigger] text::texts(given).contains(id) <==> set.contains(id),
    ensures
        lists(text::texts(order::in_order(given)), set),
{
    let sorted = order::in_order(given);
    let ids = text::texts(sorted);
    let f = |s: String| s@;
    order::in_order_sorts(given);
    order::lemma_views_same_multiset(given, sorted, f);
    assert(text::texts(given) =~= given.map_values(f));
    assert(ids =~= sorted.map_values(f));
    let before = text::texts(given);
    assert(before.to_multiset() == ids.to_multiset());
    before.lemma_multiset_has_no_duplicates();
    ids.lemma_multiset_has_no_duplicates_conv();
    assert forall|i: int, j: int| 0 <= i < j < ids.len() implies text::at_most(
        #[trigger] ids[i],
        #[trigger] ids[j],
    ) && ids[i] != ids[j] by {
        assert(String::ranked(sorted[i], sorted[j]));
    }
    assert forall|id: Seq<char>| #[trigger] ids.contains(id) <==> set.contains(id) by {
        broadcast use vstd::seq_lib::group_to_multiset_ensures;

        assert(ids.contains(id) <==> ids.to_multiset().count(id) > 0);
        assert(before.contains(id) <==> before.to_multiset().count(id) > 0);
    }
}

} // verus!
