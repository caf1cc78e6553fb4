//! Which agents are connected.

use crate::proto::ControllerMessage;
use crate::store::model;
use crate::strmap::{self, StrMap};
use crate::text;
use vstd::prelude::*;

verus! {

broadcast use vstd::string::group_string_axioms;

/// Session state for one connected agent.
struct NodeSession {
    /// The channel on which messages go out to the agent.
    channel: u64,
    /// Tenant slug the node belongs to, captured from the node record
    /// at registration time. Used to filter `online_nodes(tenant_slug)`
    /// without an extra DB lookup. If a node is later re-bound to a
    /// different tenant (operator action), the value here goes stale
    /// until the agent reconnects — acceptable because tenant moves are
    /// rare and the controller does not push tenant changes down to live
    /// sessions.
    tenant_slug: String,
}

/// What a session holds.
pub struct SessionView {
    pub channel: u64,
    pub tenant_slug: Seq<char>,
}

/// A message on its way to an agent.
pub struct Delivery {
    pub channel: u64,
    pub message: ControllerMessage,
}

/// Tracks all currently connected agents and tells on which channel a
/// `ControllerMessage` reaches a node or all nodes. A channel is named by a number
/// of its own.
pub struct NodeSessionManager {
    sessions: StrMap<NodeSession>,
}

impl View for NodeSessionManager {
    type V = Map<Seq<char>, SessionView>;

    closed spec fn view(&self) -> Map<Seq<char>, SessionView> {
        self.sessions@.map_values(
            |s: NodeSession| SessionView { channel: s.channel, tenant_slug: s.tenant_slug@ },
        )
    }
}

impl NodeSessionManager {
    /// No sessions.
    pub fn new() -> (m: Self)
        ensures
            m@ == Map::<Seq<char>, SessionView>::empty(),
    {
        let m = NodeSessionManager { sessions: StrMap::new() };
        assert(m@ =~= Map::<Seq<char>, SessionView>::empty());
        m
    }

    /// Register a newly connected agent. Replaces any existing session for the
    /// same node (previous connection was dropped). `tenant_slug` is the
    /// node's tenant at register time.
    pub fn register(&mut self, node_id: String, tenant_slug: String, channel: u64)
        ensures
            final(self)@ == old(self)@.insert(
                node_id@,
                SessionView { channel, tenant_slug: tenant_slug@ },
            ),
    {
        let session = NodeSession { channel, tenant_slug };
        self.sessions.insert(node_id, session);
        assert(self@ =~= old(self)@.insert(
            node_id@,
            SessionView { channel, tenant_slug: tenant_slug@ },
        ));
    }

    /// Remove the session for a node that has disconnected.
    pub fn unregister(&mut self, node_id: &str)
        ensures
            final(self)@ == old(self)@.remove(node_id@),
    {
        let _gone = self.sessions.remove(node_id);
        assert(self@ =~= old(self)@.remove(node_id@));
    }

    /// Remove the session only if it still is that of *this* stream's channel.
    ///
    /// When a node reconnects before its old stream is cleaned up, the map is
    /// already overwritten with the new channel.  Calling plain `unregister`
    /// from the old stream's teardown would evict the live session.
    /// `unregister_if_sender` avoids that by comparing channel identity.
    pub fn unregister_if_sender(&mut self, node_id: &str, channel: u64)
        ensures
            final(self)@ == torn_down(old(self)@, node_id@, channel),
    {
        let own: bool = match self.sessions.get(node_id) {
            Some(s) => s.channel == channel,
            None => false,
        };
        if own {
            self.unregister(node_id);
        }
    }

    /// The delivery of a message to a single connected agent, `None` if the node
    /// is not currently connected.
    pub fn push(&self, node_id: &str, msg: ControllerMessage) -> (r: Option<Delivery>)
        ensures
            match r {
                Some(d) => self@.contains_key(node_id@) && d.channel == self@[node_id@].channel
                    && d.message == msg,
                None => !self@.contains_key(node_id@),
            },
    {
        match self.sessions.get(node_id) {
            Some(s) => Some(Delivery { channel: s.channel, message: msg }),
            None => None,
        }
    }

    /// The channels of all currently connected agents, one for each.
    pub fn push_all(&self) -> (v: Vec<u64>)
        ensures
            model::lists(
                v@,
                self@.map_values(|s: SessionView| s.channel),
                |c: u64| true,
            ),
    {
        let ghost es = self.sessions.entries();
        let ghost m = self@.map_values(|s: SessionView| s.channel);
        let ghost keep = |c: u64| true;
        let ghost keys = es.map_values(|e: (String, NodeSession)| e.0@);
        let n: usize = self.sessions.len();
        let mut v: Vec<u64> = Vec::new();
        let mut i: usize = 0;
        while i < n
            invariant
                i <= n == es.len(),
                es == self.sessions.entries(),
                v@.len() == i,
                forall|j: int| 0 <= j < i ==> #[trigger] v@[j] == es[j].1.channel,
            decreases n - i,
        {
            let (_k, s) = self.sessions.at(i);
            v.push(s.channel);
            i = i + 1;
        }
        proof {
            assert(keys.no_duplicates()) by {
                assert forall|a: int, b: int| 0 <= a < b < keys.len() implies keys[a] != keys[b] by {
                    assert(es[a].0@ != es[b].0@);
                }
            }
            assert forall|j: int| 0 <= j < keys.len() implies m.contains_key(#[trigger] keys[j])
                && m[keys[j]] == v@[j] && keep(v@[j]) by {
                strmap::lemma_entry(es, j);
                assert(keys[j] == es[j].0@);
            }
            assert forall|k: Seq<char>| m.contains_key(k) && #[trigger] keep(m[k]) implies
                keys.contains(k) by {
                let j = strmap::key_index(es, k);
                assert(0 <= j < es.len() && es[j].0@ == k);
                assert(keys[j] == k);
            }
            assert(model::lists_keys(v@, m, keep, keys));
        }
        v
    }

    /// Return the IDs of currently connected nodes in `tenant_slug`, each once.
    /// Cross-tenant visibility is not supported on this surface.
    pub fn online_nodes(&self, tenant_slug: &str) -> (v: Vec<String>)
        ensures
            text::texts(v@).no_duplicates(),
            forall|id: Seq<char>| #[trigger]
                text::texts(v@).contains(id) <==> self@.contains_key(id) && self@[id].tenant_slug
                    == tenant_slug@,
    {
        let ghost es = self.sessions.entries();
        let n: usize = self.sessions.len();
        let mut v: Vec<String> = Vec::new();
        let mut i: usize = 0;
        assert(text::texts(v@) =~= Seq::<Seq<char>>::empty());
        while i < n
            invariant
                i <= n == es.len(),
                es == self.sessions.entries(),
                text::texts(v@).no_duplicates(),
                forall|id: Seq<char>| #[trigger]
                    text::texts(v@).contains(id) <==> exists|e: int|
                        0 <= e < i && (#[trigger] es[e]).0@ == id && es[e].1.tenant_slug@
                            == tenant_slug@,
            decreases n - i,
        {
            let ghost before = text::texts(v@);
            let (k, s) = self.sessions.at(i);
            if text::same(s.tenant_slug.as_str(), tenant_slug) {
                text::add_once(&mut v, k.as_str());
            }
            proof {
                assert forall|id: Seq<char>| #[trigger]
                    text::texts(v@).contains(id) <==> exists|e: int|
                        0 <= e < i + 1 && (#[trigger] es[e]).0@ == id && es[e].1.tenant_slug@
                            == tenant_slug@ by {
                    if before.contains(id) {
                        let e = choose|e: int|
                            0 <= e < i && (#[trigger] es[e]).0@ == id && es[e].1.tenant_slug@
                                == tenant_slug@;
                        assert(es[e].0@ == id);
                    }
                }
            }
            i = i + 1;
        }
        proof {
            assert forall|id: Seq<char>| #[trigger]
                text::texts(v@).contains(id) <==> self@.contains_key(id) && self@[id].tenant_slug
                    == tenant_slug@ by {
                if text::texts(v@).contains(id) {
                    let e = choose|e: int|
                        0 <= e < es.len() && (#[trigger] es[e]).0@ == id && es[e].1.tenant_slug@
                            == tenant_slug@;
                    strmap::lemma_entry(es, e);
                }
                if self@.contains_key(id) {
                    let e = strmap::key_index(es, id);
                    assert(0 <= e < es.len() && es[e].0@ == id);
                }
            }
        }
        v
    }

    /// Total number of connected agents across all tenants. Intended for
    /// fleet-wide internal metrics — not exposed through any tenant-scoped surface.
    /// Anything user-facing should go through `online_nodes(tenant_slug)`.
    pub fn online_count_all_tenants(&self) -> (n: usize)
        ensures
            n == self@.dom().len(),
    {
        assert(self@.dom() =~= self.sessions@.dom());
        self.sessions.len()
    }

    /// Returns `true` if the node is currently connected.
    pub fn is_online(&self, node_id: &str) -> (r: bool)
        ensures
            r == self@.contains_key(node_id@),
    {
        self.sessions.contains_key(node_id)
    }
}

/// The sessions after a stream on `channel` has ended.
pub open spec fn torn_down(m: Map<Seq<char>, SessionView>, node_id: Seq<char>, channel: u64) -> Map<
    Seq<char>,
    SessionView,
> {
    if m.contains_key(node_id) && m[node_id].channel == channel {
        m.remove(node_id)
    } else {
        m
    }
}

/// The end of an old stream does not evict the session of a node that has
/// reconnected on another channel.
pub proof fn reconnected_session_survives(
    m: Map<Seq<char>, SessionView>,
    node_id: Seq<char>,
    old_channel: u64,
    session: SessionView,
)
    requires
        session.channel != old_channel,
    ensures
        torn_down(m.insert(node_id, session), node_id, old_channel) == m.insert(node_id, session),
{
}

/// The end of its own stream takes a node offline, and no other node.
pub proof fn own_teardown_unregisters(
    m: Map<Seq<char>, SessionView>,
    node_id: Seq<char>,
    session: SessionView,
)
    ensures
        torn_down(m.insert(node_id, session), node_id, session.channel) == m.remove(node_id),
{
    assert(m.insert(node_id, session).remove(node_id) =~= m.remove(node_id));
}

} // verus!
