//! The registry of generations in flight.

use super::op::PendingOp;
use crate::ids;
use crate::store::model;
use crate::strmap::{self, StrMap};
use crate::text;
use crate::timestamp::Timestamp;
use vstd::prelude::*;

verus! {

broadcast use vstd::string::group_string_axioms;

/// Outcome of a pending generation, delivered to the waiting caller.
#[derive(Debug)]
pub enum ConfirmOutcome {
    /// Agent applied the change; controller committed to the store.
    Applied,
    /// Controller could not commit the change (store error after apply).
    CommitFailed(String),
    /// Agent refused the change; nothing was applied.
    Rejected(String),
    /// Agent applied then reverted (watchdog or ack denied).
    Reverted(String),
    /// Controller's watchdog reaped the generation before the agent confirmed.
    Abandoned,
}

/// What an outcome holds.
pub enum OutcomeView {
    Applied,
    CommitFailed(Seq<char>),
    Rejected(Seq<char>),
    Reverted(Seq<char>),
    Abandoned,
}

impl View for ConfirmOutcome {
    type V = OutcomeView;

    open spec fn view(&self) -> OutcomeView {
        match self {
            ConfirmOutcome::Applied => OutcomeView::Applied,
            ConfirmOutcome::CommitFailed(s) => OutcomeView::CommitFailed(s@),
            ConfirmOutcome::Rejected(s) => OutcomeView::Rejected(s@),
            ConfirmOutcome::Reverted(s) => OutcomeView::Reverted(s@),
            ConfirmOutcome::Abandoned => OutcomeView::Abandoned,
        }
    }
}

/// The tag of an outcome.
pub open spec fn outcome_word(o: OutcomeView) -> Seq<char> {
    match o {
        OutcomeView::Applied => "applied"@,
        OutcomeView::CommitFailed(_) => "commit_failed"@,
        OutcomeView::Rejected(_) => "rejected"@,
        OutcomeView::Reverted(_) => "reverted"@,
        OutcomeView::Abandoned => "abandoned"@,
    }
}

/// The tag of an outcome.
pub fn outcome_tag(o: &ConfirmOutcome) -> (s: &'static str)
    ensures
        s@ == outcome_word(o@),
{
    match o {
        ConfirmOutcome::Applied => "applied",
        ConfirmOutcome::CommitFailed(_) => "commit_failed",
        ConfirmOutcome::Rejected(_) => "rejected",
        ConfirmOutcome::Reverted(_) => "reverted",
        ConfirmOutcome::Abandoned => "abandoned",
    }
}

/// The outcome that the caller who waits for a generation is to be told.
pub struct Resolution {
    pub generation_id: String,
    pub outcome: ConfirmOutcome,
}

/// What a resolution holds.
pub struct ResolutionView {
    pub generation_id: Seq<char>,
    pub outcome: OutcomeView,
}

impl View for Resolution {
    type V = ResolutionView;

    open spec fn view(&self) -> ResolutionView {
        ResolutionView { generation_id: self.generation_id@, outcome: self.outcome@ }
    }
}

/// In-flight generation awaiting confirmation from an agent.
pub struct PendingGeneration {
    pub generation_id: String,
    pub issued_at: Timestamp,
    /// When the controller gives up, in milliseconds of its monotonic clock.
    pub deadline: u64,
    pub op: PendingOp,
    /// Tenant the target node belongs to, captured when the generation began.
    /// Readers only see their own tenant's in-flight generations.
    pub tenant_slug: String,
}

/// What a generation in flight holds.
pub struct GenerationView {
    pub generation_id: Seq<char>,
    pub issued_at: Timestamp,
    pub deadline: u64,
    pub op: PendingOp,
    pub tenant_slug: Seq<char>,
}

impl View for PendingGeneration {
    type V = GenerationView;

    open spec fn view(&self) -> GenerationView {
        GenerationView {
            generation_id: self.generation_id@,
            issued_at: self.issued_at,
            deadline: self.deadline,
            op: self.op,
            tenant_slug: self.tenant_slug@,
        }
    }
}

impl PendingGeneration {
    /// Resolves the generation: what the caller who waits for it is to be told.
    pub fn notify(self, outcome: ConfirmOutcome) -> (r: Resolution)
        ensures
            r@ == (ResolutionView { generation_id: self.generation_id@, outcome: outcome@ }),
    {
        Resolution { generation_id: self.generation_id, outcome }
    }
}

/// View of a pending generation safe to expose to readers.
pub struct PendingGenerationView {
    pub generation_id: String,
    pub issued_at: Timestamp,
    pub op_kind: &'static str,
    pub node_id: String,
    pub tenant_slug: String,
    /// Interface the op targets, when it is interface-scoped. Lets the UI pin
    /// the in-flight spinner to a specific interface row across navigation.
    pub interface_name: Option<String>,
    /// "ingress" | "egress" for direction-scoped ops; `None` otherwise.
    pub direction: Option<String>,
}

/// What readers see of a generation.
pub struct GenerationSummary {
    pub generation_id: Seq<char>,
    pub issued_at: Timestamp,
    pub op_kind: Seq<char>,
    pub node_id: Seq<char>,
    pub tenant_slug: Seq<char>,
    pub interface_name: Option<Seq<char>>,
    pub direction: Option<Seq<char>>,
}

impl View for PendingGenerationView {
    type V = GenerationSummary;

    open spec fn view(&self) -> GenerationSummary {
        GenerationSummary {
            generation_id: self.generation_id@,
            issued_at: self.issued_at,
            op_kind: self.op_kind@,
            node_id: self.node_id@,
            tenant_slug: self.tenant_slug@,
            interface_name: text::opt_text(self.interface_name),
            direction: text::opt_text(self.direction),
        }
    }
}

/// What readers see of a generation.
pub open spec fn summary(g: GenerationView) -> GenerationSummary {
    GenerationSummary {
        generation_id: g.generation_id,
        issued_at: g.issued_at,
        op_kind: g.op.tag(),
        node_id: g.op.node(),
        tenant_slug: g.tenant_slug,
        interface_name: g.op.target().0,
        direction: g.op.target().1,
    }
}

impl PendingGenerationView {
    /// What readers see of a generation.
    pub fn of(g: &PendingGeneration) -> (v: Self)
        ensures
            v@ == summary(g@),
    {
        let (interface_name, direction) = g.op.interface_target();
        PendingGenerationView {
            generation_id: g.generation_id.clone(),
            issued_at: g.issued_at,
            op_kind: g.op.kind(),
            node_id: g.op.node_id().to_string(),
            tenant_slug: g.tenant_slug.clone(),
            interface_name,
            direction,
        }
    }
}

/// Why a generation cannot begin.
#[derive(Debug)]
pub enum BeginError {
    /// The node already has a generation in flight.
    Blocked { node_id: String, existing_gen: String },
}

impl BeginError {
    /// The text of the error.
    pub fn to_text(&self) -> (s: String)
        ensures
            s@ == (match *self {
                BeginError::Blocked { node_id, existing_gen } => "Node "@ + node_id@
                    + " already has a pending config generation ("@ + existing_gen@
                    + "); try again once it resolves"@,
            }),
    {
        match self {
            BeginError::Blocked { node_id, existing_gen } => {
                let mut s = text::concat4(
                    "Node ",
                    node_id.as_str(),
                    " already has a pending config generation (",
                    existing_gen.as_str(),
                );
                s.push_str("); try again once it resolves");
                s
            },
        }
    }
}

/// What a registry holds.
#[verifier::ext_equal]
pub struct RegistryView {
    /// The generation in flight of each node that has one.
    pub by_node: Map<Seq<char>, GenerationView>,
    /// The node of each generation in flight.
    pub by_gen: Map<Seq<char>, Seq<char>>,
}

/// Registry of in-flight generations, keyed by node_id (one pending op per node).
pub struct PendingRegistry {
    /// node_id → pending generation. One-per-node enforces single-writer.
    by_node: StrMap<PendingGeneration>,
    /// generation_id → node_id, for lookup when the agent replies.
    by_gen: StrMap<String>,
}

impl View for PendingRegistry {
    type V = RegistryView;

    closed spec fn view(&self) -> RegistryView {
        RegistryView {
            by_node: self.by_node@.map_values(|g: PendingGeneration| g@),
            by_gen: strmap::texts(self.by_gen@),
        }
    }
}

impl RegistryView {
    /// Nothing in flight.
    pub open spec fn empty() -> RegistryView {
        RegistryView { by_node: Map::empty(), by_gen: Map::empty() }
    }

    /// With a generation begun.
    pub open spec fn begun(self, g: GenerationView) -> RegistryView {
        RegistryView {
            by_node: self.by_node.insert(g.op.node(), g),
            by_gen: self.by_gen.insert(g.generation_id, g.op.node()),
        }
    }

    /// With a generation taken out.
    pub open spec fn taken(self, generation_id: Seq<char>) -> RegistryView {
        if self.by_gen.contains_key(generation_id) {
            RegistryView {
                by_node: self.by_node.remove(self.by_gen[generation_id]),
                by_gen: self.by_gen.remove(generation_id),
            }
        } else {
            self
        }
    }

    /// The generation that is taken out.
    pub open spec fn take(self, generation_id: Seq<char>) -> Option<GenerationView> {
        if self.by_gen.contains_key(generation_id) && self.by_node.contains_key(
            self.by_gen[generation_id],
        ) {
            Some(self.by_node[self.by_gen[generation_id]])
        } else {
            None
        }
    }

    /// Whether a generation of that id has passed its deadline.
    pub open spec fn expired_id(self, generation_id: Seq<char>, now: u64) -> bool {
        exists|n: Seq<char>| #[trigger]
            self.by_node.contains_key(n) && self.by_node[n].deadline <= now
                && self.by_node[n].generation_id == generation_id
    }

    /// Without the generations whose deadlines have passed.
    pub open spec fn reaped(self, now: u64) -> RegistryView {
        RegistryView {
            by_node: model::kept(
                self.by_node,
                |n: Seq<char>, g: GenerationView| g.deadline > now,
            ),
            by_gen: model::kept(
                self.by_gen,
                |g: Seq<char>, n: Seq<char>| !self.expired_id(g, now),
            ),
        }
    }

    /// Every generation is found under its node and its id, and nothing else is.
    pub open spec fn consistent(self) -> bool {
        &&& forall|n: Seq<char>| #[trigger]
            self.by_node.contains_key(n) ==> self.by_node[n].op.node() == n
                && self.by_gen.contains_key(self.by_node[n].generation_id)
                && self.by_gen[self.by_node[n].generation_id] == n
        &&& forall|g: Seq<char>| #[trigger]
            self.by_gen.contains_key(g) ==> self.by_node.contains_key(self.by_gen[g])
                && self.by_node[self.by_gen[g]].generation_id == g
    }
}

/// The views of generations.
pub open spec fn generation_views(v: Seq<PendingGeneration>) -> Seq<GenerationView> {
    v.map_values(|g: PendingGeneration| g@)
}

/// Whether these are, each once and in any order, the generations whose deadlines
/// have passed.
pub open spec fn lists_expired(v: RegistryView, gens: Seq<GenerationView>, now: u64) -> bool {
    model::lists(gens, v.by_node, |g: GenerationView| g.deadline <= now)
}

/// The views of what readers see.
pub open spec fn summary_views(v: Seq<PendingGenerationView>) -> Seq<GenerationSummary> {
    v.map_values(|g: PendingGenerationView| g@)
}

impl PendingRegistry {
    /// Nothing in flight.
    pub fn new() -> (r: Self)
        ensures
            r@ == RegistryView::empty(),
    {
        let r = PendingRegistry { by_node: StrMap::new(), by_gen: StrMap::new() };
        assert(r@ =~= RegistryView::empty());
        r
    }

    /// Begin the generation with the given id for `op`. Fails if the node already
    /// has one in flight.
    pub fn begin_as(
        &mut self,
        generation_id: String,
        op: PendingOp,
        tenant_slug: String,
        issued_at: Timestamp,
        deadline: u64,
    ) -> (r: Result<(), BeginError>)
        ensures
            match r {
                Ok(_) => !old(self)@.by_node.contains_key(op.node()) && final(self)@ == old(
                    self,
                )@.begun(
                    GenerationView {
                        generation_id: generation_id@,
                        issued_at,
                        deadline,
                        op,
                        tenant_slug: tenant_slug@,
                    },
                ),
                Err(BeginError::Blocked { node_id, existing_gen }) => old(
                    self,
                )@.by_node.contains_key(op.node()) && node_id@ == op.node() && existing_gen@ == old(
                    self,
                )@.by_node[op.node()].generation_id && final(self)@ == old(self)@,
            },
    {
        let node_id = op.node_id().to_string();
        match self.by_node.get(node_id.as_str()) {
            Some(existing) => {
                return Err(
                    BeginError::Blocked {
                        node_id,
                        existing_gen: existing.generation_id.clone(),
                    },
                );
            },
            None => {},
        }
        let key = generation_id.clone();
        let g = PendingGeneration { generation_id, issued_at, deadline, op, tenant_slug };
        self.by_node.insert(node_id.clone(), g);
        self.by_gen.insert(key, node_id);
        assert(self@ =~= old(self)@.begun(g@));
        Ok(())
    }

    /// Reserve a generation for `op`. Returns the generation_id. Fails if the node
    /// already has an in-flight generation.
    /// `tenant_slug` is the target node's tenant — derived by the caller
    /// from the node record so the stored generation can be surfaced only to that
    /// tenant. `now_ms` is the time of the monotonic clock.
    pub fn try_begin(
        &mut self,
        op: PendingOp,
        tenant_slug: String,
        deadline_ms: u32,
        issued_at: Timestamp,
        now_ms: u64,
    ) -> (r: Result<String, BeginError>)
        requires
            now_ms + deadline_ms <= u64::MAX,
        ensures
            match r {
                Ok(id) => !old(self)@.by_node.contains_key(op.node()) && ids::uuid_shaped(id@)
                    && final(self)@ == old(self)@.begun(
                    GenerationView {
                        generation_id: id@,
                        issued_at,
                        deadline: (now_ms + deadline_ms) as u64,
                        op,
                        tenant_slug: tenant_slug@,
                    },
                ),
                Err(BeginError::Blocked { node_id, existing_gen }) => old(
                    self,
                )@.by_node.contains_key(op.node()) && node_id@ == op.node() && existing_gen@ == old(
                    self,
                )@.by_node[op.node()].generation_id && final(self)@ == old(self)@,
            },
    {
        let generation_id = ids::new_uuid();
        match self.begin_as(
            generation_id.clone(),
            op,
            tenant_slug,
            issued_at,
            now_ms + deadline_ms as u64,
        ) {
            Ok(()) => Ok(generation_id),
            Err(e) => Err(e),
        }
    }

    /// The id of the generation that a node has in flight.
    pub fn generation_of(&self, node_id: &str) -> (r: Option<String>)
        ensures
            match r {
                Some(id) => self@.by_node.contains_key(node_id@) && id@
                    == self@.by_node[node_id@].generation_id,
                None => !self@.by_node.contains_key(node_id@),
            },
    {
        match self.by_node.get(node_id) {
            Some(g) => Some(g.generation_id.clone()),
            None => None,
        }
    }

    /// Remove and return the pending generation with this id (called on any outcome).
    pub fn take(&mut self, generation_id: &str) -> (r: Option<PendingGeneration>)
        ensures
            final(self)@ == old(self)@.taken(generation_id@),
            match r {
                Some(g) => old(self)@.take(generation_id@) == Some(g@),
                None => old(self)@.take(generation_id@) is None,
            },
    {
        match self.by_gen.remove(generation_id) {
            Some(node_id) => {
                let g = self.by_node.remove(node_id.as_str());
                assert(self@ =~= old(self)@.taken(generation_id@));
                g
            },
            None => {
                assert(self@ =~= old(self)@);
                None
            },
        }
    }

    /// Peek at the pending generation for a node, if any.
    /// Returns `None` if no generation is in flight **or** if the
    /// generation belongs to a different tenant — the latter looks
    /// identical to "no pending" so a tenant A operator can't probe
    /// for tenant B activity by node id.
    pub fn get_for_node(&self, node_id: &str, tenant_slug: &str) -> (r: Option<
        PendingGenerationView,
    >)
        ensures
            match r {
                Some(v) => self@.by_node.contains_key(node_id@)
                    && self@.by_node[node_id@].tenant_slug == tenant_slug@ && v@ == summary(
                    self@.by_node[node_id@],
                ),
                None => !(self@.by_node.contains_key(node_id@)
                    && self@.by_node[node_id@].tenant_slug == tenant_slug@),
            },
    {
        match self.by_node.get(node_id) {
            Some(g) => if text::same(g.tenant_slug.as_str(), tenant_slug) {
                Some(PendingGenerationView::of(g))
            } else {
                None
            },
            None => None,
        }
    }

    /// Snapshot in-flight generations in `tenant_slug`. Cross-tenant
    /// visibility is not supported here.
    pub fn list_all(&self, tenant_slug: &str) -> (v: Vec<PendingGenerationView>)
        ensures
            model::lists(
                summary_views(v@),
                self@.by_node.map_values(|g: GenerationView| summary(g)),
                |s: GenerationSummary| s.tenant_slug == tenant_slug@,
            ),
    {
        let ghost es = self.by_node.entries();
        let ghost m = self@.by_node.map_values(|g: GenerationView| summary(g));
        let ghost keep = |s: GenerationSummary| s.tenant_slug == tenant_slug@;
        let ghost mut ks: Seq<Seq<char>> = Seq::empty();
        let n: usize = self.by_node.len();
        let mut v: Vec<PendingGenerationView> = Vec::new();
        let mut i: usize = 0;
        while i < n
            invariant
                i <= n == es.len(),
                es == self.by_node.entries(),
                strmap::keys_unique(es),
                self.by_node@ == strmap::entries_map(es),
                m == self@.by_node.map_values(|g: GenerationView| summary(g)),
                keep == (|s: GenerationSummary| s.tenant_slug == tenant_slug@),
                ks.len() == v@.len(),
                ks.no_duplicates(),
                forall|j: int|
                    0 <= j < ks.len() ==> m.contains_key(#[trigger] ks[j]) && m[ks[j]] == v@[j]@
                        && keep(v@[j]@),
                forall|j: int|
                    0 <= j < ks.len() ==> exists|e: int|
                        0 <= e < i && (#[trigger] es[e]).0@ == #[trigger] ks[j],
                forall|e: int|
                    0 <= e < i && (#[trigger] es[e]).1.tenant_slug@ == tenant_slug@ ==> ks.contains(
                        es[e].0@,
                    ),
            decreases n - i,
        {
            let ghost listed = ks;
            let ghost before = v@;
            let (k, g) = self.by_node.at(i);
            if text::same(g.tenant_slug.as_str(), tenant_slug) {
                v.push(PendingGenerationView::of(g));
                proof {
                    ks = ks.push(k@);
                    assert forall|j: int| 0 <= j < ks.len() implies m.contains_key(
                        #[trigger] ks[j],
                    ) && m[ks[j]] == v@[j]@ && keep(v@[j]@) by {
                        if j < listed.len() {
                            assert(ks[j] == listed[j] && v@[j] == before[j]);
                        }
                    }
                    assert forall|j: int| 0 <= j < ks.len() implies exists|e: int|
                        0 <= e < i + 1 && (#[trigger] es[e]).0@ == #[trigger] ks[j] by {
                        if j < listed.len() {
                            let e = choose|e: int| 0 <= e < i && (#[trigger] es[e]).0@ == listed[j];
                            assert(es[e].0@ == ks[j]);
                        } else {
                            assert(es[i as int].0@ == ks[j]);
                        }
                    }
                    assert(ks.no_duplicates()) by {
                        assert forall|a: int, b: int| 0 <= a < b < ks.len() implies ks[a]
                            != ks[b] by {
                            assert(ks[a] == listed[a]);
                            if b == listed.len() {
                                let e = choose|e: int|
                                    0 <= e < i && (#[trigger] es[e]).0@ == listed[a];
                                assert(es[e].0@ != es[i as int].0@);
                            } else {
                                assert(ks[b] == listed[b]);
                            }
                        }
                    }
                }
            }
            proof {
                assert forall|e: int|
                    0 <= e < i + 1 && (#[trigger] es[e]).1.tenant_slug@
                        == tenant_slug@ implies ks.contains(es[e].0@) by {
                    if e < i {
                        let j = choose|j: int| 0 <= j < listed.len() && listed[j] == es[e].0@;
                        assert(ks[j] == es[e].0@);
                    } else {
                        assert(ks[listed.len() as int] == es[e].0@);
                    }
                }
            }
            i = i + 1;
        }
        proof {
            let out = summary_views(v@);
            assert forall|k: Seq<char>| m.contains_key(k) && #[trigger] keep(m[k]) implies
                ks.contains(k) by {
                let e = strmap::key_index(es, k);
                assert(0 <= e < es.len() && es[e].0@ == k);
                assert(es[e].1.tenant_slug@ == tenant_slug@);
            }
            assert(model::lists_keys(out, m, keep, ks));
        }
        v
    }

    /// The nodes whose generations have passed their deadlines.
    fn expired_nodes(&self, now_ms: u64) -> (v: Vec<String>)
        ensures
            text::texts(v@).no_duplicates(),
            forall|n: Seq<char>| #[trigger]
                text::texts(v@).contains(n) <==> self@.by_node.contains_key(n)
                    && self@.by_node[n].deadline <= now_ms,
    {
        let ghost es = self.by_node.entries();
        let n: usize = self.by_node.len();
        let mut v: Vec<String> = Vec::new();
        let mut i: usize = 0;
        assert(text::texts(v@) =~= Seq::<Seq<char>>::empty());
        while i < n
            invariant
                i <= n == es.len(),
                es == self.by_node.entries(),
                text::texts(v@).no_duplicates(),
                forall|id: Seq<char>| #[trigger]
                    text::texts(v@).contains(id) <==> exists|e: int|
                        0 <= e < i && (#[trigger] es[e]).0@ == id && es[e].1.deadline <= now_ms,
            decreases n - i,
        {
            let ghost before = text::texts(v@);
            let (k, g) = self.by_node.at(i);
            if g.deadline <= now_ms {
                text::add_once(&mut v, k.as_str());
            }
            proof {
                assert forall|id: Seq<char>| #[trigger]
                    text::texts(v@).contains(id) <==> exists|e: int|
                        0 <= e < i + 1 && (#[trigger] es[e]).0@ == id && es[e].1.deadline
                            <= now_ms by {
                    if before.contains(id) {
                        let e = choose|e: int|
                            0 <= e < i && (#[trigger] es[e]).0@ == id && es[e].1.deadline <= now_ms;
                        assert(es[e].0@ == id);
                    }
                }
            }
            i = i + 1;
        }
        proof {
            assert forall|id: Seq<char>| #[trigger]
                text::texts(v@).contains(id) <==> self@.by_node.contains_key(id)
                    && self@.by_node[id].deadline <= now_ms by {
                if text::texts(v@).contains(id) {
                    let e = choose|e: int|
                        0 <= e < es.len() && (#[trigger] es[e]).0@ == id && es[e].1.deadline
                            <= now_ms;
                    strmap::lemma_entry(es, e);
                }
                if self@.by_node.contains_key(id) {
                    let e = strmap::key_index(es, id);
                    assert(0 <= e < es.len() && es[e].0@ == id);
                }
            }
        }
        v
    }

    /// Remove and return all generations whose deadlines have passed.
    pub fn reap_expired(&mut self, now_ms: u64) -> (out: Vec<PendingGeneration>)
        ensures
            final(self)@ == old(self)@.reaped(now_ms),
            lists_expired(old(self)@, generation_views(out@), now_ms),
    {
        let ghost start = self@;
        let nodes = self.expired_nodes(now_ms);
        let ghost ks = text::texts(nodes@);
        let mut out: Vec<PendingGeneration> = Vec::new();
        let mut i: usize = 0;
        assert(self@.by_node =~= start.by_node.remove_keys(ks.take(0).to_set()));
        assert(self@.by_gen =~= start.by_gen.remove_keys(ids_of(start, ks.take(0))));
        while i < nodes.len()
            invariant
                i <= nodes@.len(),
                ks == text::texts(nodes@),
                ks.no_duplicates(),
                forall|n: Seq<char>| #[trigger]
                    ks.contains(n) <==> start.by_node.contains_key(n) && start.by_node[n].deadline
                        <= now_ms,
                out@.len() == i,
                forall|j: int| 0 <= j < i ==> (#[trigger] out@[j])@ == start.by_node[ks[j]],
                self@.by_node == start.by_node.remove_keys(ks.take(i as int).to_set()),
                self@.by_gen == start.by_gen.remove_keys(ids_of(start, ks.take(i as int))),
            decreases nodes@.len() - i,
        {
            let ghost was = ks.take(i as int);
            let ghost now = ks.take(i + 1);
            let ghost before = self@;
            let ghost done = out@;
            proof {
                assert(ks[i as int] == nodes@[i as int]@);
                assert(ks.contains(ks[i as int]));
                assert(now =~= was.push(ks[i as int]));
                assert(!was.contains(ks[i as int])) by {
                    if was.contains(ks[i as int]) {
                        let k = choose|k: int| 0 <= k < was.len() && was[k] == ks[i as int];
                        assert(ks[k] == ks[i as int]);
                    }
                }
                lemma_pushed_set(was, ks[i as int]);
                assert(before.by_node.contains_key(ks[i as int]));
                assert(before.by_node[ks[i as int]] == start.by_node[ks[i as int]]);
                assert(before.by_node[ks[i as int]] == self.by_node@[ks[i as int]]@);
            }
            match self.by_node.remove(nodes[i].as_str()) {
                Some(g) => {
                    let _gone = self.by_gen.remove(g.generation_id.as_str());
                    proof {
                        assert(g@ == start.by_node[ks[i as int]]);
                        assert(self@.by_node =~= before.by_node.remove(ks[i as int]));
                        assert(self@.by_gen =~= before.by_gen.remove(g.generation_id@));
                        assert(ids_of(start, now) =~= ids_of(start, was).insert(
                            g.generation_id@,
                        )) by {
                            assert forall|x: Seq<char>| ids_of(start, now).contains(x) == (ids_of(
                                start,
                                was,
                            ).contains(x) || x == g.generation_id@) by {
                                if ids_of(start, was).contains(x) {
                                    let n = choose|n: Seq<char>| #[trigger]
                                        was.contains(n) && start.by_node[n].generation_id == x;
                                    assert(now.contains(n));
                                }
                                if ids_of(start, now).contains(x) {
                                    let n = choose|n: Seq<char>| #[trigger]
                                        now.contains(n) && start.by_node[n].generation_id == x;
                                    if n != ks[i as int] {
                                        assert(was.contains(n));
                                    }
                                }
                                if x == g.generation_id@ {
                                    assert(now.contains(ks[i as int]));
                                }
                            }
                        }
                        assert(self@.by_node =~= start.by_node.remove_keys(now.to_set()));
                        assert(self@.by_gen =~= start.by_gen.remove_keys(ids_of(start, now)));
                    }
                    out.push(g);
                    proof {
                        assert forall|j: int| 0 <= j < i + 1 implies (#[trigger] out@[j])@
                            == start.by_node[ks[j]] by {
                            if j < i {
                                assert(out@[j] == done[j]);
                            }
                        }
                    }
                },
                None => {
                    assert(before.by_node.contains_key(ks[i as int]));
                    assert(false);
                },
            }
            i = i + 1;
        }
        proof {
            assert(ks.take(i as int) =~= ks);
            let keep = |g: GenerationView| g.deadline <= now_ms;
            let views = generation_views(out@);
            assert forall|j: int| 0 <= j < ks.len() implies start.by_node.contains_key(
                #[trigger] ks[j],
            ) && start.by_node[ks[j]] == views[j] && keep(views[j]) by {
                assert(ks.contains(ks[j]));
                assert(views[j] == out@[j]@);
            }
            assert(model::lists_keys(views, start.by_node, keep, ks));
            assert(self@ =~= start.reaped(now_ms)) by {
                assert(self@.by_node =~= start.reaped(now_ms).by_node);
                assert forall|x: Seq<char>| ids_of(start, ks).contains(x) == start.expired_id(
                    x,
                    now_ms,
                ) by {
                    if ids_of(start, ks).contains(x) {
                        let n = choose|n: Seq<char>| #[trigger]
                            ks.contains(n) && start.by_node[n].generation_id == x;
                        assert(start.by_node.contains_key(n));
                    }
                    if start.expired_id(x, now_ms) {
                        let n = choose|n: Seq<char>| #[trigger]
                            start.by_node.contains_key(n) && start.by_node[n].deadline <= now_ms
                                && start.by_node[n].generation_id == x;
                        assert(ks.contains(n));
                    }
                }
                assert(self@.by_gen =~= start.reaped(now_ms).by_gen);
            }
        }
        out
    }
}

/// The ids of the generations of nodes.
spec fn ids_of(v: RegistryView, nodes: Seq<Seq<char>>) -> Set<Seq<char>> {
    Set::new(
        |g: Seq<char>|
            exists|n: Seq<char>| #[trigger]
                nodes.contains(n) && v.by_node[n].generation_id == g,
    )
}

/// One more member.
proof fn lemma_pushed_set<T>(s: Seq<T>, x: T)
    ensures
        s.push(x).to_set() == s.to_set().insert(x),
        forall|y: T| #[trigger] s.push(x).contains(y) == (s.contains(y) || y == x),
{
    assert forall|y: T| #[trigger] s.push(x).contains(y) == (s.contains(y) || y == x) by {
        let t = s.push(x);
        if s.contains(y) {
            let k = choose|k: int| 0 <= k < s.len() && s[k] == y;
            assert(t[k] == y);
        }
        if y == x {
            assert(t[s.len() as int] == y);
        }
        if t.contains(y) {
            let k = choose|k: int| 0 <= k < t.len() && t[k] == y;
            if k < s.len() {
                assert(s[k] == y);
            }
        }
    }
    assert(s.push(x).to_set() =~= s.to_set().insert(x));
}

/// A fresh registry is consistent.
pub proof fn empty_is_consistent()
    ensures
        RegistryView::empty().consistent(),
{
}

/// Beginning a generation under an id that is not in use keeps the registry
/// consistent; the node then has this one generation, and another node's are as
/// they were.
pub proof fn beginning_is_consistent(v: RegistryView, g: GenerationView)
    requires
        v.consistent(),
        !v.by_node.contains_key(g.op.node()),
        !v.by_gen.contains_key(g.generation_id),
    ensures
        v.begun(g).consistent(),
        v.begun(g).by_node[g.op.node()] == g,
        forall|n: Seq<char>| n != g.op.node() && #[trigger] v.by_node.contains_key(n) ==> v.begun(
            g,
        ).by_node.contains_key(n) && v.begun(g).by_node[n] == v.by_node[n],
{
}

/// Taking a generation clears it under its id and its node, so that the node may
/// begin another and taking it again gives nothing.
pub proof fn taking_is_final(v: RegistryView, generation_id: Seq<char>)
    requires
        v.consistent(),
    ensures
        v.taken(generation_id).consistent(),
        v.taken(generation_id).take(generation_id) is None,
        v.taken(generation_id).taken(generation_id) == v.taken(generation_id),
        v.take(generation_id) matches Some(g) ==> !v.taken(generation_id).by_node.contains_key(
            g.op.node(),
        ),
{
}

/// Reaping keeps the registry consistent and leaves no generation whose deadline
/// has passed.
pub proof fn reaping_is_consistent(v: RegistryView, now: u64)
    requires
        v.consistent(),
    ensures
        v.reaped(now).consistent(),
        forall|n: Seq<char>| #[trigger]
            v.reaped(now).by_node.contains_key(n) ==> v.reaped(now).by_node[n].deadline > now,
        v.reaped(now).reaped(now) == v.reaped(now),
{
    let r = v.reaped(now);
    assert forall|n: Seq<char>| #[trigger] r.by_node.contains_key(n) implies r.by_gen.contains_key(
        r.by_node[n].generation_id,
    ) by {
        let g = v.by_node[n].generation_id;
        assert(v.by_gen.contains_key(g));
        if v.expired_id(g, now) {
            let other = choose|o: Seq<char>| #[trigger]
                v.by_node.contains_key(o) && v.by_node[o].deadline <= now
                    && v.by_node[o].generation_id == g;
            assert(other == n);
        }
    }
    assert forall|g: Seq<char>| #[trigger] r.by_gen.contains_key(g) implies r.by_node.contains_key(
        r.by_gen[g],
    ) by {
        let n = v.by_gen[g];
        assert(v.by_node.contains_key(n));
        if v.by_node[n].deadline <= now {
            assert(v.expired_id(g, now));
        }
    }
    assert(r.reaped(now) =~= r);
}

} // verus!
