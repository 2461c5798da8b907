use vstd::prelude::*;
use crate::kad_id::KadID;
use crate::peer::Peer;
use crate::qpeerset::QPeerEntry;
use crate::qpeerset::QPeerSet;
use crate::qpeerset::QPeerState;
use crate::qpeerset::count_state;
use crate::qpeerset::entries_contain;
use crate::qpeerset::entries_sorted;
use crate::qpeerset::first_index;
use crate::qpeerset::horizon;
use crate::qpeerset::ids_in_state;
use crate::qpeerset::spec_add;
use crate::qpeerset::spec_set;
use crate::qpeerset::lemma_count_positive;
use crate::qpeerset::lemma_count_update;
use crate::qpeerset::lemma_first_index;
use crate::qpeerset::lemma_index_unique;

verus! {

/// A request that has had no answer for longer than this many milliseconds has failed.
pub const REQUEST_TIMEOUT_MS: u64 = 3000;

/// The parameters of the lookups: the size of the candidate horizon and the
/// number of requests that may be in flight at once.
#[derive(Clone, Copy, Debug)]
pub struct KadParams {
    pub k: u32,
    pub alpha: u32,
}

impl KadParams {
    pub fn new(k: u32, alpha: u32) -> (r: Self)
        ensures
            r.k == k,
            r.alpha == alpha,
    {
        Self { k, alpha }
    }
}

#[derive(Clone, Copy, Debug, Hash, PartialEq, Eq, Structural)]
pub enum QueryKind {
    FindNode,
    FindValue,
}

/// What a lookup is after: its kind and its target.
#[derive(Clone, Copy, Debug)]
pub struct QueryDescriptor {
    pub kind: QueryKind,
    pub target: KadID,
}

impl QueryDescriptor {
    pub fn new(kind: QueryKind, target: KadID) -> (r: Self)
        ensures
            r.kind == kind,
            r.target == target,
    {
        Self { kind, target }
    }
}

#[derive(Clone, Copy, Debug, Hash, PartialEq, Eq, Structural)]
pub enum QueryStatus {
    Active,
    Finished,
}

/// A request that waits for its answer, and when it was sent, in milliseconds.
#[derive(Clone, Copy, Debug)]
pub struct ActiveRequest {
    pub peer: KadID,
    pub start: u64,
}

/// The outcome of a lookup.
#[derive(Debug)]
#[allow(inconsistent_fields)]
pub enum QueryResultKind {
    FindNode { closest: Vec<KadID> },
    FindValue { value: Option<Vec<u8>>, closest: Option<KadID> },
}

/// What a lookup asks its owner to do.
#[derive(Debug)]
pub enum QueryAction {
    /// Record a peer that an answer has named.
    Discover(Peer),
    /// Send a FIND_NODE request for `target` to `peer`.
    SendFindNode { peer: KadID, target: KadID },
    /// Send a FIND_VALUE request for `target` to `peer`.
    SendFindValue { peer: KadID, target: KadID },
    /// The lookup is over; this is its outcome.
    Finished(QueryResultKind),
}

/// A `QueryAction` as a mathematical value.
#[allow(inconsistent_fields)]
pub enum QueryEffect {
    Discover(Peer),
    SendFindNode { peer: KadID, target: KadID },
    SendFindValue { peer: KadID, target: KadID },
    FoundNodes { closest: Seq<KadID> },
    FoundValue { value: Option<Seq<u8>>, closest: Option<KadID> },
}

/// The bytes of an optional value.
pub open spec fn value_view(v: Option<Vec<u8>>) -> Option<Seq<u8>> {
    match v {
        Some(bytes) => Some(bytes@),
        None => None,
    }
}

impl View for QueryAction {
    type V = QueryEffect;

    open spec fn view(&self) -> QueryEffect {
        match *self {
            QueryAction::Discover(p) => QueryEffect::Discover(p),
            QueryAction::SendFindNode { peer, target } => QueryEffect::SendFindNode {
                peer,
                target,
            },
            QueryAction::SendFindValue { peer, target } => QueryEffect::SendFindValue {
                peer,
                target,
            },
            QueryAction::Finished(QueryResultKind::FindNode { closest }) => QueryEffect::FoundNodes {
                closest: closest@,
            },
            QueryAction::Finished(
                QueryResultKind::FindValue { value, closest },
            ) => QueryEffect::FoundValue { value: value_view(value), closest },
        }
    }
}

/// The actions of an outbox as mathematical values.
pub open spec fn effects(s: Seq<QueryAction>) -> Seq<QueryEffect> {
    s.map_values(|a: QueryAction| a@)
}

/// A request may go out: fewer than `alpha` are in flight and a pending
/// peer stands among the nearest `k`.
pub open spec fn can_request(s: Seq<QPeerEntry>, inflight: nat, alpha: nat, k: nat) -> bool {
    inflight < alpha && count_state(horizon(s, k), QPeerState::Pending) > 0
}

/// The nearest pending peer becomes in progress.
pub open spec fn request_step(s: Seq<QPeerEntry>) -> Seq<QPeerEntry> {
    let f = first_index(s, QPeerState::Pending);
    s.update(f, QPeerEntry { id: s[f].id, state: QPeerState::InProgress })
}

/// The peers that a round of requests contacts, in order.
pub open spec fn requested(s: Seq<QPeerEntry>, inflight: nat, alpha: nat, k: nat) -> Seq<KadID>
    decreases alpha - inflight,
{
    if can_request(s, inflight, alpha, k) {
        seq![s[first_index(s, QPeerState::Pending)].id] + requested(
            request_step(s),
            inflight + 1,
            alpha,
            k,
        )
    } else {
        Seq::empty()
    }
}

/// The peer set after a round of requests.
pub open spec fn after_requests(s: Seq<QPeerEntry>, inflight: nat, alpha: nat, k: nat) -> Seq<
    QPeerEntry,
>
    decreases alpha - inflight,
{
    if can_request(s, inflight, alpha, k) {
        after_requests(request_step(s), inflight + 1, alpha, k)
    } else {
        s
    }
}

/// The request that a lookup of `kind` for `target` sends to `peer`.
pub open spec fn send_effect(kind: QueryKind, peer: KadID, target: KadID) -> QueryEffect {
    match kind {
        QueryKind::FindNode => QueryEffect::SendFindNode { peer, target },
        QueryKind::FindValue => QueryEffect::SendFindValue { peer, target },
    }
}

pub open spec fn send_effects(kind: QueryKind, peers: Seq<KadID>, target: KadID) -> Seq<
    QueryEffect,
> {
    Seq::new(peers.len(), |i: int| send_effect(kind, peers[i], target))
}

/// The records of requests sent to `peers` at time `now`.
pub open spec fn new_requests(peers: Seq<KadID>, now: u64) -> Seq<ActiveRequest> {
    Seq::new(peers.len(), |i: int| ActiveRequest { peer: peers[i], start: now })
}

/// A lookup is over when no request is in flight and no pending peer stands
/// among the nearest `k`.
pub open spec fn spec_status(s: Seq<QPeerEntry>, k: nat) -> QueryStatus {
    if count_state(s, QPeerState::InProgress) == 0 && count_state(
        horizon(s, k),
        QPeerState::Pending,
    ) == 0 {
        QueryStatus::Finished
    } else {
        QueryStatus::Active
    }
}

/// The peer set after each peer of `peers` other than `local` is added, in order.
pub open spec fn spec_add_all(
    s: Seq<QPeerEntry>,
    target: Seq<u8>,
    local: Seq<u8>,
    peers: Seq<Peer>,
) -> Seq<QPeerEntry>
    decreases peers.len(),
{
    if peers.len() == 0 {
        s
    } else if peers[0].id@ == local {
        spec_add_all(s, target, local, peers.skip(1))
    } else {
        spec_add_all(spec_add(s, target, peers[0].id), target, local, peers.skip(1))
    }
}

/// One `Discover` for each peer of `peers` other than `local`, in order.
pub open spec fn discoveries(peers: Seq<Peer>, local: Seq<u8>) -> Seq<QueryEffect>
    decreases peers.len(),
{
    if peers.len() == 0 {
        Seq::empty()
    } else if peers.last().id@ == local {
        discoveries(peers.drop_last(), local)
    } else {
        discoveries(peers.drop_last(), local).push(QueryEffect::Discover(peers.last()))
    }
}

/// The index of the first request to `id`, or the length of `a` if there is none.
pub open spec fn active_index(a: Seq<ActiveRequest>, id: Seq<u8>) -> int
    decreases a.len(),
{
    if a.len() == 0 {
        0
    } else if a[0].peer@ == id {
        0
    } else {
        1 + active_index(a.skip(1), id)
    }
}

/// The requests without the first one to `id`, whose place the last one takes.
pub open spec fn spec_remove_active(a: Seq<ActiveRequest>, id: Seq<u8>) -> Seq<ActiveRequest> {
    let i = active_index(a, id);
    if i < a.len() {
        a.update(i, a.last()).drop_last()
    } else {
        a
    }
}

/// The requests that have waited longer than the timeout at time `now`.
pub open spec fn expired(now: u64) -> spec_fn(ActiveRequest) -> bool {
    |r: ActiveRequest| r.start < now && now - r.start > REQUEST_TIMEOUT_MS
}

/// The requests that have not waited longer than the timeout at time `now`.
pub open spec fn alive(now: u64) -> spec_fn(ActiveRequest) -> bool {
    |r: ActiveRequest| !(r.start < now && now - r.start > REQUEST_TIMEOUT_MS)
}

/// The first identifier of `ids` that differs from `provider`.
pub open spec fn first_other(ids: Seq<KadID>, provider: Option<KadID>) -> Option<KadID>
    decreases ids.len(),
{
    if ids.len() == 0 {
        None
    } else if provider.is_some() && provider.unwrap()@ == ids[0]@ {
        first_other(ids.skip(1), provider)
    } else {
        Some(ids[0])
    }
}

/// The outcome that a lookup reports when it is over.
pub open spec fn finish_effect(
    kind: QueryKind,
    s: Seq<QPeerEntry>,
    value: Option<Seq<u8>>,
    provider: Option<KadID>,
) -> QueryEffect {
    match kind {
        QueryKind::FindNode => QueryEffect::FoundNodes {
            closest: ids_in_state(s, QPeerState::Finished),
        },
        QueryKind::FindValue => QueryEffect::FoundValue {
            value,
            closest: first_other(ids_in_state(s, QPeerState::Finished), provider),
        },
    }
}

/// The state of a lookup in which each request that timed out is marked
/// failed in turn and followed by a round of requests.
pub struct Expiry {
    pub entries: Seq<QPeerEntry>,
    pub sent: Seq<KadID>,
    pub status: QueryStatus,
}

pub open spec fn expire_all(
    s: Seq<QPeerEntry>,
    status: QueryStatus,
    timed: Seq<ActiveRequest>,
    alpha: nat,
    k: nat,
) -> Expiry
    decreases timed.len(),
{
    if timed.len() == 0 {
        Expiry { entries: s, sent: Seq::empty(), status }
    } else {
        let s1 = spec_set(s, timed[0].peer@, QPeerState::Failed);
        let inflight = count_state(s1, QPeerState::InProgress);
        let s2 = after_requests(s1, inflight, alpha, k);
        let rest = expire_all(s2, spec_status(s2, k), timed.skip(1), alpha, k);
        Expiry {
            entries: rest.entries,
            sent: requested(s1, inflight, alpha, k) + rest.sent,
            status: rest.status,
        }
    }
}

/// One iterative lookup: its candidates, the requests in flight and, for a
/// value lookup, what was found.
#[derive(Debug)]
pub struct Query {
    params: KadParams,
    local_id: KadID,
    descriptor: QueryDescriptor,
    pset: QPeerSet,
    active_requests: Vec<ActiveRequest>,
    value: Option<Vec<u8>>,
    value_provider: Option<KadID>,
}

impl Query {
    /// The candidates, nearest to the target first.
    pub closed spec fn peers(&self) -> Seq<QPeerEntry> {
        self.pset.entries()
    }

    /// The requests in flight.
    pub closed spec fn active(&self) -> Seq<ActiveRequest> {
        self.active_requests@
    }

    pub closed spec fn kind(&self) -> QueryKind {
        self.descriptor.kind
    }

    pub closed spec fn target(&self) -> KadID {
        self.descriptor.target
    }

    pub closed spec fn local(&self) -> Seq<u8> {
        self.local_id@
    }

    pub closed spec fn alpha(&self) -> nat {
        self.params.alpha as nat
    }

    pub closed spec fn k(&self) -> nat {
        self.params.k as nat
    }

    /// The value found, if any.
    pub closed spec fn value(&self) -> Option<Seq<u8>> {
        value_view(self.value)
    }

    /// The peer that gave the value.
    pub closed spec fn provider(&self) -> Option<KadID> {
        self.value_provider
    }

    /// The number of requests in flight, as the peer set counts them.
    pub open spec fn inflight(&self) -> nat {
        count_state(self.peers(), QPeerState::InProgress)
    }

    /// The peer set is ordered by distance to the target, and every request
    /// in flight is to one of its peers.
    pub closed spec fn wf(&self) -> bool {
        &&& self.pset.wf()
        &&& self.pset.target() == self.descriptor.target@
        &&& self.pset.limit() == self.params.k
        &&& forall|i: int|
            0 <= i < self.active_requests@.len() ==> entries_contain(
                self.pset.entries(),
                (#[trigger] self.active_requests@[i]).peer@,
            )
    }

    /// Everything but the requests in flight is the same in both lookups.
    pub closed spec fn rest_kept(&self, other: &Query) -> bool {
        &&& self.pset == other.pset
        &&& self.params == other.params
        &&& self.descriptor == other.descriptor
        &&& self.local_id == other.local_id
        &&& self.value == other.value
        &&& self.value_provider == other.value_provider
    }

    /// Both lookups have the same kind, target, local identifier and parameters.
    pub open spec fn same_setup(&self, other: &Query) -> bool {
        &&& self.kind() == other.kind()
        &&& self.target() == other.target()
        &&& self.local() == other.local()
        &&& self.alpha() == other.alpha()
        &&& self.k() == other.k()
    }

    /// The kind of the lookup.
    pub fn query_kind(&self) -> (r: QueryKind)
        ensures
            r == self.kind(),
    {
        self.descriptor.kind
    }

    /// The target of the lookup.
    pub fn query_target(&self) -> (r: KadID)
        ensures
            r == self.target(),
    {
        self.descriptor.target
    }

    /// True exactly when `peer` is one of the candidates.
    pub fn knows(&self, peer: &KadID) -> (r: bool)
        requires
            self.wf(),
        ensures
            r == entries_contain(self.peers(), peer@),
    {
        self.pset.contains(peer)
    }

    /// The state of each candidate, nearest to the target first.
    pub fn candidates(&self) -> (r: &Vec<QPeerEntry>)
        ensures
            r@ == self.peers(),
    {
        self.pset.iter()
    }

    /// The requests in flight.
    pub fn requests(&self) -> (r: &Vec<ActiveRequest>)
        ensures
            r@ == self.active(),
    {
        &self.active_requests
    }

    /// A lookup whose candidates are the seeds other than the local node, all pending.
    pub fn new(
        params: KadParams,
        local_id: KadID,
        descriptor: QueryDescriptor,
        seeds: &Vec<Peer>,
    ) -> (r: Self)
        ensures
            r.wf(),
            r.peers() == spec_add_all(Seq::empty(), descriptor.target@, local_id@, seeds@),
            r.active() == Seq::<ActiveRequest>::empty(),
            r.kind() == descriptor.kind,
            r.target() == descriptor.target,
            r.local() == local_id@,
            r.alpha() == params.alpha,
            r.k() == params.k,
            r.value().is_none(),
            r.provider().is_none(),
    {
        let mut pset = QPeerSet::new(params.k, descriptor.target);
        let mut i: usize = 0;
        assert(seeds@.skip(0) =~= seeds@);
        while i < seeds.len()
            invariant
                i <= seeds@.len(),
                pset.wf(),
                pset.target() == descriptor.target@,
                pset.limit() == params.k,
                spec_add_all(Seq::empty(), descriptor.target@, local_id@, seeds@) == spec_add_all(
                    pset.entries(),
                    descriptor.target@,
                    local_id@,
                    seeds@.skip(i as int),
                ),
            decreases seeds@.len() - i,
        {
            assert(seeds@.skip(i as int)[0] == seeds@[i as int]);
            assert(seeds@.skip(i as int).skip(1) =~= seeds@.skip(i + 1));
            if !seeds[i].id.same(&local_id) {
                pset.add(&seeds[i].id);
            }
            i += 1;
        }
        Self {
            params,
            local_id,
            descriptor,
            pset,
            active_requests: Vec::new(),
            value: None,
            value_provider: None,
        }
    }

    /// Sends the first round of requests; a lookup without candidates is over at once.
    pub fn start(&mut self, now: u64, out: &mut Vec<QueryAction>) -> (status: QueryStatus)
        requires
            old(self).wf(),
        ensures
            final(self).wf(),
            final(self).same_setup(old(self)),
            final(self).peers() == after_requests(
                old(self).peers(),
                old(self).inflight(),
                old(self).alpha(),
                old(self).k(),
            ),
            final(self).active() == old(self).active() + new_requests(
                requested(old(self).peers(), old(self).inflight(), old(self).alpha(), old(self).k()),
                now,
            ),
            status == spec_status(final(self).peers(), old(self).k()),
            final(self).provider() == old(self).provider(),
            effects(final(out)@) == effects(old(out)@) + send_effects(
                old(self).kind(),
                requested(old(self).peers(), old(self).inflight(), old(self).alpha(), old(self).k()),
                old(self).target(),
            ) + (if status == QueryStatus::Finished {
                seq![
                    finish_effect(
                        old(self).kind(),
                        final(self).peers(),
                        old(self).value(),
                        old(self).provider(),
                    ),
                ]
            } else {
                Seq::empty()
            }),
    {
        let status = self.make_requests(now, out);
        if status == QueryStatus::Finished {
            self.finish(out);
        } else {
            assert(effects(out@) + Seq::<QueryEffect>::empty() =~= effects(out@));
        }
        status
    }

    /// Sends requests to the nearest pending peers for as long as fewer than
    /// `alpha` are in flight and a pending peer stands among the nearest `k`.
    pub fn make_requests(&mut self, now: u64, out: &mut Vec<QueryAction>) -> (status: QueryStatus)
        requires
            old(self).wf(),
        ensures
            final(self).wf(),
            final(self).same_setup(old(self)),
            final(self).peers() == after_requests(
                old(self).peers(),
                old(self).inflight(),
                old(self).alpha(),
                old(self).k(),
            ),
            final(self).active() == old(self).active() + new_requests(
                requested(old(self).peers(), old(self).inflight(), old(self).alpha(), old(self).k()),
                now,
            ),
            effects(final(out)@) == effects(old(out)@) + send_effects(
                old(self).kind(),
                requested(old(self).peers(), old(self).inflight(), old(self).alpha(), old(self).k()),
                old(self).target(),
            ),
            final(self).value() == old(self).value(),
            final(self).provider() == old(self).provider(),
            status == spec_status(final(self).peers(), old(self).k()),
            !can_request(
                final(self).peers(),
                final(self).inflight(),
                old(self).alpha(),
                old(self).k(),
            ),
            forall|id: Seq<u8>|
                entries_contain(final(self).peers(), id) <==> entries_contain(old(self).peers(), id),
    {
        let ghost s0 = self.pset.entries();
        let ghost i0 = count_state(s0, QPeerState::InProgress);
        let ghost alpha = self.params.alpha as nat;
        let ghost k = self.params.k as nat;
        let ghost active0 = self.active_requests@;
        let ghost out0 = effects(out@);
        let ghost kind = self.descriptor.kind;
        let ghost target = self.descriptor.target;
        let ghost mut done: Seq<KadID> = Seq::empty();
        proof {
            assert(active0 + new_requests(done, now) =~= active0);
            assert(out0 + send_effects(kind, done, target) =~= out0);
            assert(done + requested(s0, i0, alpha, k) =~= requested(s0, i0, alpha, k));
        }
        while self.pset.num_in_progress() < self.params.alpha && self.pset.num_candidates() > 0
            invariant
                self.wf(),
                self.same_setup(old(self)),
                alpha == self.params.alpha,
                k == self.params.k,
                kind == self.descriptor.kind,
                target == self.descriptor.target,
                self.value == old(self).value,
                self.value_provider == old(self).value_provider,
                after_requests(s0, i0, alpha, k) == after_requests(
                    self.pset.entries(),
                    self.pset.in_progress(),
                    alpha,
                    k,
                ),
                requested(s0, i0, alpha, k) == done + requested(
                    self.pset.entries(),
                    self.pset.in_progress(),
                    alpha,
                    k,
                ),
                self.active_requests@ == active0 + new_requests(done, now),
                effects(out@) == out0 + send_effects(kind, done, target),
                forall|id: Seq<u8>|
                    entries_contain(self.pset.entries(), id) <==> entries_contain(s0, id),
            decreases self.params.alpha - self.pset.in_progress(),
        {
            let ghost s = self.pset.entries();
            let ghost f = first_index(s, QPeerState::Pending);
            proof {
                lemma_first_index(s, QPeerState::Pending);
                let h = horizon(s, k);
                lemma_count_positive(h, QPeerState::Pending);
                let w = choose|w: int| 0 <= w < h.len() && (#[trigger] h[w]).state == QPeerState::Pending;
                assert(h[w] == s[w]);
                assert(f < s.len());
                lemma_index_unique(s, self.pset.target(), s[f].id@, f);
                lemma_count_update(
                    s,
                    f,
                    QPeerEntry { id: s[f].id, state: QPeerState::InProgress },
                    QPeerState::InProgress,
                );
            }
            let candidate = match self.pset.candidate() {
                Some(c) => c,
                None => {
                    assert(false);
                    return QueryStatus::Active;
                },
            };
            self.pset.set(&candidate, QPeerState::InProgress);
            let ghost active1 = self.active_requests@;
            self.add_active_request(&candidate, now);
            let ghost out1 = out@;
            match self.descriptor.kind {
                QueryKind::FindNode => {
                    out.push(
                        QueryAction::SendFindNode { peer: candidate, target: self.descriptor.target },
                    );
                },
                QueryKind::FindValue => {
                    out.push(
                        QueryAction::SendFindValue {
                            peer: candidate,
                            target: self.descriptor.target,
                        },
                    );
                },
            }
            proof {
                let prev = done;
                done = done.push(candidate);
                assert(self.pset.entries() == request_step(s));
                assert(prev + (seq![candidate] + requested(
                    self.pset.entries(),
                    self.pset.in_progress(),
                    alpha,
                    k,
                )) =~= done + requested(self.pset.entries(), self.pset.in_progress(), alpha, k));
                assert(self.active_requests@ =~= active0 + new_requests(done, now));
                assert(effects(out@) =~= effects(out1).push(send_effect(kind, candidate, target)));
                assert(effects(out@) =~= out0 + send_effects(kind, done, target));
            }
        }
        proof {
            assert(done + Seq::<KadID>::empty() =~= done);
        }
        if self.pset.num_in_progress() == 0 && self.pset.num_candidates() == 0 {
            QueryStatus::Finished
        } else {
            QueryStatus::Active
        }
    }

    /// Records that a request to `peer` went out at time `now`.
    pub fn add_active_request(&mut self, peer: &KadID, now: u64)
        requires
            old(self).wf(),
            entries_contain(old(self).peers(), peer@),
        ensures
            final(self).wf(),
            final(self).same_setup(old(self)),
            final(self).peers() == old(self).peers(),
            final(self).active() == old(self).active().push(
                ActiveRequest { peer: *peer, start: now },
            ),
            final(self).value() == old(self).value(),
            final(self).provider() == old(self).provider(),
            final(self).rest_kept(old(self)),
    {
        self.active_requests.push(ActiveRequest { peer: *peer, start: now });
    }

    /// Drops the record of the first request to `peer`, if there is one.
    pub fn remove_active_request(&mut self, peer: &KadID)
        requires
            old(self).wf(),
        ensures
            final(self).wf(),
            final(self).same_setup(old(self)),
            final(self).peers() == old(self).peers(),
            final(self).active() == spec_remove_active(old(self).active(), peer@),
            final(self).value() == old(self).value(),
            final(self).provider() == old(self).provider(),
            final(self).rest_kept(old(self)),
    {
        let mut i: usize = 0;
        let ghost a = self.active_requests@;
        assert(a.skip(0) =~= a);
        while i < self.active_requests.len()
            invariant
                i <= a.len(),
                a == self.active_requests@,
                *self == *old(self),
                self.wf(),
                active_index(a, peer@) == i + active_index(a.skip(i as int), peer@),
            decreases a.len() - i,
        {
            assert(a.skip(i as int)[0] == a[i as int]);
            assert(a.skip(i as int).skip(1) =~= a.skip(i + 1));
            if self.active_requests[i].peer.same(peer) {
                self.active_requests.swap_remove(i);
                proof {
                    let b = self.active_requests@;
                    assert forall|j: int| 0 <= j < b.len() implies entries_contain(
                        self.pset.entries(),
                        (#[trigger] b[j]).peer@,
                    ) by {
                        let src = if j == i {
                            a.len() - 1
                        } else {
                            j
                        };
                        assert(b[j] == a[src]);
                    }
                }
                return ;
            }
            i += 1;
        }
    }

    /// Adds the peers that an answer named, other than the local node, as
    /// pending candidates and reports each of them.
    pub fn add_extra_peers(&mut self, peers: &Vec<Peer>, out: &mut Vec<QueryAction>)
        requires
            old(self).wf(),
        ensures
            final(self).wf(),
            final(self).same_setup(old(self)),
            final(self).peers() == spec_add_all(
                old(self).peers(),
                old(self).target()@,
                old(self).local(),
                peers@,
            ),
            final(self).active() == old(self).active(),
            final(self).value() == old(self).value(),
            final(self).provider() == old(self).provider(),
            final(self).inflight() == old(self).inflight(),
            effects(final(out)@) == effects(old(out)@) + discoveries(peers@, old(self).local()),
    {
        let ghost s0 = self.pset.entries();
        let ghost out0 = effects(out@);
        let ghost local = self.local_id@;
        let ghost target = self.descriptor.target@;
        let mut i: usize = 0;
        proof {
            assert(peers@.skip(0) =~= peers@);
            assert(peers@.take(0) =~= Seq::<Peer>::empty());
            assert(out0 + discoveries(peers@.take(0), local) =~= out0);
        }
        while i < peers.len()
            invariant
                i <= peers@.len(),
                self.wf(),
                self.same_setup(old(self)),
                local == self.local_id@,
                target == self.descriptor.target@,
                self.active_requests == old(self).active_requests,
                self.value == old(self).value,
                self.value_provider == old(self).value_provider,
                self.pset.in_progress() == old(self).pset.in_progress(),
                spec_add_all(s0, target, local, peers@) == spec_add_all(
                    self.pset.entries(),
                    target,
                    local,
                    peers@.skip(i as int),
                ),
                effects(out@) == out0 + discoveries(peers@.take(i as int), local),
            decreases peers@.len() - i,
        {
            let peer = peers[i];
            let ghost out1 = out@;
            proof {
                assert(peers@.skip(i as int)[0] == peer);
                assert(peers@.skip(i as int).skip(1) =~= peers@.skip(i + 1));
                assert(peers@.take(i + 1).drop_last() =~= peers@.take(i as int));
                assert(peers@.take(i + 1).last() == peer);
            }
            if !peer.id.same(&self.local_id) {
                self.pset.add(&peer.id);
                out.push(QueryAction::Discover(peer));
                proof {
                    assert(effects(out@) =~= effects(out1).push(QueryEffect::Discover(peer)));
                    assert(effects(out@) =~= out0 + discoveries(peers@.take(i + 1), local));
                }
            }
            i += 1;
        }
        assert(peers@.take(i as int) =~= peers@);
    }

    /// Reports the outcome of the lookup.
    pub fn finish(&mut self, out: &mut Vec<QueryAction>)
        requires
            old(self).wf(),
        ensures
            final(self).wf(),
            final(self).same_setup(old(self)),
            final(self).peers() == old(self).peers(),
            final(self).active() == old(self).active(),
            final(self).provider() == old(self).provider(),
            effects(final(out)@) == effects(old(out)@).push(
                finish_effect(
                    old(self).kind(),
                    old(self).peers(),
                    old(self).value(),
                    old(self).provider(),
                ),
            ),
            effects(final(out)@) == effects(old(out)@) + seq![
                finish_effect(
                    old(self).kind(),
                    old(self).peers(),
                    old(self).value(),
                    old(self).provider(),
                ),
            ],
    {
        let ghost out0 = out@;
        match self.descriptor.kind {
            QueryKind::FindNode => {
                let closest = self.pset.closest();
                out.push(QueryAction::Finished(QueryResultKind::FindNode { closest }));
            },
            QueryKind::FindValue => {
                let finished = self.pset.iter_finished();
                let mut closest: Option<KadID> = None;
                let mut i: usize = 0;
                assert(finished@.skip(0) =~= finished@);
                while i < finished.len() && closest.is_none()
                    invariant
                        i <= finished@.len(),
                        first_other(finished@, self.value_provider) == (if closest.is_some() {
                            closest
                        } else {
                            first_other(finished@.skip(i as int), self.value_provider)
                        }),
                    decreases finished@.len() - i,
                {
                    assert(finished@.skip(i as int)[0] == finished@[i as int]);
                    assert(finished@.skip(i as int).skip(1) =~= finished@.skip(i + 1));
                    let is_provider = match &self.value_provider {
                        Some(p) => p.same(&finished[i]),
                        None => false,
                    };
                    if !is_provider {
                        closest = Some(finished[i]);
                    }
                    i += 1;
                }
                let value = self.value.take();
                out.push(QueryAction::Finished(QueryResultKind::FindValue { value, closest }));
            },
        }
        proof {
            let e = finish_effect(
                old(self).kind(),
                old(self).peers(),
                old(self).value(),
                old(self).provider(),
            );
            assert(effects(out@) =~= effects(out0).push(e));
            assert(effects(out0).push(e) =~= effects(out0) + seq![e]);
        }
    }

    /// Takes the answer of `peer` to a FIND_NODE request: the peer has
    /// finished, the peers it named become candidates, and the next requests go out.
    pub fn on_find_node_response(
        &mut self,
        peer: KadID,
        peers: Vec<Peer>,
        now: u64,
        out: &mut Vec<QueryAction>,
    ) -> (status: QueryStatus)
        requires
            old(self).wf(),
            old(self).kind() == QueryKind::FindNode,
            entries_contain(old(self).peers(), peer@),
        ensures
            final(self).wf(),
            final(self).same_setup(old(self)),
            answered(old(self), final(self), peer, peers@, now, status, effects(old(out)@), effects(final(out)@)),
    {
        self.pset.set(&peer, QPeerState::Finished);
        self.remove_active_request(&peer);
        self.add_extra_peers(&peers, out);
        let status = self.make_requests(now, out);
        if status == QueryStatus::Finished {
            self.finish(out);
        } else {
            assert(effects(out@) + Seq::<QueryEffect>::empty() =~= effects(out@));
        }
        status
    }

    /// Takes the answer of `peer` to a FIND_VALUE request. An answer with a
    /// value ends the lookup at once; one without is handled as an answer
    /// to FIND_NODE.
    pub fn on_find_value_response(
        &mut self,
        peer: KadID,
        closest: Vec<Peer>,
        value: Option<Vec<u8>>,
        now: u64,
        out: &mut Vec<QueryAction>,
    ) -> (status: QueryStatus)
        requires
            old(self).wf(),
            old(self).kind() == QueryKind::FindValue,
            entries_contain(old(self).peers(), peer@),
        ensures
            final(self).wf(),
            final(self).same_setup(old(self)),
            value.is_none() ==> answered(
                old(self),
                final(self),
                peer,
                closest@,
                now,
                status,
                effects(old(out)@),
                effects(final(out)@),
            ),
            value.is_some() ==> status == QueryStatus::Finished && found(
                old(self),
                final(self),
                peer,
                closest@,
                value.unwrap()@,
                effects(old(out)@),
                effects(final(out)@),
            ),
    {
        self.pset.set(&peer, QPeerState::Finished);
        self.remove_active_request(&peer);
        self.add_extra_peers(&closest, out);
        match value {
            Some(value) => {
                self.value = Some(value);
                self.value_provider = Some(peer);
                self.finish(out);
                QueryStatus::Finished
            },
            None => {
                let status = self.make_requests(now, out);
                if status == QueryStatus::Finished {
                    self.finish(out);
                } else {
                    assert(effects(out@) + Seq::<QueryEffect>::empty() =~= effects(out@));
                }
                status
            },
        }
    }

    /// Marks each request that has waited longer than the timeout as failed,
    /// each followed by a round of requests, and reports the outcome if the
    /// lookup is over after the last of them.
    pub fn check_timeouts(&mut self, now: u64, out: &mut Vec<QueryAction>) -> (status: QueryStatus)
        requires
            old(self).wf(),
        ensures
            final(self).wf(),
            final(self).same_setup(old(self)),
            timed_out(
                old(self),
                final(self),
                now,
                status,
                effects(old(out)@),
                effects(final(out)@),
            ),
    {
        let ghost before = self.active_requests@;
        let ghost s0 = self.pset.entries();
        let ghost out0 = effects(out@);
        let ghost alpha = self.params.alpha as nat;
        let ghost k = self.params.k as nat;
        let ghost kind = self.descriptor.kind;
        let ghost target = self.descriptor.target;
        let mut kept: Vec<ActiveRequest> = Vec::new();
        let mut timed: Vec<ActiveRequest> = Vec::new();
        let mut i: usize = 0;
        proof {
            assert(before.take(0).filter(alive(now)) =~= Seq::<ActiveRequest>::empty());
            assert(before.take(0).filter(expired(now)) =~= Seq::<ActiveRequest>::empty());
        }
        while i < self.active_requests.len()
            invariant
                i <= before.len(),
                *self == *old(self),
                self.wf(),
                before == self.active_requests@,
                s0 == self.pset.entries(),
                kept@ == before.take(i as int).filter(alive(now)),
                timed@ == before.take(i as int).filter(expired(now)),
                forall|j: int|
                    0 <= j < kept@.len() ==> entries_contain(s0, (#[trigger] kept@[j]).peer@),
                forall|j: int|
                    0 <= j < timed@.len() ==> entries_contain(s0, (#[trigger] timed@[j]).peer@),
            decreases before.len() - i,
        {
            let req = self.active_requests[i];
            proof {
                assert(before.take(i + 1) =~= before.take(i as int).push(req));
                before.take(i as int).lemma_filter_push(req, alive(now));
                before.take(i as int).lemma_filter_push(req, expired(now));
                assert(entries_contain(s0, before[i as int].peer@));
            }
            if req.start < now && now - req.start > REQUEST_TIMEOUT_MS {
                timed.push(req);
            } else {
                kept.push(req);
            }
            i += 1;
        }
        assert(before.take(i as int) =~= before);
        self.active_requests = kept;
        let ghost kept0 = self.active_requests@;
        let ghost total = expire_all(s0, QueryStatus::Active, timed@, alpha, k);
        let ghost mut done: Seq<KadID> = Seq::empty();
        let mut status = QueryStatus::Active;
        let mut j: usize = 0;
        proof {
            assert(timed@.skip(0) =~= timed@);
            assert(done + total.sent =~= total.sent);
            assert(kept0 + new_requests(done, now) =~= kept0);
            assert(out0 + send_effects(kind, done, target) =~= out0);
        }
        while j < timed.len()
            invariant
                j <= timed@.len(),
                self.wf(),
                self.same_setup(old(self)),
                alpha == self.params.alpha,
                k == self.params.k,
                kind == self.descriptor.kind,
                target == self.descriptor.target,
                self.value() == old(self).value(),
                self.value_provider == old(self).value_provider,
                forall|id: Seq<u8>| entries_contain(self.pset.entries(), id) <==> entries_contain(s0, id),
                forall|x: int|
                    0 <= x < timed@.len() ==> entries_contain(s0, (#[trigger] timed@[x]).peer@),
                total.entries == expire_all(
                    self.pset.entries(),
                    status,
                    timed@.skip(j as int),
                    alpha,
                    k,
                ).entries,
                total.status == expire_all(
                    self.pset.entries(),
                    status,
                    timed@.skip(j as int),
                    alpha,
                    k,
                ).status,
                total.sent == done + expire_all(
                    self.pset.entries(),
                    status,
                    timed@.skip(j as int),
                    alpha,
                    k,
                ).sent,
                self.active_requests@ == kept0 + new_requests(done, now),
                effects(out@) == out0 + send_effects(kind, done, target),
            decreases timed@.len() - j,
        {
            let peer = timed[j].peer;
            let ghost s = self.pset.entries();
            let ghost active1 = self.active_requests@;
            let ghost out1 = effects(out@);
            proof {
                assert(timed@.skip(j as int)[0] == timed@[j as int]);
                assert(timed@.skip(j as int).skip(1) =~= timed@.skip(j + 1));
                assert(entries_contain(s0, timed@[j as int].peer@));
            }
            self.pset.set(&peer, QPeerState::Failed);
            let ghost s1 = self.pset.entries();
            let ghost sent = requested(s1, count_state(s1, QPeerState::InProgress), alpha, k);
            status = self.make_requests(now, out);
            proof {
                let prev = done;
                done = done + sent;
                let rest = expire_all(self.pset.entries(), status, timed@.skip(j + 1), alpha, k);
                assert(prev + (sent + rest.sent) =~= done + rest.sent);
                assert(active1 + new_requests(sent, now) =~= kept0 + new_requests(done, now));
                assert(out1 + send_effects(kind, sent, target) =~= out0 + send_effects(
                    kind,
                    done,
                    target,
                ));
            }
            j += 1;
        }
        proof {
            assert(done + Seq::<KadID>::empty() =~= done);
        }
        if status == QueryStatus::Finished {
            self.finish(out);
        } else {
            assert(effects(out@) + Seq::<QueryEffect>::empty() =~= effects(out@));
        }
        status
    }
}

/// A round of requests keeps the fan-out bounded: it sends no more requests
/// than `alpha` leaves room for, each request turns one pending peer into
/// one in progress, and afterwards no further request can go out.
pub proof fn lemma_round_of_requests(
    s: Seq<QPeerEntry>,
    target: Seq<u8>,
    inflight: nat,
    alpha: nat,
    k: nat,
)
    requires
        entries_sorted(s, target),
        inflight == count_state(s, QPeerState::InProgress),
    ensures
        inflight <= alpha ==> requested(s, inflight, alpha, k).len() <= alpha - inflight,
        count_state(after_requests(s, inflight, alpha, k), QPeerState::InProgress) == inflight
            + requested(s, inflight, alpha, k).len(),
        count_state(after_requests(s, inflight, alpha, k), QPeerState::Pending) + requested(
            s,
            inflight,
            alpha,
            k,
        ).len() == count_state(s, QPeerState::Pending),
        entries_sorted(after_requests(s, inflight, alpha, k), target),
        after_requests(s, inflight, alpha, k).len() == s.len(),
        !can_request(
            after_requests(s, inflight, alpha, k),
            inflight + requested(s, inflight, alpha, k).len(),
            alpha,
            k,
        ),
    decreases alpha - inflight,
{
    if can_request(s, inflight, alpha, k) {
        let f = first_index(s, QPeerState::Pending);
        lemma_first_index(s, QPeerState::Pending);
        let h = horizon(s, k);
        lemma_count_positive(h, QPeerState::Pending);
        let w = choose|w: int| 0 <= w < h.len() && (#[trigger] h[w]).state == QPeerState::Pending;
        assert(h[w] == s[w]);
        assert(f < s.len());
        let e = QPeerEntry { id: s[f].id, state: QPeerState::InProgress };
        let s1 = request_step(s);
        lemma_count_update(s, f, e, QPeerState::InProgress);
        lemma_count_update(s, f, e, QPeerState::Pending);
        assert forall|a: int, b: int| 0 <= a < b < s1.len() implies crate::qpeerset::id_dist(
            target,
            (#[trigger] s1[a]).id@,
        ) < crate::qpeerset::id_dist(target, (#[trigger] s1[b]).id@) by {
            assert(s1[a].id@ == s[a].id@);
            assert(s1[b].id@ == s[b].id@);
        }
        lemma_round_of_requests(s1, target, inflight + 1, alpha, k);
        let rest = requested(s1, inflight + 1, alpha, k);
        assert(requested(s, inflight, alpha, k) == seq![s[f].id] + rest);
        assert((seq![s[f].id] + rest).len() == 1 + rest.len());
    }
}

/// True when `s` holds the identifier `id` as failed.
pub open spec fn failed_in(s: Seq<QPeerEntry>, id: Seq<u8>) -> bool {
    exists|x: int| 0 <= x < s.len() && (#[trigger] s[x]).id@ == id && s[x].state == QPeerState::Failed
}

/// Setting the state of a peer changes the entry of that peer and no other.
pub proof fn lemma_set_state(s: Seq<QPeerEntry>, target: Seq<u8>, id: Seq<u8>, state: QPeerState)
    requires
        entries_sorted(s, target),
        entries_contain(s, id),
    ensures
        spec_set(s, id, state).len() == s.len(),
        entries_sorted(spec_set(s, id, state), target),
        forall|x: int|
            0 <= x < s.len() ==> (#[trigger] spec_set(s, id, state)[x]).id == s[x].id && spec_set(
                s,
                id,
                state,
            )[x].state == (if s[x].id@ == id {
                state
            } else {
                s[x].state
            }),
{
    let c = crate::qpeerset::index_of(s, id);
    let t = spec_set(s, id, state);
    assert forall|x: int| 0 <= x < s.len() implies (#[trigger] t[x]).id == s[x].id && t[x].state == (
    if s[x].id@ == id {
        state
    } else {
        s[x].state
    }) by {
        if x < c {
            assert(crate::qpeerset::id_dist(target, s[x].id@) < crate::qpeerset::id_dist(
                target,
                s[c].id@,
            ));
        } else if c < x {
            assert(crate::qpeerset::id_dist(target, s[c].id@) < crate::qpeerset::id_dist(
                target,
                s[x].id@,
            ));
        }
    }
    assert forall|a: int, b: int| 0 <= a < b < t.len() implies crate::qpeerset::id_dist(
        target,
        (#[trigger] t[a]).id@,
    ) < crate::qpeerset::id_dist(target, (#[trigger] t[b]).id@) by {
        assert(t[a].id == s[a].id);
        assert(t[b].id == s[b].id);
    }
}

/// A round of requests touches pending peers only.
pub proof fn lemma_requests_keep_settled(s: Seq<QPeerEntry>, inflight: nat, alpha: nat, k: nat)
    ensures
        after_requests(s, inflight, alpha, k).len() == s.len(),
        forall|x: int|
            0 <= x < s.len() ==> (#[trigger] after_requests(s, inflight, alpha, k)[x]).id
                == s[x].id,
        forall|x: int|
            0 <= x < s.len() && s[x].state != QPeerState::Pending ==> (#[trigger] after_requests(
                s,
                inflight,
                alpha,
                k,
            )[x]).state == s[x].state,
    decreases alpha - inflight,
{
    if can_request(s, inflight, alpha, k) {
        let f = first_index(s, QPeerState::Pending);
        lemma_first_index(s, QPeerState::Pending);
        let h = horizon(s, k);
        lemma_count_positive(h, QPeerState::Pending);
        let w = choose|w: int| 0 <= w < h.len() && (#[trigger] h[w]).state == QPeerState::Pending;
        assert(h[w] == s[w]);
        assert(f < s.len());
        let s1 = request_step(s);
        lemma_requests_keep_settled(s1, inflight + 1, alpha, k);
        let t = after_requests(s, inflight, alpha, k);
        assert forall|x: int| 0 <= x < s.len() implies (#[trigger] t[x]).id == s[x].id by {
            assert(s1[x].id == s[x].id);
        }
        assert forall|x: int| 0 <= x < s.len() && s[x].state != QPeerState::Pending implies (
        #[trigger] t[x]).state == s[x].state by {
            assert(s1[x] == s[x]);
        }
    }
}

/// A request that timed out leaves its peer failed: whatever the rounds of
/// requests that follow do, every peer whose request timed out, and every
/// peer that had failed before, is failed in the end.
pub proof fn lemma_timed_out_peers_fail(
    s: Seq<QPeerEntry>,
    target: Seq<u8>,
    status: QueryStatus,
    timed: Seq<ActiveRequest>,
    alpha: nat,
    k: nat,
)
    requires
        entries_sorted(s, target),
        forall|j: int| 0 <= j < timed.len() ==> entries_contain(s, (#[trigger] timed[j]).peer@),
    ensures
        entries_sorted(expire_all(s, status, timed, alpha, k).entries, target),
        expire_all(s, status, timed, alpha, k).entries.len() == s.len(),
        forall|x: int|
            0 <= x < s.len() ==> (#[trigger] expire_all(s, status, timed, alpha, k).entries[x]).id
                == s[x].id,
        forall|j: int|
            0 <= j < timed.len() ==> failed_in(
                expire_all(s, status, timed, alpha, k).entries,
                (#[trigger] timed[j]).peer@,
            ),
        forall|id: Seq<u8>|
            failed_in(s, id) ==> failed_in(expire_all(s, status, timed, alpha, k).entries, id),
    decreases timed.len(),
{
    if timed.len() > 0 {
        let id = timed[0].peer@;
        let s1 = spec_set(s, id, QPeerState::Failed);
        let inflight = count_state(s1, QPeerState::InProgress);
        let s2 = after_requests(s1, inflight, alpha, k);
        let rest = timed.skip(1);
        let end = expire_all(s2, spec_status(s2, k), rest, alpha, k).entries;
        lemma_set_state(s, target, id, QPeerState::Failed);
        lemma_requests_keep_settled(s1, inflight, alpha, k);
        assert forall|a: int, b: int| 0 <= a < b < s2.len() implies crate::qpeerset::id_dist(
            target,
            (#[trigger] s2[a]).id@,
        ) < crate::qpeerset::id_dist(target, (#[trigger] s2[b]).id@) by {
            assert(s2[a].id == s1[a].id && s1[a].id == s[a].id);
            assert(s2[b].id == s1[b].id && s1[b].id == s[b].id);
        }
        assert forall|j: int| 0 <= j < rest.len() implies entries_contain(
            s2,
            (#[trigger] rest[j]).peer@,
        ) by {
            assert(rest[j] == timed[j + 1]);
            let x = choose|x: int| 0 <= x < s.len() && (#[trigger] s[x]).id@ == timed[j + 1].peer@;
            assert(s2[x].id == s1[x].id && s1[x].id == s[x].id);
        }
        lemma_timed_out_peers_fail(s2, target, spec_status(s2, k), rest, alpha, k);
        assert(expire_all(s, status, timed, alpha, k).entries == end);
        assert forall|x: int| 0 <= x < s.len() implies (#[trigger] end[x]).id == s[x].id by {
            assert(end[x].id == s2[x].id && s2[x].id == s1[x].id && s1[x].id == s[x].id);
        }
        assert forall|other: Seq<u8>| failed_in(s, other) || other == id implies failed_in(
            s2,
            other,
        ) by {
            let x = if other == id {
                choose|x: int| 0 <= x < s.len() && (#[trigger] s[x]).id@ == id
            } else {
                choose|x: int|
                    0 <= x < s.len() && (#[trigger] s[x]).id@ == other && s[x].state
                        == QPeerState::Failed
            };
            assert(s1[x].id == s[x].id);
            assert(s1[x].state == QPeerState::Failed);
            assert(s2[x].id == s1[x].id && s2[x].state == s1[x].state);
        }
        assert forall|j: int| 0 <= j < timed.len() implies failed_in(
            end,
            (#[trigger] timed[j]).peer@,
        ) by {
            if j == 0 {
                assert(failed_in(s2, id));
            } else {
                assert(rest[j - 1] == timed[j]);
            }
        }
    }
}

/// How a value lookup stands after the answer of `peer` that held `value`:
/// the peer has finished and its request is dropped, the peers it named are
/// candidates and reported, and the value is reported with the nearest
/// other peer that has answered.
pub open spec fn found(
    pre: &Query,
    post: &Query,
    peer: KadID,
    peers: Seq<Peer>,
    value: Seq<u8>,
    out_pre: Seq<QueryEffect>,
    out_post: Seq<QueryEffect>,
) -> bool {
    let s1 = spec_set(pre.peers(), peer@, QPeerState::Finished);
    let s2 = spec_add_all(s1, pre.target()@, pre.local(), peers);
    &&& post.peers() == s2
    &&& post.active() == spec_remove_active(pre.active(), peer@)
    &&& post.provider() == Some(peer)
    &&& out_post == out_pre + discoveries(peers, pre.local()) + seq![
        finish_effect(QueryKind::FindValue, s2, Some(value), Some(peer)),
    ]
}

/// How a lookup stands after it was made from `seeds` and started: its
/// candidates are the seeds other than the local node, the first round of
/// requests has gone out, and the outcome is reported if it is over already.
pub open spec fn started(
    q: &Query,
    params: KadParams,
    local: Seq<u8>,
    descriptor: QueryDescriptor,
    seeds: Seq<Peer>,
    now: u64,
    status: QueryStatus,
    out_pre: Seq<QueryEffect>,
    out_post: Seq<QueryEffect>,
) -> bool {
    let s0 = spec_add_all(Seq::empty(), descriptor.target@, local, seeds);
    let n0 = count_state(s0, QPeerState::InProgress);
    let req = requested(s0, n0, params.alpha as nat, params.k as nat);
    &&& q.kind() == descriptor.kind
    &&& q.target() == descriptor.target
    &&& q.local() == local
    &&& q.alpha() == params.alpha
    &&& q.k() == params.k
    &&& q.peers() == after_requests(s0, n0, params.alpha as nat, params.k as nat)
    &&& q.active() == new_requests(req, now)
    &&& q.provider().is_none()
    &&& status == spec_status(q.peers(), params.k as nat)
    &&& out_post == out_pre + send_effects(descriptor.kind, req, descriptor.target) + (if status
        == QueryStatus::Finished {
        seq![finish_effect(descriptor.kind, q.peers(), None, None)]
    } else {
        Seq::empty()
    })
}

/// How a lookup stands after its timed-out requests were marked failed,
/// each followed by a round of requests.
pub open spec fn timed_out(
    pre: &Query,
    post: &Query,
    now: u64,
    status: QueryStatus,
    out_pre: Seq<QueryEffect>,
    out_post: Seq<QueryEffect>,
) -> bool {
    let e = expire_all(
        pre.peers(),
        QueryStatus::Active,
        pre.active().filter(expired(now)),
        pre.alpha(),
        pre.k(),
    );
    &&& status == e.status
    &&& post.peers() == e.entries
    &&& post.active() == pre.active().filter(alive(now)) + new_requests(e.sent, now)
    &&& post.provider() == pre.provider()
    &&& out_post == out_pre + send_effects(pre.kind(), e.sent, pre.target()) + (if status
        == QueryStatus::Finished {
        seq![finish_effect(pre.kind(), e.entries, pre.value(), pre.provider())]
    } else {
        Seq::empty()
    })
}

/// How a lookup stands after the answer of `peer` that named `peers` and
/// held no value: the peer has finished and its request is dropped, the
/// peers it named are candidates and reported, a round of requests has
/// gone out, and the outcome is reported if the lookup is over.
pub open spec fn answered(
    pre: &Query,
    post: &Query,
    peer: KadID,
    peers: Seq<Peer>,
    now: u64,
    status: QueryStatus,
    out_pre: Seq<QueryEffect>,
    out_post: Seq<QueryEffect>,
) -> bool {
    let s1 = spec_set(pre.peers(), peer@, QPeerState::Finished);
    let s2 = spec_add_all(s1, pre.target()@, pre.local(), peers);
    let n2 = count_state(s2, QPeerState::InProgress);
    let req = requested(s2, n2, pre.alpha(), pre.k());
    &&& post.peers() == after_requests(s2, n2, pre.alpha(), pre.k())
    &&& post.active() == spec_remove_active(pre.active(), peer@) + new_requests(req, now)
    &&& status == spec_status(post.peers(), pre.k())
    &&& post.provider() == pre.provider()
    &&& out_post == out_pre + discoveries(peers, pre.local()) + send_effects(
        pre.kind(),
        req,
        pre.target(),
    ) + (if status == QueryStatus::Finished {
        seq![finish_effect(pre.kind(), post.peers(), pre.value(), pre.provider())]
    } else {
        Seq::empty()
    })
}

} // verus!
