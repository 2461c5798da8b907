use vstd::prelude::*;
use slotmap::DefaultKey;
use slotmap::SlotMap;
use crate::kad_id::KadID;
use crate::peer::Peer;
use crate::qpeerset::entries_contain;
use crate::query::KadParams;
use crate::query::Query;
use crate::query::QueryAction;
use crate::query::QueryEffect;
use crate::query::QueryDescriptor;
use crate::query::QueryKind;
use crate::query::QueryResultKind;
use crate::query::QueryStatus;
use crate::query::answered;
use crate::query::effects;
use crate::query::found;
use crate::query::started;
use crate::query::timed_out;

verus! {

/// The handle of a live lookup: the 64-bit form of its slot map key.
#[derive(Clone, Copy, Debug, Hash, PartialEq, Eq, Structural)]
pub struct QueryID {
    pub raw: u64,
}

impl QueryID {
    pub fn from_u64(value: u64) -> (r: Self)
        ensures
            r.raw == value,
    {
        Self { raw: value }
    }

    pub fn to_u64(&self) -> (r: u64)
        ensures
            r == self.raw,
    {
        self.raw
    }
}

/// The outcome of a lookup, with the handle that the lookup had.
#[derive(Debug)]
pub struct QueryResult {
    pub query_id: QueryID,
    pub result: QueryResultKind,
}

/// What the lookups need from their surroundings: a source of seeds, a way
/// to send requests, and a place to report discoveries and outcomes.
pub trait QueryIO {
    /// Takes note of a peer that an answer has named.
    fn discover(&mut self, peer: &Peer);

    /// The peers to start a lookup for `target` from.
    fn find_closest(&self, target: &KadID) -> Vec<Peer>;

    /// Sends a FIND_NODE request for `target` to `peer`.
    fn send_find_node(&mut self, qid: QueryID, peer: &KadID, target: &KadID);

    /// Sends a FIND_VALUE request for `target` to `peer`.
    fn send_find_value(&mut self, qid: QueryID, peer: &KadID, target: &KadID);

    /// Takes the outcome of a lookup.
    fn query_result(&mut self, result: QueryResult);
}

/// The live lookups, held in a `slotmap::SlotMap` under its default key type.
#[verifier::external_body]
pub struct QuerySlots {
    inner: SlotMap<DefaultKey, Query>,
}

/// The lookups that a slot map holds, each under the 64-bit form of its key.
pub uninterp spec fn slot_contents(m: QuerySlots) -> Map<u64, Query>;

/// The number of lookups that a slot map holds.
pub uninterp spec fn slot_count(m: QuerySlots) -> nat;

/// The empty collection of lookups.
pub open spec fn no_queries() -> Map<u64, Query> {
    Map::empty()
}

/// The 64-bit form of the key that a 64-bit number is read as: the lowest
/// bit of the version half is always set.
pub open spec fn key_norm(raw: u64) -> u64 {
    raw | 0x1_0000_0000u64
}

/// `SlotMap::new`: a map without values.
#[verifier::external_body]
fn slot_new() -> (m: QuerySlots)
    ensures
        slot_contents(m) == no_queries(),
        slot_count(m) == 0,
{
    QuerySlots { inner: SlotMap::new() }
}

/// `SlotMap::len`: the number of values held.
#[verifier::external_body]
fn slot_len(m: &QuerySlots) -> (r: usize)
    ensures
        r == slot_count(*m),
{
    m.inner.len()
}

/// `SlotMap::insert`, which panics once 2^32 - 2 values are held and no
/// slot is free. The value goes in under a key that was not in use; the
/// key's 64-bit form, from `KeyData::as_ffi`, has the lowest version bit set.
#[verifier::external_body]
fn slot_insert(m: &mut QuerySlots, q: Query) -> (r: u64)
    requires
        slot_count(*old(m)) + 1 < u32::MAX,
    ensures
        !slot_contents(*old(m)).dom().contains(r),
        key_norm(r) == r,
        slot_contents(*final(m)) == slot_contents(*old(m)).insert(r, q),
        slot_count(*final(m)) == slot_count(*old(m)) + 1,
{
    slotmap::Key::data(&m.inner.insert(q)).as_ffi()
}

/// `SlotMap::remove` with the key that `KeyData::from_ffi` reads from
/// `raw`: the value under that key leaves the map and is returned; without
/// one nothing changes.
#[verifier::external_body]
fn slot_remove(m: &mut QuerySlots, raw: u64) -> (r: Option<Query>)
    ensures
        r.is_some() <==> slot_contents(*old(m)).dom().contains(key_norm(raw)),
        r.is_some() ==> r.unwrap() == slot_contents(*old(m))[key_norm(raw)] && slot_contents(
            *final(m),
        ) == slot_contents(*old(m)).remove(key_norm(raw)) && slot_count(*final(m)) + 1
            == slot_count(*old(m)),
        r.is_none() ==> *final(m) == *old(m),
{
    m.inner.remove(DefaultKey::from(slotmap::KeyData::from_ffi(raw)))
}

/// `SlotMap::get_mut` with the key that `KeyData::from_ffi` reads from
/// `raw`: a reference to the value under that key, through which the map
/// changes at that key and nowhere else.
#[verifier::external_body]
fn slot_get_mut(m: &mut QuerySlots, raw: u64) -> (r: Option<&mut Query>)
    ensures
        r.is_some() <==> slot_contents(*old(m)).dom().contains(key_norm(raw)),
        r.is_some() ==> *r.unwrap() == slot_contents(*old(m))[key_norm(raw)] && slot_contents(
            *final(m),
        ) == slot_contents(*old(m)).insert(key_norm(raw), *final(r.unwrap())) && slot_count(
            *final(m),
        ) == slot_count(*old(m)),
        r.is_none() ==> *final(m) == *old(m),
{
    m.inner.get_mut(DefaultKey::from(slotmap::KeyData::from_ffi(raw)))
}

/// `SlotMap::keys`, each key in its 64-bit form: the keys in use and no others.
#[verifier::external_body]
fn slot_keys(m: &QuerySlots) -> (r: Vec<u64>)
    ensures
        forall|k: u64| r@.contains(k) <==> slot_contents(*m).dom().contains(k),
{
    m.inner.keys().map(|k| slotmap::Key::data(&k).as_ffi()).collect()
}

/// The lookups after the lookup under `key` has made a step to `q` with
/// `status`: a lookup that is over leaves, one that goes on stays as `q`.
pub open spec fn lodged(before: Map<u64, Query>, key: u64, q: Query, status: QueryStatus) -> Map<
    u64,
    Query,
> {
    if status == QueryStatus::Finished {
        before.remove(key)
    } else {
        before.insert(key, q)
    }
}

/// True when there is a lookup of `kind` with the handle `raw` that has
/// `peer` among its candidates.
pub open spec fn takes_answer(before: Map<u64, Query>, kind: QueryKind, raw: u64, peer: KadID) -> bool {
    let key = key_norm(raw);
    before.dom().contains(key) && before[key].kind() == kind && entries_contain(
        before[key].peers(),
        peer@,
    )
}

/// How the lookups and the actions stand after `peer` has answered the
/// lookup with the handle `raw` without a value. An answer for no lookup,
/// for a lookup of another kind or from a peer that is no candidate
/// changes nothing; else the lookup has taken the answer and put its
/// actions behind `fx_pre`, and has left if it is over.
pub open spec fn answer_taken(
    before: Map<u64, Query>,
    after: Map<u64, Query>,
    kind: QueryKind,
    raw: u64,
    peer: KadID,
    peers: Seq<Peer>,
    now: u64,
    fx_pre: Seq<QueryEffect>,
    fx_post: Seq<QueryEffect>,
) -> bool {
    let key = key_norm(raw);
    if takes_answer(before, kind, raw, peer) {
        exists|q: Query, status: QueryStatus|
            #![trigger answered(&before[key], &q, peer, peers, now, status, fx_pre, fx_post)]
            q.wf() && answered(&before[key], &q, peer, peers, now, status, fx_pre, fx_post)
                && after == lodged(before, key, q, status)
    } else {
        after == before && fx_post == fx_pre
    }
}

/// How the lookups and the actions stand after `peer` has answered the
/// value lookup with the handle `raw` with `value`: the lookup has
/// reported the value and left; an answer that is not taken changes nothing.
pub open spec fn value_taken(
    before: Map<u64, Query>,
    after: Map<u64, Query>,
    raw: u64,
    peer: KadID,
    peers: Seq<Peer>,
    value: Seq<u8>,
    fx_pre: Seq<QueryEffect>,
    fx_post: Seq<QueryEffect>,
) -> bool {
    let key = key_norm(raw);
    if takes_answer(before, QueryKind::FindValue, raw, peer) {
        after == before.remove(key) && exists|q: Query|
            #![trigger found(&before[key], &q, peer, peers, value, fx_pre, fx_post)]
            found(&before[key], &q, peer, peers, value, fx_pre, fx_post)
    } else {
        after == before && fx_post == fx_pre
    }
}

/// How the lookups and the actions stand after the requests of the lookup
/// with the handle `raw` that have waited too long at time `now` have
/// failed: the lookup has put its actions behind `fx_pre`, and has left if
/// it is over; without such a lookup nothing changes.
pub open spec fn expire_taken(
    before: Map<u64, Query>,
    after: Map<u64, Query>,
    raw: u64,
    now: u64,
    fx_pre: Seq<QueryEffect>,
    fx_post: Seq<QueryEffect>,
) -> bool {
    let key = key_norm(raw);
    if before.dom().contains(key) {
        exists|q: Query, status: QueryStatus|
            #![trigger timed_out(&before[key], &q, now, status, fx_pre, fx_post)]
            q.wf() && timed_out(&before[key], &q, now, status, fx_pre, fx_post) && after == lodged(
                before,
                key,
                q,
                status,
            )
    } else {
        after == before && fx_post == fx_pre
    }
}

/// How the lookups and the actions stand after a lookup was asked for
/// while `count` lookups were live: while the collection is full nothing
/// starts; else a lookup made from `seeds` has started under a fresh handle
/// `r` and put its first actions behind `fx_pre`, and stays unless it is
/// over at once.
pub open spec fn start_taken(
    before: Map<u64, Query>,
    after: Map<u64, Query>,
    count: nat,
    params: KadParams,
    local: Seq<u8>,
    descriptor: QueryDescriptor,
    seeds: Seq<Peer>,
    now: u64,
    r: Option<QueryID>,
    fx_pre: Seq<QueryEffect>,
    fx_post: Seq<QueryEffect>,
) -> bool {
    if count + 1 >= u32::MAX {
        r.is_none() && after == before && fx_post == fx_pre
    } else {
        r.is_some() && !before.dom().contains(r.unwrap().raw) && key_norm(r.unwrap().raw)
            == r.unwrap().raw && exists|q: Query, status: QueryStatus|
            #![trigger started(&q, params, local, descriptor, seeds, now, status, fx_pre, fx_post)]
            q.wf() && started(&q, params, local, descriptor, seeds, now, status, fx_pre, fx_post)
                && after == (if status == QueryStatus::Finished {
                before
            } else {
                before.insert(r.unwrap().raw, q)
            })
    }
}

/// The lookups after the requests that have waited too long at time `now`
/// have failed in each lookup that `keys` names, in the order of `keys`.
pub open spec fn expired_each(
    before: Map<u64, Query>,
    keys: Seq<u64>,
    now: u64,
    after: Map<u64, Query>,
) -> bool
    decreases keys.len(),
{
    if keys.len() == 0 {
        after == before
    } else {
        exists|mid: Map<u64, Query>, fx: Seq<QueryEffect>|
            #![trigger expire_taken(mid, after, keys.last(), now, Seq::empty(), fx)]
            expired_each(before, keys.drop_last(), now, mid) && expire_taken(
                mid,
                after,
                keys.last(),
                now,
                Seq::empty(),
                fx,
            )
    }
}

/// Hands each action of a lookup to the surroundings, in order.
pub fn deliver<Q: QueryIO>(qio: &mut Q, qid: QueryID, actions: Vec<QueryAction>) {
    let mut actions = actions;
    while actions.len() > 0
        decreases actions@.len(),
    {
        let action = actions.remove(0);
        match action {
            QueryAction::Discover(peer) => qio.discover(&peer),
            QueryAction::SendFindNode { peer, target } => qio.send_find_node(qid, &peer, &target),
            QueryAction::SendFindValue { peer, target } => qio.send_find_value(
                qid,
                &peer,
                &target,
            ),
            QueryAction::Finished(result) => qio.query_result(
                QueryResult { query_id: qid, result },
            ),
        }
    }
}

/// The live lookups of a node and the parameters that they share.
pub struct QueryManager {
    params: KadParams,
    local_id: KadID,
    queries: QuerySlots,
}

impl QueryManager {
    /// The live lookups by the 64-bit form of their handles.
    pub closed spec fn queries(&self) -> Map<u64, Query> {
        slot_contents(self.queries)
    }

    /// The number of live lookups.
    pub closed spec fn count(&self) -> nat {
        slot_count(self.queries)
    }

    pub closed spec fn params(&self) -> KadParams {
        self.params
    }

    pub closed spec fn local(&self) -> Seq<u8> {
        self.local_id@
    }

    /// Every live lookup is valid and has the manager's parameters.
    pub open spec fn wf(&self) -> bool {
        forall|k: u64| #[trigger]
            self.queries().dom().contains(k) ==> self.queries()[k].wf() && self.queries()[k].alpha()
                == self.params().alpha && self.queries()[k].k() == self.params().k
                && self.queries()[k].local() == self.local()
    }

    /// Each lookup of `self` is one of `other`, unchanged unless its key is `key`.
    pub open spec fn others_kept(&self, other: &QueryManager, key: u64) -> bool {
        &&& self.params() == other.params()
        &&& self.local() == other.local()
        &&& forall|k: u64| #[trigger]
            self.queries().dom().contains(k) ==> other.queries().dom().contains(k)
        &&& forall|k: u64|
            k != key && #[trigger] other.queries().dom().contains(k) ==> self.queries().dom().contains(
                k,
            ) && self.queries()[k] == other.queries()[k]
    }

    pub fn new(params: KadParams, local_id: KadID) -> (r: Self)
        ensures
            r.wf(),
            r.queries() == no_queries(),
            r.count() == 0,
            r.params() == params,
            r.local() == local_id@,
    {
        Self { params, local_id, queries: slot_new() }
    }

    /// The parameters of the lookups.
    pub fn parameters(&self) -> (r: KadParams)
        ensures
            r == self.params(),
    {
        self.params
    }

    /// The number of live lookups.
    pub fn len(&self) -> (r: usize)
        ensures
            r == self.count(),
    {
        slot_len(&self.queries)
    }

    /// The handles of the live lookups.
    pub fn ids(&self) -> (r: Vec<QueryID>)
        ensures
            forall|k: u64|
                #[trigger] self.queries().dom().contains(k) <==> r@.contains(QueryID { raw: k }),
    {
        let keys = slot_keys(&self.queries);
        let mut ids: Vec<QueryID> = Vec::new();
        let mut i: usize = 0;
        while i < keys.len()
            invariant
                i <= keys@.len(),
                ids@.len() == i,
                forall|j: int| 0 <= j < i ==> (#[trigger] ids@[j]).raw == keys@[j],
            decreases keys@.len() - i,
        {
            ids.push(QueryID { raw: keys[i] });
            i += 1;
        }
        proof {
            assert forall|k: u64| #[trigger]
                self.queries().dom().contains(k) <==> ids@.contains(QueryID { raw: k }) by {
                if self.queries().dom().contains(k) {
                    assert(keys@.contains(k));
                    let j = choose|j: int| 0 <= j < keys@.len() && keys@[j] == k;
                    assert(ids@[j] == QueryID { raw: k });
                }
                if ids@.contains(QueryID { raw: k }) {
                    let j = choose|j: int| 0 <= j < ids@.len() && ids@[j] == QueryID { raw: k };
                    assert(keys@[j] == k);
                    assert(keys@.contains(k));
                }
            }
        }
        ids
    }

    /// Starts a lookup from `seeds` and puts its first actions into `out`.
    /// No lookup starts while the collection is full. A lookup that is over
    /// at once has a handle but does not stay.
    pub fn begin(
        &mut self,
        descriptor: QueryDescriptor,
        seeds: &Vec<Peer>,
        now: u64,
        out: &mut Vec<QueryAction>,
    ) -> (r: Option<QueryID>)
        requires
            old(self).wf(),
        ensures
            final(self).wf(),
            final(self).params() == old(self).params(),
            final(self).local() == old(self).local(),
            r.is_none() <==> old(self).count() + 1 >= u32::MAX,
            start_taken(
                old(self).queries(),
                final(self).queries(),
                old(self).count(),
                old(self).params(),
                old(self).local(),
                descriptor,
                seeds@,
                now,
                r,
                effects(old(out)@),
                effects(final(out)@),
            ),
            r.is_none() ==> final(self).queries() == old(self).queries() && final(out)@ == old(
                out,
            )@,
            r.is_some() ==> !old(self).queries().dom().contains(r.unwrap().raw) && key_norm(
                r.unwrap().raw,
            ) == r.unwrap().raw && exists|q: Query, status: QueryStatus|
                #![trigger started(&q, old(self).params(), old(self).local(), descriptor, seeds@, now, status, effects(old(out)@), effects(final(out)@))]
                q.wf() && started(
                    &q,
                    old(self).params(),
                    old(self).local(),
                    descriptor,
                    seeds@,
                    now,
                    status,
                    effects(old(out)@),
                    effects(final(out)@),
                ) && final(self).queries() == (if status == QueryStatus::Finished {
                    old(self).queries()
                } else {
                    old(self).queries().insert(r.unwrap().raw, q)
                }),
    {
        let held = slot_len(&self.queries);
        if held >= (u32::MAX - 1) as usize {
            return None;
        }
        let ghost before = self.queries();
        let ghost out0 = effects(out@);
        let mut query = Query::new(self.params, self.local_id, descriptor, seeds);
        let status = query.start(now, out);
        let ghost q = query;
        let raw = slot_insert(&mut self.queries, query);
        if status == QueryStatus::Finished {
            let gone = slot_remove(&mut self.queries, raw);
            proof {
                assert(self.queries() =~= before);
            }
        }
        proof {
            assert(started(
                &q,
                old(self).params(),
                old(self).local(),
                descriptor,
                seeds@,
                now,
                status,
                out0,
                effects(out@),
            ));
        }
        Some(QueryID { raw })
    }

    /// Drops a lookup without reporting an outcome.
    pub fn drop_query(&mut self, id: QueryID) -> (r: bool)
        requires
            old(self).wf(),
        ensures
            final(self).wf(),
            final(self).others_kept(old(self), key_norm(id.raw)),
            r == old(self).queries().dom().contains(key_norm(id.raw)),
            final(self).queries() == old(self).queries().remove(key_norm(id.raw)),
    {
        let gone = slot_remove(&mut self.queries, id.raw);
        proof {
            if gone.is_none() {
                assert(self.queries() == old(self).queries());
                assert(self.queries() =~= old(self).queries().remove(key_norm(id.raw)));
            }
            assert forall|k: u64| #[trigger] self.queries().dom().contains(k) implies old(
                self,
            ).queries().dom().contains(k) && self.queries()[k] == old(self).queries()[k] by {}
        }
        gone.is_some()
    }

    /// Takes a FIND_NODE answer of `peer` for the lookup `qid`. The answer
    /// is dropped if there is no such lookup, if it is not a node lookup, or
    /// if `peer` is none of its candidates. A lookup that is over leaves.
    pub fn respond_find_node(
        &mut self,
        qid: QueryID,
        peer: KadID,
        peers: Vec<Peer>,
        now: u64,
        out: &mut Vec<QueryAction>,
    ) -> (taken: bool)
        requires
            old(self).wf(),
        ensures
            final(self).wf(),
            final(self).others_kept(old(self), key_norm(qid.raw)),
            taken == (old(self).queries().dom().contains(key_norm(qid.raw)) && old(
                self,
            ).queries()[key_norm(qid.raw)].kind() == QueryKind::FindNode && entries_contain(
                old(self).queries()[key_norm(qid.raw)].peers(),
                peer@,
            )),
            answer_taken(
                old(self).queries(),
                final(self).queries(),
                QueryKind::FindNode,
                qid.raw,
                peer,
                peers@,
                now,
                effects(old(out)@),
                effects(final(out)@),
            ),
            !taken ==> final(self).queries() == old(self).queries() && final(out)@ == old(out)@,
            taken ==> exists|q: Query, status: QueryStatus|
                #![trigger answered(&old(self).queries()[key_norm(qid.raw)], &q, peer, peers@, now, status, effects(old(out)@), effects(final(out)@))]
                q.wf() && answered(
                    &old(self).queries()[key_norm(qid.raw)],
                    &q,
                    peer,
                    peers@,
                    now,
                    status,
                    effects(old(out)@),
                    effects(final(out)@),
                ) && final(self).queries() == (if status == QueryStatus::Finished {
                    old(self).queries().remove(key_norm(qid.raw))
                } else {
                    old(self).queries().insert(key_norm(qid.raw), q)
                }),
    {
        let ghost key = key_norm(qid.raw);
        let ghost before = self.queries();
        let ghost out0 = effects(out@);
        let status = match slot_get_mut(&mut self.queries, qid.raw) {
            None => {
                return false;
            },
            Some(query) => {
                assert(before.dom().contains(key));
                if query.query_kind() != QueryKind::FindNode || !query.knows(&peer) {
                    None
                } else {
                    Some(query.on_find_node_response(peer, peers, now, out))
                }
            },
        };
        let status = match status {
            Some(status) => status,
            None => {
                assert(self.queries() =~= before);
                return false;
            },
        };
        let ghost q = self.queries()[key];
        proof {
            assert(self.queries() == before.insert(key, q));
            assert(answered(&before[key], &q, peer, peers@, now, status, out0, effects(out@)));
        }
        if status == QueryStatus::Finished {
            let gone = slot_remove(&mut self.queries, qid.raw);
            proof {
                assert(self.queries() =~= before.remove(key));
            }
        }
        true
    }

    /// Takes a FIND_VALUE answer of `peer` for the lookup `qid`. The answer
    /// is dropped if there is no such lookup, if it is not a value lookup,
    /// or if `peer` is none of its candidates. A lookup that is over leaves.
    pub fn respond_find_value(
        &mut self,
        qid: QueryID,
        peer: KadID,
        closest: Vec<Peer>,
        value: Option<Vec<u8>>,
        now: u64,
        out: &mut Vec<QueryAction>,
    ) -> (taken: bool)
        requires
            old(self).wf(),
        ensures
            final(self).wf(),
            final(self).others_kept(old(self), key_norm(qid.raw)),
            taken == (old(self).queries().dom().contains(key_norm(qid.raw)) && old(
                self,
            ).queries()[key_norm(qid.raw)].kind() == QueryKind::FindValue && entries_contain(
                old(self).queries()[key_norm(qid.raw)].peers(),
                peer@,
            )),
            value.is_none() ==> answer_taken(
                old(self).queries(),
                final(self).queries(),
                QueryKind::FindValue,
                qid.raw,
                peer,
                closest@,
                now,
                effects(old(out)@),
                effects(final(out)@),
            ),
            value.is_some() ==> value_taken(
                old(self).queries(),
                final(self).queries(),
                qid.raw,
                peer,
                closest@,
                value.unwrap()@,
                effects(old(out)@),
                effects(final(out)@),
            ),
            !taken ==> final(self).queries() == old(self).queries() && final(out)@ == old(out)@,
            taken && value.is_some() ==> final(self).queries() == old(self).queries().remove(
                key_norm(qid.raw),
            ) && exists|q: Query|
                #![trigger found(&old(self).queries()[key_norm(qid.raw)], &q, peer, closest@, value.unwrap()@, effects(old(out)@), effects(final(out)@))]
                found(
                    &old(self).queries()[key_norm(qid.raw)],
                    &q,
                    peer,
                    closest@,
                    value.unwrap()@,
                    effects(old(out)@),
                    effects(final(out)@),
                ),
            taken && value.is_none() ==> exists|q: Query, status: QueryStatus|
                #![trigger answered(&old(self).queries()[key_norm(qid.raw)], &q, peer, closest@, now, status, effects(old(out)@), effects(final(out)@))]
                q.wf() && answered(
                    &old(self).queries()[key_norm(qid.raw)],
                    &q,
                    peer,
                    closest@,
                    now,
                    status,
                    effects(old(out)@),
                    effects(final(out)@),
                ) && final(self).queries() == (if status == QueryStatus::Finished {
                    old(self).queries().remove(key_norm(qid.raw))
                } else {
                    old(self).queries().insert(key_norm(qid.raw), q)
                }),
    {
        let ghost key = key_norm(qid.raw);
        let ghost before = self.queries();
        let ghost out0 = effects(out@);
        let ghost has_value = value.is_some();
        let ghost bytes = if value.is_some() {
            value.unwrap()@
        } else {
            Seq::<u8>::empty()
        };
        let status = match slot_get_mut(&mut self.queries, qid.raw) {
            None => {
                return false;
            },
            Some(query) => {
                assert(before.dom().contains(key));
                if query.query_kind() != QueryKind::FindValue || !query.knows(&peer) {
                    None
                } else {
                    Some(query.on_find_value_response(peer, closest, value, now, out))
                }
            },
        };
        let status = match status {
            Some(status) => status,
            None => {
                assert(self.queries() =~= before);
                return false;
            },
        };
        let ghost q = self.queries()[key];
        proof {
            assert(self.queries() == before.insert(key, q));
            if has_value {
                assert(found(&before[key], &q, peer, closest@, bytes, out0, effects(out@)));
            } else {
                assert(answered(&before[key], &q, peer, closest@, now, status, out0, effects(out@)));
            }
        }
        if status == QueryStatus::Finished {
            let gone = slot_remove(&mut self.queries, qid.raw);
            proof {
                assert(self.queries() =~= before.remove(key));
            }
        }
        true
    }

    /// Fails the timed-out requests of the lookup `qid`, if there is such a
    /// lookup, and lets it send its next requests. A lookup that is over leaves.
    pub fn expire(&mut self, qid: QueryID, now: u64, out: &mut Vec<QueryAction>) -> (taken: bool)
        requires
            old(self).wf(),
        ensures
            final(self).wf(),
            final(self).others_kept(old(self), key_norm(qid.raw)),
            taken == old(self).queries().dom().contains(key_norm(qid.raw)),
            expire_taken(
                old(self).queries(),
                final(self).queries(),
                qid.raw,
                now,
                effects(old(out)@),
                effects(final(out)@),
            ),
            !taken ==> final(self).queries() == old(self).queries() && final(out)@ == old(out)@,
            taken ==> exists|q: Query, status: QueryStatus|
                #![trigger timed_out(&old(self).queries()[key_norm(qid.raw)], &q, now, status, effects(old(out)@), effects(final(out)@))]
                q.wf() && timed_out(
                    &old(self).queries()[key_norm(qid.raw)],
                    &q,
                    now,
                    status,
                    effects(old(out)@),
                    effects(final(out)@),
                ) && final(self).queries() == (if status == QueryStatus::Finished {
                    old(self).queries().remove(key_norm(qid.raw))
                } else {
                    old(self).queries().insert(key_norm(qid.raw), q)
                }),
    {
        let ghost key = key_norm(qid.raw);
        let ghost before = self.queries();
        let ghost out0 = effects(out@);
        let status = match slot_get_mut(&mut self.queries, qid.raw) {
            None => {
                return false;
            },
            Some(query) => {
                assert(before.dom().contains(key));
                query.check_timeouts(now, out)
            },
        };
        let ghost q = self.queries()[key];
        proof {
            assert(self.queries() == before.insert(key, q));
            assert(timed_out(&before[key], &q, now, status, out0, effects(out@)));
        }
        if status == QueryStatus::Finished {
            let gone = slot_remove(&mut self.queries, qid.raw);
            proof {
                assert(self.queries() =~= before.remove(key));
            }
        }
        true
    }

    /// Starts a lookup from the seeds that `qio` names and hands it the
    /// lookup's first actions.
    pub fn query<Q: QueryIO>(&mut self, qio: &mut Q, descriptor: QueryDescriptor, now: u64) -> (r:
        Option<QueryID>)
        requires
            old(self).wf(),
        ensures
            final(self).wf(),
            final(self).params() == old(self).params(),
            final(self).local() == old(self).local(),
            r.is_none() <==> old(self).count() + 1 >= u32::MAX,
            r.is_none() ==> final(self).queries() == old(self).queries(),
            r.is_some() ==> !old(self).queries().dom().contains(r.unwrap().raw),
            forall|k: u64| #[trigger]
                old(self).queries().dom().contains(k) ==> final(self).queries().dom().contains(k)
                    && final(self).queries()[k] == old(self).queries()[k],
            forall|k: u64| #[trigger]
                final(self).queries().dom().contains(k) ==> old(self).queries().dom().contains(k)
                    || Some(QueryID { raw: k }) == r,
            exists|seeds: Seq<Peer>, fx: Seq<QueryEffect>|
                #![trigger start_taken(old(self).queries(), final(self).queries(), old(self).count(), old(self).params(), old(self).local(), descriptor, seeds, now, r, Seq::empty(), fx)]
                start_taken(
                    old(self).queries(),
                    final(self).queries(),
                    old(self).count(),
                    old(self).params(),
                    old(self).local(),
                    descriptor,
                    seeds,
                    now,
                    r,
                    Seq::empty(),
                    fx,
                ),
    {
        let seeds = qio.find_closest(&descriptor.target);
        let mut out: Vec<QueryAction> = Vec::new();
        assert(effects(out@) =~= Seq::<QueryEffect>::empty());
        let r = self.begin(descriptor, &seeds, now, &mut out);
        proof {
            assert(start_taken(
                old(self).queries(),
                self.queries(),
                old(self).count(),
                old(self).params(),
                old(self).local(),
                descriptor,
                seeds@,
                now,
                r,
                Seq::empty(),
                effects(out@),
            ));
        }
        match r {
            Some(qid) => deliver(qio, qid, out),
            None => {},
        }
        r
    }

    /// Drops a lookup without reporting an outcome.
    pub fn cancel<Q: QueryIO>(&mut self, qio: &mut Q, id: QueryID)
        requires
            old(self).wf(),
        ensures
            final(self).wf(),
            final(self).others_kept(old(self), key_norm(id.raw)),
            final(self).queries() == old(self).queries().remove(key_norm(id.raw)),
    {
        let _ = self.drop_query(id);
    }

    /// Takes a FIND_NODE answer and hands the lookup's actions to `qio`.
    pub fn on_find_node_response<Q: QueryIO>(
        &mut self,
        qio: &mut Q,
        qid: QueryID,
        peer: KadID,
        peers: Vec<Peer>,
        now: u64,
    )
        requires
            old(self).wf(),
        ensures
            final(self).wf(),
            final(self).others_kept(old(self), key_norm(qid.raw)),
            exists|fx: Seq<QueryEffect>|
                #![trigger answer_taken(old(self).queries(), final(self).queries(), QueryKind::FindNode, qid.raw, peer, peers@, now, Seq::empty(), fx)]
                answer_taken(
                    old(self).queries(),
                    final(self).queries(),
                    QueryKind::FindNode,
                    qid.raw,
                    peer,
                    peers@,
                    now,
                    Seq::empty(),
                    fx,
                ),
    {
        let mut out: Vec<QueryAction> = Vec::new();
        let ghost named = peers@;
        assert(effects(out@) =~= Seq::<QueryEffect>::empty());
        let _ = self.respond_find_node(qid, peer, peers, now, &mut out);
        proof {
            assert(answer_taken(
                old(self).queries(),
                self.queries(),
                QueryKind::FindNode,
                qid.raw,
                peer,
                named,
                now,
                Seq::empty(),
                effects(out@),
            ));
        }
        deliver(qio, qid, out);
    }

    /// Takes a FIND_VALUE answer and hands the lookup's actions to `qio`.
    pub fn on_find_value_response<Q: QueryIO>(
        &mut self,
        qio: &mut Q,
        qid: QueryID,
        peer: KadID,
        closest: Vec<Peer>,
        value: Option<Vec<u8>>,
        now: u64,
    )
        requires
            old(self).wf(),
        ensures
            final(self).wf(),
            final(self).others_kept(old(self), key_norm(qid.raw)),
            value.is_none() ==> exists|fx: Seq<QueryEffect>|
                #![trigger answer_taken(old(self).queries(), final(self).queries(), QueryKind::FindValue, qid.raw, peer, closest@, now, Seq::empty(), fx)]
                answer_taken(
                    old(self).queries(),
                    final(self).queries(),
                    QueryKind::FindValue,
                    qid.raw,
                    peer,
                    closest@,
                    now,
                    Seq::empty(),
                    fx,
                ),
            value.is_some() ==> exists|fx: Seq<QueryEffect>|
                #![trigger value_taken(old(self).queries(), final(self).queries(), qid.raw, peer, closest@, value.unwrap()@, Seq::empty(), fx)]
                value_taken(
                    old(self).queries(),
                    final(self).queries(),
                    qid.raw,
                    peer,
                    closest@,
                    value.unwrap()@,
                    Seq::empty(),
                    fx,
                ),
    {
        let mut out: Vec<QueryAction> = Vec::new();
        let ghost named = closest@;
        let ghost given = value;
        assert(effects(out@) =~= Seq::<QueryEffect>::empty());
        let _ = self.respond_find_value(qid, peer, closest, value, now, &mut out);
        proof {
            if given.is_none() {
                assert(answer_taken(
                    old(self).queries(),
                    self.queries(),
                    QueryKind::FindValue,
                    qid.raw,
                    peer,
                    named,
                    now,
                    Seq::empty(),
                    effects(out@),
                ));
            } else {
                assert(value_taken(
                    old(self).queries(),
                    self.queries(),
                    qid.raw,
                    peer,
                    named,
                    given.unwrap()@,
                    Seq::empty(),
                    effects(out@),
                ));
            }
        }
        deliver(qio, qid, out);
    }

    /// Fails the requests that have waited too long in every live lookup,
    /// one lookup after the other, and hands the actions that follow to
    /// `qio`. A lookup that is over leaves; no lookup is added.
    pub fn check_timeouts<Q: QueryIO>(&mut self, qio: &mut Q, now: u64)
        requires
            old(self).wf(),
        ensures
            final(self).wf(),
            final(self).params() == old(self).params(),
            final(self).local() == old(self).local(),
            forall|k: u64| #[trigger]
                final(self).queries().dom().contains(k) ==> old(self).queries().dom().contains(k),
            exists|keys: Seq<u64>|
                #![trigger expired_each(old(self).queries(), keys, now, final(self).queries())]
                (forall|k: u64| keys.contains(k) <==> old(self).queries().dom().contains(k))
                    && expired_each(old(self).queries(), keys, now, final(self).queries()),
    {
        let keys = slot_keys(&self.queries);
        let mut i: usize = 0;
        assert(keys@.take(0) =~= Seq::<u64>::empty());
        while i < keys.len()
            invariant
                i <= keys@.len(),
                self.wf(),
                self.params() == old(self).params(),
                self.local() == old(self).local(),
                forall|k: u64| #[trigger]
                    self.queries().dom().contains(k) ==> old(self).queries().dom().contains(k),
                expired_each(old(self).queries(), keys@.take(i as int), now, self.queries()),
            decreases keys@.len() - i,
        {
            let qid = QueryID { raw: keys[i] };
            let mut out: Vec<QueryAction> = Vec::new();
            let ghost mid = self.queries();
            assert(effects(out@) =~= Seq::<QueryEffect>::empty());
            let _ = self.expire(qid, now, &mut out);
            proof {
                let done = keys@.take(i + 1);
                assert(done.drop_last() =~= keys@.take(i as int));
                assert(done.last() == keys@[i as int]);
                assert(expire_taken(
                    mid,
                    self.queries(),
                    done.last(),
                    now,
                    Seq::empty(),
                    effects(out@),
                ));
            }
            deliver(qio, qid, out);
            i += 1;
        }
        proof {
            assert(keys@.take(i as int) =~= keys@);
        }
    }
}

} // verus!
