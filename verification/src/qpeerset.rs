use vstd::prelude::*;
use crate::distance::Distance;
use crate::distance::be_value;
use crate::distance::lemma_be_value_injective;
use crate::kad_id::KadID;
use crate::kad_id::xor_bytes;
use crate::kad_id::lemma_distance_injective;

verus! {

/// Where a peer stands within one lookup.
#[derive(Clone, Copy, Debug, Hash, PartialEq, Eq, Structural)]
pub enum QPeerState {
    Pending,
    InProgress,
    Finished,
    Failed,
}

/// A peer of a lookup and its state.
#[derive(Clone, Copy, Debug)]
pub struct QPeerEntry {
    pub id: KadID,
    pub state: QPeerState,
}

/// The key by which a lookup orders its peers: the distance to the target.
#[derive(Clone, Copy, Debug)]
pub struct Key {
    pub id: KadID,
    pub distance: Distance,
}

impl Key {
    pub fn new(id: KadID, distance: Distance) -> (r: Self)
        ensures
            r.id == id,
            r.distance == distance,
    {
        Self { id, distance }
    }
}

/// The magnitude of the XOR distance between `target` and the identifier `id`.
pub open spec fn id_dist(target: Seq<u8>, id: Seq<u8>) -> nat {
    be_value(xor_bytes(target, id))
}

/// Strictly ascending by distance to `target`.
pub open spec fn entries_sorted(s: Seq<QPeerEntry>, target: Seq<u8>) -> bool {
    forall|i: int, j: int|
        0 <= i < j < s.len() ==> id_dist(target, (#[trigger] s[i]).id@) < id_dist(
            target,
            (#[trigger] s[j]).id@,
        )
}

/// True when some entry of `s` has the identifier `id`.
pub open spec fn entries_contain(s: Seq<QPeerEntry>, id: Seq<u8>) -> bool {
    exists|i: int| 0 <= i < s.len() && (#[trigger] s[i]).id@ == id
}

/// The number of entries of `s` in `state`.
pub open spec fn count_state(s: Seq<QPeerEntry>, state: QPeerState) -> nat
    decreases s.len(),
{
    if s.len() == 0 {
        0
    } else {
        count_state(s.drop_last(), state) + if s.last().state == state {
            1nat
        } else {
            0nat
        }
    }
}

/// The state of the entry of `s` with identifier `id`, if there is one.
pub open spec fn state_of(s: Seq<QPeerEntry>, id: Seq<u8>) -> Option<QPeerState> {
    if entries_contain(s, id) {
        Some(s[index_of(s, id)].state)
    } else {
        None
    }
}

/// The index of the first entry of `s` in `state`, or the length of `s` if
/// there is none.
pub open spec fn first_index(s: Seq<QPeerEntry>, state: QPeerState) -> int
    decreases s.len(),
{
    if s.len() == 0 {
        0
    } else if s[0].state == state {
        0
    } else {
        1 + first_index(s.skip(1), state)
    }
}

/// The index of the entry of `s` with identifier `id`.
pub open spec fn index_of(s: Seq<QPeerEntry>, id: Seq<u8>) -> int {
    choose|i: int| 0 <= i < s.len() && (#[trigger] s[i]).id@ == id
}

/// `s` with the entry of identifier `id` set to `state`.
pub open spec fn spec_set(s: Seq<QPeerEntry>, id: Seq<u8>, state: QPeerState) -> Seq<QPeerEntry> {
    let i = index_of(s, id);
    s.update(i, QPeerEntry { id: s[i].id, state })
}

/// True when `p` is the place of an identifier at distance `d` from the
/// target: all entries before `p` are nearer, all from `p` on are farther.
pub open spec fn is_rank(s: Seq<QPeerEntry>, target: Seq<u8>, id: Seq<u8>, p: int) -> bool {
    &&& 0 <= p <= s.len()
    &&& forall|j: int| 0 <= j < p ==> id_dist(target, (#[trigger] s[j]).id@) < id_dist(target, id)
    &&& forall|j: int|
        p <= j < s.len() ==> id_dist(target, id) < id_dist(target, (#[trigger] s[j]).id@)
}

/// `s` with `id` added as a pending entry where its distance to `target`
/// puts it, or `s` itself if `id` is already there.
pub open spec fn spec_add(s: Seq<QPeerEntry>, target: Seq<u8>, id: KadID) -> Seq<QPeerEntry> {
    if entries_contain(s, id@) {
        s
    } else {
        s.insert(
            choose|p: int| is_rank(s, target, id@, p),
            QPeerEntry { id, state: QPeerState::Pending },
        )
    }
}

/// The first entry in `state` is where `first_index` says, and none stands before it.
pub proof fn lemma_first_index(s: Seq<QPeerEntry>, state: QPeerState)
    ensures
        0 <= first_index(s, state) <= s.len(),
        first_index(s, state) < s.len() ==> s[first_index(s, state)].state == state,
        forall|j: int| 0 <= j < first_index(s, state) ==> (#[trigger] s[j]).state != state,
    decreases s.len(),
{
    if s.len() > 0 && s[0].state != state {
        let t = s.skip(1);
        lemma_first_index(t, state);
        assert forall|j: int| 0 <= j < first_index(s, state) implies (#[trigger] s[j]).state
            != state by {
            if j > 0 {
                assert(t[j - 1] == s[j]);
            }
        }
    }
}

/// In an ordered set an identifier occurs at one index only.
pub proof fn lemma_index_unique(s: Seq<QPeerEntry>, target: Seq<u8>, id: Seq<u8>, i: int)
    requires
        entries_sorted(s, target),
        0 <= i < s.len(),
        s[i].id@ == id,
    ensures
        index_of(s, id) == i,
        state_of(s, id) == Some(s[i].state),
{
    let c = index_of(s, id);
    if c < i {
        assert(id_dist(target, s[c].id@) < id_dist(target, s[i].id@));
    } else if i < c {
        assert(id_dist(target, s[i].id@) < id_dist(target, s[c].id@));
    }
}

/// An identifier has one place only.
pub proof fn lemma_rank_unique(s: Seq<QPeerEntry>, target: Seq<u8>, id: Seq<u8>, p: int, q: int)
    requires
        is_rank(s, target, id, p),
        is_rank(s, target, id, q),
    ensures
        p == q,
{
    if p < q {
        assert(id_dist(target, s[p].id@) < id_dist(target, id));
    } else if q < p {
        assert(id_dist(target, s[q].id@) < id_dist(target, id));
    }
}

/// The identifiers of the entries of `s` in `state`, in order.
pub open spec fn ids_in_state(s: Seq<QPeerEntry>, state: QPeerState) -> Seq<KadID>
    decreases s.len(),
{
    if s.len() == 0 {
        Seq::empty()
    } else if s.last().state == state {
        ids_in_state(s.drop_last(), state).push(s.last().id)
    } else {
        ids_in_state(s.drop_last(), state)
    }
}

/// The first `k` entries of `s`, or all of them.
pub open spec fn horizon(s: Seq<QPeerEntry>, k: nat) -> Seq<QPeerEntry> {
    if s.len() <= k {
        s
    } else {
        s.take(k as int)
    }
}

pub proof fn lemma_count_bound(s: Seq<QPeerEntry>, state: QPeerState)
    ensures
        count_state(s, state) <= s.len(),
    decreases s.len(),
{
    if s.len() > 0 {
        lemma_count_bound(s.drop_last(), state);
    }
}

/// Changing the state of one entry moves one unit between the counts.
pub proof fn lemma_count_update(s: Seq<QPeerEntry>, i: int, e: QPeerEntry, state: QPeerState)
    requires
        0 <= i < s.len(),
    ensures
        count_state(s.update(i, e), state) + (if s[i].state == state {
            1nat
        } else {
            0nat
        }) == count_state(s, state) + (if e.state == state {
            1nat
        } else {
            0nat
        }),
    decreases s.len(),
{
    let u = s.update(i, e);
    if i == s.len() - 1 {
        assert(u.drop_last() =~= s.drop_last());
    } else {
        assert(u.drop_last() =~= s.drop_last().update(i, e));
        lemma_count_update(s.drop_last(), i, e, state);
    }
}

/// A new entry adds one to the count of its state and nothing to the others.
pub proof fn lemma_count_insert(s: Seq<QPeerEntry>, pos: int, e: QPeerEntry, state: QPeerState)
    requires
        0 <= pos <= s.len(),
    ensures
        count_state(s.insert(pos, e), state) == count_state(s, state) + (if e.state == state {
            1nat
        } else {
            0nat
        }),
    decreases s.len(),
{
    let u = s.insert(pos, e);
    if pos == s.len() {
        assert(u.drop_last() =~= s);
    } else {
        assert(u.drop_last() =~= s.drop_last().insert(pos, e));
        assert(u.last() == s.last());
        lemma_count_insert(s.drop_last(), pos, e, state);
    }
}

/// An entry in `state` exists exactly when the count is positive.
pub proof fn lemma_count_positive(s: Seq<QPeerEntry>, state: QPeerState)
    ensures
        count_state(s, state) > 0 <==> exists|i: int|
            0 <= i < s.len() && (#[trigger] s[i]).state == state,
    decreases s.len(),
{
    if s.len() > 0 {
        let p = s.drop_last();
        lemma_count_positive(p, state);
        if count_state(s, state) > 0 {
            if s.last().state == state {
                assert(s[s.len() - 1].state == state);
            } else {
                let i = choose|i: int| 0 <= i < p.len() && (#[trigger] p[i]).state == state;
                assert(s[i].state == state);
            }
        }
        if exists|i: int| 0 <= i < s.len() && (#[trigger] s[i]).state == state {
            let i = choose|i: int| 0 <= i < s.len() && (#[trigger] s[i]).state == state;
            if i < s.len() - 1 {
                assert(p[i].state == state);
            }
        }
    }
}

/// Entries at the same distance from the target have the same identifier.
pub proof fn lemma_id_dist_injective(target: Seq<u8>, a: Seq<u8>, b: Seq<u8>)
    requires
        target.len() == 20,
        a.len() == 20,
        b.len() == 20,
        id_dist(target, a) == id_dist(target, b),
    ensures
        a == b,
{
    lemma_be_value_injective(xor_bytes(target, a), xor_bytes(target, b));
    lemma_distance_injective(target, a, b);
}

/// Putting an entry where its distance belongs keeps the order, and adds
/// its identifier to those present and no other.
pub proof fn lemma_insert_sorted(s: Seq<QPeerEntry>, pos: int, e: QPeerEntry, target: Seq<u8>)
    requires
        entries_sorted(s, target),
        0 <= pos <= s.len(),
        forall|j: int| 0 <= j < pos ==> id_dist(target, (#[trigger] s[j]).id@) < id_dist(target, e.id@),
        pos < s.len() ==> id_dist(target, e.id@) < id_dist(target, s[pos].id@),
    ensures
        entries_sorted(s.insert(pos, e), target),
        forall|id: Seq<u8>|
            entries_contain(s.insert(pos, e), id) <==> (entries_contain(s, id) || id == e.id@),
{
    let after = s.insert(pos, e);
    s.insert_ensures(pos, e);
    assert forall|a: int| 0 <= a < after.len() implies (#[trigger] after[a]) == (if a < pos {
        s[a]
    } else if a == pos {
        e
    } else {
        s[a - 1]
    }) by {
        if a > pos {
            assert(after[(a - 1) + 1] == s[a - 1]);
        }
    }
    assert forall|a: int, b: int| 0 <= a < b < after.len() implies id_dist(
        target,
        (#[trigger] after[a]).id@,
    ) < id_dist(target, (#[trigger] after[b]).id@) by {
        let sa = if a < pos { a } else { a - 1 };
        let sb = if b < pos { b } else { b - 1 };
        if a != pos && b != pos {
            assert(after[a] == s[sa] && after[b] == s[sb]);
            assert(id_dist(target, s[sa].id@) < id_dist(target, s[sb].id@));
        } else if a == pos {
            assert(after[b] == s[sb]);
            if sb > pos {
                assert(id_dist(target, s[pos].id@) < id_dist(target, s[sb].id@));
            }
        } else {
            assert(after[a] == s[sa]);
        }
    }
    assert forall|id: Seq<u8>|
        entries_contain(after, id) <==> (entries_contain(s, id) || id == e.id@) by {
        if entries_contain(after, id) {
            let a = choose|a: int| 0 <= a < after.len() && (#[trigger] after[a]).id@ == id;
            if a < pos {
                assert(s[a].id@ == id);
            } else if a > pos {
                assert(s[a - 1].id@ == id);
            }
        }
        if entries_contain(s, id) {
            let a = choose|a: int| 0 <= a < s.len() && (#[trigger] s[a]).id@ == id;
            if a < pos {
                assert(after[a].id@ == id);
            } else {
                assert(after[a + 1] == s[a]);
                assert(after[a + 1].id@ == id);
            }
        }
        if id == e.id@ {
            assert(after[pos].id@ == id);
        }
    }
}

/// The candidates of one lookup, ordered by distance to its target, each
/// with its state.
#[derive(Debug)]
pub struct QPeerSet {
    k: u32,
    target: KadID,
    states: Vec<QPeerEntry>,
    inprogress: u32,
}

impl QPeerSet {
    /// The entries, nearest to the target first.
    pub closed spec fn entries(&self) -> Seq<QPeerEntry> {
        self.states@
    }

    /// The target of the lookup.
    pub closed spec fn target(&self) -> Seq<u8> {
        self.target@
    }

    /// The size of the candidate horizon.
    pub closed spec fn limit(&self) -> nat {
        self.k as nat
    }

    /// The counter of requests in flight.
    pub closed spec fn in_progress(&self) -> nat {
        self.inprogress as nat
    }

    /// The entries are strictly ordered by distance to the target, so no
    /// identifier occurs twice, and the counter equals the number of entries
    /// that are in progress.
    pub open spec fn wf(&self) -> bool {
        &&& entries_sorted(self.entries(), self.target())
        &&& self.in_progress() == count_state(self.entries(), QPeerState::InProgress)
    }

    pub fn new(k: u32, target: KadID) -> (r: Self)
        ensures
            r.wf(),
            r.entries() == Seq::<QPeerEntry>::empty(),
            r.target() == target@,
            r.limit() == k,
            r.in_progress() == 0,
    {
        Self { k, target, states: Vec::new(), inprogress: 0 }
    }

    pub fn add(&mut self, peer: &KadID)
        requires
            old(self).wf(),
        ensures
            final(self).wf(),
            final(self).target() == old(self).target(),
            final(self).limit() == old(self).limit(),
            final(self).in_progress() == old(self).in_progress(),
            final(self).entries() == spec_add(old(self).entries(), old(self).target(), *peer),
            forall|id: Seq<u8>|
                entries_contain(final(self).entries(), id) <==> (entries_contain(
                    old(self).entries(),
                    id,
                ) || id == peer@),
    {
        let (pos, found) = self.position(peer);
        if found {
            return ;
        }
        let ghost before = self.states@;
        let e = QPeerEntry { id: *peer, state: QPeerState::Pending };
        proof {
            lemma_count_insert(before, pos as int, e, QPeerState::InProgress);
            if pos < before.len() {
                if id_dist(self.target@, peer@) == id_dist(self.target@, before[pos as int].id@) {
                    lemma_id_dist_injective(self.target@, peer@, before[pos as int].id@);
                }
            }
            lemma_insert_sorted(before, pos as int, e, self.target@);
            assert forall|j: int| pos <= j < before.len() implies id_dist(self.target@, peer@)
                < id_dist(self.target@, (#[trigger] before[j]).id@) by {
                if j > pos {
                    assert(id_dist(self.target@, before[pos as int].id@) < id_dist(
                        self.target@,
                        before[j].id@,
                    ));
                }
            }
            assert(is_rank(before, self.target@, peer@, pos as int));
            let c = choose|p: int| is_rank(before, self.target@, peer@, p);
            lemma_rank_unique(before, self.target@, peer@, pos as int, c);
        }
        self.states.insert(pos, e);
    }

    /// Sets the state of a peer of the set and keeps the counter of requests
    /// in flight in step.
    pub fn set(&mut self, peer: &KadID, state: QPeerState)
        requires
            old(self).wf(),
            entries_contain(old(self).entries(), peer@),
            state == QPeerState::InProgress ==> old(self).in_progress() < u32::MAX,
        ensures
            final(self).wf(),
            final(self).target() == old(self).target(),
            final(self).limit() == old(self).limit(),
            final(self).entries() == spec_set(old(self).entries(), peer@, state),
            forall|id: Seq<u8>|
                entries_contain(final(self).entries(), id) <==> entries_contain(
                    old(self).entries(),
                    id,
                ),
    {
        let (pos, found) = self.position(peer);
        let ghost before = self.states@;
        let prev = self.states[pos];
        let e = QPeerEntry { id: prev.id, state };
        proof {
            lemma_count_update(before, pos as int, e, QPeerState::InProgress);
            lemma_count_bound(before, QPeerState::InProgress);
            lemma_index_unique(before, self.target@, peer@, pos as int);
        }
        self.states[pos] = e;
        if state == QPeerState::InProgress && prev.state != QPeerState::InProgress {
            self.inprogress += 1;
        } else if state != QPeerState::InProgress && prev.state == QPeerState::InProgress {
            self.inprogress -= 1;
        }
        proof {
            let after = self.states@;
            assert(after == before.update(pos as int, e));
            assert forall|a: int, b: int| 0 <= a < b < after.len() implies id_dist(
                self.target@,
                (#[trigger] after[a]).id@,
            ) < id_dist(self.target@, (#[trigger] after[b]).id@) by {
                assert(after[a].id@ == before[a].id@);
                assert(after[b].id@ == before[b].id@);
            }
            assert forall|id: Seq<u8>|
                entries_contain(after, id) <==> entries_contain(before, id) by {
                if entries_contain(after, id) {
                    let a = choose|a: int| 0 <= a < after.len() && (#[trigger] after[a]).id@ == id;
                    assert(before[a].id@ == id);
                }
                if entries_contain(before, id) {
                    let a = choose|a: int|
                        0 <= a < before.len() && (#[trigger] before[a]).id@ == id;
                    assert(after[a].id@ == id);
                }
            }
        }
    }

    pub fn get(&self, peer: &KadID) -> (r: Option<QPeerState>)
        requires
            self.wf(),
        ensures
            r == state_of(self.entries(), peer@),
    {
        let (pos, found) = self.position(peer);
        if found {
            proof {
                lemma_index_unique(self.states@, self.target@, peer@, pos as int);
            }
            Some(self.states[pos].state)
        } else {
            None
        }
    }

    pub fn contains(&self, peer: &KadID) -> (r: bool)
        requires
            self.wf(),
        ensures
            r == entries_contain(self.entries(), peer@),
    {
        let (pos, found) = self.position(peer);
        found
    }

    /// The nearest peer that is still pending.
    pub fn candidate(&self) -> (r: Option<KadID>)
        ensures
            r == (if first_index(self.entries(), QPeerState::Pending) < self.entries().len() {
                Some(self.entries()[first_index(self.entries(), QPeerState::Pending)].id)
            } else {
                None
            }),
    {
        let mut i: usize = 0;
        assert(self.states@.skip(0) =~= self.states@);
        while i < self.states.len()
            invariant
                i <= self.states@.len(),
                first_index(self.states@, QPeerState::Pending) == i + first_index(
                    self.states@.skip(i as int),
                    QPeerState::Pending,
                ),
            decreases self.states@.len() - i,
        {
            assert(self.states@.skip(i as int)[0] == self.states@[i as int]);
            assert(self.states@.skip(i as int).skip(1) =~= self.states@.skip(i + 1));
            if self.states[i].state == QPeerState::Pending {
                return Some(self.states[i].id);
            }
            i += 1;
        }
        None
    }

    /// The peers that have answered, nearest first.
    pub fn closest(&self) -> (r: Vec<KadID>)
        ensures
            r@ == ids_in_state(self.entries(), QPeerState::Finished),
    {
        let mut closest: Vec<KadID> = Vec::new();
        let mut i: usize = 0;
        assert(self.states@.take(0) =~= Seq::<QPeerEntry>::empty());
        while i < self.states.len()
            invariant
                i <= self.states@.len(),
                closest@ == ids_in_state(self.states@.take(i as int), QPeerState::Finished),
            decreases self.states@.len() - i,
        {
            assert(self.states@.take(i + 1).drop_last() =~= self.states@.take(i as int));
            if self.states[i].state == QPeerState::Finished {
                closest.push(self.states[i].id);
            }
            i += 1;
        }
        assert(self.states@.take(i as int) =~= self.states@);
        closest
    }

    pub fn is_in_state(&self, peer: &KadID, state: QPeerState) -> (r: bool)
        requires
            self.wf(),
        ensures
            r == (state_of(self.entries(), peer@) == Some(state)),
    {
        match self.get(peer) {
            Some(s) => s == state,
            None => false,
        }
    }

    pub fn num_in_progress(&self) -> (r: u32)
        ensures
            r == self.in_progress(),
    {
        self.inprogress
    }

    /// The number of pending peers among the nearest `k` of the set.
    pub fn num_candidates(&self) -> (r: u32)
        ensures
            r == count_state(horizon(self.entries(), self.limit()), QPeerState::Pending),
    {
        let n: usize = if self.states.len() <= self.k as usize {
            self.states.len()
        } else {
            self.k as usize
        };
        let ghost h = horizon(self.states@, self.k as nat);
        assert(h.len() == n);
        let mut count: u32 = 0;
        let mut i: usize = 0;
        assert(h.take(0) =~= Seq::<QPeerEntry>::empty());
        while i < n
            invariant
                i <= n,
                n <= self.k,
                n <= self.states@.len(),
                h == horizon(self.states@, self.k as nat),
                h.len() == n,
                count <= i,
                count == count_state(h.take(i as int), QPeerState::Pending),
            decreases n - i,
        {
            assert(h.take(i + 1).drop_last() =~= h.take(i as int));
            assert(h[i as int] == self.states@[i as int]);
            if self.states[i].state == QPeerState::Pending {
                count += 1;
            }
            i += 1;
        }
        assert(h.take(i as int) =~= h);
        count
    }

    /// All entries, nearest first.
    pub fn iter(&self) -> (r: &Vec<QPeerEntry>)
        ensures
            r@ == self.entries(),
    {
        &self.states
    }

    /// The peers that have answered, nearest first.
    pub fn iter_finished(&self) -> (r: Vec<KadID>)
        ensures
            r@ == ids_in_state(self.entries(), QPeerState::Finished),
    {
        self.closest()
    }

    /// The ordering key of `peer` in this set.
    pub fn key_for(&self, peer: &KadID) -> (r: Key)
        ensures
            r.id == *peer,
            r.distance@ == xor_bytes(self.target(), peer@),
    {
        let distance = self.target.distance(peer);
        Key::new(*peer, distance)
    }

    /// Where `peer` stands, or would stand, in the order, and whether it is there.
    fn position(&self, peer: &KadID) -> (r: (usize, bool))
        requires
            self.wf(),
        ensures
            r.0 <= self.states@.len(),
            forall|j: int|
                0 <= j < r.0 ==> id_dist(self.target@, (#[trigger] self.states@[j]).id@) < id_dist(
                    self.target@,
                    peer@,
                ),
            r.0 < self.states@.len() ==> id_dist(self.target@, peer@) <= id_dist(
                self.target@,
                self.states@[r.0 as int].id@,
            ),
            r.1 <==> entries_contain(self.states@, peer@),
            r.1 ==> r.0 < self.states@.len() && self.states@[r.0 as int].id@ == peer@,
    {
        let key = self.key_for(peer);
        let mut i: usize = 0;
        while i < self.states.len()
            invariant
                i <= self.states@.len(),
                self.wf(),
                key.distance@ == xor_bytes(self.target@, peer@),
                forall|j: int|
                    0 <= j < i ==> id_dist(self.target@, (#[trigger] self.states@[j]).id@)
                        < id_dist(self.target@, peer@),
            decreases self.states@.len() - i,
        {
            let d = self.target.distance(&self.states[i].id);
            if !d.lt(&key.distance) {
                let found = d.same(&key.distance);
                proof {
                    let s = self.states@;
                    if found {
                        lemma_distance_injective(self.target@, s[i as int].id@, peer@);
                    }
                    if entries_contain(s, peer@) {
                        let c = choose|c: int| 0 <= c < s.len() && (#[trigger] s[c]).id@ == peer@;
                        if c > i {
                            assert(id_dist(self.target@, s[i as int].id@) < id_dist(
                                self.target@,
                                s[c].id@,
                            ));
                        }
                        if c == i {
                            assert(d@ == key.distance@);
                        }
                    }
                }
                return (i, found);
            }
            i += 1;
        }
        proof {
            let s = self.states@;
            if entries_contain(s, peer@) {
                let c = choose|c: int| 0 <= c < s.len() && (#[trigger] s[c]).id@ == peer@;
                assert(id_dist(self.target@, s[c].id@) < id_dist(self.target@, peer@));
            }
        }
        (i, false)
    }
}

} // verus!
