use vstd::prelude::*;
use crate::kad_id::KadID;
use crate::kad_id::spec_cpl;
use crate::peer::Peer;
use crate::peer::contains_id;
use crate::peer::ids_unique;

verus! {

/// The outcome of inserting `peers` one by one, in order, into a bucket that
/// holds `s` and has room for `k` peers, stopping at the first that is refused.
pub open spec fn spec_extend(s: Seq<Peer>, k: nat, peers: Seq<Peer>) -> Seq<Peer>
    decreases peers.len(),
{
    if peers.len() == 0 {
        s
    } else if s.len() >= k || contains_id(s, peers[0].id@) {
        s
    } else {
        spec_extend(s.push(peers[0]), k, peers.skip(1))
    }
}

/// What `swap_remove` leaves: the last peer takes the place of the one removed.
pub open spec fn swap_removed(s: Seq<Peer>, i: int) -> Seq<Peer> {
    s.update(i, s.last()).drop_last()
}

/// Peers whose common prefix length with `local` is `boundary`.
pub open spec fn at_boundary(local: Seq<u8>, boundary: nat) -> spec_fn(Peer) -> bool {
    |p: Peer| spec_cpl(local, p.id@) == boundary
}

/// Peers whose common prefix length with `local` is not `boundary`.
pub open spec fn off_boundary(local: Seq<u8>, boundary: nat) -> spec_fn(Peer) -> bool {
    |p: Peer| spec_cpl(local, p.id@) != boundary
}

pub proof fn lemma_swap_removed_unique(s: Seq<Peer>, i: int)
    requires
        ids_unique(s),
        0 <= i < s.len(),
    ensures
        ids_unique(swap_removed(s, i)),
        forall|id: Seq<u8>|
            contains_id(swap_removed(s, i), id) <==> (contains_id(s, id) && id != s[i].id@),
{
    let r = swap_removed(s, i);
    let last = s.len() - 1;
    assert forall|a: int, b: int| 0 <= a < b < r.len() implies (#[trigger] r[a]).id@ != (
    #[trigger] r[b]).id@ by {
        let sa = if a == i { last } else { a };
        let sb = if b == i { last } else { b };
        assert(r[a] == s[sa]);
        assert(r[b] == s[sb]);
        if sa < sb {
            assert(s[sa].id@ != s[sb].id@);
        } else {
            assert(s[sb].id@ != s[sa].id@);
        }
    }
    assert forall|id: Seq<u8>|
        contains_id(r, id) <==> (contains_id(s, id) && id != s[i].id@) by {
        if contains_id(r, id) {
            let a = choose|a: int| 0 <= a < r.len() && (#[trigger] r[a]).id@ == id;
            let sa = if a == i { last } else { a };
            assert(r[a] == s[sa]);
            assert(s[sa].id@ == id);
            if sa < i {
                assert(s[sa].id@ != s[i].id@);
            } else {
                assert(s[i].id@ != s[sa].id@);
            }
        }
        if contains_id(s, id) && id != s[i].id@ {
            let a = choose|a: int| 0 <= a < s.len() && (#[trigger] s[a]).id@ == id;
            if a == last {
                assert(r[i] == s[last]);
                assert(r[i].id@ == id);
            } else {
                assert(r[a] == s[a]);
                assert(r[a].id@ == id);
            }
        }
    }
}

/// Into a bucket with enough room, peers with fresh identifiers all go in.
pub proof fn lemma_extend_all(s: Seq<Peer>, k: nat, peers: Seq<Peer>)
    requires
        s.len() + peers.len() <= k,
        ids_unique(s + peers),
    ensures
        spec_extend(s, k, peers) == s + peers,
    decreases peers.len(),
{
    if peers.len() == 0 {
        assert(s + peers =~= s);
    } else {
        let p = peers[0];
        let all = s + peers;
        assert(all[s.len() as int] == p);
        if contains_id(s, p.id@) {
            let i = choose|i: int| 0 <= i < s.len() && (#[trigger] s[i]).id@ == p.id@;
            assert(all[i] == s[i]);
            assert(all[i].id@ != all[s.len() as int].id@);
        }
        assert(s.push(p) + peers.skip(1) =~= all);
        lemma_extend_all(s.push(p), k, peers.skip(1));
    }
}

/// A fixed-capacity collection of peers that share a range of common prefix
/// lengths with the local node. No two of its peers have the same identifier.
#[derive(Debug)]
pub struct Bucket {
    peers: Vec<Peer>,
    k: usize,
}

impl View for Bucket {
    type V = Seq<Peer>;

    closed spec fn view(&self) -> Seq<Peer> {
        self.peers@
    }
}

impl Bucket {
    /// The number of peers that the bucket has room for.
    pub closed spec fn capacity(&self) -> nat {
        self.k as nat
    }

    /// The bucket never holds more peers than its capacity, nor two with one identifier.
    pub open spec fn wf(&self) -> bool {
        self@.len() <= self.capacity() && ids_unique(self@)
    }

    pub fn new(k: u32) -> (r: Self)
        ensures
            r.wf(),
            r@ == Seq::<Peer>::empty(),
            r.capacity() == k,
    {
        Self { peers: Vec::new(), k: k as usize }
    }

    pub fn insert(&mut self, peer: Peer) -> (r: Option<usize>)
        requires
            old(self).wf(),
        ensures
            final(self).wf(),
            final(self).capacity() == old(self).capacity(),
            r.is_none() <==> (old(self)@.len() >= old(self).capacity() || contains_id(
                old(self)@,
                peer.id@,
            )),
            r.is_none() ==> final(self)@ == old(self)@,
            r.is_some() ==> r == Some(old(self)@.len() as usize) && final(self)@ == old(
                self,
            )@.push(peer),
    {
        if self.is_full() || self.contains(&peer.id) {
            return None;
        }
        let index = self.peers.len();
        self.peers.push(peer);
        Some(index)
    }

    pub fn get(&self, index: usize) -> (r: Option<&Peer>)
        ensures
            r.is_some() <==> index < self@.len(),
            r.is_some() ==> *r.unwrap() == self@[index as int],
    {
        if index < self.peers.len() {
            Some(&self.peers[index])
        } else {
            None
        }
    }

    pub fn remove(&mut self, index: usize) -> (r: Option<Peer>)
        requires
            old(self).wf(),
        ensures
            final(self).wf(),
            final(self).capacity() == old(self).capacity(),
            r.is_some() <==> index < old(self)@.len(),
            r.is_none() ==> final(self)@ == old(self)@,
            r.is_some() ==> r == Some(old(self)@[index as int]) && final(self)@ == swap_removed(
                old(self)@,
                index as int,
            ),
    {
        if index >= self.peers.len() {
            return None;
        }
        proof {
            lemma_swap_removed_unique(self.peers@, index as int);
        }
        Some(self.peers.swap_remove(index))
    }

    pub fn remove_by_id(&mut self, id: &KadID) -> (r: Option<Peer>)
        requires
            old(self).wf(),
        ensures
            final(self).wf(),
            final(self).capacity() == old(self).capacity(),
            r.is_some() <==> contains_id(old(self)@, id@),
            r.is_none() ==> final(self)@ == old(self)@,
            r.is_some() ==> r.unwrap().id@ == id@ && old(self)@.contains(r.unwrap()),
            forall|other: Seq<u8>|
                contains_id(final(self)@, other) <==> (contains_id(old(self)@, other) && other
                    != id@),
            r.is_some() ==> exists|i: int|
                0 <= i < old(self)@.len() && old(self)@[i] == r.unwrap() && final(self)@
                    == swap_removed(old(self)@, i),
    {
        match self.find_peer_index(id) {
            None => None,
            Some(index) => {
                proof {
                    lemma_swap_removed_unique(self.peers@, index as int);
                }
                let p = self.peers.swap_remove(index);
                Some(p)
            },
        }
    }

    pub fn len(&self) -> (r: usize)
        ensures
            r == self@.len(),
    {
        self.peers.len()
    }

    pub fn is_empty(&self) -> (r: bool)
        ensures
            r == (self@.len() == 0),
    {
        self.peers.len() == 0
    }

    pub fn is_full(&self) -> (r: bool)
        ensures
            r == (self@.len() >= self.capacity()),
    {
        self.peers.len() >= self.k
    }

    pub fn contains(&self, id: &KadID) -> (r: bool)
        ensures
            r == contains_id(self@, id@),
    {
        self.find_peer_index(id).is_some()
    }

    /// The peers of the bucket, in slot order.
    pub fn iter(&self) -> (r: &Vec<Peer>)
        ensures
            r@ == self@,
    {
        &self.peers
    }

    pub fn extend(&mut self, peers: Vec<Peer>)
        requires
            old(self).wf(),
        ensures
            final(self).wf(),
            final(self).capacity() == old(self).capacity(),
            final(self)@ == spec_extend(old(self)@, old(self).capacity(), peers@),
    {
        let mut i: usize = 0;
        assert(peers@.skip(0) =~= peers@);
        while i < peers.len()
            invariant
                i <= peers.len(),
                self.wf(),
                self.capacity() == old(self).capacity(),
                spec_extend(old(self)@, old(self).capacity(), peers@) == spec_extend(
                    self@,
                    self.capacity(),
                    peers@.skip(i as int),
                ),
            decreases peers.len() - i,
        {
            let peer = peers[i];
            assert(peers@.skip(i as int)[0] == peer);
            assert(peers@.skip(i as int).skip(1) =~= peers@.skip(i + 1));
            if self.insert(peer).is_none() {
                return ;
            }
            i += 1;
        }
        assert(peers@.skip(i as int).len() == 0);
    }

    /// Removes the peers whose common prefix length with `local` differs from
    /// `boundary` and returns them; the others stay, in their order.
    pub fn drain_filter(&mut self, local: &KadID, boundary: usize) -> (drained: Vec<Peer>)
        requires
            old(self).wf(),
        ensures
            final(self).wf(),
            final(self).capacity() == old(self).capacity(),
            final(self)@ == old(self)@.filter(at_boundary(local@, boundary as nat)),
            drained@ == old(self)@.filter(off_boundary(local@, boundary as nat)),
            ids_unique(drained@),
            drained@.len() + final(self)@.len() == old(self)@.len(),
    {
        let ghost before = self.peers@;
        let ghost keep = at_boundary(local@, boundary as nat);
        let ghost drop = off_boundary(local@, boundary as nat);
        let mut kept: Vec<Peer> = Vec::new();
        let mut drained: Vec<Peer> = Vec::new();
        let mut i: usize = 0;
        assert(before.take(0).filter(keep) =~= Seq::<Peer>::empty());
        assert(before.take(0).filter(drop) =~= Seq::<Peer>::empty());
        while i < self.peers.len()
            invariant
                i <= self.peers.len(),
                self.peers@ == before,
                ids_unique(before),
                keep == at_boundary(local@, boundary as nat),
                drop == off_boundary(local@, boundary as nat),
                kept@ == before.take(i as int).filter(keep),
                drained@ == before.take(i as int).filter(drop),
                kept@.len() + drained@.len() == i,
                ids_unique(kept@),
                ids_unique(drained@),
                forall|j: int|
                    0 <= j < kept@.len() ==> exists|m: int|
                        0 <= m < i && #[trigger] kept@[j] == before[m],
                forall|j: int|
                    0 <= j < drained@.len() ==> exists|m: int|
                        0 <= m < i && #[trigger] drained@[j] == before[m],
            decreases self.peers.len() - i,
        {
            let peer = self.peers[i];
            let c = local.cpl(&peer.id);
            proof {
                assert(before.take(i + 1) =~= before.take(i as int).push(peer));
                before.take(i as int).lemma_filter_push(peer, keep);
                before.take(i as int).lemma_filter_push(peer, drop);
            }
            if c as usize == boundary {
                assert forall|j: int| 0 <= j < kept@.len() implies (#[trigger] kept@[j]).id@
                    != peer.id@ by {
                    let m = choose|m: int| 0 <= m < i && kept@[j] == before[m];
                    assert(before[m].id@ != before[i as int].id@);
                }
                kept.push(peer);
                assert forall|j: int| 0 <= j < kept@.len() implies exists|m: int|
                    0 <= m < i + 1 && #[trigger] kept@[j] == before[m] by {
                    if j == kept@.len() - 1 {
                        assert(kept@[j] == before[i as int]);
                    } else {
                        let m = choose|m: int| 0 <= m < i && kept@[j] == before[m];
                        assert(kept@[j] == before[m]);
                    }
                }
            } else {
                assert forall|j: int| 0 <= j < drained@.len() implies (#[trigger] drained@[j]).id@
                    != peer.id@ by {
                    let m = choose|m: int| 0 <= m < i && drained@[j] == before[m];
                    assert(before[m].id@ != before[i as int].id@);
                }
                drained.push(peer);
                assert forall|j: int| 0 <= j < drained@.len() implies exists|m: int|
                    0 <= m < i + 1 && #[trigger] drained@[j] == before[m] by {
                    if j == drained@.len() - 1 {
                        assert(drained@[j] == before[i as int]);
                    } else {
                        let m = choose|m: int| 0 <= m < i && drained@[j] == before[m];
                        assert(drained@[j] == before[m]);
                    }
                }
            }
            i += 1;
        }
        assert(before.take(i as int) =~= before);
        self.peers = kept;
        drained
    }

    fn find_peer_index(&self, id: &KadID) -> (r: Option<usize>)
        ensures
            r.is_some() <==> contains_id(self@, id@),
            r.is_some() ==> r.unwrap() < self@.len() && self@[r.unwrap() as int].id@ == id@,
    {
        let mut i: usize = 0;
        while i < self.peers.len()
            invariant
                i <= self.peers.len(),
                forall|j: int| 0 <= j < i ==> (#[trigger] self.peers@[j]).id@ != id@,
            decreases self.peers.len() - i,
        {
            if self.peers[i].id.same(id) {
                return Some(i);
            }
            i += 1;
        }
        None
    }
}

} // verus!
