use vstd::prelude::*;
use crate::kad_id::KadID;
use crate::peer::HostAddr;
use crate::peer::Peer;

verus! {

/// The address that `s` records for the identifier `id`: that of the last
/// pair with that identifier.
pub open spec fn lookup_host(s: Seq<Peer>, id: Seq<u8>) -> Option<HostAddr>
    decreases s.len(),
{
    if s.len() == 0 {
        None
    } else if s.last().id@ == id {
        Some(s.last().addr)
    } else {
        lookup_host(s.drop_last(), id)
    }
}

/// The identifier that `s` records for the address `host`: that of the
/// last pair with that address.
pub open spec fn lookup_id(s: Seq<Peer>, host: HostAddr) -> Option<KadID>
    decreases s.len(),
{
    if s.len() == 0 {
        None
    } else if s.last().addr == host {
        Some(s.last().id)
    } else {
        lookup_id(s.drop_last(), host)
    }
}

/// No two pairs of `s` have the same address.
pub open spec fn hosts_unique(s: Seq<Peer>) -> bool {
    forall|i: int, j: int| 0 <= i < j < s.len() ==> (#[trigger] s[i]).addr != (#[trigger] s[j]).addr
}

/// No two pairs of `s` have the same identifier.
pub open spec fn keys_unique(s: Seq<Peer>) -> bool {
    forall|i: int, j: int| 0 <= i < j < s.len() ==> (#[trigger] s[i]).id@ != (#[trigger] s[j]).id@
}

proof fn lemma_lookup_host_absent(s: Seq<Peer>, id: Seq<u8>)
    requires
        forall|j: int| 0 <= j < s.len() ==> (#[trigger] s[j]).id@ != id,
    ensures
        lookup_host(s, id).is_none(),
    decreases s.len(),
{
    if s.len() > 0 {
        let p = s.drop_last();
        assert forall|j: int| 0 <= j < p.len() implies (#[trigger] p[j]).id@ != id by {
            assert(p[j] == s[j]);
        }
        lemma_lookup_host_absent(p, id);
    }
}

proof fn lemma_lookup_id_absent(s: Seq<Peer>, host: HostAddr)
    requires
        forall|j: int| 0 <= j < s.len() ==> (#[trigger] s[j]).addr != host,
    ensures
        lookup_id(s, host).is_none(),
    decreases s.len(),
{
    if s.len() > 0 {
        let p = s.drop_last();
        assert forall|j: int| 0 <= j < p.len() implies (#[trigger] p[j]).addr != host by {
            assert(p[j] == s[j]);
        }
        lemma_lookup_id_absent(p, host);
    }
}

/// Replacing the pair of an identifier changes what is recorded for that
/// identifier and for no other.
proof fn lemma_lookup_host_update(s: Seq<Peer>, i: int, p: Peer, id: Seq<u8>)
    requires
        0 <= i < s.len(),
        keys_unique(s),
        s[i].id@ == p.id@,
    ensures
        lookup_host(s.update(i, p), id) == (if id == p.id@ {
            Some(p.addr)
        } else {
            lookup_host(s, id)
        }),
    decreases s.len(),
{
    let u = s.update(i, p);
    if i == s.len() - 1 {
        assert(u.drop_last() =~= s.drop_last());
    } else {
        assert(u.drop_last() =~= s.drop_last().update(i, p));
        assert(u.last() == s.last());
        assert(s[i].id@ != s[s.len() - 1].id@);
        let q = s.drop_last();
        assert forall|a: int, b: int| 0 <= a < b < q.len() implies (#[trigger] q[a]).id@ != (
        #[trigger] q[b]).id@ by {
            assert(q[a] == s[a] && q[b] == s[b]);
        }
        lemma_lookup_host_update(q, i, p, id);
    }
}

/// Replacing the pair of an address changes what is recorded for that
/// address and for no other.
proof fn lemma_lookup_id_update(s: Seq<Peer>, i: int, p: Peer, host: HostAddr)
    requires
        0 <= i < s.len(),
        hosts_unique(s),
        s[i].addr == p.addr,
    ensures
        lookup_id(s.update(i, p), host) == (if host == p.addr {
            Some(p.id)
        } else {
            lookup_id(s, host)
        }),
    decreases s.len(),
{
    let u = s.update(i, p);
    if i == s.len() - 1 {
        assert(u.drop_last() =~= s.drop_last());
    } else {
        assert(u.drop_last() =~= s.drop_last().update(i, p));
        assert(u.last() == s.last());
        assert(s[i].addr != s[s.len() - 1].addr);
        let q = s.drop_last();
        assert forall|a: int, b: int| 0 <= a < b < q.len() implies (#[trigger] q[a]).addr != (
        #[trigger] q[b]).addr by {
            assert(q[a] == s[a] && q[b] == s[b]);
        }
        lemma_lookup_id_update(q, i, p, host);
    }
}

/// The addresses of the known identifiers and the identifiers of the known
/// addresses. Nothing is ever removed.
#[derive(Debug)]
pub struct AddrBook {
    id2host: Vec<Peer>,
    host2id: Vec<Peer>,
}

impl AddrBook {
    /// The address recorded for `id`.
    pub closed spec fn host_of(&self, id: Seq<u8>) -> Option<HostAddr> {
        lookup_host(self.id2host@, id)
    }

    /// The identifier recorded for `host`.
    pub closed spec fn id_of(&self, host: HostAddr) -> Option<KadID> {
        lookup_id(self.host2id@, host)
    }

    pub closed spec fn wf(&self) -> bool {
        keys_unique(self.id2host@) && hosts_unique(self.host2id@)
    }

    /// The addresses recorded, by identifier.
    pub open spec fn host_map(&self) -> Map<Seq<u8>, HostAddr> {
        Map::new(
            |id: Seq<u8>| self.host_of(id).is_some(),
            |id: Seq<u8>| self.host_of(id).unwrap(),
        )
    }

    /// The identifiers recorded, by address.
    pub open spec fn id_map(&self) -> Map<HostAddr, KadID> {
        Map::new(
            |host: HostAddr| self.id_of(host).is_some(),
            |host: HostAddr| self.id_of(host).unwrap(),
        )
    }

    pub fn new() -> (r: Self)
        ensures
            r.wf(),
            forall|id: Seq<u8>| r.host_of(id).is_none(),
            forall|host: HostAddr| r.id_of(host).is_none(),
    {
        Self { id2host: Vec::new(), host2id: Vec::new() }
    }

    /// Records the pair in both directions, over whatever was recorded for
    /// the identifier and for the address.
    pub fn insert(&mut self, id: KadID, host: HostAddr)
        requires
            old(self).wf(),
        ensures
            final(self).wf(),
            forall|other: Seq<u8>|
                #[trigger] final(self).host_of(other) == (if other == id@ {
                    Some(host)
                } else {
                    old(self).host_of(other)
                }),
            forall|other: HostAddr|
                #[trigger] final(self).id_of(other) == (if other == host {
                    Some(id)
                } else {
                    old(self).id_of(other)
                }),
            final(self).host_map() == old(self).host_map().insert(id@, host),
            final(self).id_map() == old(self).id_map().insert(host, id),
    {
        let pair = Peer { id, addr: host };
        let ghost a = self.id2host@;
        let ghost b = self.host2id@;
        let mut i: usize = 0;
        while i < self.id2host.len() && !self.id2host[i].id.same(&id)
            invariant
                i <= self.id2host@.len(),
                self.id2host@ == a,
                self.host2id@ == b,
                forall|j: int| 0 <= j < i ==> (#[trigger] a[j]).id@ != id@,
            decreases self.id2host@.len() - i,
        {
            i += 1;
        }
        if i < self.id2host.len() {
            self.id2host[i] = pair;
            proof {
                assert forall|other: Seq<u8>|
                    lookup_host(a.update(i as int, pair), other) == (if other == id@ {
                        Some(host)
                    } else {
                        lookup_host(a, other)
                    }) by {
                    lemma_lookup_host_update(a, i as int, pair, other);
                }
                let u = self.id2host@;
                assert forall|x: int, y: int| 0 <= x < y < u.len() implies (#[trigger] u[x]).id@ != (
                #[trigger] u[y]).id@ by {
                    assert(u[x].id@ == a[x].id@ && u[y].id@ == a[y].id@);
                }
            }
        } else {
            self.id2host.push(pair);
            proof {
                lemma_lookup_host_absent(a, id@);
                assert(self.id2host@.drop_last() =~= a);
            }
        }
        let mut j: usize = 0;
        while j < self.host2id.len() && !(self.host2id[j].addr == host)
            invariant
                j <= self.host2id@.len(),
                self.host2id@ == b,
                forall|x: int| 0 <= x < j ==> (#[trigger] b[x]).addr != host,
            decreases self.host2id@.len() - j,
        {
            j += 1;
        }
        if j < self.host2id.len() {
            self.host2id[j] = pair;
            proof {
                assert forall|other: HostAddr|
                    lookup_id(b.update(j as int, pair), other) == (if other == host {
                        Some(id)
                    } else {
                        lookup_id(b, other)
                    }) by {
                    lemma_lookup_id_update(b, j as int, pair, other);
                }
                let u = self.host2id@;
                assert forall|x: int, y: int| 0 <= x < y < u.len() implies (#[trigger] u[x]).addr
                    != (#[trigger] u[y]).addr by {
                    assert(u[x].addr == b[x].addr && u[y].addr == b[y].addr);
                }
            }
        } else {
            self.host2id.push(pair);
            proof {
                lemma_lookup_id_absent(b, host);
                assert(self.host2id@.drop_last() =~= b);
            }
        }
        proof {
            assert(self.host_map() =~= old(self).host_map().insert(id@, host));
            assert(self.id_map() =~= old(self).id_map().insert(host, id));
        }
    }

    pub fn insert_peer(&mut self, peer: &Peer)
        requires
            old(self).wf(),
        ensures
            final(self).wf(),
            forall|other: Seq<u8>|
                #[trigger] final(self).host_of(other) == (if other == peer.id@ {
                    Some(peer.addr)
                } else {
                    old(self).host_of(other)
                }),
            forall|other: HostAddr|
                #[trigger] final(self).id_of(other) == (if other == peer.addr {
                    Some(peer.id)
                } else {
                    old(self).id_of(other)
                }),
            final(self).host_map() == old(self).host_map().insert(peer.id@, peer.addr),
            final(self).id_map() == old(self).id_map().insert(peer.addr, peer.id),
    {
        self.insert(peer.id, peer.addr);
    }

    pub fn id_to_host(&self, id: &KadID) -> (r: Option<HostAddr>)
        ensures
            r == self.host_of(id@),
    {
        let mut i: usize = self.id2host.len();
        assert(self.id2host@.take(i as int) =~= self.id2host@);
        while i > 0
            invariant
                i <= self.id2host@.len(),
                lookup_host(self.id2host@, id@) == lookup_host(self.id2host@.take(i as int), id@),
            decreases i,
        {
            assert(self.id2host@.take(i as int).drop_last() =~= self.id2host@.take(i - 1));
            if self.id2host[i - 1].id.same(id) {
                return Some(self.id2host[i - 1].addr);
            }
            i -= 1;
        }
        None
    }

    pub fn host_to_id(&self, host: &HostAddr) -> (r: Option<KadID>)
        ensures
            r == self.id_of(*host),
    {
        let mut i: usize = self.host2id.len();
        assert(self.host2id@.take(i as int) =~= self.host2id@);
        while i > 0
            invariant
                i <= self.host2id@.len(),
                lookup_id(self.host2id@, *host) == lookup_id(self.host2id@.take(i as int), *host),
            decreases i,
        {
            assert(self.host2id@.take(i as int).drop_last() =~= self.host2id@.take(i - 1));
            if self.host2id[i - 1].addr == *host {
                return Some(self.host2id[i - 1].id);
            }
            i -= 1;
        }
        None
    }

    pub fn id_to_peer(&self, id: &KadID) -> (r: Option<Peer>)
        ensures
            r.is_some() <==> self.host_of(id@).is_some(),
            r.is_some() ==> r.unwrap().id == *id && Some(r.unwrap().addr) == self.host_of(id@),
    {
        match self.id_to_host(id) {
            Some(addr) => Some(Peer { id: *id, addr }),
            None => None,
        }
    }

    pub fn host_to_peer(&self, host: &HostAddr) -> (r: Option<Peer>)
        ensures
            r.is_some() <==> self.id_of(*host).is_some(),
            r.is_some() ==> r.unwrap().addr == *host && Some(r.unwrap().id) == self.id_of(*host),
    {
        match self.host_to_id(host) {
            Some(id) => Some(Peer { id, addr: *host }),
            None => None,
        }
    }
}

} // verus!
