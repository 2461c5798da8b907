use vstd::prelude::*;
use crate::bucket::Bucket;
use crate::bucket::at_boundary;
use crate::bucket::off_boundary;
use crate::bucket::lemma_extend_all;
use crate::kad_id::KadID;
use crate::kad_id::spec_cpl;
use crate::kad_id::lemma_cpl_bound;
use crate::peer::Peer;
use crate::peer::contains_id;
use crate::peer::ids_unique;
use crate::distance::be_value;
use crate::distance::lemma_be_value_injective;
use crate::kad_id::xor_bytes;
use crate::kad_id::lemma_distance_injective;
use crate::kad_id::lemma_distance_symmetric;

verus! {

/// The bucket that holds peers with common prefix length `cpl` in a table of
/// `count` buckets: the bucket of that index, or the last one.
pub open spec fn spec_bucket_index(cpl: nat, count: nat) -> nat {
    if cpl + 1 < count {
        cpl
    } else {
        (count - 1) as nat
    }
}

/// Every peer sits in the bucket that its common prefix length with `local` selects.
pub open spec fn placed(buckets: Seq<Seq<Peer>>, local: Seq<u8>) -> bool {
    forall|i: int, j: int|
        0 <= i < buckets.len() && 0 <= j < buckets[i].len() ==> spec_bucket_index(
            spec_cpl(local, (#[trigger] buckets[i][j]).id@),
            buckets.len(),
        ) == i
}

/// The table after its last bucket is split: the last bucket keeps the peers
/// at its own index, a new bucket behind it takes the others.
pub open spec fn spec_unfold(buckets: Seq<Seq<Peer>>, local: Seq<u8>) -> Seq<Seq<Peer>> {
    let last = buckets.len() - 1;
    buckets.update(last, buckets[last].filter(at_boundary(local, last as nat))).push(
        buckets[last].filter(off_boundary(local, last as nat)),
    )
}

/// The table as it stands when a peer with common prefix length `cpl` is
/// about to go in: the last bucket is split first if the peer belongs there
/// and it is full.
pub open spec fn spec_prepare(buckets: Seq<Seq<Peer>>, local: Seq<u8>, k: nat, cpl: nat) -> Seq<
    Seq<Peer>,
> {
    let last = buckets.len() - 1;
    if cpl >= last && buckets[last].len() >= k {
        spec_unfold(buckets, local)
    } else {
        buckets
    }
}

/// The table after `peer` is offered to it, and whether it was taken.
pub open spec fn spec_insert(buckets: Seq<Seq<Peer>>, local: Seq<u8>, k: nat, peer: Peer) -> (
    Seq<Seq<Peer>>,
    bool,
) {
    let cpl = spec_cpl(local, peer.id@);
    let b = spec_prepare(buckets, local, k, cpl);
    let idx = spec_bucket_index(cpl, b.len()) as int;
    if b[idx].len() >= k || contains_id(b[idx], peer.id@) {
        (b, false)
    } else {
        (b.update(idx, b[idx].push(peer)), true)
    }
}

/// True when some bucket holds a peer with the identifier `id`.
pub open spec fn table_contains(buckets: Seq<Seq<Peer>>, id: Seq<u8>) -> bool {
    exists|i: int| 0 <= i < buckets.len() && contains_id(#[trigger] buckets[i], id)
}

/// The number of peers in all buckets together.
pub open spec fn total_len(buckets: Seq<Seq<Peer>>) -> nat
    decreases buckets.len(),
{
    if buckets.len() == 0 {
        0
    } else {
        total_len(buckets.drop_last()) + buckets.last().len()
    }
}

/// The magnitude of the XOR distance between a peer and `target`.
pub open spec fn dist_to(target: Seq<u8>, p: Peer) -> nat {
    be_value(xor_bytes(p.id@, target))
}

/// The peers gathered for a lookup: those of the bucket at `from`, then of
/// each bucket below it in turn, for as long as fewer than `k` are gathered.
pub open spec fn spec_gather(buckets: Seq<Seq<Peer>>, from: int, acc: Seq<Peer>, k: nat) -> Seq<
    Peer,
>
    decreases from + 1,
{
    if from < 0 || from >= buckets.len() || acc.len() >= k {
        acc
    } else {
        spec_gather(buckets, from - 1, acc + buckets[from], k)
    }
}

/// True when `p` is a peer of one of the buckets `lo` to `hi`.
pub open spec fn in_buckets(buckets: Seq<Seq<Peer>>, lo: int, hi: int, p: Peer) -> bool {
    exists|bi: int, pos: int|
        lo <= bi <= hi && 0 <= bi < buckets.len() && 0 <= pos < buckets[bi].len()
            && #[trigger] buckets[bi][pos] == p
}

/// Strictly ascending by distance to `target`.
pub open spec fn sorted_by_distance(s: Seq<Peer>, target: Seq<u8>) -> bool {
    forall|i: int, j: int|
        0 <= i < j < s.len() ==> dist_to(target, #[trigger] s[i]) < dist_to(
            target,
            #[trigger] s[j],
        )
}

/// `r` holds the `k` peers of `pool` that are nearest to `target` (all of
/// them if there are fewer), nearest first.
pub open spec fn is_closest(r: Seq<Peer>, pool: Seq<Peer>, target: Seq<u8>, k: nat) -> bool {
    &&& r.len() == if pool.len() < k {
        pool.len()
    } else {
        k
    }
    &&& sorted_by_distance(r, target)
    &&& forall|i: int| 0 <= i < r.len() ==> pool.contains(#[trigger] r[i])
    &&& forall|i: int, j: int|
        0 <= i < pool.len() && 0 <= j < r.len() && !r.contains(#[trigger] pool[i]) ==> dist_to(
            target,
            #[trigger] r[j],
        ) < dist_to(target, pool[i])
}

/// Peers with different identifiers lie at different distances from a target.
pub proof fn lemma_dist_to_injective(target: Seq<u8>, a: Peer, b: Peer)
    requires
        target.len() == 20,
        dist_to(target, a) == dist_to(target, b),
    ensures
        a.id@ == b.id@,
{
    lemma_be_value_injective(xor_bytes(a.id@, target), xor_bytes(b.id@, target));
    lemma_distance_symmetric(a.id@, target);
    lemma_distance_symmetric(b.id@, target);
    lemma_distance_injective(target, a.id@, b.id@);
}

/// Sorts `pool` by ascending distance to `target` and keeps the nearest `want`.
pub fn nearest(pool: &Vec<Peer>, target: &KadID, want: usize, out: &mut Vec<Peer>)
    requires
        ids_unique(pool@),
    ensures
        is_closest(final(out)@, pool@, target@, want as nat),
{
    out.clear();
    let mut i: usize = 0;
    while i < pool.len()
        invariant
            i <= pool.len(),
            ids_unique(pool@),
            out@.len() == i,
            sorted_by_distance(out@, target@),
            forall|j: int| 0 <= j < i ==> out@.contains(#[trigger] pool@[j]),
            forall|j: int|
                0 <= j < out@.len() ==> exists|m: int| 0 <= m < i && #[trigger] out@[j] == pool@[m],
        decreases pool.len() - i,
    {
        let x = pool[i];
        let dx = x.id.distance(target);
        let mut pos: usize = 0;
        let mut searching = true;
        while searching && pos < out.len()
            invariant
                pos <= out@.len(),
                dx@ == xor_bytes(x.id@, target@),
                forall|j: int| 0 <= j < pos ==> dist_to(target@, #[trigger] out@[j]) < dist_to(target@, x),
                !searching ==> pos < out@.len() && !(dist_to(target@, out@[pos as int]) < dist_to(
                    target@,
                    x,
                )),
            decreases (out@.len() - pos) + (if searching { 1int } else { 0int }),
        {
            let d = out[pos].id.distance(target);
            if d.lt(&dx) {
                pos += 1;
            } else {
                searching = false;
            }
        }
        let ghost before = out@;
        proof {
            if pos < before.len() {
                let m = choose|m: int| 0 <= m < i && before[pos as int] == pool@[m];
                assert(pool@[m].id@ != pool@[i as int].id@);
                if dist_to(target@, before[pos as int]) == dist_to(target@, x) {
                    lemma_dist_to_injective(target@, before[pos as int], x);
                }
            }
            before.insert_ensures(pos as int, x);
        }
        out.insert(pos, x);
        proof {
            let after = out@;
            assert forall|a: int, b: int| 0 <= a < b < after.len() implies dist_to(
                target@,
                #[trigger] after[a],
            ) < dist_to(target@, #[trigger] after[b]) by {
                if a < pos {
                    assert(after[a] == before[a]);
                } else if a > pos {
                    assert(after[a] == before[a - 1]);
                }
                if b < pos {
                    assert(after[b] == before[b]);
                } else if b > pos {
                    assert(after[b] == before[b - 1]);
                }
            }
            assert forall|j: int| 0 <= j < i + 1 implies after.contains(#[trigger] pool@[j]) by {
                if j == i {
                    assert(after[pos as int] == pool@[j]);
                } else {
                    let q = choose|q: int| 0 <= q < before.len() && before[q] == pool@[j];
                    if q < pos {
                        assert(after[q] == pool@[j]);
                    } else {
                        assert(after[q + 1] == before[q]);
                    }
                }
            }
            assert forall|j: int| 0 <= j < after.len() implies exists|m: int|
                0 <= m < i + 1 && #[trigger] after[j] == pool@[m] by {
                if j < pos {
                    assert(after[j] == before[j]);
                    let m = choose|m: int| 0 <= m < i && before[j] == pool@[m];
                    assert(after[j] == pool@[m]);
                } else if j == pos {
                    assert(after[j] == pool@[i as int]);
                } else {
                    assert(after[j] == before[j - 1]);
                    let m = choose|m: int| 0 <= m < i && before[j - 1] == pool@[m];
                    assert(after[j] == pool@[m]);
                }
            }
        }
        i += 1;
    }
    let ghost sorted = out@;
    out.truncate(want);
    proof {
        let r = out@;
        assert forall|a: int| 0 <= a < r.len() implies r[a] == sorted[a] by {}
        assert forall|a: int| 0 <= a < r.len() implies pool@.contains(#[trigger] r[a]) by {
            let m = choose|m: int| 0 <= m < pool@.len() && sorted[a] == pool@[m];
            assert(pool@[m] == r[a]);
        }
        assert forall|a: int, b: int|
            0 <= a < pool@.len() && 0 <= b < r.len() && !r.contains(
                #[trigger] pool@[a],
            ) implies dist_to(target@, #[trigger] r[b]) < dist_to(target@, pool@[a]) by {
            let q = choose|q: int| 0 <= q < sorted.len() && sorted[q] == pool@[a];
            if q < r.len() {
                assert(r[q] == pool@[a]);
            } else {
                assert(r[b] == sorted[b]);
            }
        }
    }
}

/// The peers of a node's neighbourhood, in buckets by the length of the
/// prefix that they share with the local identifier.
#[derive(Debug)]
pub struct RoutingTable {
    k: u32,
    id: KadID,
    buckets: Vec<Bucket>,
}

impl RoutingTable {
    /// The capacity of each bucket.
    pub closed spec fn capacity(&self) -> nat {
        self.k as nat
    }

    /// The local identifier.
    pub closed spec fn local(&self) -> Seq<u8> {
        self.id@
    }

    /// The peers of each bucket, by bucket index.
    pub closed spec fn buckets(&self) -> Seq<Seq<Peer>> {
        Seq::new(self.buckets@.len(), |i: int| self.buckets@[i]@)
    }

    /// The table's invariant: at least one bucket, each within capacity and
    /// without a repeated identifier, and each peer in the bucket of its
    /// common prefix length.
    pub closed spec fn wf(&self) -> bool {
        &&& self.buckets@.len() >= 1
        &&& (self.k >= 1 ==> self.buckets@.len() <= 162)
        &&& forall|i: int|
            0 <= i < self.buckets@.len() ==> (#[trigger] self.buckets@[i]).wf()
                && self.buckets@[i].capacity() == self.k
        &&& placed(self.buckets(), self.local())
    }

    /// In a valid table every bucket but the last holds only peers whose
    /// common prefix length is the bucket's index, the last bucket only peers
    /// whose common prefix length is at least its index; no bucket exceeds
    /// the capacity or repeats an identifier.
    pub proof fn lemma_split_invariant(&self)
        requires
            self.wf(),
        ensures
            self.buckets().len() >= 1,
            self.local().len() == 20,
            forall|i: int, j: int|
                0 <= i < self.buckets().len() - 1 && 0 <= j < self.buckets()[i].len() ==> spec_cpl(
                    self.local(),
                    (#[trigger] self.buckets()[i][j]).id@,
                ) == i,
            forall|j: int|
                0 <= j < self.buckets().last().len() ==> spec_cpl(
                    self.local(),
                    (#[trigger] self.buckets().last()[j]).id@,
                ) >= self.buckets().len() - 1,
            forall|i: int|
                0 <= i < self.buckets().len() ==> (#[trigger] self.buckets()[i]).len()
                    <= self.capacity() && ids_unique(self.buckets()[i]),
    {
        let b = self.buckets();
        assert forall|i: int, j: int| 0 <= i < b.len() - 1 && 0 <= j < b[i].len() implies spec_cpl(
            self.local(),
            (#[trigger] b[i][j]).id@,
        ) == i by {
            assert(spec_bucket_index(spec_cpl(self.local(), b[i][j].id@), b.len()) == i);
        }
        assert forall|j: int| 0 <= j < b.last().len() implies spec_cpl(
            self.local(),
            (#[trigger] b.last()[j]).id@,
        ) >= b.len() - 1 by {
            let i = b.len() - 1;
            assert(b.last()[j] == b[i][j]);
            assert(spec_bucket_index(spec_cpl(self.local(), b[i][j].id@), b.len()) == i);
        }
        assert forall|i: int| 0 <= i < b.len() implies (#[trigger] b[i]).len() <= self.capacity()
            && ids_unique(b[i]) by {
            assert(self.buckets@[i].wf());
        }
    }

    pub fn new(k: u32, id: KadID) -> (r: Self)
        ensures
            r.wf(),
            r.capacity() == k,
            r.local() == id@,
            r.buckets() == seq![Seq::<Peer>::empty()],
    {
        let mut buckets: Vec<Bucket> = Vec::new();
        buckets.push(Bucket::new(k));
        let r = Self { k, id, buckets };
        assert(r.buckets() =~= seq![Seq::<Peer>::empty()]);
        r
    }

    pub fn insert(&mut self, peer: Peer) -> (r: bool)
        requires
            old(self).wf(),
        ensures
            final(self).wf(),
            final(self).capacity() == old(self).capacity(),
            final(self).local() == old(self).local(),
            (final(self).buckets(), r) == spec_insert(
                old(self).buckets(),
                old(self).local(),
                old(self).capacity(),
                peer,
            ),
            final(self).buckets().len() >= old(self).buckets().len(),
    {
        let bucket_idx = self.bucket_index_for_id_create(&peer.id);
        let ghost mid = self.buckets();
        let ghost vecs = self.buckets@;
        let r = self.buckets[bucket_idx].insert(peer);
        proof {
            assert(self.buckets@.len() == vecs.len());
            assert(forall|i: int|
                0 <= i < vecs.len() && i != bucket_idx ==> self.buckets@[i] == vecs[i]);
            if r.is_some() {
                assert(self.buckets() =~= mid.update(bucket_idx as int, mid[bucket_idx as int].push(peer)));
                let b = self.buckets();
                assert forall|i: int, j: int| 0 <= i < b.len() && 0 <= j < b[i].len() implies
                    spec_bucket_index(
                    spec_cpl(self.local(), (#[trigger] b[i][j]).id@),
                    b.len(),
                ) == i by {
                    if i == bucket_idx && j == b[i].len() - 1 {
                    } else {
                        assert(b[i][j] == mid[i][j]);
                    }
                }
            } else {
                assert(self.buckets() =~= mid);
            }
        }
        r.is_some()
    }

    pub fn remove(&mut self, id: &KadID) -> (r: Option<Peer>)
        requires
            old(self).wf(),
        ensures
            final(self).wf(),
            final(self).capacity() == old(self).capacity(),
            final(self).local() == old(self).local(),
            final(self).buckets().len() == old(self).buckets().len(),
            r.is_some() <==> table_contains(old(self).buckets(), id@),
            r.is_some() ==> r.unwrap().id@ == id@,
            r.is_none() ==> final(self).buckets() == old(self).buckets(),
            r.is_some() ==> exists|j: int|
                0 <= j < old(self).buckets()[spec_bucket_index(
                    spec_cpl(old(self).local(), id@),
                    old(self).buckets().len(),
                ) as int].len() && #[trigger] old(self).buckets()[spec_bucket_index(
                    spec_cpl(old(self).local(), id@),
                    old(self).buckets().len(),
                ) as int][j] == r.unwrap() && final(self).buckets() == old(self).buckets().update(
                    spec_bucket_index(
                        spec_cpl(old(self).local(), id@),
                        old(self).buckets().len(),
                    ) as int,
                    crate::bucket::swap_removed(
                        old(self).buckets()[spec_bucket_index(
                            spec_cpl(old(self).local(), id@),
                            old(self).buckets().len(),
                        ) as int],
                        j,
                    ),
                ),
            forall|other: Seq<u8>|
                table_contains(final(self).buckets(), other) <==> (table_contains(
                    old(self).buckets(),
                    other,
                ) && other != id@),
    {
        let bucket_index = self.bucket_index_for_id(id);
        let ghost before = self.buckets();
        let ghost vecs = self.buckets@;
        proof {
            self.lemma_contains_in_bucket(id@);
        }
        let r = self.buckets[bucket_index].remove_by_id(id);
        proof {
            let b = self.buckets();
            assert(self.buckets@.len() == vecs.len());
            assert(forall|i: int|
                0 <= i < vecs.len() && i != bucket_index ==> self.buckets@[i] == vecs[i]);
            assert forall|i: int| 0 <= i < b.len() && i != bucket_index implies #[trigger] b[i]
                == before[i] by {}
            if r.is_none() {
                assert(b =~= before);
            } else {
                let i = bucket_index as int;
                let m = choose|m: int|
                    0 <= m < before[i].len() && before[i][m] == r.unwrap() && b[i]
                        == crate::bucket::swap_removed(before[i], m);
                assert(b =~= before.update(i, crate::bucket::swap_removed(before[i], m)));
            }
            assert forall|i: int, j: int| 0 <= i < b.len() && 0 <= j < b[i].len() implies
                spec_bucket_index(spec_cpl(self.local(), (#[trigger] b[i][j]).id@), b.len())
                == i by {
                if i == bucket_index {
                    if r.is_some() {
                        let m = choose|m: int|
                            0 <= m < before[i].len() && before[i][m] == r.unwrap() && b[i]
                                == crate::bucket::swap_removed(before[i], m);
                        let src = if j == m {
                            before[i].len() - 1
                        } else {
                            j
                        };
                        assert(b[i][j] == before[i][src]);
                    } else {
                        assert(b[i][j] == before[i][j]);
                    }
                } else {
                    assert(b[i][j] == before[i][j]);
                }
            }
            assert forall|other: Seq<u8>|
                table_contains(b, other) <==> (table_contains(before, other) && other != id@) by {
                if table_contains(b, other) {
                    let i = choose|i: int| 0 <= i < b.len() && contains_id(#[trigger] b[i], other);
                    if i == bucket_index {
                        assert(contains_id(before[i], other));
                    } else {
                        assert(b[i] == before[i]);
                        assert(contains_id(before[i], other));
                        if other == id@ {
                            let j = choose|j: int|
                                0 <= j < before[i].len() && (#[trigger] before[i][j]).id@ == other;
                            assert(spec_bucket_index(
                                spec_cpl(self.local(), before[i][j].id@),
                                before.len(),
                            ) == i);
                        }
                    }
                }
                if table_contains(before, other) && other != id@ {
                    let i = choose|i: int|
                        0 <= i < before.len() && contains_id(#[trigger] before[i], other);
                    if i == bucket_index {
                        assert(contains_id(b[i], other));
                    } else {
                        assert(b[i] == before[i]);
                        assert(contains_id(b[i], other));
                    }
                }
            }
        }
        r
    }

    /// The number of peers in the table.
    pub fn len(&self) -> (r: u64)
        requires
            self.wf(),
        ensures
            r == total_len(self.buckets()),
    {
        let mut total: u64 = 0;
        let mut i: usize = 0;
        while i < self.buckets.len()
            invariant
                i <= self.buckets@.len(),
                self.wf(),
                total == total_len(self.buckets().take(i as int)),
                total <= i * self.k,
            decreases self.buckets@.len() - i,
        {
            let n = self.buckets[i].len();
            proof {
                let t = self.buckets().take(i + 1);
                assert(t.drop_last() =~= self.buckets().take(i as int));
                assert(t.last() == self.buckets()[i as int]);
                assert(self.buckets@[i as int].wf());
                assert(n <= self.k);
                assert((i + 1) * self.k == i * self.k + self.k) by (nonlinear_arith);
                if self.k >= 1 {
                    assert((i + 1) * self.k <= 162 * self.k) by (nonlinear_arith)
                        requires
                            i + 1 <= 162,
                    ;
                } else {
                    assert((i + 1) * self.k == 0) by (nonlinear_arith)
                        requires
                            self.k == 0,
                    ;
                }
            }
            total = total + n as u64;
            i += 1;
        }
        assert(self.buckets().take(i as int) =~= self.buckets());
        total
    }

    pub fn contains(&self, id: &KadID) -> (r: bool)
        requires
            self.wf(),
        ensures
            r == table_contains(self.buckets(), id@),
    {
        let bucket_idx = self.bucket_index_for_id(id);
        proof {
            self.lemma_contains_in_bucket(id@);
        }
        self.buckets[bucket_idx].contains(id)
    }

    /// The peers that a lookup for `target` considers: those of the bucket
    /// that `target` selects, then those of the buckets below it.
    pub open spec fn candidates(&self, target: Seq<u8>) -> Seq<Peer> {
        spec_gather(
            self.buckets(),
            spec_bucket_index(spec_cpl(self.local(), target), self.buckets().len()) as int,
            Seq::<Peer>::empty(),
            self.capacity(),
        )
    }

    pub fn closest(&self, id: &KadID) -> (r: Vec<Peer>)
        requires
            self.wf(),
        ensures
            is_closest(r@, self.candidates(id@), id@, self.capacity()),
            r@.len() <= self.capacity(),
            forall|i: int| 0 <= i < r@.len() ==> table_contains(self.buckets(), (#[trigger] r@[i]).id@),
    {
        let mut buf: Vec<Peer> = Vec::new();
        self.closest_into(id, &mut buf);
        buf
    }

    pub fn closest_into(&self, id: &KadID, peers: &mut Vec<Peer>)
        requires
            self.wf(),
        ensures
            is_closest(final(peers)@, self.candidates(id@), id@, self.capacity()),
            final(peers)@.len() <= self.capacity(),
            forall|i: int|
                0 <= i < final(peers)@.len() ==> table_contains(
                    self.buckets(),
                    (#[trigger] final(peers)@[i]).id@,
                ),
    {
        let ghost b = self.buckets();
        let start = self.bucket_index_for_id(id);
        let mut pool: Vec<Peer> = Vec::new();
        let count = self.buckets.len();
        assert(start < count);
        let mut remaining: usize = start + 1;
        while pool.len() < self.k as usize && remaining > 0
            invariant
                self.wf(),
                b == self.buckets(),
                start < b.len(),
                remaining <= start + 1,
                self.candidates(id@) == spec_gather(b, remaining - 1, pool@, self.k as nat),
                ids_unique(pool@),
                forall|j: int|
                    0 <= j < pool@.len() ==> in_buckets(b, remaining as int, start as int, #[trigger] pool@[j]),
            decreases remaining,
        {
            let items = self.buckets[remaining - 1].iter();
            let ghost idx = remaining - 1;
            let ghost pool_before = pool@;
            assert(items@ == b[idx]);
            assert(self.buckets@[idx].wf());
            let mut j: usize = 0;
            while j < items.len()
                invariant
                    j <= items@.len(),
                    pool@ == pool_before + items@.take(j as int),
                decreases items@.len() - j,
            {
                pool.push(items[j]);
                assert(pool@ =~= pool_before + items@.take(j + 1));
                j += 1;
            }
            proof {
                assert(items@.take(j as int) =~= items@);
                let p = pool@;
                let n = pool_before.len();
                assert forall|x: int| 0 <= x < p.len() implies in_buckets(
                    b,
                    idx,
                    start as int,
                    #[trigger] p[x],
                ) by {
                    if x < n {
                        assert(in_buckets(b, remaining as int, start as int, pool_before[x]));
                        let (bi, pos) = choose|bi: int, pos: int|
                            remaining <= bi <= start && 0 <= bi < b.len() && 0 <= pos < b[bi].len()
                                && #[trigger] b[bi][pos] == pool_before[x];
                        assert(b[bi][pos] == p[x]);
                    } else {
                        assert(b[idx][x - n] == p[x]);
                    }
                }
                assert forall|x: int, y: int| 0 <= x < y < p.len() implies (#[trigger] p[x]).id@ != (
                #[trigger] p[y]).id@ by {
                    if y < n {
                        assert(p[x] == pool_before[x] && p[y] == pool_before[y]);
                    } else if x >= n {
                        assert(p[x] == b[idx][x - n] && p[y] == b[idx][y - n]);
                    } else {
                        assert(in_buckets(b, remaining as int, start as int, pool_before[x]));
                        let (bi, pos) = choose|bi: int, pos: int|
                            remaining <= bi <= start && 0 <= bi < b.len() && 0 <= pos < b[bi].len()
                                && #[trigger] b[bi][pos] == pool_before[x];
                        assert(p[y] == b[idx][y - n]);
                        assert(spec_bucket_index(
                            spec_cpl(self.local(), b[bi][pos].id@),
                            b.len(),
                        ) == bi);
                        assert(spec_bucket_index(
                            spec_cpl(self.local(), b[idx][y - n].id@),
                            b.len(),
                        ) == idx);
                    }
                }
            }
            remaining -= 1;
        }
        nearest(&pool, id, self.k as usize, peers);
        proof {
            let r = peers@;
            assert forall|i: int| 0 <= i < r.len() implies table_contains(
                b,
                (#[trigger] r[i]).id@,
            ) by {
                let x = choose|x: int| 0 <= x < pool@.len() && pool@[x] == r[i];
                assert(in_buckets(b, remaining as int, start as int, pool@[x]));
                let (bi, pos) = choose|bi: int, pos: int|
                    remaining <= bi <= start && 0 <= bi < b.len() && 0 <= pos < b[bi].len()
                        && #[trigger] b[bi][pos] == pool@[x];
                assert(b[bi][pos].id@ == r[i].id@);
                assert(contains_id(b[bi], r[i].id@));
            }
        }
    }

    /// The number of buckets.
    pub fn bucket_count(&self) -> (r: usize)
        ensures
            r == self.buckets().len(),
    {
        self.buckets.len()
    }

    /// The peers of the bucket at `index`, in slot order.
    pub fn bucket_peers(&self, index: usize) -> (r: Option<&Vec<Peer>>)
        ensures
            r.is_some() <==> index < self.buckets().len(),
            r.is_some() ==> r.unwrap()@ == self.buckets()[index as int],
    {
        if index < self.buckets.len() {
            Some(self.buckets[index].iter())
        } else {
            None
        }
    }

    /// The identifier of the local node.
    pub fn local_id(&self) -> (r: KadID)
        ensures
            r@ == self.local(),
    {
        self.id
    }

    /// The bucket capacity that the table was made with.
    pub fn k(&self) -> (r: u32)
        ensures
            r == self.capacity(),
    {
        self.k
    }

    proof fn lemma_contains_in_bucket(&self, id: Seq<u8>)
        requires
            self.wf(),
        ensures
            table_contains(self.buckets(), id) <==> contains_id(
                self.buckets()[spec_bucket_index(
                    spec_cpl(self.local(), id),
                    self.buckets().len(),
                ) as int],
                id,
            ),
    {
        let b = self.buckets();
        let idx = spec_bucket_index(spec_cpl(self.local(), id), b.len()) as int;
        if table_contains(b, id) {
            let i = choose|i: int| 0 <= i < b.len() && contains_id(#[trigger] b[i], id);
            let j = choose|j: int| 0 <= j < b[i].len() && (#[trigger] b[i][j]).id@ == id;
            assert(spec_bucket_index(spec_cpl(self.local(), b[i][j].id@), b.len()) == i);
        }
        if contains_id(b[idx], id) {
            assert(contains_id(b[idx], id));
        }
    }

    fn bucket_index_for_id(&self, id: &KadID) -> (r: usize)
        requires
            self.wf(),
        ensures
            r == spec_bucket_index(spec_cpl(self.local(), id@), self.buckets().len()),
            r < self.buckets().len(),
    {
        let cpl = self.id.cpl(id);
        self.bucket_index_for_cpl(cpl)
    }

    fn bucket_index_for_cpl(&self, cpl: u32) -> (r: usize)
        requires
            self.wf(),
        ensures
            r == spec_bucket_index(cpl as nat, self.buckets().len()),
            r < self.buckets().len(),
    {
        let last = self.buckets.len() - 1;
        if (cpl as usize) < last {
            cpl as usize
        } else {
            last
        }
    }

    fn bucket_index_for_id_create(&mut self, id: &KadID) -> (r: usize)
        requires
            old(self).wf(),
        ensures
            final(self).wf(),
            final(self).k == old(self).k,
            final(self).id == old(self).id,
            final(self).buckets() == spec_prepare(
                old(self).buckets(),
                old(self).local(),
                old(self).capacity(),
                spec_cpl(old(self).local(), id@),
            ),
            r == spec_bucket_index(spec_cpl(old(self).local(), id@), final(self).buckets().len()),
            r < final(self).buckets().len(),
    {
        let cpl = self.id.cpl(id);
        self.bucket_index_for_cpl_create(cpl)
    }

    fn bucket_index_for_cpl_create(&mut self, cpl: u32) -> (r: usize)
        requires
            old(self).wf(),
        ensures
            final(self).wf(),
            final(self).k == old(self).k,
            final(self).id == old(self).id,
            final(self).buckets() == spec_prepare(
                old(self).buckets(),
                old(self).local(),
                old(self).capacity(),
                cpl as nat,
            ),
            r == spec_bucket_index(cpl as nat, final(self).buckets().len()),
            r < final(self).buckets().len(),
    {
        let last_bucket_idx = self.buckets.len() - 1;
        if cpl as usize >= last_bucket_idx && self.buckets[last_bucket_idx].is_full() {
            self.unfold_last_bucket();
        }
        self.bucket_index_for_cpl(cpl)
    }

    fn unfold_last_bucket(&mut self)
        requires
            old(self).wf(),
            old(self).buckets().last().len() >= old(self).capacity(),
        ensures
            final(self).wf(),
            final(self).k == old(self).k,
            final(self).id == old(self).id,
            final(self).buckets() == spec_unfold(old(self).buckets(), old(self).local()),
    {
        let ghost before = self.buckets();
        let ghost vecs = self.buckets@;
        let local = self.id;
        let last = self.buckets.len() - 1;
        let mut bucket = Bucket::new(self.k);
        assert(vecs[last as int].wf());
        let drained = self.buckets[last].drain_filter(&local, last);
        proof {
            lemma_extend_all(Seq::<Peer>::empty(), self.k as nat, drained@);
            assert(Seq::<Peer>::empty() + drained@ =~= drained@);
        }
        bucket.extend(drained);
        self.buckets.push(bucket);
        proof {
            let b = self.buckets();
            assert(self.buckets@.len() == vecs.len() + 1);
            assert(forall|i: int| 0 <= i < last ==> self.buckets@[i] == vecs[i]);
            assert(b =~= spec_unfold(before, local@));
            let keep = at_boundary(local@, last as nat);
            let moved = off_boundary(local@, last as nat);
            if self.k >= 1 {
                assert(before[last as int].len() >= 1);
                assert(spec_bucket_index(
                    spec_cpl(local@, before[last as int][0].id@),
                    before.len(),
                ) == last);
                lemma_cpl_bound(local@, before[last as int][0].id@);
            }
            assert forall|i: int, j: int| 0 <= i < b.len() && 0 <= j < b[i].len() implies
                spec_bucket_index(spec_cpl(local@, (#[trigger] b[i][j]).id@), b.len()) == i by {
                if i < last {
                    assert(b[i][j] == before[i][j]);
                    assert(spec_bucket_index(spec_cpl(local@, before[i][j].id@), before.len())
                        == i);
                } else if i == last {
                    before[i].lemma_filter_pred(keep, j);
                } else {
                    let src = before[last as int];
                    assert(i == last + 1);
                    assert(b[i] == src.filter(moved));
                    src.lemma_filter_pred(moved, j);
                    assert(src.filter(moved).contains(b[i][j]));
                    src.lemma_filter_contains_rev(moved, b[i][j]);
                    let m = choose|m: int| 0 <= m < src.len() && src[m] == b[i][j];
                    assert(spec_bucket_index(spec_cpl(local@, before[last as int][m].id@), before.len())
                        == last);
                }
            }
        }
    }
}

} // verus!
