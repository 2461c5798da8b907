use vstd::prelude::*;
use crate::kad_id::KadID;

verus! {

/// The number that a byte string denotes, most significant byte first.
pub open spec fn be_value(s: Seq<u8>) -> nat
    decreases s.len(),
{
    if s.len() == 0 {
        0
    } else {
        be_value(s.drop_last()) * 256 + s.last() as nat
    }
}

/// Where two byte strings first differ, the one with the smaller byte
/// denotes the smaller number.
pub proof fn lemma_be_value_first_difference(a: Seq<u8>, b: Seq<u8>, i: int, n: int)
    requires
        a.len() == b.len(),
        0 <= i < n <= a.len(),
        forall|j: int| 0 <= j < i ==> a[j] == b[j],
        a[i] < b[i],
    ensures
        be_value(a.take(n)) < be_value(b.take(n)),
    decreases n,
{
    let an = a.take(n);
    let bn = b.take(n);
    assert(an.drop_last() =~= a.take(n - 1));
    assert(bn.drop_last() =~= b.take(n - 1));
    let x = be_value(a.take(n - 1));
    let y = be_value(b.take(n - 1));
    if n == i + 1 {
        assert(a.take(i) =~= b.take(i));
        assert(x == y);
    } else {
        lemma_be_value_first_difference(a, b, i, n - 1);
        assert(x * 256 + 256 <= y * 256) by (nonlinear_arith)
            requires
                x < y,
        ;
    }
}

/// Only the all-zero byte string denotes zero.
pub proof fn lemma_be_value_zero(s: Seq<u8>)
    ensures
        be_value(s) == 0 <==> (forall|i: int| 0 <= i < s.len() ==> s[i] == 0),
    decreases s.len(),
{
    if s.len() > 0 {
        let p = s.drop_last();
        lemma_be_value_zero(p);
        if be_value(s) == 0 {
            assert(be_value(p) == 0 && s.last() == 0) by (nonlinear_arith)
                requires
                    be_value(p) * 256 + s.last() as nat == 0,
            ;
            assert forall|i: int| 0 <= i < s.len() implies s[i] == 0 by {
                if i < s.len() - 1 {
                    assert(p[i] == s[i]);
                }
            }
        }
        if forall|i: int| 0 <= i < s.len() ==> s[i] == 0 {
            assert forall|i: int| 0 <= i < p.len() implies p[i] == 0 by {
                assert(p[i] == s[i]);
            }
        }
    }
}

/// The XOR distance between two identifiers, ordered as an unsigned
/// big-endian number.
#[derive(Clone, Copy, Debug, Hash)]
pub struct Distance(pub [u8; 20]);

impl View for Distance {
    type V = Seq<u8>;

    open spec fn view(&self) -> Seq<u8> {
        self.0@
    }
}

impl Distance {
    /// The magnitude of the distance.
    pub open spec fn value(&self) -> nat {
        be_value(self@)
    }

    pub fn new(distance: [u8; 20]) -> (r: Self)
        ensures
            r@ == distance@,
    {
        Self(distance)
    }

    pub fn from_ids(id1: &KadID, id2: &KadID) -> (r: Self)
        ensures
            r@ == crate::kad_id::xor_bytes(id1@, id2@),
    {
        id1.distance(id2)
    }

    /// True exactly when both distances hold the same bytes.
    pub fn same(&self, other: &Self) -> (r: bool)
        ensures
            r == (self@ == other@),
    {
        let mut i: usize = 0;
        while i < 20
            invariant
                i <= 20,
                forall|j: int| 0 <= j < i ==> self@[j] == other@[j],
            decreases 20 - i,
        {
            if self.0[i] != other.0[i] {
                return false;
            }
            i += 1;
        }
        assert(self@ =~= other@);
        true
    }

    /// True exactly when this distance is strictly smaller than `other`.
    pub fn lt(&self, other: &Self) -> (r: bool)
        ensures
            r == (self.value() < other.value()),
            !r && !(other.value() < self.value()) ==> self@ == other@,
    {
        let mut i: usize = 0;
        while i < 20
            invariant
                i <= 20,
                forall|j: int| 0 <= j < i ==> self@[j] == other@[j],
            decreases 20 - i,
        {
            if self.0[i] != other.0[i] {
                proof {
                    assert(self@.take(20) =~= self@);
                    assert(other@.take(20) =~= other@);
                    if self@[i as int] < other@[i as int] {
                        lemma_be_value_first_difference(self@, other@, i as int, 20);
                    } else {
                        lemma_be_value_first_difference(other@, self@, i as int, 20);
                    }
                }
                return self.0[i] < other.0[i];
            }
            i += 1;
        }
        assert(self@ =~= other@);
        false
    }

    /// True exactly when the distance is zero.
    pub fn is_zero(&self) -> (r: bool)
        ensures
            r == (self.value() == 0),
    {
        let mut i: usize = 0;
        while i < 20
            invariant
                i <= 20,
                forall|j: int| 0 <= j < i ==> self@[j] == 0,
            decreases 20 - i,
        {
            if self.0[i] != 0 {
                proof {
                    lemma_be_value_zero(self@);
                    assert(self@[i as int] != 0);
                }
                return false;
            }
            i += 1;
        }
        proof {
            lemma_be_value_zero(self@);
        }
        true
    }
}

/// Two distances of equal magnitude hold the same bytes.
pub proof fn lemma_be_value_injective(a: Seq<u8>, b: Seq<u8>)
    requires
        a.len() == b.len(),
        be_value(a) == be_value(b),
    ensures
        a == b,
    decreases a.len(),
{
    if a.len() > 0 {
        let x = be_value(a.drop_last());
        let y = be_value(b.drop_last());
        let c = a.last() as nat;
        let d = b.last() as nat;
        assert(x == y && c == d) by (nonlinear_arith)
            requires
                x * 256 + c == y * 256 + d,
                c < 256,
                d < 256,
        ;
        lemma_be_value_injective(a.drop_last(), b.drop_last());
        assert(a =~= a.drop_last().push(a.last()));
        assert(b =~= b.drop_last().push(b.last()));
    } else {
        assert(a =~= b);
    }
}

} // verus!
