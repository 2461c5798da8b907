use vstd::prelude::*;
use vstd::std_specs::bits::u8_leading_zeros;
use vstd::std_specs::bits::axiom_u8_leading_zeros;
use crate::distance::Distance;

verus! {

/// Number of bytes in a node identifier.
pub const ID_LENGTH: usize = 20;

/// Number of bits in a node identifier.
pub const ID_BITS: u32 = 160;

/// Byte-wise XOR of two byte strings of the same length.
pub open spec fn xor_bytes(a: Seq<u8>, b: Seq<u8>) -> Seq<u8> {
    Seq::new(a.len(), |i: int| a[i] ^ b[i])
}

/// Number of leading zero bits of a byte string, most significant byte first.
pub open spec fn leading_zero_bits(s: Seq<u8>) -> nat
    decreases s.len(),
{
    if s.len() == 0 {
        0
    } else if s[0] == 0 {
        8 + leading_zero_bits(s.skip(1))
    } else {
        u8_leading_zeros(s[0]) as nat
    }
}

/// Common prefix length of two identifiers: the leading zero bits of their XOR.
pub open spec fn spec_cpl(a: Seq<u8>, b: Seq<u8>) -> nat {
    leading_zero_bits(xor_bytes(a, b))
}

/// The identifier made of zero bytes only.
pub open spec fn zero_bytes() -> Seq<u8> {
    Seq::new(20, |i: int| 0u8)
}

/// The bit mask that has only bit `7 - bits` set, counted from the least significant bit.
pub open spec fn flip_mask(bits: nat) -> u8 {
    if bits == 0 {
        0x80
    } else if bits == 1 {
        0x40
    } else if bits == 2 {
        0x20
    } else if bits == 3 {
        0x10
    } else if bits == 4 {
        0x08
    } else if bits == 5 {
        0x04
    } else if bits == 6 {
        0x02
    } else {
        0x01
    }
}

/// What `with_cpl` builds from `base` and arbitrary bytes `fill`: the first
/// `cpl / 8` bytes of `base`, then the byte of `base` with bit `cpl % 8`
/// (from the top) flipped, then the bytes of `fill`.
pub open spec fn spec_with_cpl(base: Seq<u8>, fill: Seq<u8>, cpl: nat) -> Seq<u8> {
    Seq::new(
        20,
        |i: int|
            if i < (cpl / 8) as int {
                base[i]
            } else if i == (cpl / 8) as int {
                base[i] ^ flip_mask(cpl % 8)
            } else {
                fill[i]
            },
    )
}

pub proof fn lemma_leading_zero_bits_skip(s: Seq<u8>, i: int)
    requires
        0 <= i <= s.len(),
        forall|j: int| 0 <= j < i ==> s[j] == 0,
    ensures
        leading_zero_bits(s) == 8 * i + leading_zero_bits(s.skip(i)),
    decreases i,
{
    if i > 0 {
        lemma_leading_zero_bits_skip(s, i - 1);
        let t = s.skip(i - 1);
        assert(t[0] == 0);
        assert(t.skip(1) =~= s.skip(i));
    } else {
        assert(s.skip(0) =~= s);
    }
}

proof fn lemma_mask_leading_zeros(bits: nat)
    requires
        bits < 8,
    ensures
        u8_leading_zeros(flip_mask(bits)) == bits,
{
    let m = flip_mask(bits);
    axiom_u8_leading_zeros(m);
    let l = u8_leading_zeros(m);
    assert(m != 0);
    assert(l < 8);
    let l8 = l as u8;
    let hi: u8 = (8 - l8) as u8;
    let lo: u8 = (7 - l8) as u8;
    assert((m >> lo) & 1u8 != 0u8);
    assert(m >> hi == 0);
    if bits == 0 {
        assert(l8 < 8 && (0x80u8 >> ((7 - l8) as u8)) & 1u8 != 0u8 && 0x80u8 >> ((8 - l8) as u8) == 0
            ==> l8 == 0) by (bit_vector);
    } else if bits == 1 {
        assert(l8 < 8 && (0x40u8 >> ((7 - l8) as u8)) & 1u8 != 0u8 && 0x40u8 >> ((8 - l8) as u8) == 0
            ==> l8 == 1) by (bit_vector);
    } else if bits == 2 {
        assert(l8 < 8 && (0x20u8 >> ((7 - l8) as u8)) & 1u8 != 0u8 && 0x20u8 >> ((8 - l8) as u8) == 0
            ==> l8 == 2) by (bit_vector);
    } else if bits == 3 {
        assert(l8 < 8 && (0x10u8 >> ((7 - l8) as u8)) & 1u8 != 0u8 && 0x10u8 >> ((8 - l8) as u8) == 0
            ==> l8 == 3) by (bit_vector);
    } else if bits == 4 {
        assert(l8 < 8 && (0x08u8 >> ((7 - l8) as u8)) & 1u8 != 0u8 && 0x08u8 >> ((8 - l8) as u8) == 0
            ==> l8 == 4) by (bit_vector);
    } else if bits == 5 {
        assert(l8 < 8 && (0x04u8 >> ((7 - l8) as u8)) & 1u8 != 0u8 && 0x04u8 >> ((8 - l8) as u8) == 0
            ==> l8 == 5) by (bit_vector);
    } else if bits == 6 {
        assert(l8 < 8 && (0x02u8 >> ((7 - l8) as u8)) & 1u8 != 0u8 && 0x02u8 >> ((8 - l8) as u8) == 0
            ==> l8 == 6) by (bit_vector);
    } else {
        assert(l8 < 8 && (0x01u8 >> ((7 - l8) as u8)) & 1u8 != 0u8 && 0x01u8 >> ((8 - l8) as u8) == 0
            ==> l8 == 7) by (bit_vector);
    }
}

/// A 160-bit node identifier.
#[derive(Clone, Copy, Debug, Hash)]
pub struct KadID(pub [u8; 20]);

impl View for KadID {
    type V = Seq<u8>;

    open spec fn view(&self) -> Seq<u8> {
        self.0@
    }
}

impl KadID {
    pub fn new(id: [u8; 20]) -> (r: Self)
        ensures
            r@ == id@,
    {
        Self(id)
    }

    pub fn zero() -> (r: Self)
        ensures
            r@ == zero_bytes(),
    {
        let r = Self([0u8; 20]);
        assert(r@ =~= zero_bytes());
        r
    }

    /// The bytes of the identifier, most significant first.
    pub fn bytes(&self) -> (r: [u8; 20])
        ensures
            r@ == self@,
    {
        self.0
    }

    /// True exactly when the two identifiers hold the same bytes.
    pub fn same(&self, other: &Self) -> (r: bool)
        ensures
            r == (self@ == other@),
    {
        let mut i: usize = 0;
        while i < 20
            invariant
                i <= 20,
                forall|j: int| 0 <= j < i ==> self@[j] == other@[j],
            decreases 20 - i,
        {
            if self.0[i] != other.0[i] {
                return false;
            }
            i += 1;
        }
        assert(self@ =~= other@);
        true
    }

    pub fn distance(&self, other: &Self) -> (r: Distance)
        ensures
            r@ == xor_bytes(self@, other@),
    {
        let mut distance = [0u8; 20];
        let mut i: usize = 0;
        while i < 20
            invariant
                i <= 20,
                forall|j: int| 0 <= j < i ==> distance@[j] == self@[j] ^ other@[j],
            decreases 20 - i,
        {
            distance[i] = self.0[i] ^ other.0[i];
            i += 1;
        }
        assert(distance@ =~= xor_bytes(self@, other@));
        Distance::new(distance)
    }

    pub fn cpl(&self, other: &Self) -> (r: u32)
        ensures
            r as nat == spec_cpl(self@, other@),
            r <= 160,
    {
        let ghost x = xor_bytes(self@, other@);
        let mut cpl: u32 = 0;
        let mut i: usize = 0;
        while i < 20
            invariant
                i <= 20,
                cpl == 8 * i,
                x == xor_bytes(self@, other@),
                forall|j: int| 0 <= j < i ==> x[j] == 0,
            decreases 20 - i,
        {
            let b: u8 = self.0[i] ^ other.0[i];
            let lz: u32 = b.leading_zeros();
            proof {
                axiom_u8_leading_zeros(b);
                lemma_leading_zero_bits_skip(x, i as int);
                assert(x.skip(i as int)[0] == b);
            }
            cpl += lz;
            if lz < 8 {
                return cpl;
            }
            i += 1;
        }
        proof {
            lemma_leading_zero_bits_skip(x, 20);
            assert(x.skip(20).len() == 0);
        }
        cpl
    }

    /// Builds the identifier that shares exactly `cpl` leading bits with
    /// `base` and takes its remaining bytes from `fill`.
    pub fn with_cpl(base: &Self, fill: Self, cpl: u32) -> (r: Self)
        requires
            cpl < 160,
        ensures
            r@ == spec_with_cpl(base@, fill@, cpl as nat),
            spec_cpl(base@, r@) == cpl,
    {
        let cpl_bytes: usize = (cpl / 8) as usize;
        let cpl_bits: u32 = cpl % 8;
        let mut id = fill;
        let mut i: usize = 0;
        while i < cpl_bytes
            invariant
                i <= cpl_bytes < 20,
                forall|j: int| 0 <= j < i ==> id@[j] == base@[j],
                forall|j: int| i <= j < 20 ==> id@[j] == fill@[j],
            decreases cpl_bytes - i,
        {
            id.0[i] = base.0[i];
            i += 1;
        }
        let mask: u8 = 1u8 << (7 - cpl_bits);
        assert(mask == flip_mask(cpl_bits as nat)) by {
            assert(1u8 << 7u32 == 0x80u8) by (bit_vector);
            assert(1u8 << 6u32 == 0x40u8) by (bit_vector);
            assert(1u8 << 5u32 == 0x20u8) by (bit_vector);
            assert(1u8 << 4u32 == 0x10u8) by (bit_vector);
            assert(1u8 << 3u32 == 0x08u8) by (bit_vector);
            assert(1u8 << 2u32 == 0x04u8) by (bit_vector);
            assert(1u8 << 1u32 == 0x02u8) by (bit_vector);
            assert(1u8 << 0u32 == 0x01u8) by (bit_vector);
        }
        id.0[cpl_bytes] = base.0[cpl_bytes] ^ mask;
        proof {
            assert(id@ =~= spec_with_cpl(base@, fill@, cpl as nat));
            lemma_with_cpl(base@, fill@, cpl as nat);
        }
        id
    }

    /// A fresh identifier that shares exactly `cpl` leading bits with `base`.
    pub fn random_with_cpl(base: &Self, cpl: u32) -> (r: Self)
        requires
            cpl < 160,
        ensures
            spec_cpl(base@, r@) == cpl,
    {
        let fill = random_id();
        Self::with_cpl(base, fill, cpl)
    }

    /// A fresh identifier drawn from the thread's random generator.
    pub fn random() -> (r: Self) {
        random_id()
    }
}

/// Calls `rand::thread_rng()` and `RngCore::fill_bytes` to draw 20 random
/// bytes. Nothing is claimed of the bytes that come back.
#[verifier::external_body]
fn random_id() -> (r: KadID) {
    let mut id = [0u8; 20];
    rand::RngCore::fill_bytes(&mut rand::thread_rng(), &mut id);
    KadID(id)
}

/// An identifier built by `spec_with_cpl` shares exactly `cpl` leading bits
/// with its base.
pub proof fn lemma_with_cpl(base: Seq<u8>, fill: Seq<u8>, cpl: nat)
    requires
        base.len() == 20,
        cpl < 160,
    ensures
        spec_cpl(base, spec_with_cpl(base, fill, cpl)) == cpl,
{
    let r = spec_with_cpl(base, fill, cpl);
    let x = xor_bytes(base, r);
    let n = (cpl / 8) as int;
    let m = flip_mask(cpl % 8);
    assert forall|j: int| 0 <= j < n implies x[j] == 0 by {
        let b = base[j];
        assert(b ^ b == 0) by (bit_vector);
    }
    lemma_leading_zero_bits_skip(x, n);
    let b = base[n];
    assert(b ^ (b ^ m) == m) by (bit_vector);
    assert(x.skip(n)[0] == m);
    lemma_mask_leading_zeros(cpl % 8);
    assert(m != 0);
}

/// A byte string has at most eight leading zero bits per byte.
pub proof fn lemma_leading_zero_bits_bound(s: Seq<u8>)
    ensures
        leading_zero_bits(s) <= 8 * s.len(),
    decreases s.len(),
{
    if s.len() > 0 {
        if s[0] == 0 {
            lemma_leading_zero_bits_bound(s.skip(1));
        } else {
            axiom_u8_leading_zeros(s[0]);
        }
    }
}

/// Two identifiers share at most 160 leading bits.
pub proof fn lemma_cpl_bound(a: Seq<u8>, b: Seq<u8>)
    requires
        a.len() == 20,
    ensures
        spec_cpl(a, b) <= 160,
{
    lemma_leading_zero_bits_bound(xor_bytes(a, b));
}

/// The XOR metric is symmetric.
pub proof fn lemma_distance_symmetric(a: Seq<u8>, b: Seq<u8>)
    requires
        a.len() == 20,
        b.len() == 20,
    ensures
        xor_bytes(a, b) == xor_bytes(b, a),
{
    assert forall|i: int| 0 <= i < 20 implies a[i] ^ b[i] == b[i] ^ a[i] by {
        let x = a[i];
        let y = b[i];
        assert(x ^ y == y ^ x) by (bit_vector);
    }
    assert(xor_bytes(a, b) =~= xor_bytes(b, a));
}

/// The distance between two identifiers is zero exactly when they are equal.
pub proof fn lemma_distance_zero_iff_equal(a: Seq<u8>, b: Seq<u8>)
    requires
        a.len() == 20,
        b.len() == 20,
    ensures
        xor_bytes(a, b) == zero_bytes() <==> a == b,
        xor_bytes(a, a) == zero_bytes(),
{
    if a == b {
        assert forall|i: int| 0 <= i < 20 implies a[i] ^ b[i] == 0 by {
            let x = a[i];
            assert(x ^ x == 0) by (bit_vector);
        }
        assert(xor_bytes(a, b) =~= zero_bytes());
    }
    if xor_bytes(a, b) == zero_bytes() {
        assert forall|i: int| 0 <= i < 20 implies a[i] == b[i] by {
            let x = a[i];
            let y = b[i];
            assert(xor_bytes(a, b)[i] == zero_bytes()[i]);
            assert(x ^ y == 0 ==> x == y) by (bit_vector);
        }
        assert(a =~= b);
    }
    assert forall|i: int| 0 <= i < 20 implies a[i] ^ a[i] == 0 by {
        let x = a[i];
        assert(x ^ x == 0) by (bit_vector);
    }
    assert(xor_bytes(a, a) =~= zero_bytes());
}

/// The magnitude of the distance between two identifiers is zero exactly
/// when they are equal.
pub proof fn lemma_distance_value_zero(a: Seq<u8>, b: Seq<u8>)
    requires
        a.len() == 20,
        b.len() == 20,
    ensures
        crate::distance::be_value(xor_bytes(a, b)) == 0 <==> a == b,
{
    let d = xor_bytes(a, b);
    crate::distance::lemma_be_value_zero(d);
    lemma_distance_zero_iff_equal(a, b);
    if crate::distance::be_value(d) == 0 {
        assert(d =~= zero_bytes());
    }
    if a == b {
        assert forall|i: int| 0 <= i < d.len() implies d[i] == 0 by {
            assert(d[i] == zero_bytes()[i]);
        }
    }
}

/// Two identifiers at the same distance from a third one are equal.
pub proof fn lemma_distance_injective(t: Seq<u8>, a: Seq<u8>, b: Seq<u8>)
    requires
        t.len() == 20,
        a.len() == 20,
        b.len() == 20,
        xor_bytes(t, a) == xor_bytes(t, b),
    ensures
        a == b,
{
    assert forall|i: int| 0 <= i < 20 implies a[i] == b[i] by {
        let x = a[i];
        let y = b[i];
        let z = t[i];
        assert(xor_bytes(t, a)[i] == z ^ x);
        assert(xor_bytes(t, b)[i] == z ^ y);
        assert(z ^ x == z ^ y ==> x == y) by (bit_vector);
    }
    assert(a =~= b);
}

/// An identifier shares all of its 160 bits with itself.
pub proof fn lemma_cpl_self(a: Seq<u8>)
    requires
        a.len() == 20,
    ensures
        spec_cpl(a, a) == 160,
{
    let x = xor_bytes(a, a);
    assert forall|i: int| 0 <= i < 20 implies x[i] == 0 by {
        let v = a[i];
        assert(v ^ v == 0) by (bit_vector);
    }
    lemma_leading_zero_bits_skip(x, 20);
    assert(x.skip(20).len() == 0);
}

} // verus!
