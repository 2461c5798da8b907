use vstd::prelude::*;
use crate::kad_id::KadID;

verus! {

/// Why bytes could not be turned into a message, or a message into bytes.
#[derive(Clone, Copy, Debug, PartialEq, Eq, Structural)]
pub enum WireError {
    /// The bytes end before the message does.
    Truncated,
    /// A frame announces a length below one.
    BadLength,
    /// The message code of a frame is not known.
    UnknownCode,
    /// The opcode of a control message is not known.
    UnknownOpcode,
    /// A property key is not UTF-8.
    InvalidKey,
    /// A length does not fit the field that carries it.
    TooLong,
}

/// The two bytes of `v`, most significant first.
pub open spec fn be16(v: u16) -> Seq<u8> {
    seq![((v >> 8) & 0xff) as u8, (v & 0xff) as u8]
}

/// The four bytes of `v`, most significant first.
pub open spec fn be32(v: u32) -> Seq<u8> {
    seq![
        ((v >> 24) & 0xff) as u8,
        ((v >> 16) & 0xff) as u8,
        ((v >> 8) & 0xff) as u8,
        (v & 0xff) as u8,
    ]
}

/// The eight bytes of `v`, most significant first.
pub open spec fn be64(v: u64) -> Seq<u8> {
    be32(((v >> 32) & 0xffff_ffff) as u32) + be32((v & 0xffff_ffff) as u32)
}

/// The number that two bytes denote, most significant first.
pub open spec fn from_be16(s: Seq<u8>) -> u16 {
    ((s[0] as u16) << 8) | (s[1] as u16)
}

/// The number that four bytes denote, most significant first.
pub open spec fn from_be32(s: Seq<u8>) -> u32 {
    ((s[0] as u32) << 24) | ((s[1] as u32) << 16) | ((s[2] as u32) << 8) | (s[3] as u32)
}

/// The number that eight bytes denote, most significant first.
pub open spec fn from_be64(s: Seq<u8>) -> u64 {
    ((from_be32(s.subrange(0, 4)) as u64) << 32) | (from_be32(s.subrange(4, 8)) as u64)
}

/// The unsigned number with the bits of `v` in two's complement.
pub open spec fn bits32(v: i32) -> u32 {
    if v >= 0 {
        v as u32
    } else {
        (v + 0x1_0000_0000) as u32
    }
}

/// The signed number with the bits of `v` in two's complement.
pub open spec fn signed32(v: u32) -> i32 {
    if v < 0x8000_0000 {
        v as i32
    } else {
        (v - 0x1_0000_0000) as i32
    }
}

/// The unsigned number with the bits of `v` in two's complement.
pub open spec fn bits16(v: i16) -> u16 {
    if v >= 0 {
        v as u16
    } else {
        (v + 0x1_0000) as u16
    }
}

/// The signed number with the bits of `v` in two's complement.
pub open spec fn signed16(v: u16) -> i16 {
    if v < 0x8000 {
        v as i16
    } else {
        (v - 0x1_0000) as i16
    }
}

/// Reading the bytes of a number gives the number back.
pub proof fn lemma_be16_round_trip(v: u16)
    ensures
        from_be16(be16(v)) == v,
        be16(v).len() == 2,
{
    assert(((((v >> 8) & 0xff) as u8) as u16) << 8 | (((v & 0xff) as u8) as u16) == v)
        by (bit_vector);
}

/// Reading the bytes of a number gives the number back.
pub proof fn lemma_be32_round_trip(v: u32)
    ensures
        from_be32(be32(v)) == v,
        be32(v).len() == 4,
{
    assert((((((v >> 24) & 0xff) as u8) as u32) << 24) | (((((v >> 16) & 0xff) as u8) as u32) << 16)
        | (((((v >> 8) & 0xff) as u8) as u32) << 8) | (((v & 0xff) as u8) as u32) == v)
        by (bit_vector);
}

/// Reading the bytes of a number gives the number back.
pub proof fn lemma_be64_round_trip(v: u64)
    ensures
        from_be64(be64(v)) == v,
        be64(v).len() == 8,
{
    let hi = ((v >> 32) & 0xffff_ffff) as u32;
    let lo = (v & 0xffff_ffff) as u32;
    lemma_be32_round_trip(hi);
    lemma_be32_round_trip(lo);
    assert(be64(v).subrange(0, 4) =~= be32(hi));
    assert(be64(v).subrange(4, 8) =~= be32(lo));
    assert((((((v >> 32) & 0xffff_ffff) as u32) as u64) << 32) | (((v & 0xffff_ffff) as u32) as u64)
        == v) by (bit_vector);
}

/// A number and its two's complement bits determine each other.
pub proof fn lemma_signed32_round_trip(v: i32)
    ensures
        signed32(bits32(v)) == v,
{
}

/// A number and its two's complement bits determine each other.
pub proof fn lemma_signed16_round_trip(v: i16)
    ensures
        signed16(bits16(v)) == v,
{
}

pub fn put_u8(buf: &mut Vec<u8>, v: u8)
    ensures
        final(buf)@ == old(buf)@.push(v),
{
    buf.push(v);
}

pub fn put_u16(buf: &mut Vec<u8>, v: u16)
    ensures
        final(buf)@ == old(buf)@ + be16(v),
{
    let hi: u16 = (v >> 8) & 0xff;
    let lo: u16 = v & 0xff;
    assert(hi < 256 && lo < 256) by (bit_vector)
        requires
            hi == (v >> 8) & 0xff,
            lo == v & 0xff,
    ;
    buf.push(hi as u8);
    buf.push(lo as u8);
    assert(buf@ =~= old(buf)@ + be16(v));
}

pub fn put_u32(buf: &mut Vec<u8>, v: u32)
    ensures
        final(buf)@ == old(buf)@ + be32(v),
{
    let a: u32 = (v >> 24) & 0xff;
    let b: u32 = (v >> 16) & 0xff;
    let c: u32 = (v >> 8) & 0xff;
    let d: u32 = v & 0xff;
    assert(a < 256 && b < 256 && c < 256 && d < 256) by (bit_vector)
        requires
            a == (v >> 24) & 0xff,
            b == (v >> 16) & 0xff,
            c == (v >> 8) & 0xff,
            d == v & 0xff,
    ;
    buf.push(a as u8);
    buf.push(b as u8);
    buf.push(c as u8);
    buf.push(d as u8);
    assert(buf@ =~= old(buf)@ + be32(v));
}

pub fn put_u64(buf: &mut Vec<u8>, v: u64)
    ensures
        final(buf)@ == old(buf)@ + be64(v),
{
    let hi: u64 = (v >> 32) & 0xffff_ffff;
    let lo: u64 = v & 0xffff_ffff;
    assert(hi <= 0xffff_ffff && lo <= 0xffff_ffff) by (bit_vector)
        requires
            hi == (v >> 32) & 0xffff_ffff,
            lo == v & 0xffff_ffff,
    ;
    put_u32(buf, hi as u32);
    put_u32(buf, lo as u32);
    assert(buf@ =~= old(buf)@ + be64(v));
}

pub fn put_i32(buf: &mut Vec<u8>, v: i32)
    ensures
        final(buf)@ == old(buf)@ + be32(bits32(v)),
{
    put_u32(buf, i32_bits(v));
}

pub fn put_i16(buf: &mut Vec<u8>, v: i16)
    ensures
        final(buf)@ == old(buf)@ + be16(bits16(v)),
{
    put_u16(buf, i16_bits(v));
}

pub fn put_slice(buf: &mut Vec<u8>, bytes: &[u8])
    ensures
        final(buf)@ == old(buf)@ + bytes@,
{
    let mut i: usize = 0;
    while i < bytes.len()
        invariant
            i <= bytes@.len(),
            buf@ == old(buf)@ + bytes@.take(i as int),
        decreases bytes@.len() - i,
    {
        buf.push(bytes[i]);
        assert(buf@ =~= old(buf)@ + bytes@.take(i + 1));
        i += 1;
    }
    assert(bytes@.take(i as int) =~= bytes@);
}

pub fn put_id(buf: &mut Vec<u8>, id: &KadID)
    ensures
        final(buf)@ == old(buf)@ + id@,
{
    let bytes = id.bytes();
    let mut i: usize = 0;
    while i < 20
        invariant
            i <= 20,
            bytes@ == id@,
            buf@ == old(buf)@ + id@.take(i as int),
        decreases 20 - i,
    {
        buf.push(bytes[i]);
        assert(buf@ =~= old(buf)@ + id@.take(i + 1));
        i += 1;
    }
    assert(id@.take(20) =~= id@);
}

/// The two's complement bits of `v`.
pub fn i32_bits(v: i32) -> (r: u32)
    ensures
        r == bits32(v),
{
    if v >= 0 {
        v as u32
    } else {
        (v as i64 + 0x1_0000_0000) as u32
    }
}

/// The number whose two's complement bits are `v`.
pub fn i32_from_bits(v: u32) -> (r: i32)
    ensures
        r == signed32(v),
{
    if v < 0x8000_0000 {
        v as i32
    } else {
        (v as i64 - 0x1_0000_0000) as i32
    }
}

/// The two's complement bits of `v`.
pub fn i16_bits(v: i16) -> (r: u16)
    ensures
        r == bits16(v),
{
    if v >= 0 {
        v as u16
    } else {
        (v as i32 + 0x1_0000) as u16
    }
}

/// The number whose two's complement bits are `v`.
pub fn i16_from_bits(v: u16) -> (r: i16)
    ensures
        r == signed16(v),
{
    if v < 0x8000 {
        v as i16
    } else {
        (v as i32 - 0x1_0000) as i16
    }
}

/// A cursor over received bytes.
pub struct Reader<'a> {
    buf: &'a Vec<u8>,
    pos: usize,
}

impl<'a> Reader<'a> {
    /// The bytes that have not been read yet.
    pub closed spec fn rest(&self) -> Seq<u8> {
        self.buf@.skip(self.pos as int)
    }

    pub closed spec fn wf(&self) -> bool {
        self.pos <= self.buf@.len()
    }

    pub fn new(buf: &'a Vec<u8>) -> (r: Self)
        ensures
            r.wf(),
            r.rest() == buf@,
    {
        assert(buf@.skip(0) =~= buf@);
        Self { buf, pos: 0 }
    }

    pub fn remaining(&self) -> (r: usize)
        requires
            self.wf(),
        ensures
            r == self.rest().len(),
    {
        self.buf.len() - self.pos
    }

    pub fn get_u8(&mut self) -> (r: Option<u8>)
        requires
            old(self).wf(),
        ensures
            final(self).wf(),
            r.is_some() <==> old(self).rest().len() >= 1,
            r.is_some() ==> r.unwrap() == old(self).rest()[0] && final(self).rest() == old(
                self,
            ).rest().skip(1),
            r.is_none() ==> final(self).rest() == old(self).rest(),
    {
        if self.buf.len() - self.pos < 1 {
            return None;
        }
        let v = self.buf[self.pos];
        self.pos = self.pos + 1;
        assert(self.rest() =~= old(self).rest().skip(1));
        Some(v)
    }

    pub fn get_u16(&mut self) -> (r: Option<u16>)
        requires
            old(self).wf(),
        ensures
            final(self).wf(),
            r.is_some() <==> old(self).rest().len() >= 2,
            r.is_some() ==> r.unwrap() == from_be16(old(self).rest().take(2)) && final(self).rest()
                == old(self).rest().skip(2),
            r.is_none() ==> final(self).rest() == old(self).rest(),
    {
        if self.buf.len() - self.pos < 2 {
            return None;
        }
        let a = self.buf[self.pos] as u16;
        let b = self.buf[self.pos + 1] as u16;
        self.pos = self.pos + 2;
        assert(self.rest() =~= old(self).rest().skip(2));
        Some((a << 8) | b)
    }

    pub fn get_u32(&mut self) -> (r: Option<u32>)
        requires
            old(self).wf(),
        ensures
            final(self).wf(),
            r.is_some() <==> old(self).rest().len() >= 4,
            r.is_some() ==> r.unwrap() == from_be32(old(self).rest().take(4)) && final(self).rest()
                == old(self).rest().skip(4),
            r.is_none() ==> final(self).rest() == old(self).rest(),
    {
        if self.buf.len() - self.pos < 4 {
            return None;
        }
        let a = self.buf[self.pos] as u32;
        let b = self.buf[self.pos + 1] as u32;
        let c = self.buf[self.pos + 2] as u32;
        let d = self.buf[self.pos + 3] as u32;
        self.pos = self.pos + 4;
        assert(self.rest() =~= old(self).rest().skip(4));
        Some((a << 24) | (b << 16) | (c << 8) | d)
    }

    pub fn get_u64(&mut self) -> (r: Option<u64>)
        requires
            old(self).wf(),
        ensures
            final(self).wf(),
            r.is_some() <==> old(self).rest().len() >= 8,
            r.is_some() ==> r.unwrap() == from_be64(old(self).rest().take(8)) && final(self).rest()
                == old(self).rest().skip(8),
            r.is_none() ==> final(self).rest() == old(self).rest(),
    {
        if self.buf.len() - self.pos < 8 {
            return None;
        }
        let ghost s = self.rest();
        let hi = match self.get_u32() {
            Some(v) => v,
            None => {
                return None;
            },
        };
        let lo = match self.get_u32() {
            Some(v) => v,
            None => {
                return None;
            },
        };
        proof {
            assert(s.take(8).subrange(0, 4) =~= s.take(4));
            assert(s.take(8).subrange(4, 8) =~= s.skip(4).take(4));
            assert(self.rest() =~= s.skip(8));
        }
        Some(((hi as u64) << 32) | (lo as u64))
    }

    pub fn get_i32(&mut self) -> (r: Option<i32>)
        requires
            old(self).wf(),
        ensures
            final(self).wf(),
            r.is_some() <==> old(self).rest().len() >= 4,
            r.is_some() ==> r.unwrap() == signed32(from_be32(old(self).rest().take(4))) && final(self).rest() == old(self).rest().skip(4),
            r.is_none() ==> final(self).rest() == old(self).rest(),
    {
        match self.get_u32() {
            Some(v) => Some(i32_from_bits(v)),
            None => None,
        }
    }

    pub fn get_i16(&mut self) -> (r: Option<i16>)
        requires
            old(self).wf(),
        ensures
            final(self).wf(),
            r.is_some() <==> old(self).rest().len() >= 2,
            r.is_some() ==> r.unwrap() == signed16(from_be16(old(self).rest().take(2))) && final(self).rest() == old(self).rest().skip(2),
            r.is_none() ==> final(self).rest() == old(self).rest(),
    {
        match self.get_u16() {
            Some(v) => Some(i16_from_bits(v)),
            None => None,
        }
    }

    /// Reads the next `n` bytes.
    pub fn get_bytes(&mut self, n: usize) -> (r: Option<Vec<u8>>)
        requires
            old(self).wf(),
        ensures
            final(self).wf(),
            r.is_some() <==> old(self).rest().len() >= n,
            r.is_some() ==> r.unwrap()@ == old(self).rest().take(n as int) && final(self).rest()
                == old(self).rest().skip(n as int),
            r.is_none() ==> final(self).rest() == old(self).rest(),
    {
        if self.buf.len() - self.pos < n {
            return None;
        }
        let mut out: Vec<u8> = Vec::new();
        let start = self.pos;
        let total = self.buf.len();
        let mut i: usize = 0;
        while i < n
            invariant
                i <= n,
                total == self.buf@.len(),
                start + n <= total,
                out@ == self.buf@.subrange(start as int, start + i),
            decreases n - i,
        {
            out.push(self.buf[start + i]);
            assert(out@ =~= self.buf@.subrange(start as int, start + i + 1));
            i += 1;
        }
        self.pos = start + n;
        proof {
            assert(out@ =~= old(self).rest().take(n as int));
            assert(self.rest() =~= old(self).rest().skip(n as int));
        }
        Some(out)
    }

    /// Reads a 20-byte identifier.
    pub fn get_id(&mut self) -> (r: Option<KadID>)
        requires
            old(self).wf(),
        ensures
            final(self).wf(),
            r.is_some() <==> old(self).rest().len() >= 20,
            r.is_some() ==> r.unwrap()@ == old(self).rest().take(20) && final(self).rest() == old(
                self,
            ).rest().skip(20),
            r.is_none() ==> final(self).rest() == old(self).rest(),
    {
        if self.buf.len() - self.pos < 20 {
            return None;
        }
        let mut id = [0u8; 20];
        let start = self.pos;
        let total = self.buf.len();
        let mut i: usize = 0;
        while i < 20
            invariant
                i <= 20,
                total == self.buf@.len(),
                start + 20 <= total,
                forall|j: int| 0 <= j < i ==> id@[j] == self.buf@[start + j],
            decreases 20 - i,
        {
            id[i] = self.buf[start + i];
            i += 1;
        }
        self.pos = start + 20;
        let r = KadID::new(id);
        proof {
            assert(r@ =~= old(self).rest().take(20));
            assert(self.rest() =~= old(self).rest().skip(20));
        }
        Some(r)
    }
}

} // verus!
