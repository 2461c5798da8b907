use vstd::prelude::*;
use vstd::utf8::decode_utf8;
use vstd::utf8::encode_utf8;
use vstd::utf8::valid_utf8;
use crate::codec::Reader;
use crate::codec::WireError;
use crate::codec::be16;
use crate::codec::be32;
use crate::codec::bits16;
use crate::codec::bits32;
use crate::codec::from_be16;
use crate::codec::from_be32;
use crate::codec::signed16;
use crate::codec::signed32;
use crate::codec::i16_from_bits;
use crate::codec::i32_from_bits;
use crate::codec::put_i16;
use crate::codec::put_i32;
use crate::codec::put_slice;
use crate::codec::put_u16;
use crate::codec::put_u32;
use crate::peer::HostAddr;

verus! {

/// A key and its value as mathematical values.
pub type Pair = (Seq<char>, Seq<u8>);

/// The index of the first pair of `s` with key `key`, or the length of `s`.
pub open spec fn pair_index(s: Seq<Pair>, key: Seq<char>) -> int
    decreases s.len(),
{
    if s.len() == 0 {
        0
    } else if s[0].0 == key {
        0
    } else {
        1 + pair_index(s.skip(1), key)
    }
}

/// The value that `s` holds for `key`.
pub open spec fn spec_get(s: Seq<Pair>, key: Seq<char>) -> Option<Seq<u8>> {
    let i = pair_index(s, key);
    if i < s.len() {
        Some(s[i].1)
    } else {
        None
    }
}

/// `s` with `value` under `key`, in place of any value that `key` had.
pub open spec fn spec_put(s: Seq<Pair>, key: Seq<char>, value: Seq<u8>) -> Seq<Pair> {
    let i = pair_index(s, key);
    if i < s.len() {
        s.update(i, (key, value))
    } else {
        s.push((key, value))
    }
}

pub proof fn lemma_pair_index(s: Seq<Pair>, key: Seq<char>)
    ensures
        0 <= pair_index(s, key) <= s.len(),
        pair_index(s, key) < s.len() ==> s[pair_index(s, key)].0 == key,
        forall|j: int| 0 <= j < pair_index(s, key) ==> (#[trigger] s[j]).0 != key,
    decreases s.len(),
{
    if s.len() > 0 && s[0].0 != key {
        let t = s.skip(1);
        lemma_pair_index(t, key);
        assert forall|j: int| 0 <= j < pair_index(s, key) implies (#[trigger] s[j]).0 != key by {
            if j > 0 {
                assert(t[j - 1] == s[j]);
            }
        }
    }
}

/// The index of a key is the first place where it stands.
pub proof fn lemma_pair_index_is(s: Seq<Pair>, key: Seq<char>, i: int)
    requires
        0 <= i <= s.len(),
        forall|j: int| 0 <= j < i ==> (#[trigger] s[j]).0 != key,
        i < s.len() ==> s[i].0 == key,
    ensures
        pair_index(s, key) == i,
{
    lemma_pair_index(s, key);
    let p = pair_index(s, key);
    if p < i {
        assert(s[p].0 != key);
    }
}

/// A bag gives back what was put under a key, and what it held under the others.
pub proof fn lemma_put_get(s: Seq<Pair>, key: Seq<char>, value: Seq<u8>, other: Seq<char>)
    ensures
        spec_get(spec_put(s, key, value), other) == (if other == key {
            Some(value)
        } else {
            spec_get(s, other)
        }),
{
    let t = spec_put(s, key, value);
    let i = pair_index(s, key);
    let o = pair_index(s, other);
    lemma_pair_index(s, key);
    lemma_pair_index(s, other);
    if other == key {
        assert forall|j: int| 0 <= j < i implies (#[trigger] t[j]).0 != key by {
            assert(t[j] == s[j]);
        }
        lemma_pair_index_is(t, key, i);
    } else {
        assert forall|j: int| 0 <= j < o implies (#[trigger] t[j]).0 != other by {
            if j == i {
            } else {
                assert(t[j] == s[j]);
            }
        }
        if o < s.len() {
            assert(t[o] == s[o]);
            lemma_pair_index_is(t, other, o);
        } else {
            lemma_pair_index_is(t, other, t.len() as int);
        }
    }
}

/// A value of the wrong length for the type that was asked for.
#[derive(Debug)]
pub struct InvalidPropertyValue {
    pub key: String,
    pub expected: &'static str,
}

impl InvalidPropertyValue {
    pub fn new(key: &str, expected: &'static str) -> (r: Self)
        ensures
            r.key@ == key@,
            r.expected == expected,
    {
        Self { key: key.to_owned(), expected }
    }
}

/// A key of a property bag and its value.
#[derive(Debug)]
pub struct Property {
    pub key: String,
    pub value: Vec<u8>,
}

/// A bag of named byte strings.
#[derive(Debug)]
pub struct Properties {
    entries: Vec<Property>,
}

/// The pairs that a list of properties holds.
pub open spec fn pairs_of(s: Seq<Property>) -> Seq<Pair> {
    Seq::new(s.len(), |i: int| (s[i].key@, s[i].value@))
}

/// The bytes of an address: four of IPv4 address, two of port.
pub open spec fn addr_wire(a: HostAddr) -> Seq<u8> {
    be32(a.ip) + be16(a.port)
}

/// The bytes of one pair: length and bytes of the key, length and bytes of the value.
pub open spec fn pair_wire(p: Pair) -> Seq<u8> {
    be32(bits32(encode_utf8(p.0).len() as i32)) + encode_utf8(p.0) + be32(
        bits32(p.1.len() as i32),
    ) + p.1
}

/// The bytes of a list of pairs, one after the other.
pub open spec fn pairs_wire(s: Seq<Pair>) -> Seq<u8>
    decreases s.len(),
{
    if s.len() == 0 {
        Seq::empty()
    } else {
        pairs_wire(s.drop_last()) + pair_wire(s.last())
    }
}

/// True when each length of `s` fits the 32-bit signed field that carries it.
pub open spec fn pairs_fit(s: Seq<Pair>) -> bool {
    s.len() <= i32::MAX && forall|i: int|
        0 <= i < s.len() ==> encode_utf8((#[trigger] s[i]).0).len() <= i32::MAX && s[i].1.len()
            <= i32::MAX
}

/// A length-prefixed chunk read from the start of `s`, and what follows it.
pub open spec fn spec_read_chunk(s: Seq<u8>) -> Result<(Seq<u8>, Seq<u8>), WireError> {
    if s.len() < 4 {
        Err(WireError::Truncated)
    } else {
        let n = signed32(from_be32(s.take(4)));
        if n < 0 {
            Err(WireError::BadLength)
        } else if s.len() - 4 < n {
            Err(WireError::Truncated)
        } else {
            Ok((s.subrange(4, 4 + n), s.skip(4 + n)))
        }
    }
}

/// The bag that holds `acc` and then the `n` pairs read from the start of
/// `s`, each put over any earlier pair of the same key, and what follows them.
pub open spec fn spec_read_pairs(s: Seq<u8>, n: nat, acc: Seq<Pair>) -> Result<
    (Seq<Pair>, Seq<u8>),
    WireError,
>
    decreases n,
{
    if n == 0 {
        Ok((acc, s))
    } else {
        match spec_read_chunk(s) {
            Err(e) => Err(e),
            Ok((key, after_key)) => match spec_read_chunk(after_key) {
                Err(e) => Err(e),
                Ok((value, rest)) => if !valid_utf8(key) {
                    Err(WireError::InvalidKey)
                } else {
                    spec_read_pairs(rest, (n - 1) as nat, spec_put(acc, decode_utf8(key), value))
                },
            },
        }
    }
}

/// A property bag read from the start of `s`, and what follows it.
pub open spec fn spec_read_props(s: Seq<u8>) -> Result<(Seq<Pair>, Seq<u8>), WireError> {
    if s.len() < 4 {
        Err(WireError::Truncated)
    } else {
        let n = signed32(from_be32(s.take(4)));
        spec_read_pairs(
            s.skip(4),
            if n < 0 {
                0nat
            } else {
                n as nat
            },
            Seq::empty(),
        )
    }
}

/// `String::from_utf8`: the text that the bytes encode, if they are valid UTF-8.
#[verifier::external_body]
fn string_from_utf8(bytes: Vec<u8>) -> (r: Option<String>)
    ensures
        r.is_some() <==> valid_utf8(bytes@),
        r.is_some() ==> r.unwrap()@ == decode_utf8(bytes@),
{
    String::from_utf8(bytes).ok()
}

/// Reads a length and then that many bytes.
fn read_chunk(reader: &mut Reader) -> (r: Result<Vec<u8>, WireError>)
    requires
        old(reader).wf(),
    ensures
        final(reader).wf(),
        match spec_read_chunk(old(reader).rest()) {
            Err(e) => r == Err::<Vec<u8>, WireError>(e),
            Ok((chunk, rest)) => r.is_ok() && r.unwrap()@ == chunk && final(reader).rest() == rest,
        },
{
    let ghost s = reader.rest();
    let n = match reader.get_i32() {
        Some(v) => v,
        None => {
            return Err(WireError::Truncated);
        },
    };
    if n < 0 {
        return Err(WireError::BadLength);
    }
    match reader.get_bytes(n as usize) {
        Some(bytes) => {
            proof {
                assert(s.skip(4).take(n as int) =~= s.subrange(4, 4 + n));
                assert(s.skip(4).skip(n as int) =~= s.skip(4 + n));
            }
            Ok(bytes)
        },
        None => Err(WireError::Truncated),
    }
}

impl Properties {
    /// The pairs of the bag, in the order in which their keys came.
    pub closed spec fn pairs(&self) -> Seq<Pair> {
        pairs_of(self.entries@)
    }

    /// The value under `key`.
    pub open spec fn value_of(&self, key: Seq<char>) -> Option<Seq<u8>> {
        spec_get(self.pairs(), key)
    }

    /// The bytes of the bag: the number of pairs, then each pair.
    pub open spec fn wire(&self) -> Seq<u8> {
        be32(bits32(self.pairs().len() as i32)) + pairs_wire(self.pairs())
    }

    pub fn new() -> (r: Self)
        ensures
            r.pairs() == Seq::<Pair>::empty(),
    {
        let r = Self { entries: Vec::new() };
        assert(r.pairs() =~= Seq::<Pair>::empty());
        r
    }

    pub fn builder() -> (r: PropertiesBuilder)
        ensures
            r.bag().pairs() == Seq::<Pair>::empty(),
    {
        PropertiesBuilder(Properties::new())
    }

    /// The number of pairs.
    pub fn len(&self) -> (r: usize)
        ensures
            r == self.pairs().len(),
    {
        self.entries.len()
    }

    /// Puts `value` under `key`, in place of any value that `key` had.
    pub fn insert(&mut self, key: &str, value: Vec<u8>)
        ensures
            final(self).pairs() == spec_put(old(self).pairs(), key@, value@),
    {
        let i = self.find(key);
        let entry = Property { key: key.to_owned(), value };
        if i < self.entries.len() {
            self.entries[i] = entry;
            assert(self.pairs() =~= spec_put(old(self).pairs(), key@, value@));
        } else {
            self.entries.push(entry);
            assert(self.pairs() =~= spec_put(old(self).pairs(), key@, value@));
        }
    }

    pub fn insert_i16(&mut self, key: &str, value: i16)
        ensures
            final(self).pairs() == spec_put(old(self).pairs(), key@, be16(bits16(value))),
    {
        let mut data: Vec<u8> = Vec::new();
        put_i16(&mut data, value);
        assert(data@ =~= be16(bits16(value)));
        self.insert(key, data);
    }

    pub fn insert_u16(&mut self, key: &str, value: u16)
        ensures
            final(self).pairs() == spec_put(old(self).pairs(), key@, be16(value)),
    {
        let mut data: Vec<u8> = Vec::new();
        put_u16(&mut data, value);
        assert(data@ =~= be16(value));
        self.insert(key, data);
    }

    pub fn insert_i32(&mut self, key: &str, value: i32)
        ensures
            final(self).pairs() == spec_put(old(self).pairs(), key@, be32(bits32(value))),
    {
        let mut data: Vec<u8> = Vec::new();
        put_i32(&mut data, value);
        assert(data@ =~= be32(bits32(value)));
        self.insert(key, data);
    }

    pub fn insert_u32(&mut self, key: &str, value: u32)
        ensures
            final(self).pairs() == spec_put(old(self).pairs(), key@, be32(value)),
    {
        let mut data: Vec<u8> = Vec::new();
        put_u32(&mut data, value);
        assert(data@ =~= be32(value));
        self.insert(key, data);
    }

    /// Puts an address under `key`: four bytes of IPv4 address, two of port.
    pub fn insert_addr(&mut self, key: &str, value: HostAddr)
        ensures
            final(self).pairs() == spec_put(old(self).pairs(), key@, addr_wire(value)),
    {
        let mut data: Vec<u8> = Vec::new();
        put_u32(&mut data, value.ip);
        put_u16(&mut data, value.port);
        assert(data@ =~= addr_wire(value));
        self.insert(key, data);
    }

    /// The address under `key`, read from the first six bytes of the value.
    pub fn get_addr(&self, key: &str) -> (r: Option<Result<HostAddr, InvalidPropertyValue>>)
        ensures
            r.is_some() <==> self.value_of(key@).is_some(),
            r.is_some() ==> (r.unwrap().is_ok() <==> self.value_of(key@).unwrap().len() >= 6),
            r.is_some() && r.unwrap().is_ok() ==> r.unwrap().unwrap() == (HostAddr {
                ip: from_be32(self.value_of(key@).unwrap().subrange(0, 4)),
                port: from_be16(self.value_of(key@).unwrap().subrange(4, 6)),
            }),
            r.is_some() && r.unwrap().is_err() ==> r.unwrap().unwrap_err().key@ == key@,
    {
        let value = match self.get(key) {
            Some(v) => v,
            None => {
                return None;
            },
        };
        if value.len() < 6 {
            return Some(Err(InvalidPropertyValue::new(key, "SocketAddr")));
        }
        let mut reader = Reader::new(value);
        let ip = match reader.get_u32() {
            Some(v) => v,
            None => {
                return Some(Err(InvalidPropertyValue::new(key, "SocketAddr")));
            },
        };
        let port = match reader.get_u16() {
            Some(v) => v,
            None => {
                return Some(Err(InvalidPropertyValue::new(key, "SocketAddr")));
            },
        };
        proof {
            assert(value@.take(4) =~= value@.subrange(0, 4));
            assert(value@.skip(4).take(2) =~= value@.subrange(4, 6));
        }
        Some(Ok(HostAddr { ip, port }))
    }

    pub fn get(&self, key: &str) -> (r: Option<&Vec<u8>>)
        ensures
            r.is_some() <==> self.value_of(key@).is_some(),
            r.is_some() ==> Some(r.unwrap()@) == self.value_of(key@),
    {
        let i = self.find(key);
        if i < self.entries.len() {
            Some(&self.entries[i].value)
        } else {
            None
        }
    }

    pub fn get_i16(&self, key: &str) -> (r: Option<Result<i16, InvalidPropertyValue>>)
        ensures
            r.is_some() <==> self.value_of(key@).is_some(),
            r.is_some() ==> (r.unwrap().is_ok() <==> self.value_of(key@).unwrap().len() == 2),
            r.is_some() && r.unwrap().is_ok() ==> r.unwrap().unwrap() == signed16(
                from_be16(self.value_of(key@).unwrap()),
            ),
            r.is_some() && r.unwrap().is_err() ==> r.unwrap().unwrap_err().key@ == key@,
    {
        match self.get_u16(key) {
            None => None,
            Some(Ok(v)) => Some(Ok(i16_from_bits(v))),
            Some(Err(e)) => Some(Err(InvalidPropertyValue::new(key, "i16"))),
        }
    }

    pub fn get_u16(&self, key: &str) -> (r: Option<Result<u16, InvalidPropertyValue>>)
        ensures
            r.is_some() <==> self.value_of(key@).is_some(),
            r.is_some() ==> (r.unwrap().is_ok() <==> self.value_of(key@).unwrap().len() == 2),
            r.is_some() && r.unwrap().is_ok() ==> r.unwrap().unwrap() == from_be16(
                self.value_of(key@).unwrap(),
            ),
            r.is_some() && r.unwrap().is_err() ==> r.unwrap().unwrap_err().key@ == key@,
    {
        let value = match self.get(key) {
            Some(v) => v,
            None => {
                return None;
            },
        };
        if value.len() != 2 {
            return Some(Err(InvalidPropertyValue::new(key, "u16")));
        }
        let mut reader = Reader::new(value);
        match reader.get_u16() {
            Some(v) => {
                assert(value@.take(2) =~= value@);
                Some(Ok(v))
            },
            None => Some(Err(InvalidPropertyValue::new(key, "u16"))),
        }
    }

    pub fn get_i32(&self, key: &str) -> (r: Option<Result<i32, InvalidPropertyValue>>)
        ensures
            r.is_some() <==> self.value_of(key@).is_some(),
            r.is_some() ==> (r.unwrap().is_ok() <==> self.value_of(key@).unwrap().len() == 4),
            r.is_some() && r.unwrap().is_ok() ==> r.unwrap().unwrap() == signed32(
                from_be32(self.value_of(key@).unwrap()),
            ),
            r.is_some() && r.unwrap().is_err() ==> r.unwrap().unwrap_err().key@ == key@,
    {
        match self.get_u32(key) {
            None => None,
            Some(Ok(v)) => Some(Ok(i32_from_bits(v))),
            Some(Err(e)) => Some(Err(InvalidPropertyValue::new(key, "i32"))),
        }
    }

    pub fn get_u32(&self, key: &str) -> (r: Option<Result<u32, InvalidPropertyValue>>)
        ensures
            r.is_some() <==> self.value_of(key@).is_some(),
            r.is_some() ==> (r.unwrap().is_ok() <==> self.value_of(key@).unwrap().len() == 4),
            r.is_some() && r.unwrap().is_ok() ==> r.unwrap().unwrap() == from_be32(
                self.value_of(key@).unwrap(),
            ),
            r.is_some() && r.unwrap().is_err() ==> r.unwrap().unwrap_err().key@ == key@,
    {
        let value = match self.get(key) {
            Some(v) => v,
            None => {
                return None;
            },
        };
        if value.len() != 4 {
            return Some(Err(InvalidPropertyValue::new(key, "u32")));
        }
        let mut reader = Reader::new(value);
        match reader.get_u32() {
            Some(v) => {
                assert(value@.take(4) =~= value@);
                Some(Ok(v))
            },
            None => Some(Err(InvalidPropertyValue::new(key, "u32"))),
        }
    }

    /// Appends the bytes of the bag. A bag with a length that does not fit
    /// a 32-bit signed field is refused.
    pub fn serialize(&self, buf: &mut Vec<u8>) -> (r: Result<(), WireError>)
        ensures
            r.is_err() <==> !pairs_fit(self.pairs()),
            r.is_err() ==> r == Err::<(), WireError>(WireError::TooLong) && final(buf)@ == old(
                buf,
            )@,
            r.is_ok() ==> final(buf)@ == old(buf)@ + self.wire(),
    {
        let ghost pairs = self.pairs();
        if self.entries.len() > i32::MAX as usize {
            return Err(WireError::TooLong);
        }
        let mut i: usize = 0;
        while i < self.entries.len()
            invariant
                i <= self.entries@.len(),
                pairs == pairs_of(self.entries@),
                forall|j: int|
                    0 <= j < i ==> encode_utf8((#[trigger] pairs[j]).0).len() <= i32::MAX
                        && pairs[j].1.len() <= i32::MAX,
            decreases self.entries@.len() - i,
        {
            let klen = self.entries[i].key.as_str().as_bytes().len();
            if klen > i32::MAX as usize || self.entries[i].value.len() > i32::MAX as usize {
                assert(!(encode_utf8(pairs[i as int].0).len() <= i32::MAX && pairs[i as int].1.len()
                    <= i32::MAX));
                return Err(WireError::TooLong);
            }
            i += 1;
        }
        put_i32(buf, self.entries.len() as i32);
        let ghost base = buf@;
        let mut i: usize = 0;
        proof {
            assert(pairs.take(0) =~= Seq::<Pair>::empty());
            assert(base + pairs_wire(pairs.take(0)) =~= base);
        }
        while i < self.entries.len()
            invariant
                i <= self.entries@.len(),
                pairs == pairs_of(self.entries@),
                pairs_fit(pairs),
                buf@ == base + pairs_wire(pairs.take(i as int)),
            decreases self.entries@.len() - i,
        {
            let key = self.entries[i].key.as_str().as_bytes();
            let value = &self.entries[i].value;
            let ghost b0 = buf@;
            assert(encode_utf8(pairs[i as int].0).len() <= i32::MAX);
            put_i32(buf, key.len() as i32);
            put_slice(buf, key);
            put_i32(buf, value.len() as i32);
            put_slice(buf, value.as_slice());
            proof {
                let t = pairs.take(i + 1);
                assert(t.drop_last() =~= pairs.take(i as int));
                assert(t.last() == pairs[i as int]);
                assert(buf@ =~= b0 + pair_wire(pairs[i as int]));
                assert(buf@ =~= base + pairs_wire(t));
            }
            i += 1;
        }
        proof {
            assert(pairs.take(i as int) =~= pairs);
            assert(buf@ =~= old(buf)@ + self.wire());
        }
        Ok(())
    }

    /// Reads a bag from the reader.
    pub fn read(reader: &mut Reader) -> (r: Result<Self, WireError>)
        requires
            old(reader).wf(),
        ensures
            final(reader).wf(),
            match spec_read_props(old(reader).rest()) {
                Err(e) => r == Err::<Self, WireError>(e),
                Ok((pairs, rest)) => r.is_ok() && r.unwrap().pairs() == pairs && final(reader).rest() == rest,
            },
    {
        let ghost s = reader.rest();
        let count = match reader.get_i32() {
            Some(v) => v,
            None => {
                return Err(WireError::Truncated);
            },
        };
        let total: u32 = if count < 0 {
            0
        } else {
            count as u32
        };
        let mut bag = Properties::new();
        let mut i: u32 = 0;
        while i < total
            invariant
                i <= total,
                reader.wf(),
                s == old(reader).rest(),
                spec_read_props(s) == spec_read_pairs(
                    reader.rest(),
                    (total - i) as nat,
                    bag.pairs(),
                ),
            decreases total - i,
        {
            let key = match read_chunk(reader) {
                Ok(v) => v,
                Err(e) => {
                    return Err(e);
                },
            };
            let value = match read_chunk(reader) {
                Ok(v) => v,
                Err(e) => {
                    return Err(e);
                },
            };
            let text = match string_from_utf8(key) {
                Some(t) => t,
                None => {
                    return Err(WireError::InvalidKey);
                },
            };
            bag.insert(text.as_str(), value);
            i += 1;
        }
        Ok(bag)
    }

    /// Reads a bag from the start of `buf`.
    pub fn deserialize(buf: &Vec<u8>) -> (r: Result<Self, WireError>)
        ensures
            match spec_read_props(buf@) {
                Err(e) => r == Err::<Self, WireError>(e),
                Ok((pairs, rest)) => r.is_ok() && r.unwrap().pairs() == pairs,
            },
    {
        let mut reader = Reader::new(buf);
        Properties::read(&mut reader)
    }

    /// The index of the entry with `key`, or the number of entries.
    fn find(&self, key: &str) -> (r: usize)
        ensures
            r == pair_index(self.pairs(), key@),
            r <= self.entries@.len(),
    {
        let ghost pairs = self.pairs();
        let wanted = key.to_owned();
        let mut i: usize = 0;
        assert(pairs.skip(0) =~= pairs);
        while i < self.entries.len()
            invariant
                i <= self.entries@.len(),
                pairs == pairs_of(self.entries@),
                wanted@ == key@,
                pair_index(pairs, key@) == i + pair_index(pairs.skip(i as int), key@),
            decreases self.entries@.len() - i,
        {
            assert(pairs.skip(i as int)[0] == pairs[i as int]);
            assert(pairs.skip(i as int).skip(1) =~= pairs.skip(i + 1));
            if self.entries[i].key == wanted {
                return i;
            }
            i += 1;
        }
        i
    }
}

/// Builds a property bag step by step.
#[derive(Debug)]
pub struct PropertiesBuilder(pub Properties);

impl PropertiesBuilder {
    /// The bag built so far.
    pub open spec fn bag(&self) -> Properties {
        self.0
    }

    pub fn with_i16(self, key: &str, value: i16) -> (r: Self)
        ensures
            r.bag().pairs() == spec_put(self.bag().pairs(), key@, be16(bits16(value))),
    {
        let mut inner = self.0;
        inner.insert_i16(key, value);
        PropertiesBuilder(inner)
    }

    pub fn build(self) -> (r: Properties)
        ensures
            r == self.bag(),
    {
        self.0
    }
}

} // verus!
