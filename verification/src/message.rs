use vstd::prelude::*;
use crate::codec::Reader;
use crate::codec::WireError;
use crate::codec::be16;
use crate::codec::be32;
use crate::codec::be64;
use crate::codec::from_be16;
use crate::codec::from_be32;
use crate::codec::from_be64;
use crate::codec::put_id;
use crate::codec::put_slice;
use crate::codec::put_u16;
use crate::codec::put_u32;
use crate::codec::put_u64;
use crate::codec::put_u8;
use crate::codec::lemma_be16_round_trip;
use crate::codec::lemma_be32_round_trip;
use crate::codec::lemma_be64_round_trip;
use crate::kad_id::KadID;
use crate::peer::HostAddr;
use crate::peer::Peer;

verus! {

/// The number of bytes that a peer takes on the wire: 20 of identifier,
/// 4 of IPv4 address, 2 of port.
pub const PEER_WIRE_LENGTH: usize = 26;

/// The bytes of a peer: its identifier, its IPv4 address, its port.
pub open spec fn peer_wire(p: Peer) -> Seq<u8> {
    p.id@ + be32(p.addr.ip) + be16(p.addr.port)
}

/// The bytes of a list of peers, one after the other.
pub open spec fn peers_wire(s: Seq<Peer>) -> Seq<u8>
    decreases s.len(),
{
    if s.len() == 0 {
        Seq::empty()
    } else {
        peers_wire(s.drop_last()) + peer_wire(s.last())
    }
}

/// True when `p` is the peer that the 26 bytes of `s` from `off` on denote.
pub open spec fn peer_at(s: Seq<u8>, off: int, p: Peer) -> bool {
    &&& p.id@ == s.subrange(off, off + 20)
    &&& p.addr.ip == from_be32(s.subrange(off + 20, off + 24))
    &&& p.addr.port == from_be16(s.subrange(off + 24, off + 26))
}

/// True when `peers` are the `peers.len()` peers that `s` holds from `off` on.
pub open spec fn peers_at(s: Seq<u8>, off: int, peers: Seq<Peer>) -> bool {
    forall|i: int| 0 <= i < peers.len() ==> peer_at(s, off + 26 * i, #[trigger] peers[i])
}

/// Both lists name the same peers in the same order.
pub open spec fn peers_same(a: Seq<Peer>, b: Seq<Peer>) -> bool {
    a.len() == b.len() && forall|i: int|
        0 <= i < a.len() ==> (#[trigger] a[i]).id@ == b[i].id@ && a[i].addr == b[i].addr
}

/// The bytes of a list of peers hold the bytes of each peer at its place.
pub proof fn lemma_peers_wire(s: Seq<Peer>)
    ensures
        peers_wire(s).len() == 26 * s.len(),
        forall|i: int|
            0 <= i < s.len() ==> #[trigger] peers_wire(s).subrange(26 * i, 26 * i + 26)
                == peer_wire(s[i]),
    decreases s.len(),
{
    if s.len() > 0 {
        let p = s.drop_last();
        lemma_peers_wire(p);
        let w = peers_wire(s);
        assert(peer_wire(s.last()).len() == 26);
        assert forall|i: int| 0 <= i < s.len() implies #[trigger] w.subrange(26 * i, 26 * i + 26)
            == peer_wire(s[i]) by {
            if i < s.len() - 1 {
                assert(w.subrange(26 * i, 26 * i + 26) =~= peers_wire(p).subrange(
                    26 * i,
                    26 * i + 26,
                ));
                assert(p[i] == s[i]);
            } else {
                assert(w.subrange(26 * i, 26 * i + 26) =~= peer_wire(s.last()));
            }
        }
    }
}

/// The peers read from the bytes of a list of peers are the peers of the list.
pub proof fn lemma_peers_read_back(buf: Seq<u8>, off: int, written: Seq<Peer>, read: Seq<Peer>)
    requires
        0 <= off,
        off + 26 * written.len() <= buf.len(),
        buf.subrange(off, off + 26 * written.len()) == peers_wire(written),
        read.len() == written.len(),
        peers_at(buf, off, read),
    ensures
        peers_same(read, written),
{
    lemma_peers_wire(written);
    let w = peers_wire(written);
    assert forall|i: int| 0 <= i < read.len() implies (#[trigger] read[i]).id@ == written[i].id@
        && read[i].addr == written[i].addr by {
        let o = off + 26 * i;
        let one = peer_wire(written[i]);
        assert(w.subrange(26 * i, 26 * i + 26) == one);
        assert(buf.subrange(o, o + 26) =~= w.subrange(26 * i, 26 * i + 26));
        assert(peer_at(buf, o, read[i]));
        assert(buf.subrange(o, o + 20) =~= one.subrange(0, 20));
        assert(one.subrange(0, 20) =~= written[i].id@);
        assert(buf.subrange(o + 20, o + 24) =~= one.subrange(20, 24));
        assert(one.subrange(20, 24) =~= be32(written[i].addr.ip));
        assert(buf.subrange(o + 24, o + 26) =~= one.subrange(24, 26));
        assert(one.subrange(24, 26) =~= be16(written[i].addr.port));
        lemma_be32_round_trip(written[i].addr.ip);
        lemma_be16_round_trip(written[i].addr.port);
    }
}

pub fn put_peer(buf: &mut Vec<u8>, peer: &Peer)
    ensures
        final(buf)@ == old(buf)@ + peer_wire(*peer),
{
    put_id(buf, &peer.id);
    put_u32(buf, peer.addr.ip);
    put_u16(buf, peer.addr.port);
    assert(buf@ =~= old(buf)@ + peer_wire(*peer));
}

/// Appends the count of `peers` and then each peer.
pub fn put_peers(buf: &mut Vec<u8>, peers: &Vec<Peer>)
    requires
        peers@.len() <= u32::MAX,
    ensures
        final(buf)@ == old(buf)@ + be32(peers@.len() as u32) + peers_wire(peers@),
{
    put_u32(buf, peers.len() as u32);
    let ghost base = buf@;
    let mut i: usize = 0;
    assert(peers@.take(0) =~= Seq::<Peer>::empty());
    assert(base + peers_wire(peers@.take(0)) =~= base);
    while i < peers.len()
        invariant
            i <= peers@.len(),
            buf@ == base + peers_wire(peers@.take(i as int)),
        decreases peers@.len() - i,
    {
        put_peer(buf, &peers[i]);
        proof {
            let t = peers@.take(i + 1);
            assert(t.drop_last() =~= peers@.take(i as int));
            assert(t.last() == peers@[i as int]);
            assert(buf@ =~= base + peers_wire(t));
        }
        i += 1;
    }
    assert(peers@.take(i as int) =~= peers@);
}

/// Reads one peer.
pub fn get_peer(reader: &mut Reader) -> (r: Option<Peer>)
    requires
        old(reader).wf(),
    ensures
        final(reader).wf(),
        r.is_some() <==> old(reader).rest().len() >= 26,
        r.is_some() ==> peer_at(old(reader).rest(), 0, r.unwrap()) && final(reader).rest() == old(
            reader,
        ).rest().skip(26),
{
    if reader.remaining() < 26 {
        return None;
    }
    let ghost s = reader.rest();
    let id = match reader.get_id() {
        Some(v) => v,
        None => {
            return None;
        },
    };
    let ip = match reader.get_u32() {
        Some(v) => v,
        None => {
            return None;
        },
    };
    let port = match reader.get_u16() {
        Some(v) => v,
        None => {
            return None;
        },
    };
    proof {
        assert(s.take(20) =~= s.subrange(0, 20));
        assert(s.skip(20).take(4) =~= s.subrange(20, 24));
        assert(s.skip(20).skip(4).take(2) =~= s.subrange(24, 26));
        assert(reader.rest() =~= s.skip(26));
    }
    Some(Peer { id, addr: HostAddr { ip, port } })
}

/// Reads a count and then that many peers.
pub fn get_peers(reader: &mut Reader) -> (r: Option<Vec<Peer>>)
    requires
        old(reader).wf(),
    ensures
        final(reader).wf(),
        r.is_some() <==> old(reader).rest().len() >= 4 && old(reader).rest().len() - 4 >= 26
            * from_be32(old(reader).rest().take(4)),
        r.is_some() ==> r.unwrap()@.len() == from_be32(old(reader).rest().take(4)) && peers_at(
            old(reader).rest(),
            4,
            r.unwrap()@,
        ) && final(reader).rest() == old(reader).rest().skip(4 + 26 * (r.unwrap()@.len() as int)),
{
    let ghost s = reader.rest();
    let count = match reader.get_u32() {
        Some(v) => v,
        None => {
            return None;
        },
    };
    let need: u64 = 26 * (count as u64);
    if (reader.remaining() as u64) < need {
        return None;
    }
    let mut peers: Vec<Peer> = Vec::new();
    let mut i: u32 = 0;
    assert(reader.rest() =~= s.skip(4));
    while i < count
        invariant
            i <= count,
            reader.wf(),
            s.len() >= 4 + 26 * count,
            peers@.len() == i,
            peers_at(s, 4, peers@),
            reader.rest() == s.skip(4 + 26 * (i as int)),
        decreases count - i,
    {
        let ghost rest = reader.rest();
        let ghost off = 4 + 26 * i;
        let peer = match get_peer(reader) {
            Some(p) => p,
            None => {
                return None;
            },
        };
        proof {
            assert(rest.subrange(0, 20) =~= s.subrange(off, off + 20));
            assert(rest.subrange(20, 24) =~= s.subrange(off + 20, off + 24));
            assert(rest.subrange(24, 26) =~= s.subrange(off + 24, off + 26));
            assert(rest.skip(26) =~= s.skip(4 + 26 * ((i + 1) as int)));
        }
        peers.push(peer);
        i += 1;
    }
    Some(peers)
}

/// Asks a peer for the peers it knows nearest to `target`.
#[derive(Clone, Copy, Debug)]
pub struct FindNodeRequest {
    pub context: u64,
    pub target: KadID,
}

impl FindNodeRequest {
    pub fn new(context: u64, target: KadID) -> (r: Self)
        ensures
            r.context == context,
            r.target == target,
    {
        Self { context, target }
    }

    /// The bytes of the message.
    pub open spec fn wire(&self) -> Seq<u8> {
        be64(self.context) + self.target@
    }

    /// True when `buf` is long enough to hold such a message.
    pub open spec fn fits(buf: Seq<u8>) -> bool {
        buf.len() >= 28
    }

    /// True when the message is the one that the start of `buf` holds.
    pub open spec fn read_from(&self, buf: Seq<u8>) -> bool {
        self.context == from_be64(buf.take(8)) && self.target@ == buf.subrange(8, 28)
    }

    pub fn serialize(&self, buf: &mut Vec<u8>)
        ensures
            final(buf)@ == old(buf)@ + self.wire(),
    {
        put_u64(buf, self.context);
        put_id(buf, &self.target);
        assert(buf@ =~= old(buf)@ + self.wire());
    }

    pub fn deserialize(buf: &Vec<u8>) -> (r: Result<Self, WireError>)
        ensures
            r.is_ok() <==> Self::fits(buf@),
            r.is_err() ==> r == Err::<Self, WireError>(WireError::Truncated),
            r.is_ok() ==> r.unwrap().read_from(buf@),
    {
        let mut reader = Reader::new(buf);
        if reader.remaining() < 28 {
            return Err(WireError::Truncated);
        }
        let context = match reader.get_u64() {
            Some(v) => v,
            None => {
                return Err(WireError::Truncated);
            },
        };
        let target = match reader.get_id() {
            Some(v) => v,
            None => {
                return Err(WireError::Truncated);
            },
        };
        assert(buf@.skip(8).take(20) =~= buf@.subrange(8, 28));
        Ok(Self { context, target })
    }

    /// A message read from the bytes of a message has the fields of that message.
    pub proof fn lemma_round_trip(&self, read: &Self)
        requires
            read.read_from(self.wire()),
        ensures
            Self::fits(self.wire()),
            read.context == self.context,
            read.target@ == self.target@,
    {
        lemma_be64_round_trip(self.context);
        assert(self.wire().take(8) =~= be64(self.context));
        assert(self.wire().subrange(8, 28) =~= self.target@);
    }
}

/// The answer to a `FindNodeRequest`.
#[derive(Debug)]
pub struct FindNodeResponse {
    pub context: u64,
    pub peers: Vec<Peer>,
}

impl FindNodeResponse {
    pub fn new(context: u64, peers: Vec<Peer>) -> (r: Self)
        ensures
            r.context == context,
            r.peers == peers,
    {
        Self { context, peers }
    }

    /// The bytes of the message.
    pub open spec fn wire(&self) -> Seq<u8> {
        be64(self.context) + be32(self.peers@.len() as u32) + peers_wire(self.peers@)
    }

    /// True when `buf` is long enough to hold the message that its count announces.
    pub open spec fn fits(buf: Seq<u8>) -> bool {
        buf.len() >= 12 && buf.len() - 12 >= 26 * from_be32(buf.subrange(8, 12))
    }

    /// True when the message is the one that the start of `buf` holds.
    pub open spec fn read_from(&self, buf: Seq<u8>) -> bool {
        self.context == from_be64(buf.take(8)) && self.peers@.len() == from_be32(
            buf.subrange(8, 12),
        ) && peers_at(buf, 12, self.peers@)
    }

    /// Appends the bytes of the message. A message with more peers than
    /// the count field can hold is refused.
    pub fn serialize(&self, buf: &mut Vec<u8>) -> (r: Result<(), WireError>)
        ensures
            r.is_err() <==> self.peers@.len() > u32::MAX,
            r.is_err() ==> r == Err::<(), WireError>(WireError::TooLong) && final(buf)@ == old(
                buf,
            )@,
            r.is_ok() ==> final(buf)@ == old(buf)@ + self.wire(),
    {
        if self.peers.len() > u32::MAX as usize {
            return Err(WireError::TooLong);
        }
        put_u64(buf, self.context);
        put_peers(buf, &self.peers);
        assert(buf@ =~= old(buf)@ + self.wire());
        Ok(())
    }

    /// A message read from the bytes of a message has the fields of that message.
    pub proof fn lemma_round_trip(&self, read: &Self)
        requires
            self.peers@.len() <= u32::MAX,
            read.read_from(self.wire()),
        ensures
            Self::fits(self.wire()),
            read.context == self.context,
            peers_same(read.peers@, self.peers@),
    {
        let w = self.wire();
        let n = self.peers@.len() as int;
        lemma_be64_round_trip(self.context);
        lemma_be32_round_trip(n as u32);
        lemma_peers_wire(self.peers@);
        assert(w.take(8) =~= be64(self.context));
        assert(w.subrange(8, 12) =~= be32(n as u32));
        assert(w.subrange(12, 12 + 26 * n) =~= peers_wire(self.peers@));
        lemma_peers_read_back(w, 12, self.peers@, read.peers@);
    }

    pub fn deserialize(buf: &Vec<u8>) -> (r: Result<Self, WireError>)
        ensures
            r.is_ok() <==> Self::fits(buf@),
            r.is_err() ==> r == Err::<Self, WireError>(WireError::Truncated),
            r.is_ok() ==> r.unwrap().read_from(buf@),
    {
        let mut reader = Reader::new(buf);
        let context = match reader.get_u64() {
            Some(v) => v,
            None => {
                return Err(WireError::Truncated);
            },
        };
        let ghost rest = reader.rest();
        proof {
            if rest.len() >= 4 {
                assert(rest.take(4) =~= buf@.subrange(8, 12));
            }
        }
        let peers = match get_peers(&mut reader) {
            Some(v) => v,
            None => {
                return Err(WireError::Truncated);
            },
        };
        proof {
            assert forall|i: int| 0 <= i < peers@.len() implies peer_at(
                buf@,
                12 + 26 * i,
                #[trigger] peers@[i],
            ) by {
                let o = 4 + 26 * i;
                assert(peer_at(rest, o, peers@[i]));
                assert(rest.subrange(o, o + 20) =~= buf@.subrange(8 + o, 8 + o + 20));
                assert(rest.subrange(o + 20, o + 24) =~= buf@.subrange(8 + o + 20, 8 + o + 24));
                assert(rest.subrange(o + 24, o + 26) =~= buf@.subrange(8 + o + 24, 8 + o + 26));
            }
        }
        Ok(Self { context, peers })
    }
}

/// Asks a peer for the value stored under `key`.
#[derive(Clone, Copy, Debug)]
pub struct FindValueRequest {
    pub context: u64,
    pub key: KadID,
}

impl FindValueRequest {
    pub fn new(context: u64, key: KadID) -> (r: Self)
        ensures
            r.context == context,
            r.key == key,
    {
        Self { context, key }
    }

    /// The bytes of the message.
    pub open spec fn wire(&self) -> Seq<u8> {
        be64(self.context) + self.key@
    }

    /// True when `buf` is long enough to hold such a message.
    pub open spec fn fits(buf: Seq<u8>) -> bool {
        buf.len() >= 28
    }

    /// True when the message is the one that the start of `buf` holds.
    pub open spec fn read_from(&self, buf: Seq<u8>) -> bool {
        self.context == from_be64(buf.take(8)) && self.key@ == buf.subrange(8, 28)
    }

    pub fn serialize(&self, buf: &mut Vec<u8>)
        ensures
            final(buf)@ == old(buf)@ + self.wire(),
    {
        put_u64(buf, self.context);
        put_id(buf, &self.key);
        assert(buf@ =~= old(buf)@ + self.wire());
    }

    pub fn deserialize(buf: &Vec<u8>) -> (r: Result<Self, WireError>)
        ensures
            r.is_ok() <==> Self::fits(buf@),
            r.is_err() ==> r == Err::<Self, WireError>(WireError::Truncated),
            r.is_ok() ==> r.unwrap().read_from(buf@),
    {
        let mut reader = Reader::new(buf);
        if reader.remaining() < 28 {
            return Err(WireError::Truncated);
        }
        let context = match reader.get_u64() {
            Some(v) => v,
            None => {
                return Err(WireError::Truncated);
            },
        };
        let key = match reader.get_id() {
            Some(v) => v,
            None => {
                return Err(WireError::Truncated);
            },
        };
        assert(buf@.skip(8).take(20) =~= buf@.subrange(8, 28));
        Ok(Self { context, key })
    }

    /// A message read from the bytes of a message has the fields of that message.
    pub proof fn lemma_round_trip(&self, read: &Self)
        requires
            read.read_from(self.wire()),
        ensures
            Self::fits(self.wire()),
            read.context == self.context,
            read.key@ == self.key@,
    {
        lemma_be64_round_trip(self.context);
        assert(self.wire().take(8) =~= be64(self.context));
        assert(self.wire().subrange(8, 28) =~= self.key@);
    }
}

/// The answer to a `FindValueRequest`: the value, if the peer has it, and
/// the peers it knows nearest to the key.
#[derive(Debug)]
pub struct FindValueResponse {
    pub context: u64,
    pub value: Option<Vec<u8>>,
    pub peers: Vec<Peer>,
}

/// The bytes of an optional value: a flag, then length and bytes if present.
pub open spec fn value_wire(value: Option<Vec<u8>>) -> Seq<u8> {
    match value {
        Some(v) => seq![1u8] + be32(v@.len() as u32) + v@,
        None => seq![0u8],
    }
}

impl FindValueResponse {
    pub fn new(context: u64, value: Option<Vec<u8>>, peers: Vec<Peer>) -> (r: Self)
        ensures
            r.context == context,
            r.value == value,
            r.peers == peers,
    {
        Self { context, value, peers }
    }

    /// The bytes of the message.
    pub open spec fn wire(&self) -> Seq<u8> {
        be64(self.context) + value_wire(self.value) + be32(self.peers@.len() as u32) + peers_wire(
            self.peers@,
        )
    }

    /// True when `buf` is long enough to hold the message that its flag
    /// and lengths announce.
    pub open spec fn fits(buf: Seq<u8>) -> bool {
        &&& buf.len() >= 9
        &&& buf[8] == 1 ==> buf.len() >= 13 && buf.len() >= 13 + from_be32(buf.subrange(9, 13))
        &&& buf.len() >= Self::spec_value_end(buf) + 4
        &&& buf.len() - Self::spec_value_end(buf) - 4 >= 26 * from_be32(
            buf.subrange(Self::spec_value_end(buf), Self::spec_value_end(buf) + 4),
        )
    }

    /// True when the message is the one that the start of `buf` holds.
    pub open spec fn read_from(&self, buf: Seq<u8>) -> bool {
        &&& self.context == from_be64(buf.take(8))
        &&& self.value.is_some() <==> buf[8] == 1
        &&& buf[8] == 1 ==> self.value.unwrap()@ == buf.subrange(
            13,
            13 + from_be32(buf.subrange(9, 13)),
        )
        &&& self.peers@.len() == from_be32(
            buf.subrange(Self::spec_value_end(buf), Self::spec_value_end(buf) + 4),
        )
        &&& peers_at(buf, Self::spec_value_end(buf) + 4, self.peers@)
    }

    /// The number of bytes before the peer count in a message read from `s`.
    pub open spec fn spec_value_end(s: Seq<u8>) -> int {
        if s[8] == 1 {
            13 + from_be32(s.subrange(9, 13))
        } else {
            9
        }
    }

    /// Appends the bytes of the message. A message whose value or peer
    /// list is longer than its length field can hold is refused.
    pub fn serialize(&self, buf: &mut Vec<u8>) -> (r: Result<(), WireError>)
        ensures
            r.is_err() <==> self.peers@.len() > u32::MAX || (self.value.is_some()
                && self.value.unwrap()@.len() > u32::MAX),
            r.is_err() ==> r == Err::<(), WireError>(WireError::TooLong) && final(buf)@ == old(
                buf,
            )@,
            r.is_ok() ==> final(buf)@ == old(buf)@ + self.wire(),
    {
        if self.peers.len() > u32::MAX as usize {
            return Err(WireError::TooLong);
        }
        match &self.value {
            Some(v) => {
                if v.len() > u32::MAX as usize {
                    return Err(WireError::TooLong);
                }
                put_u64(buf, self.context);
                put_u8(buf, 1);
                put_u32(buf, v.len() as u32);
                put_slice(buf, v.as_slice());
            },
            None => {
                put_u64(buf, self.context);
                put_u8(buf, 0);
            },
        }
        assert(buf@ =~= old(buf)@ + be64(self.context) + value_wire(self.value));
        put_peers(buf, &self.peers);
        assert(buf@ =~= old(buf)@ + self.wire());
        Ok(())
    }

    /// A message read from the bytes of a message has the fields of that message.
    pub proof fn lemma_round_trip(&self, read: &Self)
        requires
            self.peers@.len() <= u32::MAX,
            self.value.is_some() ==> self.value.unwrap()@.len() <= u32::MAX,
            read.read_from(self.wire()),
        ensures
            Self::fits(self.wire()),
            read.context == self.context,
            read.value.is_some() == self.value.is_some(),
            self.value.is_some() ==> read.value.unwrap()@ == self.value.unwrap()@,
            peers_same(read.peers@, self.peers@),
    {
        let w = self.wire();
        let n = self.peers@.len() as int;
        lemma_be64_round_trip(self.context);
        lemma_be32_round_trip(n as u32);
        lemma_peers_wire(self.peers@);
        assert(w.take(8) =~= be64(self.context));
        if self.value.is_some() {
            let v = self.value.unwrap()@;
            lemma_be32_round_trip(v.len() as u32);
            assert(w[8] == 1);
            assert(w.subrange(9, 13) =~= be32(v.len() as u32));
            let end = 13 + v.len() as int;
            assert(w.subrange(13, end) =~= v);
            assert(Self::spec_value_end(w) == end);
            assert(w.subrange(end, end + 4) =~= be32(n as u32));
            assert(w.subrange(end + 4, end + 4 + 26 * n) =~= peers_wire(self.peers@));
            lemma_peers_read_back(w, end + 4, self.peers@, read.peers@);
        } else {
            assert(w[8] == 0);
            assert(Self::spec_value_end(w) == 9);
            assert(w.subrange(9, 13) =~= be32(n as u32));
            assert(w.subrange(13, 13 + 26 * n) =~= peers_wire(self.peers@));
            lemma_peers_read_back(w, 13, self.peers@, read.peers@);
        }
    }

    pub fn deserialize(buf: &Vec<u8>) -> (r: Result<Self, WireError>)
        ensures
            r.is_err() ==> r == Err::<Self, WireError>(WireError::Truncated),
            r.is_ok() <==> Self::fits(buf@),
            r.is_ok() ==> r.unwrap().read_from(buf@),
    {
        let mut reader = Reader::new(buf);
        let context = match reader.get_u64() {
            Some(v) => v,
            None => {
                return Err(WireError::Truncated);
            },
        };
        let flag = match reader.get_u8() {
            Some(v) => v,
            None => {
                return Err(WireError::Truncated);
            },
        };
        assert(buf@.skip(8)[0] == buf@[8]);
        let value = if flag == 1 {
            let len = match reader.get_u32() {
                Some(v) => v,
                None => {
                    return Err(WireError::Truncated);
                },
            };
            assert(buf@.skip(8).skip(1).take(4) =~= buf@.subrange(9, 13));
            let bytes = match reader.get_bytes(len as usize) {
                Some(v) => v,
                None => {
                    return Err(WireError::Truncated);
                },
            };
            assert(buf@.skip(8).skip(1).skip(4).take(len as int) =~= buf@.subrange(13, 13 + len));
            assert(reader.rest() =~= buf@.skip(13 + len));
            Some(bytes)
        } else {
            assert(reader.rest() =~= buf@.skip(9));
            None
        };
        let ghost end = Self::spec_value_end(buf@);
        let ghost rest = reader.rest();
        proof {
            assert(rest == buf@.skip(end));
            if rest.len() >= 4 {
                assert(rest.take(4) =~= buf@.subrange(end, end + 4));
            }
        }
        let peers = match get_peers(&mut reader) {
            Some(v) => v,
            None => {
                return Err(WireError::Truncated);
            },
        };
        proof {
            assert forall|i: int| 0 <= i < peers@.len() implies peer_at(
                buf@,
                end + 4 + 26 * i,
                #[trigger] peers@[i],
            ) by {
                let o = 4 + 26 * i;
                assert(peer_at(rest, o, peers@[i]));
                assert(rest.subrange(o, o + 20) =~= buf@.subrange(end + o, end + o + 20));
                assert(rest.subrange(o + 20, o + 24) =~= buf@.subrange(end + o + 20, end + o + 24));
                assert(rest.subrange(o + 24, o + 26) =~= buf@.subrange(end + o + 24, end + o + 26));
            }
        }
        Ok(Self { context, value, peers })
    }
}

/// Tells a peer who is calling.
#[derive(Clone, Copy, Debug)]
pub struct Handshake {
    pub id: KadID,
}

impl Handshake {
    pub fn new(id: KadID) -> (r: Self)
        ensures
            r.id == id,
    {
        Self { id }
    }

    /// The bytes of the message.
    pub open spec fn wire(&self) -> Seq<u8> {
        self.id@
    }

    /// True when `buf` is long enough to hold such a message.
    pub open spec fn fits(buf: Seq<u8>) -> bool {
        buf.len() >= 20
    }

    /// True when the message is the one that the start of `buf` holds.
    pub open spec fn read_from(&self, buf: Seq<u8>) -> bool {
        self.id@ == buf.take(20)
    }

    pub fn serialize(&self, buf: &mut Vec<u8>)
        ensures
            final(buf)@ == old(buf)@ + self.wire(),
    {
        put_id(buf, &self.id);
    }

    /// A message read from the bytes of a message has the fields of that message.
    pub proof fn lemma_round_trip(&self, read: &Self)
        requires
            read.read_from(self.wire()),
        ensures
            Self::fits(self.wire()),
            read.id@ == self.id@,
    {
        assert(self.wire().take(20) =~= self.id@);
    }

    pub fn deserialize(buf: &Vec<u8>) -> (r: Result<Self, WireError>)
        ensures
            r.is_ok() <==> Self::fits(buf@),
            r.is_err() ==> r == Err::<Self, WireError>(WireError::Truncated),
            r.is_ok() ==> r.unwrap().read_from(buf@),
    {
        let mut reader = Reader::new(buf);
        match reader.get_id() {
            Some(id) => Ok(Self { id }),
            None => Err(WireError::Truncated),
        }
    }
}

/// Asks a peer to keep `value` under `key`.
#[derive(Debug)]
pub struct StoreRequest {
    pub key: KadID,
    pub value: Vec<u8>,
}

impl StoreRequest {
    pub fn new(key: KadID, value: Vec<u8>) -> (r: Self)
        ensures
            r.key == key,
            r.value == value,
    {
        Self { key, value }
    }

    /// The bytes of the message.
    pub open spec fn wire(&self) -> Seq<u8> {
        self.key@ + be32(self.value@.len() as u32) + self.value@
    }

    /// True when `buf` is long enough to hold the message that its length announces.
    pub open spec fn fits(buf: Seq<u8>) -> bool {
        buf.len() >= 24 && buf.len() - 24 >= from_be32(buf.subrange(20, 24))
    }

    /// True when the message is the one that the start of `buf` holds.
    pub open spec fn read_from(&self, buf: Seq<u8>) -> bool {
        self.key@ == buf.take(20) && self.value@ == buf.subrange(
            24,
            24 + from_be32(buf.subrange(20, 24)),
        )
    }

    /// Appends the bytes of the message. A message whose value is longer
    /// than its length field can hold is refused.
    pub fn serialize(&self, buf: &mut Vec<u8>) -> (r: Result<(), WireError>)
        ensures
            r.is_err() <==> self.value@.len() > u32::MAX,
            r.is_err() ==> r == Err::<(), WireError>(WireError::TooLong) && final(buf)@ == old(
                buf,
            )@,
            r.is_ok() ==> final(buf)@ == old(buf)@ + self.wire(),
    {
        if self.value.len() > u32::MAX as usize {
            return Err(WireError::TooLong);
        }
        put_id(buf, &self.key);
        put_u32(buf, self.value.len() as u32);
        put_slice(buf, self.value.as_slice());
        assert(buf@ =~= old(buf)@ + self.wire());
        Ok(())
    }

    /// A message read from the bytes of a message has the fields of that message.
    pub proof fn lemma_round_trip(&self, read: &Self)
        requires
            self.value@.len() <= u32::MAX,
            read.read_from(self.wire()),
        ensures
            Self::fits(self.wire()),
            read.key@ == self.key@,
            read.value@ == self.value@,
    {
        let w = self.wire();
        let n = self.value@.len() as int;
        lemma_be32_round_trip(n as u32);
        assert(w.take(20) =~= self.key@);
        assert(w.subrange(20, 24) =~= be32(n as u32));
        assert(w.subrange(24, 24 + n) =~= self.value@);
    }

    pub fn deserialize(buf: &Vec<u8>) -> (r: Result<Self, WireError>)
        ensures
            r.is_ok() <==> Self::fits(buf@),
            r.is_err() ==> r == Err::<Self, WireError>(WireError::Truncated),
            r.is_ok() ==> r.unwrap().read_from(buf@),
    {
        let mut reader = Reader::new(buf);
        let key = match reader.get_id() {
            Some(v) => v,
            None => {
                return Err(WireError::Truncated);
            },
        };
        let len = match reader.get_u32() {
            Some(v) => v,
            None => {
                return Err(WireError::Truncated);
            },
        };
        assert(buf@.skip(20).take(4) =~= buf@.subrange(20, 24));
        let value = match reader.get_bytes(len as usize) {
            Some(v) => v,
            None => {
                return Err(WireError::Truncated);
            },
        };
        assert(buf@.skip(20).skip(4).take(len as int) =~= buf@.subrange(24, 24 + len));
        Ok(Self { key, value })
    }
}

} // verus!
