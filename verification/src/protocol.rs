use vstd::prelude::*;

verus! {

/// The number of a protocol of the node.
#[derive(Clone, Copy, Debug, Hash, PartialEq, Eq, Structural)]
pub struct ProtocolID(pub i16);

/// The number of a message kind; a protocol's messages are numbered from
/// the protocol's own number on.
#[derive(Clone, Copy, Debug, Hash, PartialEq, Eq, Structural)]
pub struct ProtocolMessageID(pub i16);

impl ProtocolID {
    pub fn new(id: i16) -> (r: Self)
        ensures
            r.0 == id,
    {
        Self(id)
    }

    /// The number of the protocol's message at `offset`.
    pub fn message(&self, offset: i16) -> (r: ProtocolMessageID)
        requires
            i16::MIN <= self.0 + offset <= i16::MAX,
        ensures
            r.0 == self.0 + offset,
    {
        ProtocolMessageID(self.0 + offset)
    }

    /// The number of the protocol's message at `offset`, if there is such a number.
    pub fn checked_message(&self, offset: i16) -> (r: Option<ProtocolMessageID>)
        ensures
            r.is_some() <==> i16::MIN <= self.0 + offset <= i16::MAX,
            r.is_some() ==> r.unwrap().0 == self.0 + offset,
    {
        match self.0.checked_add(offset) {
            Some(v) => Some(ProtocolMessageID(v)),
            None => None,
        }
    }

    pub fn value(&self) -> (r: i16)
        ensures
            r == self.0,
    {
        self.0
    }
}

impl ProtocolMessageID {
    pub fn new(id: i16) -> (r: Self)
        ensures
            r.0 == id,
    {
        Self(id)
    }

    pub fn value(&self) -> (r: i16)
        ensures
            r == self.0,
    {
        self.0
    }
}

/// The number of the Kademlia protocol.
pub const KADEMLIA_PROTOCOL: i16 = 100;

/// The kinds of message of the Kademlia protocol.
#[derive(Clone, Copy, Debug, Hash, PartialEq, Eq, Structural)]
pub enum KadMessageKind {
    FindNodeRequest,
    FindNodeResponse,
    FindValueRequest,
    FindValueResponse,
    Handshake,
    StoreRequest,
}

/// The offset of each kind of message from the protocol's number.
pub open spec fn spec_kind_offset(kind: KadMessageKind) -> i16 {
    match kind {
        KadMessageKind::FindNodeRequest => 1,
        KadMessageKind::FindNodeResponse => 2,
        KadMessageKind::FindValueRequest => 3,
        KadMessageKind::FindValueResponse => 4,
        KadMessageKind::Handshake => 5,
        KadMessageKind::StoreRequest => 6,
    }
}

impl KadMessageKind {
    /// The message number of this kind: the protocol's number plus the kind's offset.
    pub fn id(&self) -> (r: ProtocolMessageID)
        ensures
            r.0 == KADEMLIA_PROTOCOL + spec_kind_offset(*self),
    {
        let offset: i16 = match self {
            KadMessageKind::FindNodeRequest => 1,
            KadMessageKind::FindNodeResponse => 2,
            KadMessageKind::FindValueRequest => 3,
            KadMessageKind::FindValueResponse => 4,
            KadMessageKind::Handshake => 5,
            KadMessageKind::StoreRequest => 6,
        };
        ProtocolID::new(KADEMLIA_PROTOCOL).message(offset)
    }

    /// The kind with the message number `id`, if there is one.
    pub fn from_id(id: ProtocolMessageID) -> (r: Option<Self>)
        ensures
            r.is_some() <==> 101 <= id.0 <= 106,
            r.is_some() ==> KADEMLIA_PROTOCOL + spec_kind_offset(r.unwrap()) == id.0,
    {
        if id.0 == 101 {
            Some(KadMessageKind::FindNodeRequest)
        } else if id.0 == 102 {
            Some(KadMessageKind::FindNodeResponse)
        } else if id.0 == 103 {
            Some(KadMessageKind::FindValueRequest)
        } else if id.0 == 104 {
            Some(KadMessageKind::FindValueResponse)
        } else if id.0 == 105 {
            Some(KadMessageKind::Handshake)
        } else if id.0 == 106 {
            Some(KadMessageKind::StoreRequest)
        } else {
            None
        }
    }
}

/// Which side opened a connection.
#[derive(Clone, Copy, Debug, Hash, PartialEq, Eq, Structural)]
pub enum ConnectionDirection {
    Incoming,
    Outgoing,
}

/// What happened to a connection.
#[derive(Clone, Copy, Debug, Hash, PartialEq, Eq, Structural)]
pub enum ConnectionEventKind {
    ConnectionUp,
    ConnectionDown,
    ConnectionFailed,
}

} // verus!
