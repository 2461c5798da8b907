use vstd::prelude::*;
use crate::protocol::ProtocolID;
use crate::protocol::ProtocolMessageID;

verus! {

/// The index of the first occurrence of `key` in `s`, or the length of `s`.
pub open spec fn slot_of(s: Seq<i16>, key: i16) -> int
    decreases s.len(),
{
    if s.len() == 0 {
        0
    } else if s[0] == key {
        0
    } else {
        1 + slot_of(s.skip(1), key)
    }
}

/// True when `key` occurs in `s`.
pub open spec fn registered(s: Seq<i16>, key: i16) -> bool {
    slot_of(s, key) < s.len()
}

pub proof fn lemma_slot_of(s: Seq<i16>, key: i16)
    ensures
        0 <= slot_of(s, key) <= s.len(),
        slot_of(s, key) < s.len() ==> s[slot_of(s, key)] == key,
        forall|j: int| 0 <= j < slot_of(s, key) ==> #[trigger] s[j] != key,
    decreases s.len(),
{
    if s.len() > 0 && s[0] != key {
        let t = s.skip(1);
        lemma_slot_of(t, key);
        assert forall|j: int| 0 <= j < slot_of(s, key) implies #[trigger] s[j] != key by {
            if j > 0 {
                assert(t[j - 1] == s[j]);
            }
        }
    }
}

/// A new key does not move the keys that were there.
pub proof fn lemma_slot_of_push(s: Seq<i16>, key: i16, other: i16)
    requires
        !registered(s, key),
    ensures
        slot_of(s.push(key), other) == (if other == key {
            s.len() as int
        } else if registered(s, other) {
            slot_of(s, other)
        } else {
            (s.len() + 1) as int
        }),
    decreases s.len(),
{
    let t = s.push(key);
    lemma_slot_of(s, key);
    lemma_slot_of(s, other);
    if s.len() == 0 {
        assert(t.skip(1) =~= Seq::<i16>::empty());
        assert(slot_of(t.skip(1), other) == 0);
        assert(t[0] == key);
    } else {
        assert(t.skip(1) =~= s.skip(1).push(key));
        assert(t[0] == s[0]);
        assert(s[0] != key);
        assert(slot_of(s, key) == 1 + slot_of(s.skip(1), key));
        lemma_slot_of(s.skip(1), key);
        lemma_slot_of(s.skip(1), other);
        if s[0] != other {
            assert(slot_of(s, other) == 1 + slot_of(s.skip(1), other));
            assert(slot_of(t, other) == 1 + slot_of(t.skip(1), other));
            lemma_slot_of_push(s.skip(1), key, other);
        } else {
            assert(slot_of(t, other) == 0);
        }
    }
}

fn find_slot(keys: &Vec<i16>, key: i16) -> (r: usize)
    ensures
        r == slot_of(keys@, key),
        r <= keys@.len(),
{
    let mut i: usize = 0;
    assert(keys@.skip(0) =~= keys@);
    while i < keys.len()
        invariant
            i <= keys@.len(),
            slot_of(keys@, key) == i + slot_of(keys@.skip(i as int), key),
        decreases keys@.len() - i,
    {
        assert(keys@.skip(i as int)[0] == keys@[i as int]);
        assert(keys@.skip(i as int).skip(1) =~= keys@.skip(i + 1));
        if keys[i] == key {
            return i;
        }
        i += 1;
    }
    i
}

/// The handlers of a protocol's messages, by message number. A handler is
/// known by the slot that its registration gave it.
#[derive(Debug)]
pub struct MessageDispatcher {
    ids: Vec<i16>,
}

impl MessageDispatcher {
    /// The message numbers that have a handler, in the order of their slots.
    pub closed spec fn ids(&self) -> Seq<i16> {
        self.ids@
    }

    pub fn new() -> (r: Self)
        ensures
            r.ids() == Seq::<i16>::empty(),
    {
        Self { ids: Vec::new() }
    }

    /// Gives the message number a handler slot. A number that has one
    /// already is refused: each kind of message is registered once.
    pub fn register(&mut self, id: ProtocolMessageID) -> (r: Option<usize>)
        ensures
            r.is_none() <==> registered(old(self).ids(), id.0),
            r.is_none() ==> final(self).ids() == old(self).ids(),
            r.is_some() ==> r == Some(old(self).ids().len() as usize) && final(self).ids() == old(self).ids().push(id.0),
    {
        let i = find_slot(&self.ids, id.0);
        if i < self.ids.len() {
            return None;
        }
        self.ids.push(id.0);
        Some(i)
    }

    /// The slot of the handler for the message number, if it has one.
    pub fn dispatch(&self, id: ProtocolMessageID) -> (r: Option<usize>)
        ensures
            r.is_some() <==> registered(self.ids(), id.0),
            r.is_some() ==> r.unwrap() == slot_of(self.ids(), id.0),
    {
        let i = find_slot(&self.ids, id.0);
        if i < self.ids.len() {
            Some(i)
        } else {
            None
        }
    }
}

/// The mailboxes of the protocols, by protocol number. A mailbox is known
/// by the slot that its registration gave it.
#[derive(Debug)]
pub struct MailboxRouter {
    protocols: Vec<i16>,
}

impl MailboxRouter {
    /// The protocol numbers that have a mailbox, in the order of their slots.
    pub closed spec fn protocols(&self) -> Seq<i16> {
        self.protocols@
    }

    pub fn new() -> (r: Self)
        ensures
            r.protocols() == Seq::<i16>::empty(),
    {
        Self { protocols: Vec::new() }
    }

    /// Gives the protocol a mailbox slot, unless it has one.
    pub fn register_protocol(&mut self, id: ProtocolID) -> (r: Option<usize>)
        ensures
            r.is_none() <==> registered(old(self).protocols(), id.0),
            r.is_none() ==> final(self).protocols() == old(self).protocols(),
            r.is_some() ==> r == Some(old(self).protocols().len() as usize) && final(self).protocols() == old(self).protocols().push(id.0),
    {
        let i = find_slot(&self.protocols, id.0);
        if i < self.protocols.len() {
            return None;
        }
        self.protocols.push(id.0);
        Some(i)
    }

    /// The slot of the protocol's mailbox, if it has one.
    pub fn get(&self, id: ProtocolID) -> (r: Option<usize>)
        ensures
            r.is_some() <==> registered(self.protocols(), id.0),
            r.is_some() ==> r.unwrap() == slot_of(self.protocols(), id.0),
    {
        let i = find_slot(&self.protocols, id.0);
        if i < self.protocols.len() {
            Some(i)
        } else {
            None
        }
    }

    /// The number of mailboxes.
    pub fn len(&self) -> (r: usize)
        ensures
            r == self.protocols().len(),
    {
        self.protocols.len()
    }
}

/// A registered handler keeps its slot when another is registered, and the
/// new handler gets the next slot.
pub proof fn lemma_registration_is_stable(s: Seq<i16>, key: i16, other: i16)
    requires
        !registered(s, key),
    ensures
        registered(s.push(key), key),
        slot_of(s.push(key), key) == s.len(),
        registered(s, other) ==> registered(s.push(key), other) && slot_of(s.push(key), other)
            == slot_of(s, other),
        other != key && !registered(s, other) ==> !registered(s.push(key), other),
{
    lemma_slot_of_push(s, key, other);
    lemma_slot_of_push(s, key, key);
    lemma_slot_of(s, other);
}

/// The index of the first occurrence of `tag` in `s`, or the length of `s`.
pub open spec fn tag_slot(s: Seq<u64>, tag: u64) -> int
    decreases s.len(),
{
    if s.len() == 0 {
        0
    } else if s[0] == tag {
        0
    } else {
        1 + tag_slot(s.skip(1), tag)
    }
}

fn find_tag(tags: &Vec<u64>, tag: u64) -> (r: usize)
    ensures
        r == tag_slot(tags@, tag),
        r <= tags@.len(),
{
    let mut i: usize = 0;
    assert(tags@.skip(0) =~= tags@);
    while i < tags.len()
        invariant
            i <= tags@.len(),
            tag_slot(tags@, tag) == i + tag_slot(tags@.skip(i as int), tag),
        decreases tags@.len() - i,
    {
        assert(tags@.skip(i as int)[0] == tags@[i as int]);
        assert(tags@.skip(i as int).skip(1) =~= tags@.skip(i + 1));
        if tags[i] == tag {
            return i;
        }
        i += 1;
    }
    i
}

/// The three ways in which protocols talk to each other.
#[derive(Clone, Copy, Debug, Hash, PartialEq, Eq, Structural)]
pub enum IpcKind {
    Request,
    Reply,
    Notification,
}

/// A message between protocols of one node. `type_id` tells the type of
/// the message apart from the other types of its kind.
#[derive(Debug)]
pub enum IpcMessage<M> {
    Request { source: ProtocolID, destination: ProtocolID, type_id: u64, message: M },
    Reply { source: ProtocolID, destination: ProtocolID, type_id: u64, message: M },
    Notification { source: ProtocolID, type_id: u64, message: M },
}

/// The kind of a message.
pub open spec fn spec_ipc_kind<M>(m: IpcMessage<M>) -> IpcKind {
    match m {
        IpcMessage::Request { .. } => IpcKind::Request,
        IpcMessage::Reply { .. } => IpcKind::Reply,
        IpcMessage::Notification { .. } => IpcKind::Notification,
    }
}

/// The type tag of a message.
pub open spec fn spec_ipc_type<M>(m: IpcMessage<M>) -> u64 {
    match m {
        IpcMessage::Request { type_id, .. } => type_id,
        IpcMessage::Reply { type_id, .. } => type_id,
        IpcMessage::Notification { type_id, .. } => type_id,
    }
}

impl<M> IpcMessage<M> {
    pub fn request(source: ProtocolID, destination: ProtocolID, type_id: u64, message: M) -> (r:
        Self)
        ensures
            r == (IpcMessage::Request { source, destination, type_id, message }),
    {
        IpcMessage::Request { source, destination, type_id, message }
    }

    pub fn reply(source: ProtocolID, destination: ProtocolID, type_id: u64, message: M) -> (r: Self)
        ensures
            r == (IpcMessage::Reply { source, destination, type_id, message }),
    {
        IpcMessage::Reply { source, destination, type_id, message }
    }

    pub fn notification(source: ProtocolID, type_id: u64, message: M) -> (r: Self)
        ensures
            r == (IpcMessage::Notification { source, type_id, message }),
    {
        IpcMessage::Notification { source, type_id, message }
    }

    pub fn message_typeid(&self) -> (r: u64)
        ensures
            r == spec_ipc_type(*self),
    {
        match self {
            IpcMessage::Request { type_id, .. } => *type_id,
            IpcMessage::Reply { type_id, .. } => *type_id,
            IpcMessage::Notification { type_id, .. } => *type_id,
        }
    }

    pub fn kind(&self) -> (r: IpcKind)
        ensures
            r == spec_ipc_kind(*self),
    {
        match self {
            IpcMessage::Request { .. } => IpcKind::Request,
            IpcMessage::Reply { .. } => IpcKind::Reply,
            IpcMessage::Notification { .. } => IpcKind::Notification,
        }
    }
}

/// The handlers of a protocol for the messages of other protocols, by
/// kind and type. A handler is known by the slot that its registration gave it.
#[derive(Debug)]
pub struct IpcDispatcher {
    requests: Vec<u64>,
    replies: Vec<u64>,
    notifications: Vec<u64>,
}

impl IpcDispatcher {
    /// The types of `kind` that have a handler, in the order of their slots.
    pub closed spec fn types(&self, kind: IpcKind) -> Seq<u64> {
        match kind {
            IpcKind::Request => self.requests@,
            IpcKind::Reply => self.replies@,
            IpcKind::Notification => self.notifications@,
        }
    }

    pub fn new() -> (r: Self)
        ensures
            forall|kind: IpcKind| #[trigger] r.types(kind) == Seq::<u64>::empty(),
    {
        Self { requests: Vec::new(), replies: Vec::new(), notifications: Vec::new() }
    }

    /// Gives the type a handler slot among those of its kind, unless it has one.
    pub fn register(&mut self, kind: IpcKind, type_id: u64) -> (r: Option<usize>)
        ensures
            r.is_none() <==> tag_slot(old(self).types(kind), type_id) < old(self).types(kind).len(),
            r.is_none() ==> forall|k: IpcKind| #[trigger] final(self).types(k) == old(self).types(k),
            r.is_some() ==> r == Some(old(self).types(kind).len() as usize) && final(self).types(
                kind,
            ) == old(self).types(kind).push(type_id) && forall|k: IpcKind|
                k != kind ==> #[trigger] final(self).types(k) == old(self).types(k),
    {
        match kind {
            IpcKind::Request => {
                let i = find_tag(&self.requests, type_id);
                if i < self.requests.len() {
                    return None;
                }
                self.requests.push(type_id);
                Some(i)
            },
            IpcKind::Reply => {
                let i = find_tag(&self.replies, type_id);
                if i < self.replies.len() {
                    return None;
                }
                self.replies.push(type_id);
                Some(i)
            },
            IpcKind::Notification => {
                let i = find_tag(&self.notifications, type_id);
                if i < self.notifications.len() {
                    return None;
                }
                self.notifications.push(type_id);
                Some(i)
            },
        }
    }

    pub fn register_request(&mut self, type_id: u64) -> (r: Option<usize>)
        ensures
            r.is_none() <==> tag_slot(old(self).types(IpcKind::Request), type_id) < old(self).types(IpcKind::Request).len(),
            r.is_some() ==> r == Some(old(self).types(IpcKind::Request).len() as usize) && final(self).types(IpcKind::Request) == old(self).types(IpcKind::Request).push(type_id),
    {
        self.register(IpcKind::Request, type_id)
    }

    pub fn register_reply(&mut self, type_id: u64) -> (r: Option<usize>)
        ensures
            r.is_none() <==> tag_slot(old(self).types(IpcKind::Reply), type_id) < old(self).types(
                IpcKind::Reply,
            ).len(),
            r.is_some() ==> r == Some(old(self).types(IpcKind::Reply).len() as usize) && final(self).types(IpcKind::Reply) == old(self).types(IpcKind::Reply).push(type_id),
    {
        self.register(IpcKind::Reply, type_id)
    }

    pub fn register_notification(&mut self, type_id: u64) -> (r: Option<usize>)
        ensures
            r.is_none() <==> tag_slot(old(self).types(IpcKind::Notification), type_id) < old(self).types(IpcKind::Notification).len(),
            r.is_some() ==> r == Some(old(self).types(IpcKind::Notification).len() as usize)
                && final(self).types(IpcKind::Notification) == old(self).types(
                IpcKind::Notification,
            ).push(type_id),
    {
        self.register(IpcKind::Notification, type_id)
    }

    /// The slot of the handler for the message, among those of its kind,
    /// if its type has one.
    pub fn dispatch<M>(&self, message: &IpcMessage<M>) -> (r: Option<usize>)
        ensures
            r.is_some() <==> tag_slot(
                self.types(spec_ipc_kind(*message)),
                spec_ipc_type(*message),
            ) < self.types(spec_ipc_kind(*message)).len(),
            r.is_some() ==> r.unwrap() == tag_slot(
                self.types(spec_ipc_kind(*message)),
                spec_ipc_type(*message),
            ),
    {
        let tag = message.message_typeid();
        match message.kind() {
            IpcKind::Request => {
                let i = find_tag(&self.requests, tag);
                if i < self.requests.len() {
                    Some(i)
                } else {
                    None
                }
            },
            IpcKind::Reply => {
                let i = find_tag(&self.replies, tag);
                if i < self.replies.len() {
                    Some(i)
                } else {
                    None
                }
            },
            IpcKind::Notification => {
                let i = find_tag(&self.notifications, tag);
                if i < self.notifications.len() {
                    Some(i)
                } else {
                    None
                }
            },
        }
    }
}

} // verus!
