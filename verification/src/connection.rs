use vstd::prelude::*;
use crate::codec::be16;
use crate::codec::bits16;
use crate::control::BabelMessage;
use crate::control::ControlMessage;
use crate::control::Handshake;
use crate::control::Message;
use crate::control::CONTROL_MAGIC_NUMBER;
use crate::peer::HostAddr;
use crate::props::Pair;
use crate::props::Properties;
use crate::props::addr_wire;
use crate::props::spec_get;
use crate::props::spec_put;
use crate::codec::from_be16;
use crate::codec::from_be32;
use crate::control::carried_app;
use crate::protocol::ConnectionDirection;
use crate::protocol::ConnectionEventKind;

verus! {

/// The magic number that the TCP channel puts into its handshakes.
pub const TCP_MAGIC_NUMBER: i16 = 0x4505;

/// The time between two heartbeats, in milliseconds.
pub const HEARTBEAT_INTERVAL_MS: u64 = 1000;

/// The number of commands that may wait for one connection.
pub const MAX_CONNECTION_QUEUED_EVENTS: usize = 512;

/// Whether the handshake of a connection is done.
#[derive(Clone, Copy, Debug, PartialEq, Eq, Structural)]
pub enum LinkPhase {
    AwaitingHandshake,
    Established,
    Stopped,
}

/// Why a connection gave up.
#[derive(Clone, Copy, Debug, PartialEq, Eq, Structural)]
pub enum LinkError {
    /// The other end sent a control message that has no place here.
    UnexpectedMessage,
    /// The other end did not say where it listens.
    MissingListenAddress,
}

/// What a connection asks of the task that runs it.
#[derive(Debug)]
pub enum LinkAction {
    /// Write this message to the socket.
    Write(Message<BabelMessage>),
    /// Tell the channel that the handshake is done and where the other end listens.
    HandshakeComplete { listen_addr: HostAddr },
    /// Hand this message to the protocols.
    Deliver { from: HostAddr, direction: ConnectionDirection, message: BabelMessage },
    /// Close the socket.
    Stop,
    /// Close the socket because of an error.
    Fail(LinkError),
}

/// The properties of the handshake of a channel that listens at `listen`.
pub open spec fn handshake_pairs(listen: HostAddr) -> Seq<Pair> {
    spec_put(
        spec_put(Seq::empty(), "magic_number"@, be16(bits16(0x4505))),
        "listen_address"@,
        addr_wire(listen),
    )
}

/// One connection of the TCP channel: the handshake, then messages in both
/// directions and heartbeats.
#[derive(Debug)]
pub struct Link {
    remote: HostAddr,
    direction: ConnectionDirection,
    local_listen: HostAddr,
    phase: LinkPhase,
    listen_addr: Option<HostAddr>,
    backlog: Vec<BabelMessage>,
    close_requested: bool,
}

impl Link {
    pub closed spec fn phase(&self) -> LinkPhase {
        self.phase
    }

    pub closed spec fn direction(&self) -> ConnectionDirection {
        self.direction
    }

    pub closed spec fn remote(&self) -> HostAddr {
        self.remote
    }

    pub closed spec fn local_listen(&self) -> HostAddr {
        self.local_listen
    }

    /// Where the other end listens, once the handshake has told.
    pub closed spec fn listen_addr(&self) -> Option<HostAddr> {
        self.listen_addr
    }

    /// The messages that wait for the handshake to end.
    pub closed spec fn backlog(&self) -> Seq<BabelMessage> {
        self.backlog@
    }

    /// True when the connection is to close as soon as the handshake ends.
    pub closed spec fn close_requested(&self) -> bool {
        self.close_requested
    }

    /// An established connection knows where the other end listens.
    pub open spec fn wf(&self) -> bool {
        self.phase() == LinkPhase::Established ==> self.listen_addr().is_some()
    }

    /// Both connections have the same ends and direction.
    pub open spec fn same_ends(&self, other: &Link) -> bool {
        &&& self.remote() == other.remote()
        &&& self.direction() == other.direction()
        &&& self.local_listen() == other.local_listen()
    }

    pub fn new(remote: HostAddr, direction: ConnectionDirection, local_listen: HostAddr) -> (r:
        Self)
        ensures
            r.wf(),
            r.phase() == LinkPhase::AwaitingHandshake,
            r.remote() == remote,
            r.direction() == direction,
            r.local_listen() == local_listen,
            r.listen_addr().is_none(),
            r.backlog() == Seq::<BabelMessage>::empty(),
            !r.close_requested(),
    {
        Self {
            remote,
            direction,
            local_listen,
            phase: LinkPhase::AwaitingHandshake,
            listen_addr: None,
            backlog: Vec::new(),
            close_requested: false,
        }
    }

    /// The phase of the connection.
    pub fn current_phase(&self) -> (r: LinkPhase)
        ensures
            r == self.phase(),
    {
        self.phase
    }

    /// The handshake that this end sends: the magic number of the channel
    /// and the address at which this end listens.
    pub fn handshake(&self) -> (r: Handshake)
        ensures
            r.magic_number == CONTROL_MAGIC_NUMBER,
            r.properties.pairs() == handshake_pairs(self.local_listen()),
    {
        let mut properties = Properties::new();
        properties.insert_i16("magic_number", TCP_MAGIC_NUMBER);
        properties.insert_addr("listen_address", self.local_listen);
        Handshake::new(properties)
    }

    /// What the connection does first: the side that opened it sends the
    /// first handshake, the other side waits.
    pub fn open(&self) -> (r: Vec<LinkAction>)
        ensures
            self.direction() == ConnectionDirection::Incoming ==> r@.len() == 0,
            self.direction() == ConnectionDirection::Outgoing ==> r@.len() == 1
                && writes_first_handshake(r@[0], self.local_listen()),
    {
        let mut out: Vec<LinkAction> = Vec::new();
        match self.direction {
            ConnectionDirection::Incoming => {},
            ConnectionDirection::Outgoing => {
                let hs = self.handshake();
                out.push(LinkAction::Write(Message::Control(ControlMessage::FirstHandshake(hs))));
            },
        }
        out
    }

    /// A message of a protocol is to go out. Before the handshake is done
    /// it waits; after a request to close it is dropped.
    pub fn on_send(&mut self, message: BabelMessage) -> (r: Vec<LinkAction>)
        requires
            old(self).wf(),
        ensures
            final(self).wf(),
            final(self).same_ends(old(self)),
            final(self).phase() == old(self).phase(),
            final(self).listen_addr() == old(self).listen_addr(),
            final(self).close_requested() == old(self).close_requested(),
            old(self).phase() == LinkPhase::Established ==> r@ == seq![
                LinkAction::Write(Message::Application(message)),
            ] && final(self).backlog() == old(self).backlog(),
            old(self).phase() == LinkPhase::AwaitingHandshake ==> r@.len() == 0 && final(self).backlog() == (if old(self).close_requested() {
                old(self).backlog()
            } else {
                old(self).backlog().push(message)
            }),
            old(self).phase() == LinkPhase::Stopped ==> r@.len() == 0 && final(self).backlog()
                == old(self).backlog(),
    {
        let mut out: Vec<LinkAction> = Vec::new();
        match self.phase {
            LinkPhase::Established => {
                out.push(LinkAction::Write(Message::Application(message)));
            },
            LinkPhase::AwaitingHandshake => {
                if !self.close_requested {
                    self.backlog.push(message);
                }
            },
            LinkPhase::Stopped => {},
        }
        out
    }

    /// The connection is to close: at once if the handshake is done, else
    /// as soon as it is.
    pub fn on_close(&mut self) -> (r: Vec<LinkAction>)
        requires
            old(self).wf(),
        ensures
            final(self).wf(),
            final(self).same_ends(old(self)),
            final(self).listen_addr() == old(self).listen_addr(),
            final(self).backlog() == old(self).backlog(),
            old(self).phase() == LinkPhase::Established ==> r@ == seq![LinkAction::Stop]
                && final(self).phase() == LinkPhase::Stopped,
            old(self).phase() == LinkPhase::AwaitingHandshake ==> r@.len() == 0 && final(self).phase() == LinkPhase::AwaitingHandshake && final(self).close_requested(),
            old(self).phase() == LinkPhase::Stopped ==> r@.len() == 0 && final(self).phase()
                == LinkPhase::Stopped,
    {
        let mut out: Vec<LinkAction> = Vec::new();
        match self.phase {
            LinkPhase::Established => {
                self.phase = LinkPhase::Stopped;
                out.push(LinkAction::Stop);
            },
            LinkPhase::AwaitingHandshake => {
                self.close_requested = true;
            },
            LinkPhase::Stopped => {},
        }
        out
    }

    /// The heartbeat timer fired: an established connection sends a heartbeat.
    pub fn on_heartbeat_tick(&self) -> (r: Vec<LinkAction>)
        ensures
            self.phase() == LinkPhase::Established ==> r@ == seq![
                LinkAction::Write(Message::Control(ControlMessage::Heartbeat)),
            ],
            self.phase() != LinkPhase::Established ==> r@.len() == 0,
    {
        let mut out: Vec<LinkAction> = Vec::new();
        if self.phase == LinkPhase::Established {
            out.push(LinkAction::Write(Message::Control(ControlMessage::Heartbeat)));
        }
        out
    }

    /// A message arrived on an established connection: heartbeats are
    /// ignored, no other control message is expected, and a message of a
    /// protocol is handed on under the address at which the sender listens.
    pub fn on_message(&mut self, message: Message<BabelMessage>) -> (r: Vec<LinkAction>)
        requires
            old(self).wf(),
            old(self).phase() == LinkPhase::Established,
        ensures
            final(self).wf(),
            final(self).same_ends(old(self)),
            final(self).listen_addr() == old(self).listen_addr(),
            final(self).backlog() == old(self).backlog(),
            carried_app(message).is_some() ==> r@ == seq![
                LinkAction::Deliver {
                    from: old(self).listen_addr().unwrap(),
                    direction: old(self).direction(),
                    message: carried_app(message).unwrap(),
                },
            ] && final(self).phase() == LinkPhase::Established,
            is_heartbeat(message) ==> r@.len() == 0 && final(self).phase()
                == LinkPhase::Established,
            carried_app(message).is_none() && !is_heartbeat(message) ==> r@ == seq![
                LinkAction::Fail(LinkError::UnexpectedMessage),
            ] && final(self).phase() == LinkPhase::Stopped,
    {
        let mut out: Vec<LinkAction> = Vec::new();
        match message {
            Message::Application(m) => {
                let from = match self.listen_addr {
                    Some(a) => a,
                    None => self.remote,
                };
                out.push(LinkAction::Deliver { from, direction: self.direction, message: m });
            },
            Message::Control(ControlMessage::Heartbeat) => {},
            Message::Control(_) => {
                self.phase = LinkPhase::Stopped;
                out.push(LinkAction::Fail(LinkError::UnexpectedMessage));
            },
        }
        out
    }

    /// The first message arrived. The side that was called expects the
    /// first handshake with the address at which the caller listens, and
    /// answers with the second; the side that called expects the second.
    /// Then the messages that waited go out, and the connection closes if
    /// that was asked for.
    pub fn on_first_message(&mut self, message: Message<BabelMessage>) -> (r: Vec<LinkAction>)
        requires
            old(self).wf(),
            old(self).phase() == LinkPhase::AwaitingHandshake,
        ensures
            final(self).wf(),
            final(self).same_ends(old(self)),
            final(self).phase() != LinkPhase::AwaitingHandshake,
            final(self).phase() == LinkPhase::Established ==> final(self).backlog().len() == 0,
            old(self).direction() == ConnectionDirection::Outgoing ==> (if is_second_handshake(
                message,
            ) {
                final(self).listen_addr() == Some(old(self).remote()) && r@ == seq![
                    LinkAction::HandshakeComplete { listen_addr: old(self).remote() },
                ] + settled(old(self).backlog(), old(self).close_requested()) && final(self).phase() == after_handshake(old(self).close_requested())
            } else {
                r@ == seq![LinkAction::Fail(LinkError::UnexpectedMessage)] && final(self).phase()
                    == LinkPhase::Stopped
            }),
            old(self).direction() == ConnectionDirection::Incoming ==> (if first_handshake_pairs(
                message,
            ).is_none() {
                r@ == seq![LinkAction::Fail(LinkError::UnexpectedMessage)] && final(self).phase()
                    == LinkPhase::Stopped
            } else {
                r@.len() >= 2 && writes_second_handshake(r@[0], old(self).local_listen()) && (
                match their_listen_addr(first_handshake_pairs(message).unwrap()) {
                    None => r@.skip(1) == seq![LinkAction::Fail(LinkError::MissingListenAddress)]
                        && final(self).phase() == LinkPhase::Stopped,
                    Some(addr) => final(self).listen_addr() == Some(addr) && r@.skip(1) == seq![
                        LinkAction::HandshakeComplete { listen_addr: addr },
                    ] + settled(old(self).backlog(), old(self).close_requested()) && final(self).phase() == after_handshake(old(self).close_requested()),
                })
            }),
    {
        let mut out: Vec<LinkAction> = Vec::new();
        let listen_addr = match self.direction {
            ConnectionDirection::Incoming => {
                let theirs = match message {
                    Message::Control(ControlMessage::FirstHandshake(hs)) => hs,
                    _ => {
                        self.phase = LinkPhase::Stopped;
                        out.push(LinkAction::Fail(LinkError::UnexpectedMessage));
                        return out;
                    },
                };
                let ours = self.handshake();
                out.push(LinkAction::Write(Message::Control(ControlMessage::SecondHandshake(ours))));
                match theirs.properties.get_addr("listen_address") {
                    Some(Ok(addr)) => addr,
                    _ => {
                        self.phase = LinkPhase::Stopped;
                        out.push(LinkAction::Fail(LinkError::MissingListenAddress));
                        assert(out@.skip(1) =~= seq![
                            LinkAction::Fail(LinkError::MissingListenAddress),
                        ]);
                        return out;
                    },
                }
            },
            ConnectionDirection::Outgoing => {
                match message {
                    Message::Control(ControlMessage::SecondHandshake(_)) => {},
                    _ => {
                        self.phase = LinkPhase::Stopped;
                        out.push(LinkAction::Fail(LinkError::UnexpectedMessage));
                        return out;
                    },
                }
                self.remote
            },
        };
        self.listen_addr = Some(listen_addr);
        out.push(LinkAction::HandshakeComplete { listen_addr });
        let ghost head = out@;
        let ghost waiting = self.backlog@;
        let ghost mut moved: int = 0;
        proof {
            assert(head + flush(waiting.take(0)) =~= head);
            assert(waiting.skip(0) =~= waiting);
        }
        while self.backlog.len() > 0
            invariant
                self.same_ends(old(self)),
                self.listen_addr == Some(listen_addr),
                self.phase == LinkPhase::AwaitingHandshake,
                self.close_requested == old(self).close_requested,
                0 <= moved <= waiting.len(),
                self.backlog@ == waiting.skip(moved),
                out@ == head + flush(waiting.take(moved)),
            decreases self.backlog@.len(),
        {
            let m = self.backlog.remove(0);
            out.push(LinkAction::Write(Message::Application(m)));
            proof {
                assert(m == waiting[moved]);
                assert(self.backlog@ =~= waiting.skip(moved + 1));
                assert(out@ =~= head + flush(waiting.take(moved + 1)));
                moved = moved + 1;
            }
        }
        proof {
            assert(waiting.take(moved) =~= waiting);
        }
        if self.close_requested {
            self.phase = LinkPhase::Stopped;
            out.push(LinkAction::Stop);
        } else {
            self.phase = LinkPhase::Established;
        }
        proof {
            let tail = settled(waiting, old(self).close_requested);
            if old(self).direction == ConnectionDirection::Outgoing {
                assert(out@ =~= seq![LinkAction::HandshakeComplete { listen_addr }] + tail);
            } else {
                assert(out@.skip(1) =~= seq![LinkAction::HandshakeComplete { listen_addr }]
                    + tail);
            }
        }
        out
    }
}

/// True when `m` is a heartbeat.
pub open spec fn is_heartbeat(m: Message<BabelMessage>) -> bool {
    m matches Message::Control(ControlMessage::Heartbeat)
}

/// True when `m` is a second handshake.
pub open spec fn is_second_handshake(m: Message<BabelMessage>) -> bool {
    m matches Message::Control(ControlMessage::SecondHandshake(_))
}

/// The properties of `m`, if it is a first handshake.
pub open spec fn first_handshake_pairs(m: Message<BabelMessage>) -> Option<Seq<Pair>> {
    match m {
        Message::Control(ControlMessage::FirstHandshake(h)) => Some(h.properties.pairs()),
        _ => None,
    }
}

/// The address under `listen_address` in the properties of a handshake.
pub open spec fn their_listen_addr(pairs: Seq<Pair>) -> Option<HostAddr> {
    match spec_get(pairs, "listen_address"@) {
        None => None,
        Some(v) => if v.len() >= 6 {
            Some(HostAddr { ip: from_be32(v.subrange(0, 4)), port: from_be16(v.subrange(4, 6)) })
        } else {
            None
        },
    }
}

/// True when `a` writes the second handshake of a channel that listens at `listen`.
pub open spec fn writes_second_handshake(a: LinkAction, listen: HostAddr) -> bool {
    a matches LinkAction::Write(Message::Control(ControlMessage::SecondHandshake(h)))
        && h.magic_number == CONTROL_MAGIC_NUMBER && h.properties.pairs() == handshake_pairs(
        listen,
    )
}

/// True when `a` writes the first handshake of a channel that listens at `listen`.
pub open spec fn writes_first_handshake(a: LinkAction, listen: HostAddr) -> bool {
    a matches LinkAction::Write(Message::Control(ControlMessage::FirstHandshake(h)))
        && h.magic_number == CONTROL_MAGIC_NUMBER && h.properties.pairs() == handshake_pairs(
        listen,
    )
}

/// One write for each message that waited, in order.
pub open spec fn flush(backlog: Seq<BabelMessage>) -> Seq<LinkAction> {
    Seq::new(backlog.len(), |i: int| LinkAction::Write(Message::Application(backlog[i])))
}

/// What follows a handshake: the messages that waited go out, and the
/// connection closes if that was asked for.
pub open spec fn settled(backlog: Seq<BabelMessage>, close: bool) -> Seq<LinkAction> {
    if close {
        flush(backlog).push(LinkAction::Stop)
    } else {
        flush(backlog)
    }
}

/// The phase after a handshake.
pub open spec fn after_handshake(close: bool) -> LinkPhase {
    if close {
        LinkPhase::Stopped
    } else {
        LinkPhase::Established
    }
}

/// One connection that the channel knows of.
#[derive(Clone, Copy, Debug)]
pub struct ConnEntry {
    pub host: HostAddr,
    pub direction: ConnectionDirection,
    pub listen_addr: Option<HostAddr>,
}

/// What the channel asks of its tasks and tells its owner.
#[derive(Debug)]
pub enum ChannelAction {
    /// Open a socket to the host and run a connection on it.
    SpawnConnect(HostAddr),
    /// Run a connection on the socket that was accepted from the host.
    SpawnAccepted(HostAddr),
    /// Ask the connection to close.
    Close { host: HostAddr, direction: ConnectionDirection },
    /// Hand the message to the connection.
    Forward { host: HostAddr, direction: ConnectionDirection, message: BabelMessage },
    /// Tell the owner what happened to a connection.
    Emit { host: HostAddr, direction: ConnectionDirection, kind: ConnectionEventKind },
}

/// True when `s` holds a connection with `host` in `direction`.
pub open spec fn has_conn(s: Seq<ConnEntry>, host: HostAddr, direction: ConnectionDirection) -> bool {
    exists|i: int| 0 <= i < s.len() && (#[trigger] s[i]).host == host && s[i].direction == direction
}

/// No two connections of `s` have the same host and direction.
pub open spec fn conns_unique(s: Seq<ConnEntry>) -> bool {
    forall|i: int, j: int|
        0 <= i < j < s.len() ==> !((#[trigger] s[i]).host == (#[trigger] s[j]).host
            && s[i].direction == s[j].direction)
}

/// The connections of a TCP channel, by host and direction.
#[derive(Debug)]
pub struct ConnTable {
    entries: Vec<ConnEntry>,
}

impl ConnTable {
    pub closed spec fn conns(&self) -> Seq<ConnEntry> {
        self.entries@
    }

    pub open spec fn wf(&self) -> bool {
        conns_unique(self.conns())
    }

    pub fn new() -> (r: Self)
        ensures
            r.wf(),
            r.conns() == Seq::<ConnEntry>::empty(),
    {
        Self { entries: Vec::new() }
    }

    /// The number of connections.
    pub fn len(&self) -> (r: usize)
        ensures
            r == self.conns().len(),
    {
        self.entries.len()
    }

    /// The index of the connection with `host` in `direction`, or the
    /// number of connections.
    fn find(&self, host: HostAddr, direction: ConnectionDirection) -> (r: usize)
        ensures
            r <= self.entries@.len(),
            r < self.entries@.len() <==> has_conn(self.entries@, host, direction),
            r < self.entries@.len() ==> self.entries@[r as int].host == host
                && self.entries@[r as int].direction == direction,
    {
        let mut i: usize = 0;
        while i < self.entries.len()
            invariant
                i <= self.entries@.len(),
                forall|j: int|
                    0 <= j < i ==> !((#[trigger] self.entries@[j]).host == host
                        && self.entries@[j].direction == direction),
            decreases self.entries@.len() - i,
        {
            if self.entries[i].host == host && self.entries[i].direction == direction {
                return i;
            }
            i += 1;
        }
        i
    }

    /// True exactly when there is a connection with `host` in `direction`.
    pub fn contains(&self, host: HostAddr, direction: ConnectionDirection) -> (r: bool)
        ensures
            r == has_conn(self.conns(), host, direction),
    {
        self.find(host, direction) < self.entries.len()
    }

    /// Where the other end of the connection listens, once its handshake is done.
    pub fn listen_addr(&self, host: HostAddr, direction: ConnectionDirection) -> (r: Option<
        HostAddr,
    >)
        ensures
            !has_conn(self.conns(), host, direction) ==> r.is_none(),
            has_conn(self.conns(), host, direction) ==> exists|i: int|
                0 <= i < self.conns().len() && (#[trigger] self.conns()[i]).host == host
                    && self.conns()[i].direction == direction && self.conns()[i].listen_addr == r,
    {
        let i = self.find(host, direction);
        if i < self.entries.len() {
            self.entries[i].listen_addr
        } else {
            None
        }
    }

    /// The owner asks for a connection to `host`: one is opened unless
    /// there is one already.
    pub fn open_connection(&mut self, host: HostAddr) -> (r: Option<ChannelAction>)
        requires
            old(self).wf(),
        ensures
            final(self).wf(),
            r.is_none() <==> has_conn(old(self).conns(), host, ConnectionDirection::Outgoing),
            r.is_none() ==> final(self).conns() == old(self).conns(),
            r.is_some() ==> r == Some(ChannelAction::SpawnConnect(host)) && final(self).conns()
                == old(self).conns().push(
                ConnEntry { host, direction: ConnectionDirection::Outgoing, listen_addr: None },
            ),
    {
        if self.contains(host, ConnectionDirection::Outgoing) {
            return None;
        }
        self.entries.push(
            ConnEntry { host, direction: ConnectionDirection::Outgoing, listen_addr: None },
        );
        Some(ChannelAction::SpawnConnect(host))
    }

    /// The owner asks to close the connection to `host`.
    pub fn close_connection(&self, host: HostAddr) -> (r: Option<ChannelAction>)
        ensures
            r.is_some() <==> has_conn(self.conns(), host, ConnectionDirection::Outgoing),
            r.is_some() ==> r == Some(
                ChannelAction::Close { host, direction: ConnectionDirection::Outgoing },
            ),
    {
        if self.contains(host, ConnectionDirection::Outgoing) {
            Some(ChannelAction::Close { host, direction: ConnectionDirection::Outgoing })
        } else {
            None
        }
    }

    /// The socket to `host` is open: the owner learns that the connection is up.
    pub fn connection_opened(&self, host: HostAddr) -> (r: ChannelAction)
        ensures
            r == (ChannelAction::Emit {
                host,
                direction: ConnectionDirection::Outgoing,
                kind: ConnectionEventKind::ConnectionUp,
            }),
    {
        ChannelAction::Emit {
            host,
            direction: ConnectionDirection::Outgoing,
            kind: ConnectionEventKind::ConnectionUp,
        }
    }

    /// A socket from `host` was accepted: unless there is such a connection
    /// already, one is run on it and the owner learns that it is up.
    pub fn connection_accepted(&mut self, host: HostAddr) -> (r: Vec<ChannelAction>)
        requires
            old(self).wf(),
        ensures
            final(self).wf(),
            has_conn(old(self).conns(), host, ConnectionDirection::Incoming) ==> r@.len() == 0
                && final(self).conns() == old(self).conns(),
            !has_conn(old(self).conns(), host, ConnectionDirection::Incoming) ==> r@ == seq![
                ChannelAction::SpawnAccepted(host),
                ChannelAction::Emit {
                    host,
                    direction: ConnectionDirection::Incoming,
                    kind: ConnectionEventKind::ConnectionUp,
                },
            ] && final(self).conns() == old(self).conns().push(
                ConnEntry { host, direction: ConnectionDirection::Incoming, listen_addr: None },
            ),
    {
        let mut out: Vec<ChannelAction> = Vec::new();
        if self.contains(host, ConnectionDirection::Incoming) {
            return out;
        }
        self.entries.push(
            ConnEntry { host, direction: ConnectionDirection::Incoming, listen_addr: None },
        );
        out.push(ChannelAction::SpawnAccepted(host));
        out.push(
            ChannelAction::Emit {
                host,
                direction: ConnectionDirection::Incoming,
                kind: ConnectionEventKind::ConnectionUp,
            },
        );
        out
    }

    /// The handshake of a connection is done: the channel notes where the
    /// other end listens.
    pub fn handshake_complete(
        &mut self,
        host: HostAddr,
        direction: ConnectionDirection,
        listen_addr: HostAddr,
    ) -> (r: bool)
        requires
            old(self).wf(),
        ensures
            final(self).wf(),
            r == has_conn(old(self).conns(), host, direction),
            !r ==> final(self).conns() == old(self).conns(),
            r ==> exists|i: int|
                0 <= i < old(self).conns().len() && old(self).conns()[i].host == host && old(self).conns()[i].direction == direction && #[trigger] final(self).conns() == old(self).conns().update(i, ConnEntry { host, direction, listen_addr: Some(listen_addr) }),
    {
        let i = self.find(host, direction);
        if i < self.entries.len() {
            let ghost before = self.entries@;
            self.entries[i] = ConnEntry { host, direction, listen_addr: Some(listen_addr) };
            proof {
                let after = self.entries@;
                assert(after == before.update(
                    i as int,
                    ConnEntry { host, direction, listen_addr: Some(listen_addr) },
                ));
                assert forall|a: int, b: int| 0 <= a < b < after.len() implies !((
                #[trigger] after[a]).host == (#[trigger] after[b]).host && after[a].direction
                    == after[b].direction) by {
                    assert(after[a].host == before[a].host && after[a].direction
                        == before[a].direction);
                    assert(after[b].host == before[b].host && after[b].direction
                        == before[b].direction);
                }
            }
            true
        } else {
            false
        }
    }

    /// Opening a socket to `addr` failed: the owner learns of it unless a
    /// connection to that host is known.
    pub fn connection_failed(&self, addr: HostAddr) -> (r: Option<ChannelAction>)
        ensures
            r.is_none() <==> has_conn(self.conns(), addr, ConnectionDirection::Outgoing),
            r.is_some() ==> r == Some(
                ChannelAction::Emit {
                    host: addr,
                    direction: ConnectionDirection::Outgoing,
                    kind: ConnectionEventKind::ConnectionFailed,
                },
            ),
    {
        if self.contains(addr, ConnectionDirection::Outgoing) {
            None
        } else {
            Some(
                ChannelAction::Emit {
                    host: addr,
                    direction: ConnectionDirection::Outgoing,
                    kind: ConnectionEventKind::ConnectionFailed,
                },
            )
        }
    }

    /// A connection has ended: it leaves the table and the owner learns
    /// that it is down.
    pub fn connection_closed(&mut self, addr: HostAddr, direction: ConnectionDirection) -> (r:
        ChannelAction)
        requires
            old(self).wf(),
            has_conn(old(self).conns(), addr, direction),
        ensures
            final(self).wf(),
            !has_conn(final(self).conns(), addr, direction),
            final(self).conns().len() + 1 == old(self).conns().len(),
            forall|h: HostAddr, d: ConnectionDirection|
                !(h == addr && d == direction) ==> (has_conn(final(self).conns(), h, d)
                    <==> has_conn(old(self).conns(), h, d)),
            r == (ChannelAction::Emit {
                host: addr,
                direction,
                kind: ConnectionEventKind::ConnectionDown,
            }),
    {
        let i = self.find(addr, direction);
        let ghost before = self.entries@;
        let _ = self.entries.swap_remove(i);
        proof {
            let after = self.entries@;
            let last = before.len() - 1;
            assert forall|a: int| 0 <= a < after.len() implies #[trigger] after[a] == before[if a
                == i {
                last
            } else {
                a
            }] by {}
            assert forall|a: int, b: int| 0 <= a < b < after.len() implies !((
            #[trigger] after[a]).host == (#[trigger] after[b]).host && after[a].direction
                == after[b].direction) by {
                let sa = if a == i { last } else { a };
                let sb = if b == i { last } else { b };
                if sa < sb {
                    assert(!(before[sa].host == before[sb].host && before[sa].direction
                        == before[sb].direction));
                } else {
                    assert(!(before[sb].host == before[sa].host && before[sb].direction
                        == before[sa].direction));
                }
            }
            if has_conn(after, addr, direction) {
                let a = choose|a: int|
                    0 <= a < after.len() && (#[trigger] after[a]).host == addr
                        && after[a].direction == direction;
                let sa = if a == i { last } else { a };
                if sa < i {
                    assert(!(before[sa].host == before[i as int].host && before[sa].direction
                        == before[i as int].direction));
                } else {
                    assert(!(before[i as int].host == before[sa].host && before[i as int].direction
                        == before[sa].direction));
                }
            }
            assert forall|h: HostAddr, d: ConnectionDirection| !(h == addr && d == direction) implies (
            has_conn(after, h, d) <==> has_conn(before, h, d)) by {
                if has_conn(after, h, d) {
                    let a = choose|a: int|
                        0 <= a < after.len() && (#[trigger] after[a]).host == h
                            && after[a].direction == d;
                    let sa = if a == i { last } else { a };
                    assert(before[sa].host == h && before[sa].direction == d);
                }
                if has_conn(before, h, d) {
                    let b = choose|b: int|
                        0 <= b < before.len() && (#[trigger] before[b]).host == h
                            && before[b].direction == d;
                    if b == last {
                        assert(after[i as int].host == h && after[i as int].direction == d);
                    } else {
                        assert(after[b].host == h && after[b].direction == d);
                    }
                }
            }
        }
        ChannelAction::Emit { host: addr, direction, kind: ConnectionEventKind::ConnectionDown }
    }

    /// The owner sends a message: it goes to the connection, if there is one.
    pub fn send_message(
        &self,
        host: HostAddr,
        direction: ConnectionDirection,
        message: BabelMessage,
    ) -> (r: Option<ChannelAction>)
        ensures
            r.is_some() <==> has_conn(self.conns(), host, direction),
            r.is_some() ==> r == Some(ChannelAction::Forward { host, direction, message }),
    {
        if self.contains(host, direction) {
            Some(ChannelAction::Forward { host, direction, message })
        } else {
            None
        }
    }
}

/// What a TCP channel is made with: the address at which it listens.
#[derive(Clone, Copy, Debug)]
pub struct TcpChannelParams {
    pub listen_addr: HostAddr,
}

impl TcpChannelParams {
    /// The parameters as the properties of a channel.
    pub fn to_properties(&self) -> (r: Properties)
        ensures
            r.pairs() == spec_put(Seq::empty(), "listen_address"@, addr_wire(self.listen_addr)),
    {
        let mut props = Properties::new();
        props.insert_addr("listen_address", self.listen_addr);
        props
    }
}

/// Makes TCP channels.
#[derive(Clone, Copy, Debug)]
pub struct TcpChannelFactory;

impl TcpChannelFactory {
    /// A channel without connections that listens at the address under
    /// `listen_address`; without such an address there is no channel.
    pub fn create(&self, properties: &Properties) -> (r: Option<(ConnTable, HostAddr)>)
        ensures
            r.is_some() <==> their_listen_addr(properties.pairs()).is_some(),
            r.is_some() ==> r.unwrap().0.wf() && r.unwrap().0.conns() == Seq::<ConnEntry>::empty()
                && Some(r.unwrap().1) == their_listen_addr(properties.pairs()),
    {
        match properties.get_addr("listen_address") {
            Some(Ok(addr)) => Some((ConnTable::new(), addr)),
            _ => None,
        }
    }
}

} // verus!
