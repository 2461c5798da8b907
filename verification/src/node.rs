use vstd::prelude::*;
use crate::addrbook::AddrBook;
use crate::codec::WireError;
use crate::kad_id::KadID;
use crate::message::FindNodeRequest;
use crate::message::FindNodeResponse;
use crate::message::FindValueRequest;
use crate::message::FindValueResponse;
use crate::message::Handshake;
use crate::message::StoreRequest;
use crate::peer::HostAddr;
use crate::peer::Peer;
use crate::protocol::ConnectionDirection;
use crate::protocol::ConnectionEventKind;
use crate::protocol::KadMessageKind;
use crate::query::KadParams;
use crate::query::QueryAction;
use crate::query::QueryDescriptor;
use crate::query::QueryEffect;
use crate::query::effects;
use crate::query::QueryKind;
use crate::query_manager::QueryID;
use crate::query_manager::QueryManager;
use crate::query_manager::QueryResult;
use crate::query_manager::answer_taken;
use crate::query_manager::expire_taken;
use crate::query_manager::start_taken;
use crate::query_manager::value_taken;
use crate::query::Query;
use crate::query::value_view;
use crate::routing_table::RoutingTable;
use crate::routing_table::is_closest;
use crate::routing_table::spec_insert;
use crate::routing_table::table_contains;

verus! {

/// The delay before the first refresh, in milliseconds.
pub const REFRESH_DELAY_MS: u64 = 2000;

/// The time between two refreshes, in milliseconds.
pub const REFRESH_INTERVAL_MS: u64 = 4000;

/// A message of the Kademlia protocol.
#[derive(Debug)]
pub enum KadMessage {
    Handshake(Handshake),
    FindNodeRequest(FindNodeRequest),
    FindNodeResponse(FindNodeResponse),
    FindValueRequest(FindValueRequest),
    FindValueResponse(FindValueResponse),
    StoreRequest(StoreRequest),
}

/// The kind of each message.
pub open spec fn spec_kind(m: KadMessage) -> KadMessageKind {
    match m {
        KadMessage::Handshake(_) => KadMessageKind::Handshake,
        KadMessage::FindNodeRequest(_) => KadMessageKind::FindNodeRequest,
        KadMessage::FindNodeResponse(_) => KadMessageKind::FindNodeResponse,
        KadMessage::FindValueRequest(_) => KadMessageKind::FindValueRequest,
        KadMessage::FindValueResponse(_) => KadMessageKind::FindValueResponse,
        KadMessage::StoreRequest(_) => KadMessageKind::StoreRequest,
    }
}

/// The bytes of each message.
pub open spec fn spec_wire(m: KadMessage) -> Seq<u8> {
    match m {
        KadMessage::Handshake(x) => x.wire(),
        KadMessage::FindNodeRequest(x) => x.wire(),
        KadMessage::FindNodeResponse(x) => x.wire(),
        KadMessage::FindValueRequest(x) => x.wire(),
        KadMessage::FindValueResponse(x) => x.wire(),
        KadMessage::StoreRequest(x) => x.wire(),
    }
}

/// True when each length in the message fits the field that carries it.
pub open spec fn spec_sendable(m: KadMessage) -> bool {
    match m {
        KadMessage::FindNodeResponse(x) => x.peers@.len() <= u32::MAX,
        KadMessage::FindValueResponse(x) => x.peers@.len() <= u32::MAX && (x.value.is_some()
            ==> x.value.unwrap()@.len() <= u32::MAX),
        KadMessage::StoreRequest(x) => x.value@.len() <= u32::MAX,
        _ => true,
    }
}

/// True when `buf` is long enough to hold a message of `kind`.
pub open spec fn spec_fits(kind: KadMessageKind, buf: Seq<u8>) -> bool {
    match kind {
        KadMessageKind::Handshake => Handshake::fits(buf),
        KadMessageKind::FindNodeRequest => FindNodeRequest::fits(buf),
        KadMessageKind::FindNodeResponse => FindNodeResponse::fits(buf),
        KadMessageKind::FindValueRequest => FindValueRequest::fits(buf),
        KadMessageKind::FindValueResponse => FindValueResponse::fits(buf),
        KadMessageKind::StoreRequest => StoreRequest::fits(buf),
    }
}

/// True when `m` is the message of its kind that the start of `buf` holds.
pub open spec fn spec_read_from(m: KadMessage, buf: Seq<u8>) -> bool {
    match m {
        KadMessage::Handshake(x) => x.read_from(buf),
        KadMessage::FindNodeRequest(x) => x.read_from(buf),
        KadMessage::FindNodeResponse(x) => x.read_from(buf),
        KadMessage::FindValueRequest(x) => x.read_from(buf),
        KadMessage::FindValueResponse(x) => x.read_from(buf),
        KadMessage::StoreRequest(x) => x.read_from(buf),
    }
}

impl KadMessage {
    pub fn kind(&self) -> (r: KadMessageKind)
        ensures
            r == spec_kind(*self),
    {
        match self {
            KadMessage::Handshake(_) => KadMessageKind::Handshake,
            KadMessage::FindNodeRequest(_) => KadMessageKind::FindNodeRequest,
            KadMessage::FindNodeResponse(_) => KadMessageKind::FindNodeResponse,
            KadMessage::FindValueRequest(_) => KadMessageKind::FindValueRequest,
            KadMessage::FindValueResponse(_) => KadMessageKind::FindValueResponse,
            KadMessage::StoreRequest(_) => KadMessageKind::StoreRequest,
        }
    }

    /// Appends the bytes of the message, unless a length in it does not
    /// fit its field.
    pub fn serialize(&self, buf: &mut Vec<u8>) -> (r: Result<(), WireError>)
        ensures
            r.is_err() <==> !spec_sendable(*self),
            r.is_err() ==> r == Err::<(), WireError>(WireError::TooLong) && final(buf)@ == old(buf)@,
            r.is_ok() ==> final(buf)@ == old(buf)@ + spec_wire(*self),
    {
        match self {
            KadMessage::Handshake(x) => {
                x.serialize(buf);
                Ok(())
            },
            KadMessage::FindNodeRequest(x) => {
                x.serialize(buf);
                Ok(())
            },
            KadMessage::FindNodeResponse(x) => x.serialize(buf),
            KadMessage::FindValueRequest(x) => {
                x.serialize(buf);
                Ok(())
            },
            KadMessage::FindValueResponse(x) => x.serialize(buf),
            KadMessage::StoreRequest(x) => x.serialize(buf),
        }
    }

    /// Reads the message of `kind` that `buf` holds.
    pub fn deserialize(kind: KadMessageKind, buf: &Vec<u8>) -> (r: Result<Self, WireError>)
        ensures
            r.is_ok() <==> spec_fits(kind, buf@),
            r.is_err() ==> r == Err::<Self, WireError>(WireError::Truncated),
            r.is_ok() ==> spec_kind(r.unwrap()) == kind && spec_read_from(r.unwrap(), buf@),
    {
        match kind {
            KadMessageKind::Handshake => match Handshake::deserialize(buf) {
                Ok(x) => Ok(KadMessage::Handshake(x)),
                Err(e) => Err(e),
            },
            KadMessageKind::FindNodeRequest => match FindNodeRequest::deserialize(buf) {
                Ok(x) => Ok(KadMessage::FindNodeRequest(x)),
                Err(e) => Err(e),
            },
            KadMessageKind::FindNodeResponse => match FindNodeResponse::deserialize(buf) {
                Ok(x) => Ok(KadMessage::FindNodeResponse(x)),
                Err(e) => Err(e),
            },
            KadMessageKind::FindValueRequest => match FindValueRequest::deserialize(buf) {
                Ok(x) => Ok(KadMessage::FindValueRequest(x)),
                Err(e) => Err(e),
            },
            KadMessageKind::FindValueResponse => match FindValueResponse::deserialize(buf) {
                Ok(x) => Ok(KadMessage::FindValueResponse(x)),
                Err(e) => Err(e),
            },
            KadMessageKind::StoreRequest => match StoreRequest::deserialize(buf) {
                Ok(x) => Ok(KadMessage::StoreRequest(x)),
                Err(e) => Err(e),
            },
        }
    }
}

/// What the node asks its runtime to do.
#[derive(Debug)]
pub enum NodeAction {
    /// Listen for connections at this address.
    CreateChannel { listen: HostAddr },
    /// Open a connection to this host, unless there is one.
    Connect(HostAddr),
    /// Send a message to this host.
    Send { host: HostAddr, message: KadMessage },
    /// Fire the timer after `delay_ms` and then every `interval_ms`.
    StartPeriodicTimer { delay_ms: u64, interval_ms: u64 },
}

/// What the lookups of a node work on: its routing table, its address
/// book, the actions that wait for the runtime and the outcomes of the
/// lookups that are over.
#[derive(Debug)]
pub struct NodeState {
    pub routing_table: RoutingTable,
    pub address_book: AddrBook,
    pub outbox: Vec<NodeAction>,
    pub query_results: Vec<QueryResult>,
}

/// What the actions of a lookup change in a node, as mathematical values:
/// the two directions of the address book, the actions that wait and the
/// outcomes that are kept.
pub struct NodeModel {
    pub hosts: Map<Seq<u8>, HostAddr>,
    pub ids: Map<HostAddr, KadID>,
    pub outbox: Seq<NodeAction>,
    pub results: Seq<QueryResult>,
}

/// The node after it has noted the address of `peer`.
pub open spec fn discover_model(m: NodeModel, peer: Peer) -> NodeModel {
    NodeModel {
        hosts: m.hosts.insert(peer.id@, peer.addr),
        ids: m.ids.insert(peer.addr, peer.id),
        outbox: m.outbox,
        results: m.results,
    }
}

/// The node after `message` was to go to `peer`: with a known address a
/// connection is asked for and the message queued, else nothing happens.
pub open spec fn send_model(m: NodeModel, peer: Seq<u8>, message: KadMessage) -> NodeModel {
    if m.hosts.dom().contains(peer) {
        NodeModel {
            hosts: m.hosts,
            ids: m.ids,
            outbox: m.outbox.push(NodeAction::Connect(m.hosts[peer])).push(
                NodeAction::Send { host: m.hosts[peer], message },
            ),
            results: m.results,
        }
    } else {
        m
    }
}

/// The node after it has kept the outcome `result`.
pub open spec fn result_model(m: NodeModel, result: QueryResult) -> NodeModel {
    NodeModel { hosts: m.hosts, ids: m.ids, outbox: m.outbox, results: m.results.push(result) }
}

/// The node after one action of the lookup `qid`.
pub open spec fn apply_one(m: NodeModel, qid: QueryID, action: QueryAction) -> NodeModel {
    match action {
        QueryAction::Discover(peer) => discover_model(m, peer),
        QueryAction::SendFindNode { peer, target } => send_model(
            m,
            peer@,
            KadMessage::FindNodeRequest(FindNodeRequest { context: qid.raw, target }),
        ),
        QueryAction::SendFindValue { peer, target } => send_model(
            m,
            peer@,
            KadMessage::FindValueRequest(FindValueRequest { context: qid.raw, key: target }),
        ),
        QueryAction::Finished(result) => result_model(m, QueryResult { query_id: qid, result }),
    }
}

/// The node after the actions of the lookup `qid`, one after the other.
pub open spec fn apply_all(m: NodeModel, qid: QueryID, actions: Seq<QueryAction>) -> NodeModel
    decreases actions.len(),
{
    if actions.len() == 0 {
        m
    } else {
        apply_all(apply_one(m, qid, actions[0]), qid, actions.skip(1))
    }
}

impl NodeState {
    /// The state as mathematical values.
    pub open spec fn model(&self) -> NodeModel {
        NodeModel {
            hosts: self.address_book.host_map(),
            ids: self.address_book.id_map(),
            outbox: self.outbox@,
            results: self.query_results@,
        }
    }

    /// Asks for a connection to the host of `peer` and queues `message`
    /// for it; a peer without a known address gets nothing.
    fn send_to(&mut self, peer: &KadID, message: KadMessage)
        requires
            old(self).routing_table.wf(),
            old(self).address_book.wf(),
        ensures
            final(self).routing_table == old(self).routing_table,
            final(self).address_book == old(self).address_book,
            final(self).query_results == old(self).query_results,
            final(self).model() == send_model(old(self).model(), peer@, message),
    {
        match self.address_book.id_to_host(peer) {
            Some(host) => {
                self.outbox.push(NodeAction::Connect(host));
                self.outbox.push(NodeAction::Send { host, message });
            },
            None => {},
        }
    }
}

impl NodeState {
    /// The table and the book are valid.
    pub open spec fn ready(&self) -> bool {
        self.routing_table.wf() && self.address_book.wf()
    }

    /// Notes the address of a peer that an answer has named.
    pub fn discover(&mut self, peer: &Peer)
        requires
            old(self).ready(),
        ensures
            final(self).ready(),
            final(self).routing_table == old(self).routing_table,
            final(self).model() == discover_model(old(self).model(), *peer),
    {
        self.address_book.insert_peer(peer);
    }

    /// The peers to start a lookup for `target` from: the nearest that
    /// the routing table finds.
    pub fn find_closest(&self, target: &KadID) -> (r: Vec<Peer>)
        requires
            self.ready(),
        ensures
            is_closest(
                r@,
                self.routing_table.candidates(target@),
                target@,
                self.routing_table.capacity(),
            ),
    {
        self.routing_table.closest(target)
    }

    /// Queues a FIND_NODE request for `target` to `peer`, if its address is
    /// known: a connection to the peer's host is asked for, and the request
    /// with the lookup's handle as its context waits behind it.
    pub fn send_find_node(&mut self, qid: QueryID, peer: &KadID, target: &KadID)
        requires
            old(self).ready(),
        ensures
            final(self).ready(),
            final(self).routing_table == old(self).routing_table,
            final(self).address_book == old(self).address_book,
            final(self).model() == send_model(
                old(self).model(),
                peer@,
                KadMessage::FindNodeRequest(FindNodeRequest { context: qid.raw, target: *target }),
            ),
    {
        self.send_to(peer, KadMessage::FindNodeRequest(FindNodeRequest::new(qid.raw, *target)));
    }

    /// Queues a FIND_VALUE request for `target` to `peer`, if its address
    /// is known: a connection to the peer's host is asked for, and the
    /// request with the lookup's handle as its context waits behind it.
    pub fn send_find_value(&mut self, qid: QueryID, peer: &KadID, target: &KadID)
        requires
            old(self).ready(),
        ensures
            final(self).ready(),
            final(self).routing_table == old(self).routing_table,
            final(self).address_book == old(self).address_book,
            final(self).model() == send_model(
                old(self).model(),
                peer@,
                KadMessage::FindValueRequest(FindValueRequest { context: qid.raw, key: *target }),
            ),
    {
        self.send_to(peer, KadMessage::FindValueRequest(FindValueRequest::new(qid.raw, *target)));
    }

    /// Keeps the outcome of a lookup.
    pub fn query_result(&mut self, result: QueryResult)
        requires
            old(self).ready(),
        ensures
            final(self).ready(),
            final(self).routing_table == old(self).routing_table,
            final(self).address_book == old(self).address_book,
            final(self).model() == result_model(old(self).model(), result),
    {
        self.query_results.push(result);
    }
}

/// A node of the network: it answers the requests of its peers, keeps its
/// routing table and address book, and looks up nodes and values.
pub struct Kademlia {
    pub local_id: KadID,
    pub params: KadParams,
    pub state: NodeState,
    pub query_manager: QueryManager,
    pub listen_addr: HostAddr,
    pub bootstrap: Option<HostAddr>,
}

/// The identity of the node and its routing table are as before.
pub open spec fn frame_kept(pre: &Kademlia, post: &Kademlia) -> bool {
    &&& post.local_id == pre.local_id
    &&& post.params == pre.params
    &&& post.listen_addr == pre.listen_addr
    &&& post.bootstrap == pre.bootstrap
    &&& post.state.routing_table == pre.state.routing_table
}

/// How the node stands after the peer at `host` has introduced itself:
/// the node calls it back, has noted its address and has offered it to the
/// routing table.
pub open spec fn handshake_taken(pre: &Kademlia, post: &Kademlia, host: HostAddr, msg: Handshake) -> bool {
    &&& post.query_manager == pre.query_manager
    &&& post.state.outbox@ == pre.state.outbox@.push(NodeAction::Connect(host))
    &&& post.state.query_results == pre.state.query_results
    &&& post.state.address_book.host_map() == pre.state.address_book.host_map().insert(
        msg.id@,
        host,
    )
    &&& post.state.address_book.id_map() == pre.state.address_book.id_map().insert(host, msg.id)
    &&& post.state.routing_table.buckets() == spec_insert(
        pre.state.routing_table.buckets(),
        pre.local_id@,
        pre.params.k as nat,
        Peer { id: msg.id, addr: host },
    ).0
}

/// How the node stands after the peer at `host` has asked for nodes: one
/// more action waits, the answer to that host with the context of the
/// request and the nearest peers that the routing table finds for the target.
pub open spec fn node_request_answered(
    pre: &Kademlia,
    post: &Kademlia,
    host: HostAddr,
    msg: FindNodeRequest,
) -> bool {
    &&& post.only_outbox_changed(pre)
    &&& post.state.outbox@.len() == pre.state.outbox@.len() + 1
    &&& post.state.outbox@.drop_last() == pre.state.outbox@
    &&& match post.state.outbox@.last() {
        NodeAction::Send { host: to, message: KadMessage::FindNodeResponse(answer) } => to == host
            && answer.context == msg.context && is_closest(
            answer.peers@,
            pre.state.routing_table.candidates(msg.target@),
            msg.target@,
            pre.params.k as nat,
        ),
        _ => false,
    }
}

/// How the node stands after the peer at `host` has asked for a value: one
/// more action waits, the answer to that host with the context of the
/// request, no value, and the nearest peers that the routing table finds
/// for the key.
pub open spec fn value_request_answered(
    pre: &Kademlia,
    post: &Kademlia,
    host: HostAddr,
    msg: FindValueRequest,
) -> bool {
    &&& post.only_outbox_changed(pre)
    &&& post.state.outbox@.len() == pre.state.outbox@.len() + 1
    &&& post.state.outbox@.drop_last() == pre.state.outbox@
    &&& match post.state.outbox@.last() {
        NodeAction::Send { host: to, message: KadMessage::FindValueResponse(answer) } => to == host
            && answer.context == msg.context && answer.value.is_none() && is_closest(
            answer.peers@,
            pre.state.routing_table.candidates(msg.key@),
            msg.key@,
            pre.params.k as nat,
        ),
        _ => false,
    }
}

/// How the node stands after the peer at `host` has answered the lookup of
/// `kind` with the handle `context`. An answer from a host that the address
/// book does not know changes nothing. Else the lookups have taken the
/// answer of the peer recorded for that host, and the actions of the lookup
/// are carried out: discoveries are in the address book, requests wait for
/// the hosts of their peers, the outcome is kept.
pub open spec fn response_taken(
    pre: &Kademlia,
    post: &Kademlia,
    kind: QueryKind,
    host: HostAddr,
    context: u64,
    value: Option<Seq<u8>>,
    peers: Seq<Peer>,
    now: u64,
) -> bool {
    &&& frame_kept(pre, post)
    &&& match pre.state.address_book.id_of(host) {
        None => post.state == pre.state && post.query_manager.queries()
            == pre.query_manager.queries(),
        Some(peer) => exists|out: Seq<QueryAction>|
            #![trigger apply_all(pre.state.model(), QueryID { raw: context }, out)]
            post.state.model() == apply_all(pre.state.model(), QueryID { raw: context }, out)
                && (match value {
                None => answer_taken(
                    pre.query_manager.queries(),
                    post.query_manager.queries(),
                    kind,
                    context,
                    peer,
                    peers,
                    now,
                    Seq::empty(),
                    effects(out),
                ),
                Some(v) => value_taken(
                    pre.query_manager.queries(),
                    post.query_manager.queries(),
                    context,
                    peer,
                    peers,
                    v,
                    Seq::empty(),
                    effects(out),
                ),
            }),
    }
}

/// How the lookups and the node stand after the requests of the lookup
/// with the handle `raw` that have waited too long have failed and the
/// actions that follow are carried out.
pub open spec fn node_expired(
    queries: Map<u64, Query>,
    m: NodeModel,
    raw: u64,
    now: u64,
    queries_after: Map<u64, Query>,
    m_after: NodeModel,
) -> bool {
    exists|out: Seq<QueryAction>|
        #![trigger apply_all(m, QueryID { raw }, out)]
        expire_taken(queries, queries_after, raw, now, Seq::empty(), effects(out)) && m_after
            == apply_all(m, QueryID { raw }, out)
}

/// The same for each lookup that `keys` names, in the order of `keys`.
pub open spec fn node_expired_each(
    queries: Map<u64, Query>,
    m: NodeModel,
    keys: Seq<u64>,
    now: u64,
    queries_after: Map<u64, Query>,
    m_after: NodeModel,
) -> bool
    decreases keys.len(),
{
    if keys.len() == 0 {
        queries_after == queries && m_after == m
    } else {
        exists|queries_mid: Map<u64, Query>, m_mid: NodeModel|
            #![trigger node_expired(queries_mid, m_mid, keys.last(), now, queries_after, m_after)]
            node_expired_each(queries, m, keys.drop_last(), now, queries_mid, m_mid)
                && node_expired(queries_mid, m_mid, keys.last(), now, queries_after, m_after)
    }
}

/// How the lookups and the node stand after a lookup of the node's own
/// identifier was asked for with `seeds`: unless the collection of lookups
/// is full, the lookup has started and its first actions are carried out.
pub open spec fn refresh_started(
    pre: &Kademlia,
    seeds: Seq<Peer>,
    now: u64,
    queries_after: Map<u64, Query>,
    m_after: NodeModel,
) -> bool {
    exists|r: Option<QueryID>, out: Seq<QueryAction>|
        #![trigger start_taken(pre.query_manager.queries(), queries_after, pre.query_manager.count(), pre.params, pre.local_id@, QueryDescriptor { kind: QueryKind::FindNode, target: pre.local_id }, seeds, now, r, Seq::empty(), effects(out))]
        start_taken(
            pre.query_manager.queries(),
            queries_after,
            pre.query_manager.count(),
            pre.params,
            pre.local_id@,
            QueryDescriptor { kind: QueryKind::FindNode, target: pre.local_id },
            seeds,
            now,
            r,
            Seq::empty(),
            effects(out),
        ) && m_after == (match r {
            Some(qid) => apply_all(pre.state.model(), qid, out),
            None => pre.state.model(),
        })
}

/// How the node stands after the refresh timer has fired at time `now`: a
/// lookup of the node's own identifier has started from the nearest peers
/// that the routing table finds for it, and then, in every live lookup,
/// one after the other, the requests that have waited too long have
/// failed; the actions of each step are carried out.
pub open spec fn timer_taken(pre: &Kademlia, post: &Kademlia, now: u64) -> bool {
    &&& frame_kept(pre, post)
    &&& exists|seeds: Seq<Peer>, queries_mid: Map<u64, Query>, m_mid: NodeModel, keys: Seq<u64>|
        #![trigger refresh_started(pre, seeds, now, queries_mid, m_mid), node_expired_each(queries_mid, m_mid, keys, now, post.query_manager.queries(), post.state.model())]
        is_closest(
            seeds,
            pre.state.routing_table.candidates(pre.local_id@),
            pre.local_id@,
            pre.params.k as nat,
        ) && refresh_started(pre, seeds, now, queries_mid, m_mid) && (forall|k: u64|
            keys.contains(k) <==> queries_mid.dom().contains(k)) && node_expired_each(
            queries_mid,
            m_mid,
            keys,
            now,
            post.query_manager.queries(),
            post.state.model(),
        )
}

/// How the node stands after `message` has come from `host`: as the
/// handler of the message's kind leaves it.
pub open spec fn message_taken(
    pre: &Kademlia,
    post: &Kademlia,
    host: HostAddr,
    message: KadMessage,
    now: u64,
) -> bool {
    match message {
        KadMessage::Handshake(m) => handshake_taken(pre, post, host, m),
        KadMessage::FindNodeRequest(m) => node_request_answered(pre, post, host, m),
        KadMessage::FindNodeResponse(m) => response_taken(
            pre,
            post,
            QueryKind::FindNode,
            host,
            m.context,
            None,
            m.peers@,
            now,
        ),
        KadMessage::FindValueRequest(m) => value_request_answered(pre, post, host, m),
        KadMessage::FindValueResponse(m) => response_taken(
            pre,
            post,
            QueryKind::FindValue,
            host,
            m.context,
            value_view(m.value),
            m.peers@,
            now,
        ),
        KadMessage::StoreRequest(_) => *post == *pre,
    }
}

impl Kademlia {
    /// The parts of the node are valid and belong together.
    pub open spec fn wf(&self) -> bool {
        &&& self.state.routing_table.wf()
        &&& self.state.address_book.wf()
        &&& self.query_manager.wf()
        &&& self.state.routing_table.local() == self.local_id@
        &&& self.state.routing_table.capacity() == self.params.k
        &&& self.query_manager.params() == self.params
        &&& self.query_manager.local() == self.local_id@
    }

    /// Everything but the outbox is as in `other`.
    pub open spec fn only_outbox_changed(&self, other: &Kademlia) -> bool {
        &&& self.local_id == other.local_id
        &&& self.params == other.params
        &&& self.state.routing_table == other.state.routing_table
        &&& self.state.address_book == other.state.address_book
        &&& self.state.query_results == other.state.query_results
        &&& self.query_manager == other.query_manager
        &&& self.listen_addr == other.listen_addr
        &&& self.bootstrap == other.bootstrap
    }

    /// A node with a random identifier.
    pub fn new(params: KadParams, listen_addr: HostAddr, bootstrap: Option<HostAddr>) -> (r: Self)
        ensures
            r.wf(),
            r.params == params,
            r.listen_addr == listen_addr,
            r.bootstrap == bootstrap,
            r.state.outbox@.len() == 0,
    {
        Self::with_id(KadID::random(), params, listen_addr, bootstrap)
    }

    /// A node with the identifier `local_id`: an empty routing table, an
    /// empty address book, no lookups.
    pub fn with_id(
        local_id: KadID,
        params: KadParams,
        listen_addr: HostAddr,
        bootstrap: Option<HostAddr>,
    ) -> (r: Self)
        ensures
            r.wf(),
            r.local_id == local_id,
            r.params == params,
            r.listen_addr == listen_addr,
            r.bootstrap == bootstrap,
            r.state.routing_table.buckets() == seq![Seq::<Peer>::empty()],
            r.state.outbox@.len() == 0,
            r.state.query_results@.len() == 0,
            r.query_manager.count() == 0,
    {
        Self {
            local_id,
            params,
            state: NodeState {
                routing_table: RoutingTable::new(params.k, local_id),
                address_book: AddrBook::new(),
                outbox: Vec::new(),
                query_results: Vec::new(),
            },
            query_manager: QueryManager::new(params, local_id),
            listen_addr,
            bootstrap,
        }
    }

    /// Starts the node: it listens, calls its bootstrap host if it has
    /// one, and starts the refresh timer.
    pub fn init(&mut self)
        requires
            old(self).wf(),
        ensures
            final(self).wf(),
            final(self).only_outbox_changed(old(self)),
            final(self).state.outbox@ == (if old(self).bootstrap.is_some() {
                old(self).state.outbox@.push(
                    NodeAction::CreateChannel { listen: old(self).listen_addr },
                ).push(NodeAction::Connect(old(self).bootstrap.unwrap())).push(
                    NodeAction::StartPeriodicTimer {
                        delay_ms: REFRESH_DELAY_MS,
                        interval_ms: REFRESH_INTERVAL_MS,
                    },
                )
            } else {
                old(self).state.outbox@.push(
                    NodeAction::CreateChannel { listen: old(self).listen_addr },
                ).push(
                    NodeAction::StartPeriodicTimer {
                        delay_ms: REFRESH_DELAY_MS,
                        interval_ms: REFRESH_INTERVAL_MS,
                    },
                )
            }),
    {
        self.state.outbox.push(NodeAction::CreateChannel { listen: self.listen_addr });
        match self.bootstrap {
            Some(host) => {
                self.state.outbox.push(NodeAction::Connect(host));
            },
            None => {},
        }
        self.state.outbox.push(
            NodeAction::StartPeriodicTimer {
                delay_ms: REFRESH_DELAY_MS,
                interval_ms: REFRESH_INTERVAL_MS,
            },
        );
    }

    /// The refresh: a lookup of the node's own identifier starts from the
    /// nearest peers that the routing table finds, and then the requests
    /// that have waited too long fail in every live lookup.
    pub fn on_timer(&mut self, now: u64)
        requires
            old(self).wf(),
        ensures
            final(self).wf(),
            timer_taken(old(self), final(self), now),
    {
        let descriptor = QueryDescriptor::new(QueryKind::FindNode, self.local_id);
        let seeds = self.state.routing_table.closest(&self.local_id);
        let mut out: Vec<QueryAction> = Vec::new();
        assert(effects(out@) =~= Seq::<QueryEffect>::empty());
        let started = self.query_manager.begin(descriptor, &seeds, now, &mut out);
        let ghost first = out@;
        match started {
            Some(qid) => self.apply(qid, out),
            None => {},
        }
        let ghost queries_mid = self.query_manager.queries();
        let ghost m_mid = self.state.model();
        proof {
            assert(descriptor == (QueryDescriptor {
                kind: QueryKind::FindNode,
                target: old(self).local_id,
            }));
            assert(start_taken(
                old(self).query_manager.queries(),
                queries_mid,
                old(self).query_manager.count(),
                old(self).params,
                old(self).local_id@,
                QueryDescriptor { kind: QueryKind::FindNode, target: old(self).local_id },
                seeds@,
                now,
                started,
                Seq::empty(),
                effects(first),
            ));
            assert(refresh_started(old(self), seeds@, now, queries_mid, m_mid));
        }
        let ids = self.query_manager.ids();
        let ghost keys = Seq::new(ids@.len(), |j: int| ids@[j].raw);
        proof {
            assert forall|k: u64| keys.contains(k) <==> queries_mid.dom().contains(k) by {
                if keys.contains(k) {
                    let j = choose|j: int| 0 <= j < keys.len() && keys[j] == k;
                    assert(ids@[j] == QueryID { raw: k });
                    assert(ids@.contains(QueryID { raw: k }));
                }
                if queries_mid.dom().contains(k) {
                    assert(ids@.contains(QueryID { raw: k }));
                    let j = choose|j: int| 0 <= j < ids@.len() && ids@[j] == QueryID { raw: k };
                    assert(keys[j] == k);
                }
            }
            assert(keys.take(0) =~= Seq::<u64>::empty());
        }
        let mut i: usize = 0;
        while i < ids.len()
            invariant
                i <= ids@.len(),
                self.wf(),
                frame_kept(old(self), self),
                keys == Seq::new(ids@.len(), |j: int| ids@[j].raw),
                node_expired_each(
                    queries_mid,
                    m_mid,
                    keys.take(i as int),
                    now,
                    self.query_manager.queries(),
                    self.state.model(),
                ),
            decreases ids@.len() - i,
        {
            let mut out: Vec<QueryAction> = Vec::new();
            let ghost queries_before = self.query_manager.queries();
            let ghost m_before = self.state.model();
            assert(effects(out@) =~= Seq::<QueryEffect>::empty());
            let _ = self.query_manager.expire(ids[i], now, &mut out);
            let ghost acts = out@;
            self.apply(ids[i], out);
            proof {
                let done = keys.take(i + 1);
                assert(done.drop_last() =~= keys.take(i as int));
                assert(done.last() == ids@[i as int].raw);
                assert(ids@[i as int] == QueryID { raw: done.last() });
                assert(self.state.model() == apply_all(
                    m_before,
                    QueryID { raw: done.last() },
                    acts,
                ));
                assert(node_expired(
                    queries_before,
                    m_before,
                    done.last(),
                    now,
                    self.query_manager.queries(),
                    self.state.model(),
                ));
            }
            i += 1;
        }
        proof {
            assert(keys.take(i as int) =~= keys);
        }
    }

    /// A connection came up, went down or failed. On a connection that
    /// this node opened it introduces itself; a peer whose connection is
    /// lost leaves the routing table.
    pub fn on_connection_event(
        &mut self,
        host: HostAddr,
        direction: ConnectionDirection,
        kind: ConnectionEventKind,
    )
        requires
            old(self).wf(),
        ensures
            final(self).wf(),
            final(self).state.address_book == old(self).state.address_book,
            final(self).query_manager == old(self).query_manager,
            kind == ConnectionEventKind::ConnectionUp ==> final(self).state.routing_table == old(self).state.routing_table && final(self).state.outbox@ == (if direction
                == ConnectionDirection::Outgoing {
                old(self).state.outbox@.push(
                    NodeAction::Send {
                        host,
                        message: KadMessage::Handshake(Handshake { id: old(self).local_id }),
                    },
                )
            } else {
                old(self).state.outbox@
            }),
            kind != ConnectionEventKind::ConnectionUp ==> final(self).state.outbox@ == old(self).state.outbox@ && (old(self).state.address_book.id_of(host).is_none() ==> final(self).state.routing_table.buckets() == old(self).state.routing_table.buckets()) && (old(self).state.address_book.id_of(host).is_some() ==> forall|other: Seq<u8>|
                table_contains(final(self).state.routing_table.buckets(), other) <==> (
                table_contains(old(self).state.routing_table.buckets(), other) && other != old(self).state.address_book.id_of(host).unwrap()@)),
    {
        match kind {
            ConnectionEventKind::ConnectionUp => {
                if direction == ConnectionDirection::Outgoing {
                    let handshake = Handshake::new(self.local_id);
                    self.state.outbox.push(
                        NodeAction::Send { host, message: KadMessage::Handshake(handshake) },
                    );
                }
            },
            _ => {
                match self.state.address_book.host_to_id(&host) {
                    Some(peer_id) => {
                        let _ = self.state.routing_table.remove(&peer_id);
                    },
                    None => {},
                }
            },
        }
    }

    /// A peer introduces itself: the node calls it back, notes its
    /// address and offers it to the routing table.
    pub fn on_handshake(&mut self, host: HostAddr, msg: Handshake)
        requires
            old(self).wf(),
        ensures
            final(self).wf(),
            handshake_taken(old(self), final(self), host, msg),
    {
        self.state.outbox.push(NodeAction::Connect(host));
        self.state.address_book.insert(msg.id, host);
        let _ = self.state.routing_table.insert(Peer::new(msg.id, host));
    }

    /// A peer asks for nodes: the answer names the nearest peers that the
    /// routing table finds for the target.
    pub fn on_find_node_request(&mut self, host: HostAddr, msg: FindNodeRequest)
        requires
            old(self).wf(),
        ensures
            final(self).wf(),
            node_request_answered(old(self), final(self), host, msg),
    {
        let closest = self.state.routing_table.closest(&msg.target);
        let answer = FindNodeResponse::new(msg.context, closest);
        self.state.outbox.push(
            NodeAction::Send { host, message: KadMessage::FindNodeResponse(answer) },
        );
        assert(self.state.outbox@.drop_last() =~= old(self).state.outbox@);
    }

    /// A peer answers a FIND_NODE request. The answer is dropped unless
    /// the address book knows who is calling.
    pub fn on_find_node_response(&mut self, host: HostAddr, msg: FindNodeResponse, now: u64)
        requires
            old(self).wf(),
        ensures
            final(self).wf(),
            final(self).query_manager.others_kept(
                &old(self).query_manager,
                crate::query_manager::key_norm(msg.context),
            ),
            response_taken(
                old(self),
                final(self),
                QueryKind::FindNode,
                host,
                msg.context,
                None,
                msg.peers@,
                now,
            ),
    {
        let peer_id = match self.state.address_book.host_to_id(&host) {
            Some(id) => id,
            None => {
                return ;
            },
        };
        let qid = QueryID::from_u64(msg.context);
        let mut out: Vec<QueryAction> = Vec::new();
        assert(effects(out@) =~= Seq::<QueryEffect>::empty());
        let _ = self.query_manager.respond_find_node(qid, peer_id, msg.peers, now, &mut out);
        let ghost acts = out@;
        self.apply(qid, out);
        proof {
            assert(qid == QueryID { raw: msg.context });
            assert(self.state.model() == apply_all(
                old(self).state.model(),
                QueryID { raw: msg.context },
                acts,
            ));
        }
    }

    /// A peer asks for a value: the node stores none, so the answer names
    /// the nearest peers that the routing table finds for the key.
    pub fn on_find_value_request(&mut self, host: HostAddr, msg: FindValueRequest)
        requires
            old(self).wf(),
        ensures
            final(self).wf(),
            value_request_answered(old(self), final(self), host, msg),
    {
        let closest = self.state.routing_table.closest(&msg.key);
        let answer = FindValueResponse::new(msg.context, None, closest);
        self.state.outbox.push(
            NodeAction::Send { host, message: KadMessage::FindValueResponse(answer) },
        );
        assert(self.state.outbox@.drop_last() =~= old(self).state.outbox@);
    }

    /// A peer answers a FIND_VALUE request. The answer is dropped unless
    /// the address book knows who is calling.
    pub fn on_find_value_response(&mut self, host: HostAddr, msg: FindValueResponse, now: u64)
        requires
            old(self).wf(),
        ensures
            final(self).wf(),
            final(self).query_manager.others_kept(
                &old(self).query_manager,
                crate::query_manager::key_norm(msg.context),
            ),
            response_taken(
                old(self),
                final(self),
                QueryKind::FindValue,
                host,
                msg.context,
                value_view(msg.value),
                msg.peers@,
                now,
            ),
    {
        let peer_id = match self.state.address_book.host_to_id(&host) {
            Some(id) => id,
            None => {
                return ;
            },
        };
        let qid = QueryID::from_u64(msg.context);
        let mut out: Vec<QueryAction> = Vec::new();
        assert(effects(out@) =~= Seq::<QueryEffect>::empty());
        let _ = self.query_manager.respond_find_value(
            qid,
            peer_id,
            msg.peers,
            msg.value,
            now,
            &mut out,
        );
        let ghost acts = out@;
        self.apply(qid, out);
        proof {
            assert(qid == QueryID { raw: msg.context });
            assert(self.state.model() == apply_all(
                old(self).state.model(),
                QueryID { raw: msg.context },
                acts,
            ));
        }
    }

    /// A peer asks the node to keep a value. The node keeps none.
    pub fn on_store_request(&mut self, host: HostAddr, msg: StoreRequest)
        ensures
            *final(self) == *old(self),
    {
    }

    /// Hands a message from `host` to the handler of its kind.
    pub fn on_message(&mut self, host: HostAddr, message: KadMessage, now: u64)
        requires
            old(self).wf(),
        ensures
            final(self).wf(),
            message_taken(old(self), final(self), host, message, now),
    {
        match message {
            KadMessage::Handshake(m) => self.on_handshake(host, m),
            KadMessage::FindNodeRequest(m) => self.on_find_node_request(host, m),
            KadMessage::FindNodeResponse(m) => self.on_find_node_response(host, m, now),
            KadMessage::FindValueRequest(m) => self.on_find_value_request(host, m),
            KadMessage::FindValueResponse(m) => self.on_find_value_response(host, m, now),
            KadMessage::StoreRequest(m) => self.on_store_request(host, m),
        }
    }

    /// The actions that wait for the runtime; none waits afterwards.
    pub fn take_actions(&mut self) -> (r: Vec<NodeAction>)
        ensures
            r@ == old(self).state.outbox@,
            final(self).state.outbox@.len() == 0,
            final(self).only_outbox_changed(old(self)),
    {
        let mut taken: Vec<NodeAction> = Vec::new();
        std::mem::swap(&mut taken, &mut self.state.outbox);
        taken
    }

    /// The outcomes of the lookups that are over; none is kept afterwards.
    pub fn take_results(&mut self) -> (r: Vec<QueryResult>)
        ensures
            r@ == old(self).state.query_results@,
            final(self).state.query_results@.len() == 0,
            final(self).state.routing_table == old(self).state.routing_table,
            final(self).state.address_book == old(self).state.address_book,
            final(self).state.outbox == old(self).state.outbox,
            final(self).query_manager == old(self).query_manager,
    {
        let mut taken: Vec<QueryResult> = Vec::new();
        std::mem::swap(&mut taken, &mut self.state.query_results);
        taken
    }

    /// Carries out the actions of the lookup `qid`, one after the other:
    /// a discovery goes to the address book, a request waits for the host
    /// of its peer if the address book knows it, an outcome is kept.
    fn apply(&mut self, qid: QueryID, actions: Vec<QueryAction>)
        requires
            old(self).state.routing_table.wf(),
            old(self).state.address_book.wf(),
        ensures
            final(self).state.routing_table == old(self).state.routing_table,
            final(self).state.address_book.wf(),
            final(self).query_manager == old(self).query_manager,
            final(self).local_id == old(self).local_id,
            final(self).params == old(self).params,
            final(self).listen_addr == old(self).listen_addr,
            final(self).bootstrap == old(self).bootstrap,
            final(self).state.model() == apply_all(old(self).state.model(), qid, actions@),
            actions@.len() == 0 ==> final(self).state == old(self).state,
    {
        let ghost all = actions@;
        let mut actions = actions;
        if actions.len() == 0 {
            return ;
        }
        while actions.len() > 0
            invariant
                self.state.routing_table == old(self).state.routing_table,
                self.state.routing_table.wf(),
                self.state.address_book.wf(),
                self.query_manager == old(self).query_manager,
                self.local_id == old(self).local_id,
                self.params == old(self).params,
                self.listen_addr == old(self).listen_addr,
                self.bootstrap == old(self).bootstrap,
                apply_all(self.state.model(), qid, actions@) == apply_all(
                    old(self).state.model(),
                    qid,
                    all,
                ),
            decreases actions@.len(),
        {
            let ghost rest = actions@;
            let ghost before = self.state.model();
            let action = actions.remove(0);
            proof {
                assert(actions@ =~= rest.skip(1));
                assert(action == rest[0]);
            }
            match action {
                QueryAction::Discover(peer) => self.state.discover(&peer),
                QueryAction::SendFindNode { peer, target } => self.state.send_find_node(
                    qid,
                    &peer,
                    &target,
                ),
                QueryAction::SendFindValue { peer, target } => self.state.send_find_value(
                    qid,
                    &peer,
                    &target,
                ),
                QueryAction::Finished(result) => self.state.query_result(
                    QueryResult { query_id: qid, result },
                ),
            }
            assert(self.state.model() == apply_one(before, qid, rest[0]));
        }
    }
}

} // verus!
