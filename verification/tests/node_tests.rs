use babel_kad::kad_id::KadID;
use babel_kad::message::FindNodeRequest;
use babel_kad::message::FindNodeResponse;
use babel_kad::message::FindValueRequest;
use babel_kad::message::FindValueResponse;
use babel_kad::message::Handshake;
use babel_kad::message::StoreRequest;
use babel_kad::node::KadMessage;
use babel_kad::node::Kademlia;
use babel_kad::node::NodeAction;
use babel_kad::node::REFRESH_DELAY_MS;
use babel_kad::node::REFRESH_INTERVAL_MS;
use babel_kad::peer::HostAddr;
use babel_kad::peer::Peer;
use babel_kad::protocol::ConnectionDirection;
use babel_kad::protocol::ConnectionEventKind;
use babel_kad::protocol::KadMessageKind;
use babel_kad::query::KadParams;
use babel_kad::query::QueryResultKind;

fn id_with(first: u8) -> KadID {
    let mut bytes = [0u8; 20];
    bytes[0] = first;
    KadID::new(bytes)
}

fn host(n: u8) -> HostAddr {
    HostAddr::new(0x0a00_0000 + n as u32, 7000)
}

fn node() -> Kademlia {
    Kademlia::with_id(id_with(0), KadParams::new(2, 1), host(0), Some(host(99)))
}

#[test]
fn init_listens_connects_to_bootstrap_and_starts_timer() {
    let mut n = node();
    n.init();
    let actions = n.take_actions();
    assert_eq!(actions.len(), 3);
    assert!(matches!(actions[0], NodeAction::CreateChannel { listen } if listen == host(0)));
    assert!(matches!(actions[1], NodeAction::Connect(h) if h == host(99)));
    assert!(matches!(
        actions[2],
        NodeAction::StartPeriodicTimer { delay_ms, interval_ms }
            if delay_ms == REFRESH_DELAY_MS && interval_ms == REFRESH_INTERVAL_MS
    ));
    assert!(n.take_actions().is_empty());
    let mut lonely = Kademlia::new(KadParams::new(2, 1), host(1), None);
    lonely.init();
    assert_eq!(lonely.take_actions().len(), 2);
}

#[test]
fn outgoing_connection_up_sends_handshake() {
    let mut n = node();
    n.on_connection_event(host(5), ConnectionDirection::Outgoing, ConnectionEventKind::ConnectionUp);
    let actions = n.take_actions();
    assert_eq!(actions.len(), 1);
    match &actions[0] {
        NodeAction::Send { host: to, message: KadMessage::Handshake(h) } => {
            assert_eq!(*to, host(5));
            assert!(h.id.same(&id_with(0)));
        }
        other => panic!("unexpected action {:?}", other),
    }
    n.on_connection_event(host(5), ConnectionDirection::Incoming, ConnectionEventKind::ConnectionUp);
    assert!(n.take_actions().is_empty());
}

#[test]
fn handshake_records_peer_and_lost_connection_removes_it() {
    let mut n = node();
    n.on_handshake(host(5), Handshake::new(id_with(0x80)));
    let actions = n.take_actions();
    assert!(matches!(actions[..], [NodeAction::Connect(h)] if h == host(5)));
    assert!(n.state.routing_table.contains(&id_with(0x80)));
    assert_eq!(n.state.address_book.id_to_host(&id_with(0x80)), Some(host(5)));
    n.on_connection_event(host(6), ConnectionDirection::Outgoing, ConnectionEventKind::ConnectionDown);
    assert!(n.state.routing_table.contains(&id_with(0x80)));
    n.on_connection_event(host(5), ConnectionDirection::Outgoing, ConnectionEventKind::ConnectionFailed);
    assert!(!n.state.routing_table.contains(&id_with(0x80)));
    assert_eq!(n.state.address_book.id_to_host(&id_with(0x80)), Some(host(5)));
}

#[test]
fn find_node_request_is_answered_with_closest_peers() {
    let mut n = node();
    n.on_handshake(host(1), Handshake::new(id_with(0x80)));
    n.on_handshake(host(2), Handshake::new(id_with(0x81)));
    n.take_actions();
    n.on_message(host(9), KadMessage::FindNodeRequest(FindNodeRequest::new(77, id_with(0x81))), 0);
    let actions = n.take_actions();
    assert_eq!(actions.len(), 1);
    match &actions[0] {
        NodeAction::Send { host: to, message: KadMessage::FindNodeResponse(r) } => {
            assert_eq!(*to, host(9));
            assert_eq!(r.context, 77);
            let firsts: Vec<u8> = r.peers.iter().map(|p| p.id.0[0]).collect();
            assert_eq!(firsts, vec![0x81, 0x80]);
            assert_eq!(r.peers[0].addr, host(2));
        }
        other => panic!("unexpected action {:?}", other),
    }
}

#[test]
fn find_value_request_is_answered_without_value() {
    let mut n = node();
    n.on_handshake(host(1), Handshake::new(id_with(0x80)));
    n.take_actions();
    n.on_find_value_request(host(9), FindValueRequest::new(5, id_with(1)));
    let actions = n.take_actions();
    match &actions[0] {
        NodeAction::Send { host: to, message: KadMessage::FindValueResponse(r) } => {
            assert_eq!(*to, host(9));
            assert_eq!(r.context, 5);
            assert!(r.value.is_none());
            assert_eq!(r.peers.len(), 1);
        }
        other => panic!("unexpected action {:?}", other),
    }
}

#[test]
fn timer_starts_self_lookup_and_response_ends_it() {
    let mut n = node();
    n.on_timer(0);
    let results = n.take_results();
    assert_eq!(results.len(), 1);
    assert!(matches!(&results[0].result, QueryResultKind::FindNode { closest } if closest.is_empty()));
    assert!(n.take_actions().is_empty());

    n.on_handshake(host(1), Handshake::new(id_with(0x80)));
    n.take_actions();
    n.on_timer(10);
    let actions = n.take_actions();
    assert_eq!(actions.len(), 2);
    assert!(matches!(actions[0], NodeAction::Connect(h) if h == host(1)));
    let context = match &actions[1] {
        NodeAction::Send { host: to, message: KadMessage::FindNodeRequest(r) } => {
            assert_eq!(*to, host(1));
            assert!(r.target.same(&id_with(0)));
            r.context
        }
        other => panic!("unexpected action {:?}", other),
    };
    assert_eq!(n.query_manager.len(), 1);
    n.on_find_node_response(host(77), FindNodeResponse::new(context, vec![]), 20);
    assert_eq!(n.query_manager.len(), 1);
    let answer = FindNodeResponse::new(context, vec![Peer::new(id_with(0x40), host(2))]);
    n.on_find_node_response(host(1), answer, 20);
    let actions = n.take_actions();
    assert_eq!(actions.len(), 2);
    assert!(matches!(actions[0], NodeAction::Connect(h) if h == host(2)));
    assert_eq!(n.state.address_book.id_to_host(&id_with(0x40)), Some(host(2)));
    assert!(!n.state.routing_table.contains(&id_with(0x40)));
    n.on_find_node_response(host(2), FindNodeResponse::new(context, vec![]), 30);
    assert_eq!(n.query_manager.len(), 0);
    let results = n.take_results();
    assert_eq!(results.len(), 1);
    assert_eq!(results[0].query_id.to_u64(), context);
    match &results[0].result {
        QueryResultKind::FindNode { closest } => {
            let firsts: Vec<u8> = closest.iter().map(|i| i.0[0]).collect();
            assert_eq!(firsts, vec![0x40, 0x80]);
        }
        other => panic!("unexpected result {:?}", other),
    }
}

#[test]
fn timer_fails_requests_that_waited_too_long() {
    let mut n = node();
    n.on_handshake(host(1), Handshake::new(id_with(0x80)));
    n.take_actions();
    n.on_timer(0);
    assert_eq!(n.query_manager.len(), 1);
    n.take_actions();
    n.on_timer(4000);
    assert_eq!(n.query_manager.len(), 1);
    let results = n.take_results();
    assert_eq!(results.len(), 1);
    assert!(matches!(&results[0].result, QueryResultKind::FindNode { closest } if closest.is_empty()));
}

#[test]
fn value_response_from_unknown_host_is_dropped_and_store_is_ignored() {
    let mut n = node();
    n.on_find_value_response(host(3), FindValueResponse::new(1, Some(vec![1]), vec![]), 0);
    n.on_store_request(host(3), StoreRequest::new(id_with(1), vec![1, 2]));
    assert!(n.take_actions().is_empty());
    assert!(n.take_results().is_empty());
}

#[test]
fn kad_messages_carry_their_kind_on_the_wire() {
    let m = KadMessage::StoreRequest(StoreRequest::new(id_with(1), vec![9]));
    assert_eq!(m.kind(), KadMessageKind::StoreRequest);
    assert_eq!(m.kind().id().value(), 106);
    let mut buf = Vec::new();
    m.serialize(&mut buf).unwrap();
    match KadMessage::deserialize(KadMessageKind::StoreRequest, &buf).unwrap() {
        KadMessage::StoreRequest(s) => assert_eq!(s.value, vec![9]),
        other => panic!("unexpected message {:?}", other),
    }
    assert!(KadMessage::deserialize(KadMessageKind::FindNodeRequest, &buf).is_err());
    let h = KadMessage::Handshake(Handshake::new(id_with(4)));
    assert_eq!(h.kind(), KadMessageKind::Handshake);
    let mut buf = Vec::new();
    h.serialize(&mut buf).unwrap();
    assert_eq!(buf.len(), 20);
}
