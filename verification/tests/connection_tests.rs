use babel_kad::connection::ChannelAction;
use babel_kad::connection::ConnTable;
use babel_kad::connection::Link;
use babel_kad::connection::LinkAction;
use babel_kad::connection::LinkError;
use babel_kad::connection::LinkPhase;
use babel_kad::control::BabelMessage;
use babel_kad::control::ControlMessage;
use babel_kad::control::Handshake;
use babel_kad::control::InvalidAttribute;
use babel_kad::control::Message;
use babel_kad::peer::HostAddr;
use babel_kad::props::Properties;
use babel_kad::protocol::ConnectionDirection;
use babel_kad::protocol::ConnectionEventKind;
use babel_kad::protocol::ProtocolID;
use babel_kad::protocol::ProtocolMessageID;
use babel_kad::timer::TimerHeap;
use babel_kad::timer::TimerKind;
use babel_kad::timer::TimerStep;

fn host(n: u8) -> HostAddr {
    HostAddr::new(0x7f00_0000 + n as u32, 8000 + n as u16)
}

fn app(byte: u8) -> BabelMessage {
    BabelMessage {
        source_protocol: ProtocolID::new(100),
        target_protocol: ProtocolID::new(100),
        message_id: ProtocolMessageID::new(101),
        message: vec![byte],
    }
}

fn handshake_from(listen: HostAddr) -> Handshake {
    let mut p = Properties::new();
    p.insert_i16("magic_number", 0x4505);
    p.insert_addr("listen_address", listen);
    Handshake::new(p)
}

#[test]
fn outgoing_link_sends_first_handshake_and_waits_for_second() {
    let mut link = Link::new(host(2), ConnectionDirection::Outgoing, host(1));
    let first = link.open();
    assert_eq!(first.len(), 1);
    match &first[0] {
        LinkAction::Write(Message::Control(ControlMessage::FirstHandshake(h))) => {
            assert_eq!(h.magic_number, 0x79676472);
            assert_eq!(h.properties.get_i16("magic_number").unwrap().unwrap(), 0x4505);
            assert_eq!(h.properties.get_addr("listen_address").unwrap().unwrap(), host(1));
        }
        other => panic!("unexpected action {:?}", other),
    }
    assert!(link.on_heartbeat_tick().is_empty());
    assert!(link.on_send(app(1)).is_empty());
    assert!(link.on_send(app(2)).is_empty());
    let done = link.on_first_message(Message::Control(ControlMessage::SecondHandshake(
        handshake_from(host(9)),
    )));
    assert_eq!(done.len(), 3);
    assert!(matches!(done[0], LinkAction::HandshakeComplete { listen_addr } if listen_addr == host(2)));
    assert!(matches!(&done[1], LinkAction::Write(Message::Application(m)) if m.message == vec![1]));
    assert!(matches!(&done[2], LinkAction::Write(Message::Application(m)) if m.message == vec![2]));
    assert_eq!(link.current_phase(), LinkPhase::Established);
}

#[test]
fn incoming_link_answers_with_second_handshake_and_learns_listen_address() {
    let mut link = Link::new(host(2), ConnectionDirection::Incoming, host(1));
    assert!(link.open().is_empty());
    let done = link.on_first_message(Message::Control(ControlMessage::FirstHandshake(
        handshake_from(host(7)),
    )));
    assert_eq!(done.len(), 2);
    assert!(matches!(
        &done[0],
        LinkAction::Write(Message::Control(ControlMessage::SecondHandshake(h)))
            if h.properties.get_addr("listen_address").unwrap().unwrap() == host(1)
    ));
    assert!(matches!(done[1], LinkAction::HandshakeComplete { listen_addr } if listen_addr == host(7)));
    let got = link.on_message(Message::Application(app(5)));
    assert_eq!(got.len(), 1);
    match &got[0] {
        LinkAction::Deliver { from, direction, message } => {
            assert_eq!(*from, host(7));
            assert_eq!(*direction, ConnectionDirection::Incoming);
            assert_eq!(message.message, vec![5]);
        }
        other => panic!("unexpected action {:?}", other),
    }
}

#[test]
fn handshake_of_wrong_kind_fails_the_link() {
    let mut out = Link::new(host(2), ConnectionDirection::Outgoing, host(1));
    let r = out.on_first_message(Message::Control(ControlMessage::FirstHandshake(handshake_from(host(3)))));
    assert!(matches!(r[..], [LinkAction::Fail(LinkError::UnexpectedMessage)]));
    assert_eq!(out.current_phase(), LinkPhase::Stopped);
    let mut inc = Link::new(host(2), ConnectionDirection::Incoming, host(1));
    let r = inc.on_first_message(Message::Application(app(1)));
    assert!(matches!(r[..], [LinkAction::Fail(LinkError::UnexpectedMessage)]));
    let mut bare = Link::new(host(2), ConnectionDirection::Incoming, host(1));
    let r = bare.on_first_message(Message::Control(ControlMessage::FirstHandshake(Handshake::new(
        Properties::new(),
    ))));
    assert_eq!(r.len(), 2);
    assert!(matches!(r[1], LinkAction::Fail(LinkError::MissingListenAddress)));
    assert_eq!(bare.current_phase(), LinkPhase::Stopped);
}

#[test]
fn established_link_sends_heartbeats_and_ignores_them() {
    let mut link = Link::new(host(2), ConnectionDirection::Outgoing, host(1));
    link.on_first_message(Message::Control(ControlMessage::SecondHandshake(handshake_from(host(2)))));
    let beat = link.on_heartbeat_tick();
    assert!(matches!(beat[..], [LinkAction::Write(Message::Control(ControlMessage::Heartbeat))]));
    assert!(link.on_message(Message::Control(ControlMessage::Heartbeat)).is_empty());
    assert_eq!(link.current_phase(), LinkPhase::Established);
    let sent = link.on_send(app(3));
    assert!(matches!(&sent[..], [LinkAction::Write(Message::Application(m))] if m.message == vec![3]));
    let bad = link.on_message(Message::Control(ControlMessage::InvalidAttribute(InvalidAttribute {
        magic_number: 1,
    })));
    assert!(matches!(bad[..], [LinkAction::Fail(LinkError::UnexpectedMessage)]));
    assert_eq!(link.current_phase(), LinkPhase::Stopped);
    assert!(link.on_send(app(4)).is_empty());
}

#[test]
fn close_stops_the_link_now_or_after_the_handshake() {
    let mut link = Link::new(host(2), ConnectionDirection::Outgoing, host(1));
    link.on_first_message(Message::Control(ControlMessage::SecondHandshake(handshake_from(host(2)))));
    assert!(matches!(link.on_close()[..], [LinkAction::Stop]));
    assert_eq!(link.current_phase(), LinkPhase::Stopped);
    assert!(link.on_close().is_empty());

    let mut early = Link::new(host(2), ConnectionDirection::Outgoing, host(1));
    early.on_send(app(1));
    assert!(early.on_close().is_empty());
    early.on_send(app(2));
    let r = early.on_first_message(Message::Control(ControlMessage::SecondHandshake(
        handshake_from(host(2)),
    )));
    assert_eq!(r.len(), 3);
    assert!(matches!(&r[1], LinkAction::Write(Message::Application(m)) if m.message == vec![1]));
    assert!(matches!(r[2], LinkAction::Stop));
    assert_eq!(early.current_phase(), LinkPhase::Stopped);
}

#[test]
fn channel_tracks_connections_by_host_and_direction() {
    let mut t = ConnTable::new();
    assert!(matches!(t.open_connection(host(1)), Some(ChannelAction::SpawnConnect(h)) if h == host(1)));
    assert!(t.open_connection(host(1)).is_none());
    assert_eq!(t.len(), 1);
    let accepted = t.connection_accepted(host(1));
    assert_eq!(accepted.len(), 2);
    assert!(matches!(accepted[0], ChannelAction::SpawnAccepted(h) if h == host(1)));
    assert!(matches!(
        accepted[1],
        ChannelAction::Emit { host: h, direction: ConnectionDirection::Incoming, kind: ConnectionEventKind::ConnectionUp }
            if h == host(1)
    ));
    assert!(t.connection_accepted(host(1)).is_empty());
    assert_eq!(t.len(), 2);
    assert!(matches!(
        t.connection_opened(host(1)),
        ChannelAction::Emit { direction: ConnectionDirection::Outgoing, kind: ConnectionEventKind::ConnectionUp, .. }
    ));
    assert!(t.listen_addr(host(1), ConnectionDirection::Incoming).is_none());
    assert!(t.handshake_complete(host(1), ConnectionDirection::Incoming, host(9)));
    assert!(!t.handshake_complete(host(2), ConnectionDirection::Incoming, host(9)));
    assert_eq!(t.listen_addr(host(1), ConnectionDirection::Incoming), Some(host(9)));
    assert!(t.listen_addr(host(1), ConnectionDirection::Outgoing).is_none());
}

#[test]
fn channel_forwards_closes_and_reports() {
    let mut t = ConnTable::new();
    t.open_connection(host(1));
    assert!(t.send_message(host(2), ConnectionDirection::Outgoing, app(1)).is_none());
    assert!(matches!(
        t.send_message(host(1), ConnectionDirection::Outgoing, app(1)),
        Some(ChannelAction::Forward { host: h, .. }) if h == host(1)
    ));
    assert!(t.close_connection(host(2)).is_none());
    assert!(matches!(t.close_connection(host(1)), Some(ChannelAction::Close { host: h, .. }) if h == host(1)));
    assert!(t.connection_failed(host(1)).is_none());
    assert!(matches!(
        t.connection_failed(host(3)),
        Some(ChannelAction::Emit { kind: ConnectionEventKind::ConnectionFailed, .. })
    ));
    assert!(matches!(
        t.connection_closed(host(1), ConnectionDirection::Outgoing),
        ChannelAction::Emit { kind: ConnectionEventKind::ConnectionDown, direction: ConnectionDirection::Outgoing, .. }
    ));
    assert_eq!(t.len(), 0);
    assert!(!t.contains(host(1), ConnectionDirection::Outgoing));
}

#[test]
fn timers_fire_in_deadline_order() {
    let mut heap = TimerHeap::new();
    assert_eq!(heap.step(0), TimerStep::Idle);
    assert_eq!(heap.next_deadline(), None);
    let late = heap.create(ProtocolID::new(1), TimerKind::OneShot, 500, 0).unwrap();
    let soon = heap.create(ProtocolID::new(2), TimerKind::OneShot, 100, 0).unwrap();
    let same = heap.create(ProtocolID::new(3), TimerKind::OneShot, 100, 0).unwrap();
    assert_ne!(late, soon);
    assert_eq!(heap.next_deadline(), Some(100));
    assert_eq!(heap.step(99), TimerStep::Wait(100));
    assert_eq!(heap.step(100), TimerStep::Expired { id: soon, protocol_id: ProtocolID::new(2) });
    assert_eq!(heap.step(100), TimerStep::Expired { id: same, protocol_id: ProtocolID::new(3) });
    assert_eq!(heap.step(100), TimerStep::Wait(500));
    assert_eq!(heap.step(700), TimerStep::Expired { id: late, protocol_id: ProtocolID::new(1) });
    assert_eq!(heap.step(700), TimerStep::Idle);
}

#[test]
fn periodic_timer_comes_back_and_cancelled_timer_is_skipped() {
    let mut heap = TimerHeap::new();
    let tick = heap.create(ProtocolID::new(100), TimerKind::Periodic(4000), 2000, 0).unwrap();
    let once = heap.create(ProtocolID::new(100), TimerKind::OneShot, 3000, 0).unwrap();
    assert_eq!(heap.step(2000), TimerStep::Expired { id: tick, protocol_id: ProtocolID::new(100) });
    assert_eq!(heap.next_deadline(), Some(3000));
    assert!(heap.cancel(once));
    assert!(!heap.cancel(once));
    assert_eq!(heap.step(3000), TimerStep::Skipped);
    assert_eq!(heap.step(3000), TimerStep::Wait(6000));
    assert_eq!(heap.step(6500), TimerStep::Expired { id: tick, protocol_id: ProtocolID::new(100) });
    assert_eq!(heap.next_deadline(), Some(10500));
    assert!(heap.cancel(tick));
    assert_eq!(heap.step(20000), TimerStep::Skipped);
    assert_eq!(heap.step(20000), TimerStep::Idle);
    let far = heap.create(ProtocolID::new(1), TimerKind::OneShot, u64::MAX, 5).unwrap();
    assert_eq!(heap.next_deadline(), Some(u64::MAX));
    assert!(heap.cancel(far));
}
