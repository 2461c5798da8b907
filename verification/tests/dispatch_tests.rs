use babel_kad::connection::TcpChannelFactory;
use babel_kad::connection::TcpChannelParams;
use babel_kad::dispatch::IpcDispatcher;
use babel_kad::dispatch::IpcKind;
use babel_kad::dispatch::IpcMessage;
use babel_kad::dispatch::MailboxRouter;
use babel_kad::dispatch::MessageDispatcher;
use babel_kad::peer::HostAddr;
use babel_kad::props::Properties;
use babel_kad::protocol::ProtocolID;
use babel_kad::protocol::ProtocolMessageID;

#[test]
fn message_handlers_register_once_and_dispatch_by_id() {
    let mut d = MessageDispatcher::new();
    assert_eq!(d.dispatch(ProtocolMessageID::new(101)), None);
    assert_eq!(d.register(ProtocolMessageID::new(101)), Some(0));
    assert_eq!(d.register(ProtocolMessageID::new(105)), Some(1));
    assert_eq!(d.register(ProtocolMessageID::new(101)), None);
    assert_eq!(d.register(ProtocolMessageID::new(-3)), Some(2));
    assert_eq!(d.dispatch(ProtocolMessageID::new(105)), Some(1));
    assert_eq!(d.dispatch(ProtocolMessageID::new(101)), Some(0));
    assert_eq!(d.dispatch(ProtocolMessageID::new(-3)), Some(2));
    assert_eq!(d.dispatch(ProtocolMessageID::new(102)), None);
}

#[test]
fn mailbox_router_finds_registered_protocols() {
    let mut r = MailboxRouter::new();
    assert_eq!(r.len(), 0);
    assert_eq!(r.register_protocol(ProtocolID::new(100)), Some(0));
    assert_eq!(r.register_protocol(ProtocolID::new(200)), Some(1));
    assert_eq!(r.register_protocol(ProtocolID::new(100)), None);
    assert_eq!(r.len(), 2);
    assert_eq!(r.get(ProtocolID::new(200)), Some(1));
    assert_eq!(r.get(ProtocolID::new(300)), None);
}

#[test]
fn ipc_messages_dispatch_by_kind_and_type() {
    let mut d = IpcDispatcher::new();
    assert_eq!(d.register_request(7), Some(0));
    assert_eq!(d.register_request(9), Some(1));
    assert_eq!(d.register_request(7), None);
    assert_eq!(d.register_reply(9), Some(0));
    assert_eq!(d.register_notification(7), Some(0));
    assert_eq!(d.register(IpcKind::Notification, 8), Some(1));
    assert_eq!(d.register(IpcKind::Notification, 8), None);
    let a = ProtocolID::new(1);
    let b = ProtocolID::new(2);
    let request = IpcMessage::request(a, b, 9, "ask");
    assert_eq!(request.kind(), IpcKind::Request);
    assert_eq!(request.message_typeid(), 9);
    assert_eq!(d.dispatch(&request), Some(1));
    assert_eq!(d.dispatch(&IpcMessage::reply(b, a, 9, "answer")), Some(0));
    assert_eq!(d.dispatch(&IpcMessage::reply(b, a, 7, "answer")), None);
    assert_eq!(d.dispatch(&IpcMessage::notification(a, 8, ())), Some(1));
    assert_eq!(d.dispatch(&IpcMessage::notification(a, 9, ())), None);
    assert!(matches!(
        IpcMessage::notification(a, 8, 5u8),
        IpcMessage::Notification { source, type_id: 8, message: 5 } if source == a
    ));
}

#[test]
fn channel_factory_needs_a_listen_address() {
    let params = TcpChannelParams { listen_addr: HostAddr::new(0x7f00_0001, 4000) };
    let props = params.to_properties();
    assert_eq!(props.get("listen_address").unwrap(), &vec![127, 0, 0, 1, 0x0f, 0xa0]);
    let (table, listen) = TcpChannelFactory.create(&props).unwrap();
    assert_eq!(table.len(), 0);
    assert_eq!(listen, HostAddr::new(0x7f00_0001, 4000));
    assert!(TcpChannelFactory.create(&Properties::new()).is_none());
    let mut short = Properties::new();
    short.insert("listen_address", vec![1, 2, 3]);
    assert!(TcpChannelFactory.create(&short).is_none());
}
