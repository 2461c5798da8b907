use babel_kad::addrbook::AddrBook;
use babel_kad::codec::WireError;
use babel_kad::kad_id::KadID;
use babel_kad::peer::HostAddr;
use babel_kad::peer::Peer;
use babel_kad::props::InvalidPropertyValue;
use babel_kad::props::Properties;
use babel_kad::protocol::KadMessageKind;
use babel_kad::protocol::ProtocolID;
use babel_kad::protocol::ProtocolMessageID;

#[test]
fn insert_overwrites_and_get_finds() {
    let mut p = Properties::new();
    assert!(p.get("a").is_none());
    p.insert("a", vec![1]);
    p.insert("b", vec![2, 3]);
    p.insert("a", vec![9, 9]);
    assert_eq!(p.len(), 2);
    assert_eq!(p.get("a").unwrap(), &vec![9, 9]);
    assert_eq!(p.get("b").unwrap(), &vec![2, 3]);
    assert!(p.get("c").is_none());
}

#[test]
fn typed_values_are_big_endian() {
    let mut p = Properties::new();
    p.insert_i16("i16", -2);
    p.insert_u16("u16", 0x1234);
    p.insert_i32("i32", -3);
    p.insert_u32("u32", 0xdead_beef);
    assert_eq!(p.get("i16").unwrap(), &vec![0xff, 0xfe]);
    assert_eq!(p.get("u16").unwrap(), &vec![0x12, 0x34]);
    assert_eq!(p.get("i32").unwrap(), &vec![0xff, 0xff, 0xff, 0xfd]);
    assert_eq!(p.get("u32").unwrap(), &vec![0xde, 0xad, 0xbe, 0xef]);
    assert_eq!(p.get_i16("i16").unwrap().unwrap(), -2);
    assert_eq!(p.get_u16("u16").unwrap().unwrap(), 0x1234);
    assert_eq!(p.get_i32("i32").unwrap().unwrap(), -3);
    assert_eq!(p.get_u32("u32").unwrap().unwrap(), 0xdead_beef);
    assert_eq!(p.get_u16("i16").unwrap().unwrap(), 0xfffe);
}

#[test]
fn typed_getters_report_wrong_length() {
    let mut p = Properties::new();
    p.insert("k", vec![1, 2, 3]);
    assert!(p.get_i16("missing").is_none());
    assert!(p.get_u32("missing").is_none());
    let e = p.get_i16("k").unwrap().unwrap_err();
    assert_eq!(e.key, "k");
    assert_eq!(e.expected, "i16");
    assert_eq!(p.get_u16("k").unwrap().unwrap_err().expected, "u16");
    assert_eq!(p.get_i32("k").unwrap().unwrap_err().expected, "i32");
    assert_eq!(p.get_u32("k").unwrap().unwrap_err().expected, "u32");
    let made = InvalidPropertyValue::new("port", "u16");
    assert_eq!(made.key, "port");
}

#[test]
fn builder_collects_values() {
    let p = Properties::builder().with_i16("a", 1).with_i16("b", 2).with_i16("a", 3).build();
    assert_eq!(p.len(), 2);
    assert_eq!(p.get_i16("a").unwrap().unwrap(), 3);
    assert_eq!(p.get_i16("b").unwrap().unwrap(), 2);
}

#[test]
fn properties_wire_layout_and_round_trip() {
    let mut p = Properties::new();
    p.insert("ab", vec![7]);
    p.insert("é", vec![]);
    let mut buf = Vec::new();
    p.serialize(&mut buf).unwrap();
    assert_eq!(
        buf,
        vec![
            0, 0, 0, 2, 0, 0, 0, 2, b'a', b'b', 0, 0, 0, 1, 7, 0, 0, 0, 2, 0xc3, 0xa9, 0, 0, 0, 0
        ]
    );
    let back = Properties::deserialize(&buf).unwrap();
    assert_eq!(back.len(), 2);
    assert_eq!(back.get("ab").unwrap(), &vec![7]);
    assert_eq!(back.get("é").unwrap(), &Vec::<u8>::new());
}

#[test]
fn properties_deserialize_errors() {
    assert_eq!(Properties::deserialize(&vec![0, 0]).unwrap_err(), WireError::Truncated);
    assert_eq!(Properties::deserialize(&vec![0, 0, 0, 1]).unwrap_err(), WireError::Truncated);
    assert_eq!(
        Properties::deserialize(&vec![0, 0, 0, 1, 0, 0, 0, 5, b'a']).unwrap_err(),
        WireError::Truncated
    );
    assert_eq!(
        Properties::deserialize(&vec![0, 0, 0, 1, 0xff, 0xff, 0xff, 0xff]).unwrap_err(),
        WireError::BadLength
    );
    assert_eq!(
        Properties::deserialize(&vec![0, 0, 0, 1, 0, 0, 0, 1, 0xff, 0, 0, 0, 0]).unwrap_err(),
        WireError::InvalidKey
    );
    assert_eq!(Properties::deserialize(&vec![0xff, 0xff, 0xff, 0xff]).unwrap().len(), 0);
}

#[test]
fn properties_deserialize_keeps_last_value_of_repeated_key() {
    let buf =
        vec![0, 0, 0, 2, 0, 0, 0, 1, b'k', 0, 0, 0, 1, 1, 0, 0, 0, 1, b'k', 0, 0, 0, 1, 2];
    let p = Properties::deserialize(&buf).unwrap();
    assert_eq!(p.len(), 1);
    assert_eq!(p.get("k").unwrap(), &vec![2]);
}

#[test]
fn protocol_ids_number_messages_from_the_protocol() {
    let kad = ProtocolID::new(100);
    assert_eq!(kad.value(), 100);
    assert_eq!(kad.message(1), ProtocolMessageID::new(101));
    assert_eq!(kad.message(6).value(), 106);
    assert_eq!(kad.checked_message(6), Some(ProtocolMessageID::new(106)));
    assert_eq!(ProtocolID::new(i16::MAX).checked_message(1), None);
    assert_eq!(KadMessageKind::FindNodeRequest.id().value(), 101);
    assert_eq!(KadMessageKind::FindNodeResponse.id().value(), 102);
    assert_eq!(KadMessageKind::FindValueRequest.id().value(), 103);
    assert_eq!(KadMessageKind::FindValueResponse.id().value(), 104);
    assert_eq!(KadMessageKind::Handshake.id().value(), 105);
    assert_eq!(KadMessageKind::StoreRequest.id().value(), 106);
    assert_eq!(KadMessageKind::from_id(ProtocolMessageID::new(104)), Some(KadMessageKind::FindValueResponse));
    assert_eq!(KadMessageKind::from_id(ProtocolMessageID::new(100)), None);
    assert_eq!(KadMessageKind::from_id(ProtocolMessageID::new(107)), None);
}

#[test]
fn address_book_maps_both_ways_and_overwrites() {
    let a = KadID::new([1; 20]);
    let b = KadID::new([2; 20]);
    let h1 = HostAddr::new(1, 10);
    let h2 = HostAddr::new(2, 20);
    let mut book = AddrBook::new();
    assert!(book.id_to_host(&a).is_none());
    assert!(book.host_to_id(&h1).is_none());
    book.insert(a, h1);
    book.insert_peer(&Peer::new(b, h2));
    assert_eq!(book.id_to_host(&a), Some(h1));
    assert_eq!(book.id_to_host(&b), Some(h2));
    assert!(book.host_to_id(&h1).unwrap().same(&a));
    assert!(book.host_to_id(&h2).unwrap().same(&b));
    book.insert(a, h2);
    assert_eq!(book.id_to_host(&a), Some(h2));
    assert!(book.host_to_id(&h2).unwrap().same(&a));
    assert!(book.host_to_id(&h1).unwrap().same(&a));
    assert_eq!(book.id_to_host(&b), Some(h2));
    let p = book.id_to_peer(&b).unwrap();
    assert_eq!(p.addr, h2);
    let q = book.host_to_peer(&h1).unwrap();
    assert!(q.id.same(&a));
    assert!(book.id_to_peer(&KadID::new([9; 20])).is_none());
    assert!(book.host_to_peer(&HostAddr::new(9, 9)).is_none());
}

#[test]
fn address_values_take_six_bytes() {
    let mut p = Properties::new();
    p.insert_addr("listen_address", HostAddr::new(0x7f00_0001, 8080));
    assert_eq!(p.get("listen_address").unwrap(), &vec![127, 0, 0, 1, 0x1f, 0x90]);
    assert_eq!(p.get_addr("listen_address").unwrap().unwrap(), HostAddr::new(0x7f00_0001, 8080));
    p.insert("short", vec![1, 2, 3]);
    assert_eq!(p.get_addr("short").unwrap().unwrap_err().expected, "SocketAddr");
    assert!(p.get_addr("none").is_none());
}
