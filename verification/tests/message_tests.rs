use babel_kad::codec::WireError;
use babel_kad::kad_id::KadID;
use babel_kad::message::FindNodeRequest;
use babel_kad::message::FindNodeResponse;
use babel_kad::message::FindValueRequest;
use babel_kad::message::FindValueResponse;
use babel_kad::message::Handshake;
use babel_kad::message::StoreRequest;
use babel_kad::peer::HostAddr;
use babel_kad::peer::Peer;

fn id_of(byte: u8) -> KadID {
    KadID::new([byte; 20])
}

fn peer(byte: u8) -> Peer {
    Peer::new(id_of(byte), HostAddr::new(0xc0a8_0000 + byte as u32, 4000 + byte as u16))
}

fn same_peers(a: &[Peer], b: &[Peer]) -> bool {
    a.len() == b.len() && a.iter().zip(b.iter()).all(|(x, y)| x.same(y))
}

#[test]
fn find_node_request_round_trip() {
    let m = FindNodeRequest::new(0x0102_0304_0506_0708, id_of(0xab));
    let mut buf = Vec::new();
    m.serialize(&mut buf);
    let mut expected = vec![1, 2, 3, 4, 5, 6, 7, 8];
    expected.extend_from_slice(&[0xab; 20]);
    assert_eq!(buf, expected);
    let back = FindNodeRequest::deserialize(&buf).unwrap();
    assert_eq!(back.context, m.context);
    assert!(back.target.same(&m.target));
    buf.pop();
    assert_eq!(FindNodeRequest::deserialize(&buf).unwrap_err(), WireError::Truncated);
}

#[test]
fn find_node_response_round_trip_with_peers() {
    let m = FindNodeResponse::new(u64::MAX, vec![peer(1), peer(2), peer(3)]);
    let mut buf = Vec::new();
    m.serialize(&mut buf).unwrap();
    assert_eq!(buf.len(), 8 + 4 + 3 * 26);
    assert_eq!(&buf[..12], &[0xff, 0xff, 0xff, 0xff, 0xff, 0xff, 0xff, 0xff, 0, 0, 0, 3]);
    assert_eq!(&buf[12..32], &[1u8; 20]);
    assert_eq!(&buf[32..38], &[0xc0, 0xa8, 0, 1, 0x0f, 0xa1]);
    let back = FindNodeResponse::deserialize(&buf).unwrap();
    assert_eq!(back.context, u64::MAX);
    assert!(same_peers(&back.peers, &m.peers));
    buf.pop();
    assert_eq!(FindNodeResponse::deserialize(&buf).unwrap_err(), WireError::Truncated);
}

#[test]
fn find_node_response_round_trip_with_empty_peer_list() {
    let m = FindNodeResponse::new(7, vec![]);
    let mut buf = Vec::new();
    m.serialize(&mut buf).unwrap();
    assert_eq!(buf, vec![0, 0, 0, 0, 0, 0, 0, 7, 0, 0, 0, 0]);
    let back = FindNodeResponse::deserialize(&buf).unwrap();
    assert_eq!(back.context, 7);
    assert!(back.peers.is_empty());
    assert_eq!(FindNodeResponse::deserialize(&buf[..11].to_vec()).unwrap_err(), WireError::Truncated);
}

#[test]
fn find_value_request_round_trip() {
    let m = FindValueRequest::new(0x0000_0001_dead_beef, id_of(0x11));
    let mut buf = Vec::new();
    m.serialize(&mut buf);
    assert_eq!(&buf[..8], &[0, 0, 0, 1, 0xde, 0xad, 0xbe, 0xef]);
    assert_eq!(buf.len(), 28);
    let back = FindValueRequest::deserialize(&buf).unwrap();
    assert_eq!(back.context, 0x0000_0001_dead_beef);
    assert!(back.key.same(&m.key));
    assert_eq!(FindValueRequest::deserialize(&buf[..27].to_vec()).unwrap_err(), WireError::Truncated);
}

#[test]
fn find_value_response_round_trip_with_value() {
    let m = FindValueResponse::new(9, Some(vec![5, 6, 7]), vec![peer(4)]);
    let mut buf = Vec::new();
    m.serialize(&mut buf).unwrap();
    assert_eq!(&buf[..16], &[0, 0, 0, 0, 0, 0, 0, 9, 1, 0, 0, 0, 3, 5, 6, 7]);
    assert_eq!(&buf[16..20], &[0, 0, 0, 1]);
    assert_eq!(buf.len(), 20 + 26);
    let back = FindValueResponse::deserialize(&buf).unwrap();
    assert_eq!(back.context, 9);
    assert_eq!(back.value, Some(vec![5, 6, 7]));
    assert!(same_peers(&back.peers, &m.peers));
    buf.truncate(15);
    assert_eq!(FindValueResponse::deserialize(&buf).unwrap_err(), WireError::Truncated);
}

#[test]
fn find_value_response_round_trip_without_value() {
    let m = FindValueResponse::new(1, None, vec![]);
    let mut buf = Vec::new();
    m.serialize(&mut buf).unwrap();
    assert_eq!(buf, vec![0, 0, 0, 0, 0, 0, 0, 1, 0, 0, 0, 0, 0]);
    let back = FindValueResponse::deserialize(&buf).unwrap();
    assert_eq!(back.context, 1);
    assert!(back.value.is_none());
    assert!(back.peers.is_empty());
}

#[test]
fn find_value_response_round_trip_with_empty_value() {
    let m = FindValueResponse::new(1, Some(vec![]), vec![peer(2), peer(9)]);
    let mut buf = Vec::new();
    m.serialize(&mut buf).unwrap();
    let back = FindValueResponse::deserialize(&buf).unwrap();
    assert_eq!(back.value, Some(vec![]));
    assert!(same_peers(&back.peers, &m.peers));
}

#[test]
fn handshake_round_trip() {
    let m = Handshake::new(id_of(0x42));
    let mut buf = Vec::new();
    m.serialize(&mut buf);
    assert_eq!(buf, vec![0x42; 20]);
    assert!(Handshake::deserialize(&buf).unwrap().id.same(&m.id));
    assert_eq!(Handshake::deserialize(&vec![0x42; 19]).unwrap_err(), WireError::Truncated);
}

#[test]
fn store_request_round_trip() {
    let m = StoreRequest::new(id_of(3), vec![1, 2, 3, 4]);
    let mut buf = Vec::new();
    m.serialize(&mut buf).unwrap();
    assert_eq!(&buf[20..], &[0, 0, 0, 4, 1, 2, 3, 4]);
    let back = StoreRequest::deserialize(&buf).unwrap();
    assert!(back.key.same(&m.key));
    assert_eq!(back.value, vec![1, 2, 3, 4]);
    buf.pop();
    assert_eq!(StoreRequest::deserialize(&buf).unwrap_err(), WireError::Truncated);
}

#[test]
fn store_request_round_trip_with_zero_length_value() {
    let m = StoreRequest::new(id_of(3), vec![]);
    let mut buf = Vec::new();
    m.serialize(&mut buf).unwrap();
    assert_eq!(buf.len(), 24);
    let back = StoreRequest::deserialize(&buf).unwrap();
    assert!(back.value.is_empty());
}
