use babel_kad::bucket::Bucket;
use babel_kad::kad_id::KadID;
use babel_kad::peer::HostAddr;
use babel_kad::peer::Peer;

fn peer(first: u8, port: u16) -> Peer {
    let mut bytes = [0u8; 20];
    bytes[0] = first;
    Peer::new(KadID::new(bytes), HostAddr::new(0x7f00_0001, port))
}

#[test]
fn bucket_never_exceeds_capacity() {
    let mut b = Bucket::new(3);
    assert!(b.is_empty());
    for i in 0..10u8 {
        let r = b.insert(peer(i + 1, 1000 + i as u16));
        if i < 3 {
            assert_eq!(r, Some(i as usize));
        } else {
            assert_eq!(r, None);
        }
        assert!(b.len() <= 3);
    }
    assert_eq!(b.len(), 3);
    assert!(b.is_full());
}

#[test]
fn bucket_rejects_duplicate_ids() {
    let mut b = Bucket::new(4);
    assert_eq!(b.insert(peer(1, 1)), Some(0));
    assert_eq!(b.insert(peer(1, 2)), None);
    assert_eq!(b.len(), 1);
    assert_eq!(b.get(0).unwrap().addr.port, 1);
    assert!(b.contains(&peer(1, 0).id));
    assert!(!b.contains(&peer(2, 0).id));
}

#[test]
fn bucket_of_capacity_zero_takes_nothing() {
    let mut b = Bucket::new(0);
    assert!(b.is_full());
    assert_eq!(b.insert(peer(1, 1)), None);
    assert_eq!(b.len(), 0);
}

#[test]
fn bucket_remove_moves_last_into_slot() {
    let mut b = Bucket::new(4);
    b.insert(peer(1, 1));
    b.insert(peer(2, 2));
    b.insert(peer(3, 3));
    let gone = b.remove(0).unwrap();
    assert_eq!(gone.addr.port, 1);
    assert_eq!(b.len(), 2);
    assert_eq!(b.get(0).unwrap().addr.port, 3);
    assert_eq!(b.get(1).unwrap().addr.port, 2);
    assert!(b.remove(5).is_none());
    assert!(b.get(2).is_none());
}

#[test]
fn bucket_remove_by_id() {
    let mut b = Bucket::new(4);
    b.insert(peer(1, 1));
    b.insert(peer(2, 2));
    assert!(b.remove_by_id(&peer(9, 0).id).is_none());
    let gone = b.remove_by_id(&peer(1, 0).id).unwrap();
    assert_eq!(gone.addr.port, 1);
    assert_eq!(b.len(), 1);
    assert!(!b.contains(&peer(1, 0).id));
    assert!(b.contains(&peer(2, 0).id));
    assert_eq!(b.insert(peer(1, 7)), Some(1));
}

#[test]
fn bucket_extend_stops_at_first_refusal() {
    let mut b = Bucket::new(3);
    b.insert(peer(1, 1));
    b.extend(vec![peer(2, 2), peer(1, 9), peer(3, 3)]);
    assert_eq!(b.len(), 2);
    assert!(!b.contains(&peer(3, 0).id));
    let mut c = Bucket::new(2);
    c.extend(vec![peer(1, 1), peer(2, 2), peer(3, 3)]);
    assert_eq!(c.len(), 2);
}

#[test]
fn bucket_drain_filter_splits_by_cpl() {
    let local = KadID::zero();
    let mut b = Bucket::new(4);
    b.insert(peer(0x80, 1));
    b.insert(peer(0x40, 2));
    b.insert(peer(0xc0, 3));
    b.insert(peer(0x20, 4));
    let drained = b.drain_filter(&local, 0);
    let ports: Vec<u16> = drained.iter().map(|p| p.addr.port).collect();
    assert_eq!(ports, vec![2, 4]);
    let kept: Vec<u16> = b.iter().iter().map(|p| p.addr.port).collect();
    assert_eq!(kept, vec![1, 3]);
}
