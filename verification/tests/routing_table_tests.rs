use babel_kad::kad_id::KadID;
use babel_kad::peer::HostAddr;
use babel_kad::peer::Peer;
use babel_kad::routing_table::nearest;
use babel_kad::routing_table::RoutingTable;

fn id_with(first: u8, last: u8) -> KadID {
    let mut bytes = [0u8; 20];
    bytes[0] = first;
    bytes[19] = last;
    KadID::new(bytes)
}

fn peer(first: u8, last: u8) -> Peer {
    Peer::new(id_with(first, last), HostAddr::new(0x0a00_0001, 4000 + first as u16))
}

fn firsts(table: &RoutingTable, index: usize) -> Vec<u8> {
    table.bucket_peers(index).unwrap().iter().map(|p| p.id.0[0]).collect()
}

#[test]
fn new_table_has_one_empty_bucket() {
    let t = RoutingTable::new(2, KadID::zero());
    assert_eq!(t.bucket_count(), 1);
    assert_eq!(t.len(), 0);
    assert!(t.bucket_peers(0).unwrap().is_empty());
    assert!(t.bucket_peers(1).is_none());
    assert_eq!(t.k(), 2);
    assert_eq!(t.local_id().0, [0u8; 20]);
}

#[test]
fn unfolding_puts_each_peer_in_the_bucket_of_its_cpl() {
    let mut t = RoutingTable::new(2, KadID::zero());
    assert!(t.insert(peer(0x80, 0)));
    assert!(t.insert(peer(0x40, 0)));
    assert_eq!(t.bucket_count(), 1);
    assert!(t.insert(peer(0x20, 0)));
    assert_eq!(t.bucket_count(), 2);
    assert_eq!(firsts(&t, 0), vec![0x80]);
    assert_eq!(firsts(&t, 1), vec![0x40, 0x20]);
    assert!(t.insert(peer(0x10, 0)));
    assert!(t.insert(peer(0x08, 0)));
    assert_eq!(t.bucket_count(), 4);
    assert_eq!(firsts(&t, 0), vec![0x80]);
    assert_eq!(firsts(&t, 1), vec![0x40]);
    assert_eq!(firsts(&t, 2), vec![0x20]);
    assert_eq!(firsts(&t, 3), vec![0x10, 0x08]);
    assert_eq!(t.len(), 5);
}

#[test]
fn insert_fails_when_bucket_stays_full() {
    let mut t = RoutingTable::new(2, KadID::zero());
    assert!(t.insert(peer(0x80, 1)));
    assert!(t.insert(peer(0x80, 2)));
    assert!(!t.insert(peer(0x80, 3)));
    assert_eq!(t.bucket_count(), 2);
    assert_eq!(t.len(), 2);
    assert!(t.bucket_peers(1).unwrap().is_empty());
    assert!(!t.insert(peer(0x80, 1)));
}

#[test]
fn insert_rejects_duplicates() {
    let mut t = RoutingTable::new(4, KadID::zero());
    assert!(t.insert(peer(0x80, 1)));
    assert!(!t.insert(peer(0x80, 1)));
    assert_eq!(t.len(), 1);
    assert!(t.contains(&id_with(0x80, 1)));
    assert!(!t.contains(&id_with(0x80, 2)));
}

#[test]
fn split_invariant_holds_after_many_inserts() {
    let local = KadID::new([0x55; 20]);
    let mut t = RoutingTable::new(3, local);
    let mut before = 1;
    for i in 0..=255u8 {
        for j in 0..3u8 {
            let mut bytes = [0x55u8; 20];
            bytes[0] = i;
            bytes[7] = j;
            t.insert(Peer::new(KadID::new(bytes), HostAddr::new(1, 1)));
            assert!(t.bucket_count() >= before);
            before = t.bucket_count();
        }
    }
    let last = t.bucket_count() - 1;
    assert!(last >= 1);
    for index in 0..=last {
        let peers = t.bucket_peers(index).unwrap();
        assert!(peers.len() <= 3);
        for p in peers.iter() {
            let cpl = local.cpl(&p.id) as usize;
            if index < last {
                assert_eq!(cpl, index);
            } else {
                assert!(cpl >= last);
            }
        }
    }
}

#[test]
fn remove_takes_the_peer_out() {
    let mut t = RoutingTable::new(4, KadID::zero());
    t.insert(peer(0x80, 1));
    t.insert(peer(0x40, 1));
    assert!(t.remove(&id_with(0x11, 1)).is_none());
    let gone = t.remove(&id_with(0x80, 1)).unwrap();
    assert_eq!(gone.id.0[0], 0x80);
    assert!(!t.contains(&id_with(0x80, 1)));
    assert!(t.contains(&id_with(0x40, 1)));
    assert_eq!(t.len(), 1);
}

#[test]
fn closest_is_sorted_bounded_and_from_the_table() {
    let mut t = RoutingTable::new(3, KadID::zero());
    for first in [0x80u8, 0x81, 0x40, 0x41, 0x20, 0x21, 0x10, 0x11, 0x08] {
        t.insert(peer(first, 0));
    }
    let target = id_with(0x12, 0);
    let found = t.closest(&target);
    assert!(found.len() <= 3);
    for w in found.windows(2) {
        assert!(w[0].id.distance(&target).lt(&w[1].id.distance(&target)));
    }
    for p in found.iter() {
        assert!(t.contains(&p.id));
    }
    let got: Vec<u8> = found.iter().map(|p| p.id.0[0]).collect();
    assert_eq!(got, vec![0x10, 0x11, 0x08]);
}

#[test]
fn closest_scans_downward_only() {
    let mut t = RoutingTable::new(2, KadID::zero());
    for first in [0x80u8, 0x40, 0x20, 0x10, 0x08] {
        t.insert(peer(first, 0));
    }
    let target = id_with(0x80, 5);
    let got: Vec<u8> = t.closest(&target).iter().map(|p| p.id.0[0]).collect();
    assert_eq!(got, vec![0x80]);
    let mut buf = vec![peer(1, 1)];
    t.closest_into(&id_with(0x40, 5), &mut buf);
    let got: Vec<u8> = buf.iter().map(|p| p.id.0[0]).collect();
    assert_eq!(got, vec![0x40, 0x80]);
}

#[test]
fn closest_of_empty_table_is_empty() {
    let t = RoutingTable::new(2, KadID::zero());
    assert!(t.closest(&id_with(1, 1)).is_empty());
}

#[test]
fn nearest_sorts_and_truncates() {
    let pool = vec![peer(0x08, 0), peer(0x80, 0), peer(0x01, 0), peer(0x10, 0)];
    let mut out = vec![peer(0x33, 0)];
    nearest(&pool, &KadID::zero(), 3, &mut out);
    let got: Vec<u8> = out.iter().map(|p| p.id.0[0]).collect();
    assert_eq!(got, vec![0x01, 0x08, 0x10]);
    nearest(&pool, &KadID::zero(), 10, &mut out);
    assert_eq!(out.len(), 4);
    nearest(&pool, &KadID::zero(), 0, &mut out);
    assert!(out.is_empty());
}
