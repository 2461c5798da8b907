use babel_kad::kad_id::KadID;
use babel_kad::qpeerset::Key;
use babel_kad::qpeerset::QPeerSet;
use babel_kad::qpeerset::QPeerState;

fn id_with(first: u8) -> KadID {
    let mut bytes = [0u8; 20];
    bytes[0] = first;
    KadID::new(bytes)
}

fn order(set: &QPeerSet) -> Vec<u8> {
    set.iter().iter().map(|e| e.id.0[0]).collect()
}

#[test]
fn peers_are_ordered_by_distance_to_target() {
    let mut set = QPeerSet::new(3, id_with(0x01));
    set.add(&id_with(0x80));
    set.add(&id_with(0x03));
    set.add(&id_with(0x40));
    set.add(&id_with(0x02));
    assert_eq!(order(&set), vec![0x03, 0x02, 0x40, 0x80]);
    assert!(set.iter().iter().all(|e| e.state == QPeerState::Pending));
}

#[test]
fn adding_a_known_peer_changes_nothing() {
    let mut set = QPeerSet::new(3, id_with(0));
    set.add(&id_with(5));
    set.set(&id_with(5), QPeerState::Finished);
    set.add(&id_with(5));
    assert_eq!(order(&set), vec![5]);
    assert_eq!(set.get(&id_with(5)), Some(QPeerState::Finished));
    assert!(set.contains(&id_with(5)));
    assert!(!set.contains(&id_with(6)));
    assert_eq!(set.get(&id_with(6)), None);
}

#[test]
fn in_progress_counter_follows_transitions() {
    let mut set = QPeerSet::new(3, id_with(0));
    set.add(&id_with(1));
    set.add(&id_with(2));
    assert_eq!(set.num_in_progress(), 0);
    set.set(&id_with(1), QPeerState::InProgress);
    assert_eq!(set.num_in_progress(), 1);
    set.set(&id_with(1), QPeerState::InProgress);
    assert_eq!(set.num_in_progress(), 1);
    set.set(&id_with(2), QPeerState::InProgress);
    assert_eq!(set.num_in_progress(), 2);
    set.set(&id_with(1), QPeerState::Finished);
    assert_eq!(set.num_in_progress(), 1);
    set.set(&id_with(2), QPeerState::Failed);
    assert_eq!(set.num_in_progress(), 0);
    assert!(set.is_in_state(&id_with(1), QPeerState::Finished));
    assert!(!set.is_in_state(&id_with(2), QPeerState::Finished));
    assert!(!set.is_in_state(&id_with(9), QPeerState::Pending));
}

#[test]
fn candidate_is_the_nearest_pending_peer() {
    let mut set = QPeerSet::new(2, id_with(0));
    assert!(set.candidate().is_none());
    set.add(&id_with(4));
    set.add(&id_with(2));
    set.add(&id_with(8));
    assert_eq!(set.candidate().unwrap().0[0], 2);
    set.set(&id_with(2), QPeerState::InProgress);
    assert_eq!(set.candidate().unwrap().0[0], 4);
    set.set(&id_with(4), QPeerState::Failed);
    assert_eq!(set.candidate().unwrap().0[0], 8);
}

#[test]
fn candidates_are_counted_among_the_nearest_k_only() {
    let mut set = QPeerSet::new(2, id_with(0));
    assert_eq!(set.num_candidates(), 0);
    set.add(&id_with(4));
    set.add(&id_with(2));
    set.add(&id_with(8));
    assert_eq!(set.num_candidates(), 2);
    set.set(&id_with(2), QPeerState::Finished);
    assert_eq!(set.num_candidates(), 1);
    set.set(&id_with(4), QPeerState::Finished);
    assert_eq!(set.num_candidates(), 0);
    assert_eq!(set.candidate().unwrap().0[0], 8);
}

#[test]
fn closest_lists_finished_peers_in_order() {
    let mut set = QPeerSet::new(4, id_with(0));
    for f in [9u8, 3, 7, 1] {
        set.add(&id_with(f));
    }
    set.set(&id_with(7), QPeerState::Finished);
    set.set(&id_with(1), QPeerState::Finished);
    set.set(&id_with(3), QPeerState::Failed);
    let got: Vec<u8> = set.closest().iter().map(|i| i.0[0]).collect();
    assert_eq!(got, vec![1, 7]);
    let got: Vec<u8> = set.iter_finished().iter().map(|i| i.0[0]).collect();
    assert_eq!(got, vec![1, 7]);
}

#[test]
fn key_holds_the_distance_to_the_target() {
    let set = QPeerSet::new(4, id_with(0x0f));
    let key = set.key_for(&id_with(0xf0));
    assert_eq!(key.id.0[0], 0xf0);
    assert_eq!(key.distance.0[0], 0xff);
    let other = Key::new(id_with(1), id_with(1).distance(&id_with(3)));
    assert_eq!(other.distance.0[0], 2);
}
