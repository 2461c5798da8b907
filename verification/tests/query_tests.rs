use babel_kad::kad_id::KadID;
use babel_kad::peer::HostAddr;
use babel_kad::peer::Peer;
use babel_kad::qpeerset::QPeerState;
use babel_kad::query::KadParams;
use babel_kad::query::Query;
use babel_kad::query::QueryAction;
use babel_kad::query::QueryDescriptor;
use babel_kad::query::QueryKind;
use babel_kad::query::QueryResultKind;
use babel_kad::query::QueryStatus;
use babel_kad::query::REQUEST_TIMEOUT_MS;

fn id_with(first: u8) -> KadID {
    let mut bytes = [0u8; 20];
    bytes[0] = first;
    KadID::new(bytes)
}

fn peer(first: u8) -> Peer {
    Peer::new(id_with(first), HostAddr::new(0x0a00_0000 + first as u32, 9000))
}

fn sent_to(actions: &[QueryAction]) -> Vec<u8> {
    actions
        .iter()
        .filter_map(|a| match a {
            QueryAction::SendFindNode { peer, .. } => Some(peer.0[0]),
            QueryAction::SendFindValue { peer, .. } => Some(peer.0[0]),
            _ => None,
        })
        .collect()
}

fn found_nodes(actions: &[QueryAction]) -> Option<Vec<u8>> {
    actions.iter().find_map(|a| match a {
        QueryAction::Finished(QueryResultKind::FindNode { closest }) => {
            Some(closest.iter().map(|i| i.0[0]).collect())
        }
        _ => None,
    })
}

fn node_query(k: u32, alpha: u32, target: u8, seeds: &[u8]) -> Query {
    let seeds: Vec<Peer> = seeds.iter().map(|f| peer(*f)).collect();
    Query::new(
        KadParams::new(k, alpha),
        id_with(0),
        QueryDescriptor::new(QueryKind::FindNode, id_with(target)),
        &seeds,
    )
}

#[test]
fn query_without_seeds_finishes_at_once_with_empty_result() {
    let mut q = node_query(2, 1, 1, &[]);
    let mut out = Vec::new();
    assert_eq!(q.start(0, &mut out), QueryStatus::Finished);
    assert_eq!(out.len(), 1);
    assert_eq!(found_nodes(&out), Some(vec![]));
}

#[test]
fn seeds_exclude_the_local_node() {
    let mut q = node_query(2, 3, 1, &[0, 0x80]);
    let mut out = Vec::new();
    assert_eq!(q.start(5, &mut out), QueryStatus::Active);
    assert_eq!(sent_to(&out), vec![0x80]);
    assert_eq!(q.candidates().len(), 1);
    assert_eq!(q.requests().len(), 1);
    assert_eq!(q.requests()[0].start, 5);
}

#[test]
fn requests_are_bounded_by_alpha_and_go_to_the_nearest() {
    let mut q = node_query(4, 2, 0x01, &[0x80, 0x40, 0x03, 0x10]);
    let mut out = Vec::new();
    assert_eq!(q.start(0, &mut out), QueryStatus::Active);
    assert_eq!(sent_to(&out), vec![0x03, 0x10]);
    assert_eq!(out.len(), 2);
    let states: Vec<QPeerState> = q.candidates().iter().map(|e| e.state).collect();
    assert_eq!(
        states,
        vec![
            QPeerState::InProgress,
            QPeerState::InProgress,
            QPeerState::Pending,
            QPeerState::Pending
        ]
    );
}

#[test]
fn only_the_nearest_k_are_ever_asked() {
    let mut q = node_query(2, 1, 0x01, &[0x80, 0x40]);
    let mut out = Vec::new();
    q.start(0, &mut out);
    assert_eq!(sent_to(&out), vec![0x40]);
    out.clear();
    let status = q.on_find_node_response(id_with(0x40), vec![peer(0x02), peer(0)], 10, &mut out);
    assert_eq!(status, QueryStatus::Active);
    assert_eq!(out.len(), 2);
    assert!(matches!(out[0], QueryAction::Discover(p) if p.id.0[0] == 0x02));
    assert_eq!(sent_to(&out), vec![0x02]);
    out.clear();
    let status = q.on_find_node_response(id_with(0x02), vec![], 20, &mut out);
    assert_eq!(status, QueryStatus::Finished);
    assert_eq!(found_nodes(&out), Some(vec![0x02, 0x40]));
    assert_eq!(q.candidates()[2].state, QPeerState::Pending);
}

#[test]
fn empty_response_from_only_candidate_finishes_query() {
    let mut q = node_query(2, 3, 0x01, &[0x80]);
    let mut out = Vec::new();
    assert_eq!(q.start(0, &mut out), QueryStatus::Active);
    assert_eq!(sent_to(&out), vec![0x80]);
    out.clear();
    let status = q.on_find_node_response(id_with(0x80), vec![], 1, &mut out);
    assert_eq!(status, QueryStatus::Finished);
    assert_eq!(out.len(), 1);
    assert_eq!(found_nodes(&out), Some(vec![0x80]));
    assert!(q.requests().is_empty());
}

#[test]
fn timed_out_peer_fails_and_next_candidate_is_asked() {
    let mut q = node_query(3, 2, 0x01, &[0x02, 0x04, 0x08]);
    let mut out = Vec::new();
    q.start(100, &mut out);
    assert_eq!(sent_to(&out), vec![0x02, 0x04]);
    out.clear();
    assert_eq!(q.check_timeouts(100 + REQUEST_TIMEOUT_MS, &mut out), QueryStatus::Active);
    assert!(out.is_empty());
    assert_eq!(q.requests().len(), 2);
    assert_eq!(q.check_timeouts(101 + REQUEST_TIMEOUT_MS, &mut out), QueryStatus::Active);
    assert_eq!(sent_to(&out), vec![0x08]);
    let states: Vec<QPeerState> = q.candidates().iter().map(|e| e.state).collect();
    assert_eq!(states, vec![QPeerState::Failed, QPeerState::Failed, QPeerState::InProgress]);
    assert_eq!(q.requests().len(), 1);
    assert_eq!(q.requests()[0].peer.0[0], 0x08);
    assert_eq!(q.requests()[0].start, 101 + REQUEST_TIMEOUT_MS);
    out.clear();
    let status = q.check_timeouts(200 + 2 * REQUEST_TIMEOUT_MS, &mut out);
    assert_eq!(status, QueryStatus::Finished);
    assert_eq!(found_nodes(&out), Some(vec![]));
}

#[test]
fn check_timeouts_with_clock_before_start_expires_nothing() {
    let mut q = node_query(3, 2, 0x01, &[0x02]);
    let mut out = Vec::new();
    q.start(5000, &mut out);
    out.clear();
    assert_eq!(q.check_timeouts(10, &mut out), QueryStatus::Active);
    assert!(out.is_empty());
    assert_eq!(q.requests().len(), 1);
}

#[test]
fn late_response_of_failed_peer_marks_it_finished() {
    let mut q = node_query(3, 1, 0x01, &[0x02, 0x04]);
    let mut out = Vec::new();
    q.start(0, &mut out);
    q.check_timeouts(4000, &mut out);
    out.clear();
    let status = q.on_find_node_response(id_with(0x02), vec![], 4100, &mut out);
    assert_eq!(status, QueryStatus::Active);
    assert_eq!(q.candidates()[0].state, QPeerState::Finished);
    assert_eq!(q.requests().len(), 1);
    assert!(out.is_empty());
}

#[test]
fn value_response_finishes_value_lookup() {
    let seeds = vec![peer(0x02), peer(0x04)];
    let mut q = Query::new(
        KadParams::new(3, 2),
        id_with(0),
        QueryDescriptor::new(QueryKind::FindValue, id_with(1)),
        &seeds,
    );
    let mut out = Vec::new();
    assert_eq!(q.start(0, &mut out), QueryStatus::Active);
    assert!(matches!(out[0], QueryAction::SendFindValue { peer, .. } if peer.0[0] == 0x02));
    assert_eq!(sent_to(&out), vec![0x02, 0x04]);
    out.clear();
    let status = q.on_find_value_response(id_with(0x04), vec![peer(0x08)], None, 1, &mut out);
    assert_eq!(status, QueryStatus::Active);
    assert_eq!(sent_to(&out), vec![0x08]);
    out.clear();
    let status =
        q.on_find_value_response(id_with(0x02), vec![], Some(vec![1, 2, 3]), 2, &mut out);
    assert_eq!(status, QueryStatus::Finished);
    assert_eq!(out.len(), 1);
    match &out[0] {
        QueryAction::Finished(QueryResultKind::FindValue { value, closest }) => {
            assert_eq!(value.as_deref(), Some(&[1u8, 2, 3][..]));
            assert_eq!(closest.unwrap().0[0], 0x04);
        }
        other => panic!("unexpected action {:?}", other),
    }
}

#[test]
fn value_lookup_without_other_finished_peer_has_no_hint() {
    let seeds = vec![peer(0x02)];
    let mut q = Query::new(
        KadParams::new(3, 2),
        id_with(0),
        QueryDescriptor::new(QueryKind::FindValue, id_with(1)),
        &seeds,
    );
    let mut out = Vec::new();
    q.start(0, &mut out);
    out.clear();
    let status = q.on_find_value_response(id_with(0x02), vec![], Some(vec![]), 2, &mut out);
    assert_eq!(status, QueryStatus::Finished);
    match &out[0] {
        QueryAction::Finished(QueryResultKind::FindValue { value, closest }) => {
            assert_eq!(value.as_deref(), Some(&[][..]));
            assert!(closest.is_none());
        }
        other => panic!("unexpected action {:?}", other),
    }
}

#[test]
fn value_lookup_without_value_ends_like_node_lookup() {
    let seeds = vec![peer(0x02)];
    let mut q = Query::new(
        KadParams::new(3, 2),
        id_with(0),
        QueryDescriptor::new(QueryKind::FindValue, id_with(1)),
        &seeds,
    );
    let mut out = Vec::new();
    q.start(0, &mut out);
    out.clear();
    let status = q.on_find_value_response(id_with(0x02), vec![], None, 2, &mut out);
    assert_eq!(status, QueryStatus::Finished);
    match &out[0] {
        QueryAction::Finished(QueryResultKind::FindValue { value, closest }) => {
            assert!(value.is_none());
            assert_eq!(closest.unwrap().0[0], 0x02);
        }
        other => panic!("unexpected action {:?}", other),
    }
}

#[test]
fn accessors_report_kind_and_target() {
    let q = node_query(3, 2, 0x07, &[0x02]);
    assert_eq!(q.query_kind(), QueryKind::FindNode);
    assert_eq!(q.query_target().0[0], 0x07);
    assert!(q.knows(&id_with(0x02)));
    assert!(!q.knows(&id_with(0x03)));
}
