use babel_kad::kad_id::KadID;
use babel_kad::peer::HostAddr;
use babel_kad::peer::Peer;
use babel_kad::query::KadParams;
use babel_kad::query::QueryAction;
use babel_kad::query::QueryDescriptor;
use babel_kad::query::QueryKind;
use babel_kad::query::QueryResultKind;
use babel_kad::query_manager::deliver;
use babel_kad::query_manager::QueryID;
use babel_kad::query_manager::QueryIO;
use babel_kad::query_manager::QueryManager;
use babel_kad::query_manager::QueryResult;

fn id_with(first: u8) -> KadID {
    let mut bytes = [0u8; 20];
    bytes[0] = first;
    KadID::new(bytes)
}

fn peer(first: u8) -> Peer {
    Peer::new(id_with(first), HostAddr::new(first as u32, 1))
}

struct Net {
    all: Vec<u8>,
    k: usize,
    seeds: Vec<u8>,
    sent: Vec<(u64, u8, u8)>,
    discovered: Vec<u8>,
    results: Vec<QueryResult>,
}

impl Net {
    fn new(all: Vec<u8>, k: usize, seeds: Vec<u8>) -> Self {
        Net { all, k, seeds, sent: Vec::new(), discovered: Vec::new(), results: Vec::new() }
    }

    fn answer(&self, target: u8) -> Vec<Peer> {
        let mut known = self.all.clone();
        known.sort_by_key(|f| f ^ target);
        known.truncate(self.k);
        known.into_iter().map(peer).collect()
    }
}

impl QueryIO for Net {
    fn discover(&mut self, peer: &Peer) {
        self.discovered.push(peer.id.0[0]);
    }

    fn find_closest(&self, _target: &KadID) -> Vec<Peer> {
        self.seeds.iter().map(|f| peer(*f)).collect()
    }

    fn send_find_node(&mut self, qid: QueryID, peer: &KadID, target: &KadID) {
        self.sent.push((qid.to_u64(), peer.0[0], target.0[0]));
    }

    fn send_find_value(&mut self, qid: QueryID, peer: &KadID, target: &KadID) {
        self.sent.push((qid.to_u64(), peer.0[0], target.0[0]));
    }

    fn query_result(&mut self, result: QueryResult) {
        self.results.push(result);
    }
}

fn run_to_end(m: &mut QueryManager, net: &mut Net, qid: QueryID) -> usize {
    let mut steps = 0;
    while let Some((_, to, target)) = net.sent.pop() {
        steps += 1;
        assert!(steps < 10_000);
        let peers = net.answer(target);
        m.on_find_node_response(net, qid, id_with(to), peers, steps as u64);
    }
    steps
}

#[test]
fn query_with_no_seeds_reports_empty_result_and_leaves() {
    let mut m = QueryManager::new(KadParams::new(2, 1), id_with(0));
    let mut net = Net::new(vec![], 2, vec![]);
    let qid = m.query(&mut net, QueryDescriptor::new(QueryKind::FindNode, id_with(9)), 0).unwrap();
    assert_eq!(m.len(), 0);
    assert_eq!(net.results.len(), 1);
    assert_eq!(net.results[0].query_id, qid);
    assert!(matches!(&net.results[0].result, QueryResultKind::FindNode { closest } if closest.is_empty()));
}

#[test]
fn manager_routes_responses_by_query_id() {
    let mut m = QueryManager::new(KadParams::new(2, 1), id_with(0));
    let mut net = Net::new(vec![0x10, 0x20], 2, vec![0x10]);
    let a = m.query(&mut net, QueryDescriptor::new(QueryKind::FindNode, id_with(1)), 0).unwrap();
    let b = m.query(&mut net, QueryDescriptor::new(QueryKind::FindNode, id_with(2)), 0).unwrap();
    assert_ne!(a, b);
    assert_eq!(m.len(), 2);
    assert_eq!(net.sent, vec![(a.to_u64(), 0x10, 1), (b.to_u64(), 0x10, 2)]);
    net.sent.clear();
    m.on_find_node_response(&mut net, a, id_with(0x10), vec![], 1);
    assert_eq!(m.len(), 1);
    assert_eq!(net.results.len(), 1);
    assert_eq!(net.results[0].query_id, a);
    m.on_find_node_response(&mut net, a, id_with(0x10), vec![], 2);
    assert_eq!(net.results.len(), 1);
    assert_eq!(m.len(), 1);
}

#[test]
fn responses_for_unknown_query_or_peer_or_kind_are_dropped() {
    let mut m = QueryManager::new(KadParams::new(2, 1), id_with(0));
    let mut net = Net::new(vec![0x10], 2, vec![0x10]);
    let a = m.query(&mut net, QueryDescriptor::new(QueryKind::FindNode, id_with(1)), 0).unwrap();
    let mut out = Vec::new();
    assert!(!m.respond_find_node(QueryID::from_u64(12345), id_with(0x10), vec![], 1, &mut out));
    assert!(!m.respond_find_node(a, id_with(0x77), vec![], 1, &mut out));
    assert!(!m.respond_find_value(a, id_with(0x10), vec![], None, 1, &mut out));
    assert!(out.is_empty());
    assert_eq!(m.len(), 1);
    assert!(m.respond_find_node(a, id_with(0x10), vec![peer(0x20)], 1, &mut out));
    assert_eq!(out.len(), 2);
    assert_eq!(m.len(), 1);
}

#[test]
fn cancel_drops_the_query_silently() {
    let mut m = QueryManager::new(KadParams::new(2, 1), id_with(0));
    let mut net = Net::new(vec![0x10], 2, vec![0x10]);
    let a = m.query(&mut net, QueryDescriptor::new(QueryKind::FindNode, id_with(1)), 0).unwrap();
    m.cancel(&mut net, a);
    assert_eq!(m.len(), 0);
    assert!(net.results.is_empty());
    m.cancel(&mut net, a);
    assert!(!m.drop_query(a));
}

#[test]
fn check_timeouts_fails_silent_peers_of_every_query() {
    let mut m = QueryManager::new(KadParams::new(2, 1), id_with(0));
    let mut net = Net::new(vec![0x10, 0x20], 2, vec![0x10, 0x20]);
    let a = m.query(&mut net, QueryDescriptor::new(QueryKind::FindNode, id_with(1)), 0).unwrap();
    let b = m.query(&mut net, QueryDescriptor::new(QueryKind::FindValue, id_with(1)), 0).unwrap();
    net.sent.clear();
    m.check_timeouts(&mut net, 3000);
    assert!(net.sent.is_empty());
    m.check_timeouts(&mut net, 3001);
    let mut sent = net.sent.clone();
    sent.sort();
    let mut expected = vec![(a.to_u64(), 0x20, 1), (b.to_u64(), 0x20, 1)];
    expected.sort();
    assert_eq!(sent, expected);
    assert_eq!(m.len(), 2);
    m.check_timeouts(&mut net, 7000);
    assert_eq!(m.len(), 0);
    assert_eq!(net.results.len(), 2);
    let mut out = Vec::new();
    assert!(!m.expire(a, 9000, &mut out));
}

#[test]
fn query_converges_in_simulated_network() {
    let all: Vec<u8> = (1..=60u8).map(|i| i.wrapping_mul(37)).collect();
    let target = 0x5au8;
    let k = 4usize;
    let mut truth = all.clone();
    truth.sort_by_key(|f| f ^ target);
    truth.truncate(k);
    for alpha in 1..=3u32 {
        let mut m = QueryManager::new(KadParams::new(k as u32, alpha), id_with(0));
        let mut net = Net::new(all.clone(), k, truth.clone());
        let qid =
            m.query(&mut net, QueryDescriptor::new(QueryKind::FindNode, id_with(target)), 0).unwrap();
        let steps = run_to_end(&mut m, &mut net, qid);
        assert!(steps <= all.len());
        assert_eq!(m.len(), 0);
        assert_eq!(net.results.len(), 1);
        match &net.results[0].result {
            QueryResultKind::FindNode { closest } => {
                let got: Vec<u8> = closest.iter().map(|i| i.0[0]).collect();
                assert!(got.len() <= k);
                assert_eq!(got, truth);
            }
            other => panic!("unexpected result {:?}", other),
        }
    }
}

#[test]
fn query_from_far_seed_terminates_and_finds_the_nearest() {
    let all: Vec<u8> = (1..=60u8).map(|i| i.wrapping_mul(37)).collect();
    let target = 0x5au8;
    let k = 4usize;
    let mut truth = all.clone();
    truth.sort_by_key(|f| f ^ target);
    let far = *truth.last().unwrap();
    truth.truncate(k);
    let mut m = QueryManager::new(KadParams::new(k as u32, 1), id_with(0));
    let mut net = Net::new(all.clone(), k, vec![far]);
    let qid =
        m.query(&mut net, QueryDescriptor::new(QueryKind::FindNode, id_with(target)), 0).unwrap();
    let steps = run_to_end(&mut m, &mut net, qid);
    assert!(steps <= all.len());
    assert_eq!(m.len(), 0);
    match &net.results[0].result {
        QueryResultKind::FindNode { closest } => {
            let got: Vec<u8> = closest.iter().map(|i| i.0[0]).collect();
            assert_eq!(&got[..k], &truth[..]);
            assert_eq!(got.len(), k + 1);
            assert_eq!(got[k], far);
        }
        other => panic!("unexpected result {:?}", other),
    }
}

#[test]
fn deliver_hands_actions_over_in_order() {
    let mut net = Net::new(vec![], 1, vec![]);
    let qid = QueryID::from_u64(77);
    let actions = vec![
        QueryAction::Discover(peer(3)),
        QueryAction::SendFindNode { peer: id_with(4), target: id_with(5) },
        QueryAction::SendFindValue { peer: id_with(6), target: id_with(7) },
        QueryAction::Finished(QueryResultKind::FindNode { closest: vec![id_with(8)] }),
    ];
    deliver(&mut net, qid, actions);
    assert_eq!(net.discovered, vec![3]);
    assert_eq!(net.sent, vec![(77, 4, 5), (77, 6, 7)]);
    assert_eq!(net.results.len(), 1);
    assert_eq!(net.results[0].query_id.to_u64(), 77);
}
