use indy_vdr::config::PoolConfig;
use indy_vdr::consensus::{NodeEvent, RequestResult, TimingEntry};
use indy_vdr::error::{ConfigFault, RequestFault, VdrError};
use indy_vdr::genesis::GenesisStore;
use indy_vdr::pool::{LocalPool, OutboundRequest, PoolSetup, SharedPool, Target};
use indy_vdr::runner::PoolRunner;

fn transactions(n: usize) -> Vec<String> {
    (1..=n)
        .map(|i| format!("Node{} 10.0.0.{}:97{:02} key{}", i, i, i, i))
        .collect()
}

fn config(read_nodes: usize, quorum: usize) -> PoolConfig {
    PoolConfig {
        request_read_nodes: read_nodes,
        quorum_threshold: quorum,
        ..PoolConfig::default()
    }
}

fn setup(nodes: usize, read_nodes: usize, quorum: usize) -> PoolSetup {
    let store = GenesisStore::build(&transactions(nodes)).unwrap();
    PoolSetup::build(config(read_nodes, quorum), store).unwrap()
}

fn request(id: u64, target: Target) -> OutboundRequest {
    OutboundRequest {
        request_id: id,
        payload: vec![1, 2, 3],
        target,
        deadline: 200,
    }
}

fn asked(pending: &indy_vdr::pool::PendingRequest) -> Vec<usize> {
    pending.recipients().iter().map(|r| r.0).collect()
}

fn say(node: usize, value: &str, latency: u64) -> NodeEvent {
    NodeEvent::Reply {
        node,
        value: value.to_string(),
        latency,
    }
}

#[test]
fn setup_refuses_quorum_larger_than_roster() {
    let store = GenesisStore::build(&transactions(2)).unwrap();
    let r = PoolSetup::build(config(3, 3), store);
    assert!(matches!(
        r,
        Err(VdrError::Config(ConfigFault::QuorumExceedsRoster))
    ));
}

#[test]
fn setup_refuses_inconsistent_config() {
    let store = GenesisStore::build(&transactions(4)).unwrap();
    let r = PoolSetup::build(config(1, 2), store);
    assert!(matches!(
        r,
        Err(VdrError::Config(ConfigFault::ReadNodesBelowQuorum))
    ));
}

#[test]
fn setup_exposes_config_roster_and_log() {
    let s = setup(4, 3, 2);
    assert_eq!(s.config(), config(3, 2));
    assert_eq!(s.roster().len(), 4);
    assert_eq!(s.roster()[2].id, "Node3");
    assert_eq!(s.get_transactions(), transactions(4));
    assert_eq!(s.genesis_log(), transactions(4).join("\n"));
    assert_eq!(s.genesis_log(), s.genesis_log());
    assert_eq!(s.root_hash().len(), 32);
}

#[test]
fn begin_all_asks_every_node_in_order() {
    let s = setup(4, 2, 2);
    let pending = s.begin(request(7, Target::All), 3).unwrap();
    assert_eq!(asked(&pending), vec![0, 1, 2, 3]);
    assert_eq!(pending.id(), 7);
    assert_eq!(pending.deadline_ms(), 200);
    assert_eq!(pending.payload_bytes(), &vec![1u8, 2, 3]);
    let recipients = pending.recipients();
    assert_eq!(recipients[1].1.address, "10.0.0.2:9702");
}

#[test]
fn begin_adaptive_goes_round_the_roster_from_the_offset() {
    let s = setup(4, 3, 2);
    assert_eq!(asked(&s.begin(request(1, Target::Adaptive), 0).unwrap()), vec![0, 1, 2]);
    assert_eq!(asked(&s.begin(request(1, Target::Adaptive), 1).unwrap()), vec![1, 2, 3]);
    assert_eq!(asked(&s.begin(request(1, Target::Adaptive), 2).unwrap()), vec![2, 3, 0]);
    assert_eq!(asked(&s.begin(request(1, Target::Adaptive), 3).unwrap()), vec![3, 0, 1]);
    assert_eq!(asked(&s.begin(request(1, Target::Adaptive), 4).unwrap()), vec![0, 1, 2]);
    assert_eq!(
        asked(&s.begin(request(1, Target::Adaptive), usize::MAX).unwrap()),
        vec![
            usize::MAX % 4,
            (usize::MAX % 4 + 1) % 4,
            (usize::MAX % 4 + 2) % 4
        ]
    );
}

#[test]
fn begin_adaptive_never_asks_more_nodes_than_there_are() {
    let s = setup(3, 10, 2);
    assert_eq!(asked(&s.begin(request(1, Target::Adaptive), 1).unwrap()), vec![1, 2, 0]);
}

#[test]
fn begin_single_node_has_threshold_one() {
    let s = setup(4, 3, 3);
    let mut pending = s.begin(request(1, Target::Node(2)), 0).unwrap();
    assert_eq!(asked(&pending), vec![2]);
    pending.handle(say(2, "v", 4));
    assert_eq!(
        pending.outcome(),
        Some((
            RequestResult::Reply("v".to_string()),
            vec![TimingEntry { node: 2, latency: Some(4) }]
        ))
    );
}

#[test]
fn begin_refuses_unknown_node_and_empty_payload() {
    let s = setup(4, 3, 3);
    assert!(matches!(
        s.begin(request(1, Target::Node(4)), 0),
        Err(VdrError::Request(RequestFault::UnknownNode))
    ));
    let empty = OutboundRequest {
        request_id: 1,
        payload: Vec::new(),
        target: Target::Node(9),
        deadline: 1,
    };
    assert!(matches!(
        s.begin(empty, 0),
        Err(VdrError::Request(RequestFault::EmptyRequest))
    ));
}

#[test]
fn pending_request_reaches_consensus_with_timing() {
    let s = setup(4, 4, 3);
    let mut pending = s.begin(request(1, Target::Adaptive), 0).unwrap();
    assert_eq!(pending.outcome(), None);
    pending.handle(say(0, "X", 10));
    pending.handle(say(1, "X", 20));
    assert_eq!(pending.outcome(), None);
    pending.handle(say(2, "X", 50));
    assert_eq!(
        pending.outcome(),
        Some((
            RequestResult::Reply("X".to_string()),
            vec![
                TimingEntry { node: 0, latency: Some(10) },
                TimingEntry { node: 1, latency: Some(20) },
                TimingEntry { node: 2, latency: Some(50) },
                TimingEntry { node: 3, latency: None },
            ]
        ))
    );
    assert!(!pending.timed_out());
}

#[test]
fn extended_setup_keeps_the_old_one_whole() {
    let s = setup(2, 2, 2);
    let more = vec!["Node3 10.0.0.3:9703 key3".to_string()];
    let next = s.extended(&more).unwrap();
    assert_eq!(s.roster().len(), 2);
    assert_eq!(next.roster().len(), 3);
    assert_eq!(next.get_transactions(), transactions(3));
    assert_eq!(next.config(), s.config());
    let full = setup(3, 2, 2);
    assert_eq!(next.root_hash(), full.root_hash());
    assert!(matches!(
        s.extended(&vec!["bad".to_string()]),
        Err(VdrError::Config(ConfigFault::MalformedTransaction))
    ));
}

#[test]
fn local_pool_refresh_is_seen_by_every_handle() {
    let pool = LocalPool::build(setup(2, 2, 2));
    let other = pool.share();
    assert_eq!(other.snapshot().roster().len(), 2);
    let more = vec!["Node3 10.0.0.3:9703 key3".to_string()];
    assert_eq!(pool.refresh(&more), Ok(()));
    assert_eq!(pool.snapshot().roster().len(), 3);
    assert_eq!(other.snapshot().roster().len(), 3);
    assert_eq!(other.snapshot().get_transactions(), transactions(3));
}

#[test]
fn local_pool_failed_refresh_changes_nothing() {
    let pool = LocalPool::build(setup(2, 2, 2));
    let bad = vec!["Node3 10.0.0.3:9703 key3".to_string(), "x".to_string()];
    assert_eq!(
        pool.refresh(&bad),
        Err(VdrError::Config(ConfigFault::MalformedTransaction))
    );
    assert_eq!(pool.snapshot().get_transactions(), transactions(2));
}

#[test]
fn request_in_flight_keeps_the_roster_it_started_with() {
    let pool = LocalPool::build(setup(2, 2, 2));
    let before = pool.snapshot();
    let pending = pool.begin(request(1, Target::All), 0).unwrap();
    let more = vec![
        "Node3 10.0.0.3:9703 key3".to_string(),
        "Node4 10.0.0.4:9704 key4".to_string(),
    ];
    assert_eq!(pool.refresh(&more), Ok(()));
    assert_eq!(asked(&pending), vec![0, 1]);
    assert_eq!(before.roster().len(), 2);
    assert_eq!(before.get_transactions(), transactions(2));
    let after = pool.begin(request(2, Target::All), 0).unwrap();
    assert_eq!(asked(&after), vec![0, 1, 2, 3]);
    assert_eq!(pool.snapshot().get_transactions(), transactions(4));
}

#[test]
fn shared_pool_refresh_is_seen_by_every_handle() {
    let pool = SharedPool::build(setup(2, 2, 2));
    let other = pool.share();
    let before = other.snapshot();
    let pending = other.begin(request(1, Target::Adaptive), 5).unwrap();
    assert_eq!(asked(&pending), vec![1, 0]);
    let more = vec!["Node3 10.0.0.3:9703 key3".to_string()];
    assert_eq!(pool.refresh(&more), Ok(()));
    assert_eq!(other.snapshot().roster().len(), 3);
    assert_eq!(before.roster().len(), 2);
    assert_eq!(asked(&pending), vec![1, 0]);
    assert_eq!(
        pool.refresh(&vec!["bad".to_string()]),
        Err(VdrError::Config(ConfigFault::MalformedTransaction))
    );
    assert_eq!(pool.snapshot().get_transactions(), transactions(3));
}

#[test]
fn pool_begin_refuses_empty_payload() {
    let pool = SharedPool::build(setup(2, 2, 2));
    let empty = OutboundRequest {
        request_id: 1,
        payload: Vec::new(),
        target: Target::All,
        deadline: 1,
    };
    assert!(matches!(
        pool.begin(empty.clone(), 0),
        Err(VdrError::Request(RequestFault::EmptyRequest))
    ));
    let local = LocalPool::build(setup(2, 2, 2));
    assert!(matches!(
        local.begin(empty, 0),
        Err(VdrError::Request(RequestFault::EmptyRequest))
    ));
}

#[test]
fn runner_stopped_with_a_command_in_flight_cancels_it() {
    let mut runner = PoolRunner::new(LocalPool::build(setup(4, 4, 3)));
    assert!(runner.is_accepting());
    assert_eq!(runner.submit(request(11, Target::Adaptive), 0), Ok(11));
    assert_eq!(runner.in_flight(), 1);
    assert_eq!(runner.deliver(11, say(0, "X", 5)), None);
    let resolved = runner.stop();
    assert_eq!(resolved.len(), 1);
    assert_eq!(resolved[0].request_id, 11);
    assert_eq!(
        resolved[0].result,
        RequestResult::Failed(VdrError::Cancelled)
    );
    assert_eq!(
        resolved[0].timing,
        vec![
            TimingEntry { node: 0, latency: Some(5) },
            TimingEntry { node: 1, latency: None },
            TimingEntry { node: 2, latency: None },
            TimingEntry { node: 3, latency: None },
        ]
    );
    assert_eq!(runner.in_flight(), 0);
    assert!(!runner.is_accepting());
}

#[test]
fn runner_takes_nothing_after_stop() {
    let mut runner = PoolRunner::new(LocalPool::build(setup(4, 4, 3)));
    assert_eq!(runner.stop().len(), 0);
    assert_eq!(
        runner.submit(request(1, Target::All), 0),
        Err(VdrError::Cancelled)
    );
    assert_eq!(runner.in_flight(), 0);
    assert_eq!(runner.deliver(1, NodeEvent::Deadline), None);
    assert_eq!(runner.stop().len(), 0);
}

#[test]
fn runner_resolves_commands_and_forgets_them() {
    let mut runner = PoolRunner::new(LocalPool::build(setup(3, 3, 2)));
    assert_eq!(runner.submit(request(1, Target::All), 0), Ok(1));
    assert_eq!(runner.submit(request(2, Target::All), 0), Ok(2));
    assert_eq!(
        runner.submit(request(1, Target::All), 0),
        Err(VdrError::Request(RequestFault::DuplicateRequest))
    );
    assert_eq!(runner.in_flight(), 2);
    assert_eq!(runner.deliver(2, say(1, "B", 3)), None);
    assert_eq!(runner.deliver(1, say(0, "A", 1)), None);
    let done = runner.deliver(1, say(2, "A", 2)).unwrap();
    assert_eq!(done.request_id, 1);
    assert_eq!(done.result, RequestResult::Reply("A".to_string()));
    assert_eq!(
        done.timing,
        vec![
            TimingEntry { node: 0, latency: Some(1) },
            TimingEntry { node: 1, latency: None },
            TimingEntry { node: 2, latency: Some(2) },
        ]
    );
    assert_eq!(runner.in_flight(), 1);
    assert_eq!(runner.deliver(1, say(1, "A", 9)), None);
    assert_eq!(runner.submit(request(1, Target::All), 0), Ok(1));
    let timed = runner.deliver(2, NodeEvent::Deadline).unwrap();
    assert_eq!(timed.request_id, 2);
    assert_eq!(timed.result, RequestResult::Failed(VdrError::NoConsensus));
    let rest = runner.stop();
    assert_eq!(rest.len(), 1);
    assert_eq!(rest[0].request_id, 1);
    assert_eq!(rest[0].result, RequestResult::Failed(VdrError::Cancelled));
}

#[test]
fn runner_refuses_what_the_pool_refuses() {
    let mut runner = PoolRunner::new(LocalPool::build(setup(3, 3, 2)));
    assert_eq!(
        runner.submit(request(1, Target::Node(3)), 0),
        Err(VdrError::Request(RequestFault::UnknownNode))
    );
    assert_eq!(runner.in_flight(), 0);
    assert!(runner.is_accepting());
}

#[test]
fn runner_cancels_every_command_in_order() {
    let mut runner = PoolRunner::new(LocalPool::build(setup(3, 3, 2)));
    for id in [5u64, 3, 9] {
        assert_eq!(runner.submit(request(id, Target::Adaptive), id as usize), Ok(id));
    }
    let resolved = runner.stop();
    let ids: Vec<u64> = resolved.iter().map(|r| r.request_id).collect();
    assert_eq!(ids, vec![5, 3, 9]);
    for r in resolved {
        assert_eq!(r.result, RequestResult::Failed(VdrError::Cancelled));
        assert_eq!(r.timing.len(), 3);
    }
}

#[test]
fn runner_refuses_a_request_without_payload() {
    let mut runner = PoolRunner::new(LocalPool::build(setup(3, 3, 2)));
    let empty = OutboundRequest {
        request_id: 4,
        payload: Vec::new(),
        target: Target::Node(9),
        deadline: 1,
    };
    assert_eq!(
        runner.submit(empty, 0),
        Err(VdrError::Request(RequestFault::EmptyRequest))
    );
    assert_eq!(runner.in_flight(), 0);
}

#[test]
fn runner_plans_from_the_offset() {
    let mut runner = PoolRunner::new(LocalPool::build(setup(4, 2, 2)));
    assert_eq!(runner.submit(request(1, Target::Adaptive), 3), Ok(1));
    assert_eq!(runner.deliver(1, say(1, "X", 1)), None);
    assert_eq!(runner.deliver(1, say(3, "X", 2)), None);
    let done = runner.deliver(1, say(0, "X", 3)).unwrap();
    assert_eq!(done.result, RequestResult::Reply("X".to_string()));
    assert_eq!(
        done.timing,
        vec![
            TimingEntry { node: 3, latency: Some(2) },
            TimingEntry { node: 0, latency: Some(3) },
        ]
    );
}
