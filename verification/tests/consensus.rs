use indy_vdr::consensus::{
    ConsensusState, NodeEvent, NodeFault, RequestResult, TallyEntry, TimingEntry,
};
use indy_vdr::error::VdrError;

fn reply(node: usize, value: &str, latency: u64) -> NodeEvent {
    NodeEvent::Reply {
        node,
        value: value.to_string(),
        latency,
    }
}

fn entry(node: usize, latency: Option<u64>) -> TimingEntry {
    TimingEntry { node, latency }
}

#[test]
fn start_refuses_bad_plans() {
    assert!(ConsensusState::start(vec![0, 1, 2], 0).is_none());
    assert!(ConsensusState::start(vec![0, 1, 2], 4).is_none());
    assert!(ConsensusState::start(vec![0, 1, 1], 2).is_none());
    assert!(ConsensusState::start(Vec::new(), 1).is_none());
    assert!(ConsensusState::start(vec![0, 1, 2], 3).is_some());
    assert!(ConsensusState::start(vec![7], 1).is_some());
}

#[test]
fn scenario_three_of_four_agree_and_one_is_silent() {
    let mut state = ConsensusState::start(vec![1, 2, 3, 4], 3).unwrap();
    state.handle(reply(1, "X", 10));
    assert!(!state.is_decided());
    state.handle(reply(2, "X", 25));
    assert!(!state.is_decided());
    state.handle(reply(3, "X", 50));
    assert_eq!(
        state.decision(),
        Some(RequestResult::Reply("X".to_string()))
    );
    assert!(!state.timed_out());
    let timing = state.timing();
    assert_eq!(
        timing,
        vec![
            entry(1, Some(10)),
            entry(2, Some(25)),
            entry(3, Some(50)),
            entry(4, None)
        ]
    );
    state.handle(NodeEvent::Deadline);
    assert_eq!(
        state.decision(),
        Some(RequestResult::Reply("X".to_string()))
    );
    assert_eq!(state.timing().len(), 4);
}

#[test]
fn scenario_two_against_two_is_no_consensus() {
    let mut state = ConsensusState::start(vec![1, 2, 3, 4], 3).unwrap();
    state.handle(reply(1, "X", 5));
    state.handle(reply(2, "X", 6));
    state.handle(reply(3, "Y", 7));
    assert!(!state.is_decided());
    state.handle(reply(4, "Y", 8));
    assert_eq!(
        state.decision(),
        Some(RequestResult::Failed(VdrError::NoConsensus))
    );
    assert!(!state.timed_out());
    assert_eq!(state.timing().len(), 4);
}

#[test]
fn quorum_wins_whatever_the_order_of_the_others() {
    let orders: Vec<Vec<NodeEvent>> = vec![
        vec![reply(0, "Y", 1), reply(1, "X", 2), reply(2, "X", 3), reply(3, "X", 4)],
        vec![reply(1, "X", 2), reply(0, "Y", 1), reply(3, "X", 4), reply(2, "X", 3)],
        vec![reply(3, "X", 4), reply(2, "X", 3), reply(1, "X", 2), reply(0, "Y", 1)],
        vec![
            NodeEvent::Failure { node: 0, fault: NodeFault::Connection },
            reply(2, "X", 3),
            reply(3, "X", 4),
            reply(1, "X", 2),
        ],
    ];
    for events in orders {
        let mut state = ConsensusState::start(vec![0, 1, 2, 3], 3).unwrap();
        for e in events {
            state.handle(e);
        }
        assert_eq!(
            state.decision(),
            Some(RequestResult::Reply("X".to_string()))
        );
    }
}

#[test]
fn deadline_without_quorum_fails_with_no_consensus() {
    let mut state = ConsensusState::start(vec![0, 1, 2, 3], 3).unwrap();
    state.handle(reply(0, "X", 1));
    state.handle(reply(1, "X", 2));
    state.handle(NodeEvent::Deadline);
    assert_eq!(
        state.decision(),
        Some(RequestResult::Failed(VdrError::NoConsensus))
    );
    assert!(state.timed_out());
    assert_eq!(
        state.timing(),
        vec![
            entry(0, Some(1)),
            entry(1, Some(2)),
            entry(2, None),
            entry(3, None)
        ]
    );
}

#[test]
fn replies_after_the_deadline_are_discarded() {
    let mut state = ConsensusState::start(vec![0, 1, 2], 2).unwrap();
    state.handle(reply(0, "X", 1));
    state.handle(NodeEvent::Deadline);
    state.handle(reply(1, "X", 2));
    state.handle(reply(2, "X", 3));
    assert_eq!(
        state.decision(),
        Some(RequestResult::Failed(VdrError::NoConsensus))
    );
    assert_eq!(state.tally(&"X".to_string()), 1);
    assert_eq!(
        state.timing(),
        vec![entry(0, Some(1)), entry(1, None), entry(2, None)]
    );
}

#[test]
fn threshold_one_takes_the_first_reply() {
    let mut state = ConsensusState::start(vec![0, 1, 2], 1).unwrap();
    state.handle(reply(2, "first", 9));
    assert_eq!(
        state.decision(),
        Some(RequestResult::Reply("first".to_string()))
    );
    state.handle(reply(0, "second", 10));
    assert_eq!(
        state.decision(),
        Some(RequestResult::Reply("first".to_string()))
    );
}

#[test]
fn single_node_roster_with_threshold_one() {
    let mut state = ConsensusState::start(vec![0], 1).unwrap();
    state.handle(reply(0, "only", 3));
    assert_eq!(
        state.decision(),
        Some(RequestResult::Reply("only".to_string()))
    );
    assert_eq!(state.timing(), vec![entry(0, Some(3))]);
}

#[test]
fn single_node_failure_is_no_consensus() {
    let mut state = ConsensusState::start(vec![0], 1).unwrap();
    state.handle(NodeEvent::Failure { node: 0, fault: NodeFault::Undecodable });
    assert_eq!(
        state.decision(),
        Some(RequestResult::Failed(VdrError::NoConsensus))
    );
    assert_eq!(state.timing(), vec![entry(0, None)]);
}

#[test]
fn second_reply_of_a_node_is_not_counted() {
    let mut state = ConsensusState::start(vec![0, 1, 2], 2).unwrap();
    state.handle(reply(0, "X", 1));
    state.handle(reply(0, "X", 2));
    assert!(!state.is_decided());
    assert_eq!(state.tally(&"X".to_string()), 1);
    state.handle(reply(0, "Y", 3));
    assert_eq!(state.tally(&"Y".to_string()), 0);
    assert_eq!(state.timing()[0], entry(0, Some(1)));
}

#[test]
fn reply_of_a_node_that_was_not_asked_is_not_counted() {
    let mut state = ConsensusState::start(vec![0, 1, 2], 2).unwrap();
    state.handle(reply(0, "X", 1));
    state.handle(reply(9, "X", 1));
    assert!(!state.is_decided());
    assert_eq!(state.tally(&"X".to_string()), 1);
}

#[test]
fn node_failures_do_not_stop_the_others_from_agreeing() {
    let mut state = ConsensusState::start(vec![0, 1, 2, 3], 2).unwrap();
    state.handle(NodeEvent::Failure { node: 0, fault: NodeFault::Connection });
    state.handle(NodeEvent::Failure { node: 1, fault: NodeFault::Undecodable });
    assert!(!state.is_decided());
    state.handle(reply(2, "X", 4));
    state.handle(reply(3, "X", 5));
    assert_eq!(
        state.decision(),
        Some(RequestResult::Reply("X".to_string()))
    );
    assert_eq!(
        state.timing(),
        vec![
            entry(0, None),
            entry(1, None),
            entry(2, Some(4)),
            entry(3, Some(5))
        ]
    );
}

#[test]
fn first_value_to_reach_the_threshold_wins() {
    let mut state = ConsensusState::start(vec![0, 1, 2, 3], 2).unwrap();
    state.handle(reply(0, "Y", 1));
    state.handle(reply(1, "Y", 2));
    state.handle(reply(2, "X", 3));
    state.handle(reply(3, "X", 4));
    assert_eq!(
        state.decision(),
        Some(RequestResult::Reply("Y".to_string()))
    );
    assert_eq!(state.tally(&"X".to_string()), 0);
}

#[test]
fn cancel_fails_an_open_request_as_cancelled() {
    let mut state = ConsensusState::start(vec![0, 1], 2).unwrap();
    state.handle(reply(0, "X", 1));
    state.handle(NodeEvent::Cancel);
    assert_eq!(
        state.decision(),
        Some(RequestResult::Failed(VdrError::Cancelled))
    );
    assert!(!state.timed_out());
    assert_eq!(state.timing(), vec![entry(0, Some(1)), entry(1, None)]);
}

#[test]
fn cancel_after_decision_changes_nothing() {
    let mut state = ConsensusState::start(vec![0, 1], 1).unwrap();
    state.handle(reply(1, "X", 1));
    state.handle(NodeEvent::Cancel);
    assert_eq!(
        state.decision(),
        Some(RequestResult::Reply("X".to_string()))
    );
}

#[test]
fn timing_has_one_entry_per_dispatched_node_at_every_step() {
    let mut state = ConsensusState::start(vec![5, 3, 8], 3).unwrap();
    assert_eq!(state.dispatched(), vec![5, 3, 8]);
    assert_eq!(state.threshold(), 3);
    let events = vec![
        reply(3, "a", 1),
        NodeEvent::Failure { node: 8, fault: NodeFault::Connection },
        reply(5, "a", 2),
    ];
    assert_eq!(state.timing().len(), 3);
    for e in events {
        state.handle(e);
        let timing = state.timing();
        assert_eq!(timing.len(), 3);
        assert_eq!(timing[0].node, 5);
        assert_eq!(timing[1].node, 3);
        assert_eq!(timing[2].node, 8);
    }
    assert_eq!(
        state.decision(),
        Some(RequestResult::Failed(VdrError::NoConsensus))
    );
}

#[test]
fn transport_results_become_events() {
    let reply = indy_vdr::transport::NodeReply {
        node: 3,
        payload: vec![1, 2],
        arrived_at: 1000,
        latency: 40,
    };
    assert_eq!(
        indy_vdr::transport::reply_event(&reply, Some("v".to_string())),
        NodeEvent::Reply { node: 3, value: "v".to_string(), latency: 40 }
    );
    assert_eq!(
        indy_vdr::transport::reply_event(&reply, None),
        NodeEvent::Failure { node: 3, fault: NodeFault::Undecodable }
    );
    assert_eq!(
        indy_vdr::transport::error_event(2, indy_vdr::transport::TransportError::Connection),
        NodeEvent::Failure { node: 2, fault: NodeFault::Connection }
    );
    assert_eq!(
        indy_vdr::transport::error_event(2, indy_vdr::transport::TransportError::Timeout),
        NodeEvent::Deadline
    );
}

fn line(value: &str, count: usize) -> TallyEntry {
    TallyEntry { value: value.to_string(), count }
}

#[test]
fn tally_table_is_in_first_seen_order() {
    let mut state = ConsensusState::start(vec![0, 1, 2, 3, 4], 3).unwrap();
    assert_eq!(state.tallies(), Vec::new());
    state.handle(reply(4, "B", 1));
    assert_eq!(state.tallies(), vec![line("B", 1)]);
    state.handle(reply(0, "A", 2));
    assert_eq!(state.tallies(), vec![line("B", 1), line("A", 1)]);
    state.handle(NodeEvent::Failure { node: 1, fault: NodeFault::Connection });
    assert_eq!(state.tallies(), vec![line("B", 1), line("A", 1)]);
    state.handle(reply(2, "A", 3));
    assert_eq!(state.tallies(), vec![line("B", 1), line("A", 2)]);
    state.handle(reply(2, "B", 4));
    assert_eq!(state.tallies(), vec![line("B", 1), line("A", 2)]);
    state.handle(reply(3, "C", 5));
    assert_eq!(
        state.tallies(),
        vec![line("B", 1), line("A", 2), line("C", 1)]
    );
    assert_eq!(
        state.decision(),
        Some(RequestResult::Failed(VdrError::NoConsensus))
    );
    assert_eq!(state.tally(&"A".to_string()), 2);
    assert_eq!(state.tally(&"D".to_string()), 0);
}

#[test]
fn tally_table_stops_at_the_decision() {
    let mut state = ConsensusState::start(vec![0, 1, 2], 2).unwrap();
    state.handle(reply(0, "A", 1));
    state.handle(reply(1, "A", 2));
    state.handle(reply(2, "B", 3));
    assert_eq!(state.tallies(), vec![line("A", 2)]);
    assert_eq!(state.result(), RequestResult::Reply("A".to_string()));
}
