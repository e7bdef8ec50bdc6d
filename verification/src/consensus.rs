//! The quorum engine: one request, sent to a set of nodes, and the replies
//! that come back, until enough of them agree or nothing more can come.
//!
//! The engine does no I/O. It is a state machine: whoever drives it sends the
//! request to the nodes it names, and hands it what happens (a reply, a
//! failure of one node, the deadline) as events, in the order in which they
//! happen. A node is named by its place in the roster.

use crate::error::VdrError;
use vstd::prelude::*;
use vstd::string::*;

verus! {

/// Why one node contributed nothing to a request.
#[derive(Clone, Copy, Debug, PartialEq, Eq, Structural)]
pub enum NodeFault {
    /// The transport to the node failed.
    Connection,
    /// The node's reply could not be decoded.
    Undecodable,
}

/// The result of a request: a value that a quorum agreed on, or a failure.
#[derive(Clone, Debug, PartialEq, Eq)]
pub enum RequestResult<T> {
    Reply(T),
    Failed(VdrError),
}

/// Something that happened to a request in flight.
#[derive(Clone, Debug, PartialEq, Eq)]
pub enum NodeEvent {
    /// A node's reply arrived and was decoded to `value`.
    Reply { node: usize, value: String, latency: u64 },
    /// A node failed, or its reply could not be decoded.
    Failure { node: usize, fault: NodeFault },
    /// The deadline of the request passed.
    Deadline,
    /// The request was cancelled.
    Cancel,
}

/// A `NodeEvent` with its text as a sequence of characters.
pub enum EventView {
    Reply { node: usize, value: Seq<char>, latency: u64 },
    Failure { node: usize, fault: NodeFault },
    Deadline,
    Cancel,
}

impl View for NodeEvent {
    type V = EventView;

    open spec fn view(&self) -> EventView {
        match self {
            NodeEvent::Reply { node, value, latency } => EventView::Reply {
                node: *node,
                value: value@,
                latency: *latency,
            },
            NodeEvent::Failure { node, fault } => EventView::Failure { node: *node, fault: *fault },
            NodeEvent::Deadline => EventView::Deadline,
            NodeEvent::Cancel => EventView::Cancel,
        }
    }
}

/// What one node has contributed to a request so far.
#[derive(Clone, Debug, PartialEq, Eq)]
pub enum NodeOutcome {
    /// Nothing yet.
    Pending,
    /// A decoded reply, and how long it took.
    Replied { value: String, latency: u64 },
    /// A failure. The node counts as not agreeing with anyone.
    Failed { fault: NodeFault },
}

/// A `NodeOutcome` with its text as a sequence of characters.
pub enum OutcomeView {
    Pending,
    Replied { value: Seq<char>, latency: u64 },
    Failed { fault: NodeFault },
}

impl View for NodeOutcome {
    type V = OutcomeView;

    open spec fn view(&self) -> OutcomeView {
        match self {
            NodeOutcome::Pending => OutcomeView::Pending,
            NodeOutcome::Replied { value, latency } => OutcomeView::Replied {
                value: value@,
                latency: *latency,
            },
            NodeOutcome::Failed { fault } => OutcomeView::Failed { fault: *fault },
        }
    }
}

impl OutcomeView {
    /// The node replied with `value`.
    pub open spec fn agrees(self, value: Seq<char>) -> bool {
        self matches OutcomeView::Replied { value: v, .. } && v == value
    }

    /// The latency to report for the node: that of its reply, if it replied.
    pub open spec fn latency(self) -> Option<u64> {
        match self {
            OutcomeView::Replied { latency, .. } => Some(latency),
            _ => None,
        }
    }
}

/// The outcomes held by a vector.
pub open spec fn outcome_views(v: Seq<NodeOutcome>) -> Seq<OutcomeView> {
    Seq::new(v.len(), |i: int| v[i]@)
}

/// How many of the nodes replied with `value`: its tally.
pub open spec fn votes(outcomes: Seq<OutcomeView>, value: Seq<char>) -> nat
    decreases outcomes.len(),
{
    if outcomes.len() == 0 {
        0
    } else {
        votes(outcomes.drop_last(), value) + if outcomes.last().agrees(value) {
            1nat
        } else {
            0nat
        }
    }
}

/// Some node has contributed nothing yet.
pub open spec fn has_pending(outcomes: Seq<OutcomeView>) -> bool {
    exists|i: int| 0 <= i < outcomes.len() && #[trigger] outcomes[i] is Pending
}

/// While every node is pending, every tally is zero.
pub proof fn lemma_votes_none(outcomes: Seq<OutcomeView>, value: Seq<char>)
    requires
        forall|i: int| 0 <= i < outcomes.len() ==> #[trigger] outcomes[i] is Pending,
    ensures
        votes(outcomes, value) == 0,
    decreases outcomes.len(),
{
    if outcomes.len() > 0 {
        assert(outcomes.last() == outcomes[outcomes.len() - 1]);
        lemma_votes_none(outcomes.drop_last(), value);
    }
}

/// Recording one node's outcome changes a tally by that node alone.
pub proof fn lemma_votes_update(
    outcomes: Seq<OutcomeView>,
    slot: int,
    outcome: OutcomeView,
    value: Seq<char>,
)
    requires
        0 <= slot < outcomes.len(),
    ensures
        votes(outcomes.update(slot, outcome), value) + (if outcomes[slot].agrees(value) {
            1nat
        } else {
            0nat
        }) == votes(outcomes, value) + (if outcome.agrees(value) {
            1nat
        } else {
            0nat
        }),
    decreases outcomes.len(),
{
    let updated = outcomes.update(slot, outcome);
    if slot == outcomes.len() - 1 {
        assert(updated.drop_last() =~= outcomes.drop_last());
    } else {
        assert(updated.drop_last() =~= outcomes.drop_last().update(slot, outcome));
        lemma_votes_update(outcomes.drop_last(), slot, outcome, value);
    }
}

/// A tally is at most the number of nodes.
pub proof fn lemma_votes_bound(outcomes: Seq<OutcomeView>, value: Seq<char>)
    ensures
        votes(outcomes, value) <= outcomes.len(),
    decreases outcomes.len(),
{
    if outcomes.len() > 0 {
        lemma_votes_bound(outcomes.drop_last(), value);
    }
}

/// The table holds a line for `value`.
pub open spec fn tally_has(tally: Seq<(Seq<char>, nat)>, value: Seq<char>) -> bool {
    exists|i: int| 0 <= i < tally.len() && (#[trigger] tally[i]).0 == value
}

/// The place of the line for `value` in the table.
pub open spec fn tally_place(tally: Seq<(Seq<char>, nat)>, value: Seq<char>) -> int {
    choose|i: int| 0 <= i < tally.len() && (#[trigger] tally[i]).0 == value
}

/// The table after one more reply with `value`: its line counts one more,
/// or, where the value is new, a line for it is added at the end.
pub open spec fn bump(tally: Seq<(Seq<char>, nat)>, value: Seq<char>) -> Seq<(Seq<char>, nat)> {
    if tally_has(tally, value) {
        let at = tally_place(tally, value);
        tally.update(at, (value, tally[at].1 + 1))
    } else {
        tally.push((value, 1nat))
    }
}

/// The table holds one line for each value that some node replied with,
/// and the line's count is the tally of the value.
pub open spec fn tally_agrees(outcomes: Seq<OutcomeView>, tally: Seq<(Seq<char>, nat)>) -> bool {
    &&& forall|i: int|
        0 <= i < tally.len() ==> (#[trigger] tally[i]).1 == votes(outcomes, tally[i].0)
            && tally[i].1 > 0
    &&& forall|i: int, j: int|
        0 <= i < tally.len() && 0 <= j < tally.len() && i != j ==> (#[trigger] tally[i]).0 != (
        #[trigger] tally[j]).0
    &&& forall|v: Seq<char>| #[trigger] votes(outcomes, v) > 0 ==> tally_has(tally, v)
}

/// The state of the engine for one request, as plain values.
pub struct EngineView {
    /// How many agreeing replies make a quorum.
    pub threshold: nat,
    /// The nodes that the request was sent to.
    pub dispatched: Seq<usize>,
    /// What each of them has contributed, in the order of `dispatched`.
    pub outcomes: Seq<OutcomeView>,
    /// The tally table: each value that some node replied with and how many
    /// nodes did, in the order in which the values were first seen.
    pub tally: Seq<(Seq<char>, nat)>,
    /// The result, once there is one.
    pub decision: Option<RequestResult<Seq<char>>>,
    /// Whether the result came with the deadline.
    pub timed_out: bool,
}

impl EngineView {
    /// The state of a request that was just sent.
    pub open spec fn start(dispatched: Seq<usize>, threshold: nat) -> EngineView {
        EngineView {
            threshold,
            dispatched,
            outcomes: Seq::new(dispatched.len(), |i: int| OutcomeView::Pending),
            tally: Seq::empty(),
            decision: None,
            timed_out: false,
        }
    }

    /// The request went to distinct nodes, `1 <= threshold <= ` their number.
    pub open spec fn well_dispatched(self) -> bool {
        &&& 1 <= self.threshold <= self.dispatched.len()
        &&& self.dispatched.no_duplicates()
        &&& self.outcomes.len() == self.dispatched.len()
    }

    /// The result is the one that the tallies call for.
    ///
    /// - While the request is open, some node is pending and every tally is
    ///   below the threshold.
    /// - `Reply(v)` stands only where the tally of `v` is at the threshold,
    ///   and then no other value's is.
    /// - A failure stands only where every tally is below the threshold.
    /// - The tally table agrees with what the nodes have contributed.
    pub open spec fn wf(self) -> bool {
        &&& self.well_dispatched()
        &&& tally_agrees(self.outcomes, self.tally)
        &&& match self.decision {
            None => {
                &&& !self.timed_out
                &&& has_pending(self.outcomes)
                &&& forall|v: Seq<char>| #[trigger] votes(self.outcomes, v) < self.threshold
            },
            Some(RequestResult::Reply(value)) => {
                &&& !self.timed_out
                &&& votes(self.outcomes, value) == self.threshold
                &&& forall|v: Seq<char>|
                    v != value ==> #[trigger] votes(self.outcomes, v) < self.threshold
            },
            Some(RequestResult::Failed(e)) => {
                &&& e == VdrError::NoConsensus || e == VdrError::Cancelled
                &&& self.timed_out ==> e == VdrError::NoConsensus
                &&& forall|v: Seq<char>| #[trigger] votes(self.outcomes, v) < self.threshold
            },
        }
    }

    /// The place of `node` among the nodes that the request went to.
    pub open spec fn slot_of(self, node: usize) -> Option<int> {
        if self.dispatched.contains(node) {
            Some(self.dispatched.index_of(node))
        } else {
            None
        }
    }

    /// The state after the node at `slot` contributed `outcome`.
    ///
    /// The request is decided at once where the outcome is a reply whose
    /// value is now at the threshold, and fails for want of consensus where
    /// it was the last node and no value is. A reply is entered in the tally
    /// table.
    pub open spec fn record(self, slot: int, outcome: OutcomeView) -> EngineView {
        let outcomes = self.outcomes.update(slot, outcome);
        let decision = match outcome {
            OutcomeView::Replied { value, .. } if votes(outcomes, value) >= self.threshold => Some(
                RequestResult::Reply(value),
            ),
            _ => if has_pending(outcomes) {
                None
            } else {
                Some(RequestResult::Failed(VdrError::NoConsensus))
            },
        };
        let tally = match outcome {
            OutcomeView::Replied { value, .. } => bump(self.tally, value),
            _ => self.tally,
        };
        EngineView {
            threshold: self.threshold,
            dispatched: self.dispatched,
            outcomes,
            tally,
            decision,
            timed_out: false,
        }
    }

    /// The state after one event.
    ///
    /// - A decided request stays as it is: what comes late is discarded.
    /// - A reply or a failure counts where it is the first from its node and
    ///   the request went to that node; else it is discarded.
    /// - The deadline fails an open request for want of consensus.
    /// - A cancellation fails an open request as cancelled.
    pub open spec fn step(self, event: EventView) -> EngineView {
        if self.decision is Some {
            self
        } else {
            match event {
                EventView::Reply { node, value, latency } => match self.slot_of(node) {
                    Some(slot) if self.outcomes[slot] is Pending => self.record(
                        slot,
                        OutcomeView::Replied { value, latency },
                    ),
                    _ => self,
                },
                EventView::Failure { node, fault } => match self.slot_of(node) {
                    Some(slot) if self.outcomes[slot] is Pending => self.record(
                        slot,
                        OutcomeView::Failed { fault },
                    ),
                    _ => self,
                },
                EventView::Deadline => EngineView {
                    threshold: self.threshold,
                    dispatched: self.dispatched,
                    outcomes: self.outcomes,
                    tally: self.tally,
                    decision: Some(RequestResult::Failed(VdrError::NoConsensus)),
                    timed_out: true,
                },
                EventView::Cancel => EngineView {
                    threshold: self.threshold,
                    dispatched: self.dispatched,
                    outcomes: self.outcomes,
                    tally: self.tally,
                    decision: Some(RequestResult::Failed(VdrError::Cancelled)),
                    timed_out: false,
                },
            }
        }
    }

    /// The state after a sequence of events, in order.
    pub open spec fn run(self, events: Seq<EventView>) -> EngineView
        decreases events.len(),
    {
        if events.len() == 0 {
            self
        } else {
            self.run(events.drop_last()).step(events.last())
        }
    }

    /// The timing of the request: for each node it went to, in the order of
    /// `dispatched`, the node and the latency of its reply, or `None` where
    /// it has not replied.
    pub open spec fn timing(self) -> Seq<(usize, Option<u64>)> {
        Seq::new(self.dispatched.len(), |i: int| (self.dispatched[i], self.outcomes[i].latency()))
    }
}

/// The text of a result, as a sequence of characters.
pub open spec fn result_view(r: RequestResult<String>) -> RequestResult<Seq<char>> {
    match r {
        RequestResult::Reply(value) => RequestResult::Reply(value@),
        RequestResult::Failed(e) => RequestResult::Failed(e),
    }
}

/// The text of a result that may not be there yet.
pub open spec fn decision_view(d: Option<RequestResult<String>>) -> Option<
    RequestResult<Seq<char>>,
> {
    match d {
        Some(r) => Some(result_view(r)),
        None => None,
    }
}

/// One step keeps a well-formed state well formed, and never changes which
/// nodes the request went to or what the threshold is.
pub proof fn lemma_step_wf(s: EngineView, event: EventView)
    requires
        s.wf(),
    ensures
        s.step(event).wf(),
        s.step(event).dispatched == s.dispatched,
        s.step(event).threshold == s.threshold,
{
    if s.decision is None {
        match event {
            EventView::Reply { node, value, latency } => {
                if let Some(slot) = s.slot_of(node) {
                    if s.outcomes[slot] is Pending {
                        lemma_record_wf(s, slot, OutcomeView::Replied { value, latency });
                    }
                }
            },
            EventView::Failure { node, fault } => {
                if let Some(slot) = s.slot_of(node) {
                    if s.outcomes[slot] is Pending {
                        lemma_record_wf(s, slot, OutcomeView::Failed { fault });
                    }
                }
            },
            EventView::Deadline => {},
            EventView::Cancel => {},
        }
    }
}

/// The tally table goes on agreeing with the outcomes when the first
/// outcome of a node is recorded and, where it is a reply, entered.
pub proof fn lemma_tally_after(
    outcomes: Seq<OutcomeView>,
    tally: Seq<(Seq<char>, nat)>,
    slot: int,
    outcome: OutcomeView,
)
    requires
        tally_agrees(outcomes, tally),
        0 <= slot < outcomes.len(),
        outcomes[slot] is Pending,
    ensures
        tally_agrees(
            outcomes.update(slot, outcome),
            match outcome {
                OutcomeView::Replied { value, .. } => bump(tally, value),
                _ => tally,
            },
        ),
{
    let after = outcomes.update(slot, outcome);
    assert forall|v: Seq<char>| #[trigger]
        votes(after, v) == votes(outcomes, v) + (if outcome.agrees(v) {
            1nat
        } else {
            0nat
        }) by {
        lemma_votes_update(outcomes, slot, outcome, v);
    }
    match outcome {
        OutcomeView::Replied { value, .. } => {
            let next = bump(tally, value);
            if tally_has(tally, value) {
                let at = tally_place(tally, value);
                assert(tally[at].0 == value);
                assert forall|i: int| 0 <= i < next.len() implies (#[trigger] next[i]).1 == votes(
                    after,
                    next[i].0,
                ) && next[i].1 > 0 by {
                    if i != at {
                        assert(tally[i].0 != tally[at].0);
                        assert(votes(after, tally[i].0) == votes(outcomes, tally[i].0));
                    } else {
                        assert(votes(after, value) == votes(outcomes, value) + 1);
                    }
                }
                assert forall|i: int, j: int|
                    0 <= i < next.len() && 0 <= j < next.len() && i != j implies (
                #[trigger] next[i]).0 != (#[trigger] next[j]).0 by {
                    assert(next[i].0 == tally[i].0);
                    assert(next[j].0 == tally[j].0);
                }
                assert forall|v: Seq<char>| #[trigger] votes(after, v) > 0 implies tally_has(
                    next,
                    v,
                ) by {
                    if v == value {
                        assert(next[at].0 == value);
                    } else {
                        assert(votes(outcomes, v) > 0);
                        let k = tally_place(tally, v);
                        assert(next[k].0 == v);
                    }
                }
            } else {
                assert(votes(outcomes, value) == 0);
                assert forall|i: int| 0 <= i < next.len() implies (#[trigger] next[i]).1 == votes(
                    after,
                    next[i].0,
                ) && next[i].1 > 0 by {
                    if i < tally.len() {
                        assert(tally[i].0 != value);
                        assert(votes(after, tally[i].0) == votes(outcomes, tally[i].0));
                    } else {
                        assert(votes(after, value) == votes(outcomes, value) + 1);
                    }
                }
                assert forall|i: int, j: int|
                    0 <= i < next.len() && 0 <= j < next.len() && i != j implies (
                #[trigger] next[i]).0 != (#[trigger] next[j]).0 by {
                    if i < tally.len() {
                        assert(next[i] == tally[i]);
                    }
                    if j < tally.len() {
                        assert(next[j] == tally[j]);
                    }
                }
                assert forall|v: Seq<char>| #[trigger] votes(after, v) > 0 implies tally_has(
                    next,
                    v,
                ) by {
                    if v == value {
                        assert(next[tally.len() as int].0 == value);
                    } else {
                        assert(votes(outcomes, v) > 0);
                        let k = tally_place(tally, v);
                        assert(next[k].0 == v);
                    }
                }
            }
        },
        _ => {
            assert forall|i: int| 0 <= i < tally.len() implies (#[trigger] tally[i]).1 == votes(
                after,
                tally[i].0,
            ) && tally[i].1 > 0 by {
                assert(votes(after, tally[i].0) == votes(outcomes, tally[i].0));
            }
            assert forall|v: Seq<char>| #[trigger] votes(after, v) > 0 implies tally_has(
                tally,
                v,
            ) by {
                assert(votes(outcomes, v) > 0);
            }
        },
    }
}

/// Recording the first outcome of a node keeps an open state well formed.
pub proof fn lemma_record_wf(s: EngineView, slot: int, outcome: OutcomeView)
    requires
        s.wf(),
        s.decision is None,
        0 <= slot < s.outcomes.len(),
        s.outcomes[slot] is Pending,
        !(outcome is Pending),
    ensures
        s.record(slot, outcome).wf(),
{
    let t = s.record(slot, outcome);
    assert forall|v: Seq<char>| #[trigger]
        votes(t.outcomes, v) == votes(s.outcomes, v) + (if outcome.agrees(v) {
            1nat
        } else {
            0nat
        }) by {
        lemma_votes_update(s.outcomes, slot, outcome, v);
    }
    lemma_tally_after(s.outcomes, s.tally, slot, outcome);
    match outcome {
        OutcomeView::Replied { value, .. } => {
            assert(votes(s.outcomes, value) < s.threshold);
            assert(votes(t.outcomes, value) == votes(s.outcomes, value) + 1);
            assert forall|v: Seq<char>| v != value implies #[trigger] votes(t.outcomes, v)
                < s.threshold by {
                assert(votes(s.outcomes, v) < s.threshold);
            }
        },
        _ => {
            assert forall|v: Seq<char>| #[trigger] votes(t.outcomes, v) < s.threshold by {
                assert(votes(s.outcomes, v) < s.threshold);
            }
        },
    }
}

/// The state of a request that was just sent is well formed.
pub proof fn lemma_start_wf(dispatched: Seq<usize>, threshold: nat)
    requires
        1 <= threshold <= dispatched.len(),
        dispatched.no_duplicates(),
    ensures
        EngineView::start(dispatched, threshold).wf(),
{
    let s = EngineView::start(dispatched, threshold);
    assert(s.outcomes[0] is Pending);
    assert forall|v: Seq<char>| #[trigger] votes(s.outcomes, v) == 0 by {
        lemma_votes_none(s.outcomes, v);
    }
}

/// Whatever happens to a request, its state stays well formed, and it stays
/// a request to the same nodes with the same threshold.
pub proof fn lemma_run_wf(s: EngineView, events: Seq<EventView>)
    requires
        s.wf(),
    ensures
        s.run(events).wf(),
        s.run(events).dispatched == s.dispatched,
        s.run(events).threshold == s.threshold,
    decreases events.len(),
{
    if events.len() > 0 {
        lemma_run_wf(s, events.drop_last());
        lemma_step_wf(s.run(events.drop_last()), events.last());
    }
}

/// A decided request stays as it is, whatever comes after.
pub proof fn lemma_decided_stays(s: EngineView, events: Seq<EventView>)
    requires
        s.decision is Some,
    ensures
        s.run(events) == s,
    decreases events.len(),
{
    if events.len() > 0 {
        lemma_decided_stays(s, events.drop_last());
    }
}

/// Running a sequence of events is running a part of it and then the rest.
pub proof fn lemma_run_split(s: EngineView, events: Seq<EventView>, k: int)
    requires
        0 <= k <= events.len(),
    ensures
        s.run(events) == s.run(events.take(k)).run(events.skip(k)),
    decreases events.len(),
{
    if k == events.len() {
        assert(events.take(k) == events);
        assert(events.skip(k).len() == 0);
    } else {
        let front = events.drop_last();
        lemma_run_split(s, front, k);
        assert(front.take(k) == events.take(k));
        assert(events.skip(k).drop_last() == front.skip(k));
        assert(events.skip(k).last() == events.last());
    }
}

/// In a well-formed state, a value whose tally has reached the threshold is
/// the result, and it is the only such value.
pub proof fn lemma_quorum_is_the_result(s: EngineView, value: Seq<char>)
    requires
        s.wf(),
        votes(s.outcomes, value) >= s.threshold,
    ensures
        s.decision == Some(RequestResult::Reply(value)),
{
}

/// Once the tally of a value has reached the threshold, the request is
/// decided for that value, and stays so whatever the other nodes do and in
/// whatever order: after the first `k` events the tally of `value` is at the
/// threshold, so the result after all the events is `Reply(value)`.
pub proof fn lemma_quorum_wins(
    dispatched: Seq<usize>,
    threshold: nat,
    events: Seq<EventView>,
    k: int,
    value: Seq<char>,
)
    requires
        1 <= threshold <= dispatched.len(),
        dispatched.no_duplicates(),
        0 <= k <= events.len(),
        votes(EngineView::start(dispatched, threshold).run(events.take(k)).outcomes, value)
            >= threshold,
    ensures
        EngineView::start(dispatched, threshold).run(events).decision == Some(
            RequestResult::Reply(value),
        ),
{
    let s = EngineView::start(dispatched, threshold);
    lemma_start_wf(dispatched, threshold);
    let mid = s.run(events.take(k));
    lemma_run_wf(s, events.take(k));
    lemma_quorum_is_the_result(mid, value);
    lemma_run_split(s, events, k);
    lemma_decided_stays(mid, events.skip(k));
}

/// Where no value's tally has reached the threshold when the deadline
/// passes, the request fails for want of consensus.
pub proof fn lemma_deadline_without_quorum(s: EngineView)
    requires
        s.wf(),
        forall|v: Seq<char>| #[trigger] votes(s.outcomes, v) < s.threshold,
        s.decision != Some(RequestResult::<Seq<char>>::Failed(VdrError::Cancelled)),
    ensures
        s.step(EventView::Deadline).decision == Some(
            RequestResult::<Seq<char>>::Failed(VdrError::NoConsensus),
        ),
{
    match s.decision {
        Some(RequestResult::Reply(value)) => {
            assert(votes(s.outcomes, value) < s.threshold);
        },
        _ => {},
    }
}

/// A request is never decided for a value whose tally is below the
/// threshold, and it is decided as soon as every node has contributed.
pub proof fn lemma_result_needs_quorum(s: EngineView)
    requires
        s.wf(),
    ensures
        s.decision matches Some(RequestResult::Reply(value)) ==> votes(s.outcomes, value)
            == s.threshold,
        !has_pending(s.outcomes) ==> s.decision is Some,
{
}

/// The timing holds exactly one entry for each node that the request went
/// to, and none for any other node.
pub proof fn lemma_timing_one_entry_per_node(s: EngineView, node: usize)
    requires
        s.wf(),
    ensures
        s.timing().len() == s.dispatched.len(),
        s.timing().map_values(|e: (usize, Option<u64>)| e.0) == s.dispatched,
        s.dispatched.to_multiset().count(node) == (if s.dispatched.contains(node) {
            1nat
        } else {
            0nat
        }),
{
    assert(s.timing().map_values(|e: (usize, Option<u64>)| e.0) =~= s.dispatched);
    s.dispatched.lemma_multiset_has_no_duplicates();
    s.dispatched.to_multiset_ensures();
}

/// Whatever happens to a request, its timing holds exactly one entry for
/// each node that it was sent to, in the order of those nodes.
pub proof fn lemma_timing_after_any_events(
    dispatched: Seq<usize>,
    threshold: nat,
    events: Seq<EventView>,
)
    requires
        1 <= threshold <= dispatched.len(),
        dispatched.no_duplicates(),
    ensures
        EngineView::start(dispatched, threshold).run(events).timing().map_values(
            |e: (usize, Option<u64>)| e.0,
        ) == dispatched,
{
    let start = EngineView::start(dispatched, threshold);
    lemma_start_wf(dispatched, threshold);
    lemma_run_wf(start, events);
    lemma_timing_one_entry_per_node(start.run(events), 0);
}

/// The node that an event comes from, if it comes from one.
pub open spec fn event_node(event: EventView) -> Option<usize> {
    match event {
        EventView::Reply { node, .. } => Some(node),
        EventView::Failure { node, .. } => Some(node),
        _ => None,
    }
}

/// What an event contributes for its node.
pub open spec fn event_outcome(event: EventView) -> OutcomeView {
    match event {
        EventView::Reply { value, latency, .. } => OutcomeView::Replied { value, latency },
        EventView::Failure { fault, .. } => OutcomeView::Failed { fault },
        _ => OutcomeView::Pending,
    }
}

/// What `node` contributed first among `events`, or `Pending` where nothing
/// came from it.
pub open spec fn first_answer(events: Seq<EventView>, node: usize) -> OutcomeView
    decreases events.len(),
{
    if events.len() == 0 {
        OutcomeView::Pending
    } else {
        let before = first_answer(events.drop_last(), node);
        if before is Pending && event_node(events.last()) == Some(node) {
            event_outcome(events.last())
        } else {
            before
        }
    }
}

/// What each of the nodes contributed first among `events`.
pub open spec fn answers(dispatched: Seq<usize>, events: Seq<EventView>) -> Seq<OutcomeView> {
    Seq::new(dispatched.len(), |i: int| first_answer(events, dispatched[i]))
}

/// Every event is a reply or a failure of a node: neither the deadline nor a
/// cancellation is among them.
pub open spec fn from_nodes(events: Seq<EventView>) -> bool {
    forall|i: int| 0 <= i < events.len() ==> event_node(#[trigger] events[i]) is Some
}

/// What a node contributed first stays what it contributed first, whatever
/// comes after.
pub proof fn lemma_first_answer_stays(events: Seq<EventView>, j: int, k: int, node: usize)
    requires
        0 <= j <= k <= events.len(),
        !(first_answer(events.take(j), node) is Pending),
    ensures
        first_answer(events.take(k), node) == first_answer(events.take(j), node),
    decreases k - j,
{
    if j < k {
        lemma_first_answer_stays(events, j, k - 1, node);
        assert(events.take(k).drop_last() == events.take(k - 1));
    }
}

/// A tally does not shrink where every agreeing node goes on agreeing.
pub proof fn lemma_votes_grow(a: Seq<OutcomeView>, b: Seq<OutcomeView>, value: Seq<char>)
    requires
        a.len() == b.len(),
        forall|i: int| 0 <= i < a.len() && (#[trigger] a[i]).agrees(value) ==> b[i].agrees(value),
    ensures
        votes(a, value) <= votes(b, value),
    decreases a.len(),
{
    if a.len() > 0 {
        assert(a.last() == a[a.len() - 1]);
        assert(b.last() == b[b.len() - 1]);
        assert forall|i: int|
            0 <= i < a.drop_last().len() && (#[trigger] a.drop_last()[i]).agrees(
                value,
            ) implies b.drop_last()[i].agrees(value) by {
            assert(a.drop_last()[i] == a[i]);
        }
        lemma_votes_grow(a.drop_last(), b.drop_last(), value);
    }
}

/// The tallies of the first answers only grow as events arrive.
pub proof fn lemma_answers_grow(
    dispatched: Seq<usize>,
    events: Seq<EventView>,
    j: int,
    k: int,
    value: Seq<char>,
)
    requires
        0 <= j <= k <= events.len(),
    ensures
        votes(answers(dispatched, events.take(j)), value) <= votes(
            answers(dispatched, events.take(k)),
            value,
        ),
{
    let a = answers(dispatched, events.take(j));
    let b = answers(dispatched, events.take(k));
    assert forall|i: int| 0 <= i < a.len() && (#[trigger] a[i]).agrees(value) implies b[i].agrees(
        value,
    ) by {
        lemma_first_answer_stays(events, j, k, dispatched[i]);
    }
    lemma_votes_grow(a, b, value);
}

/// After the first `j` of the events, the request is either open, with
/// every node's first answer recorded, or already decided for `value`.
proof fn lemma_open_or_won(
    dispatched: Seq<usize>,
    threshold: nat,
    events: Seq<EventView>,
    k: int,
    value: Seq<char>,
    j: int,
)
    requires
        1 <= threshold <= dispatched.len(),
        dispatched.no_duplicates(),
        0 <= j <= k <= events.len(),
        from_nodes(events.take(k)),
        votes(answers(dispatched, events.take(k)), value) >= threshold,
        forall|w: Seq<char>|
            w != value ==> #[trigger] votes(answers(dispatched, events.take(k)), w) < threshold,
    ensures
        ({
            let s = EngineView::start(dispatched, threshold).run(events.take(j));
            ||| s.decision is None && s.outcomes == answers(dispatched, events.take(j))
            ||| s.decision == Some(RequestResult::Reply(value))
        }),
    decreases j,
{
    let start = EngineView::start(dispatched, threshold);
    lemma_start_wf(dispatched, threshold);
    if j == 0 {
        assert(events.take(0).len() == 0);
        assert(start.outcomes =~= answers(dispatched, events.take(0)));
    } else {
        lemma_open_or_won(dispatched, threshold, events, k, value, j - 1);
        let front = events.take(j - 1);
        let upto = events.take(j);
        assert(upto.drop_last() == front);
        let event = upto.last();
        assert(event == events.take(k)[j - 1]);
        assert(event_node(event) is Some);
        let s = start.run(front);
        lemma_run_wf(start, front);
        let t = s.step(event);
        lemma_step_wf(s, event);
        assert(start.run(upto) == t);
        if s.decision is None {
            let node = event_node(event)->0;
            let then = answers(dispatched, front);
            let now = answers(dispatched, upto);
            let recorded = match s.slot_of(node) {
                Some(slot) => s.outcomes[slot] is Pending,
                None => false,
            };
            if recorded {
                let slot = s.slot_of(node)->0;
                let outcome = event_outcome(event);
                assert(dispatched[slot] == node);
                assert(t == s.record(slot, outcome));
                assert(t.outcomes =~= now) by {
                    assert forall|i: int| 0 <= i < dispatched.len() implies t.outcomes[i]
                        == now[i] by {
                        if i != slot {
                            assert(dispatched[i] != dispatched[slot]);
                        }
                    }
                }
                match t.decision {
                    Some(RequestResult::Reply(v)) => {
                        lemma_answers_grow(dispatched, events, j, k, v);
                        assert(events.take(k).take(j) == upto);
                    },
                    Some(RequestResult::Failed(_)) => {
                        assert(!has_pending(now));
                        assert(answers(dispatched, events.take(k)) =~= now) by {
                            assert forall|i: int| 0 <= i < dispatched.len() implies answers(
                                dispatched,
                                events.take(k),
                            )[i] == now[i] by {
                                assert(!(now[i] is Pending));
                                lemma_first_answer_stays(events, j, k, dispatched[i]);
                            }
                        }
                        assert(votes(t.outcomes, value) < threshold);
                    },
                    None => {},
                }
            } else {
                assert(t == s);
                assert(now =~= then) by {
                    assert forall|i: int| 0 <= i < dispatched.len() implies now[i] == then[i] by {
                        if dispatched[i] == node {
                            assert(dispatched.contains(node));
                            assert(dispatched[dispatched.index_of(node)] == node);
                            assert(i == dispatched.index_of(node));
                        }
                    }
                }
            }
        }
    }
}

/// Agreeing replies decide a request, in whatever order the events arrive.
///
/// Take the first answer of every node that the request went to among the
/// first `k` events, none of which is the deadline or a cancellation. If
/// `threshold` of them are replies with `value`, and no other value has as
/// many, the result after all the events is `Reply(value)`.
///
/// The condition on the other values cannot be dropped: the request is
/// decided as soon as some value reaches the threshold, and what arrives
/// later is not counted.
pub proof fn lemma_agreeing_replies_win(
    dispatched: Seq<usize>,
    threshold: nat,
    events: Seq<EventView>,
    k: int,
    value: Seq<char>,
)
    requires
        1 <= threshold <= dispatched.len(),
        dispatched.no_duplicates(),
        0 <= k <= events.len(),
        from_nodes(events.take(k)),
        votes(answers(dispatched, events.take(k)), value) >= threshold,
        forall|w: Seq<char>|
            w != value ==> #[trigger] votes(answers(dispatched, events.take(k)), w) < threshold,
    ensures
        EngineView::start(dispatched, threshold).run(events).decision == Some(
            RequestResult::Reply(value),
        ),
{
    let start = EngineView::start(dispatched, threshold);
    lemma_start_wf(dispatched, threshold);
    lemma_open_or_won(dispatched, threshold, events, k, value, k);
    let mid = start.run(events.take(k));
    lemma_run_wf(start, events.take(k));
    lemma_run_split(start, events, k);
    lemma_decided_stays(mid, events.skip(k));
}

/// Without agreeing replies a request fails for want of consensus.
///
/// Take the first answer of every node that the request went to among the
/// events before the deadline. If no value has `threshold` replies among
/// them, the result once the deadline has passed is `Failed(NoConsensus)`.
pub proof fn lemma_no_quorum_no_consensus(
    dispatched: Seq<usize>,
    threshold: nat,
    events: Seq<EventView>,
)
    requires
        1 <= threshold <= dispatched.len(),
        dispatched.no_duplicates(),
        from_nodes(events),
        forall|w: Seq<char>| #[trigger] votes(answers(dispatched, events), w) < threshold,
    ensures
        EngineView::start(dispatched, threshold).run(events.push(EventView::Deadline)).decision
            == Some(RequestResult::<Seq<char>>::Failed(VdrError::NoConsensus)),
{
    let start = EngineView::start(dispatched, threshold);
    lemma_start_wf(dispatched, threshold);
    let s = start.run(events);
    lemma_run_wf(start, events);
    lemma_never_cancelled(start, events);
    let all = events.push(EventView::Deadline);
    assert(all.drop_last() == events);
    match s.decision {
        Some(RequestResult::Reply(v)) => {
            lemma_decision_in_answers(dispatched, threshold, events, events.len() as int);
            assert(events.take(events.len() as int) == events);
        },
        _ => {},
    }
}

/// Events of nodes never cancel a request.
proof fn lemma_never_cancelled(s: EngineView, events: Seq<EventView>)
    requires
        s.wf(),
        from_nodes(events),
        s.decision != Some(RequestResult::<Seq<char>>::Failed(VdrError::Cancelled)),
    ensures
        s.run(events).decision != Some(RequestResult::<Seq<char>>::Failed(VdrError::Cancelled)),
        !s.timed_out ==> !s.run(events).timed_out,
    decreases events.len(),
{
    if events.len() > 0 {
        assert forall|i: int| 0 <= i < events.drop_last().len() implies event_node(
            #[trigger] events.drop_last()[i],
        ) is Some by {
            assert(events.drop_last()[i] == events[i]);
        }
        lemma_never_cancelled(s, events.drop_last());
        assert(event_node(events[events.len() - 1]) is Some);
    }
}

/// A request is decided for a value only where that value has the threshold
/// among the first answers of the nodes.
proof fn lemma_decision_in_answers(
    dispatched: Seq<usize>,
    threshold: nat,
    events: Seq<EventView>,
    j: int,
)
    requires
        1 <= threshold <= dispatched.len(),
        dispatched.no_duplicates(),
        0 <= j <= events.len(),
        from_nodes(events),
    ensures
        ({
            let s = EngineView::start(dispatched, threshold).run(events.take(j));
            &&& s.decision is None ==> s.outcomes == answers(dispatched, events.take(j))
            &&& s.decision matches Some(RequestResult::Reply(v)) ==> votes(
                answers(dispatched, events),
                v,
            ) >= threshold
        }),
    decreases j,
{
    let start = EngineView::start(dispatched, threshold);
    lemma_start_wf(dispatched, threshold);
    if j == 0 {
        assert(events.take(0).len() == 0);
        assert(start.outcomes =~= answers(dispatched, events.take(0)));
    } else {
        lemma_decision_in_answers(dispatched, threshold, events, j - 1);
        let front = events.take(j - 1);
        let upto = events.take(j);
        assert(upto.drop_last() == front);
        let event = upto.last();
        assert(event == events[j - 1]);
        assert(event_node(event) is Some);
        let s = start.run(front);
        lemma_run_wf(start, front);
        let t = s.step(event);
        lemma_step_wf(s, event);
        assert(start.run(upto) == t);
        if s.decision is None {
            let node = event_node(event)->0;
            let then = answers(dispatched, front);
            let now = answers(dispatched, upto);
            let recorded = match s.slot_of(node) {
                Some(slot) => s.outcomes[slot] is Pending,
                None => false,
            };
            if recorded {
                let slot = s.slot_of(node)->0;
                let outcome = event_outcome(event);
                assert(dispatched[slot] == node);
                assert(t == s.record(slot, outcome));
                assert(t.outcomes =~= now) by {
                    assert forall|i: int| 0 <= i < dispatched.len() implies t.outcomes[i]
                        == now[i] by {
                        if i != slot {
                            assert(dispatched[i] != dispatched[slot]);
                        }
                    }
                }
                match t.decision {
                    Some(RequestResult::Reply(v)) => {
                        lemma_answers_grow(dispatched, events, j, events.len() as int, v);
                        assert(events.take(events.len() as int) == events);
                    },
                    _ => {},
                }
            } else {
                assert(t == s);
                assert(now =~= then) by {
                    assert forall|i: int| 0 <= i < dispatched.len() implies now[i] == then[i] by {
                        if dispatched[i] == node {
                            assert(dispatched.contains(node));
                            assert(dispatched[dispatched.index_of(node)] == node);
                            assert(i == dispatched.index_of(node));
                        }
                    }
                }
            }
        }
    }
}

/// One line of a timing report: a node and the latency of its reply, or
/// `None` where it has not replied.
#[derive(Clone, Copy, Debug, PartialEq, Eq, Structural)]
pub struct TimingEntry {
    pub node: usize,
    pub latency: Option<u64>,
}

/// The entries held by a timing report, as pairs.
pub open spec fn timing_views(v: Seq<TimingEntry>) -> Seq<(usize, Option<u64>)> {
    Seq::new(v.len(), |i: int| (v[i].node, v[i].latency))
}

/// A copy of a result with the same text.
pub fn copy_result(r: &RequestResult<String>) -> (out: RequestResult<String>)
    ensures
        result_view(out) == result_view(*r),
{
    match r {
        RequestResult::Reply(value) => RequestResult::Reply(value.clone()),
        RequestResult::Failed(e) => RequestResult::Failed(*e),
    }
}

/// How many of the outcomes are replies with `value`.
fn count_votes(outcomes: &Vec<NodeOutcome>, value: &String) -> (n: usize)
    ensures
        n == votes(outcome_views(outcomes@), value@),
{
    let ghost views = outcome_views(outcomes@);
    let mut n: usize = 0;
    let mut i: usize = 0;
    while i < outcomes.len()
        invariant
            i <= outcomes.len(),
            views == outcome_views(outcomes@),
            n == votes(views.take(i as int), value@),
            n <= i,
        decreases outcomes.len() - i,
    {
        let agrees = match &outcomes[i] {
            NodeOutcome::Replied { value: v, .. } => *v == *value,
            _ => false,
        };
        proof {
            assert(views.take(i + 1).drop_last() == views.take(i as int));
            assert(views.take(i + 1).last() == outcomes[i as int]@);
        }
        if agrees {
            n = n + 1;
        }
        i = i + 1;
    }
    assert(views.take(i as int) == views);
    n
}

/// Whether one of the outcomes is still pending.
fn any_pending(outcomes: &Vec<NodeOutcome>) -> (b: bool)
    ensures
        b == has_pending(outcome_views(outcomes@)),
{
    let ghost views = outcome_views(outcomes@);
    let mut i: usize = 0;
    while i < outcomes.len()
        invariant
            i <= outcomes.len(),
            views == outcome_views(outcomes@),
            forall|j: int| 0 <= j < i ==> !(#[trigger] views[j] is Pending),
        decreases outcomes.len() - i,
    {
        let pending = match &outcomes[i] {
            NodeOutcome::Pending => true,
            _ => false,
        };
        if pending {
            assert(views[i as int] is Pending);
            return true;
        }
        i = i + 1;
    }
    false
}

/// The place of `node` in `dispatched`, if it is there.
fn find_slot(dispatched: &Vec<usize>, node: usize) -> (r: Option<usize>)
    requires
        dispatched@.no_duplicates(),
    ensures
        r is Some <==> dispatched@.contains(node),
        r matches Some(slot) ==> slot < dispatched.len() && slot == dispatched@.index_of(node),
{
    let mut i: usize = 0;
    while i < dispatched.len()
        invariant
            i <= dispatched.len(),
            dispatched@.no_duplicates(),
            forall|j: int| 0 <= j < i ==> dispatched[j] != node,
        decreases dispatched.len() - i,
    {
        if dispatched[i] == node {
            proof {
                assert(dispatched@[i as int] == node);
                let k = dispatched@.index_of(node);
                assert(dispatched@[k] == node);
            }
            return Some(i);
        }
        i = i + 1;
    }
    None
}

/// Whether no node occurs twice in `nodes`.
fn all_distinct(nodes: &Vec<usize>) -> (b: bool)
    ensures
        b == nodes@.no_duplicates(),
{
    let mut i: usize = 0;
    while i < nodes.len()
        invariant
            i <= nodes.len(),
            forall|a: int, b: int| 0 <= a < b < nodes.len() && a < i ==> nodes[a] != nodes[b],
        decreases nodes.len() - i,
    {
        let mut j: usize = i + 1;
        while j < nodes.len()
            invariant
                i < nodes.len(),
                i < j <= nodes.len(),
                forall|b: int| i < b < j ==> nodes[i as int] != nodes[b],
            decreases nodes.len() - j,
        {
            if nodes[i] == nodes[j] {
                assert(!nodes@.no_duplicates()) by {
                    assert(nodes@[i as int] == nodes@[j as int]);
                }
                return false;
            }
            j = j + 1;
        }
        i = i + 1;
    }
    assert(nodes@.no_duplicates()) by {
        assert forall|a: int, b: int|
            0 <= a < nodes.len() && 0 <= b < nodes.len() && a != b implies nodes@[a]
            != nodes@[b] by {
            if a < b {
                assert(nodes[a] != nodes[b]);
            } else {
                assert(nodes[b] != nodes[a]);
            }
        }
    }
    true
}

/// One line of the tally table: a value and how many nodes replied with it.
#[derive(Clone, Debug, PartialEq, Eq)]
pub struct TallyEntry {
    pub value: String,
    pub count: usize,
}

/// The lines held by a tally table, as pairs.
pub open spec fn tally_views(v: Seq<TallyEntry>) -> Seq<(Seq<char>, nat)> {
    Seq::new(v.len(), |i: int| (v[i].value@, v[i].count as nat))
}

/// The place of the line for `value` in the table, if it has one.
fn find_line(tally: &Vec<TallyEntry>, value: &String) -> (r: Option<usize>)
    ensures
        r is Some <==> tally_has(tally_views(tally@), value@),
        r matches Some(at) ==> at < tally.len() && tally[at as int].value@ == value@,
{
    let ghost views = tally_views(tally@);
    let mut i: usize = 0;
    while i < tally.len()
        invariant
            i <= tally.len(),
            views == tally_views(tally@),
            forall|j: int| 0 <= j < i ==> (#[trigger] views[j]).0 != value@,
        decreases tally.len() - i,
    {
        if tally[i].value == *value {
            assert(views[i as int].0 == value@);
            return Some(i);
        }
        i = i + 1;
    }
    None
}

/// The engine's state for one request in flight.
pub struct ConsensusState {
    threshold: usize,
    dispatched: Vec<usize>,
    outcomes: Vec<NodeOutcome>,
    tally: Vec<TallyEntry>,
    decision: Option<RequestResult<String>>,
    timed_out: bool,
}

impl View for ConsensusState {
    type V = EngineView;

    closed spec fn view(&self) -> EngineView {
        EngineView {
            threshold: self.threshold as nat,
            dispatched: self.dispatched@,
            outcomes: outcome_views(self.outcomes@),
            tally: tally_views(self.tally@),
            decision: decision_view(self.decision),
            timed_out: self.timed_out,
        }
    }
}

impl ConsensusState {
    /// The state of a request that was just sent to the nodes `dispatched`
    /// and needs `threshold` agreeing replies.
    ///
    /// Returns `None` unless the nodes are distinct and
    /// `1 <= threshold <= dispatched.len()`.
    pub fn start(dispatched: Vec<usize>, threshold: usize) -> (r: Option<ConsensusState>)
        ensures
            r is Some <==> 1 <= threshold <= dispatched@.len() && dispatched@.no_duplicates(),
            r matches Some(state) ==> state@ == EngineView::start(dispatched@, threshold as nat)
                && state@.wf(),
    {
        if threshold < 1 || threshold > dispatched.len() || !all_distinct(&dispatched) {
            return None;
        }
        Some(ConsensusState::open(dispatched, threshold))
    }

    /// The state of a request that was just sent to the distinct nodes
    /// `dispatched` and needs `threshold` agreeing replies.
    pub fn open(dispatched: Vec<usize>, threshold: usize) -> (state: ConsensusState)
        requires
            1 <= threshold <= dispatched@.len(),
            dispatched@.no_duplicates(),
        ensures
            state@ == EngineView::start(dispatched@, threshold as nat),
            state@.wf(),
    {
        let mut outcomes: Vec<NodeOutcome> = Vec::new();
        let mut i: usize = 0;
        while i < dispatched.len()
            invariant
                i <= dispatched.len(),
                outcomes.len() == i,
                forall|j: int| 0 <= j < i ==> (#[trigger] outcomes[j])@ is Pending,
            decreases dispatched.len() - i,
        {
            outcomes.push(NodeOutcome::Pending);
            i = i + 1;
        }
        let state = ConsensusState {
            threshold,
            dispatched,
            outcomes,
            tally: Vec::new(),
            decision: None,
            timed_out: false,
        };
        proof {
            assert(state@.tally =~= Seq::<(Seq<char>, nat)>::empty());
            assert(state@.outcomes =~= EngineView::start(
                state.dispatched@,
                threshold as nat,
            ).outcomes);
            lemma_start_wf(state.dispatched@, threshold as nat);
        }
        state
    }

    /// Records the outcome of the node at `slot` and decides the request
    /// where the tallies now call for it.
    fn record(&mut self, slot: usize, outcome: NodeOutcome)
        requires
            old(self)@.wf(),
            old(self)@.decision is None,
            slot < old(self)@.outcomes.len(),
            old(self)@.outcomes[slot as int] is Pending,
            !(outcome@ is Pending),
        ensures
            final(self)@ == old(self)@.record(slot as int, outcome@),
            final(self)@.wf(),
    {
        proof {
            lemma_record_wf(self@, slot as int, outcome@);
        }
        let ghost before = self@;
        let ghost after = before.record(slot as int, outcome@);
        let reached = match &outcome {
            NodeOutcome::Replied { value, .. } => Some(value.clone()),
            _ => None,
        };
        self.outcomes.set(slot, outcome);
        assert(outcome_views(self.outcomes@) =~= after.outcomes);
        let total: usize = self.outcomes.len();
        assert(after.outcomes.len() == total);
        let mut decided = false;
        if let Some(value) = reached {
            let count: usize = self.enter(value.clone(), Ghost(after.outcomes));
            if count >= self.threshold {
                self.decision = Some(RequestResult::Reply(value));
                decided = true;
            }
        }
        if !decided {
            if !any_pending(&self.outcomes) {
                self.decision = Some(RequestResult::Failed(VdrError::NoConsensus));
            }
        }
    }

    /// Enters one more reply with `value` in the tally table and returns
    /// the new count of the value.
    fn enter(&mut self, value: String, Ghost(outcomes): Ghost<Seq<OutcomeView>>) -> (count: usize)
        requires
            tally_agrees(outcomes, bump(tally_views(old(self).tally@), value@)),
            outcomes.len() <= usize::MAX,
        ensures
            tally_views(final(self).tally@) == bump(tally_views(old(self).tally@), value@),
            count == votes(outcomes, value@),
            final(self).threshold == old(self).threshold,
            final(self).dispatched == old(self).dispatched,
            final(self).outcomes == old(self).outcomes,
            final(self).decision == old(self).decision,
            final(self).timed_out == old(self).timed_out,
    {
        let ghost table = tally_views(self.tally@);
        let ghost next = bump(table, value@);
        proof {
            lemma_votes_bound(outcomes, value@);
        }
        match find_line(&self.tally, &value) {
            Some(at) => {
                proof {
                    let k = tally_place(table, value@);
                    assert(table[at as int].0 == value@);
                    assert(next[k].0 == value@);
                    assert(next[k].1 == votes(outcomes, value@));
                    assert(next[k].1 == table[k].1 + 1);
                    if k != at {
                        assert(next[at as int] == table[at as int]);
                        assert(next[at as int].0 == next[k].0);
                    }
                }
                let count: usize = self.tally[at].count + 1;
                self.tally.set(at, TallyEntry { value, count });
                assert(tally_views(self.tally@) =~= next);
                count
            },
            None => {
                proof {
                    let last = table.len() as int;
                    assert(next[last] == (value@, 1nat));
                    assert(next[last].1 == votes(outcomes, next[last].0));
                }
                self.tally.push(TallyEntry { value, count: 1 });
                assert(tally_views(self.tally@) =~= next);
                1
            },
        }
    }

    /// Takes one event and moves to the next state.
    ///
    /// What the next state is, is said by `EngineView::step`: a reply that
    /// brings its value to the threshold decides the request at once; the
    /// last outcome without a quorum, or the deadline, fails it for want of
    /// consensus; whatever comes after the decision is discarded.
    pub fn handle(&mut self, event: NodeEvent)
        requires
            old(self)@.wf(),
        ensures
            final(self)@ == old(self)@.step(event@),
            final(self)@.wf(),
    {
        proof {
            lemma_step_wf(self@, event@);
        }
        if self.decision.is_some() {
            return ;
        }
        match event {
            NodeEvent::Reply { node, value, latency } => {
                match find_slot(&self.dispatched, node) {
                    Some(slot) => {
                        let pending = match &self.outcomes[slot] {
                            NodeOutcome::Pending => true,
                            _ => false,
                        };
                        if pending {
                            self.record(slot, NodeOutcome::Replied { value, latency });
                        }
                    },
                    None => {},
                }
            },
            NodeEvent::Failure { node, fault } => {
                match find_slot(&self.dispatched, node) {
                    Some(slot) => {
                        let pending = match &self.outcomes[slot] {
                            NodeOutcome::Pending => true,
                            _ => false,
                        };
                        if pending {
                            self.record(slot, NodeOutcome::Failed { fault });
                        }
                    },
                    None => {},
                }
            },
            NodeEvent::Deadline => {
                self.decision = Some(RequestResult::Failed(VdrError::NoConsensus));
                self.timed_out = true;
            },
            NodeEvent::Cancel => {
                self.decision = Some(RequestResult::Failed(VdrError::Cancelled));
            },
        }
    }

    /// The result of the request, once it is decided.
    pub fn decision(&self) -> (out: Option<RequestResult<String>>)
        ensures
            decision_view(out) == self@.decision,
    {
        match &self.decision {
            Some(r) => Some(copy_result(r)),
            None => None,
        }
    }

    /// The result of a request that is decided.
    pub fn result(&self) -> (out: RequestResult<String>)
        requires
            self@.decision is Some,
        ensures
            Some(result_view(out)) == self@.decision,
    {
        copy_result(self.decision.as_ref().unwrap())
    }

    /// Whether the request is decided.
    pub fn is_decided(&self) -> (b: bool)
        ensures
            b == self@.decision is Some,
    {
        self.decision.is_some()
    }

    /// Whether the request failed because its deadline passed.
    pub fn timed_out(&self) -> (b: bool)
        ensures
            b == self@.timed_out,
    {
        self.timed_out
    }

    /// The number of agreeing replies that decide the request.
    pub fn threshold(&self) -> (n: usize)
        ensures
            n == self@.threshold,
    {
        self.threshold
    }

    /// The nodes that the request went to.
    pub fn dispatched(&self) -> (out: Vec<usize>)
        ensures
            out@ == self@.dispatched,
    {
        let mut out: Vec<usize> = Vec::new();
        let mut i: usize = 0;
        while i < self.dispatched.len()
            invariant
                i <= self.dispatched.len(),
                out@ == self.dispatched@.take(i as int),
            decreases self.dispatched.len() - i,
        {
            out.push(self.dispatched[i]);
            i = i + 1;
        }
        assert(self.dispatched@.take(i as int) == self.dispatched@);
        out
    }

    /// The tally table: each value that some node replied with and how
    /// many nodes did, in the order in which the values were first seen.
    pub fn tallies(&self) -> (out: Vec<TallyEntry>)
        ensures
            tally_views(out@) == self@.tally,
    {
        let mut out: Vec<TallyEntry> = Vec::new();
        let mut i: usize = 0;
        while i < self.tally.len()
            invariant
                i <= self.tally.len(),
                out.len() == i,
                forall|j: int|
                    0 <= j < i ==> (#[trigger] out[j]).value@ == self.tally[j].value@
                        && out[j].count == self.tally[j].count,
            decreases self.tally.len() - i,
        {
            out.push(TallyEntry { value: self.tally[i].value.clone(), count: self.tally[i].count });
            i = i + 1;
        }
        assert(tally_views(out@) =~= tally_views(self.tally@));
        out
    }

    /// The tally of `value`: how many nodes have replied with it.
    pub fn tally(&self, value: &String) -> (n: usize)
        ensures
            n == votes(self@.outcomes, value@),
    {
        count_votes(&self.outcomes, value)
    }

    /// The timing of the request as it stands: one entry for each node that
    /// the request went to, in the order of those nodes, with the latency of
    /// the node's reply or `None` where it has not replied.
    pub fn timing(&self) -> (out: Vec<TimingEntry>)
        requires
            self@.wf(),
        ensures
            timing_views(out@) == self@.timing(),
            out@.len() == self@.dispatched.len(),
    {
        let mut out: Vec<TimingEntry> = Vec::new();
        let mut i: usize = 0;
        while i < self.dispatched.len()
            invariant
                i <= self.dispatched.len(),
                self.outcomes.len() == self.dispatched.len(),
                out.len() == i,
                forall|j: int|
                    0 <= j < i ==> (#[trigger] out[j]).node == self.dispatched[j] && out[j].latency
                        == self.outcomes[j]@.latency(),
            decreases self.dispatched.len() - i,
        {
            let latency = match &self.outcomes[i] {
                NodeOutcome::Replied { latency, .. } => Some(*latency),
                _ => None,
            };
            out.push(TimingEntry { node: self.dispatched[i], latency });
            i = i + 1;
        }
        assert(timing_views(out@) =~= self@.timing());
        out
    }
}

} // verus!
