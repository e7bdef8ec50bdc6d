//! The pool runner: one pool, owned by one thread of control, that takes
//! commands from callers elsewhere and gives each of them its result.
//!
//! The runner does no I/O and owns no thread. It is the state of the loop
//! that serves the commands: which commands are in flight, and whether more
//! are taken. Whoever runs the loop hands it what arrives and gives the
//! callers what it returns.

use crate::consensus::{
    lemma_step_wf, result_view, timing_views, EngineView, EventView, NodeEvent, RequestResult,
    TimingEntry,
};
use crate::config::PoolConfig;
use crate::error::{RequestFault, VdrError, VdrResult};
use crate::pool::{
    plan_fault, planned_for, planned_state, LocalPool, OutboundRequest, PendingRequest,
};
use vstd::prelude::*;

verus! {

/// A command that has its result: the identifier its caller gave it, the
/// result, and the timing of the nodes it was sent to.
#[derive(Debug, PartialEq, Eq)]
pub struct Resolution {
    pub request_id: u64,
    pub result: RequestResult<String>,
    pub timing: Vec<TimingEntry>,
}

/// The identifiers of the commands in a list.
pub open spec fn command_ids(commands: Seq<PendingRequest>) -> Seq<u64> {
    Seq::new(commands.len(), |i: int| commands[i].request_id())
}

/// The engine states of the commands in a list.
pub open spec fn command_states(commands: Seq<PendingRequest>) -> Seq<EngineView> {
    Seq::new(commands.len(), |i: int| commands[i]@)
}

/// The state of a runner: its pool, until it is stopped, and the commands
/// in flight.
pub struct PoolRunner {
    pool: Option<LocalPool>,
    config: PoolConfig,
    initial: Ghost<Seq<Seq<char>>>,
    in_flight: Vec<PendingRequest>,
}

/// What submitting `request` gives a runner that takes commands and has no
/// command in flight under the request's identifier, where the roster has
/// `n` nodes: the request's fault, with nothing changed, or the request's
/// identifier, with the request in flight behind the others, planned from
/// `offset`.
pub open spec fn submitted(
    r: VdrResult<u64>,
    before: (Seq<u64>, Seq<EngineView>),
    after: (Seq<u64>, Seq<EngineView>),
    request: OutboundRequest,
    config: PoolConfig,
    n: nat,
    offset: nat,
) -> bool {
    match plan_fault(request, n) {
        Some(e) => r == Err::<u64, VdrError>(e) && after == before,
        None => {
            &&& r == Ok::<u64, VdrError>(request.request_id)
            &&& after.0 == before.0.push(request.request_id)
            &&& after.1 == before.1.push(planned_state(request.target, config, n, offset))
        },
    }
}

impl PoolRunner {
    /// Whether the runner still takes commands: it does until it is stopped.
    pub closed spec fn accepting(&self) -> bool {
        self.pool is Some
    }

    /// The configuration of the runner's pool.
    pub closed spec fn config(&self) -> PoolConfig {
        self.config
    }

    /// The transactions that the runner's pool was made with.
    pub closed spec fn initial(&self) -> Seq<Seq<char>> {
        self.initial@
    }

    /// The identifiers of the commands in flight, oldest first.
    pub closed spec fn ids(&self) -> Seq<u64> {
        command_ids(self.in_flight@)
    }

    /// The engine states of the commands in flight, oldest first.
    pub closed spec fn states(&self) -> Seq<EngineView> {
        command_states(self.in_flight@)
    }

    /// Every command in flight is well formed and undecided, and no two have
    /// the same identifier.
    pub closed spec fn wf(&self) -> bool {
        &&& self.pool matches Some(pool) ==> pool.wf() && pool.config() == self.config
            && pool.initial() == self.initial@
        &&& forall|i: int|
            0 <= i < self.in_flight@.len() ==> (#[trigger] self.in_flight@[i]).wf()
                && self.in_flight@[i]@.decision is None
        &&& command_ids(self.in_flight@).no_duplicates()
    }

    /// What a well-formed runner holds.
    pub proof fn lemma_wf(&self)
        requires
            self.wf(),
        ensures
            self.ids().len() == self.states().len(),
            self.ids().no_duplicates(),
            forall|i: int|
                0 <= i < self.states().len() ==> (#[trigger] self.states()[i]).wf()
                    && self.states()[i].decision is None,
    {
        assert forall|i: int| 0 <= i < self.states().len() implies (#[trigger] self.states()[i]).wf()
            && self.states()[i].decision is None by {
            self.in_flight@[i].lemma_wf();
        }
    }

    /// A runner that owns `pool`, takes commands, and has none in flight.
    pub fn new(pool: LocalPool) -> (runner: PoolRunner)
        requires
            pool.wf(),
        ensures
            runner.wf(),
            runner.accepting(),
            runner.ids().len() == 0,
            runner.config() == pool.config(),
            runner.initial() == pool.initial(),
    {
        let config = pool.snapshot().config();
        let ghost initial = pool.initial();
        PoolRunner { pool: Some(pool), config, initial: Ghost(initial), in_flight: Vec::new() }
    }

    /// Where the command with the given identifier stands in the list.
    fn find(&self, request_id: u64) -> (r: Option<usize>)
        requires
            self.wf(),
        ensures
            r is Some <==> self.ids().contains(request_id),
            r matches Some(i) ==> i < self.ids().len() && self.ids()[i as int] == request_id,
    {
        let mut i: usize = 0;
        while i < self.in_flight.len()
            invariant
                i <= self.in_flight.len(),
                forall|j: int| 0 <= j < i ==> self.ids()[j] != request_id,
            decreases self.in_flight.len() - i,
        {
            if self.in_flight[i].id() == request_id {
                assert(self.ids()[i as int] == request_id);
                return Some(i);
            }
            i = i + 1;
        }
        None
    }

    /// Takes a command: plans the request and puts it in flight.
    ///
    /// - A stopped runner takes nothing: the command is `Cancelled`.
    /// - A command whose identifier is in flight is refused as
    ///   `DuplicateRequest`.
    /// - Else the request is planned as the pool plans it, for the roster as
    ///   it is now: see `submitted`. A request without a payload is refused
    ///   as `EmptyRequest`, one that names a single node beyond the roster as
    ///   `UnknownNode`, and any other is put in flight.
    ///
    /// On success the returned request is in flight: its payload is to be
    /// sent to its recipients.
    pub fn submit(&mut self, request: OutboundRequest, offset: usize) -> (r: VdrResult<u64>)
        requires
            old(self).wf(),
        ensures
            final(self).wf(),
            final(self).accepting() == old(self).accepting(),
            final(self).config() == old(self).config(),
            final(self).initial() == old(self).initial(),
            !old(self).accepting() ==> r == Err::<u64, VdrError>(VdrError::Cancelled),
            old(self).accepting() && old(self).ids().contains(request.request_id) ==> r == Err::<
                u64,
                VdrError,
            >(VdrError::Request(RequestFault::DuplicateRequest)),
            !old(self).accepting() || old(self).ids().contains(request.request_id) ==> {
                &&& final(self).ids() == old(self).ids()
                &&& final(self).states() == old(self).states()
            },
            old(self).accepting() && !old(self).ids().contains(request.request_id) ==> exists|
                n: nat,
            |
                n >= old(self).initial().len() && #[trigger] submitted(
                    r,
                    (old(self).ids(), old(self).states()),
                    (final(self).ids(), final(self).states()),
                    request,
                    old(self).config(),
                    n,
                    offset as nat,
                ),
    {
        let ghost n = 0nat;
        let planned = match &self.pool {
            None => {
                return Err(VdrError::Cancelled);
            },
            Some(pool) => {
                if self.find(request.request_id).is_some() {
                    return Err(VdrError::Request(RequestFault::DuplicateRequest));
                }
                let planned = pool.begin(request, offset);
                proof {
                    n = choose|n: nat|
                        n >= pool.initial().len() && #[trigger] planned_for(
                            planned,
                            request,
                            pool.config(),
                            n,
                            offset as nat,
                        );
                }
                planned
            },
        };
        let ghost lists = (self.ids(), self.states());
        match planned {
            Err(e) => {
                assert(submitted(
                    Err::<u64, VdrError>(e),
                    lists,
                    lists,
                    request,
                    self.config(),
                    n,
                    offset as nat,
                ));
                Err(e)
            },
            Ok(pending) => {
                let id = pending.id();
                let ghost before = self.in_flight@;
                self.in_flight.push(pending);
                proof {
                    assert(command_ids(self.in_flight@) =~= command_ids(before).push(id));
                    assert(command_states(self.in_flight@) =~= command_states(before).push(
                        pending@,
                    ));
                    assert forall|a: int, b: int|
                        0 <= a < self.in_flight@.len() && 0 <= b < self.in_flight@.len() && a
                            != b implies command_ids(self.in_flight@)[a] != command_ids(
                        self.in_flight@,
                    )[b] by {
                        if a < before.len() && b < before.len() {
                            assert(command_ids(before)[a] != command_ids(before)[b]);
                        } else if a < before.len() {
                            assert(command_ids(before)[a] == command_ids(before)[a]);
                            assert(command_ids(before).contains(command_ids(before)[a]));
                        } else {
                            assert(command_ids(before)[b] == command_ids(before)[b]);
                            assert(command_ids(before).contains(command_ids(before)[b]));
                        }
                    }
                }
                assert(submitted(
                    Ok::<u64, VdrError>(id),
                    lists,
                    (self.ids(), self.states()),
                    request,
                    self.config(),
                    n,
                    offset as nat,
                ));
                Ok(id)
            },
        }
    }

    /// Hands one event to the command with the given identifier.
    ///
    /// Returns the command's resolution where the event decides it; the
    /// command then leaves the list. An event for a command that is not in
    /// flight is discarded.
    pub fn deliver(&mut self, request_id: u64, event: NodeEvent) -> (r: Option<Resolution>)
        requires
            old(self).wf(),
        ensures
            final(self).wf(),
            final(self).accepting() == old(self).accepting(),
            final(self).config() == old(self).config(),
            final(self).initial() == old(self).initial(),
            !old(self).ids().contains(request_id) ==> r is None && final(self).ids() == old(
                self,
            ).ids() && final(self).states() == old(self).states(),
            old(self).ids().contains(request_id) ==> {
                let at = old(self).ids().index_of(request_id);
                let next = old(self).states()[at].step(event@);
                &&& r is Some <==> next.decision is Some
                &&& r matches Some(resolution) ==> {
                    &&& resolution.request_id == request_id
                    &&& Some(result_view(resolution.result)) == next.decision
                    &&& timing_views(resolution.timing@) == next.timing()
                    &&& final(self).ids() == old(self).ids().remove(at)
                    &&& final(self).states() == old(self).states().remove(at)
                }
                &&& r is None ==> final(self).ids() == old(self).ids() && final(self).states()
                    == old(self).states().update(at, next)
            },
    {
        let at = match self.find(request_id) {
            None => {
                return None;
            },
            Some(at) => at,
        };
        let ghost before = self.in_flight@;
        proof {
            let k = command_ids(before).index_of(request_id);
            assert(command_ids(before)[k] == request_id);
            assert(command_ids(before)[at as int] == request_id);
            assert(k == at);
        }
        let mut command = self.in_flight.remove(at);
        assert(command == before[at as int]);
        command.handle(event);
        proof {
            assert(command_ids(self.in_flight@) =~= command_ids(before).remove(at as int));
            assert(command_states(self.in_flight@) =~= command_states(before).remove(at as int));
            assert forall|i: int| 0 <= i < self.in_flight@.len() implies (
            #[trigger] self.in_flight@[i]).wf() && self.in_flight@[i]@.decision is None by {
                if i < at {
                    assert(self.in_flight@[i] == before[i]);
                } else {
                    assert(self.in_flight@[i] == before[i + 1]);
                }
            }
            assert(command_ids(self.in_flight@).no_duplicates()) by {
                let ids = command_ids(before);
                assert forall|a: int, b: int|
                    0 <= a < ids.remove(at as int).len() && 0 <= b < ids.remove(at as int).len()
                        && a != b implies ids.remove(at as int)[a] != ids.remove(at as int)[b] by {
                    let a0 = if a < at { a } else { a + 1 };
                    let b0 = if b < at { b } else { b + 1 };
                    assert(ids[a0] != ids[b0]);
                }
            }
        }
        match command.outcome() {
            Some((result, timing)) => Some(Resolution { request_id, result, timing }),
            None => {
                let ghost mid = self.in_flight@;
                self.in_flight.insert(at, command);
                proof {
                    assert(command_ids(self.in_flight@) =~= command_ids(before));
                    assert(command_states(self.in_flight@) =~= command_states(before).update(
                        at as int,
                        command@,
                    ));
                    assert forall|i: int| 0 <= i < self.in_flight@.len() implies (
                    #[trigger] self.in_flight@[i]).wf() && self.in_flight@[i]@.decision is None by {
                        if i < at {
                            assert(self.in_flight@[i] == mid[i]);
                        } else if i > at {
                            assert(self.in_flight@[i] == mid[i - 1]);
                        }
                    }
                }
                None
            },
        }
    }

    /// Stops the runner: it takes no more commands, every command in flight
    /// is cancelled, and the pool is released.
    ///
    /// Returns one resolution for each command that was in flight, oldest
    /// first: each is `Failed(Cancelled)`, with the timing of the command as
    /// it stood. No command is left without a result.
    pub fn stop(&mut self) -> (out: Vec<Resolution>)
        requires
            old(self).wf(),
        ensures
            final(self).wf(),
            !final(self).accepting(),
            final(self).config() == old(self).config(),
            final(self).initial() == old(self).initial(),
            final(self).ids().len() == 0,
            out@.len() == old(self).ids().len(),
            forall|i: int|
                0 <= i < out@.len() ==> {
                    &&& (#[trigger] out@[i]).request_id == old(self).ids()[i]
                    &&& result_view(out@[i].result) == RequestResult::<Seq<char>>::Failed(
                        VdrError::Cancelled,
                    )
                    &&& timing_views(out@[i].timing@) == old(self).states()[i].timing()
                },
    {
        let ghost before = self.in_flight@;
        let mut commands: Vec<PendingRequest> = Vec::new();
        std::mem::swap(&mut commands, &mut self.in_flight);
        self.pool = None;
        assert(command_ids(self.in_flight@).len() == 0);
        let mut out: Vec<Resolution> = Vec::new();
        let mut i: usize = 0;
        let total: usize = commands.len();
        while commands.len() > 0
            invariant
                i + commands.len() == total,
                total == before.len(),
                out.len() == i,
                forall|j: int|
                    0 <= j < commands.len() ==> #[trigger] commands@[j] == before[i + j],
                forall|j: int|
                    0 <= j < before.len() ==> (#[trigger] before[j]).wf() && before[j]@.decision
                        is None,
                forall|j: int|
                    0 <= j < i ==> {
                        &&& (#[trigger] out@[j]).request_id == before[j].request_id()
                        &&& result_view(out@[j].result) == RequestResult::<Seq<char>>::Failed(
                            VdrError::Cancelled,
                        )
                        &&& timing_views(out@[j].timing@) == before[j]@.timing()
                    },
            decreases commands.len(),
        {
            let mut command = commands.remove(0);
            assert(command == before[i as int]);
            let request_id = command.id();
            command.handle(NodeEvent::Cancel);
            let (result, timing) = command.resolution();
            out.push(Resolution { request_id, result, timing });
            i = i + 1;
        }
        out
    }

    /// Number of commands in flight.
    pub fn in_flight(&self) -> (n: usize)
        ensures
            n == self.ids().len(),
    {
        self.in_flight.len()
    }

    /// Whether the runner still takes commands.
    pub fn is_accepting(&self) -> (b: bool)
        ensures
            b == self.accepting(),
    {
        self.pool.is_some()
    }
}

} // verus!
