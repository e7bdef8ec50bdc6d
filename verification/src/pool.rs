//! The pool: a validated configuration and a genesis store, from which
//! requests are planned, behind two kinds of handle.
//!
//! - `LocalPool` is for one thread of control. Its handles share one state
//!   through `Rc`, so they cannot leave the thread that made them.
//! - `SharedPool` may be used from many threads at once. Its handles share
//!   one state behind a lock.
//!
//! Both keep the current `PoolSetup` behind a pointer. A refresh builds the
//! next setup aside and swaps the pointer; a request keeps the nodes it was
//! planned with, so a refresh never reaches a request in flight.

use crate::config::{config_error, PoolConfig};
use crate::consensus::{ConsensusState, EngineView, NodeEvent, RequestResult, TimingEntry};
use crate::error::{ConfigFault, RequestFault, VdrError, VdrResult};
use crate::genesis::{
    all_records, join_lines, node_views, roster_of, text_views, GenesisStore, NodeDescriptor,
    NodeView,
};
use std::rc::Rc;
use std::sync::Arc;
use vstd::cell::invcell::InvCell;
use vstd::predicate::Predicate;
use vstd::prelude::*;
use vstd::rwlock::{RwLock, RwLockPredicate};

verus! {

/// Which nodes a request is sent to.
#[derive(Clone, Copy, Debug, PartialEq, Eq, Structural)]
pub enum Target {
    /// Every node of the roster.
    All,
    /// The node at the given place in the roster, and no other. Its reply is
    /// taken as it comes: the threshold of such a request is one.
    Node(usize),
    /// As many nodes as the configuration says, taken round the roster from
    /// a starting place that the caller varies from request to request.
    Adaptive,
}

/// A request to the ledger, already serialized.
#[derive(Clone, Debug, PartialEq, Eq)]
pub struct OutboundRequest {
    /// The caller's identifier for the request.
    pub request_id: u64,
    /// The serialized operation. To the pool it is opaque.
    pub payload: Vec<u8>,
    /// Which nodes to ask.
    pub target: Target,
    /// How long to wait for a quorum, in milliseconds.
    pub deadline: u64,
}

/// The place `i` steps round a roster of `n` nodes from `start`.
pub open spec fn wrap_index(start: int, i: int, n: int) -> int {
    if start + i < n {
        start + i
    } else {
        start + i - n
    }
}

/// The nodes that a request is sent to, in the order in which they are
/// asked, for a roster of `n` nodes.
///
/// For `Adaptive`, `breadth` nodes are taken round the roster, starting at
/// `offset` modulo `n`.
pub open spec fn planned_nodes(target: Target, n: nat, breadth: nat, offset: nat) -> Seq<usize> {
    match target {
        Target::All => Seq::new(n, |i: int| i as usize),
        Target::Node(k) => seq![k],
        Target::Adaptive => Seq::new(
            breadth,
            |i: int| wrap_index((offset % n) as int, i, n as int) as usize,
        ),
    }
}

/// The number of agreeing replies that decides a request.
pub open spec fn planned_threshold(target: Target, quorum: nat) -> nat {
    match target {
        Target::Node(_) => 1,
        _ => quorum,
    }
}

/// The engine's state for a request that was just planned for a roster of
/// `n` nodes: it goes to `planned_nodes`, as many of them as the
/// configuration says for `Adaptive`, with `planned_threshold`.
pub open spec fn planned_state(target: Target, config: PoolConfig, n: nat, offset: nat) -> EngineView {
    EngineView::start(
        planned_nodes(target, n, config.spec_fan_out(n), offset),
        planned_threshold(target, config.quorum_threshold as nat),
    )
}

/// Why a request cannot be planned for a roster of `n` nodes, if it cannot:
/// it has no payload, or it names a single node beyond the roster.
pub open spec fn plan_fault(request: OutboundRequest, n: nat) -> Option<VdrError> {
    if request.payload@.len() == 0 {
        Some(VdrError::Request(RequestFault::EmptyRequest))
    } else if request.target matches Target::Node(k) && k >= n {
        Some(VdrError::Request(RequestFault::UnknownNode))
    } else {
        None
    }
}

/// `r` is what planning `request` for a roster of `n` nodes gives: the
/// request's fault, or the request in flight, planned from `offset`.
pub open spec fn planned_for(
    r: VdrResult<PendingRequest>,
    request: OutboundRequest,
    config: PoolConfig,
    n: nat,
    offset: nat,
) -> bool {
    match plan_fault(request, n) {
        Some(e) => r == Err::<PendingRequest, VdrError>(e),
        None => {
            &&& r matches Ok(pending)
            &&& pending.wf()
            &&& pending@ == planned_state(request.target, config, n, offset)
            &&& pending.roster().len() == n
            &&& pending.request_id() == request.request_id
            &&& pending.deadline() == request.deadline
            &&& pending.payload() == request.payload@
        },
    }
}

/// The nodes of a plan are nodes of the roster, and none is asked twice.
pub proof fn lemma_planned_nodes(target: Target, n: nat, breadth: nat, offset: nat)
    requires
        0 < n <= usize::MAX,
        breadth <= n,
        target matches Target::Node(k) ==> k < n,
    ensures
        planned_nodes(target, n, breadth, offset).no_duplicates(),
        forall|i: int|
            0 <= i < planned_nodes(target, n, breadth, offset).len() ==> (#[trigger] planned_nodes(
                target,
                n,
                breadth,
                offset,
            )[i]) < n,
{
    let nodes = planned_nodes(target, n, breadth, offset);
    let start = (offset % n) as int;
    assert forall|i: int, j: int| 0 <= i < nodes.len() && 0 <= j < nodes.len() && i != j implies
        nodes[i] != nodes[j] by {
        match target {
            Target::All => {},
            Target::Node(_) => {},
            Target::Adaptive => {
                assert(0 <= wrap_index(start, i, n as int) < n);
                assert(0 <= wrap_index(start, j, n as int) < n);
            },
        }
    }
}

/// What a pool is made of, as plain values.
pub struct SetupView {
    pub config: PoolConfig,
    pub transactions: Seq<Seq<char>>,
}

/// One state of a pool: a configuration and the genesis store it serves.
/// A setup is never changed; a refresh makes the next one.
pub struct PoolSetup {
    config: PoolConfig,
    genesis: GenesisStore,
}

impl View for PoolSetup {
    type V = SetupView;

    closed spec fn view(&self) -> SetupView {
        SetupView { config: self.config, transactions: self.genesis@ }
    }
}

impl PoolSetup {
    /// The genesis store is well formed and the configuration fits its
    /// roster: `1 <= quorum_threshold <= ` the number of nodes.
    pub closed spec fn wf(&self) -> bool {
        &&& self.genesis.wf()
        &&& self.config.valid_for(self.genesis@.len())
    }

    /// What a well-formed setup holds.
    pub proof fn lemma_wf(&self)
        requires
            self.wf(),
        ensures
            self@.transactions.len() > 0,
            all_records(self@.transactions),
            self@.config.valid_for(self@.transactions.len()),
    {
        self.genesis.lemma_wf();
    }

    /// Builds a setup. Fails with the configuration's fault where the
    /// configuration does not fit the roster of the store.
    pub fn build(config: PoolConfig, genesis: GenesisStore) -> (r: VdrResult<PoolSetup>)
        requires
            genesis.wf(),
        ensures
            r is Ok <==> config.valid_for(genesis@.len()),
            r matches Ok(setup) ==> setup.wf() && setup@ == (SetupView {
                config,
                transactions: genesis@,
            }),
            r matches Err(e) ==> Some(e) == config_error(config.fault_for(genesis@.len())),
    {
        match config.validate_for(genesis.len()) {
            Err(e) => Err(e),
            Ok(()) => Ok(PoolSetup { config, genesis }),
        }
    }

    /// The configuration.
    pub fn config(&self) -> (c: PoolConfig)
        ensures
            c == self@.config,
    {
        self.config
    }

    /// The roster: one node for each genesis transaction, in their order.
    pub fn roster(&self) -> (out: Vec<NodeDescriptor>)
        requires
            self.wf(),
        ensures
            node_views(out@) == roster_of(self@.transactions),
    {
        self.genesis.roster()
    }

    /// The genesis transactions, in order.
    pub fn get_transactions(&self) -> (out: Vec<String>)
        ensures
            text_views(out@) == self@.transactions,
    {
        self.genesis.transactions()
    }

    /// The trust anchor of the genesis transactions.
    pub fn root_hash(&self) -> (out: Vec<u8>)
        requires
            self.wf(),
        ensures
            out@ == crate::genesis::genesis_root(self@.transactions),
    {
        self.genesis.root_hash()
    }

    /// The genesis log, served from the store: the transactions, one to a
    /// line. No node is asked, so two calls give the same text.
    pub fn genesis_log(&self) -> (out: String)
        ensures
            out@ == join_lines(self@.transactions),
    {
        self.genesis.genesis_log()
    }

    /// The setup that follows this one when `new_transactions` are added to
    /// the ledger's genesis log. This setup stays as it is.
    pub fn extended(&self, new_transactions: &[String]) -> (r: VdrResult<PoolSetup>)
        requires
            self.wf(),
        ensures
            r is Ok <==> all_records(text_views(new_transactions@)),
            r matches Ok(next) ==> next.wf() && next@ == (SetupView {
                config: self@.config,
                transactions: self@.transactions + text_views(new_transactions@),
            }),
            r matches Err(e) ==> e == VdrError::Config(ConfigFault::MalformedTransaction),
    {
        let mut genesis = self.genesis.duplicate();
        match genesis.extend(new_transactions) {
            Err(e) => Err(e),
            Ok(()) => Ok(PoolSetup { config: self.config, genesis }),
        }
    }

    /// Plans a request: picks the nodes to ask and the threshold, and
    /// returns the request ready to be sent.
    ///
    /// - An empty payload is refused as `EmptyRequest`.
    /// - `Target::Node(k)` with `k` outside the roster is refused as
    ///   `UnknownNode`.
    /// - Else the request goes to `planned_nodes`, with `planned_threshold`.
    pub fn begin(&self, request: OutboundRequest, offset: usize) -> (r: VdrResult<PendingRequest>)
        requires
            self.wf(),
        ensures
            planned_for(r, request, self@.config, self@.transactions.len(), offset as nat),
            r matches Ok(pending) ==> pending.roster() == roster_of(self@.transactions),
    {
        proof {
            self.genesis.lemma_wf();
        }
        if request.payload.len() == 0 {
            return Err(VdrError::Request(RequestFault::EmptyRequest));
        }
        let n: usize = self.genesis.len();
        let breadth: usize = self.config.fan_out(n);
        let ghost plan = planned_nodes(request.target, n as nat, breadth as nat, offset as nat);
        let mut nodes: Vec<usize> = Vec::new();
        let threshold: usize;
        match request.target {
            Target::All => {
                let mut i: usize = 0;
                while i < n
                    invariant
                        i <= n,
                        nodes.len() == i,
                        forall|j: int| 0 <= j < i ==> nodes[j] == j,
                    decreases n - i,
                {
                    nodes.push(i);
                    i = i + 1;
                }
                threshold = self.config.quorum_threshold;
            },
            Target::Node(k) => {
                if k >= n {
                    return Err(VdrError::Request(RequestFault::UnknownNode));
                }
                nodes.push(k);
                threshold = 1;
            },
            Target::Adaptive => {
                let start: usize = offset % n;
                let mut i: usize = 0;
                while i < breadth
                    invariant
                        i <= breadth <= n,
                        start < n,
                        nodes.len() == i,
                        forall|j: int|
                            0 <= j < i ==> nodes[j] == wrap_index(start as int, j, n as int),
                    decreases breadth - i,
                {
                    let node: usize = if i < n - start {
                        start + i
                    } else {
                        i - (n - start)
                    };
                    nodes.push(node);
                    i = i + 1;
                }
                threshold = self.config.quorum_threshold;
            },
        }
        proof {
            assert(nodes@ =~= plan);
            lemma_planned_nodes(request.target, n as nat, breadth as nat, offset as nat);
        }
        let roster = self.genesis.roster();
        let state = ConsensusState::open(nodes, threshold);
        Ok(
            PendingRequest {
                request_id: request.request_id,
                deadline: request.deadline,
                payload: request.payload,
                roster,
                state,
            },
        )
    }
}

/// A request in flight: what to send, to which nodes, and the engine's
/// state for it. It keeps the roster it was planned with.
pub struct PendingRequest {
    request_id: u64,
    deadline: u64,
    payload: Vec<u8>,
    roster: Vec<NodeDescriptor>,
    state: ConsensusState,
}

impl View for PendingRequest {
    type V = EngineView;

    /// The engine's state for the request.
    closed spec fn view(&self) -> EngineView {
        self.state@
    }
}

impl PendingRequest {
    /// The caller's identifier for the request.
    pub closed spec fn request_id(&self) -> u64 {
        self.request_id
    }

    /// How long the request may wait for a quorum, in milliseconds.
    pub closed spec fn deadline(&self) -> u64 {
        self.deadline
    }

    /// The serialized operation.
    pub closed spec fn payload(&self) -> Seq<u8> {
        self.payload@
    }

    /// The roster that the request was planned with.
    pub closed spec fn roster(&self) -> Seq<NodeView> {
        node_views(self.roster@)
    }

    /// The engine's state is well formed and every node that the request
    /// went to is a node of the roster it was planned with.
    pub closed spec fn wf(&self) -> bool {
        &&& self.state@.wf()
        &&& forall|i: int|
            0 <= i < self.state@.dispatched.len() ==> (#[trigger] self.state@.dispatched[i])
                < self.roster@.len()
    }

    /// A well-formed request has a well-formed engine state, and goes to
    /// nodes of its roster.
    pub proof fn lemma_wf(&self)
        requires
            self.wf(),
        ensures
            self@.wf(),
            forall|i: int|
                0 <= i < self@.dispatched.len() ==> (#[trigger] self@.dispatched[i])
                    < self.roster().len(),
    {
    }

    /// The caller's identifier for the request.
    pub fn id(&self) -> (id: u64)
        ensures
            id == self.request_id(),
    {
        self.request_id
    }

    /// How long the request may wait for a quorum, in milliseconds.
    pub fn deadline_ms(&self) -> (ms: u64)
        ensures
            ms == self.deadline(),
    {
        self.deadline
    }

    /// The bytes to send to each node.
    pub fn payload_bytes(&self) -> (out: &Vec<u8>)
        ensures
            out@ == self.payload(),
    {
        &self.payload
    }

    /// The nodes to send the request to, with their addresses, in the order
    /// of the plan.
    pub fn recipients(&self) -> (out: Vec<(usize, NodeDescriptor)>)
        requires
            self.wf(),
        ensures
            out@.len() == self@.dispatched.len(),
            forall|i: int|
                0 <= i < out@.len() ==> (#[trigger] out[i]).0 == self@.dispatched[i] && out[i].1@
                    == self.roster()[self@.dispatched[i] as int],
    {
        let nodes = self.state.dispatched();
        let mut out: Vec<(usize, NodeDescriptor)> = Vec::new();
        let mut i: usize = 0;
        while i < nodes.len()
            invariant
                i <= nodes.len(),
                nodes@ == self.state@.dispatched,
                self.wf(),
                out.len() == i,
                forall|j: int|
                    0 <= j < i ==> (#[trigger] out[j]).0 == nodes[j] && out[j].1@ == node_views(
                        self.roster@,
                    )[nodes[j] as int],
            decreases nodes.len() - i,
        {
            let node: usize = nodes[i];
            assert(self.state@.dispatched[i as int] < self.roster@.len());
            out.push((node, self.roster[node].clone()));
            i = i + 1;
        }
        out
    }

    /// Takes one event of the request and moves the engine to its next
    /// state, as `EngineView::step` says.
    pub fn handle(&mut self, event: NodeEvent)
        requires
            old(self).wf(),
        ensures
            final(self).wf(),
            final(self)@ == old(self)@.step(event@),
            final(self).request_id() == old(self).request_id(),
            final(self).deadline() == old(self).deadline(),
            final(self).payload() == old(self).payload(),
            final(self).roster() == old(self).roster(),
    {
        proof {
            crate::consensus::lemma_step_wf(self.state@, event@);
        }
        self.state.handle(event);
    }

    /// The result of the request with its timing, once it is decided.
    ///
    /// The timing holds one entry for each node that the request went to,
    /// whether the node replied or not.
    pub fn outcome(&self) -> (out: Option<(RequestResult<String>, Vec<TimingEntry>)>)
        requires
            self.wf(),
        ensures
            out is Some <==> self@.decision is Some,
            out matches Some((result, timing)) ==> Some(crate::consensus::result_view(result))
                == self@.decision && crate::consensus::timing_views(timing@) == self@.timing(),
    {
        if self.state.is_decided() {
            Some(self.resolution())
        } else {
            None
        }
    }

    /// The result of a decided request with its timing.
    pub fn resolution(&self) -> (out: (RequestResult<String>, Vec<TimingEntry>))
        requires
            self.wf(),
            self@.decision is Some,
        ensures
            Some(crate::consensus::result_view(out.0)) == self@.decision,
            crate::consensus::timing_views(out.1@) == self@.timing(),
    {
        (self.state.result(), self.state.timing())
    }

    /// Whether the request failed because its deadline passed.
    pub fn timed_out(&self) -> (b: bool)
        ensures
            b == self@.timed_out,
    {
        self.state.timed_out()
    }
}

/// What a pool's state may be at any time: a well-formed setup with the
/// configuration the pool was made with, whose transactions begin with those
/// the pool was made with.
pub struct SetupInvariant {
    pub config: PoolConfig,
    pub initial: Seq<Seq<char>>,
}

impl SetupInvariant {
    /// The setup is one that the pool may hold.
    pub open spec fn admits(self, setup: PoolSetup) -> bool {
        &&& setup.wf()
        &&& setup@.config == self.config
        &&& self.initial.is_prefix_of(setup@.transactions)
    }
}

impl RwLockPredicate<Arc<PoolSetup>> for SetupInvariant {
    open spec fn inv(self, setup: Arc<PoolSetup>) -> bool {
        self.admits(*setup)
    }
}

impl Predicate<Rc<PoolSetup>> for SetupInvariant {
    open spec fn predicate(&self, setup: Rc<PoolSetup>) -> bool {
        self.admits(*setup)
    }
}

/// A refresh never moves a node: in every setup that a pool may hold, the
/// roster is whole, with one node for each transaction, and it begins with
/// the roster that the pool was made with. So a place in the roster names
/// the same node before and after a refresh.
pub proof fn lemma_refresh_keeps_places(admitted: SetupInvariant, setup: PoolSetup)
    requires
        admitted.admits(setup),
    ensures
        all_records(setup@.transactions),
        roster_of(setup@.transactions).len() == setup@.transactions.len(),
        roster_of(admitted.initial).is_prefix_of(roster_of(setup@.transactions)),
{
    setup.lemma_wf();
    let before = roster_of(admitted.initial);
    let now = roster_of(setup@.transactions);
    assert(before =~= now.subrange(0, before.len() as int)) by {
        assert forall|i: int| 0 <= i < before.len() implies before[i] == now[i] by {
            assert(admitted.initial[i] == setup@.transactions.subrange(
                0,
                admitted.initial.len() as int,
            )[i]);
        }
    }
}

/// Calls `Rc::clone`: a second pointer to the same value.
///
/// Trusted, not proved: the new pointer leads to the value of the old one.
#[verifier::external_body]
fn share_local<T>(pointer: &Rc<T>) -> (out: Rc<T>)
    ensures
        out == pointer,
{
    Rc::clone(pointer)
}

/// Calls `Arc::clone`: a second pointer to the same value.
///
/// Trusted, not proved: the new pointer leads to the value of the old one.
#[verifier::external_body]
fn share<T>(pointer: &Arc<T>) -> (out: Arc<T>)
    ensures
        out == pointer,
{
    Arc::clone(pointer)
}

/// A pool for one thread of control.
///
/// A clone of the handle leads to the same state: what one handle
/// refreshes, the others see. The state is not synchronized, and the handle
/// cannot be sent to another thread.
pub struct LocalPool {
    current: Rc<InvCell<Rc<PoolSetup>, SetupInvariant>>,
    first: Rc<PoolSetup>,
}

impl LocalPool {
    /// The configuration of the pool. A refresh does not change it.
    pub closed spec fn config(&self) -> PoolConfig {
        self.current.predicate().config
    }

    /// The transactions that the pool was made with. A refresh only adds
    /// transactions after them.
    pub closed spec fn initial(&self) -> Seq<Seq<char>> {
        self.current.predicate().initial
    }

    /// The handle keeps the setup that the pool was made with.
    pub closed spec fn wf(&self) -> bool {
        self.current.predicate().admits(*self.first)
    }

    /// A pool that starts from the given setup.
    pub fn build(setup: PoolSetup) -> (pool: LocalPool)
        requires
            setup.wf(),
        ensures
            pool.wf(),
            pool.config() == setup@.config,
            pool.initial() == setup@.transactions,
    {
        let ghost admitted = SetupInvariant {
            config: setup@.config,
            initial: setup@.transactions,
        };
        let first = Rc::new(setup);
        let held = share_local(&first);
        let cell = InvCell::<Rc<PoolSetup>, SetupInvariant>::new(held, Ghost(admitted));
        LocalPool { current: Rc::new(cell), first }
    }

    /// A second handle to the same pool.
    pub fn share(&self) -> (pool: LocalPool)
        requires
            self.wf(),
        ensures
            pool.wf(),
            pool.config() == self.config(),
            pool.initial() == self.initial(),
    {
        LocalPool { current: share_local(&self.current), first: share_local(&self.first) }
    }

    /// The setup of the pool as it is now, whole: a setup is never seen
    /// half refreshed. It has the pool's configuration, and its transactions
    /// begin with those the pool was made with.
    pub fn snapshot(&self) -> (setup: Rc<PoolSetup>)
        requires
            self.wf(),
        ensures
            setup.wf(),
            setup@.config == self.config(),
            self.initial().is_prefix_of(setup@.transactions),
    {
        let held = self.current.replace(share_local(&self.first));
        let setup = share_local(&held);
        let _ = self.current.replace(held);
        setup
    }

    /// Adds transactions that were read from the ledger to the pool's
    /// genesis log, and swaps the setup for the one that follows.
    ///
    /// Fails, and leaves the pool as it is, where one of the transactions is
    /// malformed.
    pub fn refresh(&self, new_transactions: &[String]) -> (r: VdrResult<()>)
        requires
            self.wf(),
        ensures
            r is Ok <==> all_records(text_views(new_transactions@)),
            r matches Err(e) ==> e == VdrError::Config(ConfigFault::MalformedTransaction),
    {
        let held = self.current.replace(share_local(&self.first));
        match held.extended(new_transactions) {
            Ok(next) => {
                let _ = self.current.replace(Rc::new(next));
                Ok(())
            },
            Err(e) => {
                let _ = self.current.replace(held);
                Err(e)
            },
        }
    }

    /// Plans a request against the setup of the pool as it is now.
    ///
    /// The result is what `PoolSetup::begin` gives for the pool's
    /// configuration and a roster of some size `n`, which is the size of the
    /// roster now: never less than that of the roster the pool was made with.
    pub fn begin(&self, request: OutboundRequest, offset: usize) -> (r: VdrResult<PendingRequest>)
        requires
            self.wf(),
        ensures
            exists|n: nat|
                n >= self.initial().len() && #[trigger] planned_for(
                    r,
                    request,
                    self.config(),
                    n,
                    offset as nat,
                ),
    {
        let setup = self.snapshot();
        let r = setup.begin(request, offset);
        assert(planned_for(r, request, self.config(), setup@.transactions.len(), offset as nat));
        r
    }
}

/// A pool that may be used from many threads at once.
///
/// A clone of the handle leads to the same state, which is kept behind a
/// lock. The lock is held only while the pointer to the setup is read or
/// swapped.
pub struct SharedPool {
    current: Arc<RwLock<Arc<PoolSetup>, SetupInvariant>>,
}

impl SharedPool {
    /// The configuration of the pool. A refresh does not change it.
    pub closed spec fn config(&self) -> PoolConfig {
        self.current.pred().config
    }

    /// The transactions that the pool was made with. A refresh only adds
    /// transactions after them.
    pub closed spec fn initial(&self) -> Seq<Seq<char>> {
        self.current.pred().initial
    }

    /// A pool that starts from the given setup.
    pub fn build(setup: PoolSetup) -> (pool: SharedPool)
        requires
            setup.wf(),
        ensures
            pool.config() == setup@.config,
            pool.initial() == setup@.transactions,
    {
        let ghost admitted = SetupInvariant {
            config: setup@.config,
            initial: setup@.transactions,
        };
        let lock = RwLock::<Arc<PoolSetup>, SetupInvariant>::new(
            Arc::new(setup),
            Ghost(admitted),
        );
        SharedPool { current: Arc::new(lock) }
    }

    /// A second handle to the same pool.
    pub fn share(&self) -> (pool: SharedPool)
        ensures
            pool.config() == self.config(),
            pool.initial() == self.initial(),
    {
        SharedPool { current: share(&self.current) }
    }

    /// The setup of the pool as it is now, whole: a setup is never seen
    /// half refreshed. It has the pool's configuration, and its transactions
    /// begin with those the pool was made with.
    pub fn snapshot(&self) -> (setup: Arc<PoolSetup>)
        ensures
            setup.wf(),
            setup@.config == self.config(),
            self.initial().is_prefix_of(setup@.transactions),
    {
        let guard = self.current.acquire_read();
        let setup = share(guard.borrow());
        guard.release_read();
        setup
    }

    /// Adds transactions that were read from the ledger to the pool's
    /// genesis log, and swaps the setup for the one that follows. The swap is
    /// made under the write lock: no reader sees anything between the two
    /// setups.
    ///
    /// Fails, and leaves the pool as it is, where one of the transactions is
    /// malformed.
    pub fn refresh(&self, new_transactions: &[String]) -> (r: VdrResult<()>)
        ensures
            r is Ok <==> all_records(text_views(new_transactions@)),
            r matches Err(e) ==> e == VdrError::Config(ConfigFault::MalformedTransaction),
    {
        let (held, guard) = self.current.acquire_write();
        match held.extended(new_transactions) {
            Ok(next) => {
                guard.release_write(Arc::new(next));
                Ok(())
            },
            Err(e) => {
                guard.release_write(held);
                Err(e)
            },
        }
    }

    /// Plans a request against the setup of the pool as it is now.
    ///
    /// The result is what `PoolSetup::begin` gives for the pool's
    /// configuration and a roster of some size `n`, which is the size of the
    /// roster now: never less than that of the roster the pool was made with.
    pub fn begin(&self, request: OutboundRequest, offset: usize) -> (r: VdrResult<PendingRequest>)
        ensures
            exists|n: nat|
                n >= self.initial().len() && #[trigger] planned_for(
                    r,
                    request,
                    self.config(),
                    n,
                    offset as nat,
                ),
    {
        let setup = self.snapshot();
        let r = setup.begin(request, offset);
        assert(planned_for(r, request, self.config(), setup@.transactions.len(), offset as nat));
        r
    }
}

} // verus!
