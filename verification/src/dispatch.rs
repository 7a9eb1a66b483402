//! The dispatch scheduler: one worker for each work unit, each a state
//! machine that says what to do next. The caller sleeps, sends and reports
//! back; the worker decides.

use crate::address::Address;
use crate::units::{UnitView, WorkUnit};
use vstd::arithmetic::div_mod::{lemma_mod_add_multiples_vanish, lemma_small_mod};
use vstd::prelude::*;

verus! {

/// How the workers are paced.
#[derive(Clone, Copy, Debug)]
pub struct DispatchConfig {
    /// The rest between two passes, in milliseconds.
    pub interval_ms: u64,
    /// The start of a worker is put off by this many milliseconds for each
    /// grid row above its own.
    pub stagger_ms: u32,
    /// The number of passes after which a worker is done; `None` to go on
    /// until the process is stopped.
    pub repeat: Option<u64>,
    /// The extra pause after a probe that failed, in milliseconds; `None` to
    /// go on at once.
    pub failure_pause_ms: Option<u64>,
}

/// What the transport says of one probe.
#[derive(Debug)]
pub enum ProbeOutcome {
    Sent,
    TimedOut,
    /// The transport could not send; the text says why.
    TransportError(String),
}

impl ProbeOutcome {
    /// Anything but `Sent`.
    pub open spec fn failed(self) -> bool {
        !(self is Sent)
    }
}

/// What happened since the worker last said what to do.
#[derive(Debug)]
pub enum Event {
    /// The sleep that was asked for is over.
    Woke,
    /// The probe that was asked for has been tried.
    Probed(ProbeOutcome),
}

/// What the caller is to do next.
#[derive(Clone, Copy, Debug, PartialEq, Eq, Structural)]
pub enum Action {
    /// Sleep for this many milliseconds, then report `Woke`.
    Sleep(u64),
    /// Send one probe to this address, then report `Probed` with what the
    /// transport said.
    Probe(Address),
    /// Nothing more: the worker is done.
    Finish,
}

/// Where a worker stands.
#[derive(Clone, Copy, Debug, PartialEq, Eq, Structural)]
pub enum Phase {
    /// Waiting out the initial stagger delay.
    Idle,
    /// In a pass, waiting for the outcome of a probe.
    Sending,
    /// In a pass, pausing after a probe that failed.
    Cooling,
    /// Between two passes.
    Resting,
    /// The repeat budget is used up.
    Done,
}

/// A probe that failed, with what tells the observer where: the unit's grid
/// row, the place in the pass and the address.
#[derive(Debug)]
pub struct FailureReport {
    pub row: u32,
    pub position: usize,
    pub address: Address,
    pub outcome: ProbeOutcome,
}

/// What a worker answers to an event: the next thing to do, and a report if
/// the event was a failed probe.
#[derive(Debug)]
pub struct Step {
    pub action: Action,
    pub report: Option<FailureReport>,
}

/// The scheduling state of one worker.
pub ghost struct WorkerView {
    pub unit: UnitView,
    pub config: DispatchConfig,
    pub phase: Phase,
    /// In a pass, the place of the next address to take.
    pub cursor: nat,
    /// The number of passes completed, as far as 64 bits count.
    pub passes: nat,
}

impl WorkerView {
    /// The number of addresses that one pass sends.
    pub open spec fn len(self) -> nat {
        self.unit.addresses.len()
    }

    /// The states that a worker can be in.
    pub open spec fn wf(self) -> bool {
        &&& self.unit.wf()
        &&& self.unit.row <= u32::MAX
        &&& self.passes <= u64::MAX
        &&& match self.phase {
            Phase::Idle => self.cursor == 0 && self.passes == 0,
            Phase::Sending => self.cursor < self.len(),
            Phase::Cooling => 1 <= self.cursor <= self.len() && self.config.failure_pause_ms
                is Some,
            Phase::Resting => self.cursor == 0,
            Phase::Done => self.cursor == 0,
        }
        &&& match self.config.repeat {
            Some(n) => if self.phase is Done {
                self.passes == n
            } else {
                self.passes < n
            },
            None => !(self.phase is Done),
        }
    }

    /// A new worker for `unit`: idle, or done at once if no pass is wanted.
    pub open spec fn init(unit: UnitView, config: DispatchConfig) -> WorkerView {
        WorkerView {
            unit,
            config,
            phase: if config.repeat == Some(0u64) {
                Phase::Done
            } else {
                Phase::Idle
            },
            cursor: 0,
            passes: 0,
        }
    }

    /// The initial delay: the stagger step for each grid row above the
    /// unit's own.
    pub open spec fn stagger_delay(self) -> nat {
        self.config.stagger_ms as nat * self.unit.row
    }

    /// What the caller is to do in this state.
    pub open spec fn pending(self) -> Action {
        match self.phase {
            Phase::Idle => Action::Sleep(self.stagger_delay() as u64),
            Phase::Sending => Action::Probe(self.unit.addresses[self.cursor as int]),
            Phase::Cooling => Action::Sleep(self.config.failure_pause_ms->0),
            Phase::Resting => Action::Sleep(self.config.interval_ms),
            Phase::Done => Action::Finish,
        }
    }

    /// The state after a pass has been completed: done if that was the last
    /// pass of the budget, resting otherwise.
    pub open spec fn pass_done(self) -> WorkerView {
        let passes = if self.passes < u64::MAX {
            self.passes + 1
        } else {
            self.passes
        };
        let last = match self.config.repeat {
            Some(n) => passes >= n,
            None => false,
        };
        WorkerView {
            phase: if last {
                Phase::Done
            } else {
                Phase::Resting
            },
            cursor: 0,
            passes,
            ..self
        }
    }

    /// The state in which the address in place `next` is the next to take:
    /// sending it, or the pass is complete.
    pub open spec fn advance(self, next: nat) -> WorkerView {
        if next < self.len() {
            WorkerView { phase: Phase::Sending, cursor: next, ..self }
        } else {
            self.pass_done()
        }
    }

    /// The state after `event`. An event that does not answer the pending
    /// action changes nothing.
    pub open spec fn next(self, event: Event) -> WorkerView {
        match (self.phase, event) {
            (Phase::Idle, Event::Woke) => self.advance(0),
            (Phase::Resting, Event::Woke) => self.advance(0),
            (Phase::Cooling, Event::Woke) => self.advance(self.cursor),
            (Phase::Sending, Event::Probed(outcome)) => if outcome.failed()
                && self.config.failure_pause_ms is Some {
                WorkerView { phase: Phase::Cooling, cursor: self.cursor + 1, ..self }
            } else {
                self.advance(self.cursor + 1)
            },
            _ => self,
        }
    }

    /// The report that `event` calls for: one for each probe that failed.
    pub open spec fn report(self, event: Event) -> Option<FailureReport> {
        match (self.phase, event) {
            (Phase::Sending, Event::Probed(outcome)) => if outcome.failed() {
                Some(
                    FailureReport {
                        row: self.unit.row as u32,
                        position: self.cursor as usize,
                        address: self.unit.addresses[self.cursor as int],
                        outcome,
                    },
                )
            } else {
                None
            },
            _ => None,
        }
    }
}

/// How many sleeps lie at most between a phase and the next probe.
pub open spec fn wakes(phase: Phase) -> nat {
    match phase {
        Phase::Cooling => 2,
        Phase::Idle => 1,
        Phase::Resting => 1,
        Phase::Sending => 0,
        Phase::Done => 0,
    }
}

/// What a run of a worker comes to: the state it ends in and the addresses
/// it has probed, in order.
pub ghost struct Run {
    pub end: WorkerView,
    pub sent: Seq<Address>,
}

/// A worker driven by a caller that does what it is told: it sleeps when
/// asked to, and answers each probe with the next of `outcomes`. The run
/// ends when the worker is done, or when it waits for an outcome and none is
/// left.
pub open spec fn run(w: WorkerView, outcomes: Seq<ProbeOutcome>) -> Run
    decreases outcomes.len(), wakes(w.phase),
{
    if w.len() == 0 {
        Run { end: w, sent: Seq::empty() }
    } else {
        match w.phase {
            Phase::Done => Run { end: w, sent: Seq::empty() },
            Phase::Sending => if outcomes.len() == 0 {
                Run { end: w, sent: Seq::empty() }
            } else {
                let rest = run(w.next(Event::Probed(outcomes[0])), outcomes.drop_first());
                Run { end: rest.end, sent: seq![w.unit.addresses[w.cursor as int]] + rest.sent }
            },
            _ => run(w.next(Event::Woke), outcomes),
        }
    }
}

/// The place in the pass of the next address to probe.
pub open spec fn offset(w: WorkerView) -> nat {
    match w.phase {
        Phase::Sending => w.cursor,
        Phase::Cooling => w.cursor,
        _ => 0,
    }
}

/// The number of probes that a budget of `n` passes still leaves to the
/// worker.
pub open spec fn budget(w: WorkerView, n: nat) -> int {
    if w.phase is Done {
        0
    } else {
        (n - w.passes) * w.len() - offset(w)
    }
}

/// The smaller of two numbers.
pub open spec fn at_most(a: int, b: int) -> int {
    if a <= b {
        a
    } else {
        b
    }
}

/// Every event leads from a state of a worker to a state of that worker,
/// and leaves its unit and its pacing alone.
pub proof fn lemma_next_wf(w: WorkerView, event: Event)
    requires
        w.wf(),
    ensures
        w.next(event).wf(),
        w.next(event).unit == w.unit,
        w.next(event).config == w.config,
        w.next(event).passes >= w.passes,
{
}

/// The state after a sequence of events, taken in order.
pub open spec fn after(w: WorkerView, events: Seq<Event>) -> WorkerView
    decreases events.len(),
{
    if events.len() == 0 {
        w
    } else {
        after(w, events.drop_last()).next(events.last())
    }
}

/// Whatever events arrive, and in whatever order, a worker stays a worker of
/// its unit: it never counts passes down, with a budget of N passes it never
/// completes more than N and is done exactly when it has completed N, and
/// without a budget it is never done.
pub proof fn lemma_after(w: WorkerView, events: Seq<Event>)
    requires
        w.wf(),
    ensures
        ({
            let end = after(w, events);
            &&& end.wf()
            &&& end.unit == w.unit
            &&& end.config == w.config
            &&& end.passes >= w.passes
            &&& match w.config.repeat {
                None => !(end.phase is Done),
                Some(n) => end.passes <= n && (end.phase is Done <==> end.passes == n),
            }
        }),
    decreases events.len(),
{
    if events.len() > 0 {
        lemma_after(w, events.drop_last());
        lemma_next_wf(after(w, events.drop_last()), events.last());
    }
}

/// What a run from any state sends and where it ends: the addresses of the
/// unit in order, round and round from the place where the worker stood,
/// whatever the outcomes were; as many as there were outcomes, but no more
/// than the budget leaves; and the worker is done exactly when the budget
/// is used up.
pub proof fn lemma_run(w: WorkerView, outcomes: Seq<ProbeOutcome>)
    requires
        w.wf(),
    ensures
        ({
            let r = run(w, outcomes);
            &&& r.end.wf()
            &&& r.end.unit == w.unit
            &&& r.end.config == w.config
            &&& r.end.phase is Sending || r.end.phase is Done
            &&& forall|i: int|
                0 <= i < r.sent.len() ==> #[trigger] r.sent[i] == w.unit.addresses[(offset(w)
                    + i) % (w.len() as int)]
            &&& match w.config.repeat {
                None => r.sent.len() == outcomes.len(),
                Some(n) => {
                    &&& budget(w, n as nat) >= 0
                    &&& r.sent.len() == at_most(outcomes.len() as int, budget(w, n as nat))
                    &&& r.end.phase is Done <==> outcomes.len() >= budget(w, n as nat)
                },
            }
        }),
    decreases outcomes.len(), wakes(w.phase),
{
    let len = w.len() as int;
    let r = run(w, outcomes);
    match w.config.repeat {
        Some(n) => {
            lemma_budget(w, n as nat);
        },
        None => {},
    }
    match w.phase {
        Phase::Done => {},
        Phase::Sending => {
            if outcomes.len() > 0 {
                let w2 = w.next(Event::Probed(outcomes[0]));
                let rest = run(w2, outcomes.drop_first());
                lemma_next_wf(w, Event::Probed(outcomes[0]));
                lemma_run(w2, outcomes.drop_first());
                lemma_step_offset(w, Event::Probed(outcomes[0]));
                assert(r.sent == seq![w.unit.addresses[w.cursor as int]] + rest.sent);
                assert forall|i: int| 0 <= i < r.sent.len() implies #[trigger] r.sent[i]
                    == w.unit.addresses[(offset(w) + i) % len] by {
                    if i == 0 {
                        lemma_small_mod(w.cursor, w.len());
                    } else {
                        assert(r.sent[i] == rest.sent[i - 1]);
                        lemma_cycle(offset(w2) as int, offset(w) as int + 1, i - 1, len);
                    }
                }
            }
        },
        _ => {
            let w2 = w.next(Event::Woke);
            let rest = run(w2, outcomes);
            lemma_next_wf(w, Event::Woke);
            lemma_run(w2, outcomes);
            lemma_step_offset(w, Event::Woke);
            assert(r == rest);
            assert forall|i: int| 0 <= i < r.sent.len() implies #[trigger] r.sent[i]
                == w.unit.addresses[(offset(w) + i) % len] by {
                lemma_cycle(offset(w2) as int, offset(w) as int, i, len);
            }
        },
    }
}

/// A budget is never overdrawn, and a worker that is not done has at least
/// one probe left.
proof fn lemma_budget(w: WorkerView, n: nat)
    requires
        w.wf(),
        w.config.repeat == Some(n as u64),
        n <= u64::MAX,
    ensures
        budget(w, n) >= 0,
        w.phase is Sending ==> budget(w, n) >= 1,
{
    if !(w.phase is Done) {
        let left = n - w.passes;
        let len = w.len() as int;
        assert(left * len >= len) by (nonlinear_arith)
            requires
                left >= 1,
                len >= 0,
        ;
    }
}

/// How an event that the worker was waiting for moves the place in the pass
/// and the budget: a probe takes one step and one probe of the budget, a
/// sleep takes none; the place goes round at the end of the pass.
proof fn lemma_step_offset(w: WorkerView, event: Event)
    requires
        w.wf(),
        w.phase is Sending ==> event is Probed,
        !(w.phase is Sending) ==> event is Woke,
        !(w.phase is Done),
    ensures
        ({
            let w2 = w.next(event);
            let taken: int = if w.phase is Sending {
                1
            } else {
                0
            };
            &&& offset(w2) == offset(w) + taken || offset(w2) + w.len() == offset(w) + taken
            &&& w.config.repeat matches Some(n) ==> budget(w2, n as nat) == budget(w, n as nat)
                - taken
        }),
{
    let w2 = w.next(event);
    match w.config.repeat {
        Some(n) => {
            let left = n - w.passes;
            let len = w.len() as int;
            assert((left - 1) * len == left * len - len) by (nonlinear_arith);
            assert(1 * len == len) by (nonlinear_arith);
            assert(0 * len == 0) by (nonlinear_arith);
        },
        None => {},
    }
}

/// Two places that differ by a whole pass, or not at all, name the same
/// address.
proof fn lemma_cycle(a: int, b: int, i: int, len: int)
    requires
        len > 0,
        a >= 0,
        i >= 0,
        a == b || a + len == b,
    ensures
        (a + i) % len == (b + i) % len,
{
    if a + len == b {
        lemma_mod_add_multiples_vanish(a + i, len);
    }
}

/// A worker with a budget of N passes probes exactly N times the addresses
/// of its unit, each pass the same addresses in the same order, and is then
/// done and not before; a worker without a budget is never done. Put as a
/// run from a new worker: what is probed is the unit's addresses round and
/// round, one probe for each outcome, up to N passes if there is a budget.
pub proof fn lemma_passes(unit: UnitView, config: DispatchConfig, outcomes: Seq<ProbeOutcome>)
    requires
        unit.wf(),
        unit.row <= u32::MAX,
    ensures
        ({
            let r = run(WorkerView::init(unit, config), outcomes);
            let len = unit.addresses.len() as int;
            &&& forall|i: int|
                0 <= i < r.sent.len() ==> #[trigger] r.sent[i] == unit.addresses[i % len]
            &&& match config.repeat {
                None => r.sent.len() == outcomes.len() && !(r.end.phase is Done),
                Some(n) => {
                    &&& r.sent.len() == at_most(outcomes.len() as int, n * len)
                    &&& r.end.phase is Done <==> outcomes.len() >= n * len
                    &&& r.end.phase is Done ==> r.end.passes == n
                },
            }
        }),
{
    let w = WorkerView::init(unit, config);
    lemma_run(w, outcomes);
    match config.repeat {
        Some(n) => {
            let len = unit.addresses.len() as int;
            assert(0 * len == 0) by (nonlinear_arith);
        },
        None => {},
    }
}

/// Failures do not change what is sent: two runs of a worker that get as
/// many outcomes probe the same addresses in the same order, whichever of
/// the probes failed.
pub proof fn lemma_failures_change_nothing(
    unit: UnitView,
    config: DispatchConfig,
    first: Seq<ProbeOutcome>,
    second: Seq<ProbeOutcome>,
)
    requires
        unit.wf(),
        unit.row <= u32::MAX,
        first.len() == second.len(),
    ensures
        run(WorkerView::init(unit, config), first).sent == run(
            WorkerView::init(unit, config),
            second,
        ).sent,
        run(WorkerView::init(unit, config), first).end.phase == run(
            WorkerView::init(unit, config),
            second,
        ).end.phase,
{
    lemma_passes(unit, config, first);
    lemma_passes(unit, config, second);
    lemma_run(WorkerView::init(unit, config), first);
    lemma_run(WorkerView::init(unit, config), second);
    let a = run(WorkerView::init(unit, config), first);
    let b = run(WorkerView::init(unit, config), second);
    assert(a.sent =~= b.sent);
}

/// One worker: a work unit, its pacing, and where it stands.
#[derive(Debug)]
pub struct Worker {
    unit: WorkUnit,
    config: DispatchConfig,
    phase: Phase,
    cursor: usize,
    passes: u64,
}

impl View for Worker {
    type V = WorkerView;

    closed spec fn view(&self) -> WorkerView {
        WorkerView {
            unit: self.unit@,
            config: self.config,
            phase: self.phase,
            cursor: self.cursor as nat,
            passes: self.passes as nat,
        }
    }
}

impl Worker {
    #[verifier::type_invariant]
    spec fn inv(self) -> bool {
        self@.wf()
    }

    /// A worker that owns `unit`: idle until its stagger delay is over, or
    /// done at once if the budget is zero passes.
    pub fn new(unit: WorkUnit, config: DispatchConfig) -> (worker: Worker)
        ensures
            worker@ == WorkerView::init(unit@, config),
            worker@.wf(),
    {
        // Every unit has an address to send, and its row fits 32 bits.
        let _ = unit.len();
        let _ = unit.row();
        let phase = match config.repeat {
            Some(0) => Phase::Done,
            _ => Phase::Idle,
        };
        Worker { unit, config, phase, cursor: 0, passes: 0 }
    }

    /// Where the worker stands.
    pub fn phase(&self) -> (phase: Phase)
        ensures
            phase == self@.phase,
            self@.wf(),
    {
        proof {
            use_type_invariant(self);
        }
        self.phase
    }

    /// Whether the worker has used up its budget.
    pub fn is_done(&self) -> (done: bool)
        ensures
            done == (self@.phase is Done),
    {
        match self.phase {
            Phase::Done => true,
            _ => false,
        }
    }

    /// The number of passes completed.
    pub fn passes(&self) -> (passes: u64)
        ensures
            passes == self@.passes,
    {
        self.passes
    }

    /// The unit that the worker sends.
    pub fn unit(&self) -> (unit: &WorkUnit)
        ensures
            unit@ == self@.unit,
    {
        &self.unit
    }

    /// What the caller is to do now.
    pub fn pending(&self) -> (action: Action)
        ensures
            action == self@.pending(),
    {
        proof {
            use_type_invariant(self);
        }
        match self.phase {
            Phase::Idle => {
                let row: u32 = self.unit.row();
                let step: u32 = self.config.stagger_ms;
                assert(step * row <= 0xffff_ffff * 0xffff_ffff) by (nonlinear_arith)
                    requires
                        0 <= step <= 0xffff_ffff,
                        0 <= row <= 0xffff_ffff,
                ;
                Action::Sleep((step as u64) * (row as u64))
            },
            Phase::Sending => Action::Probe(self.unit.address(self.cursor)),
            Phase::Cooling => Action::Sleep(self.config.failure_pause_ms.unwrap()),
            Phase::Resting => Action::Sleep(self.config.interval_ms),
            Phase::Done => Action::Finish,
        }
    }

    /// The worker with the address in place `next` as the next to take.
    fn advance(self, next: usize) -> (worker: Worker)
        requires
            next <= self@.len(),
            !(self@.phase is Done),
        ensures
            worker@ == self@.advance(next as nat),
    {
        proof {
            use_type_invariant(&self);
        }
        let Worker { unit, config, phase, cursor, passes } = self;
        if next < unit.len() {
            Worker { unit, config, phase: Phase::Sending, cursor: next, passes }
        } else {
            let passes: u64 = if passes < u64::MAX {
                passes + 1
            } else {
                passes
            };
            let last = match config.repeat {
                Some(n) => passes >= n,
                None => false,
            };
            let phase = if last {
                Phase::Done
            } else {
                Phase::Resting
            };
            Worker { unit, config, phase, cursor: 0, passes }
        }
    }

    /// Takes in what happened and says what to do next. A failed probe is
    /// reported and never ends the pass: the worker goes on with the next
    /// address, after the failure pause if one is set.
    pub fn step(self, event: Event) -> (result: (Worker, Step))
        ensures
            result.0@ == self@.next(event),
            result.0@.wf(),
            result.1.action == self@.next(event).pending(),
            result.1.report == self@.report(event),
    {
        proof {
            use_type_invariant(&self);
        }
        match (self.phase, event) {
            (Phase::Idle, Event::Woke) => {
                let worker = self.advance(0);
                let action = worker.pending();
                (worker, Step { action, report: None })
            },
            (Phase::Resting, Event::Woke) => {
                let worker = self.advance(0);
                let action = worker.pending();
                (worker, Step { action, report: None })
            },
            (Phase::Cooling, Event::Woke) => {
                let next: usize = self.cursor;
                let worker = self.advance(next);
                let action = worker.pending();
                (worker, Step { action, report: None })
            },
            (Phase::Sending, Event::Probed(outcome)) => {
                let failed = match outcome {
                    ProbeOutcome::Sent => false,
                    _ => true,
                };
                let pause = self.config.failure_pause_ms.is_some();
                let len: usize = self.unit.len();
                let next: usize = self.cursor + 1;
                let report = if failed {
                    Some(
                        FailureReport {
                            row: self.unit.row(),
                            position: self.cursor,
                            address: self.unit.address(self.cursor),
                            outcome,
                        },
                    )
                } else {
                    None
                };
                let worker = if failed && pause {
                    let Worker { unit, config, phase, cursor, passes } = self;
                    Worker { unit, config, phase: Phase::Cooling, cursor: next, passes }
                } else {
                    self.advance(next)
                };
                let action = worker.pending();
                (worker, Step { action, report })
            },
            _ => {
                let action = self.pending();
                (self, Step { action, report: None })
            },
        }
    }
}

/// Starts the dispatch: a new worker for each unit, in the units' order.
/// Without units there are no workers.
pub fn start(units: Vec<WorkUnit>, config: DispatchConfig) -> (workers: Vec<Worker>)
    ensures
        workers@.len() == units@.len(),
        forall|k: int|
            0 <= k < units@.len() ==> (#[trigger] workers@[k])@ == WorkerView::init(
                units@[k]@,
                config,
            ),
{
    let mut workers: Vec<Worker> = Vec::new();
    for unit in it: units.into_iter()
        invariant
            it.seq() == units@,
            workers@.len() == it.index(),
            forall|k: int|
                0 <= k < workers@.len() ==> (#[trigger] workers@[k])@ == WorkerView::init(
                    units@[k]@,
                    config,
                ),
    {
        workers.push(Worker::new(unit, config));
    }
    workers
}

/// Whether the run is complete: every worker is done.
pub fn all_done(workers: &Vec<Worker>) -> (done: bool)
    ensures
        done <==> forall|k: int|
            0 <= k < workers@.len() ==> (#[trigger] workers@[k])@.phase is Done,
{
    let mut k: usize = 0;
    while k < workers.len()
        invariant
            k <= workers@.len(),
            forall|j: int| 0 <= j < k ==> (#[trigger] workers@[j])@.phase is Done,
        decreases workers@.len() - k,
    {
        if !workers[k].is_done() {
            return false;
        }
        k = k + 1;
    }
    true
}

} // verus!
