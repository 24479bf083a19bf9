//! The course of a run as a machine of phases. The machine does no work of
//! its own: it says what is to be done next and is told what happened, and
//! whoever drives it does the work in between.
//!
//! A run sweeps its ciphers one after the other, then merges what the
//! sweeps found, ranks it and reports it. A sweep that fails is noted and
//! the run goes on with the next cipher. A run that is called off before its
//! sweeps are through passes over the ciphers that are left and goes on to
//! merge, rank and report what it has.

use vstd::prelude::*;
use crate::ciphers::{CipherError, CipherKind};
use crate::utils::sweep::{sweep_of, sweep_strategy, Sweep};

verus! {

/// Where a run stands.
#[derive(Clone, Copy, Debug, PartialEq, Eq, Structural)]
pub enum Phase {
    Idle,
    Sweeping,
    Aggregating,
    Ranking,
    Reporting,
    Done,
}

/// What is to be done next.
#[derive(Clone, Copy, Debug, PartialEq, Eq, Structural)]
pub enum Action {
    /// Begin the run.
    Begin,
    /// Try every value of the small range of keys of the cipher.
    SweepBounded(CipherKind),
    /// Try every key of the dictionary on the cipher.
    SweepDictionary(CipherKind),
    /// Pass over the cipher, which is not searched.
    PassOver(CipherKind),
    /// Put together what the sweeps found.
    Merge,
    /// Rank the candidates.
    Rank,
    /// Report the ranking.
    Report,
    /// Nothing is left to do.
    Stop,
}

/// What happened.
#[derive(Clone, Copy, Debug, PartialEq, Eq, Structural)]
pub enum Event {
    Started,
    /// The sweep of the cipher in turn is done, or the cipher was passed
    /// over.
    Swept,
    /// The sweep of the cipher in turn could not be done, for want of its
    /// dictionary or of the common words.
    SweepFailed,
    /// The caller has called the run off.
    Cancelled,
    Merged,
    Ranked,
    Reported,
}

/// A run over some ciphers.
#[derive(Debug)]
pub struct Run {
    kinds: Vec<CipherKind>,
    next: usize,
    phase: Phase,
    failed: Vec<CipherKind>,
    cancelled: bool,
}

/// A run as plain values.
pub struct RunView {
    /// The ciphers to sweep, in order.
    pub kinds: Seq<CipherKind>,
    /// How many of them are dealt with.
    pub next: int,
    pub phase: Phase,
    /// The ciphers whose sweep failed, in order.
    pub failed: Seq<CipherKind>,
    /// Whether the run was called off before its sweeps were through.
    pub cancelled: bool,
}

/// The place of a phase in the course of a run.
pub open spec fn phase_rank(phase: Phase) -> int {
    match phase {
        Phase::Idle => 0,
        Phase::Sweeping => 1,
        Phase::Aggregating => 2,
        Phase::Ranking => 3,
        Phase::Reporting => 4,
        Phase::Done => 5,
    }
}

/// Whether a run is in order: in the sweeping phase a cipher is in turn,
/// before it none is dealt with, and behind it all are.
pub open spec fn run_in_order(r: RunView) -> bool {
    &&& 0 <= r.next <= r.kinds.len()
    &&& r.phase == Phase::Idle ==> r.next == 0 && r.failed.len() == 0 && !r.cancelled
    &&& r.phase == Phase::Sweeping ==> r.next < r.kinds.len()
    &&& phase_rank(r.phase) >= 2 ==> r.next == r.kinds.len()
    &&& r.failed.len() <= r.next
}

/// The run after the sweep of the cipher in turn has ended.
pub open spec fn after_sweep(r: RunView, failed: Seq<CipherKind>) -> RunView {
    RunView {
        kinds: r.kinds,
        next: r.next + 1,
        phase: if r.next + 1 < r.kinds.len() {
            Phase::Sweeping
        } else {
            Phase::Aggregating
        },
        failed: failed,
        cancelled: r.cancelled,
    }
}

/// The run after it was called off during its sweeps: every cipher that
/// was left is passed over.
pub open spec fn after_cancel(r: RunView) -> RunView {
    RunView { next: r.kinds.len() as int, phase: Phase::Aggregating, cancelled: true, ..r }
}

/// The run after `event`. An event that does not fit the phase changes
/// nothing.
pub open spec fn step_spec(r: RunView, event: Event) -> RunView {
    match (r.phase, event) {
        (Phase::Idle, Event::Started) => RunView {
            phase: if r.kinds.len() == 0 {
                Phase::Aggregating
            } else {
                Phase::Sweeping
            },
            ..r
        },
        (Phase::Sweeping, Event::Swept) => after_sweep(r, r.failed),
        (Phase::Sweeping, Event::SweepFailed) => after_sweep(r, r.failed.push(r.kinds[r.next])),
        (Phase::Idle, Event::Cancelled) => after_cancel(r),
        (Phase::Sweeping, Event::Cancelled) => after_cancel(r),
        (Phase::Aggregating, Event::Merged) => RunView { phase: Phase::Ranking, ..r },
        (Phase::Ranking, Event::Ranked) => RunView { phase: Phase::Reporting, ..r },
        (Phase::Reporting, Event::Reported) => RunView { phase: Phase::Done, ..r },
        _ => r,
    }
}

/// What is to be done next in the run `r`.
pub open spec fn action_spec(r: RunView) -> Action {
    match r.phase {
        Phase::Idle => Action::Begin,
        Phase::Sweeping => match sweep_of(r.kinds[r.next]) {
            Sweep::Bounded => Action::SweepBounded(r.kinds[r.next]),
            Sweep::Dictionary => Action::SweepDictionary(r.kinds[r.next]),
            Sweep::Unswept => Action::PassOver(r.kinds[r.next]),
        },
        Phase::Aggregating => Action::Merge,
        Phase::Ranking => Action::Rank,
        Phase::Reporting => Action::Report,
        Phase::Done => Action::Stop,
    }
}

impl View for Run {
    type V = RunView;

    closed spec fn view(&self) -> RunView {
        RunView {
            kinds: self.kinds@,
            next: self.next as int,
            phase: self.phase,
            failed: self.failed@,
            cancelled: self.cancelled,
        }
    }
}

impl Run {
    /// Whether the run is in order. Every run that `new` made is, and
    /// `step` keeps it so.
    pub open spec fn wf(&self) -> bool {
        run_in_order(self@)
    }

    /// A run over `kinds` on `message`, not yet begun. An empty message is
    /// refused.
    pub fn new(message: &str, kinds: Vec<CipherKind>) -> (r: Result<Run, CipherError>)
        ensures
            message@.len() == 0 ==> r == Err::<Run, CipherError>(CipherError::EmptyMessage),
            message@.len() > 0 ==> r is Ok && r->Ok_0.wf() && r->Ok_0@ == (RunView {
                kinds: kinds@,
                next: 0,
                phase: Phase::Idle,
                failed: Seq::empty(),
                cancelled: false,
            }),
    {
        if message.is_empty() {
            return Err(CipherError::EmptyMessage);
        }
        Ok(Run { kinds: kinds, next: 0, phase: Phase::Idle, failed: Vec::new(), cancelled: false })
    }

    /// Where the run stands.
    pub fn phase(&self) -> (p: Phase)
        ensures
            p == self@.phase,
    {
        self.phase
    }

    /// How many parts the run has for its progress: one for each cipher.
    pub fn parts(&self) -> (n: usize)
        ensures
            n == self@.kinds.len(),
    {
        self.kinds.len()
    }

    /// The ciphers whose sweep has failed so far.
    pub fn failures(&self) -> (f: &Vec<CipherKind>)
        ensures
            f@ == self@.failed,
    {
        &self.failed
    }

    /// Whether the run was called off before its sweeps were through.
    pub fn was_cancelled(&self) -> (c: bool)
        ensures
            c == self@.cancelled,
    {
        self.cancelled
    }

    /// What is to be done next.
    pub fn action(&self) -> (a: Action)
        requires
            self.wf(),
        ensures
            a == action_spec(self@),
    {
        match self.phase {
            Phase::Idle => Action::Begin,
            Phase::Sweeping => {
                let kind = self.kinds[self.next];
                match sweep_strategy(kind) {
                    Sweep::Bounded => Action::SweepBounded(kind),
                    Sweep::Dictionary => Action::SweepDictionary(kind),
                    Sweep::Unswept => Action::PassOver(kind),
                }
            },
            Phase::Aggregating => Action::Merge,
            Phase::Ranking => Action::Rank,
            Phase::Reporting => Action::Report,
            Phase::Done => Action::Stop,
        }
    }

    /// Takes note of what happened and moves the run on.
    pub fn step(&mut self, event: Event)
        requires
            old(self).wf(),
        ensures
            final(self).wf(),
            final(self)@ == step_spec(old(self)@, event),
            phase_rank(final(self)@.phase) >= phase_rank(old(self)@.phase),
    {
        let count = self.kinds.len();
        match (self.phase, event) {
            (Phase::Idle, Event::Started) => {
                if self.kinds.len() == 0 {
                    self.phase = Phase::Aggregating;
                } else {
                    self.phase = Phase::Sweeping;
                }
            },
            (Phase::Sweeping, Event::Swept) => {
                self.next = self.next + 1;
                if self.next >= count {
                    self.phase = Phase::Aggregating;
                }
            },
            (Phase::Sweeping, Event::SweepFailed) => {
                let kind = self.kinds[self.next];
                self.failed.push(kind);
                self.next = self.next + 1;
                if self.next >= count {
                    self.phase = Phase::Aggregating;
                }
            },
            (Phase::Idle, Event::Cancelled) | (Phase::Sweeping, Event::Cancelled) => {
                self.next = count;
                self.phase = Phase::Aggregating;
                self.cancelled = true;
            },
            (Phase::Aggregating, Event::Merged) => {
                self.phase = Phase::Ranking;
            },
            (Phase::Ranking, Event::Ranked) => {
                self.phase = Phase::Reporting;
            },
            (Phase::Reporting, Event::Reported) => {
                self.phase = Phase::Done;
            },
            _ => {},
        }
    }
}

/// How many things a run still asks for before it is done.
pub open spec fn steps_left(r: RunView) -> int {
    match r.phase {
        Phase::Idle => r.kinds.len() as int + 4,
        Phase::Sweeping => r.kinds.len() as int - r.next + 3,
        Phase::Aggregating => 3,
        Phase::Ranking => 2,
        Phase::Reporting => 1,
        Phase::Done => 0,
    }
}

/// Whether `event` tells of the thing that the run `r` asked for.
pub open spec fn answers(r: RunView, event: Event) -> bool {
    match r.phase {
        Phase::Idle => event == Event::Started,
        Phase::Sweeping => event == Event::Swept || event == Event::SweepFailed,
        Phase::Aggregating => event == Event::Merged,
        Phase::Ranking => event == Event::Ranked,
        Phase::Reporting => event == Event::Reported,
        Phase::Done => false,
    }
}

/// Each thing that a run asked for and is told of brings it one step
/// nearer to its end, so that a run over `n` ciphers is done after `n + 4`
/// such steps. Calling it off brings it nearer at once.
pub proof fn lemma_run_ends(r: RunView, event: Event)
    requires
        run_in_order(r),
    ensures
        steps_left(r) >= 0,
        steps_left(r) == 0 <==> r.phase == Phase::Done,
        answers(r, event) ==> steps_left(step_spec(r, event)) == steps_left(r) - 1,
        event == Event::Cancelled ==> steps_left(step_spec(r, event)) <= steps_left(r),
        steps_left(step_spec(r, event)) <= steps_left(r),
{
}

/// No event takes a run back to an earlier phase, and none takes a failure
/// off the list.
pub proof fn lemma_run_goes_forward(r: RunView, event: Event)
    requires
        run_in_order(r),
    ensures
        run_in_order(step_spec(r, event)),
        phase_rank(step_spec(r, event).phase) >= phase_rank(r.phase),
        step_spec(r, event).next >= r.next,
        step_spec(r, event).failed.len() >= r.failed.len(),
        step_spec(r, event).failed.take(r.failed.len() as int) == r.failed,
        step_spec(r, event).kinds == r.kinds,
        r.cancelled ==> step_spec(r, event).cancelled,
{
    assert(step_spec(r, event).failed.take(r.failed.len() as int) =~= r.failed);
}

/// A failed sweep stops neither the run nor the sweeps behind it: the run
/// goes on exactly as after a sweep that was done, with the failure noted.
pub proof fn lemma_failure_is_local(r: RunView)
    requires
        run_in_order(r),
        r.phase == Phase::Sweeping,
    ensures
        step_spec(r, Event::SweepFailed).phase == step_spec(r, Event::Swept).phase,
        step_spec(r, Event::SweepFailed).next == step_spec(r, Event::Swept).next,
        step_spec(r, Event::SweepFailed).failed == r.failed.push(r.kinds[r.next]),
{
}

} // verus!
