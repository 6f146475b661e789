//! One run of a clone job as a state machine. The task that carries out a
//! run feeds it what happened (`CloneRunEvent`) and performs what it asks
//! (`CloneRunAction`): a status to write, then one operation. Phase 1 lists
//! the source page by page, saving each page's items before its checkpoint;
//! phase 2 takes batches of pending items until none is left; the signal is
//! read before every page and every batch.

use vstd::prelude::*;
use crate::clone_engine::{check_signal, final_status, final_status_of, signal_spec, status_rank, CloneSignal, SignalStep};
use crate::status::{is_terminal, JobStatus};

verus! {

/// Where a run stands.
#[derive(Clone, Copy, Debug, PartialEq, Eq)]
pub enum RunStage {
    /// Not begun.
    Start,
    /// Enumerating: waiting for the signal before the next page.
    EnumSignal,
    /// A page is being listed and its items saved.
    EnumPage,
    /// The checkpoint of a saved page is being written.
    EnumCheckpoint,
    /// The end of enumeration is being written.
    EnumFinish,
    /// Executing: waiting for the signal before the next batch.
    ExecSignal,
    /// A batch of pending items is being fetched.
    ExecFetch,
    /// A batch is being copied and its outcomes recorded.
    ExecBatch,
    /// The job's counters are being written.
    ExecProgress,
    /// The run is over.
    Done,
}

/// The state of a run: its stage, the job's status as last written,
/// whether it waits for the signal to change, and whether phase 2 has
/// begun.
#[derive(Clone, Copy, Debug)]
pub struct CloneRunState {
    pub stage: RunStage,
    pub status: JobStatus,
    pub waiting: bool,
    pub started: bool,
}

/// What happened since the last action.
#[derive(Clone, Copy, Debug)]
pub enum CloneRunEvent {
    /// The run begins on a job whose enumeration is or is not complete.
    Begin { enumeration_complete: bool },
    /// The current value of the signal.
    Signal(CloneSignal),
    /// A page was listed and its items saved; `has_more` when the listing
    /// continues.
    PageSaved { has_more: bool },
    CheckpointSaved,
    EnumerationSaved,
    /// A batch of `len` pending items was fetched; `pending` items of the
    /// job are pending in all.
    BatchFetched { len: usize, pending: i64 },
    BatchSettled,
    ProgressSaved,
}

/// The operation the run asks for next.
#[derive(Clone, Copy, Debug, PartialEq, Eq)]
pub enum CloneRunOp {
    /// Read the signal and report it.
    ReadSignal,
    /// Wait for the signal to change, then report it.
    WaitSignal,
    /// List the next page, save its items, report `PageSaved`.
    ListPage,
    /// Save the page's continuation token and totals.
    SaveCheckpoint,
    /// Mark enumeration complete.
    FinishEnumeration,
    /// Fetch the next batch of pending items.
    FetchBatch,
    /// Copy the batch and record each item's outcome.
    ProcessBatch,
    /// Write the job's counters from the item counts.
    SaveProgress,
    /// End the job with this status.
    Complete(JobStatus),
    /// End the run.
    Stop,
}

/// A status to write first (if any), then an operation.
#[derive(Clone, Copy, Debug)]
pub struct CloneRunAction {
    pub write_status: Option<JobStatus>,
    pub op: CloneRunOp,
}

/// The status enumeration begins with: `enumerating` for a job not yet
/// past it, `running` for one already running or paused (a run never moves
/// a job backwards).
pub open spec fn enumeration_status_of(s: JobStatus) -> JobStatus {
    if status_rank(s) <= 1 {
        JobStatus::Enumerating
    } else {
        JobStatus::Running
    }
}

pub open spec fn is_enum_stage(g: RunStage) -> bool {
    g == RunStage::EnumSignal || g == RunStage::EnumPage || g == RunStage::EnumCheckpoint || g == RunStage::EnumFinish
}

pub open spec fn is_work_stage(g: RunStage) -> bool {
    g == RunStage::ExecFetch || g == RunStage::ExecBatch || g == RunStage::ExecProgress
}

impl CloneRunState {
    /// A run about to begin on a job at `status`.
    pub fn start(status: JobStatus) -> (r: CloneRunState)
        ensures
            r.wf(),
            r.stage == RunStage::Start,
            r.status == status,
    {
        CloneRunState { stage: RunStage::Start, status, waiting: false, started: false }
    }

    pub open spec fn wf(&self) -> bool {
        &&& self.waiting ==> self.status == JobStatus::Paused && (self.stage == RunStage::EnumSignal || self.stage
            == RunStage::ExecSignal)
        &&& self.stage == RunStage::Start ==> !self.started
        &&& is_enum_stage(self.stage) ==> !self.started
        &&& self.stage != RunStage::Start && self.stage != RunStage::Done ==> !is_terminal(self.status)
        &&& is_enum_stage(self.stage) ==> (self.status == JobStatus::Enumerating || self.status == JobStatus::Running
            || self.status == JobStatus::Paused)
        &&& (is_enum_stage(self.stage) && self.status == JobStatus::Paused) ==> self.waiting
        &&& (self.stage == RunStage::ExecSignal && self.started) ==> (self.status == JobStatus::Running || self.waiting)
        &&& is_work_stage(self.stage) ==> self.status == JobStatus::Running && self.started
    }
}

pub open spec fn act(w: Option<JobStatus>, op: CloneRunOp) -> CloneRunAction {
    CloneRunAction { write_status: w, op }
}

pub open spec fn stopped(run: CloneRunState) -> (CloneRunState, CloneRunAction) {
    (CloneRunState { stage: RunStage::Done, waiting: false, ..run }, act(None, CloneRunOp::Stop))
}

/// The reaction to a signal at a signal stage: go to `next` asking for
/// `op`, wait, or stop cancelled. Phase 2 writes `running` on its first
/// step.
pub open spec fn after_signal(run: CloneRunState, signal: CloneSignal, next: RunStage, op: CloneRunOp) -> (
    CloneRunState,
    CloneRunAction,
) {
    let (w, step) = signal_spec(run.waiting, signal);
    match step {
        SignalStep::Proceed => {
            let first = run.stage == RunStage::ExecSignal && !run.started;
            let w2 = if first && w is None {
                Some(JobStatus::Running)
            } else {
                w
            };
            let st = match w2 {
                Some(t) => t,
                None => run.status,
            };
            (
                CloneRunState { stage: next, status: st, waiting: false, started: run.started || run.stage == RunStage::ExecSignal },
                act(w2, op),
            )
        },
        SignalStep::Wait => (
            CloneRunState { status: JobStatus::Paused, waiting: true, ..run },
            act(w, CloneRunOp::WaitSignal),
        ),
        SignalStep::Stop => (
            CloneRunState { stage: RunStage::Done, status: JobStatus::Cancelled, waiting: false, ..run },
            act(w, CloneRunOp::Stop),
        ),
    }
}

/// The transition table of a run. An event that does not fit the stage
/// ends the run without writing anything.
pub open spec fn run_step(run: CloneRunState, event: CloneRunEvent) -> (CloneRunState, CloneRunAction) {
    match event {
        CloneRunEvent::Begin { enumeration_complete } => if run.stage != RunStage::Start || is_terminal(run.status) {
            stopped(run)
        } else if !enumeration_complete {
            let st = enumeration_status_of(run.status);
            (CloneRunState { stage: RunStage::EnumSignal, status: st, ..run }, act(Some(st), CloneRunOp::ReadSignal))
        } else {
            (CloneRunState { stage: RunStage::ExecSignal, ..run }, act(None, CloneRunOp::ReadSignal))
        },
        CloneRunEvent::Signal(sig) => if run.stage == RunStage::EnumSignal {
            after_signal(run, sig, RunStage::EnumPage, CloneRunOp::ListPage)
        } else if run.stage == RunStage::ExecSignal {
            after_signal(run, sig, RunStage::ExecFetch, CloneRunOp::FetchBatch)
        } else {
            stopped(run)
        },
        CloneRunEvent::PageSaved { has_more } => if run.stage != RunStage::EnumPage {
            stopped(run)
        } else if has_more {
            (CloneRunState { stage: RunStage::EnumCheckpoint, ..run }, act(None, CloneRunOp::SaveCheckpoint))
        } else {
            (CloneRunState { stage: RunStage::EnumFinish, ..run }, act(None, CloneRunOp::FinishEnumeration))
        },
        CloneRunEvent::CheckpointSaved => if run.stage == RunStage::EnumCheckpoint {
            (CloneRunState { stage: RunStage::EnumSignal, ..run }, act(None, CloneRunOp::ReadSignal))
        } else {
            stopped(run)
        },
        CloneRunEvent::EnumerationSaved => if run.stage == RunStage::EnumFinish {
            (CloneRunState { stage: RunStage::ExecSignal, ..run }, act(None, CloneRunOp::ReadSignal))
        } else {
            stopped(run)
        },
        CloneRunEvent::BatchFetched { len, pending } => if run.stage != RunStage::ExecFetch {
            stopped(run)
        } else if len == 0 {
            let f = final_status_of(pending as int);
            (CloneRunState { stage: RunStage::Done, status: f, ..run }, act(None, CloneRunOp::Complete(f)))
        } else {
            (CloneRunState { stage: RunStage::ExecBatch, ..run }, act(None, CloneRunOp::ProcessBatch))
        },
        CloneRunEvent::BatchSettled => if run.stage == RunStage::ExecBatch {
            (CloneRunState { stage: RunStage::ExecProgress, ..run }, act(None, CloneRunOp::SaveProgress))
        } else {
            stopped(run)
        },
        CloneRunEvent::ProgressSaved => if run.stage == RunStage::ExecProgress {
            (CloneRunState { stage: RunStage::ExecSignal, ..run }, act(None, CloneRunOp::ReadSignal))
        } else {
            stopped(run)
        },
    }
}

/// What every step guarantees.
pub open spec fn step_guarantees(run: CloneRunState, event: CloneRunEvent, next: CloneRunState, a: CloneRunAction) -> bool {
    &&& next.wf()
    &&& status_rank(run.status) <= status_rank(next.status)
    &&& run.status == JobStatus::Paused ==> (next.status == JobStatus::Paused || next.status == JobStatus::Running
        || next.status == JobStatus::Cancelled)
    &&& is_terminal(run.status) ==> a.op == CloneRunOp::Stop && next.status == run.status
    &&& match a.write_status {
        Some(t) => next.status == t,
        None => next.status == run.status || a.op == CloneRunOp::Complete(next.status),
    }
    &&& (run.stage == RunStage::ExecFetch && event is BatchFetched && event->len == 0) ==> a.op == CloneRunOp::Complete(
        final_status_of(event->pending as int),
    )
    &&& a.op == CloneRunOp::SaveCheckpoint ==> (run.stage == RunStage::EnumPage && event is PageSaved && event->has_more)
    &&& a.op == CloneRunOp::ListPage ==> run.stage == RunStage::EnumSignal && next.stage == RunStage::EnumPage
    &&& (a.op == CloneRunOp::ProcessBatch || a.op == CloneRunOp::FetchBatch) ==> next.status == JobStatus::Running
}

pub proof fn lemma_step_guarantees(run: CloneRunState, event: CloneRunEvent)
    requires
        run.wf(),
    ensures
        step_guarantees(run, event, run_step(run, event).0, run_step(run, event).1),
{
}

/// Takes one step of a run.
pub fn clone_run_step(run: &CloneRunState, event: CloneRunEvent) -> (r: (CloneRunState, CloneRunAction))
    requires
        run.wf(),
    ensures
        r == run_step(*run, event),
        step_guarantees(*run, event, r.0, r.1),
{
    proof {
        lemma_step_guarantees(*run, event);
    }
    let stop = (
        CloneRunState { stage: RunStage::Done, status: run.status, waiting: false, started: run.started },
        CloneRunAction { write_status: None, op: CloneRunOp::Stop },
    );
    match event {
        CloneRunEvent::Begin { enumeration_complete } => {
            let terminal = match run.status {
                JobStatus::Completed | JobStatus::Failed | JobStatus::Cancelled => true,
                _ => false,
            };
            if !matches!(run.stage, RunStage::Start) || terminal {
                stop
            } else if !enumeration_complete {
                let st = match run.status {
                    JobStatus::Pending | JobStatus::Enumerating => JobStatus::Enumerating,
                    _ => JobStatus::Running,
                };
                (
                    CloneRunState { stage: RunStage::EnumSignal, status: st, waiting: run.waiting, started: run.started },
                    CloneRunAction { write_status: Some(st), op: CloneRunOp::ReadSignal },
                )
            } else {
                (
                    CloneRunState { stage: RunStage::ExecSignal, status: run.status, waiting: run.waiting, started: run.started },
                    CloneRunAction { write_status: None, op: CloneRunOp::ReadSignal },
                )
            }
        },
        CloneRunEvent::Signal(sig) => {
            let (next, op) = match run.stage {
                RunStage::EnumSignal => (RunStage::EnumPage, CloneRunOp::ListPage),
                RunStage::ExecSignal => (RunStage::ExecFetch, CloneRunOp::FetchBatch),
                _ => {
                    return stop;
                },
            };
            let out = check_signal(run.waiting, sig);
            match out.step {
                SignalStep::Proceed => {
                    let first = matches!(run.stage, RunStage::ExecSignal) && !run.started;
                    let w2 = if first && out.status.is_none() {
                        Some(JobStatus::Running)
                    } else {
                        out.status
                    };
                    let st = match w2 {
                        Some(t) => t,
                        None => run.status,
                    };
                    (
                        CloneRunState {
                            stage: next,
                            status: st,
                            waiting: false,
                            started: run.started || matches!(run.stage, RunStage::ExecSignal),
                        },
                        CloneRunAction { write_status: w2, op },
                    )
                },
                SignalStep::Wait => (
                    CloneRunState { stage: run.stage, status: JobStatus::Paused, waiting: true, started: run.started },
                    CloneRunAction { write_status: out.status, op: CloneRunOp::WaitSignal },
                ),
                SignalStep::Stop => (
                    CloneRunState { stage: RunStage::Done, status: JobStatus::Cancelled, waiting: false, started: run.started },
                    CloneRunAction { write_status: out.status, op: CloneRunOp::Stop },
                ),
            }
        },
        CloneRunEvent::PageSaved { has_more } => if !matches!(run.stage, RunStage::EnumPage) {
            stop
        } else if has_more {
            (
                CloneRunState { stage: RunStage::EnumCheckpoint, status: run.status, waiting: run.waiting, started: run.started },
                CloneRunAction { write_status: None, op: CloneRunOp::SaveCheckpoint },
            )
        } else {
            (
                CloneRunState { stage: RunStage::EnumFinish, status: run.status, waiting: run.waiting, started: run.started },
                CloneRunAction { write_status: None, op: CloneRunOp::FinishEnumeration },
            )
        },
        CloneRunEvent::CheckpointSaved => if matches!(run.stage, RunStage::EnumCheckpoint) {
            (
                CloneRunState { stage: RunStage::EnumSignal, status: run.status, waiting: run.waiting, started: run.started },
                CloneRunAction { write_status: None, op: CloneRunOp::ReadSignal },
            )
        } else {
            stop
        },
        CloneRunEvent::EnumerationSaved => if matches!(run.stage, RunStage::EnumFinish) {
            (
                CloneRunState { stage: RunStage::ExecSignal, status: run.status, waiting: run.waiting, started: run.started },
                CloneRunAction { write_status: None, op: CloneRunOp::ReadSignal },
            )
        } else {
            stop
        },
        CloneRunEvent::BatchFetched { len, pending } => if !matches!(run.stage, RunStage::ExecFetch) {
            stop
        } else if len == 0 {
            let f = final_status(pending);
            (
                CloneRunState { stage: RunStage::Done, status: f, waiting: run.waiting, started: run.started },
                CloneRunAction { write_status: None, op: CloneRunOp::Complete(f) },
            )
        } else {
            (
                CloneRunState { stage: RunStage::ExecBatch, status: run.status, waiting: run.waiting, started: run.started },
                CloneRunAction { write_status: None, op: CloneRunOp::ProcessBatch },
            )
        },
        CloneRunEvent::BatchSettled => if matches!(run.stage, RunStage::ExecBatch) {
            (
                CloneRunState { stage: RunStage::ExecProgress, status: run.status, waiting: run.waiting, started: run.started },
                CloneRunAction { write_status: None, op: CloneRunOp::SaveProgress },
            )
        } else {
            stop
        },
        CloneRunEvent::ProgressSaved => if matches!(run.stage, RunStage::ExecProgress) {
            (
                CloneRunState { stage: RunStage::ExecSignal, status: run.status, waiting: run.waiting, started: run.started },
                CloneRunAction { write_status: None, op: CloneRunOp::ReadSignal },
            )
        } else {
            stop
        },
    }
}

/// The states a run passes through on a sequence of events.
pub open spec fn run_trace(start: CloneRunState, events: Seq<CloneRunEvent>) -> Seq<CloneRunState>
    decreases events.len(),
{
    if events.len() == 0 {
        seq![start]
    } else {
        let prev = run_trace(start, events.drop_last());
        prev.push(run_step(prev.last(), events.last()).0)
    }
}

proof fn lemma_trace_steps(start: CloneRunState, events: Seq<CloneRunEvent>)
    requires
        start.wf(),
    ensures
        run_trace(start, events).len() == events.len() + 1,
        run_trace(start, events)[0] == start,
        forall|i: int| 0 <= i <= events.len() ==> (#[trigger] run_trace(start, events)[i]).wf(),
        forall|i: int| 0 <= i < events.len() ==> #[trigger] run_trace(start, events)[i + 1] == run_step(
            run_trace(start, events)[i],
            events[i],
        ).0,
    decreases events.len(),
{
    if events.len() > 0 {
        let d = events.drop_last();
        lemma_trace_steps(start, d);
        let t = run_trace(start, events);
        let td = run_trace(start, d);
        lemma_step_guarantees(td.last(), events.last());
        assert forall|i: int| 0 <= i <= events.len() implies (#[trigger] t[i]).wf() by {
            if i < events.len() {
                assert(t[i] == td[i]);
            }
        }
        assert forall|i: int| 0 <= i < events.len() implies #[trigger] t[i + 1] == run_step(t[i], events[i]).0 by {
            if i < events.len() - 1 {
                assert(t[i + 1] == td[i + 1] && t[i] == td[i] && events[i] == d[i]);
            }
        }
    }
}

/// Status order of a run: whatever events a run meets, from any valid
/// state (a new run starts at `CloneRunState::start`), each status it writes
/// is at least as far along as the one before (pending, enumerating,
/// running or paused, terminal), `paused` is only left for `running` or
/// `cancelled`, and after a terminal status the status does not change.
pub proof fn lemma_run_status_order(start: CloneRunState, events: Seq<CloneRunEvent>)
    requires
        start.wf(),
    ensures
        forall|i: int| 0 <= i < events.len() ==> status_rank((#[trigger] run_trace(start, events)[i]).status)
            <= status_rank(run_trace(start, events)[i + 1].status),
        forall|i: int| 0 <= i < events.len() && (#[trigger] run_trace(start, events)[i]).status == JobStatus::Paused ==> (
        run_trace(start, events)[i + 1].status == JobStatus::Paused || run_trace(start, events)[i + 1].status
            == JobStatus::Running || run_trace(start, events)[i + 1].status == JobStatus::Cancelled),
        forall|i: int| 0 <= i < events.len() && is_terminal((#[trigger] run_trace(start, events)[i]).status) ==> run_trace(
            start,
            events,
        )[i + 1].status == run_trace(start, events)[i].status,
{
    lemma_trace_steps(start, events);
    let t = run_trace(start, events);
    assert forall|i: int| 0 <= i < events.len() implies {
        &&& status_rank((#[trigger] t[i]).status) <= status_rank(t[i + 1].status)
        &&& t[i].status == JobStatus::Paused ==> (t[i + 1].status == JobStatus::Paused || t[i + 1].status
            == JobStatus::Running || t[i + 1].status == JobStatus::Cancelled)
        &&& is_terminal(t[i].status) ==> t[i + 1].status == t[i].status
    } by {
        lemma_step_guarantees(t[i], events[i]);
    }
}

/// Resuming a job whose enumeration is complete and which has no pending
/// item, with the signal at `Run`: the run reads the signal, writes
/// `running`, fetches one (empty) batch and completes the job. It lists
/// nothing, copies nothing and saves no checkpoint or counters, so the items
/// and totals stay as they were.
pub proof fn lemma_idempotent_run(status: JobStatus)
    requires
        !is_terminal(status),
    ensures
        ({
            let s0 = CloneRunState { stage: RunStage::Start, status, waiting: false, started: false };
            let (s1, a1) = run_step(s0, CloneRunEvent::Begin { enumeration_complete: true });
            let (s2, a2) = run_step(s1, CloneRunEvent::Signal(CloneSignal::Run));
            let (s3, a3) = run_step(s2, CloneRunEvent::BatchFetched { len: 0, pending: 0 });
            &&& a1 == act(None, CloneRunOp::ReadSignal)
            &&& a2 == act(Some(JobStatus::Running), CloneRunOp::FetchBatch)
            &&& a3 == act(None, CloneRunOp::Complete(JobStatus::Completed))
            &&& s3.stage == RunStage::Done
            &&& s3.status == JobStatus::Completed
        }),
{
}

} // verus!
