//! The decisions of an internal forward job: reading the scout references,
//! choosing the configs (with a fallback to all usable references when the
//! database lacks the top ones), queueing the trial batch, waiting for its
//! acknowledgement, running for the budget and clearing the run. The caller
//! performs each action and hands back what came of it as the next event.

use vstd::prelude::*;
use crate::runner::{ScoutReferenceRow, ForwardPhaseOptions, RunnerJobState, TrialAck, spec_selected_ids,
    select_reference_ids, check_trial_ack, forward_run_budget_s};
use crate::text::concat_str;

verus! {

/// Longest wait for the trial acknowledgement (ms).
pub const FORWARD_ACK_TIMEOUT_MS: u64 = 30_000;

/// Where a forward job stands.
#[derive(Debug, Clone, Copy, PartialEq, Eq, Structural)]
pub enum ForwardJobStage {
    LoadingReferences,
    LoadingConfigs,
    Enqueuing,
    AwaitingAck,
    Running,
    Clearing,
    Finished,
}

/// What came of the last action.
#[derive(Debug)]
pub enum ForwardJobEvent {
    /// The scout references were read.
    ReferencesLoaded(Vec<ScoutReferenceRow>),
    /// The scout references could not be read; the error's message.
    ReferencesFailed(String),
    /// The configs of the requested ids were found in the database.
    ConfigsLoaded,
    /// The configs could not be loaded; the error's message.
    ConfigsFailed(String),
    /// The trial batch was written.
    BatchQueued,
    /// The trial batch could not be written; the error's message.
    BatchFailed(String),
    /// Time passed: milliseconds since the batch was queued (while waiting
    /// for the acknowledgement) or since the run started, and since the last
    /// progress report (while running).
    Tick { elapsed_ms: u64, since_report_ms: u64 },
    /// The acknowledgement file was read: the acknowledgement, or nothing
    /// yet (also when it does not parse yet).
    AckRead(Option<TrialAck>),
    /// The acknowledgement file could not be read; the error's message.
    AckFailed(String),
    /// A stop was requested.
    StopRequested,
    /// The run was cleared from the trial control.
    RunCleared,
    /// Clearing the run failed; the error's message.
    ClearFailed(String),
}

/// What to do next.
#[derive(Debug)]
pub enum ForwardJobAction {
    /// Load the configs of these reference ids from the database.
    LoadConfigs(Vec<u64>),
    /// Write the trial batch of the loaded configs.
    EnqueueBatch,
    /// Sleep, then report the time (a `Tick`).
    Wait,
    /// Read the acknowledgement file.
    PollAck,
    /// Log the run's progress, then wait.
    ReportProgress,
    /// Clear the run from the trial control.
    ClearRun,
    /// Clear the run (logging a failure to do so), then end the job as stopped.
    StopAndClear,
    /// End the job with this state, exit code and error.
    Finish { state: RunnerJobState, exit_code: Option<i32>, error: Option<String> },
}

/// Whether `a` ends the job as failed with the message `m`.
pub open spec fn fails_with(a: ForwardJobAction, m: Seq<char>) -> bool {
    a matches ForwardJobAction::Finish { state, exit_code, error }
        && state == RunnerJobState::Failed && exit_code is None && error is Some && error->0@ == m
}

/// The state of a forward job.
#[derive(Debug)]
pub struct ForwardJobState {
    pub stage: ForwardJobStage,
    pub run_id: String,
    pub submission_id: String,
    pub max_refs: u64,
    pub run_budget_ms: u64,
    pub report_interval_ms: u64,
    pub refs: Vec<ScoutReferenceRow>,
    pub selected: Vec<u64>,
    pub fallback_tried: bool,
}

/// Milliseconds of `s` seconds, saturating.
pub open spec fn secs_to_ms(s: u64) -> u64 {
    if s > u64::MAX / 1000 { u64::MAX } else { (s * 1000) as u64 }
}

fn secs_to_ms_exec(s: u64) -> (r: u64)
    ensures
        r == secs_to_ms(s),
{
    if s > u64::MAX / 1000 { u64::MAX } else { s * 1000 }
}

/// Message of an acknowledgement that did not come in time.
pub open spec fn ack_timeout_message(run_id: Seq<char>, submission_id: Seq<char>) -> Seq<char> {
    "forward internal: no trial ack for run_id="@ + run_id + " submission_id="@ + submission_id + " within 30s"@
}

/// Message of a job whose references select nothing.
pub open spec fn no_refs_message() -> Seq<char> {
    "forward internal: no valid scout references selected"@
}

fn fail(m: String) -> (a: ForwardJobAction)
    ensures
        fails_with(a, m@),
{
    ForwardJobAction::Finish { state: RunnerJobState::Failed, exit_code: None, error: Some(m) }
}

impl ForwardJobState {
    /// A job about to read its references, for a run id and submission id,
    /// with the run budget of the options and a report interval of at least
    /// one second.
    pub fn new(opts: &ForwardPhaseOptions, run_id: String, submission_id: String) -> (s: Self)
        ensures
            s.stage == ForwardJobStage::LoadingReferences,
            s.run_id@ == run_id@,
            s.submission_id@ == submission_id@,
            s.max_refs == opts.max_refs,
            s.run_budget_ms == secs_to_ms(opts.max_budget_s),
            s.report_interval_ms == secs_to_ms(if opts.report_interval_s < 1 { 1 } else { opts.report_interval_s }),
            s.refs@.len() == 0,
            s.selected@.len() == 0,
            !s.fallback_tried,
    {
        let interval = if opts.report_interval_s < 1 { 1 } else { opts.report_interval_s };
        ForwardJobState {
            stage: ForwardJobStage::LoadingReferences,
            run_id,
            submission_id,
            max_refs: opts.max_refs,
            run_budget_ms: secs_to_ms_exec(forward_run_budget_s(opts)),
            report_interval_ms: secs_to_ms_exec(interval),
            refs: Vec::new(),
            selected: Vec::new(),
            fallback_tried: false,
        }
    }

    /// One decision of the job. Events that do not belong to the current
    /// stage change nothing and ask to wait; a finished job stays finished.
    pub fn step(&mut self, event: ForwardJobEvent) -> (action: ForwardJobAction)
        ensures
            final(self).run_id == old(self).run_id,
            final(self).submission_id == old(self).submission_id,
            final(self).max_refs == old(self).max_refs,
            final(self).run_budget_ms == old(self).run_budget_ms,
            final(self).report_interval_ms == old(self).report_interval_ms,
            // Reading the references: fail on a read error or when nothing is selected.
            old(self).stage == ForwardJobStage::LoadingReferences ==> match event {
                ForwardJobEvent::ReferencesFailed(m) =>
                    final(self).stage == ForwardJobStage::Finished && fails_with(action, m@),
                ForwardJobEvent::ReferencesLoaded(rows) => {
                    let ids = spec_selected_ids(rows@, old(self).max_refs);
                    &&& final(self).refs@ == rows@
                    &&& final(self).selected@ == ids
                    &&& final(self).fallback_tried == old(self).fallback_tried
                    &&& ids.len() == 0 ==> final(self).stage == ForwardJobStage::Finished && fails_with(action, no_refs_message())
                    &&& ids.len() > 0 ==> final(self).stage == ForwardJobStage::LoadingConfigs
                        && (action matches ForwardJobAction::LoadConfigs(v) && v@ == ids)
                },
                _ => final(self).stage == old(self).stage && final(self).refs@ == old(self).refs@
                    && final(self).selected@ == old(self).selected@ && final(self).fallback_tried == old(self).fallback_tried
                    && action is Wait,
            },
            // Loading configs: on failure, retry once with all usable references
            // when the selection left some out and the retry selects more.
            old(self).stage == ForwardJobStage::LoadingConfigs ==> final(self).refs@ == old(self).refs@ && match event {
                ForwardJobEvent::ConfigsLoaded => final(self).stage == ForwardJobStage::Enqueuing
                    && final(self).selected@ == old(self).selected@ && final(self).fallback_tried == old(self).fallback_tried
                    && action is EnqueueBatch,
                ForwardJobEvent::ConfigsFailed(m) => {
                    let all = spec_selected_ids(old(self).refs@, old(self).refs@.len() as u64);
                    if !old(self).fallback_tried && old(self).selected@.len() < old(self).refs@.len()
                        && all.len() > old(self).selected@.len() {
                        &&& final(self).stage == ForwardJobStage::LoadingConfigs
                        &&& final(self).fallback_tried
                        &&& final(self).selected@ == all
                        &&& action matches ForwardJobAction::LoadConfigs(v) && v@ == all
                    } else {
                        &&& final(self).stage == ForwardJobStage::Finished
                        &&& final(self).selected@ == old(self).selected@
                        &&& final(self).fallback_tried == old(self).fallback_tried
                        &&& fails_with(action, m@)
                    }
                },
                _ => final(self).stage == old(self).stage && final(self).selected@ == old(self).selected@
                    && final(self).fallback_tried == old(self).fallback_tried && action is Wait,
            },
            old(self).stage != ForwardJobStage::LoadingReferences && old(self).stage != ForwardJobStage::LoadingConfigs ==>
                final(self).refs@ == old(self).refs@ && final(self).selected@ == old(self).selected@
                && final(self).fallback_tried == old(self).fallback_tried,
            // Queueing the batch.
            old(self).stage == ForwardJobStage::Enqueuing ==> match event {
                ForwardJobEvent::BatchQueued => final(self).stage == ForwardJobStage::AwaitingAck && action is Wait,
                ForwardJobEvent::BatchFailed(m) => final(self).stage == ForwardJobStage::Finished && fails_with(action, m@),
                _ => final(self).stage == old(self).stage && action is Wait,
            },
            // Waiting for the acknowledgement: a stop, a timeout, a bad or an
            // unreadable acknowledgement end the job.
            old(self).stage == ForwardJobStage::AwaitingAck ==> match event {
                ForwardJobEvent::StopRequested => final(self).stage == ForwardJobStage::Finished && action is StopAndClear,
                ForwardJobEvent::Tick { elapsed_ms, since_report_ms } => if elapsed_ms >= FORWARD_ACK_TIMEOUT_MS {
                    final(self).stage == ForwardJobStage::Finished
                        && fails_with(action, ack_timeout_message(old(self).run_id@, old(self).submission_id@))
                } else {
                    final(self).stage == ForwardJobStage::AwaitingAck && action is PollAck
                },
                ForwardJobEvent::AckRead(None) => final(self).stage == ForwardJobStage::AwaitingAck && action is Wait,
                ForwardJobEvent::AckRead(Some(ack)) => if ack.run_id@ != old(self).run_id@ {
                    final(self).stage == ForwardJobStage::Finished
                        && fails_with(action, "ack run_id mismatch: expected "@ + old(self).run_id@ + ", got "@ + ack.run_id@)
                } else if ack.status@ != "ok"@ {
                    final(self).stage == ForwardJobStage::Finished
                        && fails_with(action, "forward batch rejected: "@ + (match ack.error { Some(e) => e@, None => "unknown error"@ }))
                } else {
                    final(self).stage == ForwardJobStage::Running && action is Wait
                },
                ForwardJobEvent::AckFailed(m) => final(self).stage == ForwardJobStage::Finished && fails_with(action, m@),
                _ => final(self).stage == old(self).stage && action is Wait,
            },
            // Running: stop on request, clear the run once the budget is spent,
            // report progress at the interval.
            old(self).stage == ForwardJobStage::Running ==> match event {
                ForwardJobEvent::StopRequested => final(self).stage == ForwardJobStage::Finished && action is StopAndClear,
                ForwardJobEvent::Tick { elapsed_ms, since_report_ms } => if elapsed_ms >= old(self).run_budget_ms {
                    final(self).stage == ForwardJobStage::Clearing && action is ClearRun
                } else if since_report_ms >= old(self).report_interval_ms {
                    final(self).stage == ForwardJobStage::Running && action is ReportProgress
                } else {
                    final(self).stage == ForwardJobStage::Running && action is Wait
                },
                _ => final(self).stage == old(self).stage && action is Wait,
            },
            // Clearing the run: success with exit code 0, or a failure.
            old(self).stage == ForwardJobStage::Clearing ==> match event {
                ForwardJobEvent::RunCleared => final(self).stage == ForwardJobStage::Finished
                    && (action matches ForwardJobAction::Finish { state, exit_code, error }
                    && state == RunnerJobState::Success && exit_code == Some(0i32) && error is None),
                ForwardJobEvent::ClearFailed(m) => final(self).stage == ForwardJobStage::Finished && fails_with(action, m@),
                _ => final(self).stage == old(self).stage && action is Wait,
            },
            old(self).stage == ForwardJobStage::Finished ==> final(self).stage == ForwardJobStage::Finished && action is Wait,
    {
        match self.stage {
            ForwardJobStage::LoadingReferences => match event {
                ForwardJobEvent::ReferencesFailed(m) => {
                    self.stage = ForwardJobStage::Finished;
                    fail(m)
                },
                ForwardJobEvent::ReferencesLoaded(rows) => {
                    let ids = select_reference_ids(rows.as_slice(), self.max_refs);
                    let chosen = copy_ids(&ids);
                    self.refs = rows;
                    self.selected = chosen;
                    if ids.len() == 0 {
                        self.stage = ForwardJobStage::Finished;
                        fail(String::from_str("forward internal: no valid scout references selected"))
                    } else {
                        self.stage = ForwardJobStage::LoadingConfigs;
                        ForwardJobAction::LoadConfigs(ids)
                    }
                },
                _ => ForwardJobAction::Wait,
            },
            ForwardJobStage::LoadingConfigs => match event {
                ForwardJobEvent::ConfigsLoaded => {
                    self.stage = ForwardJobStage::Enqueuing;
                    ForwardJobAction::EnqueueBatch
                },
                ForwardJobEvent::ConfigsFailed(m) => {
                    if !self.fallback_tried && self.selected.len() < self.refs.len() {
                        let all = select_reference_ids(self.refs.as_slice(), self.refs.len() as u64);
                        if all.len() > self.selected.len() {
                            self.fallback_tried = true;
                            self.selected = copy_ids(&all);
                            return ForwardJobAction::LoadConfigs(all);
                        }
                    }
                    self.stage = ForwardJobStage::Finished;
                    fail(m)
                },
                _ => ForwardJobAction::Wait,
            },
            ForwardJobStage::Enqueuing => match event {
                ForwardJobEvent::BatchQueued => {
                    self.stage = ForwardJobStage::AwaitingAck;
                    ForwardJobAction::Wait
                },
                ForwardJobEvent::BatchFailed(m) => {
                    self.stage = ForwardJobStage::Finished;
                    fail(m)
                },
                _ => ForwardJobAction::Wait,
            },
            ForwardJobStage::AwaitingAck => match event {
                ForwardJobEvent::StopRequested => {
                    self.stage = ForwardJobStage::Finished;
                    ForwardJobAction::StopAndClear
                },
                ForwardJobEvent::Tick { elapsed_ms, since_report_ms } => {
                    if elapsed_ms >= FORWARD_ACK_TIMEOUT_MS {
                        self.stage = ForwardJobStage::Finished;
                        let m = concat_str("forward internal: no trial ack for run_id=", self.run_id.as_str());
                        let m = concat_str(m.as_str(), " submission_id=");
                        let m = concat_str(m.as_str(), self.submission_id.as_str());
                        let m = concat_str(m.as_str(), " within 30s");
                        fail(m)
                    } else {
                        ForwardJobAction::PollAck
                    }
                },
                ForwardJobEvent::AckRead(None) => ForwardJobAction::Wait,
                ForwardJobEvent::AckRead(Some(ack)) => {
                    match check_trial_ack(&ack, self.run_id.as_str()) {
                        Ok(()) => {
                            self.stage = ForwardJobStage::Running;
                            ForwardJobAction::Wait
                        },
                        Err(e) => {
                            self.stage = ForwardJobStage::Finished;
                            fail(e.message)
                        },
                    }
                },
                ForwardJobEvent::AckFailed(m) => {
                    self.stage = ForwardJobStage::Finished;
                    fail(m)
                },
                _ => ForwardJobAction::Wait,
            },
            ForwardJobStage::Running => match event {
                ForwardJobEvent::StopRequested => {
                    self.stage = ForwardJobStage::Finished;
                    ForwardJobAction::StopAndClear
                },
                ForwardJobEvent::Tick { elapsed_ms, since_report_ms } => {
                    if elapsed_ms >= self.run_budget_ms {
                        self.stage = ForwardJobStage::Clearing;
                        ForwardJobAction::ClearRun
                    } else if since_report_ms >= self.report_interval_ms {
                        ForwardJobAction::ReportProgress
                    } else {
                        ForwardJobAction::Wait
                    }
                },
                _ => ForwardJobAction::Wait,
            },
            ForwardJobStage::Clearing => match event {
                ForwardJobEvent::RunCleared => {
                    self.stage = ForwardJobStage::Finished;
                    ForwardJobAction::Finish { state: RunnerJobState::Success, exit_code: Some(0), error: None }
                },
                ForwardJobEvent::ClearFailed(m) => {
                    self.stage = ForwardJobStage::Finished;
                    fail(m)
                },
                _ => ForwardJobAction::Wait,
            },
            ForwardJobStage::Finished => ForwardJobAction::Wait,
        }
    }
}

/// A copy of the ids.
fn copy_ids(ids: &Vec<u64>) -> (r: Vec<u64>)
    ensures
        r@ == ids@,
{
    let mut out: Vec<u64> = Vec::new();
    let mut i: usize = 0;
    while i < ids.len()
        invariant
            i <= ids@.len(),
            out@ == ids@.subrange(0, i as int),
        decreases ids@.len() - i,
    {
        out.push(ids[i]);
        proof {
            assert(out@ =~= ids@.subrange(0, i + 1));
        }
        i = i + 1;
    }
    proof {
        assert(out@ =~= ids@);
    }
    out
}

} // verus!
