use hft_lead_lag::forward_job::{ForwardJobAction, ForwardJobEvent, ForwardJobStage, ForwardJobState};
use hft_lead_lag::runner::{ForwardPhaseOptions, RunnerJobState, ScoutReferenceRow, TrialAck};

fn opts(max_refs: u64) -> ForwardPhaseOptions {
    ForwardPhaseOptions { max_budget_s: 2, grace_period_s: 1, report_interval_s: 0, max_refs, max_configs: 10 }
}

fn row(config_id: i64, trades: u64, avg_pnl_key: i64) -> ScoutReferenceRow {
    ScoutReferenceRow { config_id, trades, avg_pnl_key, avg_pnl_finite: true }
}

fn job(max_refs: u64) -> ForwardJobState {
    ForwardJobState::new(&opts(max_refs), "fwd-1".to_string(), "fwd-1-7".to_string())
}

fn failure(action: ForwardJobAction) -> String {
    match action {
        ForwardJobAction::Finish { state: RunnerJobState::Failed, exit_code: None, error: Some(e) } => e,
        other => panic!("expected a failure, got {other:?}"),
    }
}

fn ack(run_id: &str, status: &str) -> TrialAck {
    TrialAck { run_id: run_id.to_string(), status: status.to_string(), error: None, config_count: Some(1), drained_trades: Some(0) }
}

#[test]
fn forward_job_fails_when_no_reference_is_selected() {
    let mut j = job(4);
    let action = j.step(ForwardJobEvent::ReferencesLoaded(vec![row(0, 5, 1), row(3, 0, 1)]));
    assert_eq!(failure(action), "forward internal: no valid scout references selected");
    assert_eq!(j.stage, ForwardJobStage::Finished);
}

#[test]
fn forward_job_falls_back_to_all_valid_references_once() {
    let mut j = job(1);
    let action = j.step(ForwardJobEvent::ReferencesLoaded(vec![row(123456789, 50, 99), row(42, 12, 4)]));
    match action {
        ForwardJobAction::LoadConfigs(ids) => assert_eq!(ids, vec![123456789u64]),
        other => panic!("unexpected {other:?}"),
    }
    let action = j.step(ForwardJobEvent::ConfigsFailed("missing in db".to_string()));
    match action {
        ForwardJobAction::LoadConfigs(ids) => assert_eq!(ids, vec![123456789u64, 42]),
        other => panic!("unexpected {other:?}"),
    }
    assert!(j.fallback_tried);
    let action = j.step(ForwardJobEvent::ConfigsFailed("still missing".to_string()));
    assert_eq!(failure(action), "still missing");
}

#[test]
fn forward_job_runs_from_references_to_success() {
    let mut j = job(2);
    assert!(matches!(j.step(ForwardJobEvent::ReferencesLoaded(vec![row(9, 12, 4)])), ForwardJobAction::LoadConfigs(_)));
    assert!(matches!(j.step(ForwardJobEvent::ConfigsLoaded), ForwardJobAction::EnqueueBatch));
    assert!(matches!(j.step(ForwardJobEvent::BatchQueued), ForwardJobAction::Wait));
    assert!(matches!(j.step(ForwardJobEvent::Tick { elapsed_ms: 200, since_report_ms: 0 }), ForwardJobAction::PollAck));
    assert!(matches!(j.step(ForwardJobEvent::AckRead(None)), ForwardJobAction::Wait));
    assert!(matches!(j.step(ForwardJobEvent::AckRead(Some(ack("fwd-1", "ok")))), ForwardJobAction::Wait));
    assert_eq!(j.stage, ForwardJobStage::Running);
    assert!(matches!(j.step(ForwardJobEvent::Tick { elapsed_ms: 500, since_report_ms: 100 }), ForwardJobAction::Wait));
    assert!(matches!(j.step(ForwardJobEvent::Tick { elapsed_ms: 1_500, since_report_ms: 1_000 }), ForwardJobAction::ReportProgress));
    assert!(matches!(j.step(ForwardJobEvent::Tick { elapsed_ms: 2_000, since_report_ms: 500 }), ForwardJobAction::ClearRun));
    match j.step(ForwardJobEvent::RunCleared) {
        ForwardJobAction::Finish { state, exit_code, error } => {
            assert_eq!(state, RunnerJobState::Success);
            assert_eq!(exit_code, Some(0));
            assert!(error.is_none());
        },
        other => panic!("unexpected {other:?}"),
    }
    assert!(matches!(j.step(ForwardJobEvent::StopRequested), ForwardJobAction::Wait));
}

#[test]
fn forward_job_fails_when_the_ack_times_out() {
    let mut j = job(2);
    j.step(ForwardJobEvent::ReferencesLoaded(vec![row(9, 12, 4)]));
    j.step(ForwardJobEvent::ConfigsLoaded);
    j.step(ForwardJobEvent::BatchQueued);
    let action = j.step(ForwardJobEvent::Tick { elapsed_ms: 30_000, since_report_ms: 0 });
    assert_eq!(failure(action), "forward internal: no trial ack for run_id=fwd-1 submission_id=fwd-1-7 within 30s");
}

#[test]
fn forward_job_rejects_a_foreign_or_failed_ack_and_stops_on_request() {
    let mut j = job(2);
    j.step(ForwardJobEvent::ReferencesLoaded(vec![row(9, 12, 4)]));
    j.step(ForwardJobEvent::ConfigsLoaded);
    j.step(ForwardJobEvent::BatchQueued);
    let action = j.step(ForwardJobEvent::AckRead(Some(ack("other", "ok"))));
    assert_eq!(failure(action), "ack run_id mismatch: expected fwd-1, got other");

    let mut j = job(2);
    j.step(ForwardJobEvent::ReferencesLoaded(vec![row(9, 12, 4)]));
    j.step(ForwardJobEvent::ConfigsLoaded);
    j.step(ForwardJobEvent::BatchQueued);
    assert!(matches!(j.step(ForwardJobEvent::StopRequested), ForwardJobAction::StopAndClear));
    assert_eq!(j.stage, ForwardJobStage::Finished);
}
