use hft_lead_lag::runner::{
    classify_forward_run_request, plan_runner_start, runner_ui_config, start_decision, build_phase_command,
    plan_phase_start, job_end_for_outcome, workdir_candidates, first_with_driver, ProcessOutcome, WorkdirCandidate, ForwardRunRequest, DEFAULT_SCOUT_CYCLES,
    DEFAULT_SCOUT_DURATION_S,
};
use hft_lead_lag::runner::{
    build_forward_display_command, build_trial_runner_command, check_trial_ack, forward_phase_options,
    forward_run_budget_s, select_reference_ids, validate_phase_prerequisites, ForwardPhaseOptions, ReferencesRead,
    RunnerErrorKind, RunnerInner, RunnerJobState, RunnerJobView, RunnerStartRequest, ScoutReferenceRow, TrialAck,
    DEFAULT_FORWARD_GRACE_PERIOD_S, DEFAULT_FORWARD_MAX_BUDGET_S, DEFAULT_FORWARD_MAX_CONFIGS, DEFAULT_FORWARD_MAX_REFS,
    DEFAULT_FORWARD_REPORT_INTERVAL_S, FORWARD_MAX_CONFIGS_HARD_CAP, FORWARD_MAX_REFS_HARD_CAP,
};
use std::collections::VecDeque;
use std::time::Duration;

fn request(phase: &str) -> RunnerStartRequest {
    RunnerStartRequest {
        phase: phase.to_string(),
        duration: None,
        cycles: None,
        max_budget: None,
        grace_period: None,
        report_interval: None,
        max_refs: None,
        max_configs: None,
        run_id: None,
        top_k: None,
        min_trades: None,
    }
}

fn strings(v: &[&str]) -> Vec<String> {
    v.iter().map(|s| s.to_string()).collect()
}

#[test]
fn build_scout_command_with_default_duration() {
    let req = request("scout");
    let cmd = build_trial_runner_command(&req).expect("command");
    assert_eq!(cmd.program, "python3");
    assert_eq!(cmd.args, strings(&["-m", "ray_driver", "scout", "--duration", "900", "--cycles", "1"]));
}

#[test]
fn build_scout_command_with_custom_cycles() {
    let mut req = request("scout");
    req.duration = Some(60);
    req.cycles = Some(303);
    let cmd = build_trial_runner_command(&req).expect("command");
    assert_eq!(cmd.args, strings(&["-m", "ray_driver", "scout", "--duration", "60", "--cycles", "303"]));
}

#[test]
fn build_forward_command_with_defaults() {
    let req = request("forward");
    let cmd = build_trial_runner_command(&req).expect("command");
    assert_eq!(
        cmd.args,
        vec![
            "-m".to_string(),
            "ray_driver".to_string(),
            "forward".to_string(),
            "--max-budget".to_string(),
            DEFAULT_FORWARD_MAX_BUDGET_S.to_string(),
            "--grace-period".to_string(),
            DEFAULT_FORWARD_GRACE_PERIOD_S.to_string(),
            "--report-interval".to_string(),
            DEFAULT_FORWARD_REPORT_INTERVAL_S.to_string(),
            "--max-refs".to_string(),
            DEFAULT_FORWARD_MAX_REFS.to_string(),
            "--max-configs".to_string(),
            DEFAULT_FORWARD_MAX_CONFIGS.to_string(),
        ]
    );
}

#[test]
fn build_forward_command_clamps_hard_caps() {
    let mut req = request("forward");
    req.max_budget = Some(720);
    req.grace_period = Some(120);
    req.report_interval = Some(15);
    req.max_refs = Some(FORWARD_MAX_REFS_HARD_CAP + 50);
    req.max_configs = Some(FORWARD_MAX_CONFIGS_HARD_CAP + 100);
    let cmd = build_trial_runner_command(&req).expect("command");
    assert_eq!(
        cmd.args,
        vec![
            "-m".to_string(),
            "ray_driver".to_string(),
            "forward".to_string(),
            "--max-budget".to_string(),
            "720".to_string(),
            "--grace-period".to_string(),
            "120".to_string(),
            "--report-interval".to_string(),
            "15".to_string(),
            "--max-refs".to_string(),
            FORWARD_MAX_REFS_HARD_CAP.to_string(),
            "--max-configs".to_string(),
            FORWARD_MAX_CONFIGS_HARD_CAP.to_string(),
        ]
    );
}

#[test]
fn non_scout_phase_is_rejected_for_expand() {
    let mut req = request("expand");
    req.duration = Some(300);
    req.cycles = Some(7);
    let err = build_trial_runner_command(&req).expect_err("must reject");
    assert!(err.contains("Unsupported phase: expand"));
}

#[test]
fn non_scout_phase_is_rejected_for_promote() {
    let mut req = request("promote");
    req.run_id = Some("forward-1".to_string());
    let err = build_trial_runner_command(&req).expect_err("must reject");
    assert!(err.contains("Unsupported phase: promote"));
}

#[test]
fn unknown_phase_rejected() {
    let req = request("hack");
    let err = build_trial_runner_command(&req).expect_err("must fail");
    assert!(err.contains("Unsupported phase"));
}

#[test]
fn phase_is_trimmed_and_lowercased() {
    let cmd = build_trial_runner_command(&request("  Scout ")).expect("command");
    assert_eq!(cmd.args[2], "scout");
}

#[test]
fn zero_cycles_and_zero_budget_are_rejected() {
    let mut scout = request("scout");
    scout.cycles = Some(0);
    assert_eq!(build_trial_runner_command(&scout).expect_err("zero cycles"), "cycles must be >= 1");
    let mut forward = request("forward");
    forward.max_budget = Some(0);
    assert_eq!(build_trial_runner_command(&forward).expect_err("zero budget"), "max_budget must be >= 1");
    let mut forward = request("forward");
    forward.report_interval = Some(0);
    let err = forward_phase_options(&forward).expect_err("zero report interval");
    assert_eq!(err.kind, RunnerErrorKind::BadRequest);
    assert_eq!(err.message, "report_interval must be >= 1");
}

#[test]
fn forward_phase_options_apply_defaults_and_caps() {
    let mut req = request("forward");
    req.max_refs = Some(FORWARD_MAX_REFS_HARD_CAP + 1000);
    req.max_configs = Some(FORWARD_MAX_CONFIGS_HARD_CAP + 1000);
    let opts = forward_phase_options(&req).expect("options");
    assert_eq!(opts.max_budget_s, DEFAULT_FORWARD_MAX_BUDGET_S);
    assert_eq!(opts.grace_period_s, DEFAULT_FORWARD_GRACE_PERIOD_S);
    assert_eq!(opts.report_interval_s, DEFAULT_FORWARD_REPORT_INTERVAL_S);
    assert_eq!(opts.max_refs, FORWARD_MAX_REFS_HARD_CAP);
    assert_eq!(opts.max_configs, FORWARD_MAX_CONFIGS_HARD_CAP);
}

#[test]
fn forward_phase_options_raise_zero_caps_to_one() {
    let mut req = request("forward");
    req.max_refs = Some(0);
    req.max_configs = Some(0);
    let opts = forward_phase_options(&req).expect("options");
    assert_eq!(opts.max_refs, 1);
    assert_eq!(opts.max_configs, 1);
}

#[test]
fn forward_display_command_is_internal_not_python() {
    let opts = ForwardPhaseOptions { max_budget_s: 120, grace_period_s: 30, report_interval_s: 5, max_refs: 16, max_configs: 200 };
    let cmd = build_forward_display_command(&opts);
    assert!(cmd.starts_with("internal-forward"));
    assert!(!cmd.contains("python3 -m ray_driver"));
}

#[test]
fn forward_display_command_lists_all_options() {
    let opts = ForwardPhaseOptions { max_budget_s: 120, grace_period_s: 30, report_interval_s: 5, max_refs: 16, max_configs: 200 };
    assert_eq!(
        build_forward_display_command(&opts),
        "internal-forward --max-budget 120 --grace-period 30 --report-interval 5 --max-refs 16 --max-configs 200"
    );
}

#[test]
fn forward_run_budget_must_not_exceed_max_budget() {
    let opts = ForwardPhaseOptions { max_budget_s: 120, grace_period_s: 600, report_interval_s: 5, max_refs: 16, max_configs: 200 };
    let run_budget = Duration::from_secs(forward_run_budget_s(&opts));
    assert_eq!(run_budget.as_secs(), 120);
}

fn row(config_id: i64, trades: u64, avg_pnl_pct: f64) -> ScoutReferenceRow {
    let bits = avg_pnl_pct.to_bits() as i64;
    let key = if bits < 0 { -(bits & i64::MAX) } else { bits };
    ScoutReferenceRow { config_id, trades, avg_pnl_key: key, avg_pnl_finite: avg_pnl_pct.is_finite() }
}

#[test]
fn select_reference_ids_orders_by_avg_then_trades_and_filters_invalid() {
    let rows = vec![row(1, 10, 0.1), row(2, 50, 0.1), row(3, 3, 0.4), row(0, 10, 0.9), row(4, 0, 0.9)];
    let ids = select_reference_ids(&rows, 3);
    assert_eq!(ids, vec![3, 2, 1]);
}

#[test]
fn select_reference_ids_keeps_signed_ids_and_drops_non_finite() {
    let rows = vec![row(-8141442055384427616, 12, 0.8), row(5, 20, 0.5), row(6, 20, f64::NAN)];
    let ids = select_reference_ids(&rows, 10);
    assert_eq!(ids, vec![(-8141442055384427616_i64) as u64, 5_u64]);
}

fn job(job_id: u64, phase: &str, command: &str, started: i64, finished: i64, state: RunnerJobState, code: i32, error: Option<&str>) -> RunnerJobView {
    RunnerJobView {
        job_id,
        phase: phase.to_string(),
        command: command.to_string(),
        started_at_ms: started,
        finished_at_ms: Some(finished),
        state,
        exit_code: Some(code),
        error: error.map(|e| e.to_string()),
    }
}

#[test]
fn runner_status_includes_recent_jobs() {
    let mut history = VecDeque::new();
    history.push_back(job(1, "scout", "python3 -m ray_driver scout", 100, 200, RunnerJobState::Success, 0, None));
    history.push_back(job(2, "expand", "python3 -m ray_driver expand", 300, 350, RunnerJobState::Failed, 1, Some("bad")));
    let inner = RunnerInner { next_job_id: 3, active_job: None, history, logs: VecDeque::new() };
    let status = inner.status(50);
    assert!(!status.running);
    assert_eq!(status.recent_jobs.len(), 2);
    assert_eq!(status.recent_jobs[0].job_id, 2);
    assert_eq!(status.recent_jobs[1].job_id, 1);
}

#[test]
fn runner_rejects_second_start_and_finishes_into_history() {
    let mut inner = RunnerInner::new();
    let id = inner.begin_job("scout".to_string(), "python3 -m ray_driver scout".to_string(), 1_000).expect("start");
    assert_eq!(id, 1);
    assert!(inner.is_running());
    assert_eq!(inner.logs[0].line, "starting: python3 -m ray_driver scout");
    let err = inner.begin_job("forward".to_string(), "internal-forward".to_string(), 1_001).expect_err("conflict");
    assert_eq!(err.kind, RunnerErrorKind::Conflict);
    assert!(err.message.contains("already active"));
    inner.append_log(id, 1_100, "stdout".to_string(), "line".to_string(), 500);
    inner.append_log(99, 1_100, "stdout".to_string(), "ignored".to_string(), 500);
    assert_eq!(inner.logs.len(), 2);
    inner.finish_job(id, RunnerJobState::Failed, Some(2), Some("boom".to_string()), 2_000, 20, 500);
    assert!(!inner.is_running());
    assert_eq!(inner.history.len(), 1);
    assert_eq!(inner.history[0].finished_at_ms, Some(2_000));
    assert_eq!(inner.logs.back().expect("summary").line, "failed: exit_code=2 error=boom");
    let status = inner.status(1);
    assert_eq!(status.logs.len(), 1);
    let next = inner.begin_job("scout".to_string(), "again".to_string(), 3_000).expect("restart");
    assert_eq!(next, 2);
}

#[test]
fn finished_job_summaries_follow_state() {
    let mut inner = RunnerInner::new();
    let id = inner.begin_job("scout".to_string(), "cmd".to_string(), 1).expect("start");
    inner.finish_job(id, RunnerJobState::Success, Some(0), None, 2, 20, 500);
    assert_eq!(inner.logs.back().expect("summary").line, "completed: exit_code=0");
    let id = inner.begin_job("scout".to_string(), "cmd".to_string(), 3).expect("start");
    inner.finish_job(id, RunnerJobState::Stopped, None, None, 4, 20, 500);
    assert_eq!(inner.logs.back().expect("summary").line, "job finished");
}

#[test]
fn forward_prerequisites_need_usable_references() {
    assert!(validate_phase_prerequisites("scout", "data/scout-references.json", &ReferencesRead::Missing).is_ok());
    let missing = validate_phase_prerequisites("forward", "data/scout-references.json", &ReferencesRead::Missing).expect_err("missing");
    assert!(missing.message.contains("run scout first"));
    let empty = validate_phase_prerequisites("forward", "refs.json", &ReferencesRead::Rows(vec![])).expect_err("empty");
    assert!(empty.message.contains("valid reference rows"));
    assert!(validate_phase_prerequisites("forward", "refs.json", &ReferencesRead::Rows(vec![row(1, 10, 0.1)])).is_ok());
}

#[test]
fn forward_prerequisites_refuse_unreadable_and_unparsable_files_as_bad_requests() {
    let unreadable = validate_phase_prerequisites("forward", "refs.json", &ReferencesRead::Unreadable("denied".to_string()))
        .expect_err("unreadable");
    assert_eq!(unreadable.kind, RunnerErrorKind::BadRequest);
    assert_eq!(unreadable.message, "forward requires readable refs.json (error: denied)");
    let unparsable = validate_phase_prerequisites("forward", "refs.json", &ReferencesRead::Unparsable("eof".to_string()))
        .expect_err("unparsable");
    assert_eq!(unparsable.kind, RunnerErrorKind::BadRequest);
    assert_eq!(unparsable.message, "forward requires valid JSON list in refs.json (error: eof)");
}

#[test]
fn trial_ack_must_match_run_and_be_ok() {
    let ack = TrialAck { run_id: "run-1".to_string(), status: "ok".to_string(), error: None, config_count: Some(3), drained_trades: None };
    assert!(check_trial_ack(&ack, "run-1").is_ok());
    let err = check_trial_ack(&ack, "run-2").expect_err("mismatch");
    assert_eq!(err.kind, RunnerErrorKind::Internal);
    assert_eq!(err.message, "ack run_id mismatch: expected run-2, got run-1");
    let rejected = TrialAck { status: "error".to_string(), ..ack };
    let err = check_trial_ack(&rejected, "run-1").expect_err("rejected");
    assert_eq!(err.kind, RunnerErrorKind::BadRequest);
    assert_eq!(err.message, "forward batch rejected: unknown error");
}

#[test]
fn ui_config_matches_command_defaults() {
    let cfg = runner_ui_config();

    assert_eq!(cfg.phases.len(), 2);
    let scout = cfg.phases.first().expect("scout phase");
    let forward = cfg.phases.get(1).expect("forward phase");

    assert_eq!(scout.duration, Some(DEFAULT_SCOUT_DURATION_S));
    assert_eq!(scout.cycles, Some(DEFAULT_SCOUT_CYCLES));
    assert_eq!(scout.name, "scout");
    assert_eq!(forward.name, "forward");
    assert_eq!(forward.max_budget, Some(DEFAULT_FORWARD_MAX_BUDGET_S));
    assert_eq!(forward.grace_period, Some(DEFAULT_FORWARD_GRACE_PERIOD_S));
    assert_eq!(forward.report_interval, Some(DEFAULT_FORWARD_REPORT_INTERVAL_S));
    assert_eq!(forward.max_refs, Some(DEFAULT_FORWARD_MAX_REFS));
    assert_eq!(forward.max_configs, Some(DEFAULT_FORWARD_MAX_CONFIGS));
}

#[test]
fn forward_run_request_classification() {
    assert_eq!(classify_forward_run_request(None), ForwardRunRequest::Latest);
    assert_eq!(classify_forward_run_request(Some("   ")), ForwardRunRequest::Latest);
    assert_eq!(
        classify_forward_run_request(Some(" forward-20240101 ")),
        ForwardRunRequest::Named("forward-20240101".to_string())
    );
    assert_eq!(classify_forward_run_request(Some("scout-1")), ForwardRunRequest::Invalid);
    assert_eq!(classify_forward_run_request(Some("forward")), ForwardRunRequest::Invalid);
}

#[test]
fn runner_start_plan_for_each_phase() {
    let scout = plan_runner_start(&request(" Scout ")).expect("scout plan");
    assert_eq!(scout.phase, "scout");
    assert!(scout.forward.is_none());
    assert_eq!(scout.display, "python3 -m ray_driver scout --duration 900 --cycles 1");

    let forward = plan_runner_start(&request("forward")).expect("forward plan");
    assert_eq!(forward.phase, "forward");
    let opts = forward.forward.expect("forward options");
    assert_eq!(opts.max_budget_s, DEFAULT_FORWARD_MAX_BUDGET_S);
    assert!(forward.display.starts_with("internal-forward --max-budget "));

    let err = plan_runner_start(&request("replay")).expect_err("unknown phase");
    assert_eq!(err.kind, RunnerErrorKind::BadRequest);
    assert_eq!(err.message, "Unsupported phase: replay");

    let mut bad = request("scout");
    bad.cycles = Some(0);
    let err = plan_runner_start(&bad).expect_err("zero cycles");
    assert_eq!(err.message, "cycles must be >= 1");
}

#[test]
fn start_decision_checks_request_driver_conflict_then_prerequisites() {
    let refs_path = "/w/data/scout-references.json";
    let idle = RunnerInner::new();
    let err = start_decision(&request("replay"), "/w", false, &idle, refs_path, &ReferencesRead::Missing)
        .expect_err("bad request first");
    assert_eq!(err.kind, RunnerErrorKind::BadRequest);
    assert_eq!(err.message, "Unsupported phase: replay");

    let err = start_decision(&request("forward"), "/w", false, &idle, refs_path, &ReferencesRead::Missing)
        .expect_err("driver missing");
    assert_eq!(err.kind, RunnerErrorKind::Internal);
    assert_eq!(err.message, "ray_driver directory not found in /w");

    let mut busy = RunnerInner::new();
    busy.begin_job("scout".to_string(), "python3 -m ray_driver scout".to_string(), 1).expect("start");
    let err = start_decision(&request("forward"), "/w", true, &busy, refs_path, &ReferencesRead::Missing)
        .expect_err("conflict before prerequisites");
    assert_eq!(err.kind, RunnerErrorKind::Conflict);
    assert_eq!(err.message, "runner job already active");

    let err = start_decision(&request("forward"), "/w", true, &idle, refs_path, &ReferencesRead::Missing)
        .expect_err("prerequisites");
    assert_eq!(err.kind, RunnerErrorKind::BadRequest);
    assert!(err.message.contains("run scout first"));

    let plan = start_decision(&request("scout"), "/w", true, &idle, refs_path, &ReferencesRead::Missing).expect("scout");
    assert_eq!(plan.phase, "scout");
    let plan = start_decision(&request("forward"), "/w", true, &idle, refs_path, &ReferencesRead::Rows(vec![row(5, 10, 0.2)]))
        .expect("forward");
    assert!(plan.forward.is_some());
}

#[test]
fn finished_job_summaries_render_negative_and_large_exit_codes() {
    let mut inner = RunnerInner::new();
    let id = inner.begin_job("scout".to_string(), "cmd".to_string(), 1).expect("start");
    inner.finish_job(id, RunnerJobState::Stopped, Some(-9), None, 2, 20, 500);
    assert_eq!(inner.logs.back().expect("summary").line, "stopped: exit_code=-9");
    let id = inner.begin_job("scout".to_string(), "cmd".to_string(), 3).expect("start");
    inner.finish_job(id, RunnerJobState::Success, Some(i32::MIN), None, 4, 20, 500);
    assert_eq!(inner.logs.back().expect("summary").line, "completed: exit_code=-2147483648");
    let id = inner.begin_job("scout".to_string(), "cmd".to_string(), 5).expect("start");
    inner.finish_job(id, RunnerJobState::Success, Some(1234567), None, 6, 20, 500);
    assert_eq!(inner.logs.back().expect("summary").line, "completed: exit_code=1234567");
}

#[test]
fn normalized_phase_routes_to_its_command() {
    let cmd = build_phase_command("forward", &request("ignored")).expect("forward");
    assert_eq!(cmd.args[2], "forward");
    let err = build_phase_command("Forward", &request("forward")).expect_err("not normalized");
    assert_eq!(err, "Unsupported phase: Forward");
    let plan = plan_phase_start("scout".to_string(), &request("ignored")).expect("scout");
    assert_eq!(plan.phase, "scout");
    assert_eq!(plan.display, "python3 -m ray_driver scout --duration 900 --cycles 1");
}

#[test]
fn process_outcomes_end_jobs_like_the_runner() {
    let (state, code, err) = job_end_for_outcome(ProcessOutcome::SpawnFailed("no such file".to_string()));
    assert_eq!((state, code, err.as_deref()), (RunnerJobState::Failed, None, Some("spawn failed: no such file")));
    let (state, code, err) = job_end_for_outcome(ProcessOutcome::Exited {
        stopped: true,
        success: false,
        exit_code: None,
        status: "signal: 9".to_string(),
    });
    assert_eq!((state, code, err), (RunnerJobState::Stopped, None, None));
    let (state, code, err) = job_end_for_outcome(ProcessOutcome::Exited {
        stopped: false,
        success: true,
        exit_code: Some(0),
        status: "exit status: 0".to_string(),
    });
    assert_eq!((state, code, err), (RunnerJobState::Success, Some(0), None));
    let (state, code, err) = job_end_for_outcome(ProcessOutcome::Exited {
        stopped: false,
        success: false,
        exit_code: Some(2),
        status: "exit status: 2".to_string(),
    });
    assert_eq!((state, code, err.as_deref()), (RunnerJobState::Failed, Some(2), Some("process exited with status exit status: 2")));
    let (state, code, err) = job_end_for_outcome(ProcessOutcome::WaitFailed("interrupted".to_string()));
    assert_eq!((state, code, err.as_deref()), (RunnerJobState::Failed, None, Some("wait failed: interrupted")));
}

#[test]
fn workdir_candidates_follow_root_cwd_then_executable_ancestors() {
    let cands = workdir_candidates(Some("/root".to_string()), Some("/cwd".to_string()), &strings(&["/bin/x", "/bin"]));
    let view: Vec<(&str, bool)> = cands.iter().map(|c: &WorkdirCandidate| (c.base.as_str(), c.in_project_subdir)).collect();
    assert_eq!(view, vec![
        ("/root", false), ("/cwd", false), ("/cwd", true),
        ("/bin/x", false), ("/bin/x", true), ("/bin", false), ("/bin", true),
    ]);
    let none = workdir_candidates(Some(String::new()), None, &Vec::new());
    assert!(none.is_empty());
    assert_eq!(first_with_driver(&[false, true, true]), Some(1));
    assert_eq!(first_with_driver(&[false, false]), None);
}
