use hft_lead_lag::health::{
    counter_delta_and_update_last, evaluate_db_saturation_health, health_report, rm4_slo_breached,
    rm4_window_step, should_refresh_fallback_rows_cache, try_claim_rm4_window_eval, AckStatus, AlertLevel,
    HealthInputs, HealthIssue, HealthWarning, Rm4WindowState, RuntimeBacklogDepth, RuntimeLatencySnapshot,
    FALLBACK_ROWS_TTL_MS,
};

const DROPPED_BATCH_BUDGET: u64 = 64;
const OVERFLOW_WARN_THRESHOLD: u64 = 16;

#[test]
fn evaluate_db_saturation_health_marks_drop_budget_exhausted() {
    let policy = evaluate_db_saturation_health(
        DROPPED_BATCH_BUDGET.saturating_add(1),
        0,
        DROPPED_BATCH_BUDGET,
        OVERFLOW_WARN_THRESHOLD,
    );
    assert!(policy.drop_budget_exhausted);
    assert!(!policy.overflow_warn);
}

#[test]
fn evaluate_db_saturation_health_marks_overflow_warning_at_threshold() {
    let policy = evaluate_db_saturation_health(0, OVERFLOW_WARN_THRESHOLD, DROPPED_BATCH_BUDGET, OVERFLOW_WARN_THRESHOLD);
    assert!(!policy.drop_budget_exhausted);
    assert!(policy.overflow_warn);
}

#[test]
fn fallback_cache_refresh_policy_refreshes_when_cache_empty() {
    assert!(should_refresh_fallback_rows_cache(10_000, 9_000, true));
}

#[test]
fn fallback_cache_refresh_policy_refreshes_when_cache_stale() {
    assert!(should_refresh_fallback_rows_cache(20_000, 20_000 - FALLBACK_ROWS_TTL_MS - 1, false));
}

#[test]
fn fallback_cache_refresh_policy_skips_when_cache_is_fresh() {
    assert!(!should_refresh_fallback_rows_cache(20_000, 20_000 - FALLBACK_ROWS_TTL_MS + 1, false));
}

#[test]
fn fallback_cache_refresh_policy_refreshes_when_never_refreshed() {
    assert!(should_refresh_fallback_rows_cache(20_000, 0, false));
    assert!(should_refresh_fallback_rows_cache(20_000, 20_000 - FALLBACK_ROWS_TTL_MS, false));
}

#[test]
fn drop_budget_boundary_is_not_exhausted() {
    let policy = evaluate_db_saturation_health(DROPPED_BATCH_BUDGET, OVERFLOW_WARN_THRESHOLD - 1, DROPPED_BATCH_BUDGET, OVERFLOW_WARN_THRESHOLD);
    assert!(!policy.drop_budget_exhausted);
    assert!(!policy.overflow_warn);
}

fn healthy_inputs() -> HealthInputs {
    HealthInputs {
        now_ms: 1_000_000,
        now_ns: 1_000_000_000_000,
        binance_connected: true,
        gate_connected: true,
        binance_last_tick_ms: 999_000,
        gate_last_tick_ms: 999_500,
        state_updated_ts_ns: 999_999_000_000,
        db_dropped_batch_budget: DROPPED_BATCH_BUDGET,
        db_overflow_warn_threshold: OVERFLOW_WARN_THRESHOLD,
        ..HealthInputs::default()
    }
}

#[test]
fn health_report_is_ok_for_live_feeds() {
    let report = health_report(&healthy_inputs(), None);
    assert!(report.healthy);
    assert_eq!(report.alert_level, AlertLevel::Normal);
    assert!(report.issues.is_empty());
    assert!(report.warnings.is_empty());
    assert!(report.binance && report.gate);
    assert_eq!(report.binance_last_tick_age_ms, 1_000);
    assert_eq!(report.trial_last_ack_status, AckStatus::Unknown);
}

#[test]
fn health_report_marks_stale_feeds_and_engine_stall_order() {
    let mut inputs = healthy_inputs();
    inputs.binance_last_tick_ms = 900_000;
    inputs.gate_last_tick_ms = 0;
    let report = health_report(&inputs, None);
    assert!(!report.healthy);
    assert_eq!(report.alert_level, AlertLevel::Critical);
    assert_eq!(report.issues, vec![HealthIssue::BinanceStale, HealthIssue::GateStale]);
    assert_eq!(report.gate_last_tick_age_ms, i64::MAX);
    assert_eq!(report.issues[0].as_str(), "binance_stale");
    assert_eq!(report.issues[1].as_str(), "gate_stale");
}

#[test]
fn health_report_reports_drop_counters_and_trial_warnings() {
    let mut inputs = healthy_inputs();
    inputs.db_dropped_batches = DROPPED_BATCH_BUDGET + 1;
    inputs.db_overflowed_batches = OVERFLOW_WARN_THRESHOLD;
    inputs.trial_queue_depth = 12;
    inputs.trial_last_ack_ms = 1_000;
    inputs.trial_last_ack_error = true;
    let report = health_report(&inputs, None);
    assert_eq!(report.issues, vec![HealthIssue::DbDropBudgetExhausted]);
    assert_eq!(
        report.warnings,
        vec![
            HealthWarning::DbOverflowBatchesHigh,
            HealthWarning::TrialQueueDepthHigh,
            HealthWarning::TrialLastAckError,
            HealthWarning::TrialAckStale,
        ]
    );
    assert_eq!(report.warnings[0].as_str(), "db_overflow_batches_high");
    assert_eq!(report.warnings[1].as_str(), "trial_queue_depth_high");
    assert_eq!(report.trial_last_ack_status, AckStatus::Error);
    assert_eq!(report.trial_last_ack_age_ms, Some(999_000));
}

#[test]
fn health_report_warns_only_on_window_breach_without_degradation() {
    let mut inputs = healthy_inputs();
    inputs.rm4_last_window_breached = true;
    let report = health_report(&inputs, None);
    assert!(report.healthy);
    assert_eq!(report.alert_level, AlertLevel::Warn);
    assert_eq!(report.warnings, vec![HealthWarning::HftSloWindowBreach]);
    inputs.hft_mode_degraded = true;
    let report = health_report(&inputs, None);
    assert!(!report.healthy);
    assert_eq!(report.issues, vec![HealthIssue::HftSloDegradedNonHft]);
    assert!(report.warnings.is_empty());
}

#[test]
fn health_report_flags_execution_stall_only_when_both_stages_stale() {
    let mut inputs = healthy_inputs();
    inputs.backlog = RuntimeBacklogDepth { execution_intent_queue_depth: 3, ..RuntimeBacklogDepth::default() };
    inputs.order_intent_enqueued_ts_ns = inputs.now_ns - 1_000_000;
    let report = health_report(&inputs, None);
    assert!(report.healthy);
    inputs.order_intent_enqueued_ts_ns = inputs.now_ns - 10_000_000_000;
    let report = health_report(&inputs, None);
    assert_eq!(report.issues, vec![HealthIssue::ExecutionLoopStall]);
}

#[test]
fn rm4_breach_streak_degrades_after_three_windows_and_resets() {
    let mut st = Rm4WindowState::default();
    rm4_window_step(&mut st, true);
    rm4_window_step(&mut st, true);
    assert!(!st.hft_mode_degraded);
    rm4_window_step(&mut st, true);
    assert_eq!(st.breach_streak, 3);
    assert!(st.hft_mode_degraded);
    assert!(st.hft_mode_ever_degraded);
    rm4_window_step(&mut st, false);
    assert_eq!(st.breach_streak, 0);
    assert!(!st.hft_mode_degraded);
    assert!(st.hft_mode_ever_degraded);
}

#[test]
fn rm4_slo_breach_on_latency_or_deltas() {
    let lat = RuntimeLatencySnapshot::default();
    let backlog = RuntimeBacklogDepth::default();
    assert!(!rm4_slo_breached(&lat, &backlog, 0, 0, 0));
    assert!(rm4_slo_breached(&lat, &backlog, 0, 1, 0));
    let mut slow = lat;
    slow.end_to_end.p99_us = 2_001;
    assert!(rm4_slo_breached(&slow, &backlog, 0, 0, 0));
    slow.end_to_end.p99_us = 2_000;
    assert!(!rm4_slo_breached(&slow, &backlog, 0, 0, 0));
}

#[test]
fn rm4_window_claim_respects_interval() {
    let mut last = 0i64;
    assert!(try_claim_rm4_window_eval(&mut last, 10_000));
    assert_eq!(last, 10_000);
    assert!(!try_claim_rm4_window_eval(&mut last, 14_999));
    assert_eq!(last, 10_000);
    assert!(try_claim_rm4_window_eval(&mut last, 15_000));
    assert_eq!(last, 15_000);
}

#[test]
fn counter_delta_saturates_and_remembers() {
    let mut last = 10u64;
    assert_eq!(counter_delta_and_update_last(15, &mut last), 5);
    assert_eq!(last, 15);
    assert_eq!(counter_delta_and_update_last(3, &mut last), 0);
    assert_eq!(last, 3);
}

#[test]
fn health_report_echoes_trial_and_drop_counters() {
    let inputs = HealthInputs {
        trial_queue_depth: 12,
        trial_last_ack_ms: 999_000,
        trial_last_ack_error: true,
        binance_dropped_messages: 3,
        gate_dropped_messages: 4,
        db_dropped_batches: DROPPED_BATCH_BUDGET + 1,
        db_overflowed_batches: OVERFLOW_WARN_THRESHOLD,
        ..healthy_inputs()
    };
    let report = health_report(&inputs, Some("run-health-telemetry".to_string()));
    assert_eq!(report.trial_queue_depth, 12);
    assert_eq!(report.trial_active_run_id.as_deref(), Some("run-health-telemetry"));
    assert_eq!(report.trial_last_ack_status, AckStatus::Error);
    assert_eq!(report.binance_dropped_messages, 3);
    assert_eq!(report.gate_dropped_messages, 4);
    assert_eq!(report.db_dropped_batches, DROPPED_BATCH_BUDGET + 1);
    assert_eq!(report.db_overflowed_batches, OVERFLOW_WARN_THRESHOLD);
    assert_eq!(report.db_dropped_batch_budget, DROPPED_BATCH_BUDGET);
    assert_eq!(report.db_overflow_warn_threshold, OVERFLOW_WARN_THRESHOLD);
    assert!(report.issues.contains(&HealthIssue::DbDropBudgetExhausted));
    assert!(report.warnings.contains(&HealthWarning::DbOverflowBatchesHigh));
    assert!(report.warnings.contains(&HealthWarning::TrialLastAckError));
    assert!(report.warnings.contains(&HealthWarning::TrialQueueDepthHigh));
}

#[test]
fn health_report_echoes_runtime_figures() {
    let mut inputs = healthy_inputs();
    inputs.recv_ws_frame_ts_ns = 11;
    inputs.parsed_ts_ns = 12;
    inputs.latency_us.ingest.p99_us = 700;
    inputs.drift_samples = 4;
    inputs.drift_avg_ms = -3;
    inputs.drift_abs_max_ms = 9;
    inputs.backlog.signal_backlog_depth = 2;
    inputs.rm4_breach_streak = 3;
    inputs.hft_mode_degraded = true;
    inputs.hft_mode_ever_degraded = true;
    inputs.execution_sent_intents = 5;
    inputs.trial_queue_quarantined = 1;
    inputs.control_dropped_updates = 6;
    inputs.db_writer_enqueued_seq = 20;
    inputs.db_writer_observed_seq = 15;
    let report = health_report(&inputs, None);
    assert_eq!(report.stage_timestamps.recv_ws_frame_ts_ns, 11);
    assert_eq!(report.stage_timestamps.parsed_ts_ns, 12);
    assert_eq!(report.stage_timestamps.state_updated_ts_ns, inputs.state_updated_ts_ns);
    assert_eq!(report.latency_us.ingest.p99_us, 700);
    assert_eq!(report.drift_ms.samples, 4);
    assert_eq!(report.drift_ms.avg_ms, -3);
    assert_eq!(report.drift_ms.abs_max_ms, 9);
    assert_eq!(report.backlog.signal_backlog_depth, 2);
    assert_eq!(report.rm4_breach_streak, 3);
    assert!(report.hft_mode_degraded && report.hft_mode_ever_degraded);
    assert_eq!(report.rm4_window_threshold, 3);
    assert_eq!(report.rm4_window_interval_ms, 5_000);
    assert_eq!(report.execution_sent_intents, 5);
    assert_eq!(report.trial_queue_quarantined, 1);
    assert_eq!(report.control_dropped_updates, 6);
    assert_eq!((report.db_writer_enqueued_seq, report.db_writer_observed_seq, report.db_writer_backlog_seq), (20, 15, 5));
}
