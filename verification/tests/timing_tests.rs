use hft_lead_lag::clock_offset::ExchangeClockOffset;
use hft_lead_lag::health::{
    evaluate_rm4_window, Rm4WindowState, RuntimeBacklogDepth, RuntimeLatencySnapshot, RM4_EVAL_INTERVAL_MS,
};
use hft_lead_lag::runner::{forward_phase_options, forward_report_interval_s, ForwardPhaseOptions, RunnerStartRequest};

#[test]
fn rm4_window_evaluates_once_per_interval_with_counter_deltas() {
    let mut st = Rm4WindowState::default();
    let mut last_eval = 0i64;
    let (mut l1, mut l2, mut l3) = (0u64, 0u64, 0u64);
    let lat = RuntimeLatencySnapshot::default();
    let backlog = RuntimeBacklogDepth::default();
    // Dropped intents since the last window breach the SLO.
    assert!(evaluate_rm4_window(&mut st, &mut last_eval, 10_000, &lat, &backlog, 3, &mut l1, 0, &mut l2, 0, &mut l3));
    assert_eq!(last_eval, 10_000);
    assert_eq!((l1, l2, l3), (3, 0, 0));
    assert!(st.last_window_breached);
    assert_eq!(st.breach_streak, 1);
    // Too early: nothing changes.
    assert!(!evaluate_rm4_window(
        &mut st, &mut last_eval, 10_000 + RM4_EVAL_INTERVAL_MS - 1, &lat, &backlog, 9, &mut l1, 0, &mut l2, 0, &mut l3
    ));
    assert_eq!(l1, 3);
    assert_eq!(st.breach_streak, 1);
    // No new drops: a clean window resets the streak.
    assert!(evaluate_rm4_window(
        &mut st, &mut last_eval, 10_000 + RM4_EVAL_INTERVAL_MS, &lat, &backlog, 3, &mut l1, 0, &mut l2, 0, &mut l3
    ));
    assert!(!st.last_window_breached);
    assert_eq!(st.breach_streak, 0);
}

#[test]
fn forward_report_interval_is_at_least_one_second() {
    let mut opts: ForwardPhaseOptions = forward_phase_options(&RunnerStartRequest {
        phase: "forward".to_string(),
        duration: None,
        cycles: None,
        max_budget: None,
        grace_period: None,
        report_interval: Some(7),
        max_refs: None,
        max_configs: None,
        run_id: None,
        top_k: None,
        min_trades: None,
    })
    .expect("valid options");
    assert_eq!(forward_report_interval_s(&opts), 7);
    opts.report_interval_s = 0;
    assert_eq!(forward_report_interval_s(&opts), 1);
}

#[test]
fn exchange_clock_offset_corrects_by_median_and_saturates() {
    let mut off = ExchangeClockOffset::new();
    assert_eq!(off.corrected_exchange_ts_ns(1_000), 1_000);
    off.observe(1_500, 1_000);
    assert_eq!(off.corrected_exchange_ts_ns(2_000), 2_500);
    assert_eq!(off.corrected_exchange_ts_ns(i64::MAX), i64::MAX);
}
