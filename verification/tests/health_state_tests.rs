use hft_lead_lag::health::{health_report, HealthIssue};
use hft_lead_lag::health_state::{ExternalHealthCounters, HealthState};
use std::sync::atomic::Ordering;

#[test]
fn snapshot_reads_counters_and_external_values() {
    let state = HealthState::new();
    state.binance_connected.store(true, Ordering::Relaxed);
    state.binance_last_tick_ms.store(9_000, Ordering::Relaxed);
    state.runtime_signal_backlog_depth.store(7, Ordering::Relaxed);
    state.runtime_execution_kill_switch_active.store(true, Ordering::Relaxed);
    let external = ExternalHealthCounters { gate_dropped_messages: 3, db_dropped_batch_budget: 64, ..Default::default() };
    let inputs = state.snapshot(10_000, 10_000_000_000, &external);
    assert_eq!(inputs.now_ms, 10_000);
    assert!(inputs.binance_connected);
    assert!(!inputs.gate_connected);
    assert_eq!(inputs.binance_last_tick_ms, 9_000);
    assert_eq!(inputs.backlog.signal_backlog_depth, 7);
    assert!(inputs.execution_kill_switch_active);
    assert_eq!(inputs.gate_dropped_messages, 3);
    assert_eq!(inputs.db_dropped_batch_budget, 64);
    let report = health_report(&inputs, None);
    assert!(!report.healthy);
    assert!(report.issues.contains(&HealthIssue::GateDisconnected));
}
