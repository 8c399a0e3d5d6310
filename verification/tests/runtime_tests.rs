use hft_lead_lag::config::ExchangeId as ConfigExchangeId;
use hft_lead_lag::models::ExchangeError;
use hft_lead_lag::runtime::{
    decrement_saturating, is_connectivity_error, latency_snapshot_and_reset, resolve_strategy_exchange_routing,
    EventLoopMetrics, ExchangeSide, ExecutionConfig, ExecutionWorkerState, LatencyStatsSnapshot, StrategyBookRole,
    StrategyExchangeRouting,
};

#[test]
fn latency_snapshot_takes_percentiles_of_sorted_samples() {
    let mut samples: Vec<u64> = (1..=100).rev().collect();
    let snap = latency_snapshot_and_reset(&mut samples);
    assert_eq!(snap, LatencyStatsSnapshot { samples: 100, p50_us: 51, p95_us: 96, p99_us: 100, max_us: 100 });
    assert!(samples.is_empty());
    let mut empty: Vec<u64> = Vec::new();
    assert_eq!(latency_snapshot_and_reset(&mut empty), LatencyStatsSnapshot::default());
}

#[test]
fn latency_snapshot_of_one_sample() {
    let mut samples = vec![7u64];
    let snap = latency_snapshot_and_reset(&mut samples);
    assert_eq!(snap, LatencyStatsSnapshot { samples: 1, p50_us: 7, p95_us: 7, p99_us: 7, max_us: 7 });
}

#[test]
fn metrics_record_only_ordered_stage_pairs() {
    let mut m = EventLoopMetrics::new();
    m.record_ingest_latency_ns(1_000, 5_000);
    m.record_ingest_latency_ns(0, 5_000);
    m.record_ingest_latency_ns(5_000, 5_000);
    m.record_decision_latency_ns(2_000, 1_000);
    m.record_end_to_end_latency_ns(1_000, 3_001_000);
    assert_eq!(m.ingest_latency_us, vec![4]);
    assert!(m.decision_latency_us.is_empty());
    assert_eq!(m.end_to_end_latency_us, vec![3_000]);
    let (ingest, decision, e2e) = m.latency_snapshots_and_reset();
    assert_eq!(ingest.samples, 1);
    assert_eq!(decision.samples, 0);
    assert_eq!(e2e.max_us, 3_000);
    assert!(m.ingest_latency_us.is_empty());
}

#[test]
fn drift_stats_report_sorted_percentiles_and_reset() {
    let mut m = EventLoopMetrics::new();
    assert_eq!(m.drift_stats_string_and_reset(), "no_data");
    m.record_tick_drift(1_700_000_000_100, 1_700_000_000_000_000_000);
    m.record_tick_drift(1_700_000_000_040, 1_700_000_000_000_000_000);
    m.record_tick_drift(1_700_000_000_000, 1_700_000_000_010_000_000);
    m.record_tick_drift(5, 999_999);
    assert_eq!(m.drift_samples.len(), 3);
    assert_eq!(m.drift_stats_string_and_reset(), "n=3 avg=43ms p50=40ms p95=100ms p99=100ms max=100ms");
    assert!(m.drift_samples.is_empty());
}

#[test]
fn drift_average_rounds_toward_zero() {
    let mut m = EventLoopMetrics::new();
    m.drift_samples = vec![-5, -2];
    assert_eq!(m.drift_stats_string_and_reset(), "n=2 avg=-3ms p50=-2ms p95=-2ms p99=-2ms max=-2ms");
}

#[test]
fn status_roll_counts_new_tickers() {
    let mut m = EventLoopMetrics::new();
    assert_eq!(m.snapshot_and_roll_status(10), 10);
    assert_eq!(m.snapshot_and_roll_status(25), 15);
    assert_eq!(m.snapshot_and_roll_status(5), 0);
}

#[test]
fn decrement_stops_at_zero() {
    let mut c = 2u64;
    decrement_saturating(&mut c);
    assert_eq!(c, 1);
    decrement_saturating(&mut c);
    decrement_saturating(&mut c);
    assert_eq!(c, 0);
}

#[test]
fn execution_config_overrides_apply_floors() {
    let c = ExecutionConfig::from_overrides(Some(0), Some(0), Some(0), Some(10), Some(3));
    assert_eq!(c.queue_capacity, 1);
    assert_eq!(c.send_timeout_ms, 1);
    assert_eq!(c.kill_switch_timeout_streak, 1);
    assert_eq!(c.metrics_flush_interval_ms, 100);
    assert_eq!(c.simulated_send_delay_ms, 3);
    assert_eq!(ExecutionConfig::from_overrides(None, None, None, None, None), ExecutionConfig::default());
}

#[test]
fn execution_kill_switch_activates_after_timeout_streak() {
    let mut w = ExecutionWorkerState::new();
    assert!(w.admit_intent());
    w.record_sent(1_000, 41_000);
    assert_eq!(w.intent_to_sent_samples_us, vec![40]);
    for _ in 0..3 {
        assert!(!w.record_timeout(4));
    }
    assert!(!w.kill_switch_active);
    assert!(w.record_timeout(4));
    assert!(w.kill_switch_active);
    assert!(!w.admit_intent());
    assert_eq!(w.dropped_intents, 1);
    assert_eq!(w.send_timeouts, 4);
}

#[test]
fn a_sent_intent_restarts_the_timeout_streak() {
    let mut w = ExecutionWorkerState::new();
    w.record_timeout(2);
    w.record_sent(0, 10);
    assert_eq!(w.consecutive_timeouts, 0);
    assert!(w.intent_to_sent_samples_us.is_empty());
    assert!(!w.record_timeout(2));
    assert!(!w.kill_switch_active);
}

#[test]
fn routing_falls_back_when_primary_equals_hedge() {
    let default = resolve_strategy_exchange_routing(None);
    assert_eq!(default, StrategyExchangeRouting { primary: ExchangeSide::Binance, hedge: ExchangeSide::Gate });
    let same = resolve_strategy_exchange_routing(Some((ConfigExchangeId::Gate, ConfigExchangeId::Gate)));
    assert_eq!(same, default);
    let flipped = resolve_strategy_exchange_routing(Some((ConfigExchangeId::Gate, ConfigExchangeId::Binance)));
    assert_eq!(flipped.primary, ExchangeSide::Gate);
    assert_eq!(flipped.role_for_side(ExchangeSide::Gate), StrategyBookRole::Primary);
    assert_eq!(flipped.role_for_side(ExchangeSide::Binance), StrategyBookRole::Hedge);
    assert_eq!(ExchangeSide::Gate.exchange_name(), "gate");
}

#[test]
fn only_transport_errors_mark_disconnection() {
    assert!(is_connectivity_error(&ExchangeError::Timeout("t".to_string())));
    assert!(is_connectivity_error(&ExchangeError::ConnectionClosed("c".to_string())));
    assert!(is_connectivity_error(&ExchangeError::WebSocketError("w".to_string())));
    assert!(!is_connectivity_error(&ExchangeError::ParseError("p".to_string())));
}
