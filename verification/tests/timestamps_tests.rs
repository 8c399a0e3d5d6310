use hft_lead_lag::clock_offset::{ClockOffsetEstimator, ExchangeClockOffsets};
use hft_lead_lag::timestamps::{calculate_ws_drift_ms, normalize_exchange_ts_ms, stage_age_ms_from_ns, TimeDomainSample};

fn as_ms(v: Option<i64>) -> Option<f64> {
    v.map(|d| d as f64)
}

#[test]
fn normalize_exchange_ts_ms_handles_sec_ms_us_ns() {
    assert_eq!(normalize_exchange_ts_ms(1_700_000_000), Some(1_700_000_000_000));
    assert_eq!(normalize_exchange_ts_ms(1_700_000_000_000), Some(1_700_000_000_000));
    assert_eq!(normalize_exchange_ts_ms(1_700_000_000_000_000), Some(1_700_000_000_000));
    assert_eq!(normalize_exchange_ts_ms(1_700_000_000_000_000_000), Some(1_700_000_000_000));
}

#[test]
fn normalize_exchange_ts_ms_rejects_non_positive() {
    assert_eq!(normalize_exchange_ts_ms(0), None);
    assert_eq!(normalize_exchange_ts_ms(-5), None);
}

#[test]
fn time_domain_sample_computes_decision_and_ingress_drifts() {
    let sample = TimeDomainSample::from_raw(1_700_000_000_000, 1_700_000_000_080_000_000, 1_700_000_000_100);
    assert_eq!(sample.exchange_event_ts_ms, 1_700_000_000_000);
    assert_eq!(sample.ingress_ts_ms, 1_700_000_000_080);
    assert_eq!(sample.decision_ts_ms, 1_700_000_000_100);
    assert_eq!(as_ms(sample.decision_ws_drift_ms()), Some(100.0));
    assert_eq!(as_ms(sample.ingress_ws_drift_ms()), Some(80.0));
}

#[test]
fn time_domain_sample_falls_back_to_decision_time_on_invalid_input() {
    let sample = TimeDomainSample::from_raw(0, -1, 42_000);
    assert_eq!(sample.exchange_event_ts_ms, 42_000);
    assert_eq!(sample.ingress_ts_ms, 42_000);
    assert_eq!(as_ms(sample.decision_ws_drift_ms()), Some(0.0));
    assert_eq!(as_ms(sample.ingress_ws_drift_ms()), Some(0.0));
}

#[test]
fn ws_drift_filters_outliers() {
    let sample = TimeDomainSample::from_raw(1_700_000_000_000, 1_700_000_010_000_000_000, 1_700_000_040_000);
    assert_eq!(as_ms(sample.decision_ws_drift_ms()), None);
    assert_eq!(as_ms(sample.ingress_ws_drift_ms()), Some(10_000.0));
}

#[test]
fn calculate_ws_drift_uses_normalized_exchange_time() {
    assert_eq!(calculate_ws_drift_ms(1_700_000_000_250, 1_700_000_000_000_000_000), Some(250));
    assert_eq!(calculate_ws_drift_ms(1_700_000_000_250, 0), None);
}

#[test]
fn stage_age_is_whole_ms_of_past_stages() {
    assert_eq!(stage_age_ms_from_ns(10_000_000, 2_500_000), Some(7));
    assert_eq!(stage_age_ms_from_ns(10_000_000, 0), None);
    assert_eq!(stage_age_ms_from_ns(10_000_000, 10_000_000), None);
}

#[test]
fn estimator_tracks_large_constant_offset() {
    let mut est = ClockOffsetEstimator::default();
    for i in 0..80 {
        let ingress = 1_700_000_000_000 + i;
        let exchange = ingress + 3_600_000;
        est.observe(ingress, exchange);
    }
    assert!(est.offset_ms() <= -3_599_900 && est.offset_ms() >= -3_600_100);
    let corrected = est.corrected_exchange_ms(1_700_003_600_000);
    assert!((corrected - 1_700_000_000_000).abs() < 150);
}

#[test]
fn estimator_ignores_implausible_offsets() {
    let mut est = ClockOffsetEstimator::default();
    est.observe(1_000, 1_000 + 21_600_001);
    assert_eq!(est.offset_ms(), 0);
    assert_eq!(est.corrected_exchange_ms(5_000), 5_000);
}

#[test]
fn exchange_offsets_only_correct_known_venues() {
    let mut offsets = ExchangeClockOffsets::default();
    assert_eq!(offsets.corrected_exchange_ms("okx", 123, 100), 123);
    let first = offsets.corrected_exchange_ms("binance", 2_000, 1_000);
    assert_eq!(first, 1_000);
}
