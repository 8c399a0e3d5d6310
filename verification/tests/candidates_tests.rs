use hft_lead_lag::candidates::{
    candidate_age_minutes, candidate_stats, restore_trade_counts, PnlSign, TradeCounts,
};

#[test]
fn trade_counts_track_signs_and_first_observation() {
    let mut c = TradeCounts::new();
    c.observe(PnlSign::Positive, 5_000);
    c.observe(PnlSign::Negative, 3_000);
    c.observe(PnlSign::Flat, 9_000);
    assert_eq!(c.closed_trades, 3);
    assert_eq!(c.profitable_trades, 1);
    assert_eq!(c.losing_trades, 1);
    assert_eq!(c.first_observed_ts_ms, Some(3_000));
    let mut full = TradeCounts { closed_trades: u32::MAX, ..TradeCounts::new() };
    full.observe(PnlSign::Positive, 1);
    assert_eq!(full.closed_trades, u32::MAX);
}

#[test]
fn candidate_age_prefers_first_tick_then_first_trade() {
    assert_eq!(candidate_age_minutes(10 * 60_000, Some(0), Some(5 * 60_000)), 10);
    assert_eq!(candidate_age_minutes(10 * 60_000, None, Some(5 * 60_000)), 5);
    assert_eq!(candidate_age_minutes(10 * 60_000, None, None), 0);
    assert_eq!(candidate_age_minutes(0, Some(60_000), None), 0);
    assert_eq!(candidate_age_minutes(119_999, Some(0), None), 1);
}

#[test]
fn candidate_stats_copy_counts_and_key() {
    let c = TradeCounts { closed_trades: 8, profitable_trades: 5, losing_trades: 3, first_observed_ts_ms: Some(0) };
    let s = candidate_stats("BTCUSDT".to_string(), &c, None, 42, 6 * 60_000);
    assert_eq!(s.symbol, "BTCUSDT");
    assert_eq!(s.age_minutes_from_first_tick, 6);
    assert_eq!((s.closed_trades, s.profitable_trades, s.losing_trades, s.avg_pnl_key), (8, 5, 3, 42));
}

#[test]
fn restored_counts_skip_empty_rows_and_cap_outcomes() {
    assert_eq!(restore_trade_counts(0, 3, 1, None), None);
    let c = restore_trade_counts(4, 9, 2, Some(7)).expect("counts");
    assert_eq!((c.closed_trades, c.profitable_trades, c.losing_trades), (4, 4, 2));
    assert_eq!(c.first_observed_ts_ms, Some(7));
}
