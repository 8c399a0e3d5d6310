use bytes::Bytes;
use hft_lead_lag::ingest::{
    complete_signal_check, lead_lag_pair_ready, quotes_in_sync, record_batch_stage_timestamps, strategy_symbol_updates_from_batch, BookTicker,
    PendingSignals, StageTimestampBook, SymbolStageTimestamps, Trade,
};
use hft_lead_lag::clock_offset::ExchangeClockOffset;
use hft_lead_lag::runtime::EventLoopMetrics;
use hft_lead_lag::symbols::StrategySymbolIndex;

fn ticker(symbol: &str, bid: i64, ask: i64) -> BookTicker {
    BookTicker::new(Bytes::copy_from_slice(symbol.as_bytes()), bid, ask, 1, 1, 123, 456)
}

fn index(symbols: &[&str]) -> StrategySymbolIndex {
    let v: Vec<String> = symbols.iter().map(|s| s.to_string()).collect();
    StrategySymbolIndex::new(&v)
}

#[test]
fn book_ticker_fields_and_spread() {
    let t = ticker("BTCUSDT", 100, 105);
    assert_eq!(t.spread_ticks(), 5);
    assert_eq!(t.strategy_symbol_id, None);
    let tagged = t.clone().with_strategy_symbol_id(Some(7));
    assert_eq!(tagged.strategy_symbol_id, Some(7));
    assert_eq!(tagged.symbol.as_ref(), b"BTCUSDT");
    assert_eq!(tagged.bid_price_ticks, 100);
    let tr = Trade::new(Bytes::from_static(b"ETHUSDT"), 9, 10, 11, true, 1, 2);
    let copy = tr.clone();
    assert_eq!(copy.trade_id, 9);
    assert_eq!(copy.symbol, tr.symbol);
}

#[test]
fn batch_updates_keep_order_and_dedup_ids() {
    let idx = index(&["BTCUSDT", "ETHUSDT", "SOLUSDT"]);
    let first = ticker("ETHUSDT", 1, 2);
    let drained = vec![
        ticker("XRPUSDT", 1, 2),
        ticker("BTCUSDT", 3, 4),
        ticker("ETHUSDT", 5, 6),
        ticker("FOO", 1, 1).with_strategy_symbol_id(Some(2)),
    ];
    let (ids, updates) = strategy_symbol_updates_from_batch(first, drained, &idx);
    assert_eq!(ids, vec![1, 0, 2]);
    let got: Vec<(u16, i64)> = updates.iter().map(|(id, t)| (*id, t.bid_price_ticks)).collect();
    assert_eq!(got, vec![(1, 1), (0, 3), (1, 5), (2, 1)]);
}

#[test]
fn batch_outside_universe_yields_nothing() {
    let idx = index(&["BTCUSDT"]);
    let (ids, updates) = strategy_symbol_updates_from_batch(ticker("DOGE", 1, 2), vec![], &idx);
    assert!(ids.is_empty());
    assert!(updates.is_empty());
}

#[test]
fn pending_signals_served_smallest_first_within_budget() {
    let mut p = PendingSignals::new();
    assert!(p.is_empty());
    for id in [5u16, 1, 9, 5, 3] {
        p.mark(id);
    }
    assert_eq!(p.backlog_depth(), 4);
    assert_eq!(p.take_batch(2), vec![1, 3]);
    assert_eq!(p.backlog_depth(), 2);
    p.mark(2);
    assert_eq!(p.take_batch(10), vec![2, 5, 9]);
    assert!(p.is_empty());
    assert!(p.take_batch(3).is_empty());
}

#[test]
fn stage_timestamps_recorded_per_batch_and_closed_by_signal_check() {
    let mut book = StageTimestampBook::new();
    let mut metrics = EventLoopMetrics::new();
    let batch = vec![(3u16, 1_000_000i64), (4u16, 0i64), (3u16, 2_000_000i64)];
    record_batch_stage_timestamps(&mut book, &mut metrics, &batch, 5_000_000, 6_000_000);
    // A receive time of 0 gives no ingest sample; the later update of 3 wins.
    assert_eq!(metrics.ingest_latency_us, vec![4_000, 3_000]);
    assert_eq!(
        book.get(3),
        Some(SymbolStageTimestamps { recv_ws_frame_ts_ns: 2_000_000, parsed_ts_ns: 5_000_000, state_updated_ts_ns: 6_000_000 })
    );
    assert!(complete_signal_check(&mut book, &mut metrics, 3, 9_000_000));
    assert_eq!(metrics.decision_latency_us, vec![3_000]);
    assert_eq!(metrics.end_to_end_latency_us, vec![7_000]);
    assert_eq!(book.get(3), None);
    assert!(!complete_signal_check(&mut book, &mut metrics, 3, 9_500_000));
    assert_eq!(metrics.decision_latency_us.len(), 1);
    assert!(book.take(4).is_some());
}

fn timed(symbol: &str, exchange_ts_ns: i64, local_ts_ns: i64) -> BookTicker {
    BookTicker::new(Bytes::copy_from_slice(symbol.as_bytes()), 100, 101, 1, 1, exchange_ts_ns, local_ts_ns)
}

#[test]
fn quotes_must_be_stamped_and_close_in_local_time() {
    assert!(quotes_in_sync(1_000_000_000, 1_500_000_000, 1_000));
    assert!(!quotes_in_sync(1_000_000_000, 2_000_000_001, 1_000));
    assert!(quotes_in_sync(1, 9_000_000_000_000, 0));
    assert!(!quotes_in_sync(0, 5, 1_000));
    assert!(quotes_in_sync(1, i64::MAX, u64::MAX));
}

#[test]
fn pair_ready_only_when_primary_leads_after_offsets() {
    let mut p_off = ExchangeClockOffset::new();
    let h_off = ExchangeClockOffset::new();
    let primary = timed("BTCUSDT", 2_000, 3_000);
    let hedge = timed("BTCUSDT", 2_500, 3_000);
    assert!(!lead_lag_pair_ready(&primary, &hedge, 1_000, &p_off, &h_off));
    // The primary exchange clock runs 1000 ns behind local time.
    p_off.observe(3_000, 2_000);
    assert!(lead_lag_pair_ready(&primary, &hedge, 1_000, &p_off, &h_off));
    let stale = timed("BTCUSDT", 2_000, 2_000_000_000);
    assert!(!lead_lag_pair_ready(&primary, &stale, 1_000, &p_off, &h_off));
}
