use bytes::Bytes;
use hft_lead_lag::symbols::{
    build_strategy_symbol_id_pairs, normalize_gate_contract, StrategySymbolIdCapacityError, StrategySymbolIndex,
    MAX_STRATEGY_SYMBOLS,
};

#[test]
fn strategy_symbol_pairs_deduplicate_and_preserve_first_seen_order() {
    let symbols = vec!["BTCUSDT".to_string(), "ETHUSDT".to_string(), "BTCUSDT".to_string(), "SOLUSDT".to_string()];
    let pairs = build_strategy_symbol_id_pairs(&symbols).expect("pairs");
    assert_eq!(pairs.len(), 3);
    assert_eq!(pairs[0], (Bytes::from_static(b"BTCUSDT"), 0));
    assert_eq!(pairs[1], (Bytes::from_static(b"ETHUSDT"), 1));
    assert_eq!(pairs[2], (Bytes::from_static(b"SOLUSDT"), 2));
}

#[test]
fn strategy_symbol_pairs_fail_when_capacity_exceeded() {
    let total = MAX_STRATEGY_SYMBOLS.saturating_add(1);
    let symbols: Vec<String> = (0..total).map(|idx| format!("S{idx:05}")).collect();
    let err = build_strategy_symbol_id_pairs(&symbols).expect_err("capacity error");
    assert_eq!(
        err,
        StrategySymbolIdCapacityError { unique_symbols: MAX_STRATEGY_SYMBOLS.saturating_add(1), max_symbols: MAX_STRATEGY_SYMBOLS }
    );
}

#[test]
fn strategy_symbol_pairs_fit_exactly_at_capacity() {
    let symbols: Vec<String> = (0..MAX_STRATEGY_SYMBOLS).map(|idx| format!("S{idx:05}")).collect();
    let pairs = build_strategy_symbol_id_pairs(&symbols).expect("fits");
    assert_eq!(pairs.len(), MAX_STRATEGY_SYMBOLS);
    assert_eq!(pairs[65_535].1, 65_535);
}

#[test]
fn strategy_symbol_index_assigns_stable_ids() {
    let index = StrategySymbolIndex::new(&["BTCUSDT".to_string(), "ETHUSDT".to_string(), "SOLUSDT".to_string()]);
    assert_eq!(index.symbol_id("BTCUSDT".as_bytes()), Some(0));
    assert_eq!(index.symbol_id("ETHUSDT".as_bytes()), Some(1));
    assert_eq!(index.symbol_id("SOLUSDT".as_bytes()), Some(2));
    assert_eq!(index.symbol_id("DOGEUSDT".as_bytes()), None);
}

#[test]
fn strategy_symbol_index_resolves_symbol_by_id() {
    let index = StrategySymbolIndex::new(&["BTCUSDT".to_string(), "ETHUSDT".to_string()]);
    assert_eq!(index.symbol(0), Some("BTCUSDT"));
    assert_eq!(index.symbol(1), Some("ETHUSDT"));
    assert_eq!(index.symbol(9), None);
}

#[test]
fn strategy_symbol_index_skips_repeats_and_invalid_bytes() {
    let index = StrategySymbolIndex::new(&["BTC".to_string(), "BTC".to_string(), "ETH".to_string()]);
    assert_eq!(index.symbol_id(b"ETH"), Some(1));
    assert_eq!(index.symbol_id(b"BTC\xff"), None);
}

#[test]
fn gate_contracts_normalize_to_usdt_symbols() {
    assert_eq!(normalize_gate_contract(b"BTC_USDT"), b"BTCUSDT".to_vec());
    assert_eq!(normalize_gate_contract(b"BTC_USD"), b"BTCUSDT".to_vec());
    assert_eq!(normalize_gate_contract(b"BTCUSDT"), b"BTCUSDT".to_vec());
    assert_eq!(normalize_gate_contract(b"_USD"), b"USDT".to_vec());
    assert_eq!(normalize_gate_contract(b""), Vec::<u8>::new());
}
