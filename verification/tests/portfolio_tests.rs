use hft_lead_lag::drained::{apply_drained_trades, filter_active_run_trades, sort_drained_trades_in_place, DrainedTrade};
use hft_lead_lag::guards::SymbolGuardStateV1;
use hft_lead_lag::portfolio::{
    default_portfolio_ids, eligible, normalize_portfolio_ids, rank_candidates, PortfolioEngineV1, PortfolioStateV1,
    SymbolStatsV1,
};
use hft_lead_lag::candidates::PnlSign;
use hft_lead_lag::drained::collapse_candidate_events;
use hft_lead_lag::portfolio_history::PortfolioRuntimeState;
use hft_lead_lag::records::PortfolioStateRecordV1;
use std::collections::{BTreeMap, HashSet};

fn pnl_key(pnl: f64) -> i64 {
    if pnl.is_nan() {
        return pnl_key(f64::NEG_INFINITY);
    }
    let bits = pnl.to_bits() as i64;
    if bits < 0 {
        -(bits & i64::MAX)
    } else {
        bits
    }
}

fn pnl_sign(pnl: f64) -> PnlSign {
    if pnl > 0.0 {
        PnlSign::Positive
    } else if pnl < 0.0 {
        PnlSign::Negative
    } else {
        PnlSign::Flat
    }
}

fn stats(
    symbol: &str,
    age_minutes_from_first_tick: u64,
    closed_trades: u32,
    profitable_trades: u32,
    losing_trades: u32,
    avg_pnl_pct: f64,
) -> SymbolStatsV1 {
    SymbolStatsV1 {
        symbol: symbol.to_string(),
        age_minutes_from_first_tick,
        closed_trades,
        profitable_trades,
        losing_trades,
        avg_pnl_key: pnl_key(avg_pnl_pct),
    }
}

fn assign(engine: &PortfolioEngineV1, pool: &[SymbolStatsV1], now_ms: i64) -> BTreeMap<String, PortfolioStateV1> {
    engine.assign_without_overlap(pool, now_ms).into_iter().collect()
}

fn record(engine: &mut PortfolioEngineV1, symbol: &str, pnl_pct: f64, is_stop_loss: bool, ts_ms: i64) -> bool {
    engine.record_closed_trade(symbol, pnl_pct > 0.0, is_stop_loss, ts_ms)
}

#[test]
fn portfolio_runtime_eligible_requires_all_v1_thresholds() {
    let ok = stats("OK", 6, 6, 2, 3, 0.0);
    assert!(eligible(&ok));
    let too_young = stats("YOUNG", 5, 6, 2, 3, 0.0);
    assert!(!eligible(&too_young));
    let too_few_trades = stats("FEW", 6, 5, 2, 2, 0.0);
    assert!(!eligible(&too_few_trades));
    let low_winrate = stats("LOW_WR", 6, 10, 2, 8, 0.0);
    assert!(!eligible(&low_winrate));
    let negative_avg = stats("NEG", 6, 8, 4, 4, -0.01);
    assert!(!eligible(&negative_avg));
}

#[test]
fn eligibility_treats_negative_zero_and_nan_pnl() {
    assert!(eligible(&stats("ZERO", 6, 10, 3, 7, -0.0)));
    assert!(!eligible(&stats("NAN", 6, 10, 3, 7, f64::NAN)));
    assert!(eligible(&stats("WR30", 6, 10, 3, 7, 0.5)));
    assert!(!eligible(&stats("WR29", 6, 100, 29, 71, 0.5)));
}

#[test]
fn portfolio_runtime_ranking_uses_v1_tuple_priority() {
    let ranked = rank_candidates(&[
        stats("wr_top", 6, 10, 6, 4, 0.1),
        stats("pm_top", 6, 10, 5, 1, 0.0),
        stats("avg_then_closed_high", 6, 12, 4, 2, 0.2),
        stats("avg_then_closed_low", 6, 9, 3, 1, 0.2),
        stats("avg_lower", 6, 30, 10, 8, 0.1),
    ]);
    let symbols: Vec<&str> = ranked.iter().map(|s| s.symbol.as_str()).collect();
    assert_eq!(symbols, vec!["wr_top", "pm_top", "avg_then_closed_high", "avg_then_closed_low", "avg_lower"]);
}

#[test]
fn ranking_breaks_full_ties_by_symbol() {
    let ranked = rank_candidates(&[stats("B", 6, 10, 6, 4, 0.1), stats("A", 6, 10, 6, 4, 0.1)]);
    let symbols: Vec<&str> = ranked.iter().map(|s| s.symbol.as_str()).collect();
    assert_eq!(symbols, vec!["A", "B"]);
}

#[test]
fn portfolio_runtime_assign_without_overlap_enforces_top5_and_max4() {
    let engine = PortfolioEngineV1::new();
    let pool = vec![
        stats("X", 6, 20, 13, 6, 0.12),
        stats("A1", 6, 18, 11, 5, 0.10),
        stats("A2", 6, 16, 10, 5, 0.09),
        stats("A3", 6, 14, 9, 4, 0.08),
        stats("A4", 6, 12, 8, 4, 0.07),
        stats("A6", 6, 10, 6, 4, 0.01),
        stats("A7", 6, 9, 6, 3, 0.01),
        stats("A8", 6, 8, 5, 3, 0.01),
        stats("A9", 6, 7, 4, 3, 0.01),
        stats("A10", 6, 7, 4, 3, 0.00),
        stats("A11", 6, 6, 3, 3, 0.00),
        stats("A12", 6, 6, 3, 3, 0.00),
    ];
    let assigned = assign(&engine, &pool, 0);
    let a_state = assigned.get("A").expect("state A");
    let b_state = assigned.get("B").expect("state B");
    assert_eq!(a_state.shortlist.len(), 5);
    assert_eq!(b_state.shortlist.len(), 5);
    assert!(a_state.active_symbols.len() <= 4);
    assert!(b_state.active_symbols.len() <= 4);
    let shortlist_overlap: Vec<&String> = a_state.shortlist.iter().filter(|sym| b_state.shortlist.contains(*sym)).collect();
    assert!(shortlist_overlap.is_empty(), "shortlists must not overlap across portfolios");
    let overlap: Vec<&String> = a_state.active_symbols.iter().filter(|sym| b_state.active_symbols.contains(*sym)).collect();
    assert!(overlap.is_empty(), "active symbols must not overlap");
}

#[test]
fn portfolio_runtime_assign_without_overlap_balances_identical_candidate_pool() {
    let engine = PortfolioEngineV1::new();
    let pool = vec![
        stats("S1", 6, 10, 6, 4, 0.10),
        stats("S2", 6, 10, 6, 4, 0.10),
        stats("S3", 6, 10, 6, 4, 0.10),
        stats("S4", 6, 10, 6, 4, 0.10),
        stats("S5", 6, 10, 6, 4, 0.10),
        stats("S6", 6, 10, 6, 4, 0.10),
    ];
    let assigned = assign(&engine, &pool, 0);
    let a_state = assigned.get("A").expect("state A");
    let b_state = assigned.get("B").expect("state B");
    assert!(a_state.shortlist.len() <= 5);
    assert!(b_state.shortlist.len() <= 5);
    assert!(
        !a_state.active_symbols.is_empty() && !b_state.active_symbols.is_empty(),
        "identical pools must not starve one portfolio"
    );
    let shortlist_overlap: Vec<&String> = a_state.shortlist.iter().filter(|sym| b_state.shortlist.contains(*sym)).collect();
    assert!(shortlist_overlap.is_empty(), "shortlists must not overlap across portfolios");
    let overlap: Vec<&String> = a_state.active_symbols.iter().filter(|sym| b_state.active_symbols.contains(*sym)).collect();
    assert!(overlap.is_empty(), "active symbols must not overlap");
    let union: HashSet<String> = a_state.shortlist.iter().chain(b_state.shortlist.iter()).cloned().collect();
    assert_eq!(union.len(), 6, "all unique symbols should be distributed across shortlists without overlap");
    assert_eq!(
        a_state.shortlist.len() + b_state.shortlist.len(),
        6,
        "with no-overlap shortlists total allocation cannot exceed pool size"
    );
}

#[test]
fn portfolio_runtime_with_portfolio_ids_supports_dynamic_count_and_independent_shortlists() {
    let engine = PortfolioEngineV1::with_portfolio_ids(vec!["A".to_string(), "B".to_string(), "C".to_string()]);
    assert_eq!(engine.portfolio_ids(), &vec!["A".to_string(), "B".to_string(), "C".to_string()]);
    let pool = vec![
        stats("S1", 6, 10, 6, 4, 0.10),
        stats("S2", 6, 10, 6, 4, 0.10),
        stats("S3", 6, 10, 6, 4, 0.10),
        stats("S4", 6, 10, 6, 4, 0.10),
        stats("S5", 6, 10, 6, 4, 0.10),
        stats("S6", 6, 10, 6, 4, 0.10),
        stats("S7", 6, 10, 6, 4, 0.10),
    ];
    let assigned = assign(&engine, &pool, 0);
    assert_eq!(assigned.len(), 3);
    assert!(assigned.get("A").expect("A").shortlist.len() <= 5);
    assert!(assigned.get("B").expect("B").shortlist.len() <= 5);
    assert!(assigned.get("C").expect("C").shortlist.len() <= 5);
    let a_shortlist = assigned.get("A").expect("A").shortlist.clone();
    let b_shortlist = assigned.get("B").expect("B").shortlist.clone();
    let c_shortlist = assigned.get("C").expect("C").shortlist.clone();
    assert_ne!(a_shortlist, b_shortlist, "portfolios should not receive identical shortlist");
    assert_ne!(b_shortlist, c_shortlist, "portfolios should not receive identical shortlist");
    let mut shortlist_union: HashSet<String> = HashSet::new();
    for symbol in &a_shortlist {
        assert!(shortlist_union.insert(symbol.clone()));
    }
    for symbol in &b_shortlist {
        assert!(shortlist_union.insert(symbol.clone()));
    }
    for symbol in &c_shortlist {
        assert!(shortlist_union.insert(symbol.clone()));
    }
    assert_eq!(shortlist_union.len(), 7, "all symbols should be allocated across 3 shortlists without overlap");
}

#[test]
fn assignment_deals_round_robin_and_activates_first_four() {
    let engine = PortfolioEngineV1::new();
    let pool: Vec<SymbolStatsV1> = (1..=12).map(|i| stats(&format!("S{i:02}"), 6, 10, 6, 4, 0.10)).collect();
    let assigned = engine.assign_without_overlap(&pool, 0);
    assert_eq!(assigned[0].0, "A");
    assert_eq!(assigned[1].0, "B");
    assert_eq!(assigned[0].1.shortlist, vec!["S01", "S03", "S05", "S07", "S09"]);
    assert_eq!(assigned[1].1.shortlist, vec!["S02", "S04", "S06", "S08", "S10"]);
    assert_eq!(assigned[0].1.active_symbols, vec!["S01", "S03", "S05", "S07"]);
    assert_eq!(assigned[1].1.active_symbols, vec!["S02", "S04", "S06", "S08"]);
}

#[test]
fn duplicate_candidates_are_never_active_twice() {
    let engine = PortfolioEngineV1::new();
    let pool = vec![stats("DUP", 6, 10, 6, 4, 0.10), stats("DUP", 6, 10, 6, 4, 0.10), stats("ONE", 6, 10, 5, 5, 0.10)];
    let assigned = engine.assign_without_overlap(&pool, 0);
    assert_eq!(assigned[0].1.shortlist, vec!["DUP", "ONE"]);
    assert_eq!(assigned[1].1.shortlist, vec!["DUP"]);
    assert_eq!(assigned[0].1.active_symbols, vec!["DUP", "ONE"]);
    assert!(assigned[1].1.active_symbols.is_empty());
}

#[test]
fn portfolio_runtime_default_portfolio_ids_fallback_for_invalid_input() {
    let engine = PortfolioEngineV1::with_portfolio_ids(vec!["".to_string(), " ".to_string()]);
    assert_eq!(engine.portfolio_ids(), default_portfolio_ids().as_slice());
}

#[test]
fn portfolio_ids_are_trimmed_and_deduplicated() {
    let ids = normalize_portfolio_ids(vec![" A ".to_string(), "B".to_string(), "A".to_string(), "".to_string()]);
    assert_eq!(ids, vec!["A".to_string(), "B".to_string()]);
}

#[test]
fn portfolio_runtime_stop_loss_fast_trigger_at_5_within_2m() {
    let mut engine = PortfolioEngineV1::new();
    let symbol = "FAST";
    for ts in [0_i64, 20_000, 40_000, 80_000] {
        assert!(!record(&mut engine, symbol, -0.01, true, ts));
    }
    assert!(record(&mut engine, symbol, -0.01, true, 100_000));
    let guard = engine.guard_state(symbol);
    assert_eq!(guard.cooldown_until_ms, Some(400_000));
}

#[test]
fn portfolio_runtime_stop_loss_persistent_trigger_on_6th_if_fast_missed() {
    let mut engine = PortfolioEngineV1::new();
    let symbol = "PERSIST";
    for ts in [0_i64, 40_000, 80_000, 120_000] {
        assert!(!record(&mut engine, symbol, -0.01, true, ts));
    }
    assert!(!record(&mut engine, symbol, -0.01, true, 200_000));
    assert!(record(&mut engine, symbol, -0.01, true, 400_000));
}

#[test]
fn portfolio_runtime_stop_loss_streak_resets_on_positive_pnl() {
    let mut engine = PortfolioEngineV1::new();
    let symbol = "RESET";
    assert!(!record(&mut engine, symbol, -0.01, true, 0));
    assert!(!record(&mut engine, symbol, -0.01, true, 30_000));
    assert!(!record(&mut engine, symbol, 0.02, false, 40_000));
    for ts in [60_000_i64, 80_000, 100_000, 120_000] {
        assert!(!record(&mut engine, symbol, -0.01, true, ts));
    }
    assert!(record(&mut engine, symbol, -0.01, true, 140_000));
}

#[test]
fn portfolio_runtime_cooldown_blocks_and_reentry_requires_eligible_again() {
    let mut engine = PortfolioEngineV1::new();
    let symbol = "REENTRY";
    let eligible_stats = stats(symbol, 8, 10, 5, 4, 0.02);
    let ineligible_stats = stats(symbol, 4, 3, 1, 2, -0.01);
    for ts in [0_i64, 10_000, 20_000, 30_000] {
        assert!(!record(&mut engine, symbol, -0.02, true, ts));
    }
    assert!(record(&mut engine, symbol, -0.02, true, 40_000));
    assert!(!engine.can_reenter(symbol, &eligible_stats, 339_999));
    assert!(!engine.can_reenter(symbol, &ineligible_stats, 340_001));
    assert!(engine.can_reenter(symbol, &eligible_stats, 340_001));
}

#[test]
fn portfolio_runtime_replace_guard_states_replaces_existing_map() {
    let mut engine = PortfolioEngineV1::new();
    assert!(!record(&mut engine, "BTCUSDT", -0.01, true, 1_000));
    assert_ne!(engine.guard_state("BTCUSDT"), SymbolGuardStateV1::default());
    engine.replace_guard_states(vec![(
        "ETHUSDT".to_string(),
        SymbolGuardStateV1 { streak_count: 3, first_streak_ts_ms: Some(42), cooldown_until_ms: Some(99) },
    )]);
    assert_eq!(engine.guard_state("BTCUSDT"), SymbolGuardStateV1::default());
    assert_eq!(
        engine.guard_state("ETHUSDT"),
        SymbolGuardStateV1 { streak_count: 3, first_streak_ts_ms: Some(42), cooldown_until_ms: Some(99) }
    );
}

#[test]
fn guard_states_are_sorted_by_symbol() {
    let mut engine = PortfolioEngineV1::new();
    record(&mut engine, "SOL", -0.1, true, 1);
    record(&mut engine, "ADA", -0.1, true, 2);
    record(&mut engine, "BTC", 0.1, false, 3);
    let rows = engine.guard_states();
    let symbols: Vec<&str> = rows.iter().map(|(s, _)| s.as_str()).collect();
    assert_eq!(symbols, vec!["ADA", "BTC", "SOL"]);
    assert_eq!(rows[0].1.streak_count, 1);
    assert_eq!(rows[1].1.streak_count, 0);
}

#[test]
fn cooldown_excludes_symbol_from_assignment_until_expiry() {
    let mut engine = PortfolioEngineV1::new();
    let pool = vec![stats("XRP", 6, 10, 6, 4, 0.10)];
    for ts in [0_i64, 10_000, 20_000, 30_000, 40_000] {
        record(&mut engine, "XRP", -0.1, true, ts);
    }
    let blocked = engine.assign_without_overlap(&pool, 100_000);
    assert!(blocked[0].1.shortlist.is_empty());
    let open = engine.assign_without_overlap(&pool, 340_000);
    assert_eq!(open[0].1.active_symbols, vec!["XRP"]);
}

fn drained(symbol: &str, config_id: u64, entry_ts_ms: i64, ts_ms: i64, pnl_pct: f64, stop_loss: bool) -> DrainedTrade {
    DrainedTrade {
        config_id,
        symbol: symbol.to_string(),
        run_id: None,
        ts_ms,
        entry_ts_ms,
        pnl_sign: pnl_sign(pnl_pct),
        pnl_units: (pnl_pct * 1e8).round() as i64,
        is_stop_loss: stop_loss,
    }
}

#[test]
fn sort_drained_trades_orders_by_symbol_ts_entry_config() {
    let mut rows = vec![
        drained("ETHUSDT", 2, 200, 1_000, 0.1, false),
        drained("BTCUSDT", 9, 120, 900, 0.2, false),
        drained("BTCUSDT", 3, 100, 900, 0.1, false),
        drained("BTCUSDT", 1, 100, 800, 0.3, false),
    ];
    sort_drained_trades_in_place(&mut rows);
    let order: Vec<(String, i64, i64, u64)> = rows.iter().map(|t| (t.symbol.clone(), t.ts_ms, t.entry_ts_ms, t.config_id)).collect();
    assert_eq!(
        order,
        vec![
            ("BTCUSDT".to_string(), 800, 100, 1),
            ("BTCUSDT".to_string(), 900, 100, 3),
            ("BTCUSDT".to_string(), 900, 120, 9),
            ("ETHUSDT".to_string(), 1_000, 200, 2),
        ]
    );
}

#[test]
fn filter_active_run_trades_keeps_only_matching_run_when_set() {
    let mut a = drained("BTCUSDT", 1, 10, 20, 0.1, false);
    a.run_id = Some("run-a".to_string());
    let mut b = drained("BTCUSDT", 2, 30, 40, 0.2, false);
    b.run_id = Some("run-b".to_string());
    let rows = vec![a.clone(), b.clone()];
    let active = filter_active_run_trades(&rows, Some("run-a"));
    assert_eq!(active.len(), 1);
    assert_eq!(active[0].run_id.as_deref(), Some("run-a"));
    let global = filter_active_run_trades(&rows, None);
    assert_eq!(global.len(), 2);
}

#[test]
fn drained_trades_apply_guard_logic_in_chronological_order() {
    let mut engine = PortfolioEngineV1::new();
    let loss_one = drained("BTCUSDT", 7, 2_100, 2_200, -0.2, true);
    let loss_two = drained("BTCUSDT", 7, 2_200, 2_300, -0.2, true);
    let win_earlier = drained("BTCUSDT", 7, 1_900, 2_000, 0.3, false);
    let changed = apply_drained_trades(&mut engine, vec![loss_one, loss_two, win_earlier]);
    assert!(changed);
    let guard_state = engine.guard_states();
    let btc_guard = guard_state.iter().find(|(symbol, _)| symbol == "BTCUSDT").expect("BTCUSDT guard");
    assert_eq!(
        btc_guard.1.streak_count, 2,
        "guard streak must reflect chronological processing (win first, then two stop-losses)"
    );
}

#[test]
fn drained_wins_on_fresh_symbol_do_not_change_guards() {
    let mut engine = PortfolioEngineV1::new();
    let changed = apply_drained_trades(&mut engine, vec![drained("ETHUSDT", 1, 10, 20, 0.5, false)]);
    assert!(!changed);
    assert_eq!(engine.guard_state("ETHUSDT"), SymbolGuardStateV1::default());
}

#[test]
fn runtime_handles_drained_trades_chronologically_and_counts_them() {
    let mut runtime = PortfolioRuntimeState::new();
    assert_eq!(runtime.handle_drained_fleet_trades(Vec::new()), 0);
    let drained_count = runtime.handle_drained_fleet_trades(vec![
        drained("BTCUSDT", 7, 1_700, 2_200, -0.2, true),
        drained("BTCUSDT", 7, 1_800, 2_300, -0.2, true),
        drained("BTCUSDT", 7, 1_500, 2_000, 0.3, false),
    ]);
    assert_eq!(drained_count, 3);
    let guard = runtime.engine.guard_state("BTCUSDT");
    assert_eq!(guard.streak_count, 2);
    assert_eq!(guard.first_streak_ts_ms, Some(2_200));
    assert_eq!(guard.cooldown_until_ms, None);
}

fn with_run(mut t: DrainedTrade, run_id: &str) -> DrainedTrade {
    t.run_id = Some(run_id.to_string());
    t
}

#[test]
fn drained_trades_ignore_non_active_run_for_candidate_math() {
    let mut runtime = PortfolioRuntimeState::new();
    runtime.set_run_id(Some("forward-1".to_string()));
    let count = runtime.handle_drained_fleet_trades(vec![with_run(drained("BTCUSDT", 1, 10_000, 50_000, 0.2, false), "forward-other")]);
    assert_eq!(count, 1);
    assert_eq!(runtime.candidates.len(), 0, "candidate stats must not ingest trades from a different run_id");

    runtime.handle_drained_fleet_trades(vec![with_run(drained("BTCUSDT", 1, 10_000, 60_000, 0.2, false), "forward-1")]);
    let btc = runtime.candidates.get("BTCUSDT").expect("active run trade counted");
    assert_eq!(btc.closed_trades, 1);
}

#[test]
fn setting_run_id_resets_candidate_history_when_run_changes() {
    let mut runtime = PortfolioRuntimeState::new();
    runtime.handle_drained_fleet_trades(vec![drained("BTCUSDT", 1, 5_000, 10_000, 0.25, false)]);
    assert_eq!(runtime.candidates.len(), 1);
    runtime.set_run_id(None);
    assert_eq!(runtime.candidates.len(), 1);
    runtime.set_run_id(Some("run-a".to_string()));
    assert_eq!(runtime.candidates.len(), 0, "candidate history must reset when switching into a specific run scope");
}

#[test]
fn drained_trades_collapse_same_symbol_timestamp_for_candidate_math() {
    let mut runtime = PortfolioRuntimeState::new();
    runtime.handle_drained_fleet_trades(vec![
        drained("BTCUSDT", 11, 20_000, 80_000, 0.4, false),
        drained("BTCUSDT", 12, 20_000, 80_000, -0.2, true),
    ]);
    let btc = runtime.candidates.get("BTCUSDT").expect("candidate stats for BTCUSDT");
    assert_eq!(btc.closed_trades, 1, "same-symbol same-ts closes should contribute one candidate event");
    assert_eq!(btc.profitable_trades, 1, "the merged event averages to +0.1");
    assert_eq!(btc.losing_trades, 0);
    assert_eq!(btc.first_observed_ts_ms, Some(20_000), "candidate age counts from the entry time");

    let events = collapse_candidate_events(&[
        drained("BTCUSDT", 11, 20_000, 80_000, 0.4, false),
        drained("BTCUSDT", 12, 10_000, 80_000, -0.2, true),
        drained("ETHUSDT", 13, 5_000, 80_000, 0.3, false),
    ]);
    assert_eq!(events.len(), 2);
    assert_eq!(events[0].trades, 2);
    assert_eq!(events[0].pnl_units_sum, 20_000_000);
    assert_eq!(events[0].first_observed_ts_ms, 10_000);
}

fn state_record(id: &str, symbols: &[&str], ts: i64) -> PortfolioStateRecordV1 {
    let v: Vec<String> = symbols.iter().map(|s| s.to_string()).collect();
    PortfolioStateRecordV1 { portfolio_id: id.to_string(), shortlist: v.clone(), active_symbols: v, updated_at_ms: ts }
}

#[test]
fn portfolio_paper_money_attributes_to_owner_at_entry_not_close() {
    let mut runtime = PortfolioRuntimeState::new();
    runtime.restore_from_records(&[state_record("A", &["BTCUSDT"], 1_000), state_record("B", &[], 1_000)], &[]);
    runtime.restore_from_records(&[state_record("A", &[], 2_000), state_record("B", &["BTCUSDT"], 2_000)], &[]);
    runtime.handle_drained_fleet_trades(vec![drained("BTCUSDT", 1, 1_500, 2_500, 0.2, false)]);
    let paper: BTreeMap<String, _> = runtime.paper_states.iter().cloned().collect();
    assert_eq!(paper["A"].closed_trades, 1);
    assert_eq!(paper["A"].profitable_trades, 1);
    assert_eq!(paper["A"].realized_pnl_units, 20_000_000);
    assert_eq!(paper["A"].last_trade_ts_ms, Some(2_500));
    assert_eq!(paper["B"].closed_trades, 0);
}

#[test]
fn portfolio_paper_money_falls_back_to_active_owner_when_entry_snapshot_missing() {
    let mut runtime = PortfolioRuntimeState::new();
    runtime.restore_from_records(&[state_record("A", &[], 2_000), state_record("B", &["ETHUSDT"], 2_000)], &[]);
    runtime.handle_drained_fleet_trades(vec![drained("ETHUSDT", 1, 500, 3_000, -0.1, true)]);
    let paper: BTreeMap<String, _> = runtime.paper_states.iter().cloned().collect();
    assert_eq!(paper["B"].closed_trades, 1);
    assert_eq!(paper["B"].losing_trades, 1);
    assert_eq!(paper["A"].closed_trades, 0);
}

#[test]
fn portfolio_paper_money_resets_with_new_portfolio_ids() {
    let mut runtime = PortfolioRuntimeState::new();
    runtime.restore_from_records(&[state_record("A", &["BTCUSDT"], 1_000)], &[]);
    runtime.handle_drained_fleet_trades(vec![drained("BTCUSDT", 1, 1_500, 2_500, 0.2, false)]);
    runtime.set_portfolio_ids_v1(vec!["X".to_string(), "Y".to_string(), "Z".to_string()]);
    let ids: Vec<&str> = runtime.paper_states.iter().map(|(id, _)| id.as_str()).collect();
    assert_eq!(ids, vec!["X", "Y", "Z"]);
    assert!(runtime.paper_states.iter().all(|(_, p)| p.closed_trades == 0));
}

#[test]
fn guard_rows_round_trip_through_replace() {
    let mut e = PortfolioEngineV1::new();
    e.record_closed_trade("SOLUSDT", false, true, 1_000);
    e.record_closed_trade("BTCUSDT", false, true, 2_000);
    e.record_closed_trade("ETHUSDT", true, false, 3_000);
    let rows = e.guard_states();
    let mut e2 = PortfolioEngineV1::new();
    e2.record_closed_trade("XRPUSDT", false, true, 500);
    e2.replace_guard_states(rows.clone());
    assert_eq!(e2.guard_states(), rows);
    for (symbol, _) in &rows {
        assert_eq!(e2.guard_state(symbol), e.guard_state(symbol));
    }
    assert_eq!(e2.guard_state("XRPUSDT"), SymbolGuardStateV1::default());
}
