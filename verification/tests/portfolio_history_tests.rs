use hft_lead_lag::portfolio::{PortfolioStateV1, SymbolStatsV1};
use hft_lead_lag::portfolio_history::{
    owner_portfolio_id_from_assignment, rebalance_due, AssignmentHistory, PortfolioRuntimeState,
    PORTFOLIO_ASSIGNMENT_HISTORY_CAP, PORTFOLIO_REBALANCE_INTERVAL_MS,
};
use hft_lead_lag::records::{PortfolioGuardRecordV1, PortfolioStateRecordV1};

fn st(active: &[&str]) -> PortfolioStateV1 {
    PortfolioStateV1 {
        shortlist: active.iter().map(|s| s.to_string()).collect(),
        active_symbols: active.iter().map(|s| s.to_string()).collect(),
    }
}

fn assignment(a: &[&str], b: &[&str]) -> Vec<(String, PortfolioStateV1)> {
    vec![("A".to_string(), st(a)), ("B".to_string(), st(b))]
}

fn stats(symbol: &str, profitable: u32) -> SymbolStatsV1 {
    SymbolStatsV1 {
        symbol: symbol.to_string(),
        age_minutes_from_first_tick: 60,
        closed_trades: 10,
        profitable_trades: profitable,
        losing_trades: 10 - profitable,
        avg_pnl_key: 1,
    }
}

#[test]
fn rebalance_due_after_interval() {
    assert!(rebalance_due(None, 0));
    assert!(!rebalance_due(Some(1_000), 1_000 + PORTFOLIO_REBALANCE_INTERVAL_MS - 1));
    assert!(rebalance_due(Some(1_000), 1_000 + PORTFOLIO_REBALANCE_INTERVAL_MS));
    assert!(rebalance_due(Some(i64::MIN), i64::MAX));
}

#[test]
fn owner_is_first_portfolio_holding_symbol_active() {
    let a = assignment(&["BTC", "ETH"], &["SOL"]);
    assert_eq!(owner_portfolio_id_from_assignment(&a, "SOL"), Some("B".to_string()));
    assert_eq!(owner_portfolio_id_from_assignment(&a, "BTC"), Some("A".to_string()));
    assert_eq!(owner_portfolio_id_from_assignment(&a, "XRP"), None);
}

#[test]
fn history_replaces_same_time_and_caps_length() {
    let mut h = AssignmentHistory::new();
    h.record(&assignment(&["BTC"], &[]), 10);
    h.record(&assignment(&[], &["BTC"]), 10);
    assert_eq!(h.len(), 1);
    assert_eq!(h.owner_at_entry_portfolio_id("BTC", 10), Some("B".to_string()));
    for t in 0..(PORTFOLIO_ASSIGNMENT_HISTORY_CAP as i64 + 5) {
        h.record(&assignment(&["ETH"], &[]), 100 + t);
    }
    assert_eq!(h.len(), PORTFOLIO_ASSIGNMENT_HISTORY_CAP);
    // The oldest snapshot (BTC owned by B) has been dropped.
    assert_eq!(h.owner_at_entry_portfolio_id("BTC", 1_000), None);
    h.clear();
    assert_eq!(h.len(), 0);
}

#[test]
fn owner_at_entry_uses_newest_snapshot_not_after_entry() {
    let mut h = AssignmentHistory::new();
    h.record(&assignment(&["BTC"], &[]), 100);
    h.record(&assignment(&[], &["BTC"]), 200);
    h.record(&assignment(&["ETH"], &[]), 300);
    assert_eq!(h.owner_at_entry_portfolio_id("BTC", 50), None);
    assert_eq!(h.owner_at_entry_portfolio_id("BTC", 150), Some("A".to_string()));
    assert_eq!(h.owner_at_entry_portfolio_id("BTC", 250), Some("B".to_string()));
    // The newest snapshot has no owner for BTC: the one before it is used.
    assert_eq!(h.owner_at_entry_portfolio_id("BTC", 350), Some("B".to_string()));
}

#[test]
fn runtime_rebalances_once_per_interval_and_records_history() {
    let mut rt = PortfolioRuntimeState::new();
    let candidates = vec![stats("BTC", 9), stats("ETH", 8), stats("SOL", 7)];
    assert!(rt.maybe_rebalance_portfolios(&candidates, 1_000));
    assert_eq!(rt.last_rebalance_ms, Some(1_000));
    assert_eq!(rt.history.len(), 1);
    let a = rt.latest_assignment.iter().find(|(id, _)| id == "A").unwrap();
    assert_eq!(a.1.active_symbols, vec!["BTC".to_string(), "SOL".to_string()]);
    assert!(!rt.maybe_rebalance_portfolios(&candidates, 1_000 + PORTFOLIO_REBALANCE_INTERVAL_MS - 1));
    assert!(rt.maybe_rebalance_portfolios(&candidates, 1_000 + PORTFOLIO_REBALANCE_INTERVAL_MS));
    assert_eq!(rt.history.len(), 2);
    assert_eq!(rt.trade_owner_portfolio_id("ETH", 2_000), Some("B".to_string()));
    assert_eq!(rt.trade_owner_portfolio_id("ETH", 500), Some("B".to_string()));
    assert_eq!(rt.trade_owner_portfolio_id("XRP", 2_000), None);
}

#[test]
fn runtime_set_portfolio_ids_resets_assignment_and_history() {
    let mut rt = PortfolioRuntimeState::new();
    assert!(rt.maybe_rebalance_portfolios(&[stats("BTC", 9)], 1_000));
    rt.set_portfolio_ids_v1(vec!["X".to_string(), " Y ".to_string()]);
    assert_eq!(rt.last_rebalance_ms, None);
    assert_eq!(rt.history.len(), 0);
    let ids: Vec<String> = rt.latest_assignment.iter().map(|(id, _)| id.clone()).collect();
    assert_eq!(ids, vec!["X".to_string(), "Y".to_string()]);
    assert!(rt.latest_assignment.iter().all(|(_, s)| s.active_symbols.is_empty()));
}

#[test]
fn runtime_restores_from_records() {
    let mut rt = PortfolioRuntimeState::new();
    let states = vec![PortfolioStateRecordV1 {
        portfolio_id: "B".to_string(),
        shortlist: vec!["SOL".to_string()],
        active_symbols: vec!["SOL".to_string()],
        updated_at_ms: 5_000,
    }];
    let guards = vec![PortfolioGuardRecordV1 {
        symbol: "BTC".to_string(),
        streak_count: 2,
        first_streak_ts_ms: Some(4_000),
        cooldown_until_ms: None,
        updated_at_ms: 6_000,
    }];
    rt.restore_from_records(&states, &guards);
    assert_eq!(rt.last_rebalance_ms, Some(6_000));
    assert_eq!(rt.history.len(), 1);
    assert_eq!(rt.engine.guard_state("BTC").streak_count, 2);
    assert_eq!(rt.trade_owner_portfolio_id("SOL", 7_000), Some("B".to_string()));
    assert!(!rt.maybe_rebalance_portfolios(&[], 7_000));
}
