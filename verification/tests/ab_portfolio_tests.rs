use hft_lead_lag::ab_portfolio::{PortfolioEngineV1, PortfolioId};
use hft_lead_lag::portfolio::SymbolStatsV1;

fn stats(symbol: &str, closed: u32, profitable: u32, losing: u32, avg_pnl_key: i64) -> SymbolStatsV1 {
    SymbolStatsV1 {
        symbol: symbol.to_string(),
        age_minutes_from_first_tick: 60,
        closed_trades: closed,
        profitable_trades: profitable,
        losing_trades: losing,
        avg_pnl_key,
    }
}

fn names(v: &[&str]) -> Vec<String> {
    v.iter().map(|s| s.to_string()).collect()
}

#[test]
fn ab_disjoint_candidates_keep_their_first_four() {
    let engine = PortfolioEngineV1::new();
    let a: Vec<SymbolStatsV1> = ["A1", "A2", "A3", "A4", "A5", "A6"]
        .iter()
        .enumerate()
        .map(|(i, s)| stats(s, 10, 9 - i as u32, 1, 5))
        .collect();
    let b = vec![stats("B1", 10, 8, 2, 5), stats("B2", 10, 7, 3, 5)];
    let states = engine.assign_without_overlap(&a, &b, 1_000);
    assert_eq!(states.get(PortfolioId::A).shortlist, names(&["A1", "A2", "A3", "A4", "A5"]));
    assert_eq!(states.a.active_symbols, names(&["A1", "A2", "A3", "A4"]));
    assert_eq!(states.get(PortfolioId::B).shortlist, names(&["B1", "B2"]));
    assert_eq!(states.b.active_symbols, names(&["B1", "B2"]));
}

#[test]
fn ab_contested_symbol_goes_to_better_ranked_claim() {
    let engine = PortfolioEngineV1::new();
    // B sees BTC with a higher win rate than A does.
    let a = vec![stats("BTC", 10, 5, 5, 1), stats("ETH", 10, 4, 6, 1)];
    let b = vec![stats("BTC", 10, 9, 1, 1)];
    let states = engine.assign_without_overlap(&a, &b, 1_000);
    assert_eq!(states.a.shortlist, names(&["BTC", "ETH"]));
    assert_eq!(states.a.active_symbols, names(&["ETH"]));
    assert_eq!(states.b.active_symbols, names(&["BTC"]));

    // With a worse claim, B gets nothing.
    let b_worse = vec![stats("BTC", 10, 4, 6, 1)];
    let states = engine.assign_without_overlap(&a, &b_worse, 1_000);
    assert_eq!(states.a.active_symbols, names(&["BTC", "ETH"]));
    assert!(states.b.active_symbols.is_empty());
    assert_eq!(states.b.shortlist, names(&["BTC"]));
}

#[test]
fn ab_tied_claim_is_balanced_by_owned_counts() {
    let engine = PortfolioEngineV1::new();
    let same = stats("BTC", 10, 6, 4, 1);
    // A owns two symbols, B none: the tie goes to B.
    let a = vec![same.clone(), stats("ETH", 10, 5, 5, 1)];
    let b = vec![same.clone()];
    let states = engine.assign_without_overlap(&a, &b, 1_000);
    assert_eq!(states.a.active_symbols, names(&["ETH"]));
    assert_eq!(states.b.active_symbols, names(&["BTC"]));

    // A owns one symbol, B already owns one: the tie stays with A.
    let a = vec![same.clone()];
    let b = vec![stats("SOL", 10, 9, 1, 1), same];
    let states = engine.assign_without_overlap(&a, &b, 1_000);
    assert_eq!(states.a.active_symbols, names(&["BTC"]));
    assert_eq!(states.b.active_symbols, names(&["SOL"]));
}

#[test]
fn ab_cooldown_removes_symbol_from_shortlists() {
    let mut engine = PortfolioEngineV1::new();
    for k in 0..5 {
        let triggered = engine.record_closed_trade("BTC", false, true, 1_000 + k);
        assert_eq!(triggered, k == 4);
    }
    let a = vec![stats("BTC", 10, 9, 1, 1), stats("ETH", 10, 5, 5, 1)];
    let states = engine.assign_without_overlap(&a, &[], 2_000);
    assert_eq!(states.a.shortlist, names(&["ETH"]));
    assert_eq!(engine.guard_state("BTC").cooldown_until_ms, Some(1_004 + 300_000));
    let states = engine.assign_without_overlap(&a, &[], 1_004 + 300_000);
    assert_eq!(states.a.shortlist, names(&["BTC", "ETH"]));
    assert_eq!(engine.guard_states().len(), 1);
}

#[test]
fn ab_ineligible_candidates_are_not_shortlisted() {
    let engine = PortfolioEngineV1::new();
    let young = SymbolStatsV1 { age_minutes_from_first_tick: 3, ..stats("NEW", 10, 9, 1, 1) };
    let states = engine.assign_without_overlap(&[young], &[stats("OLD", 10, 9, 1, 1)], 0);
    assert!(states.a.shortlist.is_empty());
    assert_eq!(states.b.active_symbols, names(&["OLD"]));
}
