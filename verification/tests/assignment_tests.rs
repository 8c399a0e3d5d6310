use hft_lead_lag::assignment::{assign_active_symbols, deal_shortlists};
use hft_lead_lag::portfolio::SymbolStatsV1;

fn strings(v: &[&str]) -> Vec<String> {
    v.iter().map(|s| s.to_string()).collect()
}

fn stats(symbol: &str) -> SymbolStatsV1 {
    SymbolStatsV1 {
        symbol: symbol.to_string(),
        age_minutes_from_first_tick: 10,
        closed_trades: 10,
        profitable_trades: 6,
        losing_trades: 4,
        avg_pnl_key: 1,
    }
}

#[test]
fn overlapping_shortlists_take_the_first_untaken_symbol_in_turn() {
    let shortlists = vec![strings(&["X", "Y"]), strings(&["X", "Z"])];
    let actives = assign_active_symbols(&shortlists);
    assert_eq!(actives, vec![strings(&["X", "Y"]), strings(&["Z"])]);
}

#[test]
fn overlapping_shortlists_fill_up_to_four_in_rounds() {
    let shortlists = vec![strings(&["A", "B", "C", "D", "E"]), strings(&["A", "B", "C", "D", "E"])];
    let actives = assign_active_symbols(&shortlists);
    assert_eq!(actives, vec![strings(&["A", "C", "E"]), strings(&["B", "D"])]);
}

#[test]
fn dealing_balances_sizes_and_covers_the_pool_prefix() {
    let pool: Vec<SymbolStatsV1> = ["S0", "S1", "S2", "S3", "S4", "S5", "S6"].iter().map(|s| stats(s)).collect();
    let shortlists = deal_shortlists(&pool, 3);
    assert_eq!(shortlists, vec![strings(&["S0", "S3", "S6"]), strings(&["S1", "S4"]), strings(&["S2", "S5"])]);
    let total: usize = shortlists.iter().map(|s| s.len()).sum();
    assert_eq!(total, 7);
}
