use hft_lead_lag::portfolio::{PortfolioEngineV1, PortfolioStateV1};
use hft_lead_lag::records::{guard_records, last_rebalance_ms, restore_assignment, restore_guards, state_records};

#[test]
fn guard_records_round_trip_through_restore() {
    let mut engine = PortfolioEngineV1::new();
    engine.record_closed_trade("SOL", false, true, 10);
    engine.record_closed_trade("BTC", false, true, 20);
    let records = guard_records(&engine, 777);
    assert_eq!(records.len(), 2);
    assert_eq!(records[0].symbol, "BTC");
    assert!(records.iter().all(|r| r.updated_at_ms == 777));
    let mut restored = PortfolioEngineV1::new();
    restore_guards(&mut restored, &records);
    assert_eq!(restored.guard_states(), engine.guard_states());
}

#[test]
fn assignment_round_trips_and_missing_ids_restore_empty() {
    let states = vec![
        ("A".to_string(), PortfolioStateV1 { shortlist: vec!["BTC".into(), "ETH".into()], active_symbols: vec!["BTC".into()] }),
        ("B".to_string(), PortfolioStateV1 { shortlist: vec!["SOL".into()], active_symbols: vec!["SOL".into()] }),
    ];
    let records = state_records(&states, 5);
    let restored = restore_assignment(&["A".to_string(), "B".to_string(), "C".to_string()], &records);
    assert_eq!(restored[0], states[0]);
    assert_eq!(restored[1], states[1]);
    assert_eq!(restored[2].1, PortfolioStateV1 { shortlist: vec![], active_symbols: vec![] });
    assert_eq!(last_rebalance_ms(&records, &[]), Some(5));
    assert_eq!(last_rebalance_ms(&[], &[]), None);
}
