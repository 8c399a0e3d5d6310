use hft_lead_lag::catalog::{
    prune_symbol_catalog_with_limits, serve_rows_from_cache, try_claim_catalog_prune,
    ROWS_CACHE_MIN_REBUILD_INTERVAL_MS, SYMBOL_CATALOG_PRUNE_INTERVAL_MS,
};
use hft_lead_lag::fingerprint::{file_fingerprint_changed, hash_content_deterministic, FileFingerprint};

fn keys(v: &[(String, i64)]) -> Vec<String> {
    v.iter().map(|e| e.0.clone()).collect()
}

#[test]
fn prune_symbol_catalog_with_limits_drops_stale_symbols() {
    let entries = vec![("STALE".to_string(), 1_000), ("FRESH".to_string(), 9_950)];
    let plan = prune_symbol_catalog_with_limits(&entries, 10_000, 500, 10);
    assert_eq!(plan.removed_count(), 1);
    assert_eq!(plan.stale, vec!["STALE".to_string()]);
    assert!(plan.evicted.is_empty());
}

#[test]
fn prune_symbol_catalog_with_limits_enforces_cardinality_cap() {
    let entries: Vec<(String, i64)> = (0..5).map(|idx| (format!("SYM{idx}"), 1_000 + idx)).collect();
    let plan = prune_symbol_catalog_with_limits(&entries, 2_000, 10_000, 3);
    assert_eq!(plan.removed_count(), 2);
    assert!(plan.stale.is_empty());
    assert_eq!(keys(&plan.evicted), vec!["SYM0".to_string(), "SYM1".to_string()]);
}

#[test]
fn prune_breaks_update_time_ties_by_symbol() {
    let entries = vec![
        ("ZED".to_string(), 5),
        ("ALPHA".to_string(), 5),
        ("MID".to_string(), 4),
        ("BETA".to_string(), 9),
    ];
    let plan = prune_symbol_catalog_with_limits(&entries, 6, 1_000, 1);
    assert_eq!(keys(&plan.evicted), vec!["MID".to_string(), "ALPHA".to_string(), "ZED".to_string()]);
}

#[test]
fn prune_never_marks_unstamped_symbols_stale_and_clamps_limits() {
    let entries = vec![("NEW".to_string(), 0), ("OLD".to_string(), 1), ("NOW".to_string(), 100)];
    // TTL 0 counts as 1 ms, cap 0 counts as one symbol.
    let plan = prune_symbol_catalog_with_limits(&entries, 100, 0, 0);
    assert_eq!(plan.stale, vec!["OLD".to_string()]);
    assert_eq!(keys(&plan.evicted), vec!["NEW".to_string()]);
}

#[test]
fn prune_of_small_fresh_catalog_removes_nothing() {
    let entries = vec![("A".to_string(), 10), ("B".to_string(), 20)];
    let plan = prune_symbol_catalog_with_limits(&entries, 30, 1_000, 2);
    assert_eq!(plan.removed_count(), 0);
}

#[test]
fn catalog_prune_claim_respects_interval() {
    let mut last = 0i64;
    assert!(try_claim_catalog_prune(&mut last, SYMBOL_CATALOG_PRUNE_INTERVAL_MS));
    assert_eq!(last, SYMBOL_CATALOG_PRUNE_INTERVAL_MS);
    assert!(!try_claim_catalog_prune(&mut last, 2 * SYMBOL_CATALOG_PRUNE_INTERVAL_MS - 1));
    assert_eq!(last, SYMBOL_CATALOG_PRUNE_INTERVAL_MS);
    assert!(try_claim_catalog_prune(&mut last, 2 * SYMBOL_CATALOG_PRUNE_INTERVAL_MS));
    assert_eq!(last, 2 * SYMBOL_CATALOG_PRUNE_INTERVAL_MS);
}

#[test]
fn rows_cache_served_when_clean_or_recently_rebuilt() {
    assert!(!serve_rows_from_cache(0, false, 0, 1_000));
    assert!(serve_rows_from_cache(3, false, 0, 1_000_000));
    assert!(serve_rows_from_cache(3, true, 1_000, 1_000 + ROWS_CACHE_MIN_REBUILD_INTERVAL_MS - 1));
    assert!(!serve_rows_from_cache(3, true, 1_000, 1_000 + ROWS_CACHE_MIN_REBUILD_INTERVAL_MS));
}

#[test]
fn fnv1a_hash_matches_reference_values() {
    assert_eq!(hash_content_deterministic(b""), 0xcbf29ce484222325);
    assert_eq!(hash_content_deterministic(b"a"), 0xaf63dc4c8601ec8c);
    assert_eq!(hash_content_deterministic(b"foobar"), 0x85944171f73967e8);
}

#[test]
fn fnv1a_hash_is_deterministic_and_content_sensitive() {
    let a = hash_content_deterministic(b"[binance]\nenabled = true\n");
    let b = hash_content_deterministic(b"[binance]\nenabled = true\n");
    let c = hash_content_deterministic(b"[binance]\nenabled = false\n");
    assert_eq!(a, b);
    assert_ne!(a, c);
}

#[test]
fn fingerprint_change_detection() {
    let fp = FileFingerprint { modified_ns: 1_700_000_000_000_000_000, len: 42, content_hash: 7 };
    let touched = FileFingerprint { modified_ns: fp.modified_ns + 1, ..fp };
    assert!(!file_fingerprint_changed(Some(fp), Some(fp)));
    assert!(file_fingerprint_changed(Some(fp), Some(touched)));
    assert!(file_fingerprint_changed(None, Some(fp)));
    assert!(!file_fingerprint_changed(Some(fp), None));
    assert!(!file_fingerprint_changed(None, None));
}
