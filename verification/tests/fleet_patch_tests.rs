use hft_lead_lag::fleet_patch::{
    collect_patch_match_stats, plan_fleet_resets, should_reset_symbol, validate_new_configs, validate_patch,
    ConfigFieldError, FleetPatchApplyError, FleetPatchMode, FleetPatchPlan, SymbolFleetView,
};
use std::collections::HashSet;

#[test]
fn full_replace_marks_all_symbols_for_reset() {
    let plan = FleetPatchPlan::new(FleetPatchMode::FullReplace, Vec::<u64>::new(), None::<Vec<String>>);
    assert!(should_reset_symbol(&plan, "BTCUSDT", false));
    assert!(should_reset_symbol(&plan, "ETHUSDT", true));
}

#[test]
fn incremental_only_resets_symbols_with_touched_configs() {
    let plan = FleetPatchPlan::new(FleetPatchMode::Incremental, vec![10_u64, 20_u64], None::<Vec<String>>);
    assert!(should_reset_symbol(&plan, "BTCUSDT", true));
    assert!(!should_reset_symbol(&plan, "BTCUSDT", false));
}

#[test]
fn incremental_with_symbol_scope_limits_resets() {
    let plan = FleetPatchPlan::new(FleetPatchMode::Incremental, vec![10_u64], Some(vec!["BTCUSDT".to_string()]));
    assert!(should_reset_symbol(&plan, "BTCUSDT", true));
    assert!(!should_reset_symbol(&plan, "ETHUSDT", true));
    assert!(!should_reset_symbol(&plan, "BTCUSDT", false));
}

#[test]
fn plan_new_normalizes_symbol_scope_to_uppercase_trimmed() {
    let plan = FleetPatchPlan::new(
        FleetPatchMode::Incremental,
        vec![42_u64],
        Some(vec![" btcusdt ".to_string(), "BTCUSDT".to_string(), "".to_string(), "   ".to_string()]),
    );
    assert!(plan.has_symbol_scope());
    assert_eq!(plan.symbol_scope_len(), 1);
    let scope: HashSet<String> = plan.symbol_scope.expect("scope").into_iter().collect();
    assert_eq!(scope, HashSet::from(["BTCUSDT".to_string()]));
}

#[test]
fn symbol_in_scope_is_case_insensitive_after_normalization() {
    let plan = FleetPatchPlan::new(
        FleetPatchMode::Incremental,
        vec![1_u64],
        Some(vec!["btcusdt".to_string(), "ethusdt".to_string()]),
    );
    assert!(plan.symbol_in_scope("BTCUSDT"));
    assert!(plan.symbol_in_scope("ethusdt"));
    assert!(!plan.symbol_in_scope("SOLUSDT"));
}

#[test]
fn plan_mode_names_and_changed_ids_are_deduplicated() {
    assert_eq!(FleetPatchMode::FullReplace.as_str(), "full_replace");
    assert_eq!(FleetPatchMode::Incremental.as_str(), "incremental");
    let plan = FleetPatchPlan::new(FleetPatchMode::Incremental, vec![5, 7, 5], None::<Vec<String>>);
    assert_eq!(plan.changed_config_ids, vec![5, 7]);
    assert!(plan.has_changed_configs());
    assert!(!plan.has_symbol_scope());
    assert!(!plan.symbol_in_scope("   "));
    assert!(plan.symbol_in_scope("anything"));
}

fn ok(id: u64) -> (Option<ConfigFieldError>, u64) {
    (None, id)
}

#[test]
fn fleet_patch_rejects_duplicate_config_ids() {
    let err = validate_new_configs(&[ok(1), ok(2), ok(1)]).expect_err("duplicate configs must be rejected");
    assert_eq!(err, FleetPatchApplyError::DuplicateConfigId { config_id: 1 });
}

#[test]
fn fleet_patch_rejects_invalid_trader_config() {
    let bad = ConfigFieldError { field: "stop_loss_bps", reason: "must be positive" };
    let err = validate_new_configs(&[ok(1), (Some(bad), 2)]).expect_err("invalid config must be rejected");
    assert_eq!(err, FleetPatchApplyError::InvalidConfig { index: 1, field: "stop_loss_bps", reason: "must be positive" });
}

#[test]
fn incremental_rejects_when_changed_ids_match_nothing() {
    let plan = FleetPatchPlan::new(FleetPatchMode::Incremental, vec![101], None::<Vec<String>>);
    let err = validate_patch(&plan, &[ok(1)], &[2]).expect_err("incremental patch should reject unmatched changed ids");
    assert_eq!(
        err,
        FleetPatchApplyError::IncrementalNoMatchedChangedConfigIds { changed_ids_requested: 1, scope_symbols_requested: 0 }
    );
}

#[test]
fn incremental_rejects_new_only_ids_without_symbol_scope() {
    let plan = FleetPatchPlan::new(FleetPatchMode::Incremental, vec![131, 132], None::<Vec<String>>);
    let err = validate_patch(&plan, &[ok(131), ok(132)], &[7]).expect_err("new-only ids without symbol scope must fail");
    assert_eq!(err, FleetPatchApplyError::IncrementalNewConfigIdsRequireSymbolScope { changed_ids_requested: 2 });
}

#[test]
fn incremental_requires_changed_ids() {
    let plan = FleetPatchPlan::new(FleetPatchMode::Incremental, vec![], None::<Vec<String>>);
    assert_eq!(validate_patch(&plan, &[ok(1)], &[1]), Err(FleetPatchApplyError::IncrementalMissingChangedConfigIds));
}

#[test]
fn incremental_matches_changed_ids_from_old_or_new_configs() {
    let plan = FleetPatchPlan::new(FleetPatchMode::Incremental, vec![91, 92], Some(vec!["BTCUSDT".to_string()]));
    let stats = validate_patch(&plan, &[ok(92), ok(93)], &[91]).expect("incremental patch should apply when ids match new configs");
    assert_eq!(stats.matched_changed_ids_old, 1);
    assert_eq!(stats.matched_changed_ids_new, 1);
    assert_eq!(stats.matched_changed_ids_any, 2);
    assert_eq!(stats.unmatched_changed_ids, 0);
    assert!(stats.has_new_only_changed_ids);
    assert_eq!(stats.scope_symbols_requested, 1);
}

#[test]
fn resets_follow_touched_configs_and_scope() {
    let plan = FleetPatchPlan::new(FleetPatchMode::Incremental, vec![51], None::<Vec<String>>);
    let stats = collect_patch_match_stats(&plan, &[51, 61], &[51, 61]);
    let symbols = vec![
        SymbolFleetView { symbol: "BTCUSDT".to_string(), fleet_config_ids: Some(vec![51]) },
        SymbolFleetView { symbol: "ETHUSDT".to_string(), fleet_config_ids: Some(vec![61]) },
        SymbolFleetView { symbol: "SOLUSDT".to_string(), fleet_config_ids: None },
    ];
    let (resets, count, matched) = plan_fleet_resets(&plan, &stats, &symbols);
    assert_eq!(resets, vec![true, false, false]);
    assert_eq!(count, 1);
    assert_eq!(matched, 0);

    let full = FleetPatchPlan::new(FleetPatchMode::FullReplace, vec![], None::<Vec<String>>);
    let stats = collect_patch_match_stats(&full, &[51, 61], &[]);
    let (resets, count, _) = plan_fleet_resets(&full, &stats, &symbols);
    assert_eq!(resets, vec![true, true, false]);
    assert_eq!(count, 2);
}

#[test]
fn new_only_ids_reset_every_in_scope_symbol() {
    let plan = FleetPatchPlan::new(FleetPatchMode::Incremental, vec![111, 121], Some(vec!["ethusdt".to_string()]));
    let stats = collect_patch_match_stats(&plan, &[111], &[111, 121]);
    assert!(stats.has_new_only_changed_ids);
    let symbols = vec![
        SymbolFleetView { symbol: "BTCUSDT".to_string(), fleet_config_ids: Some(vec![111]) },
        SymbolFleetView { symbol: "ETHUSDT".to_string(), fleet_config_ids: Some(vec![7]) },
    ];
    let (resets, count, matched) = plan_fleet_resets(&plan, &stats, &symbols);
    assert_eq!(resets, vec![false, true]);
    assert_eq!(count, 1);
    assert_eq!(matched, 1);
}

#[test]
fn blank_scope_entries_and_blank_symbols_never_match() {
    let plan = FleetPatchPlan::new(
        FleetPatchMode::Incremental,
        vec![10_u64],
        Some(vec!["   ".to_string(), "btcusdt".to_string()]),
    );
    assert!(!plan.symbol_in_scope("   "));
    assert!(!plan.symbol_in_scope(""));
    assert!(plan.symbol_in_scope(" BTCUSDT "));
    let unscoped = FleetPatchPlan::new(FleetPatchMode::FullReplace, Vec::<u64>::new(), None::<Vec<String>>);
    assert!(!unscoped.symbol_in_scope("\t"));
    assert!(unscoped.symbol_in_scope("ethusdt"));
}

#[test]
fn normalized_keys_are_matched_as_given() {
    let plan = FleetPatchPlan::new(FleetPatchMode::Incremental, vec![10_u64], Some(vec![" btcusdt ".to_string()]));
    assert!(plan.key_in_scope("BTCUSDT"));
    assert!(!plan.key_in_scope("btcusdt"));
    assert!(!plan.key_in_scope(""));
    let unscoped = FleetPatchPlan::new(FleetPatchMode::FullReplace, Vec::<u64>::new(), None::<Vec<String>>);
    assert!(unscoped.key_in_scope("ANY"));
    assert!(!unscoped.key_in_scope(""));
}
