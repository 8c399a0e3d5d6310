//! Fleet configuration patches: which symbols a patch resets, how its changed
//! config ids match the old and new fleets, and when a patch is refused.

use vstd::prelude::*;
use std::collections::HashSet;
use crate::text::{trimmed, uppercased, trim_str, to_uppercase_str, strings_view, contains_str};

verus! {

broadcast use vstd::std_specs::hash::group_hash_axioms;

/// How a patch replaces the fleet configs.
#[derive(Debug, Clone, Copy, PartialEq, Eq)]
pub enum FleetPatchMode {
    FullReplace,
    Incremental,
}

impl FleetPatchMode {
    /// Wire name of the mode.
    pub fn as_str(self) -> (r: &'static str)
        ensures
            r@ == (match self { FleetPatchMode::FullReplace => "full_replace"@, FleetPatchMode::Incremental => "incremental"@ }),
    {
        match self {
            FleetPatchMode::FullReplace => "full_replace",
            FleetPatchMode::Incremental => "incremental",
        }
    }
}

/// Normalised symbol key: trimmed and uppercased; `None` when blank.
pub open spec fn symbol_key(symbol: Seq<char>) -> Option<Seq<char>> {
    let n = uppercased(trimmed(symbol));
    if n.len() == 0 { None } else { Some(n) }
}

/// Normalises a symbol (see [`symbol_key`]).
pub fn normalize_symbol_key(symbol: &str) -> (r: Option<String>)
    ensures
        match symbol_key(symbol@) {
            Some(k) => r is Some && r->0@ == k,
            None => r is None,
        },
        r is None <==> trimmed(symbol@).len() == 0,
{
    let normalized = to_uppercase_str(trim_str(symbol));
    if normalized.as_str().is_empty() {
        None
    } else {
        Some(normalized)
    }
}

/// Ids in first-seen order without repeats.
pub open spec fn dedup_ids(ids: Seq<u64>) -> Seq<u64>
    decreases ids.len(),
{
    if ids.len() == 0 {
        Seq::empty()
    } else {
        let acc = dedup_ids(ids.drop_last());
        if acc.contains(ids.last()) { acc } else { acc.push(ids.last()) }
    }
}

/// Normalised symbol keys of `raw` in first-seen order, blanks dropped,
/// without repeats.
pub open spec fn normalized_scope(raw: Seq<Seq<char>>) -> Seq<Seq<char>>
    decreases raw.len(),
{
    if raw.len() == 0 {
        Seq::empty()
    } else {
        let acc = normalized_scope(raw.drop_last());
        match symbol_key(raw.last()) {
            Some(k) => if acc.contains(k) { acc } else { acc.push(k) },
            None => acc,
        }
    }
}

/// A fleet patch: its mode, the config ids it changes (no repeats) and an
/// optional scope of normalised symbols (no repeats).
#[derive(Debug, Clone)]
pub struct FleetPatchPlan {
    pub mode: FleetPatchMode,
    pub changed_config_ids: Vec<u64>,
    pub symbol_scope: Option<Vec<String>>,
}

/// The scope of a plan as normalised keys, if it has one.
pub open spec fn scope_view(scope: Option<Vec<String>>) -> Option<Seq<Seq<char>>> {
    match scope {
        Some(v) => Some(strings_view(v@)),
        None => None,
    }
}

impl FleetPatchPlan {
    /// Builds a plan: changed ids without repeats; the scope normalised
    /// (trimmed, uppercased, blanks dropped, no repeats).
    pub fn new(mode: FleetPatchMode, changed_config_ids: Vec<u64>, symbol_scope: Option<Vec<String>>) -> (p: Self)
        ensures
            p.mode == mode,
            p.changed_config_ids@ == dedup_ids(changed_config_ids@),
            scope_view(p.symbol_scope) == (match symbol_scope {
                Some(v) => Some(normalized_scope(strings_view(v@))),
                None => None,
            }),
    {
        let mut ids: Vec<u64> = Vec::new();
        let mut seen: HashSet<u64> = HashSet::new();
        let n = changed_config_ids.len();
        let mut i: usize = 0;
        while i < n
            invariant
                n == changed_config_ids@.len(),
                i <= n,
                ids@ == dedup_ids(changed_config_ids@.subrange(0, i as int)),
                forall|x: u64| seen@.contains(x) <==> ids@.contains(x),
            decreases n - i,
        {
            let x = changed_config_ids[i];
            proof {
                let r = changed_config_ids@.subrange(0, i + 1);
                assert(r.drop_last() =~= changed_config_ids@.subrange(0, i as int));
                assert(r.last() == x);
            }
            let ghost old_seen = seen@;
            let ghost old_ids = ids@;
            if seen.insert(x) {
                ids.push(x);
                proof {
                    broadcast use vstd::seq_lib::lemma_seq_contains_after_push;
                    assert forall|y: u64| seen@.contains(y) <==> ids@.contains(y) by {
                        assert(ids@ == old_ids.push(x));
                    }
                }
            } else {
                proof {
                    assert(seen@ =~= old_seen);
                }
            }
            i = i + 1;
        }
        proof {
            assert(changed_config_ids@.subrange(0, n as int) =~= changed_config_ids@);
        }
        let scope = match symbol_scope {
            None => None,
            Some(raw) => Some(normalize_scope(&raw)),
        };
        FleetPatchPlan { mode, changed_config_ids: ids, symbol_scope: scope }
    }

    /// Whether the plan names changed config ids.
    pub fn has_changed_configs(&self) -> (r: bool)
        ensures
            r == (self.changed_config_ids@.len() > 0),
    {
        self.changed_config_ids.len() > 0
    }

    /// Whether the plan has a non-empty symbol scope.
    pub fn has_symbol_scope(&self) -> (r: bool)
        ensures
            r == (match self.symbol_scope { Some(v) => v@.len() > 0, None => false }),
    {
        match &self.symbol_scope {
            Some(v) => v.len() > 0,
            None => false,
        }
    }

    /// Number of symbols in scope (0 without a scope).
    pub fn symbol_scope_len(&self) -> (r: usize)
        ensures
            r == (match self.symbol_scope { Some(v) => v@.len(), None => 0 }),
    {
        match &self.symbol_scope {
            Some(v) => v.len(),
            None => 0,
        }
    }

    /// Whether `symbol` is in scope: a blank symbol never is; without a scope
    /// every other symbol is; else its normalised key must be in the scope.
    pub fn symbol_in_scope(&self, symbol: &str) -> (r: bool)
        ensures
            r == spec_symbol_in_scope(scope_view(self.symbol_scope), symbol@),
            r == (trimmed(symbol@).len() > 0 && match scope_view(self.symbol_scope) {
                None => true,
                Some(s) => s.contains(uppercased(trimmed(symbol@))),
            }),
    {
        match normalize_symbol_key(symbol) {
            None => false,
            Some(key) => self.key_in_scope(key.as_str()),
        }
    }

    /// Whether a symbol key already trimmed and uppercased is in scope: a
    /// blank key never is; without a scope every other key is; else it must
    /// be one of the scope's keys.
    pub fn key_in_scope(&self, key: &str) -> (r: bool)
        ensures
            r == (key@.len() > 0 && match scope_view(self.symbol_scope) {
                None => true,
                Some(s) => s.contains(key@),
            }),
    {
        if key.is_empty() {
            return false;
        }
        match &self.symbol_scope {
            None => true,
            Some(scope) => contains_str(scope, key),
        }
    }
}

/// Whether `symbol` is in a (normalised) scope; see [`FleetPatchPlan::symbol_in_scope`].
pub open spec fn spec_symbol_in_scope(scope: Option<Seq<Seq<char>>>, symbol: Seq<char>) -> bool {
    match symbol_key(symbol) {
        None => false,
        Some(k) => match scope {
            None => true,
            Some(s) => s.contains(k),
        },
    }
}

/// Normalises a symbol scope (see [`normalized_scope`]).
fn normalize_scope(raw: &Vec<String>) -> (r: Vec<String>)
    ensures
        strings_view(r@) == normalized_scope(strings_view(raw@)),
{
    let ghost rv = strings_view(raw@);
    let mut out: Vec<String> = Vec::new();
    let n = raw.len();
    let mut i: usize = 0;
    while i < n
        invariant
            n == raw@.len(),
            rv == strings_view(raw@),
            i <= n,
            strings_view(out@) == normalized_scope(rv.subrange(0, i as int)),
        decreases n - i,
    {
        proof {
            let r = rv.subrange(0, i + 1);
            assert(r.drop_last() =~= rv.subrange(0, i as int));
            assert(r.last() == raw@[i as int]@);
        }
        match normalize_symbol_key(raw[i].as_str()) {
            None => {},
            Some(key) => {
                if !contains_str(&out, key.as_str()) {
                    out.push(key);
                    proof {
                        assert(strings_view(out@) =~= strings_view(out@.drop_last()).push(out@.last()@));
                    }
                }
            },
        }
        i = i + 1;
    }
    proof {
        assert(rv.subrange(0, n as int) =~= rv);
    }
    out
}

/// Whether a symbol's fleet must be reset: always on a full replace; on an
/// incremental patch when it has touched configs and is in scope.
pub fn should_reset_symbol(plan: &FleetPatchPlan, symbol: &str, symbol_has_touched_configs: bool) -> (r: bool)
    ensures
        r == (match plan.mode {
            FleetPatchMode::FullReplace => true,
            FleetPatchMode::Incremental => symbol_has_touched_configs && spec_symbol_in_scope(scope_view(plan.symbol_scope), symbol@),
        }),
{
    match plan.mode {
        FleetPatchMode::FullReplace => true,
        FleetPatchMode::Incremental => symbol_has_touched_configs && plan.symbol_in_scope(symbol),
    }
}

/// How the changed ids of a plan match the old and new fleets.
#[derive(Debug, Clone, Copy, PartialEq, Eq)]
pub struct FleetPatchMatchStats {
    pub changed_ids_requested: usize,
    pub matched_changed_ids_old: usize,
    pub matched_changed_ids_new: usize,
    pub matched_changed_ids_any: usize,
    pub unmatched_changed_ids: usize,
    pub has_new_only_changed_ids: bool,
    pub scope_symbols_requested: usize,
}

impl FleetPatchMatchStats {
    /// Whether some changed id occurs in the old or the new fleet.
    pub fn has_any_match(&self) -> (r: bool)
        ensures
            r == (self.matched_changed_ids_any > 0),
    {
        self.matched_changed_ids_any > 0
    }
}

/// Number of `ids` that satisfy `p`.
pub open spec fn count_where(ids: Seq<u64>, p: spec_fn(u64) -> bool) -> nat
    decreases ids.len(),
{
    if ids.len() == 0 { 0 } else { count_where(ids.drop_last(), p) + if p(ids.last()) { 1nat } else { 0nat } }
}

proof fn lemma_count_where_bound(ids: Seq<u64>, p: spec_fn(u64) -> bool)
    ensures
        count_where(ids, p) <= ids.len(),
    decreases ids.len(),
{
    if ids.len() > 0 {
        lemma_count_where_bound(ids.drop_last(), p);
    }
}

/// The match statistics of changed ids against the config ids of the old
/// fleets and of the new configs.
pub open spec fn spec_match_stats(changed: Seq<u64>, scope_len: nat, old_ids: Seq<u64>, new_ids: Seq<u64>) -> FleetPatchMatchStats {
    let any = count_where(changed, |x: u64| old_ids.contains(x) || new_ids.contains(x));
    FleetPatchMatchStats {
        changed_ids_requested: changed.len() as usize,
        matched_changed_ids_old: count_where(changed, |x: u64| old_ids.contains(x)) as usize,
        matched_changed_ids_new: count_where(changed, |x: u64| new_ids.contains(x)) as usize,
        matched_changed_ids_any: any as usize,
        unmatched_changed_ids: (changed.len() - any) as usize,
        has_new_only_changed_ids: exists|i: int| 0 <= i < changed.len() && new_ids.contains(#[trigger] changed[i]) && !old_ids.contains(changed[i]),
        scope_symbols_requested: scope_len as usize,
    }
}

fn id_set(ids: &[u64]) -> (r: HashSet<u64>)
    ensures
        forall|x: u64| r@.contains(x) <==> ids@.contains(x),
{
    let mut set: HashSet<u64> = HashSet::new();
    let n = ids.len();
    let mut i: usize = 0;
    while i < n
        invariant
            n == ids@.len(),
            i <= n,
            forall|x: u64| set@.contains(x) <==> ids@.subrange(0, i as int).contains(x),
        decreases n - i,
    {
        let ghost before = set@;
        set.insert(ids[i]);
        proof {
            assert forall|x: u64| set@.contains(x) <==> ids@.subrange(0, i + 1).contains(x) by {
                assert(ids@.subrange(0, i + 1) =~= ids@.subrange(0, i as int).push(ids@[i as int]));
                vstd::seq_lib::lemma_seq_contains_after_push(ids@.subrange(0, i as int), ids@[i as int], x);
            }
        }
        i = i + 1;
    }
    proof {
        assert(ids@.subrange(0, n as int) =~= ids@);
    }
    set
}

/// Match statistics of a plan's changed ids (see [`spec_match_stats`]).
pub fn collect_patch_match_stats(plan: &FleetPatchPlan, old_ids: &[u64], new_ids: &[u64]) -> (st: FleetPatchMatchStats)
    ensures
        st == spec_match_stats(plan.changed_config_ids@, match plan.symbol_scope { Some(v) => v@.len(), None => 0 }, old_ids@, new_ids@),
{
    let old_set = id_set(old_ids);
    let new_set = id_set(new_ids);
    let ghost changed = plan.changed_config_ids@;
    let ghost p_old = |x: u64| old_ids@.contains(x);
    let ghost p_new = |x: u64| new_ids@.contains(x);
    let ghost p_any = |x: u64| old_ids@.contains(x) || new_ids@.contains(x);
    let n = plan.changed_config_ids.len();
    let mut in_old: usize = 0;
    let mut in_new: usize = 0;
    let mut in_any: usize = 0;
    let mut new_only = false;
    let mut i: usize = 0;
    while i < n
        invariant
            n == changed.len(),
            changed == plan.changed_config_ids@,
            forall|x: u64| old_set@.contains(x) <==> old_ids@.contains(x),
            forall|x: u64| new_set@.contains(x) <==> new_ids@.contains(x),
            i <= n,
            p_old == (|x: u64| old_ids@.contains(x)),
            p_new == (|x: u64| new_ids@.contains(x)),
            p_any == (|x: u64| old_ids@.contains(x) || new_ids@.contains(x)),
            in_old == count_where(changed.subrange(0, i as int), p_old),
            in_new == count_where(changed.subrange(0, i as int), p_new),
            in_any == count_where(changed.subrange(0, i as int), p_any),
            new_only == exists|j: int| 0 <= j < i && new_ids@.contains(#[trigger] changed[j]) && !old_ids@.contains(changed[j]),
        decreases n - i,
    {
        let id = plan.changed_config_ids[i];
        let o = old_set.contains(&id);
        let w = new_set.contains(&id);
        proof {
            let r = changed.subrange(0, i + 1);
            assert(r.drop_last() =~= changed.subrange(0, i as int));
            assert(r.last() == id);
            lemma_count_where_bound(changed.subrange(0, i as int), p_old);
            lemma_count_where_bound(changed.subrange(0, i as int), p_new);
            lemma_count_where_bound(changed.subrange(0, i as int), p_any);
            assert(o == old_ids@.contains(id));
            assert(w == new_ids@.contains(id));
            assert(p_old(id) == o);
            assert(p_new(id) == w);
            assert(p_any(id) == (o || w));
        }
        if o {
            in_old = in_old + 1;
        }
        if w {
            in_new = in_new + 1;
        }
        if o || w {
            in_any = in_any + 1;
        }
        if w && !o {
            new_only = true;
        }
        i = i + 1;
    }
    proof {
        assert(changed.subrange(0, n as int) =~= changed);
        lemma_count_where_bound(changed, p_any);
    }
    FleetPatchMatchStats {
        changed_ids_requested: n,
        matched_changed_ids_old: in_old,
        matched_changed_ids_new: in_new,
        matched_changed_ids_any: in_any,
        unmatched_changed_ids: n - in_any,
        has_new_only_changed_ids: new_only,
        scope_symbols_requested: plan.symbol_scope_len(),
    }
}

/// Why a fleet patch was refused.
#[derive(Debug, Clone, Copy, PartialEq, Eq)]
pub enum FleetPatchApplyError {
    IncrementalMissingChangedConfigIds,
    IncrementalNewConfigIdsRequireSymbolScope { changed_ids_requested: usize },
    IncrementalNoMatchedChangedConfigIds { changed_ids_requested: usize, scope_symbols_requested: usize },
    InvalidConfig { index: usize, field: &'static str, reason: &'static str },
    DuplicateConfigId { config_id: u64 },
}

/// A field of a trader config that failed validation.
#[derive(Debug, Clone, Copy, PartialEq, Eq)]
pub struct ConfigFieldError {
    pub field: &'static str,
    pub reason: &'static str,
}

/// Config ids of a batch of checked configs.
pub open spec fn batch_ids(configs: Seq<(Option<ConfigFieldError>, u64)>) -> Seq<u64> {
    configs.map_values(|c: (Option<ConfigFieldError>, u64)| c.1)
}

/// Whether config `j` of a batch is refused: it failed validation or its id
/// occurred earlier in the batch.
pub open spec fn config_refused(configs: Seq<(Option<ConfigFieldError>, u64)>, j: int) -> bool {
    configs[j].0 is Some || batch_ids(configs).subrange(0, j).contains(configs[j].1)
}

/// The error for refused config `j`.
pub open spec fn config_error(configs: Seq<(Option<ConfigFieldError>, u64)>, j: int) -> FleetPatchApplyError {
    match configs[j].0 {
        Some(e) => FleetPatchApplyError::InvalidConfig { index: j as usize, field: e.field, reason: e.reason },
        None => FleetPatchApplyError::DuplicateConfigId { config_id: configs[j].1 },
    }
}

/// Checks a batch of new configs, each given with its validation outcome and
/// config id: the first refused config (see [`config_refused`]) gives the error.
pub fn validate_new_configs(configs: &[(Option<ConfigFieldError>, u64)]) -> (r: Result<(), FleetPatchApplyError>)
    ensures
        r is Ok <==> forall|j: int| 0 <= j < configs@.len() ==> !config_refused(configs@, j),
        r is Err ==> exists|j: int| 0 <= j < configs@.len()
            && (forall|k: int| 0 <= k < j ==> !config_refused(configs@, k))
            && config_refused(configs@, j)
            && r == Err::<(), FleetPatchApplyError>(config_error(configs@, j)),
{
    let mut seen: HashSet<u64> = HashSet::new();
    let n = configs.len();
    let mut i: usize = 0;
    while i < n
        invariant
            n == configs@.len(),
            i <= n,
            forall|k: int| 0 <= k < i ==> !config_refused(configs@, k),
            forall|x: u64| seen@.contains(x) <==> batch_ids(configs@).subrange(0, i as int).contains(x),
        decreases n - i,
    {
        let (check, config_id) = configs[i];
        proof {
            assert(check == configs@[i as int].0);
            assert(config_id == configs@[i as int].1);
            assert(batch_ids(configs@)[i as int] == config_id);
        }
        match check {
            Some(e) => {
                proof {
                    assert(config_refused(configs@, i as int));
                }
                return Err(FleetPatchApplyError::InvalidConfig { index: i, field: e.field, reason: e.reason });
            },
            None => {},
        }
        let ghost before = seen@;
        if !seen.insert(config_id) {
            proof {
                assert(config_refused(configs@, i as int));
            }
            return Err(FleetPatchApplyError::DuplicateConfigId { config_id });
        }
        proof {
            assert forall|x: u64| seen@.contains(x) <==> batch_ids(configs@).subrange(0, i + 1).contains(x) by {
                assert(batch_ids(configs@).subrange(0, i + 1) =~= batch_ids(configs@).subrange(0, i as int).push(config_id));
                vstd::seq_lib::lemma_seq_contains_after_push(batch_ids(configs@).subrange(0, i as int), config_id, x);
            }
        }
        i = i + 1;
    }
    Ok(())
}

/// The refusal of a plan given its match statistics, if any: an incremental
/// patch needs changed ids, needs one of them to match, and needs a symbol
/// scope when some changed id is new only.
pub open spec fn spec_plan_refusal(plan_mode: FleetPatchMode, changed_len: nat, scope_nonempty: bool, st: FleetPatchMatchStats) -> Option<FleetPatchApplyError> {
    match plan_mode {
        FleetPatchMode::FullReplace => None,
        FleetPatchMode::Incremental => {
            if changed_len == 0 {
                Some(FleetPatchApplyError::IncrementalMissingChangedConfigIds)
            } else if st.matched_changed_ids_any == 0 {
                Some(FleetPatchApplyError::IncrementalNoMatchedChangedConfigIds {
                    changed_ids_requested: st.changed_ids_requested,
                    scope_symbols_requested: st.scope_symbols_requested,
                })
            } else if st.has_new_only_changed_ids && !scope_nonempty {
                Some(FleetPatchApplyError::IncrementalNewConfigIdsRequireSymbolScope {
                    changed_ids_requested: st.changed_ids_requested,
                })
            } else {
                None
            }
        },
    }
}

/// Whether some config of the batch fails validation.
pub open spec fn some_config_invalid(configs: Seq<(Option<ConfigFieldError>, u64)>) -> bool {
    exists|j: int| 0 <= j < configs.len() && (#[trigger] configs[j]).0 is Some
}

/// Whether two configs of the batch share a config id.
pub open spec fn some_id_repeated(configs: Seq<(Option<ConfigFieldError>, u64)>) -> bool {
    exists|i: int, j: int| 0 <= i < j < configs.len() && (#[trigger] configs[i]).1 == (#[trigger] configs[j]).1
}

/// The refusal condition of a patch, phrased over the ids themselves: a
/// refused config; or, for an incremental patch, no changed ids, no changed
/// id held by the old fleets or the new configs, or a changed id held only by
/// the new configs while no symbol scope is given.
pub open spec fn patch_refused(
    mode: FleetPatchMode,
    changed: Seq<u64>,
    scope_nonempty: bool,
    configs: Seq<(Option<ConfigFieldError>, u64)>,
    old_ids: Seq<u64>,
) -> bool {
    let new_ids = batch_ids(configs);
    ||| some_config_invalid(configs)
    ||| some_id_repeated(configs)
    ||| mode == FleetPatchMode::Incremental && {
        ||| changed.len() == 0
        ||| forall|i: int| 0 <= i < changed.len() ==> !old_ids.contains(#[trigger] changed[i]) && !new_ids.contains(changed[i])
        ||| (exists|i: int| 0 <= i < changed.len() && new_ids.contains(#[trigger] changed[i]) && !old_ids.contains(changed[i]))
            && !scope_nonempty
    }
}

proof fn lemma_count_where_zero(ids: Seq<u64>, p: spec_fn(u64) -> bool)
    ensures
        count_where(ids, p) == 0 <==> forall|i: int| 0 <= i < ids.len() ==> !p(#[trigger] ids[i]),
    decreases ids.len(),
{
    if ids.len() > 0 {
        lemma_count_where_zero(ids.drop_last(), p);
        let d = ids.drop_last();
        if count_where(ids, p) == 0 {
            assert forall|i: int| 0 <= i < ids.len() implies !p(#[trigger] ids[i]) by {
                if i < d.len() {
                    assert(ids[i] == d[i]);
                }
            }
        } else {
            if forall|i: int| 0 <= i < ids.len() ==> !p(#[trigger] ids[i]) {
                assert forall|i: int| 0 <= i < d.len() implies !p(#[trigger] d[i]) by {
                    assert(ids[i] == d[i]);
                }
                assert(!p(ids[ids.len() - 1]));
            }
        }
    }
}

proof fn lemma_configs_refused(configs: Seq<(Option<ConfigFieldError>, u64)>)
    ensures
        (exists|j: int| 0 <= j < configs.len() && config_refused(configs, j))
            <==> (some_config_invalid(configs) || some_id_repeated(configs)),
{
    let ids = batch_ids(configs);
    if exists|j: int| 0 <= j < configs.len() && config_refused(configs, j) {
        let j = choose|j: int| 0 <= j < configs.len() && config_refused(configs, j);
        if configs[j].0 is Some {
            assert(some_config_invalid(configs));
        } else {
            assert(ids.subrange(0, j).contains(configs[j].1));
            let i = choose|i: int| 0 <= i < ids.subrange(0, j).len() && ids.subrange(0, j)[i] == configs[j].1;
            assert(ids[i] == configs[i].1);
            assert(configs[i].1 == configs[j].1);
            assert(some_id_repeated(configs));
        }
    }
    if some_config_invalid(configs) {
        let j = choose|j: int| 0 <= j < configs.len() && (#[trigger] configs[j]).0 is Some;
        assert(config_refused(configs, j));
    }
    if some_id_repeated(configs) {
        let (i, j) = choose|i: int, j: int| 0 <= i < j < configs.len() && (#[trigger] configs[i]).1 == (#[trigger] configs[j]).1;
        assert(ids.subrange(0, j)[i] == configs[i].1);
        assert(ids.subrange(0, j).contains(configs[j].1));
        assert(config_refused(configs, j));
    }
}

/// A patch is refused exactly on the condition [`patch_refused`]: the
/// refusals of [`validate_new_configs`] and [`spec_plan_refusal`] together are
/// that any/all condition over the changed, old and new ids.
pub proof fn lemma_patch_refusal_condition(
    mode: FleetPatchMode,
    changed: Seq<u64>,
    scope_len: nat,
    scope_nonempty: bool,
    configs: Seq<(Option<ConfigFieldError>, u64)>,
    old_ids: Seq<u64>,
)
    requires
        changed.len() <= usize::MAX,
    ensures
        ((exists|j: int| 0 <= j < configs.len() && config_refused(configs, j))
            || spec_plan_refusal(mode, changed.len(), scope_nonempty,
                spec_match_stats(changed, scope_len, old_ids, batch_ids(configs))) is Some)
        <==> patch_refused(mode, changed, scope_nonempty, configs, old_ids),
{
    let new_ids = batch_ids(configs);
    lemma_configs_refused(configs);
    let p_any = |x: u64| old_ids.contains(x) || new_ids.contains(x);
    lemma_count_where_zero(changed, p_any);
    assert((count_where(changed, p_any) == 0) <==> forall|i: int| 0 <= i < changed.len() ==> !old_ids.contains(#[trigger] changed[i]) && !new_ids.contains(changed[i])) by {
        if count_where(changed, p_any) == 0 {
            assert forall|i: int| 0 <= i < changed.len() implies !old_ids.contains(#[trigger] changed[i]) && !new_ids.contains(changed[i]) by {
                assert(!p_any(changed[i]));
            }
        } else {
            if forall|i: int| 0 <= i < changed.len() ==> !old_ids.contains(#[trigger] changed[i]) && !new_ids.contains(changed[i]) {
                assert forall|i: int| 0 <= i < changed.len() implies !p_any(#[trigger] changed[i]) by {
                    assert(!old_ids.contains(changed[i]) && !new_ids.contains(changed[i]));
                }
            }
        }
    }
    lemma_count_where_bound(changed, p_any);
}

/// Validates a patch: the new configs first (see [`validate_new_configs`]),
/// then the plan against the match statistics of its changed ids
/// (see [`spec_plan_refusal`]). Returns the statistics when accepted.
pub fn validate_patch(plan: &FleetPatchPlan, configs: &[(Option<ConfigFieldError>, u64)], old_ids: &[u64]) -> (r: Result<FleetPatchMatchStats, FleetPatchApplyError>)
    ensures
        ({
            let st = spec_match_stats(plan.changed_config_ids@, match plan.symbol_scope { Some(v) => v@.len(), None => 0 }, old_ids@, batch_ids(configs@));
            let configs_ok = forall|j: int| 0 <= j < configs@.len() ==> !config_refused(configs@, j);
            let refusal = spec_plan_refusal(plan.mode, plan.changed_config_ids@.len(),
                match plan.symbol_scope { Some(v) => v@.len() > 0, None => false }, st);
            &&& !configs_ok ==> exists|j: int| 0 <= j < configs@.len()
                && (forall|k: int| 0 <= k < j ==> !config_refused(configs@, k))
                && config_refused(configs@, j)
                && r == Err::<FleetPatchMatchStats, FleetPatchApplyError>(config_error(configs@, j))
            &&& configs_ok ==> r == (match refusal {
                Some(e) => Err::<FleetPatchMatchStats, FleetPatchApplyError>(e),
                None => Ok(st),
            })
        }),
        r is Err <==> patch_refused(plan.mode, plan.changed_config_ids@,
            match plan.symbol_scope { Some(v) => v@.len() > 0, None => false }, configs@, old_ids@),
{
    let changed_n: usize = plan.changed_config_ids.len();
    proof {
        assert(plan.changed_config_ids@.len() == changed_n);
        lemma_patch_refusal_condition(plan.mode, plan.changed_config_ids@,
            match &plan.symbol_scope { Some(v) => v@.len() as nat, None => 0 },
            match &plan.symbol_scope { Some(v) => v@.len() > 0, None => false }, configs@, old_ids@);
    }
    match validate_new_configs(configs) {
        Err(e) => {
            return Err(e);
        },
        Ok(()) => {},
    }
    let mut new_ids: Vec<u64> = Vec::new();
    let n = configs.len();
    let mut i: usize = 0;
    while i < n
        invariant
            n == configs@.len(),
            i <= n,
            new_ids@ == batch_ids(configs@).subrange(0, i as int),
        decreases n - i,
    {
        new_ids.push(configs[i].1);
        proof {
            assert(new_ids@ =~= batch_ids(configs@).subrange(0, i + 1));
        }
        i = i + 1;
    }
    proof {
        assert(new_ids@ =~= batch_ids(configs@));
    }
    let st = collect_patch_match_stats(plan, old_ids, new_ids.as_slice());
    if matches!(plan.mode, FleetPatchMode::Incremental) {
        if !plan.has_changed_configs() {
            return Err(FleetPatchApplyError::IncrementalMissingChangedConfigIds);
        }
        if !st.has_any_match() {
            return Err(FleetPatchApplyError::IncrementalNoMatchedChangedConfigIds {
                changed_ids_requested: st.changed_ids_requested,
                scope_symbols_requested: st.scope_symbols_requested,
            });
        }
        if st.has_new_only_changed_ids && !plan.has_symbol_scope() {
            return Err(FleetPatchApplyError::IncrementalNewConfigIdsRequireSymbolScope {
                changed_ids_requested: st.changed_ids_requested,
            });
        }
    }
    Ok(st)
}

/// Outcome of applying a fleet patch.
#[derive(Debug, Clone, Copy, PartialEq, Eq, Default)]
pub struct FleetReloadReport {
    pub old_config_count: usize,
    pub new_config_count: usize,
    pub symbols_reset: usize,
    pub drained_trades: usize,
    pub changed_ids_requested: usize,
    pub matched_changed_ids_old: usize,
    pub matched_changed_ids_new: usize,
    pub unmatched_changed_ids: usize,
    pub scope_symbols_requested: usize,
    pub scope_symbols_matched: usize,
}

/// A tracked symbol as a patch sees it: its name and the config ids of its
/// fleet, when it has one.
#[derive(Debug, Clone, PartialEq, Eq)]
pub struct SymbolFleetView {
    pub symbol: String,
    pub fleet_config_ids: Option<Vec<u64>>,
}

/// Whether some config id of a fleet is among the changed ids.
pub open spec fn fleet_touched(changed: Seq<u64>, fleet: Seq<u64>) -> bool {
    exists|j: int| 0 <= j < fleet.len() && changed.contains(#[trigger] fleet[j])
}

/// Whether a symbol has configs touched by a patch: always on a full replace;
/// on an incremental patch never without changed ids, always when some
/// changed id is new only, else when its fleet holds a changed id.
pub open spec fn spec_symbol_touched(mode: FleetPatchMode, changed: Seq<u64>, new_only: bool, fleet: Option<Seq<u64>>) -> bool {
    match mode {
        FleetPatchMode::FullReplace => true,
        FleetPatchMode::Incremental => {
            if changed.len() == 0 {
                false
            } else if new_only {
                true
            } else {
                match fleet {
                    Some(ids) => fleet_touched(changed, ids),
                    None => false,
                }
            }
        },
    }
}

/// The fleet config ids of a symbol view.
pub open spec fn fleet_view(v: SymbolFleetView) -> Option<Seq<u64>> {
    match v.fleet_config_ids {
        Some(ids) => Some(ids@),
        None => None,
    }
}

/// Whether a patch resets the fleet of a symbol: it has a fleet and
/// [`should_reset_symbol`] holds with [`spec_symbol_touched`].
pub open spec fn spec_fleet_reset(plan: FleetPatchPlan, stats: FleetPatchMatchStats, v: SymbolFleetView) -> bool {
    &&& v.fleet_config_ids is Some
    &&& match plan.mode {
        FleetPatchMode::FullReplace => true,
        FleetPatchMode::Incremental =>
            spec_symbol_touched(plan.mode, plan.changed_config_ids@, stats.has_new_only_changed_ids, fleet_view(v))
            && spec_symbol_in_scope(scope_view(plan.symbol_scope), v.symbol@),
    }
}

/// Whether a symbol counts as a matched scope symbol.
pub open spec fn scope_matched(plan: FleetPatchPlan, v: SymbolFleetView) -> bool {
    (match plan.symbol_scope { Some(s) => s@.len() > 0, None => false })
        && spec_symbol_in_scope(scope_view(plan.symbol_scope), v.symbol@)
}

/// Number of symbols that count as matched scope symbols.
pub open spec fn count_scope_matched(plan: FleetPatchPlan, views: Seq<SymbolFleetView>) -> nat
    decreases views.len(),
{
    if views.len() == 0 {
        0
    } else {
        count_scope_matched(plan, views.drop_last()) + if scope_matched(plan, views.last()) { 1nat } else { 0nat }
    }
}

/// Number of symbols whose fleet a patch resets.
pub open spec fn count_resets(plan: FleetPatchPlan, stats: FleetPatchMatchStats, views: Seq<SymbolFleetView>) -> nat
    decreases views.len(),
{
    if views.len() == 0 {
        0
    } else {
        count_resets(plan, stats, views.drop_last()) + if spec_fleet_reset(plan, stats, views.last()) { 1nat } else { 0nat }
    }
}

fn fleet_touches(changed: &HashSet<u64>, fleet: &Vec<u64>) -> (r: bool)
    ensures
        r == exists|j: int| 0 <= j < fleet@.len() && changed@.contains(#[trigger] fleet@[j]),
{
    let n = fleet.len();
    let mut i: usize = 0;
    while i < n
        invariant
            n == fleet@.len(),
            i <= n,
            forall|j: int| 0 <= j < i ==> !changed@.contains(#[trigger] fleet@[j]),
        decreases n - i,
    {
        if changed.contains(&fleet[i]) {
            return true;
        }
        i = i + 1;
    }
    false
}

/// Decides, for each tracked symbol, whether a validated patch resets its
/// fleet (see [`spec_fleet_reset`]); also counts the resets and the matched
/// scope symbols.
pub fn plan_fleet_resets(plan: &FleetPatchPlan, stats: &FleetPatchMatchStats, symbols: &[SymbolFleetView])
    -> (r: (Vec<bool>, usize, usize))
    ensures
        r.0@.len() == symbols@.len(),
        forall|k: int| 0 <= k < symbols@.len() ==> #[trigger] r.0@[k] == spec_fleet_reset(*plan, *stats, symbols@[k]),
        r.1 == count_resets(*plan, *stats, symbols@),
        r.2 == count_scope_matched(*plan, symbols@),
{
    let changed = id_set(plan.changed_config_ids.as_slice());
    let n = symbols.len();
    let mut resets: Vec<bool> = Vec::new();
    let mut reset_count: usize = 0;
    let mut matched: usize = 0;
    let mut i: usize = 0;
    let allow_fallback = matches!(plan.mode, FleetPatchMode::Incremental) && stats.has_new_only_changed_ids;
    while i < n
        invariant
            n == symbols@.len(),
            i <= n,
            forall|x: u64| changed@.contains(x) <==> plan.changed_config_ids@.contains(x),
            allow_fallback == (plan.mode == FleetPatchMode::Incremental && stats.has_new_only_changed_ids),
            resets@.len() == i,
            forall|k: int| 0 <= k < i ==> #[trigger] resets@[k] == spec_fleet_reset(*plan, *stats, symbols@[k]),
            reset_count == count_resets(*plan, *stats, symbols@.subrange(0, i as int)),
            matched == count_scope_matched(*plan, symbols@.subrange(0, i as int)),
            reset_count <= i,
            matched <= i,
        decreases n - i,
    {
        let view = &symbols[i];
        proof {
            let r = symbols@.subrange(0, i + 1);
            assert(r.drop_last() =~= symbols@.subrange(0, i as int));
            assert(r.last() == *view);
        }
        let in_scope = plan.symbol_in_scope(view.symbol.as_str());
        if plan.has_symbol_scope() && in_scope {
            matched = matched + 1;
        }
        let touched = if matches!(plan.mode, FleetPatchMode::FullReplace) {
            true
        } else if !plan.has_changed_configs() {
            false
        } else if allow_fallback {
            true
        } else {
            match &view.fleet_config_ids {
                Some(ids) => fleet_touches(&changed, ids),
                None => false,
            }
        };
        let reset = should_reset_symbol(plan, view.symbol.as_str(), touched) && view.fleet_config_ids.is_some();
        proof {
            if plan.mode == FleetPatchMode::Incremental && plan.changed_config_ids@.len() > 0 && !allow_fallback {
                if view.fleet_config_ids is Some {
                    assert(touched == fleet_touched(plan.changed_config_ids@, view.fleet_config_ids->0@));
                }
            }
            assert(reset == spec_fleet_reset(*plan, *stats, *view));
        }
        if reset {
            reset_count = reset_count + 1;
        }
        resets.push(reset);
        i = i + 1;
    }
    proof {
        assert(symbols@.subrange(0, n as int) =~= symbols@);
    }
    (resets, reset_count, matched)
}

/// The changed ids of a plan are the requested ids, each once.
pub proof fn lemma_dedup_ids(ids: Seq<u64>)
    ensures
        dedup_ids(ids).no_duplicates(),
        forall|x: u64| dedup_ids(ids).contains(x) <==> ids.contains(x),
    decreases ids.len(),
{
    broadcast use vstd::seq_lib::lemma_seq_contains_after_push;
    if ids.len() > 0 {
        lemma_dedup_ids(ids.drop_last());
        assert(ids =~= ids.drop_last().push(ids.last()));
    }
}

/// A plan's scope holds exactly the normalised keys of the requested symbols
/// (blank ones dropped), each once; so scope membership of a symbol depends
/// only on its normalised key.
pub proof fn lemma_normalized_scope(raw: Seq<Seq<char>>)
    ensures
        normalized_scope(raw).no_duplicates(),
        forall|k: Seq<char>| normalized_scope(raw).contains(k) <==>
            exists|i: int| 0 <= i < raw.len() && #[trigger] symbol_key(raw[i]) == Some(k),
    decreases raw.len(),
{
    broadcast use vstd::seq_lib::lemma_seq_contains_after_push;
    if raw.len() > 0 {
        let d = raw.drop_last();
        lemma_normalized_scope(d);
        assert forall|k: Seq<char>| normalized_scope(raw).contains(k) <==>
            exists|i: int| 0 <= i < raw.len() && #[trigger] symbol_key(raw[i]) == Some(k) by {
            if normalized_scope(raw).contains(k) {
                if normalized_scope(d).contains(k) {
                    let i = choose|i: int| 0 <= i < d.len() && #[trigger] symbol_key(d[i]) == Some(k);
                    assert(raw[i] == d[i]);
                } else {
                    assert(symbol_key(raw[raw.len() - 1]) == Some(k));
                }
            }
            if exists|i: int| 0 <= i < raw.len() && #[trigger] symbol_key(raw[i]) == Some(k) {
                let i = choose|i: int| 0 <= i < raw.len() && #[trigger] symbol_key(raw[i]) == Some(k);
                if i < raw.len() - 1 {
                    assert(d[i] == raw[i]);
                    assert(normalized_scope(d).contains(k));
                }
            }
        }
    }
}

/// Two symbols with the same normalised key are in or out of a scope together.
pub proof fn lemma_scope_membership_by_key(scope: Option<Seq<Seq<char>>>, a: Seq<char>, b: Seq<char>)
    requires
        symbol_key(a) == symbol_key(b),
    ensures
        spec_symbol_in_scope(scope, a) == spec_symbol_in_scope(scope, b),
{
}

/// A full replace resets every symbol that has a fleet; an incremental patch
/// never resets a symbol outside its scope or one without a fleet.
pub proof fn lemma_reset_scope(plan: FleetPatchPlan, stats: FleetPatchMatchStats, v: SymbolFleetView)
    ensures
        plan.mode == FleetPatchMode::FullReplace ==> (spec_fleet_reset(plan, stats, v) <==> v.fleet_config_ids is Some),
        plan.mode == FleetPatchMode::Incremental && !spec_symbol_in_scope(scope_view(plan.symbol_scope), v.symbol@)
            ==> !spec_fleet_reset(plan, stats, v),
        v.fleet_config_ids is None ==> !spec_fleet_reset(plan, stats, v),
{
}

} // verus!
