//! Persisted portfolio snapshots: state and guard records, writing them from
//! the runtime and restoring the runtime from them.

use vstd::prelude::*;
use crate::text::strings_view;
use crate::guards::{SymbolGuardStateV1, rows_sorted, rows_map, rows_to_map, lemma_rows_to_map_sorted};
use crate::portfolio::{PortfolioEngineV1, PortfolioStateV1, state_ids, state_shortlists, state_actives};
use crate::assignment::copy_strings;

verus! {

/// A persisted portfolio state.
#[derive(Debug, PartialEq, Eq)]
pub struct PortfolioStateRecordV1 {
    pub portfolio_id: String,
    pub shortlist: Vec<String>,
    pub active_symbols: Vec<String>,
    pub updated_at_ms: i64,
}

/// A persisted symbol guard.
#[derive(Debug, Clone, PartialEq, Eq)]
pub struct PortfolioGuardRecordV1 {
    pub symbol: String,
    pub streak_count: u32,
    pub first_streak_ts_ms: Option<i64>,
    pub cooldown_until_ms: Option<i64>,
    pub updated_at_ms: i64,
}

/// The guard a record holds.
pub open spec fn record_guard(r: PortfolioGuardRecordV1) -> SymbolGuardStateV1 {
    SymbolGuardStateV1 { streak_count: r.streak_count, first_streak_ts_ms: r.first_streak_ts_ms, cooldown_until_ms: r.cooldown_until_ms }
}

/// Guard records as (symbol, guard) rows.
pub open spec fn record_rows(rows: Seq<PortfolioGuardRecordV1>) -> Seq<(String, SymbolGuardStateV1)> {
    rows.map_values(|r: PortfolioGuardRecordV1| (r.symbol, record_guard(r)))
}

/// Guard records of every guard of the engine, ascending by symbol, all
/// stamped `updated_at_ms`.
pub fn guard_records(engine: &PortfolioEngineV1, updated_at_ms: i64) -> (r: Vec<PortfolioGuardRecordV1>)
    ensures
        rows_sorted(record_rows(r@)),
        rows_map(record_rows(r@)) == engine.guard_map(),
        forall|k: int| 0 <= k < r@.len() ==> (#[trigger] r@[k]).updated_at_ms == updated_at_ms,
{
    let rows = engine.guard_states();
    let n = rows.len();
    let mut out: Vec<PortfolioGuardRecordV1> = Vec::new();
    let mut i: usize = 0;
    while i < n
        invariant
            n == rows@.len(),
            i <= n,
            out@.len() == i,
            record_rows(out@) == rows@.subrange(0, i as int),
            forall|k: int| 0 <= k < out@.len() ==> (#[trigger] out@[k]).updated_at_ms == updated_at_ms,
        decreases n - i,
    {
        let symbol = rows[i].0.clone();
        let g = rows[i].1;
        out.push(PortfolioGuardRecordV1 {
            symbol,
            streak_count: g.streak_count,
            first_streak_ts_ms: g.first_streak_ts_ms,
            cooldown_until_ms: g.cooldown_until_ms,
            updated_at_ms,
        });
        proof {
            assert(record_rows(out@)[i as int] == rows@[i as int]);
            assert(record_rows(out@) =~= rows@.subrange(0, i + 1));
        }
        i = i + 1;
    }
    proof {
        assert(rows@.subrange(0, n as int) =~= rows@);
    }
    out
}

/// Replaces the engine's guards by those of the records; a later record for
/// a symbol wins.
pub fn restore_guards(engine: &mut PortfolioEngineV1, records: &[PortfolioGuardRecordV1])
    ensures
        final(engine).guard_map() == rows_to_map(record_rows(records@)),
        final(engine).ids() == old(engine).ids(),
{
    let n = records.len();
    let mut rows: Vec<(String, SymbolGuardStateV1)> = Vec::new();
    let mut i: usize = 0;
    while i < n
        invariant
            n == records@.len(),
            i <= n,
            rows@ == record_rows(records@.subrange(0, i as int)),
        decreases n - i,
    {
        let r = &records[i];
        rows.push((r.symbol.clone(), SymbolGuardStateV1 {
            streak_count: r.streak_count,
            first_streak_ts_ms: r.first_streak_ts_ms,
            cooldown_until_ms: r.cooldown_until_ms,
        }));
        proof {
            assert(rows@ =~= record_rows(records@.subrange(0, i + 1)));
        }
        i = i + 1;
    }
    proof {
        assert(records@.subrange(0, n as int) =~= records@);
    }
    engine.replace_guard_states(rows);
}

/// Restoring the guard records written from an engine gives back exactly
/// its guards.
pub proof fn lemma_guard_records_round_trip(written: Seq<PortfolioGuardRecordV1>, guards: Map<Seq<char>, SymbolGuardStateV1>)
    requires
        rows_sorted(record_rows(written)),
        rows_map(record_rows(written)) == guards,
    ensures
        rows_to_map(record_rows(written)) == guards,
{
    lemma_rows_to_map_sorted(record_rows(written));
}

/// The position of the last record of portfolio `id`, if any.
pub open spec fn last_record_of(records: Seq<PortfolioStateRecordV1>, id: Seq<char>) -> Option<int>
    decreases records.len(),
{
    if records.len() == 0 {
        None
    } else if records.last().portfolio_id@ == id {
        Some(records.len() - 1)
    } else {
        last_record_of(records.drop_last(), id)
    }
}

/// Shortlist a restore gives portfolio `id`: that of its last record, or empty.
pub open spec fn restored_shortlist(records: Seq<PortfolioStateRecordV1>, id: Seq<char>) -> Seq<Seq<char>> {
    match last_record_of(records, id) {
        Some(k) => strings_view(records[k].shortlist@),
        None => Seq::empty(),
    }
}

/// Active symbols a restore gives portfolio `id`: those of its last record, or none.
pub open spec fn restored_actives(records: Seq<PortfolioStateRecordV1>, id: Seq<char>) -> Seq<Seq<char>> {
    match last_record_of(records, id) {
        Some(k) => strings_view(records[k].active_symbols@),
        None => Seq::empty(),
    }
}

proof fn lemma_last_record_bounds(records: Seq<PortfolioStateRecordV1>, id: Seq<char>)
    ensures
        match last_record_of(records, id) {
            Some(k) => 0 <= k < records.len() && records[k].portfolio_id@ == id
                && forall|j: int| k < j < records.len() ==> #[trigger] records[j].portfolio_id@ != id,
            None => forall|j: int| 0 <= j < records.len() ==> #[trigger] records[j].portfolio_id@ != id,
        },
    decreases records.len(),
{
    if records.len() > 0 {
        lemma_last_record_bounds(records.drop_last(), id);
        if records.last().portfolio_id@ != id {
            assert forall|j: int| 0 <= j < records.len() - 1 implies records[j] == records.drop_last()[j] by {}
        }
    }
}

fn find_last_record(records: &[PortfolioStateRecordV1], id: &str) -> (r: Option<usize>)
    ensures
        match last_record_of(records@, id@) {
            Some(k) => r == Some(k as usize),
            None => r is None,
        },
{
    let mut i: usize = records.len();
    proof {
        assert(records@.subrange(0, i as int) =~= records@);
    }
    while i > 0
        invariant
            i <= records@.len(),
            last_record_of(records@, id@) == last_record_of(records@.subrange(0, i as int), id@),
        decreases i,
    {
        proof {
            let s = records@.subrange(0, i as int);
            assert(s.drop_last() =~= records@.subrange(0, i - 1));
            assert(s.last() == records@[i - 1]);
        }
        if crate::text::str_equals(records[i - 1].portfolio_id.as_str(), id) {
            return Some(i - 1);
        }
        i = i - 1;
    }
    None
}

/// The assignment of the given portfolios restored from state records: each
/// portfolio takes its last record's shortlist and active symbols, or empty
/// ones without a record.
pub fn restore_assignment(portfolio_ids: &[String], records: &[PortfolioStateRecordV1]) -> (r: Vec<(String, PortfolioStateV1)>)
    ensures
        state_ids(r@) == strings_view(portfolio_ids@),
        forall|k: int| 0 <= k < r@.len() ==> #[trigger] state_shortlists(r@)[k] == restored_shortlist(records@, portfolio_ids@[k]@),
        forall|k: int| 0 <= k < r@.len() ==> #[trigger] state_actives(r@)[k] == restored_actives(records@, portfolio_ids@[k]@),
{
    let n = portfolio_ids.len();
    let mut out: Vec<(String, PortfolioStateV1)> = Vec::new();
    let mut i: usize = 0;
    while i < n
        invariant
            n == portfolio_ids@.len(),
            i <= n,
            out@.len() == i,
            forall|k: int| 0 <= k < i ==> (#[trigger] out@[k]).0@ == portfolio_ids@[k]@
                && strings_view(out@[k].1.shortlist@) == restored_shortlist(records@, portfolio_ids@[k]@)
                && strings_view(out@[k].1.active_symbols@) == restored_actives(records@, portfolio_ids@[k]@),
        decreases n - i,
    {
        let id = portfolio_ids[i].clone();
        proof {
            lemma_last_record_bounds(records@, id@);
        }
        let state = match find_last_record(records, id.as_str()) {
            Some(k) => PortfolioStateV1 {
                shortlist: copy_strings(&records[k].shortlist),
                active_symbols: copy_strings(&records[k].active_symbols),
            },
            None => {
                let st = PortfolioStateV1 { shortlist: Vec::new(), active_symbols: Vec::new() };
                proof {
                    assert(strings_view(st.shortlist@) =~= Seq::<Seq<char>>::empty());
                    assert(strings_view(st.active_symbols@) =~= Seq::<Seq<char>>::empty());
                }
                st
            },
        };
        out.push((id, state));
        i = i + 1;
    }
    proof {
        assert(state_ids(out@) =~= strings_view(portfolio_ids@));
    }
    out
}

/// State records of an assignment, in its order, all stamped `updated_at_ms`.
pub fn state_records(states: &Vec<(String, PortfolioStateV1)>, updated_at_ms: i64) -> (r: Vec<PortfolioStateRecordV1>)
    ensures
        r@.len() == states@.len(),
        forall|k: int| 0 <= k < r@.len() ==> {
            &&& (#[trigger] r@[k]).portfolio_id@ == states@[k].0@
            &&& strings_view(r@[k].shortlist@) == strings_view(states@[k].1.shortlist@)
            &&& strings_view(r@[k].active_symbols@) == strings_view(states@[k].1.active_symbols@)
            &&& r@[k].updated_at_ms == updated_at_ms
        },
{
    let n = states.len();
    let mut out: Vec<PortfolioStateRecordV1> = Vec::new();
    let mut i: usize = 0;
    while i < n
        invariant
            n == states@.len(),
            i <= n,
            out@.len() == i,
            forall|k: int| 0 <= k < i ==> {
                &&& (#[trigger] out@[k]).portfolio_id@ == states@[k].0@
                &&& strings_view(out@[k].shortlist@) == strings_view(states@[k].1.shortlist@)
                &&& strings_view(out@[k].active_symbols@) == strings_view(states@[k].1.active_symbols@)
                &&& out@[k].updated_at_ms == updated_at_ms
            },
        decreases n - i,
    {
        out.push(PortfolioStateRecordV1 {
            portfolio_id: states[i].0.clone(),
            shortlist: copy_strings(&states[i].1.shortlist),
            active_symbols: copy_strings(&states[i].1.active_symbols),
            updated_at_ms,
        });
        i = i + 1;
    }
    out
}

/// Restoring the state records written from an assignment whose portfolio
/// ids are distinct gives back its shortlists and active symbols.
pub proof fn lemma_state_records_round_trip(states: Seq<(String, PortfolioStateV1)>, written: Seq<PortfolioStateRecordV1>, k: int)
    requires
        state_ids(states).no_duplicates(),
        written.len() == states.len(),
        forall|j: int| 0 <= j < written.len() ==> {
            &&& (#[trigger] written[j]).portfolio_id@ == states[j].0@
            &&& strings_view(written[j].shortlist@) == strings_view(states[j].1.shortlist@)
            &&& strings_view(written[j].active_symbols@) == strings_view(states[j].1.active_symbols@)
        },
        0 <= k < states.len(),
    ensures
        restored_shortlist(written, states[k].0@) == state_shortlists(states)[k],
        restored_actives(written, states[k].0@) == state_actives(states)[k],
{
    let id = states[k].0@;
    lemma_last_record_bounds(written, id);
    match last_record_of(written, id) {
        Some(j) => {
            if j != k {
                if j < k {
                    assert(written[k].portfolio_id@ == id);
                } else {
                    assert(state_ids(states)[j] == state_ids(states)[k]);
                }
            }
        },
        None => {
            assert(written[k].portfolio_id@ == id);
        },
    }
}

/// Time of the latest record, if there is any.
pub open spec fn latest_update(states: Seq<PortfolioStateRecordV1>, guards: Seq<PortfolioGuardRecordV1>) -> Option<i64>
    decreases states.len() + guards.len(),
{
    if guards.len() > 0 {
        let rest = latest_update(states, guards.drop_last());
        let t = guards.last().updated_at_ms;
        match rest { Some(m) => Some(if m > t { m } else { t }), None => Some(t) }
    } else if states.len() > 0 {
        let rest = latest_update(states.drop_last(), guards);
        let t = states.last().updated_at_ms;
        match rest { Some(m) => Some(if m > t { m } else { t }), None => Some(t) }
    } else {
        None
    }
}

/// The latest update time over state and guard records (see [`latest_update`]).
pub fn last_rebalance_ms(states: &[PortfolioStateRecordV1], guards: &[PortfolioGuardRecordV1]) -> (r: Option<i64>)
    ensures
        r == latest_update(states@, guards@),
{
    let mut best: Option<i64> = None;
    let mut i: usize = 0;
    while i < states.len()
        invariant
            i <= states@.len(),
            best == latest_update(states@.subrange(0, i as int), Seq::<PortfolioGuardRecordV1>::empty()),
        decreases states@.len() - i,
    {
        proof {
            let s = states@.subrange(0, i + 1);
            assert(s.drop_last() =~= states@.subrange(0, i as int));
        }
        let t = states[i].updated_at_ms;
        best = match best { Some(m) => Some(if m > t { m } else { t }), None => Some(t) };
        i = i + 1;
    }
    proof {
        assert(states@.subrange(0, states@.len() as int) =~= states@);
        assert(guards@.subrange(0, 0) =~= Seq::<PortfolioGuardRecordV1>::empty());
    }
    let mut j: usize = 0;
    while j < guards.len()
        invariant
            j <= guards@.len(),
            best == latest_update(states@, guards@.subrange(0, j as int)),
        decreases guards@.len() - j,
    {
        proof {
            let g = guards@.subrange(0, j + 1);
            assert(g.drop_last() =~= guards@.subrange(0, j as int));
        }
        let t = guards[j].updated_at_ms;
        best = match best { Some(m) => Some(if m > t { m } else { t }), None => Some(t) };
        j = j + 1;
    }
    proof {
        assert(guards@.subrange(0, guards@.len() as int) =~= guards@);
    }
    best
}

} // verus!
