//! Closed trades drained from the shadow fleets: their chronological order,
//! the filter by run, and their effect on the portfolio guards.

use vstd::prelude::*;
use vstd::utf8::encode_utf8;
use crate::text::{compare_str, lex_order, Comparison, str_equals};
use crate::guards::{SymbolGuardStateV1, guard_step, guard_or_default};
use crate::portfolio::PortfolioEngineV1;
use crate::candidates::PnlSign;

verus! {

/// A closed trade of a fleet config. `pnl_sign` is the sign of the trade's
/// PnL percentage (an undefined PnL is flat); `pnl_units` is that percentage
/// in fixed-point units of 1e-8 percent.
#[derive(Debug, PartialEq, Eq)]
pub struct DrainedTrade {
    pub config_id: u64,
    pub symbol: String,
    pub run_id: Option<String>,
    pub ts_ms: i64,
    pub entry_ts_ms: i64,
    pub pnl_sign: PnlSign,
    pub pnl_units: i64,
    pub is_stop_loss: bool,
}

impl Clone for DrainedTrade {
    fn clone(&self) -> (r: Self)
        ensures
            r == *self,
    {
        DrainedTrade {
            config_id: self.config_id,
            symbol: self.symbol.clone(),
            run_id: match &self.run_id {
                Some(r) => Some(r.clone()),
                None => None,
            },
            ts_ms: self.ts_ms,
            entry_ts_ms: self.entry_ts_ms,
            pnl_sign: self.pnl_sign,
            pnl_units: self.pnl_units,
            is_stop_loss: self.is_stop_loss,
        }
    }
}

/// Order of drained trades: -1 when `a` comes first. By symbol (byte
/// order), then close time, then entry time, then config id.
pub open spec fn trade_order(a: DrainedTrade, b: DrainedTrade) -> int {
    let s = lex_order(encode_utf8(a.symbol@), encode_utf8(b.symbol@));
    if s != 0 { s }
    else if a.ts_ms < b.ts_ms { -1 }
    else if a.ts_ms > b.ts_ms { 1 }
    else if a.entry_ts_ms < b.entry_ts_ms { -1 }
    else if a.entry_ts_ms > b.entry_ts_ms { 1 }
    else if a.config_id < b.config_id { -1 }
    else if a.config_id > b.config_id { 1 }
    else { 0 }
}

/// Inserts `x` after every trade that does not come after it.
pub open spec fn insert_trade(s: Seq<DrainedTrade>, x: DrainedTrade) -> Seq<DrainedTrade>
    decreases s.len(),
{
    if s.len() == 0 {
        seq![x]
    } else if trade_order(s.last(), x) <= 0 {
        s.push(x)
    } else {
        insert_trade(s.drop_last(), x).push(s.last())
    }
}

/// Trades in [`trade_order`], stable for ties.
pub open spec fn chronological(s: Seq<DrainedTrade>) -> Seq<DrainedTrade>
    decreases s.len(),
{
    if s.len() == 0 { s } else { insert_trade(chronological(s.drop_last()), s.last()) }
}

proof fn lemma_insert_trade_split(s: Seq<DrainedTrade>, x: DrainedTrade, j: int)
    requires
        0 <= j <= s.len(),
        forall|k: int| j <= k < s.len() ==> trade_order(#[trigger] s[k], x) > 0,
    ensures
        insert_trade(s, x) == insert_trade(s.subrange(0, j), x) + s.subrange(j, s.len() as int),
    decreases s.len() - j,
{
    if j == s.len() {
        assert(s.subrange(0, j) =~= s);
        assert(insert_trade(s, x) + s.subrange(j, s.len() as int) =~= insert_trade(s, x));
    } else {
        assert(trade_order(s[s.len() - 1], x) > 0);
        let d = s.drop_last();
        lemma_insert_trade_split(d, x, j);
        assert(d.subrange(0, j) =~= s.subrange(0, j));
        assert((insert_trade(d.subrange(0, j), x) + d.subrange(j, d.len() as int)).push(s.last())
            =~= insert_trade(d.subrange(0, j), x) + s.subrange(j, s.len() as int));
    }
}

proof fn lemma_insert_trade_len(s: Seq<DrainedTrade>, x: DrainedTrade)
    ensures
        insert_trade(s, x).len() == s.len() + 1,
    decreases s.len(),
{
    if s.len() > 0 && trade_order(s.last(), x) > 0 {
        lemma_insert_trade_len(s.drop_last(), x);
    }
}

proof fn lemma_chronological_len(s: Seq<DrainedTrade>)
    ensures
        chronological(s).len() == s.len(),
    decreases s.len(),
{
    if s.len() > 0 {
        lemma_chronological_len(s.drop_last());
        lemma_insert_trade_len(chronological(s.drop_last()), s.last());
    }
}

fn trade_comes_after(a: &DrainedTrade, b: &DrainedTrade) -> (r: bool)
    ensures
        r == (trade_order(*a, *b) > 0),
{
    match compare_str(a.symbol.as_str(), b.symbol.as_str()) {
        Comparison::Less => false,
        Comparison::Greater => true,
        Comparison::Equal => {
            if a.ts_ms != b.ts_ms {
                a.ts_ms > b.ts_ms
            } else if a.entry_ts_ms != b.entry_ts_ms {
                a.entry_ts_ms > b.entry_ts_ms
            } else {
                a.config_id > b.config_id
            }
        },
    }
}

/// Puts drained trades in chronological order per symbol (see [`chronological`]).
pub fn sort_drained_trades_in_place(trades: &mut Vec<DrainedTrade>)
    ensures
        final(trades)@ == chronological(old(trades)@),
{
    let ghost input = trades@;
    let n = trades.len();
    let mut i: usize = 0;
    while i < n
        invariant
            n == input.len(),
            trades@.len() == n,
            i <= n,
            trades@.subrange(0, i as int) == chronological(input.subrange(0, i as int)),
            trades@.subrange(i as int, n as int) == input.subrange(i as int, n as int),
        decreases n - i,
    {
        let ghost prefix = trades@.subrange(0, i as int);
        let ghost rest = trades@.subrange(i + 1, n as int);
        let ghost x = trades@[i as int];
        proof {
            assert(x == input[i as int]) by {
                assert(trades@.subrange(i as int, n as int)[0] == input.subrange(i as int, n as int)[0]);
            }
            assert(trades@ =~= prefix + seq![x] + rest);
        }
        let mut j: usize = i;
        while j > 0 && trade_comes_after(&trades[j - 1], &trades[j])
            invariant
                trades@.len() == n,
                i < n,
                prefix.len() == i,
                j <= i,
                trades@ == prefix.subrange(0, j as int) + seq![x] + prefix.subrange(j as int, i as int) + rest,
                forall|k: int| j <= k < i ==> trade_order(#[trigger] prefix[k], x) > 0,
            decreases j,
        {
            let ghost before = trades@;
            let a = trades[j - 1].clone();
            let b = trades[j].clone();
            trades.set(j - 1, b);
            trades.set(j, a);
            proof {
                assert(before[j - 1] == prefix[j - 1]);
                assert(trades@ =~= prefix.subrange(0, j - 1) + seq![x] + prefix.subrange(j - 1, i as int) + rest);
            }
            j = j - 1;
        }
        proof {
            lemma_insert_trade_split(prefix, x, j as int);
            let p = prefix.subrange(0, j as int);
            if j > 0 {
                assert(trades@[j - 1] == p.last());
                assert(p.drop_last() =~= prefix.subrange(0, j - 1));
                assert(insert_trade(p, x) == p.push(x));
            } else {
                assert(p =~= Seq::<DrainedTrade>::empty());
            }
            let c = input.subrange(0, i + 1);
            assert(c.drop_last() =~= input.subrange(0, i as int));
            assert(c.last() == x);
            assert(trades@.subrange(0, i + 1) =~= insert_trade(p, x) + prefix.subrange(j as int, i as int));
            assert(trades@.subrange(i + 1, n as int) =~= rest);
            assert(rest =~= input.subrange(i + 1, n as int)) by {
                assert(rest =~= input.subrange(i as int, n as int).drop_first()) by {
                    assert(rest =~= trades@.subrange(i + 1, n as int));
                }
            }
        }
        i = i + 1;
    }
    proof {
        assert(trades@.subrange(0, n as int) =~= trades@);
        assert(input.subrange(0, n as int) =~= input);
    }
}

/// Whether a trade belongs to the active run: always without an active run,
/// else when its run id is the active one.
pub open spec fn in_active_run(t: DrainedTrade, active: Option<Seq<char>>) -> bool {
    match active {
        None => true,
        Some(a) => match t.run_id {
            Some(r) => r@ == a,
            None => false,
        },
    }
}

/// Trades of the active run, in input order.
pub open spec fn active_run_trades(s: Seq<DrainedTrade>, active: Option<Seq<char>>) -> Seq<DrainedTrade>
    decreases s.len(),
{
    if s.len() == 0 {
        s
    } else {
        let rest = active_run_trades(s.drop_last(), active);
        if in_active_run(s.last(), active) { rest.push(s.last()) } else { rest }
    }
}

/// Keeps the trades of the active run (see [`in_active_run`]).
pub fn filter_active_run_trades(trades: &[DrainedTrade], active_run_id: Option<&str>) -> (r: Vec<DrainedTrade>)
    ensures
        r@ == active_run_trades(trades@, match active_run_id { Some(a) => Some(a@), None => None }),
{
    let ghost active = match active_run_id { Some(a) => Some(a@), None => None };
    let n = trades.len();
    let mut out: Vec<DrainedTrade> = Vec::new();
    let mut i: usize = 0;
    while i < n
        invariant
            n == trades@.len(),
            i <= n,
            active == (match active_run_id { Some(a) => Some(a@), None => None::<Seq<char>> }),
            out@ == active_run_trades(trades@.subrange(0, i as int), active),
        decreases n - i,
    {
        proof {
            let r = trades@.subrange(0, i + 1);
            assert(r.drop_last() =~= trades@.subrange(0, i as int));
            assert(r.last() == trades@[i as int]);
        }
        let keep = match active_run_id {
            None => true,
            Some(a) => match &trades[i].run_id {
                Some(r) => str_equals(r.as_str(), a),
                None => false,
            },
        };
        if keep {
            out.push(trades[i].clone());
        }
        i = i + 1;
    }
    proof {
        assert(trades@.subrange(0, n as int) =~= trades@);
    }
    out
}

/// Guards after applying the trades in order, each as
/// [`PortfolioEngineV1::record_closed_trade`] does.
pub open spec fn guards_after(g: Map<Seq<char>, SymbolGuardStateV1>, trades: Seq<DrainedTrade>) -> Map<Seq<char>, SymbolGuardStateV1>
    decreases trades.len(),
{
    if trades.len() == 0 {
        g
    } else {
        let prev = guards_after(g, trades.drop_last());
        let t = trades.last();
        prev.insert(t.symbol@, guard_step(guard_or_default(prev, t.symbol@), t.pnl_sign == PnlSign::Positive, t.is_stop_loss, t.ts_ms).0)
    }
}

/// Whether the `k`-th of the trades changed the guard of its symbol.
#[verifier::opaque]
pub open spec fn step_changes_guard(g: Map<Seq<char>, SymbolGuardStateV1>, trades: Seq<DrainedTrade>, k: int) -> bool {
    guard_or_default(guards_after(g, trades.subrange(0, k + 1)), trades[k].symbol@)
        != guard_or_default(guards_after(g, trades.subrange(0, k)), trades[k].symbol@)
}

/// Applies drained trades to the guards in chronological order (see
/// [`chronological`] and [`guards_after`]); returns whether some guard changed.
pub fn apply_drained_trades(engine: &mut PortfolioEngineV1, trades: Vec<DrainedTrade>) -> (changed: bool)
    ensures
        final(engine).guard_map() == guards_after(old(engine).guard_map(), chronological(trades@)),
        final(engine).ids() == old(engine).ids(),
        changed == exists|k: int| 0 <= k < trades@.len() && #[trigger] step_changes_guard(old(engine).guard_map(), chronological(trades@), k),
{
    let ghost input = trades@;
    let mut trades = trades;
    sort_drained_trades_in_place(&mut trades);
    let ghost sorted = trades@;
    let ghost g0 = engine.guard_map();
    proof {
        lemma_chronological_len(input);
    }
    let n = trades.len();
    let mut changed = false;
    let mut i: usize = 0;
    while i < n
        invariant
            n == sorted.len(),
            trades@ == sorted,
            i <= n,
            engine.guard_map() == guards_after(g0, sorted.subrange(0, i as int)),
            engine.ids() == old(engine).ids(),
            changed == exists|k: int| 0 <= k < i && #[trigger] step_changes_guard(g0, sorted, k),
        decreases n - i,
    {
        let t = &trades[i];
        let before = engine.guard_state(t.symbol.as_str());
        let positive = match t.pnl_sign { PnlSign::Positive => true, _ => false };
        engine.record_closed_trade(t.symbol.as_str(), positive, t.is_stop_loss, t.ts_ms);
        let after = engine.guard_state(t.symbol.as_str());
        proof {
            let r = sorted.subrange(0, i + 1);
            assert(r.drop_last() =~= sorted.subrange(0, i as int));
            assert(r.last() == sorted[i as int]);
        }
        proof {
            assert(before == guard_or_default(guards_after(g0, sorted.subrange(0, i as int)), sorted[i as int].symbol@));
            assert(after == guard_or_default(guards_after(g0, sorted.subrange(0, i + 1)), sorted[i as int].symbol@));
            assert(step_changes_guard(g0, sorted, i as int) == (before != after)) by {
                reveal(step_changes_guard);
            }
        }
        if before != after {
            changed = true;
        }
        i = i + 1;
    }
    proof {
        assert(sorted.subrange(0, n as int) =~= sorted);
    }
    changed
}

/// Closes of one symbol at one time, merged: the symbol, the close time, the
/// summed PnL units, the number of trades and the earliest entry time.
#[derive(Debug, Clone, PartialEq, Eq)]
pub struct CandidateEvent {
    pub symbol: String,
    pub event_ts_ms: i64,
    pub pnl_units_sum: i128,
    pub trades: u64,
    pub first_observed_ts_ms: i64,
}

/// View of a candidate event.
pub open spec fn event_view(e: CandidateEvent) -> (Seq<char>, i64, int, nat, i64) {
    (e.symbol@, e.event_ts_ms, e.pnl_units_sum as int, e.trades as nat, e.first_observed_ts_ms)
}

/// Candidate events of trades: each trade joins the event before it when both
/// have the same symbol and close time, adding its PnL units, counting one
/// more trade and keeping the earlier entry time; otherwise it starts a new
/// event. On trades in chronological order (see [`chronological`]) closes of
/// one symbol at one time are adjacent, so there is one event per symbol and
/// close time.
pub open spec fn collapse_events(s: Seq<DrainedTrade>) -> Seq<(Seq<char>, i64, int, nat, i64)>
    decreases s.len(),
{
    if s.len() == 0 {
        Seq::empty()
    } else {
        let prev = collapse_events(s.drop_last());
        let t = s.last();
        if prev.len() > 0 && prev.last().0 == t.symbol@ && prev.last().1 == t.ts_ms {
            let e = prev.last();
            prev.drop_last().push((e.0, e.1, e.2 + t.pnl_units, e.3 + 1, if t.entry_ts_ms < e.4 { t.entry_ts_ms } else { e.4 }))
        } else {
            prev.push((t.symbol@, t.ts_ms, t.pnl_units as int, 1nat, t.entry_ts_ms))
        }
    }
}

proof fn lemma_collapse_bounds(s: Seq<DrainedTrade>)
    ensures
        collapse_events(s).len() <= s.len(),
        forall|k: int| 0 <= k < collapse_events(s).len() ==> {
            let e = #[trigger] collapse_events(s)[k];
            1 <= e.3 <= s.len() && -e.3 * 0x8000_0000_0000_0000int <= e.2 <= e.3 * 0x8000_0000_0000_0000int
        },
    decreases s.len(),
{
    if s.len() > 0 {
        lemma_collapse_bounds(s.drop_last());
    }
}

/// Merges trades into candidate events (see [`collapse_events`]).
pub fn collapse_candidate_events(trades: &[DrainedTrade]) -> (r: Vec<CandidateEvent>)
    ensures
        r@.map_values(|e: CandidateEvent| event_view(e)) == collapse_events(trades@),
{
    let n = trades.len();
    let mut out: Vec<CandidateEvent> = Vec::new();
    let mut i: usize = 0;
    while i < n
        invariant
            n == trades@.len(),
            i <= n,
            out@.map_values(|e: CandidateEvent| event_view(e)) == collapse_events(trades@.subrange(0, i as int)),
        decreases n - i,
    {
        let ghost prefix = trades@.subrange(0, i as int);
        proof {
            let r = trades@.subrange(0, i + 1);
            assert(r.drop_last() =~= prefix);
            assert(r.last() == trades@[i as int]);
            lemma_collapse_bounds(r);
            lemma_collapse_bounds(prefix);
        }
        let t = &trades[i];
        let ghost before = out@;
        let m = out.len();
        let joins = m > 0 && str_equals(out[m - 1].symbol.as_str(), t.symbol.as_str()) && out[m - 1].event_ts_ms == t.ts_ms;
        if joins {
            let last = out.pop().unwrap();
            proof {
                assert(event_view(last) == collapse_events(prefix).last());
                assert(out@.map_values(|e: CandidateEvent| event_view(e)) =~= collapse_events(prefix).drop_last());
            }
            let first = if t.entry_ts_ms < last.first_observed_ts_ms { t.entry_ts_ms } else { last.first_observed_ts_ms };
            let merged = CandidateEvent {
                symbol: last.symbol,
                event_ts_ms: last.event_ts_ms,
                pnl_units_sum: last.pnl_units_sum + t.pnl_units as i128,
                trades: last.trades + 1,
                first_observed_ts_ms: first,
            };
            out.push(merged);
            proof {
                assert(out@.map_values(|e: CandidateEvent| event_view(e))
                    =~= collapse_events(trades@.subrange(0, i + 1)));
            }
        } else {
            proof {
                if m > 0 {
                    assert(event_view(out@[m - 1]) == collapse_events(prefix).last());
                }
            }
            out.push(CandidateEvent {
                symbol: t.symbol.clone(),
                event_ts_ms: t.ts_ms,
                pnl_units_sum: t.pnl_units as i128,
                trades: 1,
                first_observed_ts_ms: t.entry_ts_ms,
            });
            proof {
                assert(out@.map_values(|e: CandidateEvent| event_view(e))
                    =~= collapse_events(trades@.subrange(0, i + 1)));
            }
        }
        i = i + 1;
    }
    proof {
        assert(trades@.subrange(0, n as int) =~= trades@);
    }
    out
}

} // verus!
