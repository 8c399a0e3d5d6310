//! Portfolio runtime state around the engine: when to rebalance, the latest
//! assignment, a bounded history of past assignments, and which portfolio a
//! closed trade is attributed to.

use vstd::prelude::*;
use crate::arith::{clamp_i64, sat_sub_i64};
use crate::assignment::{copy_strings, spec_assign_actives};
use crate::portfolio::{PortfolioEngineV1, PortfolioStateV1, SymbolStatsV1, state_ids, state_shortlists,
    state_actives, spec_shortlists, assignment_ok, shortlists_disjoint, active_prefix, normalized_ids};
use crate::records::{PortfolioStateRecordV1, PortfolioGuardRecordV1, restore_assignment, restore_guards,
    last_rebalance_ms, latest_update, restored_shortlist, restored_actives, record_rows};
use crate::guards::{SymbolGuardStateV1, rows_to_map};
use crate::text::{strings_view, contains_str, str_equals};
use crate::drained::{DrainedTrade, guards_after, chronological, active_run_trades, collapse_events,
    sort_drained_trades_in_place, filter_active_run_trades, collapse_candidate_events};
use crate::candidates::{PnlSign, TradeCounts, CandidateBook, counts_after};

verus! {

/// Least time (ms) between two rebalances.
pub const PORTFOLIO_REBALANCE_INTERVAL_MS: i64 = 120_000;

/// Most assignment snapshots kept.
pub const PORTFOLIO_ASSIGNMENT_HISTORY_CAP: usize = 64;

/// A rebalance is due when there was none yet, or the last one is at least
/// [`PORTFOLIO_REBALANCE_INTERVAL_MS`] old.
pub open spec fn spec_rebalance_due(last_rebalance_ms: Option<i64>, now_ms: i64) -> bool {
    match last_rebalance_ms {
        None => true,
        Some(last) => clamp_i64(now_ms - last) >= PORTFOLIO_REBALANCE_INTERVAL_MS,
    }
}

/// Whether a rebalance is due at `now_ms`.
pub fn rebalance_due(last_rebalance_ms: Option<i64>, now_ms: i64) -> (due: bool)
    ensures
        due == spec_rebalance_due(last_rebalance_ms, now_ms),
{
    match last_rebalance_ms {
        None => true,
        Some(last) => sat_sub_i64(now_ms, last) >= PORTFOLIO_REBALANCE_INTERVAL_MS,
    }
}

/// An assignment seen as its ids, shortlists and active symbols.
pub open spec fn assignment_view(a: Seq<(String, PortfolioStateV1)>) -> (Seq<Seq<char>>, Seq<Seq<Seq<char>>>, Seq<Seq<Seq<char>>>) {
    (state_ids(a), state_shortlists(a), state_actives(a))
}

/// The first portfolio, from position `k` on, that holds `symbol` active.
pub open spec fn first_owner_from(
    v: (Seq<Seq<char>>, Seq<Seq<Seq<char>>>, Seq<Seq<Seq<char>>>),
    symbol: Seq<char>,
    k: int,
) -> Option<Seq<char>>
    decreases v.0.len() - k,
{
    if k < 0 || k >= v.0.len() {
        None
    } else if v.2[k].contains(symbol) {
        Some(v.0[k])
    } else {
        first_owner_from(v, symbol, k + 1)
    }
}

/// The portfolio that holds `symbol` active in an assignment, if any.
pub open spec fn owner_in(v: (Seq<Seq<char>>, Seq<Seq<Seq<char>>>, Seq<Seq<Seq<char>>>), symbol: Seq<char>) -> Option<Seq<char>> {
    first_owner_from(v, symbol, 0)
}

/// View of an optional string.
pub open spec fn opt_view(o: Option<String>) -> Option<Seq<char>> {
    match o {
        Some(s) => Some(s@),
        None => None,
    }
}

/// The first portfolio (in assignment order) that holds `symbol` active.
pub fn owner_portfolio_id_from_assignment(assignment: &[(String, PortfolioStateV1)], symbol: &str) -> (r: Option<String>)
    ensures
        opt_view(r) == owner_in(assignment_view(assignment@), symbol@),
{
    let ghost v = assignment_view(assignment@);
    let mut k: usize = 0;
    while k < assignment.len()
        invariant
            k <= assignment@.len(),
            v == assignment_view(assignment@),
            first_owner_from(v, symbol@, 0) == first_owner_from(v, symbol@, k as int),
        decreases assignment.len() - k,
    {
        if contains_str(&assignment[k].1.active_symbols, symbol) {
            return Some(assignment[k].0.clone());
        }
        k = k + 1;
    }
    None
}

/// A deep copy of an assignment.
fn copy_assignment(a: &Vec<(String, PortfolioStateV1)>) -> (r: Vec<(String, PortfolioStateV1)>)
    ensures
        assignment_view(r@) == assignment_view(a@),
{
    let mut out: Vec<(String, PortfolioStateV1)> = Vec::new();
    let mut i: usize = 0;
    while i < a.len()
        invariant
            i <= a@.len(),
            assignment_view(out@) == assignment_view(a@.take(i as int)),
        decreases a.len() - i,
    {
        let st = PortfolioStateV1 {
            shortlist: copy_strings(&a[i].1.shortlist),
            active_symbols: copy_strings(&a[i].1.active_symbols),
        };
        let ghost prev = out@;
        out.push((a[i].0.clone(), st));
        proof {
            assert(a@.take(i + 1) =~= a@.take(i as int).push(a@[i as int]));
            assert(state_ids(out@) =~= state_ids(prev).push(a@[i as int].0@));
            assert(state_ids(a@.take(i + 1)) =~= state_ids(a@.take(i as int)).push(a@[i as int].0@));
            assert(state_shortlists(out@) =~= state_shortlists(prev).push(strings_view(a@[i as int].1.shortlist@)));
            assert(state_shortlists(a@.take(i + 1)) =~= state_shortlists(a@.take(i as int)).push(strings_view(a@[i as int].1.shortlist@)));
            assert(state_actives(out@) =~= state_actives(prev).push(strings_view(a@[i as int].1.active_symbols@)));
            assert(state_actives(a@.take(i + 1)) =~= state_actives(a@.take(i as int)).push(strings_view(a@[i as int].1.active_symbols@)));
        }
        i = i + 1;
    }
    proof {
        assert(a@.take(i as int) =~= a@);
    }
    out
}

/// The assignment in force from `updated_at_ms` on.
pub struct PortfolioAssignmentSnapshot {
    pub updated_at_ms: i64,
    pub assignment: Vec<(String, PortfolioStateV1)>,
}

/// View of a snapshot: its time and its assignment.
pub open spec fn snapshot_view(s: PortfolioAssignmentSnapshot) -> (i64, (Seq<Seq<char>>, Seq<Seq<Seq<char>>>, Seq<Seq<Seq<char>>>)) {
    (s.updated_at_ms, assignment_view(s.assignment@))
}

/// History after recording assignment `av` at `ts`: a snapshot at the same
/// time as the newest one replaces it; otherwise the snapshot is appended
/// and only the newest [`PORTFOLIO_ASSIGNMENT_HISTORY_CAP`] are kept.
pub open spec fn spec_record(
    h: Seq<(i64, (Seq<Seq<char>>, Seq<Seq<Seq<char>>>, Seq<Seq<Seq<char>>>))>,
    ts: i64,
    av: (Seq<Seq<char>>, Seq<Seq<Seq<char>>>, Seq<Seq<Seq<char>>>),
) -> Seq<(i64, (Seq<Seq<char>>, Seq<Seq<Seq<char>>>, Seq<Seq<Seq<char>>>))> {
    if h.len() > 0 && h.last().0 == ts {
        h.update(h.len() - 1, (ts, av))
    } else {
        let p = h.push((ts, av));
        if p.len() > PORTFOLIO_ASSIGNMENT_HISTORY_CAP {
            p.subrange(p.len() - PORTFOLIO_ASSIGNMENT_HISTORY_CAP, p.len() as int)
        } else {
            p
        }
    }
}

/// Owner of `symbol` according to the newest snapshot taken at or before
/// `entry_ts_ms` that shows one; older snapshots are consulted when a newer
/// one has no owner for the symbol.
pub open spec fn spec_owner_at_entry(
    h: Seq<(i64, (Seq<Seq<char>>, Seq<Seq<Seq<char>>>, Seq<Seq<Seq<char>>>))>,
    symbol: Seq<char>,
    entry_ts_ms: i64,
) -> Option<Seq<char>>
    decreases h.len(),
{
    if h.len() == 0 {
        None
    } else if h.last().0 <= entry_ts_ms && owner_in(h.last().1, symbol) is Some {
        owner_in(h.last().1, symbol)
    } else {
        spec_owner_at_entry(h.drop_last(), symbol, entry_ts_ms)
    }
}

/// Past assignments, oldest first, at most [`PORTFOLIO_ASSIGNMENT_HISTORY_CAP`].
pub struct AssignmentHistory {
    snapshots: Vec<PortfolioAssignmentSnapshot>,
}

impl AssignmentHistory {
    #[verifier::type_invariant]
    spec fn inv(self) -> bool {
        self.snapshots@.len() <= PORTFOLIO_ASSIGNMENT_HISTORY_CAP
    }

    /// The snapshots, oldest first.
    pub closed spec fn view(&self) -> Seq<(i64, (Seq<Seq<char>>, Seq<Seq<Seq<char>>>, Seq<Seq<Seq<char>>>))> {
        self.snapshots@.map_values(|s: PortfolioAssignmentSnapshot| snapshot_view(s))
    }

    /// An empty history.
    pub fn new() -> (h: Self)
        ensures
            h.view() == Seq::<(i64, (Seq<Seq<char>>, Seq<Seq<Seq<char>>>, Seq<Seq<Seq<char>>>))>::empty(),
    {
        let h = AssignmentHistory { snapshots: Vec::new() };
        proof {
            assert(h.view() =~= Seq::<(i64, (Seq<Seq<char>>, Seq<Seq<Seq<char>>>, Seq<Seq<Seq<char>>>))>::empty());
        }
        h
    }

    /// Number of snapshots kept.
    pub fn len(&self) -> (n: usize)
        ensures
            n == self.view().len(),
            n <= PORTFOLIO_ASSIGNMENT_HISTORY_CAP,
    {
        proof {
            use_type_invariant(self);
        }
        self.snapshots.len()
    }

    /// Records `assignment` as in force from `updated_at_ms` (see [`spec_record`]).
    pub fn record(&mut self, assignment: &Vec<(String, PortfolioStateV1)>, updated_at_ms: i64)
        ensures
            final(self).view() == spec_record(old(self).view(), updated_at_ms, assignment_view(assignment@)),
    {
        proof {
            use_type_invariant(&*self);
        }
        let ghost h = self.view();
        let ghost av = assignment_view(assignment@);
        let mut snaps: Vec<PortfolioAssignmentSnapshot> = Vec::new();
        std::mem::swap(&mut snaps, &mut self.snapshots);
        let n = snaps.len();
        let snap = PortfolioAssignmentSnapshot { updated_at_ms, assignment: copy_assignment(assignment) };
        if n > 0 && snaps[n - 1].updated_at_ms == updated_at_ms {
            let ghost old_snaps = snaps@;
            snaps.set(n - 1, snap);
            proof {
                assert(h.last() == snapshot_view(old_snaps[n - 1]));
                assert(snaps@.map_values(|s: PortfolioAssignmentSnapshot| snapshot_view(s)) =~= h.update(h.len() - 1, (updated_at_ms, av)));
            }
            self.snapshots = snaps;
        } else {
            let ghost old_snaps = snaps@;
            snaps.push(snap);
            proof {
                if n > 0 {
                    assert(h.last() == snapshot_view(old_snaps[n - 1]));
                }
                assert(snaps@.map_values(|s: PortfolioAssignmentSnapshot| snapshot_view(s)) =~= h.push((updated_at_ms, av)));
            }
            if snaps.len() > PORTFOLIO_ASSIGNMENT_HISTORY_CAP {
                let ghost pushed = snaps@;
                let _ = snaps.remove(0);
                proof {
                    let p = h.push((updated_at_ms, av));
                    assert(snaps@ =~= pushed.subrange(1, pushed.len() as int));
                    assert(snaps@.map_values(|s: PortfolioAssignmentSnapshot| snapshot_view(s))
                        =~= p.subrange(p.len() - PORTFOLIO_ASSIGNMENT_HISTORY_CAP, p.len() as int));
                }
            }
            self.snapshots = snaps;
        }
    }

    /// Forgets every snapshot.
    pub fn clear(&mut self)
        ensures
            final(self).view() == Seq::<(i64, (Seq<Seq<char>>, Seq<Seq<Seq<char>>>, Seq<Seq<Seq<char>>>))>::empty(),
    {
        self.snapshots = Vec::new();
        proof {
            assert(self.view() =~= Seq::<(i64, (Seq<Seq<char>>, Seq<Seq<Seq<char>>>, Seq<Seq<Seq<char>>>))>::empty());
        }
    }

    /// Owner of `symbol` at `entry_ts_ms` (see [`spec_owner_at_entry`]).
    pub fn owner_at_entry_portfolio_id(&self, symbol: &str, entry_ts_ms: i64) -> (r: Option<String>)
        ensures
            opt_view(r) == spec_owner_at_entry(self.view(), symbol@, entry_ts_ms),
    {
        let ghost h = self.view();
        let mut i: usize = self.snapshots.len();
        proof {
            assert(h.take(i as int) =~= h);
        }
        while i > 0
            invariant
                i <= self.snapshots@.len(),
                h == self.view(),
                spec_owner_at_entry(h, symbol@, entry_ts_ms) == spec_owner_at_entry(h.take(i as int), symbol@, entry_ts_ms),
            decreases i,
        {
            i = i - 1;
            let snap = &self.snapshots[i];
            proof {
                assert(h.take(i + 1).drop_last() =~= h.take(i as int));
                assert(h.take(i + 1).last() == snapshot_view(*snap));
            }
            if snap.updated_at_ms <= entry_ts_ms {
                let found = owner_portfolio_id_from_assignment(snap.assignment.as_slice(), symbol);
                if found.is_some() {
                    return found;
                }
            }
        }
        None
    }
}

/// Recording an assignment and then looking up a trade entered at or after
/// that time gives the assignment's owner of the symbol, when it has one.
pub proof fn lemma_recorded_assignment_owns_later_entries(
    h: Seq<(i64, (Seq<Seq<char>>, Seq<Seq<Seq<char>>>, Seq<Seq<Seq<char>>>))>,
    ts: i64,
    av: (Seq<Seq<char>>, Seq<Seq<Seq<char>>>, Seq<Seq<Seq<char>>>),
    symbol: Seq<char>,
    entry_ts_ms: i64,
)
    requires
        ts <= entry_ts_ms,
        owner_in(av, symbol) is Some,
    ensures
        spec_owner_at_entry(spec_record(h, ts, av), symbol, entry_ts_ms) == owner_in(av, symbol),
{
    let r = spec_record(h, ts, av);
    assert(r.last() == (ts, av));
}

/// Paper-money state of a portfolio: the realized PnL of its trades in
/// fixed-point units of 1e-8 percent of the trade notional (saturating), its
/// closed, profitable and losing trade counts (saturating) and the time of its
/// latest trade.
#[derive(Debug, Clone, Copy, PartialEq, Eq, Structural)]
pub struct PortfolioPaperStateV1 {
    pub realized_pnl_units: i128,
    pub closed_trades: u64,
    pub profitable_trades: u64,
    pub losing_trades: u64,
    pub last_trade_ts_ms: Option<i64>,
}

/// The paper state of a portfolio without trades.
pub open spec fn paper_start() -> PortfolioPaperStateV1 {
    PortfolioPaperStateV1 { realized_pnl_units: 0, closed_trades: 0, profitable_trades: 0, losing_trades: 0, last_trade_ts_ms: None }
}

/// `x` clamped into the `i128` range.
pub open spec fn clamp_i128(x: int) -> i128 {
    if x > i128::MAX { i128::MAX } else if x < i128::MIN { i128::MIN } else { x as i128 }
}

/// `x + 1`, saturating at `u64::MAX`.
pub open spec fn sat_inc_u64(x: u64) -> u64 {
    if x == u64::MAX { x } else { (x + 1) as u64 }
}

/// A paper state after one more closed trade.
pub open spec fn spec_paper_observe(p: PortfolioPaperStateV1, sign: PnlSign, units: i64, ts_ms: i64) -> PortfolioPaperStateV1 {
    PortfolioPaperStateV1 {
        realized_pnl_units: clamp_i128(p.realized_pnl_units + units),
        closed_trades: sat_inc_u64(p.closed_trades),
        profitable_trades: if sign == PnlSign::Positive { sat_inc_u64(p.profitable_trades) } else { p.profitable_trades },
        losing_trades: if sign == PnlSign::Negative { sat_inc_u64(p.losing_trades) } else { p.losing_trades },
        last_trade_ts_ms: match p.last_trade_ts_ms {
            Some(t) => Some(if t < ts_ms { ts_ms } else { t }),
            None => Some(ts_ms),
        },
    }
}

/// What one closed trade does to a paper state: its signed PnL is added to
/// the realized PnL (so a loss lowers it and a gain raises it), one more trade
/// is closed, the profitable or losing count grows with the trade's sign, and
/// the latest trade time is the later of the two. Counts and PnL stop at
/// their bounds.
pub proof fn lemma_paper_observe(p: PortfolioPaperStateV1, sign: PnlSign, units: i64, ts_ms: i64)
    ensures
        ({
            let q = spec_paper_observe(p, sign, units, ts_ms);
            &&& i128::MIN <= p.realized_pnl_units + units <= i128::MAX
                ==> q.realized_pnl_units == p.realized_pnl_units + units
            &&& units < 0 && p.realized_pnl_units + units >= i128::MIN ==> q.realized_pnl_units < p.realized_pnl_units
            &&& units > 0 && p.realized_pnl_units + units <= i128::MAX ==> q.realized_pnl_units > p.realized_pnl_units
            &&& units == 0 ==> q.realized_pnl_units == p.realized_pnl_units
            &&& p.closed_trades < u64::MAX ==> q.closed_trades == p.closed_trades + 1
            &&& q.profitable_trades == p.profitable_trades + (if sign == PnlSign::Positive && p.profitable_trades < u64::MAX { 1int } else { 0int })
            &&& q.losing_trades == p.losing_trades + (if sign == PnlSign::Negative && p.losing_trades < u64::MAX { 1int } else { 0int })
            &&& q.last_trade_ts_ms is Some
            &&& q.last_trade_ts_ms->0 >= ts_ms
            &&& (q.last_trade_ts_ms->0 == ts_ms || p.last_trade_ts_ms == Some(q.last_trade_ts_ms->0))
            &&& p.last_trade_ts_ms is Some ==> q.last_trade_ts_ms->0 >= p.last_trade_ts_ms->0
        }),
{
}

impl PortfolioPaperStateV1 {
    /// No trades.
    pub fn new() -> (p: Self)
        ensures
            p == paper_start(),
    {
        PortfolioPaperStateV1 { realized_pnl_units: 0, closed_trades: 0, profitable_trades: 0, losing_trades: 0, last_trade_ts_ms: None }
    }

    /// Records a closed trade (see [`spec_paper_observe`]).
    pub fn observe_trade(&mut self, sign: PnlSign, units: i64, ts_ms: i64)
        ensures
            *final(self) == spec_paper_observe(*old(self), sign, units, ts_ms),
    {
        let u = units as i128;
        self.realized_pnl_units = if u > 0 && self.realized_pnl_units > i128::MAX - u {
            i128::MAX
        } else if u < 0 && self.realized_pnl_units < i128::MIN - u {
            i128::MIN
        } else {
            self.realized_pnl_units + u
        };
        self.closed_trades = self.closed_trades.saturating_add(1);
        match sign {
            PnlSign::Positive => { self.profitable_trades = self.profitable_trades.saturating_add(1); }
            PnlSign::Negative => { self.losing_trades = self.losing_trades.saturating_add(1); }
            PnlSign::Flat => {}
        }
        self.last_trade_ts_ms = match self.last_trade_ts_ms {
            Some(t) => Some(if t < ts_ms { ts_ms } else { t }),
            None => Some(ts_ms),
        };
    }
}

/// Views of paper states by portfolio id.
pub open spec fn paper_view(v: Seq<(String, PortfolioPaperStateV1)>) -> Seq<(Seq<char>, PortfolioPaperStateV1)> {
    v.map_values(|e: (String, PortfolioPaperStateV1)| (e.0@, e.1))
}

/// A paper state without trades for each id, in order.
pub open spec fn default_paper(ids: Seq<Seq<char>>) -> Seq<(Seq<char>, PortfolioPaperStateV1)> {
    ids.map_values(|id: Seq<char>| (id, paper_start()))
}

/// Paper states after crediting trade `t` to portfolio `owner`, if any.
pub open spec fn credit_paper(p: Seq<(Seq<char>, PortfolioPaperStateV1)>, owner: Option<Seq<char>>, t: DrainedTrade)
    -> Seq<(Seq<char>, PortfolioPaperStateV1)> {
    p.map_values(|e: (Seq<char>, PortfolioPaperStateV1)|
        if owner == Some(e.0) { (e.0, spec_paper_observe(e.1, t.pnl_sign, t.pnl_units, t.ts_ms)) } else { e })
}

/// A paper state without trades for each id.
fn default_paper_states(ids: &[String]) -> (r: Vec<(String, PortfolioPaperStateV1)>)
    ensures
        paper_view(r@) == default_paper(strings_view(ids@)),
{
    let mut out: Vec<(String, PortfolioPaperStateV1)> = Vec::new();
    let mut i: usize = 0;
    while i < ids.len()
        invariant
            i <= ids@.len(),
            paper_view(out@) == default_paper(strings_view(ids@).subrange(0, i as int)),
        decreases ids.len() - i,
    {
        let id = ids[i].clone();
        let fresh = PortfolioPaperStateV1::new();
        let ghost before = out@;
        out.push((id, fresh));
        proof {
            let d = default_paper(strings_view(ids@).subrange(0, i + 1));
            let d0 = default_paper(strings_view(ids@).subrange(0, i as int));
            assert(paper_view(before) == d0);
            assert forall|k: int| 0 <= k < i + 1 implies #[trigger] paper_view(out@)[k] == d[k] by {
                if k < i {
                    assert(out@[k] == before[k]);
                    assert(paper_view(out@)[k] == paper_view(before)[k]);
                    assert(d0[k] == d[k]);
                } else {
                    assert(out@[k] == (id, fresh));
                    assert(strings_view(ids@)[k] == ids@[k]@);
                }
            }
            assert(paper_view(out@) =~= d);
        }
        i = i + 1;
    }
    proof {
        assert(strings_view(ids@).subrange(0, ids@.len() as int) =~= strings_view(ids@));
    }
    out
}

/// Credits trade `t` to the paper state of `owner` (see [`credit_paper`]).
fn credit_paper_states(states: &mut Vec<(String, PortfolioPaperStateV1)>, owner: &Option<String>, t: &DrainedTrade)
    ensures
        paper_view(final(states)@) == credit_paper(paper_view(old(states)@), opt_view(*owner), *t),
{
    let ghost start = paper_view(states@);
    let n = states.len();
    let mut i: usize = 0;
    while i < n
        invariant
            n == states@.len(),
            i <= n,
            start.len() == n,
            forall|k: int| 0 <= k < i ==> paper_view(states@)[k] == credit_paper(start, opt_view(*owner), *t)[k],
            forall|k: int| i <= k < n ==> paper_view(states@)[k] == start[k],
        decreases n - i,
    {
        let hit = match owner {
            Some(o) => str_equals(states[i].0.as_str(), o.as_str()),
            None => false,
        };
        if hit {
            let id = states[i].0.clone();
            let mut p = states[i].1;
            p.observe_trade(t.pnl_sign, t.pnl_units, t.ts_ms);
            let ghost before = states@;
            states.set(i, (id, p));
            proof {
                assert forall|k: int| 0 <= k < n && k != i implies paper_view(states@)[k] == paper_view(before)[k] by {
                    assert(states@[k] == before[k]);
                }
                assert(paper_view(before)[i as int] == start[i as int]);
                assert(paper_view(states@)[i as int] == credit_paper(start, opt_view(*owner), *t)[i as int]);
                assert forall|k: int| 0 <= k < i + 1 implies paper_view(states@)[k] == credit_paper(start, opt_view(*owner), *t)[k] by {
                    if k < i {
                        assert(paper_view(states@)[k] == paper_view(before)[k]);
                    }
                }
                assert forall|k: int| i + 1 <= k < n implies paper_view(states@)[k] == start[k] by {
                    assert(paper_view(states@)[k] == paper_view(before)[k]);
                }
            }
        } else {
            proof {
                assert(paper_view(states@)[i as int] == start[i as int]);
                assert(opt_view(*owner) != Some(start[i as int].0));
                assert(credit_paper(start, opt_view(*owner), *t)[i as int] == start[i as int]);
            }
        }
        i = i + 1;
    }
    proof {
        assert(paper_view(states@) =~= credit_paper(start, opt_view(*owner), *t));
    }
}

/// The portfolio runtime: engine, last rebalance time, latest assignment,
/// assignment history, paper states by portfolio, the candidate history and
/// the run whose trades feed it.
pub struct PortfolioRuntimeState {
    pub engine: PortfolioEngineV1,
    pub last_rebalance_ms: Option<i64>,
    pub latest_assignment: Vec<(String, PortfolioStateV1)>,
    pub history: AssignmentHistory,
    pub paper_states: Vec<(String, PortfolioPaperStateV1)>,
    pub candidates: CandidateBook,
    pub active_run_id: Option<String>,
}

/// The paper states a runtime uses: its own when they are one per configured
/// portfolio in order, else fresh ones for the configured portfolios.
pub open spec fn paper_slots(rt: PortfolioRuntimeState) -> Seq<(Seq<char>, PortfolioPaperStateV1)> {
    if paper_view(rt.paper_states@).map_values(|e: (Seq<char>, PortfolioPaperStateV1)| e.0) == rt.engine.ids() {
        paper_view(rt.paper_states@)
    } else {
        default_paper(rt.engine.ids())
    }
}

/// The portfolio a trade of `symbol` entered at `entry_ts_ms` is credited
/// to: its owner at entry when that is a configured portfolio, else the
/// portfolio holding it active now.
pub open spec fn spec_trade_owner(rt: PortfolioRuntimeState, symbol: Seq<char>, entry_ts_ms: i64) -> Option<Seq<char>> {
    let at_entry = spec_owner_at_entry(rt.history.view(), symbol, entry_ts_ms);
    if at_entry is Some && rt.engine.ids().contains(at_entry->0) {
        at_entry
    } else {
        owner_in(assignment_view(rt.latest_assignment@), symbol)
    }
}

/// Paper states after crediting each trade, in order, to its owner in `rt`.
pub open spec fn paper_after(p: Seq<(Seq<char>, PortfolioPaperStateV1)>, rt: PortfolioRuntimeState, trades: Seq<DrainedTrade>)
    -> Seq<(Seq<char>, PortfolioPaperStateV1)>
    decreases trades.len(),
{
    if trades.len() == 0 {
        p
    } else {
        let t = trades.last();
        credit_paper(paper_after(p, rt, trades.drop_last()), spec_trade_owner(rt, t.symbol@, t.entry_ts_ms), t)
    }
}

/// `(id, empty state)` for each id, in order.
fn empty_assignment(ids: &[String]) -> (r: Vec<(String, PortfolioStateV1)>)
    ensures
        state_ids(r@) == strings_view(ids@),
        forall|k: int| 0 <= k < r@.len() ==> #[trigger] state_shortlists(r@)[k].len() == 0,
        forall|k: int| 0 <= k < r@.len() ==> #[trigger] state_actives(r@)[k].len() == 0,
{
    let mut out: Vec<(String, PortfolioStateV1)> = Vec::new();
    let mut i: usize = 0;
    while i < ids.len()
        invariant
            i <= ids@.len(),
            out@.len() == i,
            forall|k: int| 0 <= k < i ==> (#[trigger] out@[k]).0@ == ids@[k]@
                && out@[k].1.shortlist@.len() == 0 && out@[k].1.active_symbols@.len() == 0,
        decreases ids.len() - i,
    {
        out.push((ids[i].clone(), PortfolioStateV1 { shortlist: Vec::new(), active_symbols: Vec::new() }));
        i = i + 1;
    }
    proof {
        assert(state_ids(out@) =~= strings_view(ids@));
    }
    out
}

impl PortfolioRuntimeState {
    /// A runtime with a fresh engine, no assignment and no history.
    pub fn new() -> (s: Self)
        ensures
            s.engine.guard_map() == Map::<Seq<char>, SymbolGuardStateV1>::empty(),
            s.last_rebalance_ms is None,
            s.latest_assignment@.len() == 0,
            s.history.view().len() == 0,
            paper_view(s.paper_states@) == default_paper(s.engine.ids()),
            s.candidates.view() == Map::<Seq<char>, TradeCounts>::empty(),
            s.active_run_id is None,
    {
        let engine = PortfolioEngineV1::new();
        let paper_states = default_paper_states(engine.portfolio_ids());
        PortfolioRuntimeState {
            engine,
            last_rebalance_ms: None,
            latest_assignment: Vec::new(),
            history: AssignmentHistory::new(),
            paper_states,
            candidates: CandidateBook::new(),
            active_run_id: None,
        }
    }

    /// Sets the run whose trades feed the candidate history; switching to
    /// another run forgets the candidate history.
    pub fn set_run_id(&mut self, run_id: Option<String>)
        ensures
            opt_view(final(self).active_run_id) == opt_view(run_id),
            opt_view(run_id) != opt_view(old(self).active_run_id) ==>
                final(self).candidates.view() == Map::<Seq<char>, TradeCounts>::empty(),
            opt_view(run_id) == opt_view(old(self).active_run_id) ==>
                final(self).candidates.view() == old(self).candidates.view(),
            final(self).engine.ids() == old(self).engine.ids(),
            final(self).engine.guard_map() == old(self).engine.guard_map(),
            final(self).last_rebalance_ms == old(self).last_rebalance_ms,
            final(self).latest_assignment@ == old(self).latest_assignment@,
            final(self).history.view() == old(self).history.view(),
            final(self).paper_states@ == old(self).paper_states@,
    {
        let same = match (&self.active_run_id, &run_id) {
            (None, None) => true,
            (Some(a), Some(b)) => str_equals(a.as_str(), b.as_str()),
            _ => false,
        };
        if !same {
            self.candidates.clear();
        }
        self.active_run_id = run_id;
    }

    /// Replaces the portfolio ids: every portfolio starts with an empty
    /// state, the history is forgotten and a rebalance becomes due.
    pub fn set_portfolio_ids_v1(&mut self, portfolio_ids: Vec<String>)
        ensures
            final(self).engine.ids() == normalized_ids(strings_view(portfolio_ids@)),
            final(self).engine.guard_map() == old(self).engine.guard_map(),
            state_ids(final(self).latest_assignment@) == final(self).engine.ids(),
            forall|k: int| 0 <= k < final(self).latest_assignment@.len() ==>
                #[trigger] state_actives(final(self).latest_assignment@)[k].len() == 0
                && state_shortlists(final(self).latest_assignment@)[k].len() == 0,
            final(self).history.view().len() == 0,
            final(self).last_rebalance_ms is None,
            paper_view(final(self).paper_states@) == default_paper(final(self).engine.ids()),
            final(self).candidates.view() == old(self).candidates.view(),
    {
        self.engine.set_portfolio_ids(portfolio_ids);
        self.paper_states = default_paper_states(self.engine.portfolio_ids());
        self.latest_assignment = empty_assignment(self.engine.portfolio_ids());
        self.history.clear();
        self.last_rebalance_ms = None;
    }

    /// Makes the paper states one per configured portfolio (see [`paper_slots`]).
    fn ensure_paper_slots(&mut self)
        ensures
            paper_view(final(self).paper_states@) == paper_slots(*old(self)),
            final(self).engine == old(self).engine,
            final(self).last_rebalance_ms == old(self).last_rebalance_ms,
            final(self).latest_assignment == old(self).latest_assignment,
            final(self).history == old(self).history,
            final(self).candidates == old(self).candidates,
            final(self).active_run_id == old(self).active_run_id,
    {
        let ids = self.engine.portfolio_ids();
        let mut same = self.paper_states.len() == ids.len();
        proof {
            if !same {
                assert(paper_view(self.paper_states@).map_values(|e: (Seq<char>, PortfolioPaperStateV1)| e.0).len() != strings_view(ids@).len());
            }
        }
        let mut i: usize = 0;
        while same && i < ids.len()
            invariant
                i <= ids@.len(),
                same ==> self.paper_states@.len() == ids@.len(),
                same ==> forall|k: int| 0 <= k < i ==> #[trigger] self.paper_states@[k].0@ == ids@[k]@,
                !same ==> paper_view(self.paper_states@).map_values(|e: (Seq<char>, PortfolioPaperStateV1)| e.0) != strings_view(ids@),
            decreases ids.len() - i,
        {
            if !str_equals(self.paper_states[i].0.as_str(), ids[i].as_str()) {
                proof {
                    let v = paper_view(self.paper_states@).map_values(|e: (Seq<char>, PortfolioPaperStateV1)| e.0);
                    assert(v[i as int] != strings_view(ids@)[i as int]);
                }
                same = false;
            }
            i = i + 1;
        }
        proof {
            if same {
                assert(paper_view(self.paper_states@).map_values(|e: (Seq<char>, PortfolioPaperStateV1)| e.0) =~= strings_view(ids@));
            } else if self.paper_states@.len() != ids@.len() {
                assert(paper_view(self.paper_states@).map_values(|e: (Seq<char>, PortfolioPaperStateV1)| e.0).len() != strings_view(ids@).len());
            }
        }
        if !same {
            self.paper_states = default_paper_states(self.engine.portfolio_ids());
        }
    }

    /// Handles trades drained from the fleets and returns how many were
    /// drained; nothing happens without trades. Otherwise, over the trades in
    /// chronological order (see [`chronological`]):
    /// - the trades of the active run (see [`active_run_trades`]), merged per
    ///   symbol and close time (see [`collapse_events`]), feed the candidate
    ///   history, one observation per merged event (see [`counts_after`]);
    /// - every trade updates its symbol's guard (see [`guards_after`]);
    /// - every trade is credited to the paper state of the portfolio that
    ///   owned its symbol at entry, else of the one holding it active now (see
    ///   [`paper_after`], over the paper slots of [`paper_slots`]).
    ///
    /// The assignment, its history, the rebalance time and the run stay.
    pub fn handle_drained_fleet_trades(&mut self, trades: Vec<DrainedTrade>) -> (drained: usize)
        ensures
            drained == trades@.len(),
            final(self).engine.guard_map() == guards_after(old(self).engine.guard_map(), chronological(trades@)),
            final(self).engine.ids() == old(self).engine.ids(),
            final(self).last_rebalance_ms == old(self).last_rebalance_ms,
            final(self).latest_assignment@ == old(self).latest_assignment@,
            final(self).history.view() == old(self).history.view(),
            opt_view(final(self).active_run_id) == opt_view(old(self).active_run_id),
            final(self).candidates.view() == counts_after(old(self).candidates.view(),
                collapse_events(active_run_trades(chronological(trades@), opt_view(old(self).active_run_id)))),
            trades@.len() == 0 ==> final(self).paper_states@ == old(self).paper_states@,
            trades@.len() > 0 ==> paper_view(final(self).paper_states@)
                == paper_after(paper_slots(*old(self)), *old(self), chronological(trades@)),
    {
        let drained = trades.len();
        if drained == 0 {
            proof {
                assert(trades@ =~= Seq::<DrainedTrade>::empty());
                assert(chronological(trades@) =~= Seq::<DrainedTrade>::empty()) by {
                    reveal_with_fuel(chronological, 1);
                }
                assert(active_run_trades(chronological(trades@), opt_view(self.active_run_id)) =~= Seq::<DrainedTrade>::empty());
            }
            return 0;
        }
        let ghost old_rt = *self;
        let ghost input = trades@;
        let mut trades = trades;
        sort_drained_trades_in_place(&mut trades);
        let ghost sorted = trades@;
        let active_run: Option<&str> = match &self.active_run_id {
            Some(r) => Some(r.as_str()),
            None => None,
        };
        proof {
            assert(match active_run { Some(a) => Some(a@), None => None::<Seq<char>> } == opt_view(old_rt.active_run_id));
        }
        let active = filter_active_run_trades(trades.as_slice(), active_run);
        let events = collapse_candidate_events(active.as_slice());
        self.candidates.observe_events(&events);
        let ghost c1 = self.candidates;
        proof {
            assert(c1.view() == counts_after(old_rt.candidates.view(),
                collapse_events(active_run_trades(chronological(input), opt_view(old_rt.active_run_id)))));
        }
        self.ensure_paper_slots();
        let ghost g0 = self.engine.guard_map();
        let ghost p0 = paper_view(self.paper_states@);
        let n = trades.len();
        let mut i: usize = 0;
        while i < n
            invariant
                n == sorted.len(),
                trades@ == sorted,
                i <= n,
                self.engine.guard_map() == guards_after(g0, sorted.subrange(0, i as int)),
                self.engine.ids() == old_rt.engine.ids(),
                self.history == old_rt.history,
                self.latest_assignment == old_rt.latest_assignment,
                self.last_rebalance_ms == old_rt.last_rebalance_ms,
                self.active_run_id == old_rt.active_run_id,
                self.candidates == c1,
                paper_view(self.paper_states@) == paper_after(p0, old_rt, sorted.subrange(0, i as int)),
            decreases n - i,
        {
            let t = &trades[i];
            proof {
                let r = sorted.subrange(0, i + 1);
                assert(r.drop_last() =~= sorted.subrange(0, i as int));
                assert(r.last() == sorted[i as int]);
            }
            let positive = match t.pnl_sign { PnlSign::Positive => true, _ => false };
            self.engine.record_closed_trade(t.symbol.as_str(), positive, t.is_stop_loss, t.ts_ms);
            let owner = self.trade_owner_portfolio_id(t.symbol.as_str(), t.entry_ts_ms);
            proof {
                assert(opt_view(owner) == spec_trade_owner(old_rt, t.symbol@, t.entry_ts_ms));
            }
            credit_paper_states(&mut self.paper_states, &owner, t);
            i = i + 1;
        }
        proof {
            assert(sorted.subrange(0, n as int) =~= sorted);
        }
        drained
    }

    /// Rebalances when due (see [`spec_rebalance_due`]): assigns the
    /// candidates (see [`PortfolioEngineV1::assign_without_overlap`]),
    /// records the time and appends the assignment to the history. Returns
    /// whether it rebalanced; otherwise nothing changes.
    pub fn maybe_rebalance_portfolios(&mut self, candidates: &[SymbolStatsV1], now_ms: i64) -> (rebalanced: bool)
        ensures
            rebalanced == spec_rebalance_due(old(self).last_rebalance_ms, now_ms),
            final(self).engine.ids() == old(self).engine.ids(),
            final(self).engine.guard_map() == old(self).engine.guard_map(),
            !rebalanced ==> final(self).last_rebalance_ms == old(self).last_rebalance_ms
                && assignment_view(final(self).latest_assignment@) == assignment_view(old(self).latest_assignment@)
                && final(self).history.view() == old(self).history.view(),
            rebalanced ==> ({
                let states = final(self).latest_assignment@;
                &&& final(self).last_rebalance_ms == Some(now_ms)
                &&& state_ids(states) == old(self).engine.ids()
                &&& state_shortlists(states) == spec_shortlists(old(self).engine.pool_of(candidates@, now_ms), old(self).engine.ids().len())
                &&& assignment_ok(state_shortlists(states), state_actives(states))
                &&& state_actives(states) == spec_assign_actives(state_shortlists(states))
                &&& shortlists_disjoint(state_shortlists(states)) ==> forall|k: int| 0 <= k < states.len() ==>
                        #[trigger] state_actives(states)[k] == active_prefix(state_shortlists(states)[k])
                &&& final(self).history.view() == spec_record(old(self).history.view(), now_ms, assignment_view(states))
            }),
    {
        if !rebalance_due(self.last_rebalance_ms, now_ms) {
            return false;
        }
        self.latest_assignment = self.engine.assign_without_overlap(candidates, now_ms);
        self.last_rebalance_ms = Some(now_ms);
        self.history.record(&self.latest_assignment, now_ms);
        true
    }

    /// Restores the runtime from persisted records: each configured portfolio
    /// takes its latest state record (or an empty state), guards are replaced
    /// by the guard records, the last rebalance time is the latest record time,
    /// and when there is one the restored assignment is recorded at it.
    pub fn restore_from_records(&mut self, states: &[PortfolioStateRecordV1], guards: &[PortfolioGuardRecordV1])
        ensures
            final(self).engine.ids() == old(self).engine.ids(),
            final(self).engine.guard_map() == rows_to_map(record_rows(guards@)),
            state_ids(final(self).latest_assignment@) == old(self).engine.ids(),
            forall|k: int| 0 <= k < final(self).latest_assignment@.len() ==>
                #[trigger] state_shortlists(final(self).latest_assignment@)[k] == restored_shortlist(states@, old(self).engine.ids()[k])
                && state_actives(final(self).latest_assignment@)[k] == restored_actives(states@, old(self).engine.ids()[k]),
            final(self).last_rebalance_ms == latest_update(states@, guards@),
            final(self).history.view() == match latest_update(states@, guards@) {
                Some(ts) => spec_record(old(self).history.view(), ts, assignment_view(final(self).latest_assignment@)),
                None => old(self).history.view(),
            },
    {
        let ids = self.engine.portfolio_ids();
        let restored = restore_assignment(ids, states);
        proof {
            assert forall|k: int| 0 <= k < restored@.len() implies
                #[trigger] state_shortlists(restored@)[k] == restored_shortlist(states@, self.engine.ids()[k])
                && state_actives(restored@)[k] == restored_actives(states@, self.engine.ids()[k]) by {
                assert(state_ids(restored@)[k] == restored@[k].0@);
                assert(state_ids(restored@).len() == strings_view(ids@).len());
                assert(strings_view(ids@)[k] == ids@[k]@);
            }
        }
        self.latest_assignment = restored;
        restore_guards(&mut self.engine, guards);
        self.last_rebalance_ms = last_rebalance_ms(states, guards);
        if let Some(ts) = self.last_rebalance_ms {
            self.history.record(&self.latest_assignment, ts);
        }
    }

    /// The portfolio a closed trade is attributed to: the owner of the symbol
    /// at the trade's entry (see [`AssignmentHistory::owner_at_entry_portfolio_id`])
    /// when that is a configured portfolio, else the portfolio that holds the
    /// symbol active now.
    pub fn trade_owner_portfolio_id(&self, symbol: &str, entry_ts_ms: i64) -> (r: Option<String>)
        ensures
            ({
                let at_entry = spec_owner_at_entry(self.history.view(), symbol@, entry_ts_ms);
                opt_view(r) == if at_entry is Some && self.engine.ids().contains(at_entry->0) {
                    at_entry
                } else {
                    owner_in(assignment_view(self.latest_assignment@), symbol@)
                }
            }),
    {
        let found = self.history.owner_at_entry_portfolio_id(symbol, entry_ts_ms);
        if let Some(id) = found {
            let ids = self.engine.portfolio_ids();
            let mut k: usize = 0;
            while k < ids.len()
                invariant
                    k <= ids@.len(),
                    strings_view(ids@) == self.engine.ids(),
                    spec_owner_at_entry(self.history.view(), symbol@, entry_ts_ms) == Some(id@),
                    forall|j: int| 0 <= j < k ==> ids@[j]@ != id@,
                decreases ids.len() - k,
            {
                if str_equals(ids[k].as_str(), id.as_str()) {
                    proof {
                        assert(self.engine.ids()[k as int] == id@);
                        assert(self.engine.ids().contains(id@));
                    }
                    return Some(id);
                }
                k = k + 1;
            }
            proof {
                if self.engine.ids().contains(id@) {
                    let j = choose|j: int| 0 <= j < self.engine.ids().len() && self.engine.ids()[j] == id@;
                    assert(ids@[j]@ == id@);
                }
            }
        }
        owner_portfolio_id_from_assignment(self.latest_assignment.as_slice(), symbol)
    }
}

} // verus!
