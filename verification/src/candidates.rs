//! Per-symbol closed-trade history and the candidate statistics the
//! portfolio ranking reads from it.

use vstd::prelude::*;
use crate::arith::{clamp_i64, sat_sub_i64};
use crate::portfolio::SymbolStatsV1;
use crate::drained::{CandidateEvent, event_view};
use vstd::hash_map::StringHashMap;

verus! {

/// Sign of a closed trade's PnL (an undefined PnL counts as flat).
#[derive(Debug, Clone, Copy, PartialEq, Eq, Structural)]
pub enum PnlSign {
    Positive,
    Negative,
    Flat,
}

/// Counts of closed trades of one symbol and the time of the first one.
#[derive(Debug, Clone, Copy, PartialEq, Eq, Default, Structural)]
pub struct TradeCounts {
    pub closed_trades: u32,
    pub profitable_trades: u32,
    pub losing_trades: u32,
    pub first_observed_ts_ms: Option<i64>,
}

/// `x + 1`, saturating at `u32::MAX`.
pub open spec fn sat_inc(x: u32) -> u32 {
    if x == u32::MAX { x } else { (x + 1) as u32 }
}

/// Counts after one more closed trade at `ts_ms`.
pub open spec fn spec_observe(c: TradeCounts, sign: PnlSign, ts_ms: i64) -> TradeCounts {
    TradeCounts {
        closed_trades: sat_inc(c.closed_trades),
        profitable_trades: if sign == PnlSign::Positive { sat_inc(c.profitable_trades) } else { c.profitable_trades },
        losing_trades: if sign == PnlSign::Negative { sat_inc(c.losing_trades) } else { c.losing_trades },
        first_observed_ts_ms: match c.first_observed_ts_ms {
            Some(t) => Some(if t < ts_ms { t } else { ts_ms }),
            None => Some(ts_ms),
        },
    }
}

impl TradeCounts {
    /// No trades.
    pub fn new() -> (c: Self)
        ensures
            c == (TradeCounts { closed_trades: 0, profitable_trades: 0, losing_trades: 0, first_observed_ts_ms: None }),
    {
        TradeCounts { closed_trades: 0, profitable_trades: 0, losing_trades: 0, first_observed_ts_ms: None }
    }

    /// Records one closed trade (see [`spec_observe`]).
    pub fn observe(&mut self, sign: PnlSign, ts_ms: i64)
        ensures
            *final(self) == spec_observe(*old(self), sign, ts_ms),
    {
        self.closed_trades = self.closed_trades.saturating_add(1);
        match sign {
            PnlSign::Positive => { self.profitable_trades = self.profitable_trades.saturating_add(1); }
            PnlSign::Negative => { self.losing_trades = self.losing_trades.saturating_add(1); }
            PnlSign::Flat => {}
        }
        self.first_observed_ts_ms = match self.first_observed_ts_ms {
            Some(t) => Some(if t < ts_ms { t } else { ts_ms }),
            None => Some(ts_ms),
        };
    }
}

/// Whole minutes from `first_ms` to `now_ms`, 0 when `first_ms` is later.
pub open spec fn spec_age_minutes(now_ms: i64, first_ms: i64) -> int {
    let d = clamp_i64(now_ms - first_ms);
    if d < 0 { 0 } else { d / 60_000 }
}

/// Age of a candidate in whole minutes, counted from the symbol's first
/// tick, else its first observed trade, else now.
pub fn candidate_age_minutes(now_ms: i64, first_tick_ms: Option<i64>, first_observed_ts_ms: Option<i64>) -> (age: u64)
    ensures
        age == spec_age_minutes(now_ms, match first_tick_ms {
            Some(t) => t,
            None => match first_observed_ts_ms { Some(t) => t, None => now_ms },
        }),
{
    let first: i64 = match first_tick_ms {
        Some(t) => t,
        None => match first_observed_ts_ms {
            Some(t) => t,
            None => now_ms,
        },
    };
    let d = sat_sub_i64(now_ms, first);
    if d < 0 {
        0
    } else {
        (d / 60_000) as u64
    }
}

/// Candidate statistics of `symbol` from its trade counts; `avg_pnl_key` is
/// the order key of its average PnL (see [`SymbolStatsV1`]).
pub fn candidate_stats(
    symbol: String,
    counts: &TradeCounts,
    first_tick_ms: Option<i64>,
    avg_pnl_key: i64,
    now_ms: i64,
) -> (s: SymbolStatsV1)
    ensures
        s.symbol == symbol,
        s.age_minutes_from_first_tick == spec_age_minutes(now_ms, match first_tick_ms {
            Some(t) => t,
            None => match counts.first_observed_ts_ms { Some(t) => t, None => now_ms },
        }),
        s.closed_trades == counts.closed_trades,
        s.profitable_trades == counts.profitable_trades,
        s.losing_trades == counts.losing_trades,
        s.avg_pnl_key == avg_pnl_key,
{
    SymbolStatsV1 {
        symbol,
        age_minutes_from_first_tick: candidate_age_minutes(now_ms, first_tick_ms, counts.first_observed_ts_ms),
        closed_trades: counts.closed_trades,
        profitable_trades: counts.profitable_trades,
        losing_trades: counts.losing_trades,
        avg_pnl_key,
    }
}

/// Counts restored from a persisted history row: rows without closed trades
/// are skipped, and the profitable and losing counts are capped by the
/// closed count.
pub fn restore_trade_counts(closed_trades: u32, profitable_trades: u32, losing_trades: u32, first_trade_ts_ms: Option<i64>)
    -> (c: Option<TradeCounts>)
    ensures
        closed_trades == 0 ==> c is None,
        closed_trades > 0 ==> c == Some(TradeCounts {
            closed_trades,
            profitable_trades: if profitable_trades < closed_trades { profitable_trades } else { closed_trades },
            losing_trades: if losing_trades < closed_trades { losing_trades } else { closed_trades },
            first_observed_ts_ms: first_trade_ts_ms,
        }),
{
    if closed_trades == 0 {
        return None;
    }
    Some(TradeCounts {
        closed_trades,
        profitable_trades: if profitable_trades < closed_trades { profitable_trades } else { closed_trades },
        losing_trades: if losing_trades < closed_trades { losing_trades } else { closed_trades },
        first_observed_ts_ms: first_trade_ts_ms,
    })
}

/// The first observed trade time never increases, and the counts never
/// decrease, over any run of closed trades.
pub proof fn lemma_observe_monotone(c: TradeCounts, sign: PnlSign, ts_ms: i64)
    ensures
        spec_observe(c, sign, ts_ms).closed_trades >= c.closed_trades,
        spec_observe(c, sign, ts_ms).profitable_trades >= c.profitable_trades,
        spec_observe(c, sign, ts_ms).losing_trades >= c.losing_trades,
        spec_observe(c, sign, ts_ms).first_observed_ts_ms is Some,
        c.first_observed_ts_ms is Some ==> spec_observe(c, sign, ts_ms).first_observed_ts_ms->0 <= c.first_observed_ts_ms->0,
        spec_observe(c, sign, ts_ms).first_observed_ts_ms->0 <= ts_ms,
{
}

/// Sign of a summed PnL.
pub open spec fn sign_of_sum(sum: int) -> PnlSign {
    if sum > 0 { PnlSign::Positive } else if sum < 0 { PnlSign::Negative } else { PnlSign::Flat }
}

/// Counts of a symbol, none when it has no history.
pub open spec fn counts_or_new(m: Map<Seq<char>, TradeCounts>, symbol: Seq<char>) -> TradeCounts {
    if m.contains_key(symbol) {
        m[symbol]
    } else {
        TradeCounts { closed_trades: 0, profitable_trades: 0, losing_trades: 0, first_observed_ts_ms: None }
    }
}

/// Trade counts after candidate events (symbol, time, summed PnL, trades,
/// earliest entry), each observed once at its earliest entry time with the
/// sign of its summed (so also of its average) PnL.
pub open spec fn counts_after(m: Map<Seq<char>, TradeCounts>, events: Seq<(Seq<char>, i64, int, nat, i64)>) -> Map<Seq<char>, TradeCounts>
    decreases events.len(),
{
    if events.len() == 0 {
        m
    } else {
        let prev = counts_after(m, events.drop_last());
        let e = events.last();
        prev.insert(e.0, spec_observe(counts_or_new(prev, e.0), sign_of_sum(e.2), e.4))
    }
}

/// Trade counts of every symbol with candidate history.
pub struct CandidateBook {
    counts: StringHashMap<TradeCounts>,
}

impl CandidateBook {
    /// Counts per symbol.
    pub closed spec fn view(&self) -> Map<Seq<char>, TradeCounts> {
        self.counts@
    }

    /// No history.
    pub fn new() -> (b: Self)
        ensures
            b.view() == Map::<Seq<char>, TradeCounts>::empty(),
    {
        CandidateBook { counts: StringHashMap::new() }
    }

    /// Forgets all history.
    pub fn clear(&mut self)
        ensures
            final(self).view() == Map::<Seq<char>, TradeCounts>::empty(),
    {
        self.counts.clear();
    }

    /// Number of symbols with history.
    pub fn len(&self) -> (n: usize)
        ensures
            n == self.view().len(),
    {
        self.counts.len()
    }

    /// Counts of `symbol`, if it has history.
    pub fn get(&self, symbol: &str) -> (r: Option<TradeCounts>)
        ensures
            match r {
                Some(c) => self.view().contains_key(symbol@) && c == self.view()[symbol@],
                None => !self.view().contains_key(symbol@),
            },
    {
        match self.counts.get(symbol) {
            Some(c) => Some(*c),
            None => None,
        }
    }

    /// Records one closed trade, or one merged event, of `symbol` (see [`spec_observe`]).
    pub fn observe(&mut self, symbol: &str, sign: PnlSign, ts_ms: i64)
        ensures
            final(self).view() == old(self).view().insert(symbol@,
                spec_observe(counts_or_new(old(self).view(), symbol@), sign, ts_ms)),
    {
        let mut c = match self.counts.get(symbol) {
            Some(c) => *c,
            None => TradeCounts::new(),
        };
        c.observe(sign, ts_ms);
        self.counts.insert(symbol.to_string(), c);
    }

    /// Records candidate events in order (see [`counts_after`]).
    pub fn observe_events(&mut self, events: &Vec<CandidateEvent>)
        ensures
            final(self).view() == counts_after(old(self).view(), events@.map_values(|e: CandidateEvent| event_view(e))),
    {
        let ghost evs = events@.map_values(|e: CandidateEvent| event_view(e));
        let ghost start = self.view();
        let n = events.len();
        let mut i: usize = 0;
        while i < n
            invariant
                n == events@.len(),
                i <= n,
                evs == events@.map_values(|e: CandidateEvent| event_view(e)),
                self.view() == counts_after(start, evs.subrange(0, i as int)),
            decreases n - i,
        {
            let e = &events[i];
            let sign = if e.pnl_units_sum > 0 {
                PnlSign::Positive
            } else if e.pnl_units_sum < 0 {
                PnlSign::Negative
            } else {
                PnlSign::Flat
            };
            proof {
                let r = evs.subrange(0, i + 1);
                assert(r.drop_last() =~= evs.subrange(0, i as int));
                assert(r.last() == event_view(events@[i as int]));
            }
            self.observe(e.symbol.as_str(), sign, e.first_observed_ts_ms);
            i = i + 1;
        }
        proof {
            assert(evs.subrange(0, n as int) =~= evs);
        }
    }
}

} // verus!
