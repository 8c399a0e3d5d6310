//! Stop-loss streak guards with cooldowns, kept per symbol.

use vstd::prelude::*;
use vstd::utf8::encode_utf8;
use vstd::string::StringSliceAdditionalSpecFns;
use crate::arith::{clamp_i64, sat_add_i64, sat_sub_i64};
use crate::text::{compare_str, lex_order, Comparison, lemma_lex_order_total, lemma_lex_order_transitive,
    lemma_encode_utf8_injective};
use crate::portfolio::{COOLDOWN_MS, FAST_STREAK_WINDOW_MS};

verus! {

/// Stop-loss streak and cooldown state of one symbol.
#[derive(Debug, Clone, Copy, PartialEq, Eq, Structural)]
pub struct SymbolGuardStateV1 {
    pub streak_count: u32,
    pub first_streak_ts_ms: Option<i64>,
    pub cooldown_until_ms: Option<i64>,
}

/// The state of a symbol that has never been guarded.
pub open spec fn default_guard() -> SymbolGuardStateV1 {
    SymbolGuardStateV1 { streak_count: 0, first_streak_ts_ms: None, cooldown_until_ms: None }
}

impl Default for SymbolGuardStateV1 {
    fn default() -> (g: Self)
        ensures
            g == default_guard(),
    {
        SymbolGuardStateV1 { streak_count: 0, first_streak_ts_ms: None, cooldown_until_ms: None }
    }
}

/// Effect of one closed trade on a guard; the boolean tells whether a cooldown
/// was triggered. A profitable trade resets the streak; a losing trade that is
/// not a stop-loss changes nothing; a stop-loss extends the streak, and a
/// streak of 5 within [`FAST_STREAK_WINDOW_MS`] of its first stop-loss, or any
/// streak of 6, starts a cooldown of [`COOLDOWN_MS`] and resets the streak.
pub open spec fn guard_step(g: SymbolGuardStateV1, pnl_positive: bool, is_stop_loss: bool, ts_ms: i64) -> (SymbolGuardStateV1, bool) {
    if pnl_positive {
        (SymbolGuardStateV1 { streak_count: 0, first_streak_ts_ms: None, ..g }, false)
    } else if !is_stop_loss {
        (g, false)
    } else {
        let first = if g.streak_count == 0 { Some(ts_ms) } else { g.first_streak_ts_ms };
        let streak: u32 = if g.streak_count == u32::MAX { u32::MAX } else { (g.streak_count + 1) as u32 };
        let first_ts: i64 = match first { Some(t) => t, None => ts_ms };
        let fast = streak >= 5 && clamp_i64(ts_ms - first_ts) <= FAST_STREAK_WINDOW_MS;
        let persistent = streak >= 6;
        if fast || persistent {
            (SymbolGuardStateV1 {
                streak_count: 0,
                first_streak_ts_ms: None,
                cooldown_until_ms: Some(clamp_i64(ts_ms + COOLDOWN_MS) as i64),
            }, true)
        } else {
            (SymbolGuardStateV1 { streak_count: streak, first_streak_ts_ms: first, cooldown_until_ms: g.cooldown_until_ms }, false)
        }
    }
}

/// The guard of `symbol` in `guards`, or the default guard.
pub open spec fn guard_or_default(guards: Map<Seq<char>, SymbolGuardStateV1>, symbol: Seq<char>) -> SymbolGuardStateV1 {
    if guards.contains_key(symbol) { guards[symbol] } else { default_guard() }
}

/// Guards and trigger flags after each of a run of losing stop-loss trades at
/// the times `ts`, starting from `g`.
pub open spec fn stop_loss_run(g: SymbolGuardStateV1, ts: Seq<i64>) -> Seq<(SymbolGuardStateV1, bool)>
    decreases ts.len(),
{
    if ts.len() == 0 {
        Seq::empty()
    } else {
        let prev = stop_loss_run(g, ts.drop_last());
        let cur = if prev.len() == 0 { g } else { prev.last().0 };
        prev.push(guard_step(cur, false, true, ts.last()))
    }
}

/// Six losing stop-losses in a row on a fresh streak: the first four never
/// start a cooldown; the fifth starts one exactly when it comes within
/// [`FAST_STREAK_WINDOW_MS`] of the first; if it does not, the sixth always
/// starts one.
pub proof fn lemma_stop_loss_streak(g: SymbolGuardStateV1, ts: Seq<i64>)
    requires
        g.streak_count == 0,
        ts.len() == 6,
    ensures
        stop_loss_run(g, ts).len() == 6,
        forall|i: int| 0 <= i < 4 ==> !(#[trigger] stop_loss_run(g, ts)[i]).1,
        stop_loss_run(g, ts)[4].1 == (clamp_i64(ts[4] - ts[0]) <= FAST_STREAK_WINDOW_MS),
        !stop_loss_run(g, ts)[4].1 ==> stop_loss_run(g, ts)[5].1,
{
    let r1 = stop_loss_run(g, ts.subrange(0, 1));
    let r2 = stop_loss_run(g, ts.subrange(0, 2));
    let r3 = stop_loss_run(g, ts.subrange(0, 3));
    let r4 = stop_loss_run(g, ts.subrange(0, 4));
    let r5 = stop_loss_run(g, ts.subrange(0, 5));
    let r6 = stop_loss_run(g, ts);
    assert(ts.subrange(0, 1).drop_last() =~= Seq::<i64>::empty());
    assert(ts.subrange(0, 2).drop_last() =~= ts.subrange(0, 1));
    assert(ts.subrange(0, 3).drop_last() =~= ts.subrange(0, 2));
    assert(ts.subrange(0, 4).drop_last() =~= ts.subrange(0, 3));
    assert(ts.subrange(0, 5).drop_last() =~= ts.subrange(0, 4));
    assert(ts.drop_last() =~= ts.subrange(0, 5));
    assert(stop_loss_run(g, Seq::<i64>::empty()).len() == 0);
    assert(r1.len() == 1 && r1[0].0.streak_count == 1 && r1[0].0.first_streak_ts_ms == Some(ts[0]) && !r1[0].1);
    assert(r2.len() == 2 && r2[1].0.streak_count == 2 && r2[1].0.first_streak_ts_ms == Some(ts[0]) && !r2[1].1);
    assert(r3.len() == 3 && r3[2].0.streak_count == 3 && r3[2].0.first_streak_ts_ms == Some(ts[0]) && !r3[2].1);
    assert(r4.len() == 4 && r4[3].0.streak_count == 4 && r4[3].0.first_streak_ts_ms == Some(ts[0]) && !r4[3].1);
    assert(r5.len() == 5 && r5[4].1 == (clamp_i64(ts[4] - ts[0]) <= FAST_STREAK_WINDOW_MS));
    assert(!r5[4].1 ==> r5[4].0.streak_count == 5);
    assert(r6.len() == 6);
    assert(r6[0] == r1[0] && r6[1] == r2[1] && r6[2] == r3[2] && r6[3] == r4[3] && r6[4] == r5[4]);
}

/// Applies one closed trade to a guard (see [`guard_step`]).
pub fn step_guard(g: SymbolGuardStateV1, pnl_positive: bool, is_stop_loss: bool, ts_ms: i64) -> (r: (SymbolGuardStateV1, bool))
    ensures
        r == guard_step(g, pnl_positive, is_stop_loss, ts_ms),
{
    let mut guard = g;
    if pnl_positive {
        guard.streak_count = 0;
        guard.first_streak_ts_ms = None;
        return (guard, false);
    }
    if !is_stop_loss {
        return (guard, false);
    }
    if guard.streak_count == 0 {
        guard.first_streak_ts_ms = Some(ts_ms);
    }
    guard.streak_count = guard.streak_count.saturating_add(1);
    let first_ts = match guard.first_streak_ts_ms {
        Some(t) => t,
        None => ts_ms,
    };
    let fast_trigger = guard.streak_count >= 5 && sat_sub_i64(ts_ms, first_ts) <= FAST_STREAK_WINDOW_MS;
    let persistent_trigger = guard.streak_count >= 6;
    if fast_trigger || persistent_trigger {
        guard.cooldown_until_ms = Some(sat_add_i64(ts_ms, COOLDOWN_MS));
        guard.streak_count = 0;
        guard.first_streak_ts_ms = None;
        return (guard, true);
    }
    (guard, false)
}

/// UTF-8 bytes of a row's symbol.
pub open spec fn row_key(r: (String, SymbolGuardStateV1)) -> Seq<u8> {
    encode_utf8(r.0@)
}

/// Rows strictly ascending by symbol bytes (hence without repeated symbols).
pub open spec fn rows_sorted(rows: Seq<(String, SymbolGuardStateV1)>) -> bool {
    forall|i: int, j: int| 0 <= i < j < rows.len() ==> lex_order(#[trigger] row_key(rows[i]), #[trigger] row_key(rows[j])) == -1
}

/// Whether some row holds symbol `k`.
pub open spec fn rows_have(rows: Seq<(String, SymbolGuardStateV1)>, k: Seq<char>) -> bool {
    exists|i: int| 0 <= i < rows.len() && #[trigger] rows[i].0@ == k
}

/// Index of a row holding symbol `k` (meaningful when [`rows_have`] holds).
pub open spec fn row_index_of(rows: Seq<(String, SymbolGuardStateV1)>, k: Seq<char>) -> int {
    choose|i: int| 0 <= i < rows.len() && #[trigger] rows[i].0@ == k
}

/// The rows as a map from symbol to guard.
pub open spec fn rows_map(rows: Seq<(String, SymbolGuardStateV1)>) -> Map<Seq<char>, SymbolGuardStateV1> {
    Map::new(|k: Seq<char>| rows_have(rows, k), |k: Seq<char>| rows[row_index_of(rows, k)].1)
}

/// Map of a sequence of rows where a later row for a symbol replaces an earlier one.
pub open spec fn rows_to_map(rows: Seq<(String, SymbolGuardStateV1)>) -> Map<Seq<char>, SymbolGuardStateV1>
    decreases rows.len(),
{
    if rows.len() == 0 {
        Map::empty()
    } else {
        rows_to_map(rows.drop_last()).insert(rows.last().0@, rows.last().1)
    }
}

proof fn lemma_rows_distinct(rows: Seq<(String, SymbolGuardStateV1)>, i: int, j: int)
    requires
        rows_sorted(rows),
        0 <= i < rows.len(),
        0 <= j < rows.len(),
        i != j,
    ensures
        rows[i].0@ != rows[j].0@,
{
    if i < j {
        assert(lex_order(row_key(rows[i]), row_key(rows[j])) == -1);
    } else {
        assert(lex_order(row_key(rows[j]), row_key(rows[i])) == -1);
    }
    lemma_lex_order_total(row_key(rows[i]), row_key(rows[j]));
}

proof fn lemma_rows_map_at(rows: Seq<(String, SymbolGuardStateV1)>, idx: int)
    requires
        rows_sorted(rows),
        0 <= idx < rows.len(),
    ensures
        rows_map(rows).contains_key(rows[idx].0@),
        rows_map(rows)[rows[idx].0@] == rows[idx].1,
{
    let k = rows[idx].0@;
    assert(rows_have(rows, k));
    let i = row_index_of(rows, k);
    if i != idx {
        if idx < i {
            assert(lex_order(row_key(rows[idx]), row_key(rows[i])) == -1);
        } else {
            assert(lex_order(row_key(rows[i]), row_key(rows[idx])) == -1);
        }
        lemma_lex_order_total(row_key(rows[idx]), row_key(rows[i]));
        assert(false);
    }
    assert(rows_map(rows)[k] == rows[i].1);
}

/// Views of guard rows: symbol and guard.
pub open spec fn rows_view(rows: Seq<(String, SymbolGuardStateV1)>) -> Seq<(Seq<char>, SymbolGuardStateV1)> {
    rows.map_values(|r: (String, SymbolGuardStateV1)| (r.0@, r.1))
}

proof fn lemma_rows_map_drop_last(rows: Seq<(String, SymbolGuardStateV1)>)
    requires
        rows_sorted(rows),
        rows.len() > 0,
    ensures
        rows_sorted(rows.drop_last()),
        rows_map(rows.drop_last()) == rows_map(rows).remove(rows.last().0@),
{
    let d = rows.drop_last();
    let n = rows.len() as int;
    let last = rows.last().0@;
    assert(rows_sorted(d)) by {
        assert forall|i: int, j: int| 0 <= i < j < d.len() implies lex_order(#[trigger] row_key(d[i]), #[trigger] row_key(d[j])) == -1 by {
            assert(d[i] == rows[i] && d[j] == rows[j]);
        }
    }
    let m = rows_map(rows).remove(last);
    assert forall|k: Seq<char>| #[trigger] rows_map(d).contains_key(k) <==> m.contains_key(k) by {
        if rows_have(d, k) {
            let i = choose|i: int| 0 <= i < d.len() && #[trigger] d[i].0@ == k;
            assert(rows[i].0@ == k);
            lemma_rows_distinct(rows, i, n - 1);
            assert(rows_have(rows, k));
        }
        if rows_have(rows, k) && k != last {
            let i = choose|i: int| 0 <= i < rows.len() && #[trigger] rows[i].0@ == k;
            assert(i != n - 1);
            assert(d[i].0@ == k);
            assert(rows_have(d, k));
        }
    }
    assert forall|k: Seq<char>| #[trigger] rows_map(d).contains_key(k) implies rows_map(d)[k] == m[k] by {
        let i = choose|i: int| 0 <= i < d.len() && #[trigger] d[i].0@ == k;
        lemma_rows_map_at(d, i);
        lemma_rows_map_at(rows, i);
        assert(d[i] == rows[i]);
    }
    assert(rows_map(d) =~= m);
}

/// Rows strictly ascending by symbol are determined by the map they
/// describe: two such row sequences for one map hold the same rows.
pub proof fn lemma_sorted_rows_unique(a: Seq<(String, SymbolGuardStateV1)>, b: Seq<(String, SymbolGuardStateV1)>)
    requires
        rows_sorted(a),
        rows_sorted(b),
        rows_map(a) == rows_map(b),
    ensures
        rows_view(a) == rows_view(b),
    decreases a.len() + b.len(),
{
    if a.len() == 0 && b.len() == 0 {
        assert(rows_view(a) =~= rows_view(b));
    } else if a.len() == 0 {
        lemma_rows_map_at(b, 0);
        assert(!rows_have(a, b[0].0@));
    } else if b.len() == 0 {
        lemma_rows_map_at(a, 0);
        assert(!rows_have(b, a[0].0@));
    } else {
        let na = a.len() as int;
        let nb = b.len() as int;
        let ka = a[na - 1].0@;
        let kb = b[nb - 1].0@;
        lemma_rows_map_at(a, na - 1);
        lemma_rows_map_at(b, nb - 1);
        if ka != kb {
            assert(rows_have(b, ka));
            let j = choose|j: int| 0 <= j < b.len() && #[trigger] b[j].0@ == ka;
            assert(rows_have(a, kb));
            let i = choose|i: int| 0 <= i < a.len() && #[trigger] a[i].0@ == kb;
            assert(j != nb - 1);
            assert(i != na - 1);
            assert(lex_order(row_key(b[j]), row_key(b[nb - 1])) == -1);
            assert(lex_order(row_key(a[i]), row_key(a[na - 1])) == -1);
            lemma_lex_order_total(encode_utf8(ka), encode_utf8(kb));
            assert(false);
        }
        assert(a.last() == a[na - 1] && b.last() == b[nb - 1]);
        lemma_rows_map_drop_last(a);
        lemma_rows_map_drop_last(b);
        lemma_sorted_rows_unique(a.drop_last(), b.drop_last());
        assert(rows_view(a.drop_last()) == rows_view(b.drop_last()));
        assert(rows_view(a) =~= rows_view(a.drop_last()).push((ka, a[na - 1].1)));
        assert(rows_view(b) =~= rows_view(b.drop_last()).push((kb, b[nb - 1].1)));
    }
}

/// For rows strictly ascending by symbol, replacing a map by them in order
/// gives the map they describe.
pub proof fn lemma_rows_to_map_sorted(rows: Seq<(String, SymbolGuardStateV1)>)
    requires
        rows_sorted(rows),
    ensures
        rows_to_map(rows) == rows_map(rows),
    decreases rows.len(),
{
    if rows.len() > 0 {
        let d = rows.drop_last();
        assert(rows_sorted(d)) by {
            assert forall|i: int, j: int| 0 <= i < j < d.len() implies lex_order(#[trigger] row_key(d[i]), #[trigger] row_key(d[j])) == -1 by {
                assert(d[i] == rows[i] && d[j] == rows[j]);
            }
        }
        lemma_rows_to_map_sorted(d);
        let last = rows.last();
        assert forall|k: Seq<char>| rows_to_map(rows).contains_key(k) <==> rows_map(rows).contains_key(k) by {
            if rows_have(rows, k) {
                let i = choose|i: int| 0 <= i < rows.len() && #[trigger] rows[i].0@ == k;
                if i < rows.len() - 1 {
                    assert(d[i].0@ == k);
                    assert(rows_have(d, k));
                }
            }
            if rows_have(d, k) {
                let i = choose|i: int| 0 <= i < d.len() && #[trigger] d[i].0@ == k;
                assert(rows[i].0@ == k);
            }
            if k == last.0@ {
                assert(rows[rows.len() - 1].0@ == k);
            }
        }
        assert forall|k: Seq<char>| #[trigger] rows_map(rows).contains_key(k) implies rows_to_map(rows)[k] == rows_map(rows)[k] by {
            let i = choose|i: int| 0 <= i < rows.len() && #[trigger] rows[i].0@ == k;
            lemma_rows_map_at(rows, i);
            if i == rows.len() - 1 {
                assert(rows_to_map(rows)[k] == last.1);
            } else {
                lemma_rows_distinct(rows, i, rows.len() - 1);
                assert(d[i] == rows[i]);
                lemma_rows_map_at(d, i);
                assert(rows_to_map(rows)[k] == rows_to_map(d)[k]);
            }
        }
        assert(rows_to_map(rows) =~= rows_map(rows));
    }
}

/// Per-symbol guard book, kept strictly sorted by symbol.
#[derive(Debug)]
pub struct GuardBook {
    rows: Vec<(String, SymbolGuardStateV1)>,
}

impl GuardBook {
    /// The guards as a map from symbol to state.
    pub closed spec fn view_map(&self) -> Map<Seq<char>, SymbolGuardStateV1> {
        rows_map(self.rows@)
    }

    /// Internal ordering invariant.
    pub closed spec fn wf(&self) -> bool {
        rows_sorted(self.rows@)
    }

    /// An empty book.
    pub fn new() -> (b: Self)
        ensures
            b.wf(),
            b.view_map() == Map::<Seq<char>, SymbolGuardStateV1>::empty(),
    {
        let b = GuardBook { rows: Vec::new() };
        assert(b.view_map() =~= Map::<Seq<char>, SymbolGuardStateV1>::empty());
        b
    }

    /// Position of the first row whose symbol is not below `symbol`.
    fn position(&self, symbol: &str) -> (r: (usize, bool))
        requires
            self.wf(),
        ensures
            r.0 <= self.rows@.len(),
            forall|i: int| 0 <= i < r.0 ==> lex_order(#[trigger] row_key(self.rows@[i]), symbol.spec_bytes()) == -1,
            r.1 ==> r.0 < self.rows@.len() && self.rows@[r.0 as int].0@ == symbol@,
            !r.1 ==> (r.0 < self.rows@.len() ==> lex_order(symbol.spec_bytes(), row_key(self.rows@[r.0 as int])) == -1),
    {
        let n = self.rows.len();
        let mut i: usize = 0;
        while i < n
            invariant
                n == self.rows@.len(),
                i <= n,
                forall|k: int| 0 <= k < i ==> lex_order(#[trigger] row_key(self.rows@[k]), symbol.spec_bytes()) == -1,
            decreases n - i,
        {
            let c = compare_str(self.rows[i].0.as_str(), symbol);
            match c {
                Comparison::Less => {},
                Comparison::Equal => {
                    proof {
                        lemma_lex_order_total(row_key(self.rows@[i as int]), symbol.spec_bytes());
                        lemma_encode_utf8_injective(self.rows@[i as int].0@, symbol@);
                    }
                    return (i, true);
                },
                Comparison::Greater => {
                    proof {
                        lemma_lex_order_total(row_key(self.rows@[i as int]), symbol.spec_bytes());
                    }
                    return (i, false);
                },
            }
            i = i + 1;
        }
        (i, false)
    }

    /// The guard of `symbol`, or the default guard when it has none.
    pub fn get(&self, symbol: &str) -> (g: SymbolGuardStateV1)
        requires
            self.wf(),
        ensures
            g == (if self.view_map().contains_key(symbol@) { self.view_map()[symbol@] } else { default_guard() }),
    {
        let (p, found) = self.position(symbol);
        if found {
            proof {
                lemma_rows_map_at(self.rows@, p as int);
            }
            self.rows[p].1
        } else {
            proof {
                if self.view_map().contains_key(symbol@) {
                    let j = choose|j: int| 0 <= j < self.rows@.len() && #[trigger] self.rows@[j].0@ == symbol@;
                    assert(row_key(self.rows@[j]) == symbol.spec_bytes());
                    lemma_lex_order_total(row_key(self.rows@[j]), symbol.spec_bytes());
                    if j < p {
                    } else if j == p {
                    } else {
                        lemma_lex_order_transitive(symbol.spec_bytes(), row_key(self.rows@[p as int]), row_key(self.rows@[j]));
                    }
                    assert(false);
                }
            }
            SymbolGuardStateV1 { streak_count: 0, first_streak_ts_ms: None, cooldown_until_ms: None }
        }
    }

    /// Whether `symbol` has a guard.
    pub fn contains(&self, symbol: &str) -> (r: bool)
        requires
            self.wf(),
        ensures
            r == self.view_map().contains_key(symbol@),
    {
        let (p, found) = self.position(symbol);
        proof {
            if found {
                lemma_rows_map_at(self.rows@, p as int);
            } else if self.view_map().contains_key(symbol@) {
                let j = row_index_of(self.rows@, symbol@);
                assert(row_key(self.rows@[j]) == symbol.spec_bytes());
                lemma_lex_order_total(row_key(self.rows@[j]), symbol.spec_bytes());
                if j > p {
                    lemma_lex_order_transitive(symbol.spec_bytes(), row_key(self.rows@[p as int]), row_key(self.rows@[j]));
                }
                assert(false);
            }
        }
        found
    }

    /// Sets the guard of `symbol`, keeping the book sorted.
    pub fn set(&mut self, symbol: &str, g: SymbolGuardStateV1)
        requires
            old(self).wf(),
        ensures
            final(self).wf(),
            final(self).view_map() == old(self).view_map().insert(symbol@, g),
    {
        let (p, found) = self.position(symbol);
        let ghost old_rows = self.rows@;
        let key: String = symbol.to_owned();
        if found {
            self.rows.set(p, (key, g));
            proof {
                let new_rows = self.rows@;
                assert(row_key(new_rows[p as int]) == row_key(old_rows[p as int]));
                assert(rows_sorted(new_rows)) by {
                    assert forall|i: int, j: int| 0 <= i < j < new_rows.len()
                        implies lex_order(#[trigger] row_key(new_rows[i]), #[trigger] row_key(new_rows[j])) == -1 by {
                        assert(row_key(new_rows[i]) == row_key(old_rows[i]));
                        assert(row_key(new_rows[j]) == row_key(old_rows[j]));
                    }
                }
                self.lemma_update_map(old_rows, p as int, symbol@, g);
            }
        } else {
            self.rows.insert(p, (key, g));
            proof {
                let new_rows = self.rows@;
                assert(rows_sorted(new_rows)) by {
                    assert forall|i: int, j: int| 0 <= i < j < new_rows.len()
                        implies lex_order(#[trigger] row_key(new_rows[i]), #[trigger] row_key(new_rows[j])) == -1 by {
                        if j < p {
                            assert(new_rows[i] == old_rows[i] && new_rows[j] == old_rows[j]);
                        } else if j == p {
                            assert(new_rows[i] == old_rows[i]);
                        } else if i == p {
                            assert(new_rows[j] == old_rows[j - 1]);
                            if j - 1 > p {
                                assert(lex_order(row_key(old_rows[p as int]), row_key(old_rows[j - 1])) == -1);
                                lemma_lex_order_transitive(symbol.spec_bytes(), row_key(old_rows[p as int]), row_key(old_rows[j - 1]));
                            }
                        } else if i < p {
                            assert(new_rows[i] == old_rows[i] && new_rows[j] == old_rows[j - 1]);
                            if j - 1 >= p {
                                assert(lex_order(row_key(old_rows[i]), row_key(old_rows[j - 1])) == -1);
                            }
                        } else {
                            assert(new_rows[i] == old_rows[i - 1] && new_rows[j] == old_rows[j - 1]);
                        }
                    }
                }
                self.lemma_insert_map(old_rows, p as int, symbol@, g, symbol.spec_bytes());
            }
        }
    }

    proof fn lemma_update_map(&self, old_rows: Seq<(String, SymbolGuardStateV1)>, p: int, k: Seq<char>, g: SymbolGuardStateV1)
        requires
            rows_sorted(old_rows),
            rows_sorted(self.rows@),
            0 <= p < old_rows.len(),
            old_rows[p].0@ == k,
            self.rows@ == old_rows.update(p, (self.rows@[p].0, g)),
            self.rows@[p].0@ == k,
        ensures
            rows_map(self.rows@) == rows_map(old_rows).insert(k, g),
    {
        let new_rows = self.rows@;
        assert forall|q: Seq<char>| rows_have(new_rows, q) == (rows_have(old_rows, q) || q == k) by {
            if rows_have(new_rows, q) {
                let i = choose|i: int| 0 <= i < new_rows.len() && #[trigger] new_rows[i].0@ == q;
                if i != p {
                    assert(old_rows[i].0@ == q);
                }
            }
            if rows_have(old_rows, q) {
                let i = choose|i: int| 0 <= i < old_rows.len() && #[trigger] old_rows[i].0@ == q;
                if i != p {
                    assert(new_rows[i].0@ == q);
                } else {
                    assert(new_rows[p].0@ == q);
                }
            }
            if q == k {
                assert(new_rows[p].0@ == q);
            }
        }
        assert forall|q: Seq<char>| #[trigger] rows_map(new_rows).contains_key(q)
            implies rows_map(new_rows)[q] == rows_map(old_rows).insert(k, g)[q] by {
            let i = choose|i: int| 0 <= i < new_rows.len() && #[trigger] new_rows[i].0@ == q;
            lemma_rows_map_at(new_rows, i);
            if i != p {
                assert(old_rows[i] == new_rows[i]);
                lemma_rows_map_at(old_rows, i);
                lemma_rows_distinct(old_rows, i, p);
            }
        }
        assert(rows_map(new_rows) =~= rows_map(old_rows).insert(k, g));
    }

    proof fn lemma_insert_map(&self, old_rows: Seq<(String, SymbolGuardStateV1)>, p: int, k: Seq<char>,
        g: SymbolGuardStateV1, kb: Seq<u8>)
        requires
            rows_sorted(old_rows),
            rows_sorted(self.rows@),
            0 <= p <= old_rows.len(),
            kb == encode_utf8(k),
            self.rows@ == old_rows.insert(p, (self.rows@[p].0, g)),
            self.rows@[p].0@ == k,
        ensures
            rows_map(self.rows@) == rows_map(old_rows).insert(k, g),
    {
        let new_rows = self.rows@;
        assert forall|q: Seq<char>| rows_have(new_rows, q) == (rows_have(old_rows, q) || q == k) by {
            if rows_have(new_rows, q) {
                let i = choose|i: int| 0 <= i < new_rows.len() && #[trigger] new_rows[i].0@ == q;
                if i < p {
                    assert(old_rows[i].0@ == q);
                } else if i > p {
                    assert(old_rows[i - 1].0@ == q);
                }
            }
            if rows_have(old_rows, q) {
                let i = choose|i: int| 0 <= i < old_rows.len() && #[trigger] old_rows[i].0@ == q;
                if i < p {
                    assert(new_rows[i].0@ == q);
                } else {
                    assert(new_rows[i + 1].0@ == q);
                }
            }
            if q == k {
                assert(new_rows[p].0@ == q);
            }
        }
        assert forall|q: Seq<char>| #[trigger] rows_map(new_rows).contains_key(q)
            implies rows_map(new_rows)[q] == rows_map(old_rows).insert(k, g)[q] by {
            let i = choose|i: int| 0 <= i < new_rows.len() && #[trigger] new_rows[i].0@ == q;
            lemma_rows_map_at(new_rows, i);
            lemma_rows_map_at(new_rows, p);
            if i < p {
                assert(old_rows[i] == new_rows[i]);
                lemma_rows_map_at(old_rows, i);
            } else if i > p {
                assert(old_rows[i - 1] == new_rows[i]);
                lemma_rows_map_at(old_rows, i - 1);
            }
        }
        assert(rows_map(new_rows) =~= rows_map(old_rows).insert(k, g));
    }

    /// The rows in ascending symbol order.
    pub fn rows(&self) -> (r: Vec<(String, SymbolGuardStateV1)>)
        requires
            self.wf(),
        ensures
            rows_sorted(r@),
            rows_map(r@) == self.view_map(),
    {
        let n = self.rows.len();
        let mut out: Vec<(String, SymbolGuardStateV1)> = Vec::new();
        let mut i: usize = 0;
        while i < n
            invariant
                n == self.rows@.len(),
                i <= n,
                out@ == self.rows@.subrange(0, i as int),
            decreases n - i,
        {
            let sym: String = self.rows[i].0.clone();
            let g = self.rows[i].1;
            out.push((sym, g));
            proof {
                assert(out@ =~= self.rows@.subrange(0, i + 1));
            }
            i = i + 1;
        }
        proof {
            assert(out@ =~= self.rows@);
        }
        out
    }

    /// Replaces the whole book with `rows`; a later row for a symbol wins.
    pub fn replace(&mut self, rows: Vec<(String, SymbolGuardStateV1)>)
        ensures
            final(self).wf(),
            final(self).view_map() == rows_to_map(rows@),
    {
        self.rows = Vec::new();
        proof {
            assert(rows_map(self.rows@) =~= Map::<Seq<char>, SymbolGuardStateV1>::empty());
        }
        let n = rows.len();
        let mut i: usize = 0;
        while i < n
            invariant
                n == rows@.len(),
                i <= n,
                self.wf(),
                self.view_map() == rows_to_map(rows@.subrange(0, i as int)),
            decreases n - i,
        {
            self.set(rows[i].0.as_str(), rows[i].1);
            proof {
                let s = rows@.subrange(0, i + 1);
                assert(s.drop_last() =~= rows@.subrange(0, i as int));
            }
            i = i + 1;
        }
        proof {
            assert(rows@.subrange(0, n as int) =~= rows@);
        }
    }
}

} // verus!
