//! Portfolio runtime: candidate eligibility and ranking, stop-loss guards with
//! cooldowns, and the no-overlap assignment of symbols to portfolios.

use vstd::prelude::*;
use vstd::utf8::encode_utf8;
use crate::text::{compare_str, lex_order, lemma_lex_order_total, lemma_lex_order_transitive, Comparison, trimmed, trim_str, strings_view, contains_str};
use crate::assignment::{copy_strings, deal_shortlists, assign_active_symbols, spec_assign_actives, total_len,
    dealt_count, flat_contains, lemma_shortlists_cover_pool_prefix};
use crate::guards::{GuardBook, SymbolGuardStateV1, guard_step, guard_or_default, step_guard, rows_sorted, rows_map, rows_to_map,
    lemma_rows_to_map_sorted, rows_view, lemma_sorted_rows_unique};

verus! {

/// Number of symbols a portfolio shortlists.
pub const SHORTLIST_SIZE: usize = 5;
/// Maximum number of symbols a portfolio trades at once.
pub const MAX_ACTIVE_SYMBOLS: usize = 4;
/// A stop-loss streak of five within this window (ms) triggers a cooldown.
pub const FAST_STREAK_WINDOW_MS: i64 = 120_000;
/// Length of a cooldown (ms).
pub const COOLDOWN_MS: i64 = 300_000;

/// Per-symbol trading statistics used to rank portfolio candidates.
///
/// `avg_pnl_key` is the order key of the average PnL percentage: an integer
/// that orders exactly as the percentages do, is 0 for a zero percentage, is
/// negative exactly for negative percentages, and stands for negative infinity
/// when the percentage is undefined.
#[derive(Debug, PartialEq, Eq)]
pub struct SymbolStatsV1 {
    pub symbol: String,
    pub age_minutes_from_first_tick: u64,
    pub closed_trades: u32,
    pub profitable_trades: u32,
    pub losing_trades: u32,
    pub avg_pnl_key: i64,
}

impl Clone for SymbolStatsV1 {
    fn clone(&self) -> (r: Self)
        ensures
            r == *self,
    {
        SymbolStatsV1 {
            symbol: self.symbol.clone(),
            age_minutes_from_first_tick: self.age_minutes_from_first_tick,
            closed_trades: self.closed_trades,
            profitable_trades: self.profitable_trades,
            losing_trades: self.losing_trades,
            avg_pnl_key: self.avg_pnl_key,
        }
    }
}

/// Profitable minus losing trades.
pub open spec fn spec_pm_raw(s: SymbolStatsV1) -> int {
    s.profitable_trades - s.losing_trades
}

/// Profitable minus losing trades.
pub fn compute_pm_raw(stats: &SymbolStatsV1) -> (r: i64)
    ensures
        r == spec_pm_raw(*stats),
{
    stats.profitable_trades as i64 - stats.losing_trades as i64
}

/// Whether the win rate `profitable / closed` (0 without trades) reaches 30%.
pub open spec fn winrate_at_least_30pct(s: SymbolStatsV1) -> bool {
    s.closed_trades > 0 && 10 * s.profitable_trades >= 3 * s.closed_trades
}

/// Eligibility for a shortlist: older than 5 minutes, more than 5 closed trades,
/// a win rate of at least 30% and a non-negative average PnL.
pub open spec fn spec_eligible(s: SymbolStatsV1) -> bool {
    &&& s.age_minutes_from_first_tick > 5
    &&& s.closed_trades > 5
    &&& winrate_at_least_30pct(s)
    &&& s.avg_pnl_key >= 0
}

/// Eligibility for a shortlist (see [`spec_eligible`]).
pub fn eligible(stats: &SymbolStatsV1) -> (r: bool)
    ensures
        r == spec_eligible(*stats),
{
    stats.age_minutes_from_first_tick > 5
        && stats.closed_trades > 5
        && 10 * (stats.profitable_trades as u64) >= 3 * (stats.closed_trades as u64)
        && stats.avg_pnl_key >= 0
}

/// Numerator of the win rate (0 without trades).
pub open spec fn wr_num(s: SymbolStatsV1) -> int {
    if s.closed_trades == 0 { 0 } else { s.profitable_trades as int }
}

/// Denominator of the win rate (1 without trades).
pub open spec fn wr_den(s: SymbolStatsV1) -> int {
    if s.closed_trades == 0 { 1 } else { s.closed_trades as int }
}

/// UTF-8 bytes of a symbol.
pub open spec fn symbol_bytes(s: SymbolStatsV1) -> Seq<u8> {
    encode_utf8(s.symbol@)
}

/// Rank order of two candidates: -1 when `a` ranks first, 1 when `b` does,
/// 0 when they tie. Keys, most significant first: higher win rate, higher
/// profitable-minus-losing count, higher average PnL, more closed trades,
/// then the symbol in ascending byte order.
pub open spec fn rank_order(a: SymbolStatsV1, b: SymbolStatsV1) -> int {
    let l = wr_num(a) * wr_den(b);
    let r = wr_num(b) * wr_den(a);
    if l > r {
        -1
    } else if l < r {
        1
    } else if spec_pm_raw(a) > spec_pm_raw(b) {
        -1
    } else if spec_pm_raw(a) < spec_pm_raw(b) {
        1
    } else if a.avg_pnl_key > b.avg_pnl_key {
        -1
    } else if a.avg_pnl_key < b.avg_pnl_key {
        1
    } else if a.closed_trades > b.closed_trades {
        -1
    } else if a.closed_trades < b.closed_trades {
        1
    } else {
        lex_order(symbol_bytes(a), symbol_bytes(b))
    }
}

/// Three-way rank comparison (see [`rank_order`]).
pub fn rank_compare(a: &SymbolStatsV1, b: &SymbolStatsV1) -> (r: Comparison)
    ensures
        r == Comparison::Less <==> rank_order(*a, *b) == -1,
        r == Comparison::Equal <==> rank_order(*a, *b) == 0,
        r == Comparison::Greater <==> rank_order(*a, *b) == 1,
{
    let (an, ad): (u64, u64) = if a.closed_trades == 0 { (0, 1) } else { (a.profitable_trades as u64, a.closed_trades as u64) };
    let (bn, bd): (u64, u64) = if b.closed_trades == 0 { (0, 1) } else { (b.profitable_trades as u64, b.closed_trades as u64) };
    assert(an * bd <= u64::MAX) by (nonlinear_arith)
        requires an <= u32::MAX, bd <= u32::MAX;
    assert(bn * ad <= u64::MAX) by (nonlinear_arith)
        requires bn <= u32::MAX, ad <= u32::MAX;
    let l = an * bd;
    let r = bn * ad;
    if l > r {
        return Comparison::Less;
    } else if l < r {
        return Comparison::Greater;
    }
    let pa = compute_pm_raw(a);
    let pb = compute_pm_raw(b);
    if pa > pb {
        return Comparison::Less;
    } else if pa < pb {
        return Comparison::Greater;
    }
    if a.avg_pnl_key > b.avg_pnl_key {
        return Comparison::Less;
    } else if a.avg_pnl_key < b.avg_pnl_key {
        return Comparison::Greater;
    }
    if a.closed_trades > b.closed_trades {
        return Comparison::Less;
    } else if a.closed_trades < b.closed_trades {
        return Comparison::Greater;
    }
    compare_str(a.symbol.as_str(), b.symbol.as_str())
}

/// Inserts `x` into `s` after every element that does not rank after it.
pub open spec fn insert_ranked(s: Seq<SymbolStatsV1>, x: SymbolStatsV1) -> Seq<SymbolStatsV1>
    decreases s.len(),
{
    if s.len() == 0 {
        seq![x]
    } else if rank_order(s.last(), x) <= 0 {
        s.push(x)
    } else {
        insert_ranked(s.drop_last(), x).push(s.last())
    }
}

/// Stable sort of candidates by rank (best first).
pub open spec fn rank_sorted(s: Seq<SymbolStatsV1>) -> Seq<SymbolStatsV1>
    decreases s.len(),
{
    if s.len() == 0 {
        s
    } else {
        insert_ranked(rank_sorted(s.drop_last()), s.last())
    }
}

/// Inserting adds exactly one element.
pub proof fn lemma_insert_ranked_multiset(s: Seq<SymbolStatsV1>, x: SymbolStatsV1)
    ensures
        insert_ranked(s, x).len() == s.len() + 1,
        insert_ranked(s, x).to_multiset() == s.to_multiset().insert(x),
    decreases s.len(),
{
    broadcast use vstd::seq_lib::group_to_multiset_ensures;
    broadcast use vstd::multiset::group_multiset_axioms;
    if s.len() == 0 {
        assert(seq![x] =~= Seq::<SymbolStatsV1>::empty().push(x));
    } else if rank_order(s.last(), x) <= 0 {
    } else {
        lemma_insert_ranked_multiset(s.drop_last(), x);
        assert(s =~= s.drop_last().push(s.last()));
        assert(insert_ranked(s, x).to_multiset() =~= s.to_multiset().insert(x));
    }
}

/// Ranking keeps every candidate exactly once: the result is a permutation.
pub proof fn lemma_rank_sorted_permutation(s: Seq<SymbolStatsV1>)
    ensures
        rank_sorted(s).len() == s.len(),
        rank_sorted(s).to_multiset() == s.to_multiset(),
    decreases s.len(),
{
    broadcast use vstd::seq_lib::group_to_multiset_ensures;
    if s.len() > 0 {
        lemma_rank_sorted_permutation(s.drop_last());
        lemma_insert_ranked_multiset(rank_sorted(s.drop_last()), s.last());
        assert(s =~= s.drop_last().push(s.last()));
    }
}

/// Win rate of `a` above that of `b`, as fractions `profitable / closed`
/// (a candidate without closed trades has win rate 0).
pub open spec fn win_rate_above(a: SymbolStatsV1, b: SymbolStatsV1) -> bool {
    if a.closed_trades == 0 {
        false
    } else if b.closed_trades == 0 {
        a.profitable_trades > 0
    } else {
        a.profitable_trades * b.closed_trades > b.profitable_trades * a.closed_trades
    }
}

/// Equal win rates of `a` and `b` (see [`win_rate_above`]).
pub open spec fn win_rate_equal(a: SymbolStatsV1, b: SymbolStatsV1) -> bool {
    !win_rate_above(a, b) && !win_rate_above(b, a)
}

/// The ranking priority, key by key: a candidate ranks strictly first when
/// it has the higher win rate; on equal win rates, the higher count of
/// profitable minus losing trades; then the higher average PnL; then more
/// closed trades; then the symbol that comes first in byte order.
pub proof fn lemma_rank_priority(a: SymbolStatsV1, b: SymbolStatsV1)
    ensures
        win_rate_above(a, b) ==> rank_order(a, b) == -1,
        win_rate_equal(a, b)
            && a.profitable_trades - a.losing_trades > b.profitable_trades - b.losing_trades
            ==> rank_order(a, b) == -1,
        win_rate_equal(a, b)
            && a.profitable_trades - a.losing_trades == b.profitable_trades - b.losing_trades
            && a.avg_pnl_key > b.avg_pnl_key
            ==> rank_order(a, b) == -1,
        win_rate_equal(a, b)
            && a.profitable_trades - a.losing_trades == b.profitable_trades - b.losing_trades
            && a.avg_pnl_key == b.avg_pnl_key
            && a.closed_trades > b.closed_trades
            ==> rank_order(a, b) == -1,
        win_rate_equal(a, b)
            && a.profitable_trades - a.losing_trades == b.profitable_trades - b.losing_trades
            && a.avg_pnl_key == b.avg_pnl_key
            && a.closed_trades == b.closed_trades
            && lex_order(encode_utf8(a.symbol@), encode_utf8(b.symbol@)) == -1
            ==> rank_order(a, b) == -1,
{
    if a.closed_trades > 0 && b.closed_trades > 0 {
        assert(b.profitable_trades * a.closed_trades == a.closed_trades * b.profitable_trades) by (nonlinear_arith);
    }
    if a.closed_trades == 0 && b.closed_trades > 0 {
        assert(0 * b.closed_trades == 0);
        assert(b.profitable_trades * 1 == b.profitable_trades);
    }
    if a.closed_trades > 0 && b.closed_trades == 0 {
        assert(a.profitable_trades * 1 == a.profitable_trades);
        assert(0 * a.closed_trades == 0);
    }
}

/// In candidates in rank order, one that the ranking puts strictly first
/// comes earlier: so [`rank_candidates`] lists candidates by the priority
/// of [`lemma_rank_priority`].
pub proof fn lemma_ranked_position(s: Seq<SymbolStatsV1>, i: int, j: int)
    requires
        ranked_in_order(s),
        0 <= i < s.len(),
        0 <= j < s.len(),
        rank_order(s[i], s[j]) == -1,
    ensures
        i < j,
{
    lemma_rank_order_antisymmetric(s[i], s[j]);
    if j <= i {
        if j < i {
            assert(rank_order(s[j], s[i]) <= 0);
        }
    }
}

/// Candidates in rank order: no candidate ranks after one that follows it.
pub open spec fn ranked_in_order(s: Seq<SymbolStatsV1>) -> bool {
    forall|i: int, j: int| 0 <= i < j < s.len() ==> rank_order(#[trigger] s[i], #[trigger] s[j]) <= 0
}

proof fn lemma_fraction_order(na: int, da: int, nb: int, db: int, nc: int, dc: int)
    requires
        da > 0,
        db > 0,
        dc > 0,
        na * db >= nb * da,
        nb * dc >= nc * db,
    ensures
        na * dc >= nc * da,
        (na * db > nb * da || nb * dc > nc * db) ==> na * dc > nc * da,
{
    assert(na * db * dc >= nb * da * dc) by (nonlinear_arith)
        requires na * db >= nb * da, dc > 0;
    assert(nb * dc * da >= nc * db * da) by (nonlinear_arith)
        requires nb * dc >= nc * db, da > 0;
    assert(nb * da * dc == nb * dc * da) by (nonlinear_arith);
    assert(nc * db * da == nc * da * db) by (nonlinear_arith);
    assert(na * db * dc == na * dc * db) by (nonlinear_arith);
    assert(na * dc >= nc * da) by (nonlinear_arith)
        requires na * dc * db >= nc * da * db, db > 0;
    if na * db > nb * da {
        assert(na * db * dc > nb * da * dc) by (nonlinear_arith)
            requires na * db > nb * da, dc > 0;
        assert(na * dc > nc * da) by (nonlinear_arith)
            requires na * dc * db > nc * da * db, db > 0;
    }
    if nb * dc > nc * db {
        assert(nb * dc * da > nc * db * da) by (nonlinear_arith)
            requires nb * dc > nc * db, da > 0;
        assert(na * dc > nc * da) by (nonlinear_arith)
            requires na * dc * db > nc * da * db, db > 0;
    }
}

/// `rank_order` is antisymmetric and takes the values -1, 0 and 1, 0 only on
/// candidates that tie on every key including the symbol.
pub proof fn lemma_rank_order_antisymmetric(a: SymbolStatsV1, b: SymbolStatsV1)
    ensures
        -1 <= rank_order(a, b) <= 1,
        rank_order(a, b) == -rank_order(b, a),
{
    lemma_lex_order_total(symbol_bytes(a), symbol_bytes(b));
    assert(wr_num(a) * wr_den(b) == wr_den(b) * wr_num(a)) by (nonlinear_arith);
}

/// Ranking not after is transitive.
pub proof fn lemma_rank_order_transitive(a: SymbolStatsV1, b: SymbolStatsV1, c: SymbolStatsV1)
    requires
        rank_order(a, b) <= 0,
        rank_order(b, c) <= 0,
    ensures
        rank_order(a, c) <= 0,
{
    lemma_fraction_order(wr_num(a), wr_den(a), wr_num(b), wr_den(b), wr_num(c), wr_den(c));
    lemma_lex_order_total(symbol_bytes(a), symbol_bytes(b));
    lemma_lex_order_total(symbol_bytes(b), symbol_bytes(c));
    lemma_lex_order_total(symbol_bytes(a), symbol_bytes(c));
    if wr_num(a) * wr_den(b) == wr_num(b) * wr_den(a) && wr_num(b) * wr_den(c) == wr_num(c) * wr_den(b) {
        lemma_fraction_order(wr_num(c), wr_den(c), wr_num(b), wr_den(b), wr_num(a), wr_den(a));
        if lex_order(symbol_bytes(a), symbol_bytes(b)) == -1 && lex_order(symbol_bytes(b), symbol_bytes(c)) == -1 {
            lemma_lex_order_transitive(symbol_bytes(a), symbol_bytes(b), symbol_bytes(c));
        }
    }
}

/// Inserting into candidates in rank order keeps them in rank order; every
/// element of the result is `x` or an element of `s`.
proof fn lemma_insert_ranked_in_order(s: Seq<SymbolStatsV1>, x: SymbolStatsV1)
    requires
        ranked_in_order(s),
    ensures
        ranked_in_order(insert_ranked(s, x)),
        forall|k: int| 0 <= k < insert_ranked(s, x).len() ==>
            #[trigger] insert_ranked(s, x)[k] == x || s.contains(insert_ranked(s, x)[k]),
    decreases s.len(),
{
    lemma_insert_ranked_multiset(s, x);
    if s.len() == 0 {
    } else if rank_order(s.last(), x) <= 0 {
        let r = s.push(x);
        assert forall|i: int, j: int| 0 <= i < j < r.len() implies rank_order(#[trigger] r[i], #[trigger] r[j]) <= 0 by {
            if j == s.len() {
                if i < s.len() - 1 {
                    assert(rank_order(s[i], s[s.len() - 1]) <= 0);
                    lemma_rank_order_transitive(s[i], s[s.len() - 1], x);
                }
            } else {
                assert(r[i] == s[i] && r[j] == s[j]);
            }
        }
        assert forall|k: int| 0 <= k < r.len() implies #[trigger] r[k] == x || s.contains(r[k]) by {
            if k < s.len() {
                assert(r[k] == s[k]);
            }
        }
    } else {
        let d = s.drop_last();
        let last = s.last();
        assert(ranked_in_order(d)) by {
            assert forall|i: int, j: int| 0 <= i < j < d.len() implies rank_order(#[trigger] d[i], #[trigger] d[j]) <= 0 by {
                assert(d[i] == s[i] && d[j] == s[j]);
            }
        }
        lemma_insert_ranked_in_order(d, x);
        let q = insert_ranked(d, x);
        lemma_insert_ranked_multiset(d, x);
        let r = q.push(last);
        lemma_rank_order_antisymmetric(last, x);
        assert forall|m: int| 0 <= m < q.len() implies rank_order(#[trigger] q[m], last) <= 0 by {
            if q[m] != x {
                assert(d.contains(q[m]));
                let w = choose|w: int| 0 <= w < d.len() && d[w] == q[m];
                assert(s[w] == d[w]);
                assert(rank_order(s[w], s[s.len() - 1]) <= 0);
            }
        }
        assert forall|i: int, j: int| 0 <= i < j < r.len() implies rank_order(#[trigger] r[i], #[trigger] r[j]) <= 0 by {
            if j == q.len() {
                assert(r[i] == q[i]);
                assert(rank_order(q[i], last) <= 0);
            } else {
                assert(r[i] == q[i] && r[j] == q[j]);
            }
        }
        assert forall|k: int| 0 <= k < r.len() implies #[trigger] r[k] == x || s.contains(r[k]) by {
            if k < q.len() {
                assert(r[k] == q[k]);
                if q[k] != x {
                    assert(d.contains(q[k]));
                    let w = choose|w: int| 0 <= w < d.len() && d[w] == q[k];
                    assert(s[w] == d[w]);
                }
            } else {
                assert(s[s.len() - 1] == last);
            }
        }
    }
}

/// Ranked candidates are in rank order: the stable sort [`rank_sorted`] never
/// puts a candidate before one that ranks first.
pub proof fn lemma_rank_sorted_in_order(s: Seq<SymbolStatsV1>)
    ensures
        ranked_in_order(rank_sorted(s)),
    decreases s.len(),
{
    if s.len() > 0 {
        lemma_rank_sorted_in_order(s.drop_last());
        lemma_insert_ranked_in_order(rank_sorted(s.drop_last()), s.last());
    }
}

proof fn lemma_insert_ranked_split(s: Seq<SymbolStatsV1>, x: SymbolStatsV1, j: int)
    requires
        0 <= j <= s.len(),
        forall|k: int| j <= k < s.len() ==> rank_order(#[trigger] s[k], x) > 0,
    ensures
        insert_ranked(s, x) == insert_ranked(s.subrange(0, j), x) + s.subrange(j, s.len() as int),
    decreases s.len() - j,
{
    if j == s.len() {
        assert(s.subrange(0, j) =~= s);
        assert(s.subrange(j, s.len() as int) =~= Seq::<SymbolStatsV1>::empty());
        assert(insert_ranked(s, x) + Seq::<SymbolStatsV1>::empty() =~= insert_ranked(s, x));
    } else {
        assert(rank_order(s[s.len() - 1], x) > 0);
        assert(s.last() == s[s.len() - 1]);
        let d = s.drop_last();
        lemma_insert_ranked_split(d, x, j);
        assert(d.subrange(0, j) =~= s.subrange(0, j));
        assert(d.subrange(j, d.len() as int).push(s.last()) =~= s.subrange(j, s.len() as int));
        assert((insert_ranked(d.subrange(0, j), x) + d.subrange(j, d.len() as int)).push(s.last())
            =~= insert_ranked(d.subrange(0, j), x) + d.subrange(j, d.len() as int).push(s.last()));
    }
}

/// Candidates in rank order, best first (stable for ties).
pub fn rank_candidates(candidates: &[SymbolStatsV1]) -> (ranked: Vec<SymbolStatsV1>)
    ensures
        ranked@ == rank_sorted(candidates@),
        ranked_in_order(ranked@),
        ranked@.to_multiset() == candidates@.to_multiset(),
{
    proof {
        lemma_rank_sorted_in_order(candidates@);
        lemma_rank_sorted_permutation(candidates@);
    }
    let n = candidates.len();
    let mut out: Vec<SymbolStatsV1> = Vec::new();
    let mut i: usize = 0;
    while i < n
        invariant
            n == candidates@.len(),
            i <= n,
            out@ == rank_sorted(candidates@.subrange(0, i as int)),
            out@.len() == i,
        decreases n - i,
    {
        proof {
            lemma_rank_sorted_permutation(candidates@.subrange(0, i as int));
        }
        let ghost prefix = out@;
        let x = candidates[i].clone();
        out.push(x);
        let mut j: usize = i;
        while j > 0 && matches!(rank_compare(&out[j - 1], &out[j]), Comparison::Greater)
            invariant
                out@.len() == i + 1,
                prefix.len() == i,
                j <= i,
                out@ == prefix.subrange(0, j as int) + seq![candidates@[i as int]] + prefix.subrange(j as int, i as int),
                forall|k: int| j <= k < i ==> rank_order(#[trigger] prefix[k], candidates@[i as int]) > 0,
            decreases j,
        {
            let ghost before = out@;
            let a = out[j - 1].clone();
            let b = out[j].clone();
            out.set(j - 1, b);
            out.set(j, a);
            proof {
                assert(before[j - 1] == prefix[j - 1]);
                assert(out@ =~= prefix.subrange(0, j - 1) + seq![candidates@[i as int]] + prefix.subrange(j - 1, i as int));
            }
            j = j - 1;
        }
        proof {
            let x = candidates@[i as int];
            lemma_insert_ranked_split(prefix, x, j as int);
            let p = prefix.subrange(0, j as int);
            if j > 0 {
                assert(out@[j - 1] == p.last());
                assert(p.drop_last() =~= prefix.subrange(0, j - 1));
                assert(insert_ranked(p, x) == p.push(x));
            } else {
                assert(p =~= Seq::<SymbolStatsV1>::empty());
            }
            assert(out@ =~= insert_ranked(p, x) + prefix.subrange(j as int, i as int));
            let c = candidates@.subrange(0, i + 1);
            assert(c.drop_last() =~= candidates@.subrange(0, i as int));
            assert(c.last() == x);
            lemma_rank_sorted_permutation(c);
        }
        i = i + 1;
    }
    proof {
        assert(candidates@.subrange(0, n as int) =~= candidates@);
    }
    out
}

/// Portfolio ids used when none are configured.
pub open spec fn default_ids() -> Seq<Seq<char>> {
    seq!["A"@, "B"@]
}

/// The default portfolio ids `A` and `B`.
pub fn default_portfolio_ids() -> (ids: Vec<String>)
    ensures
        strings_view(ids@) == default_ids(),
{
    let mut ids: Vec<String> = Vec::new();
    ids.push("A".to_owned());
    ids.push("B".to_owned());
    proof {
        assert(strings_view(ids@) =~= default_ids());
    }
    ids
}

/// Trimmed, non-empty ids in first-seen order without repeats.
pub open spec fn dedup_trimmed_ids(raw: Seq<Seq<char>>) -> Seq<Seq<char>>
    decreases raw.len(),
{
    if raw.len() == 0 {
        Seq::empty()
    } else {
        let acc = dedup_trimmed_ids(raw.drop_last());
        let t = trimmed(raw.last());
        if t.len() == 0 || acc.contains(t) {
            acc
        } else {
            acc.push(t)
        }
    }
}

/// Normalised portfolio ids: trimmed, non-empty, first occurrence kept; the
/// default ids when nothing remains.
pub open spec fn normalized_ids(raw: Seq<Seq<char>>) -> Seq<Seq<char>> {
    let d = dedup_trimmed_ids(raw);
    if d.len() == 0 { default_ids() } else { d }
}

proof fn lemma_dedup_no_duplicates(raw: Seq<Seq<char>>)
    ensures
        dedup_trimmed_ids(raw).no_duplicates(),
    decreases raw.len(),
{
    if raw.len() > 0 {
        lemma_dedup_no_duplicates(raw.drop_last());
    }
}

/// Normalises portfolio ids (see [`normalized_ids`]).
pub fn normalize_portfolio_ids(portfolio_ids: Vec<String>) -> (ids: Vec<String>)
    ensures
        strings_view(ids@) == normalized_ids(strings_view(portfolio_ids@)),
        strings_view(ids@).no_duplicates(),
        ids@.len() > 0,
{
    let ghost raw = strings_view(portfolio_ids@);
    let mut normalized: Vec<String> = Vec::new();
    let n = portfolio_ids.len();
    let mut i: usize = 0;
    while i < n
        invariant
            n == portfolio_ids@.len(),
            raw == strings_view(portfolio_ids@),
            i <= n,
            strings_view(normalized@) == dedup_trimmed_ids(raw.subrange(0, i as int)),
        decreases n - i,
    {
        let t = trim_str(portfolio_ids[i].as_str());
        proof {
            let r = raw.subrange(0, i + 1);
            assert(r.drop_last() =~= raw.subrange(0, i as int));
            assert(r.last() == portfolio_ids@[i as int]@);
        }
        if t.is_empty() {
        } else if contains_str(&normalized, t) {
        } else {
            proof {
                assert(t@.len() != 0);
            }
            normalized.push(t.to_owned());
            proof {
                assert(strings_view(normalized@) =~= dedup_trimmed_ids(raw.subrange(0, i as int)).push(t@));
            }
        }
        i = i + 1;
    }
    proof {
        assert(raw.subrange(0, n as int) =~= raw);
        lemma_dedup_no_duplicates(raw);
    }
    if normalized.len() == 0 {
        let d = default_portfolio_ids();
        proof {
            assert(default_ids()[0] != default_ids()[1]) by {
                reveal_strlit("A");
                reveal_strlit("B");
                assert("A"@[0] != "B"@[0]);
            }
            assert(strings_view(d@).no_duplicates());
        }
        d
    } else {
        normalized
    }
}

/// Shortlist and active symbols of one portfolio.
#[derive(Debug, PartialEq, Eq)]
pub struct PortfolioStateV1 {
    pub shortlist: Vec<String>,
    pub active_symbols: Vec<String>,
}

/// Whether a cooldown of `symbol` is still running at `now_ms`.
pub open spec fn blocked_by_cooldown(guards: Map<Seq<char>, SymbolGuardStateV1>, symbol: Seq<char>, now_ms: i64) -> bool {
    guards.contains_key(symbol) && match guards[symbol].cooldown_until_ms {
        Some(until) => now_ms < until,
        None => false,
    }
}

/// A symbol may (re-)enter a shortlist when no cooldown runs and it is eligible.
pub open spec fn spec_can_reenter(guards: Map<Seq<char>, SymbolGuardStateV1>, symbol: Seq<char>, s: SymbolStatsV1, now_ms: i64) -> bool {
    !blocked_by_cooldown(guards, symbol, now_ms) && spec_eligible(s)
}

/// A closed trade that starts a cooldown at `ts_ms` keeps its symbol out of
/// every shortlist pool until `ts_ms + COOLDOWN_MS`, whatever its statistics;
/// other symbols are not affected.
pub proof fn lemma_cooldown_blocks_reentry(
    guards: Map<Seq<char>, SymbolGuardStateV1>,
    symbol: Seq<char>,
    pnl_positive: bool,
    is_stop_loss: bool,
    ts_ms: i64,
    other: Seq<char>,
    stats: SymbolStatsV1,
    now_ms: i64,
)
    requires
        guard_step(guard_or_default(guards, symbol), pnl_positive, is_stop_loss, ts_ms).1,
        now_ms < ts_ms + COOLDOWN_MS,
        now_ms < i64::MAX,
    ensures
        !spec_can_reenter(guards.insert(symbol, guard_step(guard_or_default(guards, symbol), pnl_positive, is_stop_loss, ts_ms).0), symbol, stats, now_ms),
        other != symbol ==> spec_can_reenter(guards.insert(symbol, guard_step(guard_or_default(guards, symbol), pnl_positive, is_stop_loss, ts_ms).0), other, stats, now_ms)
            == spec_can_reenter(guards, other, stats, now_ms),
{
}

/// Ranked candidates that may re-enter, in rank order.
pub open spec fn reentry_pool(guards: Map<Seq<char>, SymbolGuardStateV1>, ranked: Seq<SymbolStatsV1>, now_ms: i64) -> Seq<SymbolStatsV1>
    decreases ranked.len(),
{
    if ranked.len() == 0 {
        ranked
    } else {
        let rest = reentry_pool(guards, ranked.drop_last(), now_ms);
        let x = ranked.last();
        if spec_can_reenter(guards, x.symbol@, x, now_ms) { rest.push(x) } else { rest }
    }
}

/// Number of shortlist entries of portfolio `k` out of `n` portfolios when the
/// pool holds `len` symbols: pool positions `k, k + n, k + 2n, ...` below
/// `len`, at most [`SHORTLIST_SIZE`] of them.
pub open spec fn shortlist_count(len: nat, n: nat, k: nat) -> nat {
    if k >= len || n == 0 {
        0
    } else {
        let c = ((len - 1 - k) as nat) / n + 1;
        if c > SHORTLIST_SIZE { SHORTLIST_SIZE as nat } else { c }
    }
}

/// Shortlist of portfolio `k` of `n`: the pool is dealt round-robin over the
/// portfolios, one symbol per portfolio per round, for [`SHORTLIST_SIZE`] rounds.
pub open spec fn spec_shortlist(pool: Seq<SymbolStatsV1>, n: nat, k: nat) -> Seq<Seq<char>> {
    Seq::new(shortlist_count(pool.len(), n, k), |r: int| pool[k + r * n].symbol@)
}

/// Round `r` of the deal reaches portfolio `k` exactly when `r` is below
/// [`SHORTLIST_SIZE`] and pool position `k + r * n` exists.
pub proof fn lemma_shortlist_count(len: nat, n: nat, k: nat, r: nat)
    requires
        n > 0,
        k < n,
    ensures
        (r < shortlist_count(len, n, k)) <==> (r < SHORTLIST_SIZE && k + r * n < len),
{
    if k < len {
        let x = (len - 1 - k) as nat;
        let q = x / n;
        assert(q * n <= x < (q + 1) * n) by (nonlinear_arith)
            requires q == x / n, n > 0;
        assert((r <= q) <==> (r * n <= x)) by (nonlinear_arith)
            requires q * n <= x < (q + 1) * n, n > 0;
    } else {
        assert(k + r * n >= k) by (nonlinear_arith);
    }
}

/// Views of the symbols of a sequence of candidates.
pub open spec fn pool_symbols(pool: Seq<SymbolStatsV1>) -> Seq<Seq<char>> {
    pool.map_values(|s: SymbolStatsV1| s.symbol@)
}

proof fn lemma_insert_ranked_distinct(s: Seq<SymbolStatsV1>, x: SymbolStatsV1)
    requires
        pool_symbols(s).no_duplicates(),
        !pool_symbols(s).contains(x.symbol@),
    ensures
        pool_symbols(insert_ranked(s, x)).no_duplicates(),
        forall|y: Seq<char>| pool_symbols(insert_ranked(s, x)).contains(y) <==> (pool_symbols(s).contains(y) || y == x.symbol@),
    decreases s.len(),
{
    broadcast use vstd::seq_lib::lemma_seq_contains_after_push;
    let r = insert_ranked(s, x);
    if s.len() == 0 {
        assert(pool_symbols(r) =~= seq![x.symbol@]);
    } else if rank_order(s.last(), x) <= 0 {
        assert(pool_symbols(r) =~= pool_symbols(s).push(x.symbol@));
    } else {
        let d = s.drop_last();
        let l = s.last();
        assert(pool_symbols(d) =~= pool_symbols(s).drop_last());
        assert(pool_symbols(s) =~= pool_symbols(d).push(l.symbol@));
        assert(!pool_symbols(d).contains(l.symbol@)) by {
            if pool_symbols(d).contains(l.symbol@) {
                let j = choose|j: int| 0 <= j < pool_symbols(d).len() && pool_symbols(d)[j] == l.symbol@;
                assert(pool_symbols(s)[j] == pool_symbols(s)[s.len() - 1]);
            }
        }
        assert(!pool_symbols(d).contains(x.symbol@)) by {
            if pool_symbols(d).contains(x.symbol@) {
                let j = choose|j: int| 0 <= j < pool_symbols(d).len() && pool_symbols(d)[j] == x.symbol@;
                assert(pool_symbols(s)[j] == x.symbol@);
            }
        }
        assert(l.symbol@ != x.symbol@) by {
            assert(pool_symbols(s)[s.len() - 1] == l.symbol@);
        }
        lemma_insert_ranked_distinct(d, x);
        let m = insert_ranked(d, x);
        assert(pool_symbols(r) =~= pool_symbols(m).push(l.symbol@));
    }
}

proof fn lemma_rank_sorted_distinct(s: Seq<SymbolStatsV1>)
    requires
        pool_symbols(s).no_duplicates(),
    ensures
        pool_symbols(rank_sorted(s)).no_duplicates(),
        forall|y: Seq<char>| pool_symbols(rank_sorted(s)).contains(y) <==> pool_symbols(s).contains(y),
    decreases s.len(),
{
    broadcast use vstd::seq_lib::lemma_seq_contains_after_push;
    if s.len() > 0 {
        let d = s.drop_last();
        let l = s.last();
        assert(pool_symbols(d) =~= pool_symbols(s).drop_last());
        assert(pool_symbols(s) =~= pool_symbols(d).push(l.symbol@));
        lemma_rank_sorted_distinct(d);
        assert(!pool_symbols(d).contains(l.symbol@)) by {
            if pool_symbols(d).contains(l.symbol@) {
                let j = choose|j: int| 0 <= j < pool_symbols(d).len() && pool_symbols(d)[j] == l.symbol@;
                assert(pool_symbols(s)[j] == pool_symbols(s)[s.len() - 1]);
            }
        }
        lemma_insert_ranked_distinct(rank_sorted(d), l);
    }
}

proof fn lemma_reentry_pool_distinct(guards: Map<Seq<char>, SymbolGuardStateV1>, ranked: Seq<SymbolStatsV1>, now_ms: i64)
    requires
        pool_symbols(ranked).no_duplicates(),
    ensures
        pool_symbols(reentry_pool(guards, ranked, now_ms)).no_duplicates(),
        forall|y: Seq<char>| pool_symbols(reentry_pool(guards, ranked, now_ms)).contains(y) ==> pool_symbols(ranked).contains(y),
    decreases ranked.len(),
{
    broadcast use vstd::seq_lib::lemma_seq_contains_after_push;
    if ranked.len() > 0 {
        let d = ranked.drop_last();
        let l = ranked.last();
        assert(pool_symbols(d) =~= pool_symbols(ranked).drop_last());
        assert(pool_symbols(ranked) =~= pool_symbols(d).push(l.symbol@));
        lemma_reentry_pool_distinct(guards, d, now_ms);
        let rest = reentry_pool(guards, d, now_ms);
        if spec_can_reenter(guards, l.symbol@, l, now_ms) {
            assert(pool_symbols(rest.push(l)) =~= pool_symbols(rest).push(l.symbol@));
            assert(!pool_symbols(d).contains(l.symbol@)) by {
                if pool_symbols(d).contains(l.symbol@) {
                    let j = choose|j: int| 0 <= j < pool_symbols(d).len() && pool_symbols(d)[j] == l.symbol@;
                    assert(pool_symbols(ranked)[j] == pool_symbols(ranked)[ranked.len() - 1]);
                }
            }
        }
    }
}

/// Every candidate of the re-entry pool may re-enter and is one of the ranked
/// candidates.
pub proof fn lemma_reentry_pool_members(guards: Map<Seq<char>, SymbolGuardStateV1>, ranked: Seq<SymbolStatsV1>, now_ms: i64)
    ensures
        forall|p: int| 0 <= p < reentry_pool(guards, ranked, now_ms).len() ==> {
            let c = #[trigger] reentry_pool(guards, ranked, now_ms)[p];
            spec_can_reenter(guards, c.symbol@, c, now_ms) && ranked.contains(c)
        },
    decreases ranked.len(),
{
    if ranked.len() > 0 {
        let d = ranked.drop_last();
        lemma_reentry_pool_members(guards, d, now_ms);
        let rest = reentry_pool(guards, d, now_ms);
        assert forall|p: int| 0 <= p < reentry_pool(guards, ranked, now_ms).len() implies {
            let c = #[trigger] reentry_pool(guards, ranked, now_ms)[p];
            spec_can_reenter(guards, c.symbol@, c, now_ms) && ranked.contains(c)
        } by {
            let c = reentry_pool(guards, ranked, now_ms)[p];
            if p < rest.len() {
                assert(c == rest[p]);
                assert(d.contains(c));
                let w = choose|w: int| 0 <= w < d.len() && d[w] == c;
                assert(ranked[w] == c);
            } else {
                assert(c == ranked.last());
                assert(ranked[ranked.len() - 1] == c);
            }
        }
    }
}

/// Shortlists hold only candidates that may re-enter: every symbol of the
/// shortlist of portfolio `k` is the symbol of one of the candidates that is
/// eligible and not cooling down at `now_ms`.
pub proof fn lemma_shortlisted_symbols_may_reenter(
    guards: Map<Seq<char>, SymbolGuardStateV1>,
    candidates: Seq<SymbolStatsV1>,
    now_ms: i64,
    n: nat,
    k: int,
    i: int,
)
    requires
        n > 0,
        0 <= k < n,
        0 <= i < spec_shortlists(reentry_pool(guards, rank_sorted(candidates), now_ms), n)[k].len(),
    ensures
        exists|c: SymbolStatsV1| #[trigger] candidates.contains(c)
            && c.symbol@ == spec_shortlists(reentry_pool(guards, rank_sorted(candidates), now_ms), n)[k][i]
            && spec_can_reenter(guards, c.symbol@, c, now_ms)
            && spec_eligible(c),
{
    let ranked = rank_sorted(candidates);
    let pool = reentry_pool(guards, ranked, now_ms);
    lemma_shortlist_count(pool.len(), n, k as nat, i as nat);
    let p = k + i * n;
    lemma_reentry_pool_members(guards, ranked, now_ms);
    let c = pool[p];
    assert(spec_can_reenter(guards, c.symbol@, c, now_ms) && ranked.contains(c));
    lemma_rank_sorted_permutation(candidates);
    assert(ranked.to_multiset().count(c) > 0) by {
        broadcast use vstd::seq_lib::group_to_multiset_ensures;
    }
    assert(candidates.contains(c)) by {
        broadcast use vstd::seq_lib::group_to_multiset_ensures;
    }
}

/// Guard rows round-trip row for row: rows reported by
/// [`PortfolioEngineV1::guard_states`] (ascending by symbol), handed to
/// [`PortfolioEngineV1::replace_guard_states`] of any engine, are read back by
/// its `guard_states` as exactly the same rows: the rows read back are
/// ascending by symbol and describe the map the replacement set, which
/// determines them.
pub proof fn lemma_guard_rows_round_trip(
    reported: Seq<(String, SymbolGuardStateV1)>,
    read_back: Seq<(String, SymbolGuardStateV1)>,
)
    requires
        rows_sorted(reported),
        rows_sorted(read_back),
        rows_map(read_back) == rows_to_map(reported),
    ensures
        rows_view(read_back) == rows_view(reported),
        rows_map(read_back) == rows_map(reported),
{
    lemma_rows_to_map_sorted(reported);
    lemma_sorted_rows_unique(read_back, reported);
}

/// Guard rows round-trip: replacing an engine's guards by the rows
/// [`PortfolioEngineV1::guard_states`] reported (ascending by symbol,
/// describing the map `g`) gives back exactly `g`; and the rows reported after
/// [`PortfolioEngineV1::replace_guard_states`] describe the map it set.
pub proof fn lemma_guard_states_round_trip(
    reported: Seq<(String, SymbolGuardStateV1)>,
    g: Map<Seq<char>, SymbolGuardStateV1>,
    written: Seq<(String, SymbolGuardStateV1)>,
)
    ensures
        rows_sorted(reported) && rows_map(reported) == g ==> rows_to_map(reported) == g,
        rows_sorted(reported) && rows_map(reported) == rows_to_map(written) ==> rows_to_map(reported) == rows_to_map(written),
{
    if rows_sorted(reported) {
        lemma_rows_to_map_sorted(reported);
    }
}

/// When the candidates' symbols are distinct, so are the symbols of the
/// shortlist pool, and the shortlists dealt from it never share a symbol.
pub proof fn lemma_distinct_candidates_give_disjoint_shortlists(
    guards: Map<Seq<char>, SymbolGuardStateV1>,
    candidates: Seq<SymbolStatsV1>,
    now_ms: i64,
    n: nat,
)
    requires
        n > 0,
        pool_symbols(candidates).no_duplicates(),
    ensures
        pool_symbols(reentry_pool(guards, rank_sorted(candidates), now_ms)).no_duplicates(),
        shortlists_disjoint(spec_shortlists(reentry_pool(guards, rank_sorted(candidates), now_ms), n)),
{
    lemma_rank_sorted_distinct(candidates);
    lemma_reentry_pool_distinct(guards, rank_sorted(candidates), now_ms);
    crate::assignment::lemma_shortlists_disjoint(reentry_pool(guards, rank_sorted(candidates), now_ms), n);
}

/// Checks of an assignment of active symbols against shortlists: at most
/// [`MAX_ACTIVE_SYMBOLS`] per portfolio, each taken from the portfolio's own
/// shortlist, and no symbol active twice anywhere.
pub open spec fn assignment_ok(shortlists: Seq<Seq<Seq<char>>>, actives: Seq<Seq<Seq<char>>>) -> bool {
    &&& actives.len() == shortlists.len()
    &&& forall|k: int| 0 <= k < actives.len() ==> #[trigger] actives[k].len() <= MAX_ACTIVE_SYMBOLS
    &&& forall|k: int, i: int| 0 <= k < actives.len() && 0 <= i < actives[k].len()
        ==> #[trigger] shortlists[k].contains(#[trigger] actives[k][i])
    &&& forall|k1: int, i1: int, k2: int, i2: int|
        0 <= k1 < actives.len() && 0 <= i1 < actives[k1].len() && 0 <= k2 < actives.len() && 0 <= i2 < actives[k2].len()
        && (k1 != k2 || i1 != i2) ==> #[trigger] actives[k1][i1] != #[trigger] actives[k2][i2]
}

/// No symbol occurs twice across all shortlists.
pub open spec fn shortlists_disjoint(shortlists: Seq<Seq<Seq<char>>>) -> bool {
    forall|k1: int, i1: int, k2: int, i2: int|
        0 <= k1 < shortlists.len() && 0 <= i1 < shortlists[k1].len() && 0 <= k2 < shortlists.len() && 0 <= i2 < shortlists[k2].len()
        && (k1 != k2 || i1 != i2) ==> #[trigger] shortlists[k1][i1] != #[trigger] shortlists[k2][i2]
}

/// Active symbols a portfolio gets when no shortlists overlap: the first
/// [`MAX_ACTIVE_SYMBOLS`] symbols of its shortlist.
pub open spec fn active_prefix(shortlist: Seq<Seq<char>>) -> Seq<Seq<char>> {
    shortlist.subrange(0, if shortlist.len() < MAX_ACTIVE_SYMBOLS { shortlist.len() as int } else { MAX_ACTIVE_SYMBOLS as int })
}

/// Shortlists of `n` portfolios dealt round-robin from `pool`.
pub open spec fn spec_shortlists(pool: Seq<SymbolStatsV1>, n: nat) -> Seq<Seq<Seq<char>>> {
    Seq::new(n, |k: int| spec_shortlist(pool, n, k as nat))
}

/// Ids of assigned portfolio states.
pub open spec fn state_ids(states: Seq<(String, PortfolioStateV1)>) -> Seq<Seq<char>> {
    states.map_values(|e: (String, PortfolioStateV1)| e.0@)
}

/// Shortlists of assigned portfolio states.
pub open spec fn state_shortlists(states: Seq<(String, PortfolioStateV1)>) -> Seq<Seq<Seq<char>>> {
    states.map_values(|e: (String, PortfolioStateV1)| strings_view(e.1.shortlist@))
}

/// Active symbols of assigned portfolio states.
pub open spec fn state_actives(states: Seq<(String, PortfolioStateV1)>) -> Seq<Seq<Seq<char>>> {
    states.map_values(|e: (String, PortfolioStateV1)| strings_view(e.1.active_symbols@))
}

/// Views of nested string vectors.
pub open spec fn nested_view(v: Seq<Vec<String>>) -> Seq<Seq<Seq<char>>> {
    v.map_values(|x: Vec<String>| strings_view(x@))
}

/// Portfolio runtime: configured portfolio ids and per-symbol stop-loss guards.
#[derive(Debug)]
pub struct PortfolioEngineV1 {
    guards: GuardBook,
    portfolio_ids: Vec<String>,
}

impl PortfolioEngineV1 {
    #[verifier::type_invariant]
    spec fn inv(self) -> bool {
        &&& self.guards.wf()
        &&& self.portfolio_ids@.len() > 0
        &&& strings_view(self.portfolio_ids@).no_duplicates()
    }

    /// The configured portfolio ids, in order.
    pub closed spec fn ids(&self) -> Seq<Seq<char>> {
        strings_view(self.portfolio_ids@)
    }

    /// Guard state per symbol.
    pub closed spec fn guard_map(&self) -> Map<Seq<char>, SymbolGuardStateV1> {
        self.guards.view_map()
    }

    /// An engine with the default ids and no guards.
    pub fn new() -> (e: Self)
        ensures
            e.ids() == default_ids(),
            e.guard_map() == Map::<Seq<char>, SymbolGuardStateV1>::empty(),
    {
        let ids = default_portfolio_ids();
        proof {
            assert(default_ids()[0] != default_ids()[1]) by {
                reveal_strlit("A");
                reveal_strlit("B");
                assert("A"@[0] != "B"@[0]);
            }
            assert(strings_view(ids@).len() == ids@.len());
            assert(ids@.len() == 2);
            assert(strings_view(ids@).no_duplicates());
        }
        let book = GuardBook::new();
        PortfolioEngineV1 { guards: book, portfolio_ids: ids }
    }

    /// An engine with normalised `portfolio_ids` and no guards.
    pub fn with_portfolio_ids(portfolio_ids: Vec<String>) -> (e: Self)
        ensures
            e.ids() == normalized_ids(strings_view(portfolio_ids@)),
            e.guard_map() == Map::<Seq<char>, SymbolGuardStateV1>::empty(),
    {
        PortfolioEngineV1 { guards: GuardBook::new(), portfolio_ids: normalize_portfolio_ids(portfolio_ids) }
    }

    /// The configured portfolio ids.
    pub fn portfolio_ids(&self) -> (r: &[String])
        ensures
            strings_view(r@) == self.ids(),
    {
        self.portfolio_ids.as_slice()
    }

    /// Replaces the ids by normalised `portfolio_ids`; guards are kept.
    pub fn set_portfolio_ids(&mut self, portfolio_ids: Vec<String>)
        ensures
            final(self).ids() == normalized_ids(strings_view(portfolio_ids@)),
            final(self).guard_map() == old(self).guard_map(),
    {
        proof {
            use_type_invariant(&*self);
        }
        self.portfolio_ids = normalize_portfolio_ids(portfolio_ids);
    }

    /// Records a closed trade of `symbol` (see [`guard_step`]); `pnl_positive`
    /// tells whether its PnL was above zero. The symbol gets a guard entry in
    /// any case. Returns whether a cooldown was started.
    pub fn record_closed_trade(&mut self, symbol: &str, pnl_positive: bool, is_stop_loss: bool, ts_ms: i64) -> (triggered: bool)
        ensures
            ({
                let (after, t) = guard_step(guard_or_default(old(self).guard_map(), symbol@), pnl_positive, is_stop_loss, ts_ms);
                &&& final(self).guard_map() == old(self).guard_map().insert(symbol@, after)
                &&& triggered == t
            }),
            final(self).ids() == old(self).ids(),
    {
        proof {
            use_type_invariant(&*self);
        }
        let before = self.guards.get(symbol);
        let (after, triggered) = step_guard(before, pnl_positive, is_stop_loss, ts_ms);
        let mut book = GuardBook::new();
        std::mem::swap(&mut book, &mut self.guards);
        book.set(symbol, after);
        self.guards = book;
        triggered
    }

    /// Whether `symbol` may re-enter: no running cooldown and eligible stats.
    pub fn can_reenter(&self, symbol: &str, stats: &SymbolStatsV1, now_ms: i64) -> (r: bool)
        ensures
            r == spec_can_reenter(self.guard_map(), symbol@, *stats, now_ms),
    {
        proof {
            use_type_invariant(self);
        }
        if self.guards.contains(symbol) {
            let g = self.guards.get(symbol);
            if let Some(until) = g.cooldown_until_ms {
                if now_ms < until {
                    return false;
                }
            }
        }
        eligible(stats)
    }

    /// The guard of `symbol`, or the default guard.
    pub fn guard_state(&self, symbol: &str) -> (g: SymbolGuardStateV1)
        ensures
            g == guard_or_default(self.guard_map(), symbol@),
    {
        proof {
            use_type_invariant(self);
        }
        self.guards.get(symbol)
    }

    /// All guards, ascending by symbol.
    pub fn guard_states(&self) -> (rows: Vec<(String, SymbolGuardStateV1)>)
        ensures
            rows_sorted(rows@),
            rows_map(rows@) == self.guard_map(),
    {
        proof {
            use_type_invariant(self);
        }
        self.guards.rows()
    }

    /// Replaces all guards by `rows`; a later row for a symbol wins.
    pub fn replace_guard_states(&mut self, rows: Vec<(String, SymbolGuardStateV1)>)
        ensures
            final(self).guard_map() == rows_to_map(rows@),
            final(self).ids() == old(self).ids(),
    {
        proof {
            use_type_invariant(&*self);
        }
        let mut book = GuardBook::new();
        book.replace(rows);
        self.guards = book;
    }

    /// Spec of the shortlist pool: ranked candidates that may re-enter.
    pub open spec fn pool_of(&self, candidates: Seq<SymbolStatsV1>, now_ms: i64) -> Seq<SymbolStatsV1> {
        reentry_pool(self.guard_map(), rank_sorted(candidates), now_ms)
    }

    /// Ranked candidates that may re-enter at `now_ms`, in rank order.
    pub fn build_shortlist_pool(&self, candidates: &[SymbolStatsV1], now_ms: i64) -> (pool: Vec<SymbolStatsV1>)
        ensures
            pool@ == self.pool_of(candidates@, now_ms),
    {
        let ranked = rank_candidates(candidates);
        let n = ranked.len();
        let mut out: Vec<SymbolStatsV1> = Vec::new();
        let mut i: usize = 0;
        while i < n
            invariant
                n == ranked@.len(),
                ranked@ == rank_sorted(candidates@),
                i <= n,
                out@ == reentry_pool(self.guard_map(), ranked@.subrange(0, i as int), now_ms),
            decreases n - i,
        {
            proof {
                let r = ranked@.subrange(0, i + 1);
                assert(r.drop_last() =~= ranked@.subrange(0, i as int));
                assert(r.last() == ranked@[i as int]);
            }
            if self.can_reenter(ranked[i].symbol.as_str(), &ranked[i], now_ms) {
                out.push(ranked[i].clone());
            }
            i = i + 1;
        }
        proof {
            assert(ranked@.subrange(0, n as int) =~= ranked@);
        }
        out
    }

    /// Assigns shortlists and active symbols to the portfolios, in id order.
    /// The pool (see [`Self::pool_of`]) is dealt round-robin into shortlists
    /// of at most [`SHORTLIST_SIZE`]; active symbols are then taken from each
    /// shortlist so that no symbol is active in two portfolios.
    pub fn assign_without_overlap(&self, candidates: &[SymbolStatsV1], now_ms: i64) -> (states: Vec<(String, PortfolioStateV1)>)
        ensures
            state_ids(states@) == self.ids(),
            state_shortlists(states@) == spec_shortlists(self.pool_of(candidates@, now_ms), self.ids().len()),
            state_actives(states@) == spec_assign_actives(state_shortlists(states@)),
            assignment_ok(state_shortlists(states@), state_actives(states@)),
            shortlists_disjoint(state_shortlists(states@)) ==> forall|k: int| 0 <= k < states@.len() ==>
                #[trigger] state_actives(states@)[k] == active_prefix(state_shortlists(states@)[k]),
            // With distinct candidate symbols: the shortlists together hold exactly the
            // symbols of the first `dealt_count` pool entries, their sizes add up to that
            // count and differ by at most one, and each portfolio trades the first
            // symbols of its own shortlist.
            pool_symbols(candidates@).no_duplicates() ==> ({
                let pool = self.pool_of(candidates@, now_ms);
                let sl = state_shortlists(states@);
                &&& shortlists_disjoint(sl)
                &&& total_len(sl) == dealt_count(pool.len(), self.ids().len())
                &&& forall|k1: int, k2: int| 0 <= k1 < k2 < sl.len() ==>
                        #[trigger] sl[k1].len() >= #[trigger] sl[k2].len() && sl[k1].len() <= sl[k2].len() + 1
                &&& forall|x: Seq<char>| flat_contains(sl, x)
                        <==> exists|p: int| 0 <= p < dealt_count(pool.len(), self.ids().len()) && #[trigger] pool[p].symbol@ == x
                &&& forall|k: int| 0 <= k < states@.len() ==> #[trigger] state_actives(states@)[k] == active_prefix(sl[k])
            }),
    {
        proof {
            use_type_invariant(self);
            if pool_symbols(candidates@).no_duplicates() {
                lemma_distinct_candidates_give_disjoint_shortlists(self.guard_map(), candidates@, now_ms, self.ids().len());
            }
            lemma_shortlists_cover_pool_prefix(self.pool_of(candidates@, now_ms), self.ids().len());
        }
        let pool = self.build_shortlist_pool(candidates, now_ms);
        let n = self.portfolio_ids.len();
        let shortlists = deal_shortlists(&pool, n);
        let actives = assign_active_symbols(&shortlists);
        let ghost sl = nested_view(shortlists@);
        let ghost ac = nested_view(actives@);
        proof {
            assert(sl =~= spec_shortlists(pool@, n as nat)) by {
                assert forall|k: int| 0 <= k < n implies #[trigger] sl[k] == spec_shortlist(pool@, n as nat, k as nat) by {
                    assert(strings_view(shortlists@[k]@) == spec_shortlist(pool@, n as nat, k as nat));
                }
            }
        }
        let mut states: Vec<(String, PortfolioStateV1)> = Vec::new();
        let mut k: usize = 0;
        while k < n
            invariant
                n == self.portfolio_ids@.len(),
                n == shortlists@.len(),
                n == actives@.len(),
                sl == nested_view(shortlists@),
                ac == nested_view(actives@),
                k <= n,
                states@.len() == k,
                forall|j: int| 0 <= j < k ==> (#[trigger] states@[j]).0@ == self.portfolio_ids@[j]@
                    && strings_view(states@[j].1.shortlist@) == sl[j]
                    && strings_view(states@[j].1.active_symbols@) == ac[j],
            decreases n - k,
        {
            let id = self.portfolio_ids[k].clone();
            let st = PortfolioStateV1 {
                shortlist: copy_strings(&shortlists[k]),
                active_symbols: copy_strings(&actives[k]),
            };
            states.push((id, st));
            k = k + 1;
        }
        proof {
            assert(state_ids(states@) =~= self.ids());
            assert(state_shortlists(states@) =~= sl);
            assert(state_actives(states@) =~= ac);
        }
        states
    }
}

} // verus!
