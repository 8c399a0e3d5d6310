//! Housekeeping of the screener's symbol catalog: which symbols are dropped
//! as stale or to respect the size cap, when a prune may run, and when the
//! sorted rows snapshot may be served from its cache.

use vstd::prelude::*;
use vstd::utf8::encode_utf8;
use crate::arith::{clamp_i64, sat_sub_i64};
use crate::text::{compare_str, lex_order, lemma_lex_order_total, lemma_lex_order_transitive,
    lemma_encode_utf8_injective, Comparison};

verus! {

broadcast use vstd::seq_lib::group_filter_ensures;

/// A symbol whose last update is older than this (ms) is stale.
pub const SYMBOL_STALE_TTL_MS: i64 = 1_800_000;

/// Most symbols the catalog keeps.
pub const SYMBOL_CATALOG_MAX_SIZE: usize = 2_000;

/// Least time (ms) between two prunes of the catalog.
pub const SYMBOL_CATALOG_PRUNE_INTERVAL_MS: i64 = 30_000;

/// Least time (ms) between two rebuilds of a dirty rows snapshot.
pub const ROWS_CACHE_MIN_REBUILD_INTERVAL_MS: i64 = 250;

/// The stale TTL in force: at least 1 ms.
pub open spec fn effective_ttl(stale_ttl_ms: i64) -> i64 {
    if stale_ttl_ms < 1 { 1 } else { stale_ttl_ms }
}

/// The size cap in force: at least one symbol.
pub open spec fn effective_cap(max_symbols: usize) -> nat {
    if max_symbols < 1 { 1 } else { max_symbols as nat }
}

/// An entry that was updated at some point and not within the TTL is stale.
pub open spec fn is_stale_entry(updated_at_ms: i64, now_ms: i64, stale_ttl_ms: i64) -> bool {
    updated_at_ms > 0 && clamp_i64(now_ms - updated_at_ms) > effective_ttl(stale_ttl_ms)
}

pub open spec fn stale_pred(now_ms: i64, stale_ttl_ms: i64) -> spec_fn((String, i64)) -> bool {
    |e: (String, i64)| is_stale_entry(e.1, now_ms, stale_ttl_ms)
}

pub open spec fn fresh_pred(now_ms: i64, stale_ttl_ms: i64) -> spec_fn((String, i64)) -> bool {
    |e: (String, i64)| !is_stale_entry(e.1, now_ms, stale_ttl_ms)
}

/// Keys of the stale entries, in catalog order.
pub open spec fn stale_keys(entries: Seq<(String, i64)>, now_ms: i64, stale_ttl_ms: i64) -> Seq<String> {
    entries.filter(stale_pred(now_ms, stale_ttl_ms)).map_values(|e: (String, i64)| e.0)
}

/// The entries that survive the stale pass, in catalog order.
pub open spec fn fresh_entries(entries: Seq<(String, i64)>, now_ms: i64, stale_ttl_ms: i64) -> Seq<(String, i64)> {
    entries.filter(fresh_pred(now_ms, stale_ttl_ms))
}

/// How many surviving entries exceed the cap.
pub open spec fn overflow_count(fresh_len: nat, max_symbols: usize) -> nat {
    if fresh_len > effective_cap(max_symbols) { (fresh_len - effective_cap(max_symbols)) as nat } else { 0 }
}

/// `a` comes before `b` in eviction order: older update first, then the
/// smaller symbol (bytewise).
pub open spec fn evicted_before(a: (String, i64), b: (String, i64)) -> bool {
    a.1 < b.1 || (a.1 == b.1 && lex_order(encode_utf8(a.0@), encode_utf8(b.0@)) == -1)
}

/// No two entries share a symbol (the catalog is a map keyed by symbol).
pub open spec fn keys_distinct(entries: Seq<(String, i64)>) -> bool {
    forall|i: int, j: int| 0 <= i < j < entries.len() ==> entries[i].0@ != entries[j].0@
}

/// Eviction order is a strict total order on entries with distinct symbols.
proof fn lemma_evicted_before_total(a: (String, i64), b: (String, i64))
    requires
        a.0@ != b.0@,
    ensures
        evicted_before(a, b) || evicted_before(b, a),
        !(evicted_before(a, b) && evicted_before(b, a)),
{
    lemma_lex_order_total(encode_utf8(a.0@), encode_utf8(b.0@));
    lemma_encode_utf8_injective(a.0@, b.0@);
}

proof fn lemma_evicted_before_transitive(a: (String, i64), b: (String, i64), c: (String, i64))
    requires
        evicted_before(a, b),
        evicted_before(b, c),
    ensures
        evicted_before(a, c),
{
    if a.1 == b.1 && b.1 == c.1 {
        lemma_lex_order_transitive(encode_utf8(a.0@), encode_utf8(b.0@), encode_utf8(c.0@));
    }
}

/// Exact comparison in eviction order.
fn evicts_before(a: &(String, i64), b: &(String, i64)) -> (r: bool)
    ensures
        r == evicted_before(*a, *b),
{
    if a.1 < b.1 {
        true
    } else if a.1 > b.1 {
        false
    } else {
        let c = compare_str(a.0.as_str(), b.0.as_str());
        proof {
            lemma_lex_order_total(encode_utf8(a.0@), encode_utf8(b.0@));
        }
        match c {
            Comparison::Less => true,
            _ => false,
        }
    }
}

/// What one prune removes: the stale symbols, then the oldest surviving
/// entries beyond the cap.
pub struct CatalogPrunePlan {
    pub stale: Vec<String>,
    pub evicted: Vec<(String, i64)>,
}

impl CatalogPrunePlan {
    /// Number of symbols the prune removes.
    pub fn removed_count(&self) -> (n: usize)
        requires
            self.stale.len() + self.evicted.len() <= usize::MAX,
        ensures
            n == self.stale.len() + self.evicted.len(),
    {
        self.stale.len() + self.evicted.len()
    }
}

/// Splits the catalog into stale keys and surviving entries, keeping the
/// surviving entries' symbols distinct.
fn split_stale(entries: &[(String, i64)], now_ms: i64, stale_ttl_ms: i64) -> (res: (Vec<String>, Vec<(String, i64)>))
    requires
        keys_distinct(entries@),
    ensures
        res.0@ == stale_keys(entries@, now_ms, stale_ttl_ms),
        res.1@ == fresh_entries(entries@, now_ms, stale_ttl_ms),
        keys_distinct(res.1@),
{
    let ttl: i64 = if stale_ttl_ms < 1 { 1 } else { stale_ttl_ms };
    let mut stale: Vec<String> = Vec::new();
    let mut fresh: Vec<(String, i64)> = Vec::new();
    let ghost mut src: Seq<int> = Seq::empty();
    let mut i: usize = 0;
    while i < entries.len()
        invariant
            i <= entries.len(),
            ttl == effective_ttl(stale_ttl_ms),
            keys_distinct(entries@),
            stale@ == stale_keys(entries@.take(i as int), now_ms, stale_ttl_ms),
            fresh@ == fresh_entries(entries@.take(i as int), now_ms, stale_ttl_ms),
            src.len() == fresh.len(),
            forall|a: int| 0 <= a < src.len() ==> 0 <= #[trigger] src[a] < i && fresh@[a] == entries@[src[a]],
            forall|a: int, b: int| 0 <= a < b < src.len() ==> #[trigger] src[a] < #[trigger] src[b],
        decreases entries.len() - i,
    {
        let updated: i64 = entries[i].1;
        let stale_now: bool = updated > 0 && sat_sub_i64(now_ms, updated) > ttl;
        proof {
            let e = entries@[i as int];
            assert(entries@.take(i + 1) =~= entries@.take(i as int).push(e));
            entries@.take(i as int).lemma_filter_push(e, stale_pred(now_ms, stale_ttl_ms));
            entries@.take(i as int).lemma_filter_push(e, fresh_pred(now_ms, stale_ttl_ms));
        }
        if stale_now {
            stale.push(entries[i].0.clone());
            proof {
                let f = |e: (String, i64)| e.0;
                let base = entries@.take(i as int).filter(stale_pred(now_ms, stale_ttl_ms));
                assert(base.push(entries@[i as int]).map_values(f) =~= base.map_values(f).push(entries@[i as int].0));
            }
        } else {
            fresh.push((entries[i].0.clone(), entries[i].1));
            proof {
                src = src.push(i as int);
            }
        }
        i = i + 1;
    }
    proof {
        assert(entries@.take(i as int) =~= entries@);
        assert forall|a: int, b: int| 0 <= a < b < fresh@.len() implies fresh@[a].0@ != fresh@[b].0@ by {
            assert(src[a] < src[b]);
        }
    }
    (stale, fresh)
}

/// Picks, in eviction order, the `count` first entries of `fresh`.
fn select_oldest(fresh: &Vec<(String, i64)>, count: usize) -> (evicted: Vec<(String, i64)>)
    requires
        keys_distinct(fresh@),
        count <= fresh.len(),
    ensures
        evicted@.len() == count,
        forall|i: int, j: int| 0 <= i < j < evicted@.len() ==> evicted_before(evicted@[i], evicted@[j]),
        forall|i: int| 0 <= i < evicted@.len() ==> fresh@.contains(#[trigger] evicted@[i]),
        forall|k: int| 0 <= k < fresh@.len() && !evicted@.contains(#[trigger] fresh@[k])
            ==> forall|i: int| 0 <= i < evicted@.len() ==> evicted_before(#[trigger] evicted@[i], fresh@[k]),
{
    let mut rest: Vec<usize> = Vec::new();
    let mut p: usize = 0;
    while p < fresh.len()
        invariant
            p <= fresh.len(),
            rest@.len() == p,
            forall|q: int| 0 <= q < p ==> rest@[q] == q,
        decreases fresh.len() - p,
    {
        rest.push(p);
        p = p + 1;
    }
    proof {
        assert forall|k: int| 0 <= k < fresh@.len() implies #[trigger] rest@.contains(k as usize) by {
            assert(rest@[k] == k as usize);
        }
    }
    let mut evicted: Vec<(String, i64)> = Vec::new();
    while evicted.len() < count
        invariant
            keys_distinct(fresh@),
            count <= fresh.len(),
            evicted@.len() <= count,
            rest@.len() + evicted@.len() == fresh@.len(),
            forall|q: int| 0 <= q < rest@.len() ==> #[trigger] rest@[q] < fresh@.len(),
            forall|q: int, r: int| 0 <= q < r < rest@.len() ==> #[trigger] rest@[q] != #[trigger] rest@[r],
            forall|k: int| 0 <= k < fresh@.len() ==>
                (#[trigger] rest@.contains(k as usize) || evicted@.contains(fresh@[k])),
            forall|i: int| 0 <= i < evicted@.len() ==> fresh@.contains(#[trigger] evicted@[i]),
            forall|i: int, j: int| 0 <= i < j < evicted@.len() ==> evicted_before(evicted@[i], evicted@[j]),
            forall|q: int, i: int| 0 <= q < rest@.len() && 0 <= i < evicted@.len()
                ==> evicted_before(#[trigger] evicted@[i], fresh@[#[trigger] rest@[q] as int]),
        decreases count - evicted@.len(),
    {
        let mut best: usize = 0;
        let mut q: usize = 1;
        while q < rest.len()
            invariant
                keys_distinct(fresh@),
                0 < rest@.len(),
                best < q <= rest@.len(),
                forall|x: int| 0 <= x < rest@.len() ==> #[trigger] rest@[x] < fresh@.len(),
                forall|x: int, y: int| 0 <= x < y < rest@.len() ==> #[trigger] rest@[x] != #[trigger] rest@[y],
                forall|x: int| 0 <= x < q && x != best
                    ==> evicted_before(fresh@[rest@[best as int] as int], fresh@[#[trigger] rest@[x] as int]),
            decreases rest.len() - q,
        {
            let cand: usize = rest[q];
            let cur: usize = rest[best];
            proof {
                lemma_evicted_before_total(fresh@[cand as int], fresh@[cur as int]);
            }
            if evicts_before(&fresh[cand], &fresh[cur]) {
                proof {
                    assert forall|x: int| 0 <= x < q + 1 && x != q
                        implies evicted_before(fresh@[rest@[q as int] as int], fresh@[#[trigger] rest@[x] as int]) by {
                        if x != best as int {
                            lemma_evicted_before_transitive(fresh@[cand as int], fresh@[cur as int], fresh@[rest@[x] as int]);
                        }
                    }
                }
                best = q;
            }
            q = q + 1;
        }
        let idx: usize = rest[best];
        let ghost old_rest = rest@;
        let ghost old_evicted = evicted@;
        evicted.push((fresh[idx].0.clone(), fresh[idx].1));
        rest.remove(best);
        proof {
            let e = fresh@[idx as int];
            assert(evicted@ == old_evicted.push(e));
            assert(rest@ == old_rest.remove(best as int));
            assert forall|x: int| 0 <= x < rest@.len() implies #[trigger] rest@[x] == old_rest[if x < best { x } else { x + 1 }] by {}
            assert forall|k: int| 0 <= k < fresh@.len() implies
                (#[trigger] rest@.contains(k as usize) || evicted@.contains(fresh@[k])) by {
                if k == idx as int {
                    assert(evicted@[evicted@.len() - 1] == fresh@[k]);
                } else if old_rest.contains(k as usize) {
                    let w = choose|w: int| 0 <= w < old_rest.len() && old_rest[w] == k as usize;
                    assert(w != best as int);
                    if w < best {
                        assert(rest@[w] == k as usize);
                    } else {
                        assert(rest@[w - 1] == k as usize);
                    }
                } else {
                    assert(old_evicted.contains(fresh@[k]));
                    let w = choose|w: int| 0 <= w < old_evicted.len() && old_evicted[w] == fresh@[k];
                    assert(evicted@[w] == fresh@[k]);
                }
            }
            assert forall|i: int| 0 <= i < evicted@.len() implies fresh@.contains(#[trigger] evicted@[i]) by {
                if i == evicted@.len() - 1 {
                    assert(fresh@[idx as int] == evicted@[i]);
                } else {
                    assert(evicted@[i] == old_evicted[i]);
                }
            }
            assert forall|i: int, j: int| 0 <= i < j < evicted@.len() implies evicted_before(evicted@[i], evicted@[j]) by {
                if j == evicted@.len() - 1 {
                    assert(old_rest[best as int] == idx);
                    assert(evicted_before(old_evicted[i], fresh@[old_rest[best as int] as int]));
                }
            }
            assert forall|x: int, i: int| 0 <= x < rest@.len() && 0 <= i < evicted@.len()
                implies evicted_before(#[trigger] evicted@[i], fresh@[#[trigger] rest@[x] as int]) by {
                let ox: int = if x < best { x } else { x + 1 };
                assert(rest@[x] == old_rest[ox]);
                if i == evicted@.len() - 1 {
                    assert(ox != best as int);
                    assert(evicted_before(fresh@[old_rest[best as int] as int], fresh@[old_rest[ox] as int]));
                } else {
                    assert(evicted@[i] == old_evicted[i]);
                    assert(evicted_before(old_evicted[i], fresh@[old_rest[ox] as int]));
                }
            }
        }
    }
    proof {
        assert forall|k: int| 0 <= k < fresh@.len() && !evicted@.contains(#[trigger] fresh@[k])
            implies forall|i: int| 0 <= i < evicted@.len() ==> evicted_before(#[trigger] evicted@[i], fresh@[k]) by {
            assert(rest@.contains(k as usize));
            let w = choose|w: int| 0 <= w < rest@.len() && rest@[w] == k as usize;
            assert forall|i: int| 0 <= i < evicted@.len() implies evicted_before(#[trigger] evicted@[i], fresh@[k]) by {
                assert(evicted_before(evicted@[i], fresh@[rest@[w] as int]));
            }
        }
    }
    evicted
}

/// Plans one prune of the catalog (each entry a symbol and the time of its
/// last update in ms): every stale symbol goes, then, while more than the cap
/// remain, the oldest ones by update time (ties by symbol). The TTL counts as
/// at least 1 ms and the cap as at least one symbol.
pub fn prune_symbol_catalog_with_limits(
    entries: &[(String, i64)],
    now_ms: i64,
    stale_ttl_ms: i64,
    max_symbols: usize,
) -> (plan: CatalogPrunePlan)
    requires
        keys_distinct(entries@),
    ensures
        plan.stale@ == stale_keys(entries@, now_ms, stale_ttl_ms),
        ({
            let fresh = fresh_entries(entries@, now_ms, stale_ttl_ms);
            let ev = plan.evicted@;
            &&& ev.len() == overflow_count(fresh.len(), max_symbols)
            &&& fresh.len() - ev.len() <= effective_cap(max_symbols)
            &&& forall|i: int, j: int| 0 <= i < j < ev.len() ==> evicted_before(ev[i], ev[j])
            &&& forall|i: int| 0 <= i < ev.len() ==> fresh.contains(#[trigger] ev[i])
            &&& forall|k: int| 0 <= k < fresh.len() && !ev.contains(#[trigger] fresh[k])
                ==> forall|i: int| 0 <= i < ev.len() ==> evicted_before(#[trigger] ev[i], fresh[k])
        }),
        plan.stale@.len() + plan.evicted@.len() <= entries@.len(),
{
    let (stale, fresh) = split_stale(entries, now_ms, stale_ttl_ms);
    let cap: usize = if max_symbols < 1 { 1 } else { max_symbols };
    let overflow: usize = if fresh.len() > cap { fresh.len() - cap } else { 0 };
    let evicted = select_oldest(&fresh, overflow);
    proof {
        lemma_filter_split_len(entries@, now_ms, stale_ttl_ms);
    }
    CatalogPrunePlan { stale, evicted }
}

/// The stale and fresh passes partition the catalog.
proof fn lemma_filter_split_len(entries: Seq<(String, i64)>, now_ms: i64, stale_ttl_ms: i64)
    ensures
        entries.filter(stale_pred(now_ms, stale_ttl_ms)).len()
            + entries.filter(fresh_pred(now_ms, stale_ttl_ms)).len() == entries.len(),
    decreases entries.len(),
{
    if entries.len() > 0 {
        let init = entries.drop_last();
        lemma_filter_split_len(init, now_ms, stale_ttl_ms);
        assert(init.push(entries.last()) =~= entries);
        init.lemma_filter_push(entries.last(), stale_pred(now_ms, stale_ttl_ms));
        init.lemma_filter_push(entries.last(), fresh_pred(now_ms, stale_ttl_ms));
    } else {
        reveal(Seq::filter);
    }
}

/// Claims the next catalog prune: refused while the last one is less than
/// [`SYMBOL_CATALOG_PRUNE_INTERVAL_MS`] old; a claim records `now_ms`.
pub fn try_claim_catalog_prune(last_prune_ms: &mut i64, now_ms: i64) -> (claimed: bool)
    ensures
        claimed == (clamp_i64(now_ms - *old(last_prune_ms)) >= SYMBOL_CATALOG_PRUNE_INTERVAL_MS),
        *final(last_prune_ms) == (if claimed { now_ms } else { *old(last_prune_ms) }),
{
    if sat_sub_i64(now_ms, *last_prune_ms) < SYMBOL_CATALOG_PRUNE_INTERVAL_MS {
        return false;
    }
    *last_prune_ms = now_ms;
    true
}

/// The cached rows snapshot is served when it holds rows and is either clean
/// or was rebuilt less than [`ROWS_CACHE_MIN_REBUILD_INTERVAL_MS`] ago.
pub fn serve_rows_from_cache(cached_rows: usize, dirty: bool, last_rebuild_ms: i64, now_ms: i64) -> (serve: bool)
    ensures
        serve == (cached_rows > 0 && (!dirty || clamp_i64(now_ms - last_rebuild_ms) < ROWS_CACHE_MIN_REBUILD_INTERVAL_MS)),
{
    if cached_rows == 0 {
        return false;
    }
    !dirty || sat_sub_i64(now_ms, last_rebuild_ms) < ROWS_CACHE_MIN_REBUILD_INTERVAL_MS
}

} // verus!
