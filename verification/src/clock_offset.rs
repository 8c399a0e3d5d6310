//! Per-exchange clock offset estimation: a sliding window of
//! `local - exchange` samples whose median corrects exchange timestamps.

use std::collections::VecDeque;
use vstd::prelude::*;
use crate::arith::{clamp_i64, sat_add_i64};
use crate::sorting::{sort_i64, sorted_seq_i64, lemma_sorted_i64_is_sort, sorted_i64};
use crate::text::str_equals;

verus! {

/// Window size of the millisecond estimator.
pub const OFFSET_WINDOW_SAMPLES: usize = 512;
/// Window size of the nanosecond estimator.
pub const OFFSET_WINDOW_SAMPLES_NS: usize = 256;
/// Number of accepted samples between two median recomputations.
pub const OFFSET_RECOMPUTE_INTERVAL: u32 = 64;
/// Samples with a larger magnitude (6h in ms) are rejected.
pub const MAX_OFFSET_SAMPLE_ABS_MS: i64 = 21_600_000;
/// Samples with a larger magnitude (6h in ns) are rejected.
pub const MAX_OFFSET_SAMPLE_ABS_NS: i64 = 21_600_000_000_000;

/// Abstract state of an offset window.
#[verifier::ext_equal]
pub struct OffsetState {
    pub samples: Seq<i64>,
    pub median: i64,
    pub pending: u32,
}

/// The median of a window: the middle element of its ascending order, 0 when empty.
pub open spec fn median_of(s: Seq<i64>) -> i64 {
    if s.len() == 0 {
        0
    } else {
        sorted_seq_i64(s)[(s.len() / 2) as int]
    }
}

/// Appends `x` and keeps only the newest `cap` samples.
pub open spec fn window_push(s: Seq<i64>, x: i64, cap: nat) -> Seq<i64> {
    let t = s.push(x);
    if t.len() > cap {
        t.subrange(t.len() - cap, t.len() as int)
    } else {
        t
    }
}

/// Whether a (local, exchange) pair yields an accepted sample.
pub open spec fn sample_accepted(local: i64, exchange: i64, bound: i64) -> bool {
    local > 0 && exchange > 0 && -bound <= local - exchange <= bound
}

/// Effect of observing one (local, exchange) timestamp pair.
pub open spec fn spec_observe(st: OffsetState, local: i64, exchange: i64, cap: nat, bound: i64) -> OffsetState {
    if !sample_accepted(local, exchange, bound) {
        st
    } else {
        let samples = window_push(st.samples, (local - exchange) as i64, cap);
        let pending = if st.pending == u32::MAX { u32::MAX } else { (st.pending + 1) as u32 };
        if samples.len() == 1 || pending >= OFFSET_RECOMPUTE_INTERVAL {
            OffsetState { samples, median: median_of(samples), pending: 0 }
        } else {
            OffsetState { samples, median: st.median, pending }
        }
    }
}

/// Sliding sample window shared by both estimators.
#[derive(Debug, Clone)]
struct OffsetTracker {
    samples: VecDeque<i64>,
    cached_median: i64,
    pending_updates: u32,
}

impl OffsetTracker {
    spec fn state(&self) -> OffsetState {
        OffsetState { samples: self.samples@, median: self.cached_median, pending: self.pending_updates }
    }

    fn new() -> (t: Self)
        ensures
            t.state() == (OffsetState { samples: Seq::empty(), median: 0, pending: 0 }),
    {
        OffsetTracker { samples: VecDeque::new(), cached_median: 0, pending_updates: 0 }
    }

    fn recompute_median(&mut self)
        ensures
            final(self).samples@ == old(self).samples@,
            final(self).pending_updates == old(self).pending_updates,
            final(self).cached_median == median_of(old(self).samples@),
    {
        let n = self.samples.len();
        if n == 0 {
            self.cached_median = 0;
            return;
        }
        let mut sorted: Vec<i64> = Vec::new();
        let mut i: usize = 0;
        while i < n
            invariant
                n == self.samples@.len(),
                i <= n,
                sorted@ == self.samples@.subrange(0, i as int),
            decreases n - i,
        {
            sorted.push(self.samples[i]);
            i = i + 1;
        }
        proof {
            assert(sorted@ == self.samples@);
        }
        sort_i64(&mut sorted);
        self.cached_median = sorted[n / 2];
    }

    fn observe(&mut self, local: i64, exchange: i64, cap: usize, bound: i64)
        requires
            0 < bound,
        ensures
            final(self).state() == spec_observe(old(self).state(), local, exchange, cap as nat, bound),
    {
        if local <= 0 || exchange <= 0 {
            return;
        }
        let sample = local - exchange;
        if sample < -bound || sample > bound {
            return;
        }
        let ghost pushed = self.samples@.push(sample);
        self.samples.push_back(sample);
        while self.samples.len() > cap
            invariant
                pushed.len() >= self.samples@.len(),
                self.samples@.len() == pushed.len() || self.samples@.len() >= cap,
                self.pending_updates == old(self).pending_updates,
                self.cached_median == old(self).cached_median,
                self.samples@ == pushed.subrange(pushed.len() - self.samples@.len(), pushed.len() as int),
            decreases self.samples@.len(),
        {
            self.samples.pop_front();
        }
        proof {
            if pushed.len() <= cap {
                assert(self.samples@ =~= pushed);
            } else {
                assert(self.samples@.len() == cap);
                assert(self.samples@ =~= pushed.subrange(pushed.len() - cap, pushed.len() as int));
            }
            assert(self.samples@ =~= window_push(old(self).samples@, sample, cap as nat));
        }
        let ghost windowed = self.samples@;
        self.pending_updates = self.pending_updates.saturating_add(1);
        if self.samples.len() == 1 || self.pending_updates >= OFFSET_RECOMPUTE_INTERVAL {
            self.recompute_median();
            self.pending_updates = 0;
            assert(self.state() =~= OffsetState { samples: windowed, median: median_of(windowed), pending: 0 });
        }
    }
}

/// Millisecond clock offset estimator for one exchange.
#[derive(Debug, Clone)]
pub struct ClockOffsetEstimator {
    tracker: OffsetTracker,
}

impl ClockOffsetEstimator {
    /// Abstract state: the sample window, the cached median and the pending count.
    pub closed spec fn state(&self) -> OffsetState {
        self.tracker.state()
    }

    /// An estimator with no samples and a zero offset.
    pub fn new() -> (e: Self)
        ensures
            e.state() == (OffsetState { samples: Seq::empty(), median: 0, pending: 0 }),
    {
        ClockOffsetEstimator { tracker: OffsetTracker::new() }
    }

    /// Records the sample `ingress - exchange` when both timestamps are positive
    /// and the sample is within six hours; recomputes the median on the first
    /// sample and every [`OFFSET_RECOMPUTE_INTERVAL`] accepted samples.
    pub fn observe(&mut self, ingress_ts_ms: i64, exchange_ts_ms: i64)
        ensures
            final(self).state() == spec_observe(
                old(self).state(),
                ingress_ts_ms,
                exchange_ts_ms,
                OFFSET_WINDOW_SAMPLES as nat,
                MAX_OFFSET_SAMPLE_ABS_MS,
            ),
    {
        self.tracker.observe(ingress_ts_ms, exchange_ts_ms, OFFSET_WINDOW_SAMPLES, MAX_OFFSET_SAMPLE_ABS_MS);
    }

    /// Exchange timestamp shifted by the cached median offset (saturating).
    pub fn corrected_exchange_ms(&self, exchange_ts_ms: i64) -> (r: i64)
        ensures
            r == clamp_i64(exchange_ts_ms + self.state().median),
    {
        sat_add_i64(exchange_ts_ms, self.tracker.cached_median)
    }

    /// The cached median offset.
    pub fn offset_ms(&self) -> (r: i64)
        ensures
            r == self.state().median,
    {
        self.tracker.cached_median
    }
}

impl Default for ClockOffsetEstimator {
    fn default() -> (e: Self)
        ensures
            e.state() == (OffsetState { samples: Seq::empty(), median: 0, pending: 0 }),
    {
        Self::new()
    }
}

/// Nanosecond clock offset estimator used by the lead-lag strategy.
#[derive(Debug, Clone)]
pub struct ExchangeClockOffset {
    tracker: OffsetTracker,
}

impl ExchangeClockOffset {
    /// Abstract state: the sample window, the cached median and the pending count.
    pub closed spec fn state(&self) -> OffsetState {
        self.tracker.state()
    }

    /// An estimator with no samples and a zero offset.
    pub fn new() -> (e: Self)
        ensures
            e.state() == (OffsetState { samples: Seq::empty(), median: 0, pending: 0 }),
    {
        ExchangeClockOffset { tracker: OffsetTracker::new() }
    }

    /// Records `local - exchange` (ns) under the same rules as the millisecond
    /// estimator, with a 256-sample window and a six-hour bound in ns.
    pub fn observe(&mut self, local_ts_ns: i64, exchange_ts_ns: i64)
        ensures
            final(self).state() == spec_observe(
                old(self).state(),
                local_ts_ns,
                exchange_ts_ns,
                OFFSET_WINDOW_SAMPLES_NS as nat,
                MAX_OFFSET_SAMPLE_ABS_NS,
            ),
    {
        self.tracker.observe(local_ts_ns, exchange_ts_ns, OFFSET_WINDOW_SAMPLES_NS, MAX_OFFSET_SAMPLE_ABS_NS);
    }

    /// Exchange timestamp shifted by the cached median offset (saturating).
    pub fn corrected_exchange_ts_ns(&self, exchange_ts_ns: i64) -> (r: i64)
        ensures
            r == clamp_i64(exchange_ts_ns + self.state().median),
    {
        sat_add_i64(exchange_ts_ns, self.tracker.cached_median)
    }

    /// Recomputes the cached median from the current window.
    pub fn recompute_median(&mut self)
        ensures
            final(self).state() == (OffsetState { median: median_of(old(self).state().samples), ..old(self).state() }),
    {
        self.tracker.recompute_median();
    }
}

impl Default for ExchangeClockOffset {
    fn default() -> (e: Self)
        ensures
            e.state() == (OffsetState { samples: Seq::empty(), median: 0, pending: 0 }),
    {
        Self::new()
    }
}

/// Millisecond clock offset estimators of the two venues.
#[derive(Debug, Clone)]
pub struct ExchangeClockOffsets {
    binance: ClockOffsetEstimator,
    gate: ClockOffsetEstimator,
}

impl ExchangeClockOffsets {
    /// Offset state for Binance.
    pub closed spec fn binance_state(&self) -> OffsetState {
        self.binance.state()
    }

    /// Offset state for Gate.io.
    pub closed spec fn gate_state(&self) -> OffsetState {
        self.gate.state()
    }

    /// Two empty estimators.
    pub fn new() -> (e: Self)
        ensures
            e.binance_state() == (OffsetState { samples: Seq::empty(), median: 0, pending: 0 }),
            e.gate_state() == (OffsetState { samples: Seq::empty(), median: 0, pending: 0 }),
    {
        ExchangeClockOffsets { binance: ClockOffsetEstimator::new(), gate: ClockOffsetEstimator::new() }
    }

    /// Feeds the venue's estimator with the (ingress, exchange) pair and returns
    /// the corrected exchange timestamp; an unknown venue is returned unchanged.
    pub fn corrected_exchange_ms(&mut self, exchange: &str, exchange_ts_ms: i64, ingress_ts_ms: i64) -> (r: i64)
        ensures
            exchange@ == "binance"@ ==> {
                &&& final(self).binance_state() == spec_observe(old(self).binance_state(), ingress_ts_ms,
                    exchange_ts_ms, OFFSET_WINDOW_SAMPLES as nat, MAX_OFFSET_SAMPLE_ABS_MS)
                &&& final(self).gate_state() == old(self).gate_state()
                &&& r == clamp_i64(exchange_ts_ms + final(self).binance_state().median)
            },
            exchange@ == "gate"@ ==> {
                &&& final(self).gate_state() == spec_observe(old(self).gate_state(), ingress_ts_ms,
                    exchange_ts_ms, OFFSET_WINDOW_SAMPLES as nat, MAX_OFFSET_SAMPLE_ABS_MS)
                &&& final(self).binance_state() == old(self).binance_state()
                &&& r == clamp_i64(exchange_ts_ms + final(self).gate_state().median)
            },
            exchange@ != "binance"@ && exchange@ != "gate"@ ==> {
                &&& final(self).binance_state() == old(self).binance_state()
                &&& final(self).gate_state() == old(self).gate_state()
                &&& r == exchange_ts_ms
            },
    {
        proof {
            reveal_strlit("binance");
            reveal_strlit("gate");
            assert("binance"@[0] != "gate"@[0]);
        }
        if str_equals(exchange, "binance") {
            self.binance.observe(ingress_ts_ms, exchange_ts_ms);
            self.binance.corrected_exchange_ms(exchange_ts_ms)
        } else if str_equals(exchange, "gate") {
            self.gate.observe(ingress_ts_ms, exchange_ts_ms);
            self.gate.corrected_exchange_ms(exchange_ts_ms)
        } else {
            exchange_ts_ms
        }
    }
}

impl Default for ExchangeClockOffsets {
    fn default() -> (e: Self)
        ensures
            e.binance_state() == (OffsetState { samples: Seq::empty(), median: 0, pending: 0 }),
            e.gate_state() == (OffsetState { samples: Seq::empty(), median: 0, pending: 0 }),
    {
        Self::new()
    }
}

/// The window never holds more than `cap` samples: observing keeps a bounded
/// window bounded.
pub proof fn lemma_observe_keeps_window_bounded(st: OffsetState, local: i64, exchange: i64, cap: nat, bound: i64)
    requires
        st.samples.len() <= cap,
        cap > 0,
    ensures
        spec_observe(st, local, exchange, cap, bound).samples.len() <= cap,
{
}

/// An accepted sample is the newest element of the window, and the window keeps
/// the newest samples in arrival order.
pub proof fn lemma_observe_appends_newest(st: OffsetState, local: i64, exchange: i64, cap: nat, bound: i64)
    requires
        sample_accepted(local, exchange, bound),
        cap > 0,
    ensures
        ({
            let w = spec_observe(st, local, exchange, cap, bound).samples;
            &&& w.len() > 0
            &&& w.last() == local - exchange
            &&& forall|k: int| 0 <= k < w.len() - 1 ==> #[trigger] w[k] == st.samples[st.samples.len() - (w.len() - 1) + k]
        }),
{
}

/// The median of a non-empty window is one of its samples, and it lies between
/// the window's minimum and maximum.
pub proof fn lemma_median_is_a_sample(s: Seq<i64>)
    requires
        s.len() > 0,
    ensures
        s.contains(median_of(s)),
        exists|k: int| 0 <= k < s.len() && s[k] <= median_of(s),
        exists|k: int| 0 <= k < s.len() && median_of(s) <= s[k],
{
    broadcast use vstd::seq_lib::group_to_multiset_ensures;
    let leq = crate::sorting::leq_i64();
    s.lemma_sort_by_ensures(leq);
    let t = sorted_seq_i64(s);
    assert(t.to_multiset() == s.to_multiset());
    assert(t.to_multiset().len() == t.len());
    assert(s.to_multiset().len() == s.len());
    assert(t.len() == s.len());
    let m = t[(s.len() / 2) as int];
    assert(t.contains(m));
    assert(t.to_multiset().count(m) > 0);
    assert(s.contains(m));
}

/// Number of samples of `s` that satisfy `p`.
pub open spec fn count_matching(s: Seq<i64>, p: spec_fn(i64) -> bool) -> nat
    decreases s.len(),
{
    if s.len() == 0 {
        0
    } else {
        count_matching(s.drop_last(), p) + (if p(s.last()) { 1nat } else { 0nat })
    }
}

/// Number of samples of `s` strictly below `m`.
pub open spec fn count_below(s: Seq<i64>, m: i64) -> nat {
    count_matching(s, |x: i64| x < m)
}

/// Number of samples of `s` strictly above `m`.
pub open spec fn count_above(s: Seq<i64>, m: i64) -> nat {
    count_matching(s, |x: i64| x > m)
}

proof fn lemma_count_concat(a: Seq<i64>, b: Seq<i64>, p: spec_fn(i64) -> bool)
    ensures
        count_matching(a + b, p) == count_matching(a, p) + count_matching(b, p),
    decreases b.len(),
{
    if b.len() > 0 {
        lemma_count_concat(a, b.drop_last(), p);
        assert((a + b).drop_last() =~= a + b.drop_last());
    } else {
        assert(a + b =~= a);
    }
}

proof fn lemma_count_at_most_len(s: Seq<i64>, p: spec_fn(i64) -> bool)
    ensures
        count_matching(s, p) <= s.len(),
    decreases s.len(),
{
    if s.len() > 0 {
        lemma_count_at_most_len(s.drop_last(), p);
    }
}

proof fn lemma_count_none(s: Seq<i64>, p: spec_fn(i64) -> bool)
    requires
        forall|k: int| 0 <= k < s.len() ==> !p(#[trigger] s[k]),
    ensures
        count_matching(s, p) == 0,
    decreases s.len(),
{
    if s.len() > 0 {
        lemma_count_none(s.drop_last(), p);
    }
}

proof fn lemma_count_permutation(s: Seq<i64>, t: Seq<i64>, p: spec_fn(i64) -> bool)
    requires
        s.to_multiset() == t.to_multiset(),
    ensures
        count_matching(s, p) == count_matching(t, p),
    decreases s.len(),
{
    broadcast use vstd::seq_lib::group_to_multiset_ensures;
    broadcast use vstd::multiset::group_multiset_axioms;
    if s.len() == 0 {
        assert(t.to_multiset().len() == 0);
        assert(t.len() == 0);
    } else {
        let x = s.last();
        assert(s.drop_last().push(x) =~= s);
        assert(s.to_multiset().count(x) > 0);
        assert(t.contains(x));
        let i = t.index_of(x);
        let t2 = t.remove(i);
        assert(t2.to_multiset() =~= s.drop_last().to_multiset());
        lemma_count_permutation(s.drop_last(), t2, p);
        let a = t.subrange(0, i);
        let b = t.subrange(i + 1, t.len() as int);
        assert(t2 =~= a + b);
        assert(t =~= a + seq![x] + b);
        lemma_count_concat(a, b, p);
        lemma_count_concat(a, seq![x], p);
        lemma_count_concat(a + seq![x], b, p);
        assert(seq![x].drop_last() =~= Seq::<i64>::empty());
        assert(count_matching(Seq::<i64>::empty(), p) == 0);
        assert(count_matching(seq![x], p) == (if p(x) { 1nat } else { 0nat }));
        assert(count_matching(t, p) == count_matching(a + seq![x] + b, p));
        assert(count_matching(t2, p) == count_matching(a + b, p));
        assert(count_matching(s, p) == count_matching(s.drop_last(), p) + (if p(x) { 1nat } else { 0nat }));
    }
}

/// The median of a non-empty window ranks in the middle: at most `len / 2`
/// samples lie strictly below it and at most `(len - 1) / 2` strictly above it,
/// so it is the element at index `len / 2` of the ascending order.
pub proof fn lemma_median_rank(s: Seq<i64>)
    requires
        s.len() > 0,
    ensures
        s.contains(median_of(s)),
        count_below(s, median_of(s)) <= s.len() / 2,
        count_above(s, median_of(s)) <= (s.len() - 1) / 2,
{
    broadcast use vstd::seq_lib::group_to_multiset_ensures;
    lemma_median_is_a_sample(s);
    let leq = crate::sorting::leq_i64();
    s.lemma_sort_by_ensures(leq);
    let t = sorted_seq_i64(s);
    assert(t.len() == s.len()) by {
        assert(t.to_multiset().len() == t.len());
        assert(s.to_multiset().len() == s.len());
    }
    let n = t.len() as int;
    let k = n / 2;
    let m = t[k];
    assert(vstd::relations::sorted_by(t, leq));
    let below = |x: i64| x < m;
    let above = |x: i64| x > m;
    lemma_count_permutation(s, t, below);
    lemma_count_permutation(s, t, above);
    let lo = t.subrange(0, k);
    let hi = t.subrange(k, n);
    let lo1 = t.subrange(0, k + 1);
    let hi1 = t.subrange(k + 1, n);
    assert(t =~= lo + hi);
    assert(t =~= lo1 + hi1);
    lemma_count_concat(lo, hi, below);
    lemma_count_concat(lo1, hi1, above);
    lemma_count_at_most_len(lo, below);
    lemma_count_at_most_len(hi1, above);
    assert forall|j: int| 0 <= j < hi.len() implies !below(#[trigger] hi[j]) by {
        assert(leq(t[k], t[k + j]));
    }
    assert forall|j: int| 0 <= j < lo1.len() implies !above(#[trigger] lo1[j]) by {
        if j < k {
            assert(leq(t[j], t[k]));
        }
    }
    lemma_count_none(hi, below);
    lemma_count_none(lo1, above);
}

/// A window whose samples are all equal to `c` has median `c`: a constant
/// clock offset is tracked exactly.
pub proof fn lemma_constant_window_median(s: Seq<i64>, c: i64)
    requires
        s.len() > 0,
        forall|k: int| 0 <= k < s.len() ==> s[k] == c,
    ensures
        median_of(s) == c,
{
    lemma_median_is_a_sample(s);
}

} // verus!
