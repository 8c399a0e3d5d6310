//! Market data messages in fixed-point ticks, the per-batch selection of
//! strategy symbol updates, and the queue of symbols awaiting a signal check.

use vstd::prelude::*;
use bytes::Bytes;
use std::collections::{HashMap, HashSet};
use crate::symbols::{StrategySymbolIndex, SymbolId, bytes_content, bytes_as_slice, lookup_in};
use crate::runtime::{EventLoopMetrics, stage_latency_us};
use crate::clock_offset::ExchangeClockOffset;
use crate::arith::clamp_i64;

verus! {

broadcast use vstd::std_specs::hash::group_hash_axioms;

/// Fixed-point price (1e-8 units).
pub type PriceTicks = i64;

/// Fixed-point quantity (1e-8 units).
pub type QuantityTicks = i64;

/// Calls `<bytes::Bytes as Clone>::clone`, which makes a new handle on the
/// same buffer, so it holds the same bytes.
#[verifier::external_body]
pub(crate) fn bytes_clone(b: &Bytes) -> (r: Bytes)
    ensures
        bytes_content(r) == bytes_content(*b),
{
    b.clone()
}

/// Best bid/ask update of one symbol.
#[derive(Debug)]
pub struct BookTicker {
    pub symbol: Bytes,
    pub bid_price_ticks: PriceTicks,
    pub ask_price_ticks: PriceTicks,
    pub bid_qty_ticks: QuantityTicks,
    pub ask_qty_ticks: QuantityTicks,
    pub exchange_ts_ns: i64,
    pub local_ts_ns: i64,
    pub strategy_symbol_id: Option<SymbolId>,
}

impl Clone for BookTicker {
    fn clone(&self) -> (r: Self)
        ensures
            bytes_content(r.symbol) == bytes_content(self.symbol),
            r == (BookTicker { symbol: r.symbol, ..*self }),
    {
        BookTicker {
            symbol: bytes_clone(&self.symbol),
            bid_price_ticks: self.bid_price_ticks,
            ask_price_ticks: self.ask_price_ticks,
            bid_qty_ticks: self.bid_qty_ticks,
            ask_qty_ticks: self.ask_qty_ticks,
            exchange_ts_ns: self.exchange_ts_ns,
            local_ts_ns: self.local_ts_ns,
            strategy_symbol_id: self.strategy_symbol_id,
        }
    }
}

impl BookTicker {
    /// A ticker outside the strategy universe (no symbol id yet).
    pub fn new(
        symbol: Bytes,
        bid_price_ticks: PriceTicks,
        ask_price_ticks: PriceTicks,
        bid_qty_ticks: QuantityTicks,
        ask_qty_ticks: QuantityTicks,
        exchange_ts_ns: i64,
        local_ts_ns: i64,
    ) -> (t: Self)
        ensures
            t.symbol == symbol,
            t.bid_price_ticks == bid_price_ticks,
            t.ask_price_ticks == ask_price_ticks,
            t.bid_qty_ticks == bid_qty_ticks,
            t.ask_qty_ticks == ask_qty_ticks,
            t.exchange_ts_ns == exchange_ts_ns,
            t.local_ts_ns == local_ts_ns,
            t.strategy_symbol_id is None,
    {
        BookTicker {
            symbol,
            bid_price_ticks,
            ask_price_ticks,
            bid_qty_ticks,
            ask_qty_ticks,
            exchange_ts_ns,
            local_ts_ns,
            strategy_symbol_id: None,
        }
    }

    /// The same ticker tagged with a strategy symbol id.
    pub fn with_strategy_symbol_id(self, symbol_id: Option<SymbolId>) -> (t: Self)
        ensures
            t == (BookTicker { strategy_symbol_id: symbol_id, ..self }),
    {
        let mut t = self;
        t.strategy_symbol_id = symbol_id;
        t
    }

    /// Ask minus bid, in ticks.
    pub fn spread_ticks(&self) -> (r: PriceTicks)
        requires
            i64::MIN <= self.ask_price_ticks - self.bid_price_ticks <= i64::MAX,
        ensures
            r == self.ask_price_ticks - self.bid_price_ticks,
    {
        self.ask_price_ticks - self.bid_price_ticks
    }
}

/// One public trade.
#[derive(Debug)]
pub struct Trade {
    pub symbol: Bytes,
    pub trade_id: i64,
    pub price_ticks: PriceTicks,
    pub qty_ticks: QuantityTicks,
    pub is_buyer_maker: bool,
    pub exchange_ts_ns: i64,
    pub local_ts_ns: i64,
}

impl Clone for Trade {
    fn clone(&self) -> (r: Self)
        ensures
            bytes_content(r.symbol) == bytes_content(self.symbol),
            r == (Trade { symbol: r.symbol, ..*self }),
    {
        Trade {
            symbol: bytes_clone(&self.symbol),
            trade_id: self.trade_id,
            price_ticks: self.price_ticks,
            qty_ticks: self.qty_ticks,
            is_buyer_maker: self.is_buyer_maker,
            exchange_ts_ns: self.exchange_ts_ns,
            local_ts_ns: self.local_ts_ns,
        }
    }
}

impl Trade {
    /// A trade message.
    pub fn new(
        symbol: Bytes,
        trade_id: i64,
        price_ticks: PriceTicks,
        qty_ticks: QuantityTicks,
        is_buyer_maker: bool,
        exchange_ts_ns: i64,
        local_ts_ns: i64,
    ) -> (t: Self)
        ensures
            t == (Trade { symbol, trade_id, price_ticks, qty_ticks, is_buyer_maker, exchange_ts_ns, local_ts_ns }),
    {
        Trade { symbol, trade_id, price_ticks, qty_ticks, is_buyer_maker, exchange_ts_ns, local_ts_ns }
    }
}

/// Receiver of market data, for adapters to implement.
pub trait MarketDataPort: Send + Sync {
    fn on_book_ticker(&self, ticker: BookTicker);
    fn on_trade(&self, trade: Trade);
}

/// Strategy id of a ticker: its own tag, else the index entry of its symbol.
pub open spec fn ticker_id(t: BookTicker, symbols: Seq<Seq<char>>) -> Option<SymbolId> {
    match t.strategy_symbol_id {
        Some(id) => Some(id),
        None => lookup_in(symbols, bytes_content(t.symbol)),
    }
}

/// The tickers of a batch that belong to the strategy universe, each with
/// its id, in batch order.
pub open spec fn batch_updates(ts: Seq<BookTicker>, symbols: Seq<Seq<char>>) -> Seq<(SymbolId, BookTicker)>
    decreases ts.len(),
{
    if ts.len() == 0 {
        Seq::empty()
    } else {
        let acc = batch_updates(ts.drop_last(), symbols);
        match ticker_id(ts.last(), symbols) {
            Some(id) => acc.push((id, ts.last())),
            None => acc,
        }
    }
}

/// Distinct ids in first-seen order.
pub open spec fn first_seen_ids(ids: Seq<SymbolId>) -> Seq<SymbolId>
    decreases ids.len(),
{
    if ids.len() == 0 {
        Seq::empty()
    } else {
        let acc = first_seen_ids(ids.drop_last());
        if acc.contains(ids.last()) { acc } else { acc.push(ids.last()) }
    }
}

/// First-seen dedup keeps each id once and loses none.
pub proof fn lemma_first_seen_ids(ids: Seq<SymbolId>)
    ensures
        first_seen_ids(ids).no_duplicates(),
        forall|x: SymbolId| first_seen_ids(ids).contains(x) <==> ids.contains(x),
    decreases ids.len(),
{
    if ids.len() > 0 {
        let init = ids.drop_last();
        lemma_first_seen_ids(init);
        assert(ids =~= init.push(ids.last()));
        let acc = first_seen_ids(init);
        let last = ids.last();
        let r = first_seen_ids(ids);
        assert forall|x: SymbolId| r.contains(x) <==> ids.contains(x) by {
            if r.contains(x) {
                let k = choose|k: int| 0 <= k < r.len() && r[k] == x;
                if k < acc.len() {
                    assert(acc[k] == x);
                    assert(acc.contains(x));
                    assert(init.contains(x));
                    let w = choose|w: int| 0 <= w < init.len() && init[w] == x;
                    assert(ids[w] == x);
                } else {
                    assert(x == last);
                    assert(ids[ids.len() - 1] == x);
                }
            }
            if ids.contains(x) {
                let w = choose|w: int| 0 <= w < ids.len() && ids[w] == x;
                if w < ids.len() - 1 {
                    assert(init[w] == x);
                    assert(init.contains(x));
                    assert(acc.contains(x));
                    let k = choose|k: int| 0 <= k < acc.len() && acc[k] == x;
                    if !acc.contains(last) {
                        assert(r[k] == x);
                    }
                } else if !acc.contains(last) {
                    assert(r[acc.len() as int] == x);
                }
            }
        }
    }
}

/// Ids of a list of updates.
pub open spec fn update_ids(u: Seq<(SymbolId, BookTicker)>) -> Seq<SymbolId> {
    u.map_values(|e: (SymbolId, BookTicker)| e.0)
}

/// Splits a batch (`first`, then `drained`) into the strategy updates, in
/// batch order, and the distinct ids they touch, in first-seen order.
/// Tickers outside the strategy universe are dropped.
pub fn strategy_symbol_updates_from_batch(
    first: BookTicker,
    drained: Vec<BookTicker>,
    strategy_symbol_index: &StrategySymbolIndex,
) -> (r: (Vec<SymbolId>, Vec<(SymbolId, BookTicker)>))
    ensures
        r.1@ == batch_updates(seq![first] + drained@, strategy_symbol_index.symbols()),
        r.0@ == first_seen_ids(update_ids(r.1@)),
        r.0@.no_duplicates(),
        forall|x: SymbolId| r.0@.contains(x) <==> update_ids(r.1@).contains(x),
{
    let ghost syms = strategy_symbol_index.symbols();
    let ghost all = seq![first] + drained@;
    let mut rest = drained;
    rest.insert(0, first);
    proof {
        assert(rest@ =~= all);
    }
    // Reverse the batch so that popping yields it in order.
    let mut rev: Vec<BookTicker> = Vec::new();
    while rest.len() > 0
        invariant
            rest@.len() + rev@.len() == all.len(),
            rest@ == all.take(rest@.len() as int),
            forall|j: int| 0 <= j < rev@.len() ==> #[trigger] rev@[j] == all[all.len() - 1 - j],
        decreases rest@.len(),
    {
        let t = rest.pop().unwrap();
        rev.push(t);
        proof {
            assert(rest@ =~= all.take(rest@.len() as int));
        }
    }
    let mut ids: Vec<SymbolId> = Vec::new();
    let mut updates: Vec<(SymbolId, BookTicker)> = Vec::new();
    let mut seen: HashSet<SymbolId> = HashSet::new();
    let ghost n = all.len();
    while rev.len() > 0
        invariant
            n == all.len(),
            syms == strategy_symbol_index.symbols(),
            rev@.len() <= n,
            forall|j: int| 0 <= j < rev@.len() ==> #[trigger] rev@[j] == all[n - 1 - j],
            updates@ == batch_updates(all.take(n - rev@.len()), syms),
            ids@ == first_seen_ids(update_ids(updates@)),
            forall|x: SymbolId| seen@.contains(x) <==> ids@.contains(x),
        decreases rev@.len(),
    {
        let ghost i = n - rev@.len();
        let t = rev.pop().unwrap();
        proof {
            assert(t == all[i]);
            assert(all.take(i + 1).drop_last() =~= all.take(i));
            assert(all.take(i + 1).last() == t);
        }
        let id_opt: Option<SymbolId> = match t.strategy_symbol_id {
            Some(id) => Some(id),
            None => strategy_symbol_index.symbol_id(bytes_as_slice(&t.symbol)),
        };
        match id_opt {
            Some(id) => {
                let ghost old_ids = ids@;
                let ghost old_updates = updates@;
                if seen.insert(id) {
                    ids.push(id);
                    proof {
                        broadcast use vstd::seq_lib::lemma_seq_contains_after_push;
                        assert forall|y: SymbolId| seen@.contains(y) <==> ids@.contains(y) by {
                            assert(ids@ == old_ids.push(id));
                        }
                    }
                }
                updates.push((id, t));
                proof {
                    assert(update_ids(updates@).drop_last() =~= update_ids(old_updates));
                    assert(update_ids(updates@).last() == id);
                }
            }
            None => {}
        }
    }
    proof {
        assert(all.take(n as int) =~= all);
        lemma_first_seen_ids(update_ids(updates@));
    }
    (ids, updates)
}

/// Strictly ascending.
pub open spec fn ascending(s: Seq<SymbolId>) -> bool {
    forall|i: int, j: int| 0 <= i < j < s.len() ==> s[i] < s[j]
}

/// Symbols with fresh book updates that await a signal check, served in
/// ascending id order.
pub struct PendingSignals {
    ids: Vec<SymbolId>,
}

impl PendingSignals {
    #[verifier::type_invariant]
    spec fn inv(self) -> bool {
        ascending(self.ids@)
    }

    /// The pending ids as a set.
    pub closed spec fn view(&self) -> Set<SymbolId> {
        self.ids@.to_set()
    }

    /// Nothing pending.
    pub fn new() -> (p: Self)
        ensures
            p.view() == Set::<SymbolId>::empty(),
    {
        let p = PendingSignals { ids: Vec::new() };
        proof {
            assert(p.view() =~= Set::<SymbolId>::empty());
        }
        p
    }

    /// Number of pending symbols.
    pub fn backlog_depth(&self) -> (n: u64)
        ensures
            n == self.view().len(),
    {
        proof {
            use_type_invariant(self);
            lemma_ascending_no_duplicates(self.ids@);
            self.ids@.unique_seq_to_set();
        }
        self.ids.len() as u64
    }

    /// Whether nothing is pending.
    pub fn is_empty(&self) -> (r: bool)
        ensures
            r == (self.view() == Set::<SymbolId>::empty()),
    {
        proof {
            if self.ids@.len() > 0 {
                assert(self.view().contains(self.ids@[0]));
            } else {
                assert(self.view() =~= Set::<SymbolId>::empty());
            }
        }
        self.ids.len() == 0
    }

    /// Marks `id` pending (no change when it already is).
    pub fn mark(&mut self, id: SymbolId)
        ensures
            final(self).view() == old(self).view().insert(id),
    {
        proof {
            use_type_invariant(&*self);
        }
        let mut ids: Vec<SymbolId> = Vec::new();
        std::mem::swap(&mut ids, &mut self.ids);
        let ghost before = ids@;
        let mut p: usize = 0;
        while p < ids.len() && ids[p] < id
            invariant
                ids@ == before,
                ascending(before),
                p <= ids@.len(),
                forall|j: int| 0 <= j < p ==> ids@[j] < id,
            decreases ids@.len() - p,
        {
            p = p + 1;
        }
        if p < ids.len() && ids[p] == id {
            self.ids = ids;
            proof {
                assert(before.to_set().contains(id)) by {
                    assert(before[p as int] == id);
                }
                assert(self.view() =~= before.to_set().insert(id));
            }
            return;
        }
        ids.insert(p, id);
        proof {
            assert forall|i: int, j: int| 0 <= i < j < ids@.len() implies ids@[i] < ids@[j] by {
                if j < p as int {
                } else if i < p as int && j == p as int {
                } else if i < p as int {
                    assert(ids@[j] == before[j - 1]);
                } else if i == p as int {
                    assert(ids@[j] == before[j - 1]);
                    assert(before[p as int] > id);
                    assert(before[p as int] <= before[j - 1]);
                } else {
                    assert(ids@[i] == before[i - 1]);
                    assert(ids@[j] == before[j - 1]);
                }
            }
            assert(ids@.to_set() =~= before.to_set().insert(id)) by {
                assert forall|x: SymbolId| ids@.to_set().contains(x) <==> before.to_set().insert(id).contains(x) by {
                    if ids@.to_set().contains(x) {
                        let k = choose|k: int| 0 <= k < ids@.len() && ids@[k] == x;
                        if k < p as int {
                            assert(before[k] == x);
                        } else if k > p as int {
                            assert(before[k - 1] == x);
                        }
                    }
                    if before.to_set().contains(x) {
                        let k = choose|k: int| 0 <= k < before.len() && before[k] == x;
                        if k < p as int {
                            assert(ids@[k] == x);
                        } else {
                            assert(ids@[k + 1] == x);
                        }
                    }
                    if x == id {
                        assert(ids@[p as int] == id);
                    }
                }
            }
        }
        self.ids = ids;
    }

    /// Takes out up to `budget` pending ids, smallest first.
    pub fn take_batch(&mut self, budget: usize) -> (batch: Vec<SymbolId>)
        ensures
            ascending(batch@),
            batch@.len() == if old(self).view().len() < budget { old(self).view().len() } else { budget as nat },
            forall|x: SymbolId| #[trigger] batch@.contains(x) ==> old(self).view().contains(x),
            forall|x: SymbolId, y: SymbolId| batch@.contains(x) && final(self).view().contains(y) ==> x < y,
            final(self).view() == old(self).view().difference(batch@.to_set()),
    {
        proof {
            use_type_invariant(&*self);
            lemma_ascending_no_duplicates(self.ids@);
            self.ids@.unique_seq_to_set();
        }
        let mut ids: Vec<SymbolId> = Vec::new();
        std::mem::swap(&mut ids, &mut self.ids);
        let ghost before = ids@;
        let k: usize = if ids.len() < budget { ids.len() } else { budget };
        let mut batch: Vec<SymbolId> = Vec::new();
        let mut i: usize = 0;
        while i < k
            invariant
                ids@ == before,
                k <= before.len(),
                i <= k,
                batch@ == before.take(i as int),
            decreases k - i,
        {
            batch.push(ids[i]);
            proof {
                assert(batch@ =~= before.take(i + 1));
            }
            i = i + 1;
        }
        let mut rest: Vec<SymbolId> = Vec::new();
        let mut j: usize = k;
        while j < ids.len()
            invariant
                ids@ == before,
                k <= j <= before.len(),
                rest@ == before.subrange(k as int, j as int),
            decreases before.len() - j,
        {
            rest.push(ids[j]);
            proof {
                assert(rest@ =~= before.subrange(k as int, j + 1));
            }
            j = j + 1;
        }
        proof {
            assert(batch@ =~= before.take(k as int));
            assert(rest@ =~= before.subrange(k as int, before.len() as int));
            assert(rest@.to_set() =~= before.to_set().difference(batch@.to_set())) by {
                assert forall|x: SymbolId| rest@.to_set().contains(x) <==> before.to_set().difference(batch@.to_set()).contains(x) by {
                    if rest@.to_set().contains(x) {
                        let a = choose|a: int| 0 <= a < rest@.len() && rest@[a] == x;
                        assert(before[k + a] == x);
                        if batch@.contains(x) {
                            let b = choose|b: int| 0 <= b < batch@.len() && batch@[b] == x;
                            assert(before[b] == x);
                        }
                    }
                    if before.to_set().difference(batch@.to_set()).contains(x) {
                        let a = choose|a: int| 0 <= a < before.len() && before[a] == x;
                        if a < k as int {
                            assert(batch@[a] == x);
                        } else {
                            assert(rest@[a - k] == x);
                        }
                    }
                }
            }
            assert forall|x: SymbolId| #[trigger] batch@.contains(x) implies before.to_set().contains(x) by {
                let b = choose|b: int| 0 <= b < batch@.len() && batch@[b] == x;
                assert(before[b] == x);
            }
            assert forall|x: SymbolId, y: SymbolId| batch@.contains(x) && rest@.to_set().contains(y) implies x < y by {
                let b = choose|b: int| 0 <= b < batch@.len() && batch@[b] == x;
                let a = choose|a: int| 0 <= a < rest@.len() && rest@[a] == y;
                assert(before[b] == x);
                assert(before[k + a] == y);
            }
        }
        self.ids = rest;
        batch
    }
}

/// Pipeline stage times (ns) of a symbol's latest book update.
#[derive(Debug, Clone, Copy, PartialEq, Eq, Structural)]
pub struct SymbolStageTimestamps {
    pub recv_ws_frame_ts_ns: i64,
    pub parsed_ts_ns: i64,
    pub state_updated_ts_ns: i64,
}

/// Stage times of the symbols that await a signal decision.
pub struct StageTimestampBook {
    stages: HashMap<SymbolId, SymbolStageTimestamps>,
}

impl StageTimestampBook {
    /// Stage times by symbol id.
    pub closed spec fn view(&self) -> Map<SymbolId, SymbolStageTimestamps> {
        self.stages@
    }

    /// An empty book.
    pub fn new() -> (b: Self)
        ensures
            b.view() == Map::<SymbolId, SymbolStageTimestamps>::empty(),
    {
        StageTimestampBook { stages: HashMap::new() }
    }

    /// Records (or replaces) the stage times of `id`.
    pub fn record(&mut self, id: SymbolId, stages: SymbolStageTimestamps)
        ensures
            final(self).view() == old(self).view().insert(id, stages),
    {
        self.stages.insert(id, stages);
    }

    /// The stage times of `id`, if recorded.
    pub fn get(&self, id: SymbolId) -> (r: Option<SymbolStageTimestamps>)
        ensures
            r == (if self.view().contains_key(id) { Some(self.view()[id]) } else { None::<SymbolStageTimestamps> }),
    {
        match self.stages.get(&id) {
            Some(s) => Some(*s),
            None => None,
        }
    }

    /// Removes and returns the stage times of `id`.
    pub fn take(&mut self, id: SymbolId) -> (r: Option<SymbolStageTimestamps>)
        ensures
            r == (if old(self).view().contains_key(id) { Some(old(self).view()[id]) } else { None::<SymbolStageTimestamps> }),
            final(self).view() == old(self).view().remove(id),
    {
        self.stages.remove(&id)
    }
}

/// Stage times after recording a batch of `(id, receive time)` updates
/// parsed and applied at the given times; a later update of a symbol wins.
pub open spec fn stages_after(
    m: Map<SymbolId, SymbolStageTimestamps>,
    batch: Seq<(SymbolId, i64)>,
    parsed_ts_ns: i64,
    state_updated_ts_ns: i64,
) -> Map<SymbolId, SymbolStageTimestamps>
    decreases batch.len(),
{
    if batch.len() == 0 {
        m
    } else {
        let e = batch.last();
        stages_after(m, batch.drop_last(), parsed_ts_ns, state_updated_ts_ns).insert(
            e.0,
            SymbolStageTimestamps { recv_ws_frame_ts_ns: e.1, parsed_ts_ns, state_updated_ts_ns },
        )
    }
}

/// Ingest latency samples (µs) of a batch, in batch order.
pub open spec fn batch_ingest_samples(batch: Seq<(SymbolId, i64)>, parsed_ts_ns: i64) -> Seq<u64>
    decreases batch.len(),
{
    if batch.len() == 0 {
        Seq::empty()
    } else {
        let acc = batch_ingest_samples(batch.drop_last(), parsed_ts_ns);
        match stage_latency_us(batch.last().1, parsed_ts_ns) {
            Some(x) => acc.push(x),
            None => acc,
        }
    }
}

/// Records the stage times of a batch of strategy updates, each given by its
/// symbol id and receive time, and the ingest latency of each.
pub fn record_batch_stage_timestamps(
    book: &mut StageTimestampBook,
    metrics: &mut EventLoopMetrics,
    batch: &[(SymbolId, i64)],
    parsed_ts_ns: i64,
    state_updated_ts_ns: i64,
)
    ensures
        final(book).view() == stages_after(old(book).view(), batch@, parsed_ts_ns, state_updated_ts_ns),
        final(metrics).ingest_latency_us@ == old(metrics).ingest_latency_us@ + batch_ingest_samples(batch@, parsed_ts_ns),
        final(metrics).decision_latency_us@ == old(metrics).decision_latency_us@,
        final(metrics).end_to_end_latency_us@ == old(metrics).end_to_end_latency_us@,
        final(metrics).drift_samples@ == old(metrics).drift_samples@,
        final(metrics).last_status_ticker_count == old(metrics).last_status_ticker_count,
{
    let mut i: usize = 0;
    while i < batch.len()
        invariant
            i <= batch@.len(),
            book.view() == stages_after(old(book).view(), batch@.take(i as int), parsed_ts_ns, state_updated_ts_ns),
            metrics.ingest_latency_us@ == old(metrics).ingest_latency_us@ + batch_ingest_samples(batch@.take(i as int), parsed_ts_ns),
            metrics.decision_latency_us@ == old(metrics).decision_latency_us@,
            metrics.end_to_end_latency_us@ == old(metrics).end_to_end_latency_us@,
            metrics.drift_samples@ == old(metrics).drift_samples@,
            metrics.last_status_ticker_count == old(metrics).last_status_ticker_count,
        decreases batch.len() - i,
    {
        let (id, recv) = batch[i];
        proof {
            assert(batch@.take(i + 1).drop_last() =~= batch@.take(i as int));
            assert(batch@.take(i + 1).last() == batch@[i as int]);
        }
        let ghost before = metrics.ingest_latency_us@;
        metrics.record_ingest_latency_ns(recv, parsed_ts_ns);
        proof {
            match stage_latency_us(recv, parsed_ts_ns) {
                Some(x) => {
                    assert(metrics.ingest_latency_us@ =~= old(metrics).ingest_latency_us@
                        + batch_ingest_samples(batch@.take(i + 1), parsed_ts_ns));
                },
                None => {},
            }
        }
        book.record(id, SymbolStageTimestamps { recv_ws_frame_ts_ns: recv, parsed_ts_ns, state_updated_ts_ns });
        i = i + 1;
    }
    proof {
        assert(batch@.take(i as int) =~= batch@);
    }
}

/// Closes the signal check of `id` decided at `signal_decided_ts_ns`: when
/// its stage times are recorded they are removed, and the decision and
/// end-to-end latencies are sampled. Returns whether there were stage times.
pub fn complete_signal_check(
    book: &mut StageTimestampBook,
    metrics: &mut EventLoopMetrics,
    id: SymbolId,
    signal_decided_ts_ns: i64,
) -> (had_stages: bool)
    ensures
        had_stages == old(book).view().contains_key(id),
        final(book).view() == old(book).view().remove(id),
        final(metrics).ingest_latency_us@ == old(metrics).ingest_latency_us@,
        final(metrics).drift_samples@ == old(metrics).drift_samples@,
        final(metrics).last_status_ticker_count == old(metrics).last_status_ticker_count,
        had_stages ==> ({
            let st = old(book).view()[id];
            &&& final(metrics).decision_latency_us@ == match stage_latency_us(st.state_updated_ts_ns, signal_decided_ts_ns) {
                    Some(x) => old(metrics).decision_latency_us@.push(x),
                    None => old(metrics).decision_latency_us@,
                }
            &&& final(metrics).end_to_end_latency_us@ == match stage_latency_us(st.recv_ws_frame_ts_ns, signal_decided_ts_ns) {
                    Some(x) => old(metrics).end_to_end_latency_us@.push(x),
                    None => old(metrics).end_to_end_latency_us@,
                }
        }),
        !had_stages ==> final(metrics).decision_latency_us@ == old(metrics).decision_latency_us@
            && final(metrics).end_to_end_latency_us@ == old(metrics).end_to_end_latency_us@,
{
    match book.take(id) {
        Some(st) => {
            metrics.record_decision_latency_ns(st.state_updated_ts_ns, signal_decided_ts_ns);
            metrics.record_end_to_end_latency_ns(st.recv_ws_frame_ts_ns, signal_decided_ts_ns);
            true
        },
        None => false,
    }
}

/// Both quotes carry a receive time, and (unless the skew limit is 0) they
/// were received at most `max_quote_skew_ms` apart.
pub open spec fn spec_quotes_in_sync(primary_local_ts_ns: i64, hedge_local_ts_ns: i64, max_quote_skew_ms: u64) -> bool {
    let skew_ns: int = if max_quote_skew_ms * 1_000_000 > u64::MAX { u64::MAX as int } else { max_quote_skew_ms * 1_000_000 };
    let diff: int = if primary_local_ts_ns >= hedge_local_ts_ns { primary_local_ts_ns - hedge_local_ts_ns } else { hedge_local_ts_ns - primary_local_ts_ns };
    &&& primary_local_ts_ns > 0
    &&& hedge_local_ts_ns > 0
    &&& (skew_ns == 0 || diff <= skew_ns)
}

/// The sync check treats both quotes alike: swapping the two receive times
/// gives the same answer; with a non-zero skew, quotes received further apart
/// than the skew are never in sync, and quotes received within it are
/// whenever both times are set.
pub proof fn lemma_quotes_in_sync_symmetric(p: i64, h: i64, max_quote_skew_ms: u64)
    ensures
        spec_quotes_in_sync(p, h, max_quote_skew_ms) == spec_quotes_in_sync(h, p, max_quote_skew_ms),
        max_quote_skew_ms > 0 && max_quote_skew_ms * 1_000_000 <= u64::MAX && (p - h > max_quote_skew_ms * 1_000_000
            || h - p > max_quote_skew_ms * 1_000_000) ==> !spec_quotes_in_sync(p, h, max_quote_skew_ms),
        p > 0 && h > 0 && p - h <= max_quote_skew_ms * 1_000_000 && h - p <= max_quote_skew_ms * 1_000_000
            ==> spec_quotes_in_sync(p, h, max_quote_skew_ms),
        p <= 0 || h <= 0 ==> !spec_quotes_in_sync(p, h, max_quote_skew_ms),
{
}

/// Whether two quotes can be compared (see [`spec_quotes_in_sync`]).
pub fn quotes_in_sync(primary_local_ts_ns: i64, hedge_local_ts_ns: i64, max_quote_skew_ms: u64) -> (r: bool)
    ensures
        r == spec_quotes_in_sync(primary_local_ts_ns, hedge_local_ts_ns, max_quote_skew_ms),
{
    if primary_local_ts_ns <= 0 || hedge_local_ts_ns <= 0 {
        return false;
    }
    let skew_ns: u64 = if max_quote_skew_ms > u64::MAX / 1_000_000 {
        u64::MAX
    } else {
        max_quote_skew_ms * 1_000_000
    };
    let diff: u64 = if primary_local_ts_ns >= hedge_local_ts_ns {
        (primary_local_ts_ns - hedge_local_ts_ns) as u64
    } else {
        (hedge_local_ts_ns - primary_local_ts_ns) as u64
    };
    skew_ns == 0 || diff <= skew_ns
}

/// A primary/hedge quote pair is ready for a lead-lag check when the quotes
/// are in sync and the primary quote, with each exchange's clock offset
/// applied, is not older than the hedge quote (the primary leads).
pub fn lead_lag_pair_ready(
    primary: &BookTicker,
    hedge: &BookTicker,
    max_quote_skew_ms: u64,
    primary_offset: &ExchangeClockOffset,
    hedge_offset: &ExchangeClockOffset,
) -> (r: bool)
    ensures
        r == (spec_quotes_in_sync(primary.local_ts_ns, hedge.local_ts_ns, max_quote_skew_ms)
            && clamp_i64(primary.exchange_ts_ns + primary_offset.state().median)
                >= clamp_i64(hedge.exchange_ts_ns + hedge_offset.state().median)),
{
    if !quotes_in_sync(primary.local_ts_ns, hedge.local_ts_ns, max_quote_skew_ms) {
        return false;
    }
    primary_offset.corrected_exchange_ts_ns(primary.exchange_ts_ns) >= hedge_offset.corrected_exchange_ts_ns(hedge.exchange_ts_ns)
}

/// A strictly ascending sequence has no repeats.
proof fn lemma_ascending_no_duplicates(s: Seq<SymbolId>)
    requires
        ascending(s),
    ensures
        s.no_duplicates(),
{
}

} // verus!
