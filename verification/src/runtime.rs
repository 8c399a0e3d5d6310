//! Event-loop runtime bookkeeping: latency and drift percentiles, ticker
//! counters, the execution worker's timeout kill switch, and the routing of
//! exchanges to strategy books.

use vstd::prelude::*;
use crate::sorting::{sort_u64, sorted_seq_u64, sort_i64, sorted_seq_i64};
use crate::text::{decimal, signed_decimal, u64_to_decimal, i64_to_decimal, concat_str};
use crate::config::ExchangeId as ConfigExchangeId;
use crate::models::ExchangeError;

verus! {

/// Index of the `p`-th percentile among `n` sorted samples: `n * p / 100`.
pub open spec fn percentile_index(n: nat, p: nat) -> int {
    (n * p) as int / 100
}

fn percentile_pos(n: usize, p: usize) -> (r: usize)
    requires
        p <= 100,
        n > 0,
    ensures
        r == percentile_index(n as nat, p as nat),
        r < n || p == 100,
        p < 100 ==> r < n,
{
    let q = n / 100;
    let m = n % 100;
    proof {
        let ni = n as int;
        let pi = p as int;
        let qi = q as int;
        let mi = m as int;
        vstd::arithmetic::div_mod::lemma_fundamental_div_mod(ni, 100);
        vstd::arithmetic::div_mod::lemma_fundamental_div_mod(mi * pi, 100);
        vstd::arithmetic::div_mod::lemma_mod_bound(mi * pi, 100);
        assert(ni * pi == (pi * qi + (mi * pi) / 100) * 100 + (mi * pi) % 100) by (nonlinear_arith)
            requires ni == 100 * qi + mi, mi * pi == 100 * ((mi * pi) / 100) + (mi * pi) % 100;
        vstd::arithmetic::div_mod::lemma_fundamental_div_mod_converse(ni * pi, 100, pi * qi + (mi * pi) / 100, (mi * pi) % 100);
        assert(pi * qi <= ni * pi / 100) by (nonlinear_arith)
            requires ni == 100 * qi + mi, 0 <= mi, 0 <= pi, qi >= 0, ni * pi / 100 == pi * qi + (mi * pi) / 100, (mi * pi) / 100 >= 0;
        assert(ni * pi / 100 <= ni) by (nonlinear_arith)
            requires pi <= 100, ni > 0, ni * pi == (ni * pi / 100) * 100 + (ni * pi) % 100, (ni * pi) % 100 >= 0;
        if pi < 100 {
            assert(ni * pi / 100 < ni) by (nonlinear_arith)
                requires pi < 100, ni > 0, ni * pi == (ni * pi / 100) * 100 + (ni * pi) % 100, (ni * pi) % 100 >= 0;
        }
        assert(m * p <= 9900) by (nonlinear_arith)
            requires m < 100, p <= 100;
        assert(p * q <= n) by (nonlinear_arith)
            requires n == 100 * q + m, p <= 100, m >= 0;
    }
    p * q + (m * p) / 100
}

/// Sample count, median, 95th and 99th percentiles and maximum of latency
/// samples (µs).
#[derive(Debug, Clone, Copy, PartialEq, Eq, Default)]
pub struct LatencyStatsSnapshot {
    pub samples: u64,
    pub p50_us: u64,
    pub p95_us: u64,
    pub p99_us: u64,
    pub max_us: u64,
}

/// Snapshot of `s` taken over its ascending sort: element `n / 2`,
/// `n * 95 / 100`, `n * 99 / 100` and the last one; all zero when empty.
pub open spec fn spec_latency_snapshot(s: Seq<u64>) -> LatencyStatsSnapshot {
    let t = sorted_seq_u64(s);
    let n = s.len();
    if n == 0 {
        LatencyStatsSnapshot { samples: 0, p50_us: 0, p95_us: 0, p99_us: 0, max_us: 0 }
    } else {
        LatencyStatsSnapshot {
            samples: n as u64,
            p50_us: t[n as int / 2],
            p95_us: t[percentile_index(n, 95)],
            p99_us: t[percentile_index(n, 99)],
            max_us: t[n - 1],
        }
    }
}

/// Takes the snapshot of the samples (see [`spec_latency_snapshot`]) and
/// empties them.
pub fn latency_snapshot_and_reset(samples: &mut Vec<u64>) -> (snap: LatencyStatsSnapshot)
    ensures
        snap == spec_latency_snapshot(old(samples)@),
        final(samples)@.len() == 0,
{
    if samples.len() == 0 {
        return LatencyStatsSnapshot { samples: 0, p50_us: 0, p95_us: 0, p99_us: 0, max_us: 0 };
    }
    sort_u64(samples);
    let n = samples.len();
    let i50 = n / 2;
    let i95 = percentile_pos(n, 95);
    let i99 = percentile_pos(n, 99);
    let snap = LatencyStatsSnapshot {
        samples: n as u64,
        p50_us: samples[i50],
        p95_us: samples[i95],
        p99_us: samples[i99],
        max_us: samples[n - 1],
    };
    samples.clear();
    snap
}

/// Drift samples (ms), latency samples (µs) and the ticker count at the last
/// status line of the event loop.
#[derive(Debug)]
pub struct EventLoopMetrics {
    pub drift_samples: Vec<i64>,
    pub ingest_latency_us: Vec<u64>,
    pub decision_latency_us: Vec<u64>,
    pub end_to_end_latency_us: Vec<u64>,
    pub last_status_ticker_count: usize,
}

/// Latency sample (µs) between two stage timestamps (ns), when the first is
/// set and the second is later.
pub open spec fn stage_latency_us(from_ns: i64, to_ns: i64) -> Option<u64> {
    if from_ns <= 0 || to_ns <= from_ns { None } else { Some(((to_ns - from_ns) / 1_000) as u64) }
}

fn push_stage_latency(samples: &mut Vec<u64>, from_ns: i64, to_ns: i64)
    ensures
        final(samples)@ == match stage_latency_us(from_ns, to_ns) {
            Some(x) => old(samples)@.push(x),
            None => old(samples)@,
        },
{
    if from_ns <= 0 || to_ns <= from_ns {
        return;
    }
    let d: i64 = to_ns - from_ns;
    samples.push((d as u64) / 1_000);
}

impl EventLoopMetrics {
    /// Empty metrics.
    pub fn new() -> (m: Self)
        ensures
            m.drift_samples@.len() == 0,
            m.ingest_latency_us@.len() == 0,
            m.decision_latency_us@.len() == 0,
            m.end_to_end_latency_us@.len() == 0,
            m.last_status_ticker_count == 0,
    {
        EventLoopMetrics {
            drift_samples: Vec::new(),
            ingest_latency_us: Vec::new(),
            decision_latency_us: Vec::new(),
            end_to_end_latency_us: Vec::new(),
            last_status_ticker_count: 0,
        }
    }

    /// Records the drift `local_ms - exchange_ms` of a tick whose exchange
    /// timestamp (ns) lies in a positive millisecond.
    pub fn record_tick_drift(&mut self, local_ms: i64, exchange_ts_ns: i64)
        requires
            exchange_ts_ns >= 1_000_000 ==> local_ms - exchange_ts_ns / 1_000_000 >= i64::MIN,
        ensures
            final(self).drift_samples@ == (if exchange_ts_ns >= 1_000_000 {
                old(self).drift_samples@.push((local_ms - exchange_ts_ns / 1_000_000) as i64)
            } else {
                old(self).drift_samples@
            }),
            final(self).ingest_latency_us@ == old(self).ingest_latency_us@,
            final(self).decision_latency_us@ == old(self).decision_latency_us@,
            final(self).end_to_end_latency_us@ == old(self).end_to_end_latency_us@,
            final(self).last_status_ticker_count == old(self).last_status_ticker_count,
    {
        if exchange_ts_ns >= 1_000_000 {
            let exch_ms = exchange_ts_ns / 1_000_000;
            self.drift_samples.push(local_ms - exch_ms);
        }
    }

    /// Records an ingest latency sample (ws frame received → parsed).
    pub fn record_ingest_latency_ns(&mut self, recv_ws_frame_ts_ns: i64, parsed_ts_ns: i64)
        ensures
            final(self).ingest_latency_us@ == match stage_latency_us(recv_ws_frame_ts_ns, parsed_ts_ns) {
                Some(x) => old(self).ingest_latency_us@.push(x),
                None => old(self).ingest_latency_us@,
            },
            final(self).drift_samples@ == old(self).drift_samples@,
            final(self).decision_latency_us@ == old(self).decision_latency_us@,
            final(self).end_to_end_latency_us@ == old(self).end_to_end_latency_us@,
            final(self).last_status_ticker_count == old(self).last_status_ticker_count,
    {
        push_stage_latency(&mut self.ingest_latency_us, recv_ws_frame_ts_ns, parsed_ts_ns);
    }

    /// Records a decision latency sample (state updated → signal decided).
    pub fn record_decision_latency_ns(&mut self, state_updated_ts_ns: i64, signal_decided_ts_ns: i64)
        ensures
            final(self).decision_latency_us@ == match stage_latency_us(state_updated_ts_ns, signal_decided_ts_ns) {
                Some(x) => old(self).decision_latency_us@.push(x),
                None => old(self).decision_latency_us@,
            },
            final(self).drift_samples@ == old(self).drift_samples@,
            final(self).ingest_latency_us@ == old(self).ingest_latency_us@,
            final(self).end_to_end_latency_us@ == old(self).end_to_end_latency_us@,
            final(self).last_status_ticker_count == old(self).last_status_ticker_count,
    {
        push_stage_latency(&mut self.decision_latency_us, state_updated_ts_ns, signal_decided_ts_ns);
    }

    /// Records an end-to-end latency sample (ws frame received → signal decided).
    pub fn record_end_to_end_latency_ns(&mut self, recv_ws_frame_ts_ns: i64, signal_decided_ts_ns: i64)
        ensures
            final(self).end_to_end_latency_us@ == match stage_latency_us(recv_ws_frame_ts_ns, signal_decided_ts_ns) {
                Some(x) => old(self).end_to_end_latency_us@.push(x),
                None => old(self).end_to_end_latency_us@,
            },
            final(self).drift_samples@ == old(self).drift_samples@,
            final(self).ingest_latency_us@ == old(self).ingest_latency_us@,
            final(self).decision_latency_us@ == old(self).decision_latency_us@,
            final(self).last_status_ticker_count == old(self).last_status_ticker_count,
    {
        push_stage_latency(&mut self.end_to_end_latency_us, recv_ws_frame_ts_ns, signal_decided_ts_ns);
    }

    /// Snapshots of the ingest, decision and end-to-end latencies; all three
    /// sample buffers are emptied.
    pub fn latency_snapshots_and_reset(&mut self) -> (r: (LatencyStatsSnapshot, LatencyStatsSnapshot, LatencyStatsSnapshot))
        ensures
            r.0 == spec_latency_snapshot(old(self).ingest_latency_us@),
            r.1 == spec_latency_snapshot(old(self).decision_latency_us@),
            r.2 == spec_latency_snapshot(old(self).end_to_end_latency_us@),
            final(self).ingest_latency_us@.len() == 0,
            final(self).decision_latency_us@.len() == 0,
            final(self).end_to_end_latency_us@.len() == 0,
            final(self).drift_samples@ == old(self).drift_samples@,
            final(self).last_status_ticker_count == old(self).last_status_ticker_count,
    {
        let ingest = latency_snapshot_and_reset(&mut self.ingest_latency_us);
        let decision = latency_snapshot_and_reset(&mut self.decision_latency_us);
        let end_to_end = latency_snapshot_and_reset(&mut self.end_to_end_latency_us);
        (ingest, decision, end_to_end)
    }

    /// Tickers seen since the last status line; remembers `ticker_count`.
    pub fn snapshot_and_roll_status(&mut self, ticker_count: usize) -> (r: usize)
        ensures
            r == (if ticker_count >= old(self).last_status_ticker_count { ticker_count - old(self).last_status_ticker_count } else { 0 }),
            final(self).last_status_ticker_count == ticker_count,
            final(self).drift_samples@ == old(self).drift_samples@,
            final(self).ingest_latency_us@ == old(self).ingest_latency_us@,
            final(self).decision_latency_us@ == old(self).decision_latency_us@,
            final(self).end_to_end_latency_us@ == old(self).end_to_end_latency_us@,
    {
        let r = if ticker_count >= self.last_status_ticker_count { ticker_count - self.last_status_ticker_count } else { 0 };
        self.last_status_ticker_count = ticker_count;
        r
    }
}

/// Decrements a counter, stopping at zero.
pub fn decrement_saturating(counter: &mut u64)
    ensures
        *final(counter) == (if *old(counter) == 0 { 0 } else { (*old(counter) - 1) as u64 }),
{
    if *counter > 0 {
        *counter = *counter - 1;
    }
}

/// Default capacity of the execution intent queue.
pub const DEFAULT_EXECUTION_INTENT_QUEUE_CAPACITY: usize = 2_048;
/// Default send timeout of an order intent (ms).
pub const DEFAULT_EXECUTION_SEND_TIMEOUT_MS: u64 = 25;
/// Default number of consecutive send timeouts that trips the kill switch.
pub const DEFAULT_EXECUTION_KILL_SWITCH_TIMEOUT_STREAK: u32 = 4;
/// Default execution metrics flush interval (ms).
pub const DEFAULT_EXECUTION_METRICS_FLUSH_INTERVAL_MS: u64 = 1_000;
/// Default simulated send delay (ms).
pub const DEFAULT_EXECUTION_SIMULATED_SEND_DELAY_MS: u64 = 0;

/// Settings of the execution worker.
#[derive(Debug, Clone, Copy, PartialEq, Eq)]
pub struct ExecutionConfig {
    pub queue_capacity: usize,
    pub send_timeout_ms: u64,
    pub kill_switch_timeout_streak: u32,
    pub metrics_flush_interval_ms: u64,
    pub simulated_send_delay_ms: u64,
}

impl Default for ExecutionConfig {
    fn default() -> (c: Self)
        ensures
            c.queue_capacity == DEFAULT_EXECUTION_INTENT_QUEUE_CAPACITY,
            c.send_timeout_ms == DEFAULT_EXECUTION_SEND_TIMEOUT_MS,
            c.kill_switch_timeout_streak == DEFAULT_EXECUTION_KILL_SWITCH_TIMEOUT_STREAK,
            c.metrics_flush_interval_ms == DEFAULT_EXECUTION_METRICS_FLUSH_INTERVAL_MS,
            c.simulated_send_delay_ms == DEFAULT_EXECUTION_SIMULATED_SEND_DELAY_MS,
    {
        ExecutionConfig {
            queue_capacity: DEFAULT_EXECUTION_INTENT_QUEUE_CAPACITY,
            send_timeout_ms: DEFAULT_EXECUTION_SEND_TIMEOUT_MS,
            kill_switch_timeout_streak: DEFAULT_EXECUTION_KILL_SWITCH_TIMEOUT_STREAK,
            metrics_flush_interval_ms: DEFAULT_EXECUTION_METRICS_FLUSH_INTERVAL_MS,
            simulated_send_delay_ms: DEFAULT_EXECUTION_SIMULATED_SEND_DELAY_MS,
        }
    }
}

impl ExecutionConfig {
    /// The defaults with the given overrides: queue capacity, send timeout
    /// and kill-switch streak at least 1, flush interval at least 100 ms,
    /// the simulated delay as given.
    pub fn from_overrides(
        queue_capacity: Option<usize>,
        send_timeout_ms: Option<u64>,
        kill_switch_timeout_streak: Option<u32>,
        metrics_flush_interval_ms: Option<u64>,
        simulated_send_delay_ms: Option<u64>,
    ) -> (c: Self)
        ensures
            c.queue_capacity == (match queue_capacity { Some(v) => if v < 1 { 1 } else { v }, None => DEFAULT_EXECUTION_INTENT_QUEUE_CAPACITY }),
            c.send_timeout_ms == (match send_timeout_ms { Some(v) => if v < 1 { 1 } else { v }, None => DEFAULT_EXECUTION_SEND_TIMEOUT_MS }),
            c.kill_switch_timeout_streak == (match kill_switch_timeout_streak { Some(v) => if v < 1 { 1 } else { v }, None => DEFAULT_EXECUTION_KILL_SWITCH_TIMEOUT_STREAK }),
            c.metrics_flush_interval_ms == (match metrics_flush_interval_ms { Some(v) => if v < 100 { 100 } else { v }, None => DEFAULT_EXECUTION_METRICS_FLUSH_INTERVAL_MS }),
            c.simulated_send_delay_ms == (match simulated_send_delay_ms { Some(v) => v, None => DEFAULT_EXECUTION_SIMULATED_SEND_DELAY_MS }),
    {
        let mut config = ExecutionConfig::default();
        if let Some(v) = queue_capacity {
            config.queue_capacity = if v < 1 { 1 } else { v };
        }
        if let Some(v) = send_timeout_ms {
            config.send_timeout_ms = if v < 1 { 1 } else { v };
        }
        if let Some(v) = kill_switch_timeout_streak {
            config.kill_switch_timeout_streak = if v < 1 { 1 } else { v };
        }
        if let Some(v) = metrics_flush_interval_ms {
            config.metrics_flush_interval_ms = if v < 100 { 100 } else { v };
        }
        if let Some(v) = simulated_send_delay_ms {
            config.simulated_send_delay_ms = v;
        }
        config
    }
}

/// Counters and kill switch of the execution worker.
#[derive(Debug)]
pub struct ExecutionWorkerState {
    pub consecutive_timeouts: u32,
    pub kill_switch_active: bool,
    pub sent_intents: u64,
    pub dropped_intents: u64,
    pub send_timeouts: u64,
    pub intent_to_sent_samples_us: Vec<u64>,
}

/// `x + 1`, wrapping like an atomic counter.
pub open spec fn bump(x: u64) -> u64 {
    if x == u64::MAX { 0 } else { (x + 1) as u64 }
}

impl ExecutionWorkerState {
    /// A worker with no history and the kill switch off.
    pub fn new() -> (w: Self)
        ensures
            w.consecutive_timeouts == 0,
            !w.kill_switch_active,
            w.sent_intents == 0,
            w.dropped_intents == 0,
            w.send_timeouts == 0,
            w.intent_to_sent_samples_us@.len() == 0,
    {
        ExecutionWorkerState {
            consecutive_timeouts: 0,
            kill_switch_active: false,
            sent_intents: 0,
            dropped_intents: 0,
            send_timeouts: 0,
            intent_to_sent_samples_us: Vec::new(),
        }
    }

    /// An intent arrived: it is sent unless the kill switch is on, in which
    /// case it is dropped and counted. Returns whether to send it.
    pub fn admit_intent(&mut self) -> (send: bool)
        ensures
            send == !old(self).kill_switch_active,
            final(self).dropped_intents == (if send { old(self).dropped_intents } else { bump(old(self).dropped_intents) }),
            final(self).kill_switch_active == old(self).kill_switch_active,
            final(self).consecutive_timeouts == old(self).consecutive_timeouts,
            final(self).sent_intents == old(self).sent_intents,
            final(self).send_timeouts == old(self).send_timeouts,
            final(self).intent_to_sent_samples_us@ == old(self).intent_to_sent_samples_us@,
    {
        if self.kill_switch_active {
            self.dropped_intents = self.dropped_intents.wrapping_add(1);
            return false;
        }
        true
    }

    /// An intent was sent at `sent_ts_ns`: the timeout streak resets, the
    /// send is counted and its queue latency (µs) sampled when known.
    pub fn record_sent(&mut self, enqueued_ts_ns: i64, sent_ts_ns: i64)
        ensures
            final(self).consecutive_timeouts == 0,
            final(self).sent_intents == bump(old(self).sent_intents),
            final(self).intent_to_sent_samples_us@ == match stage_latency_us(enqueued_ts_ns, sent_ts_ns) {
                Some(x) => old(self).intent_to_sent_samples_us@.push(x),
                None => old(self).intent_to_sent_samples_us@,
            },
            final(self).kill_switch_active == old(self).kill_switch_active,
            final(self).dropped_intents == old(self).dropped_intents,
            final(self).send_timeouts == old(self).send_timeouts,
    {
        self.consecutive_timeouts = 0;
        self.sent_intents = self.sent_intents.wrapping_add(1);
        push_stage_latency(&mut self.intent_to_sent_samples_us, enqueued_ts_ns, sent_ts_ns);
    }

    /// A send timed out: the streak grows (saturating) and the timeout is
    /// counted; the kill switch turns on once the streak reaches
    /// `kill_switch_timeout_streak`. Returns whether this timeout tripped it.
    pub fn record_timeout(&mut self, kill_switch_timeout_streak: u32) -> (tripped: bool)
        ensures
            final(self).consecutive_timeouts == (if old(self).consecutive_timeouts == u32::MAX { u32::MAX } else { (old(self).consecutive_timeouts + 1) as u32 }),
            final(self).send_timeouts == bump(old(self).send_timeouts),
            tripped == (final(self).consecutive_timeouts >= kill_switch_timeout_streak),
            final(self).kill_switch_active == (old(self).kill_switch_active || tripped),
            final(self).sent_intents == old(self).sent_intents,
            final(self).dropped_intents == old(self).dropped_intents,
            final(self).intent_to_sent_samples_us@ == old(self).intent_to_sent_samples_us@,
    {
        self.consecutive_timeouts = if self.consecutive_timeouts == u32::MAX { u32::MAX } else { self.consecutive_timeouts + 1 };
        self.send_timeouts = self.send_timeouts.wrapping_add(1);
        let tripped = self.consecutive_timeouts >= kill_switch_timeout_streak;
        if tripped {
            self.kill_switch_active = true;
        }
        tripped
    }
}

/// One of the two exchanges the event loop reads.
#[derive(Debug, Clone, Copy, PartialEq, Eq, Structural)]
pub enum ExchangeSide {
    Binance,
    Gate,
}

impl ExchangeSide {
    /// Short exchange name.
    pub fn exchange_name(self) -> (r: &'static str)
        ensures
            r@ == (match self { ExchangeSide::Binance => "binance"@, ExchangeSide::Gate => "gate"@ }),
    {
        match self {
            ExchangeSide::Binance => "binance",
            ExchangeSide::Gate => "gate",
        }
    }

    /// The side a configured exchange reads from.
    pub fn from_config_exchange(exchange: ConfigExchangeId) -> (r: Self)
        ensures
            r == (match exchange { ConfigExchangeId::Binance => ExchangeSide::Binance, ConfigExchangeId::Gate => ExchangeSide::Gate }),
    {
        match exchange {
            ConfigExchangeId::Binance => ExchangeSide::Binance,
            ConfigExchangeId::Gate => ExchangeSide::Gate,
        }
    }
}

/// Whether a data error means the connection is gone: web socket failures,
/// closed connections and timeouts.
pub fn is_connectivity_error(error: &ExchangeError) -> (r: bool)
    ensures
        r == (error is WebSocketError || error is ConnectionClosed || error is Timeout),
{
    match error {
        ExchangeError::WebSocketError(_) => true,
        ExchangeError::ConnectionClosed(_) => true,
        ExchangeError::Timeout(_) => true,
        _ => false,
    }
}

/// Which strategy book an exchange feeds.
#[derive(Debug, Clone, Copy, PartialEq, Eq, Structural)]
pub enum StrategyBookRole {
    Primary,
    Hedge,
}

/// Which exchange leads (primary) and which lags (hedge).
#[derive(Debug, Clone, Copy, PartialEq, Eq, Structural)]
pub struct StrategyExchangeRouting {
    pub primary: ExchangeSide,
    pub hedge: ExchangeSide,
}

impl Default for StrategyExchangeRouting {
    fn default() -> (r: Self)
        ensures
            r.primary == ExchangeSide::Binance,
            r.hedge == ExchangeSide::Gate,
    {
        StrategyExchangeRouting { primary: ExchangeSide::Binance, hedge: ExchangeSide::Gate }
    }
}

impl StrategyExchangeRouting {
    /// The primary exchange feeds the primary book; any other the hedge book.
    pub fn role_for_side(self, side: ExchangeSide) -> (r: StrategyBookRole)
        ensures
            r == (if side == self.primary { StrategyBookRole::Primary } else { StrategyBookRole::Hedge }),
    {
        if side == self.primary {
            StrategyBookRole::Primary
        } else {
            StrategyBookRole::Hedge
        }
    }
}

/// Routing from the configured primary and hedge exchanges, if any; the
/// default routing (Binance leads Gate) without configuration or when both
/// name the same exchange.
pub fn resolve_strategy_exchange_routing(configured: Option<(ConfigExchangeId, ConfigExchangeId)>) -> (r: StrategyExchangeRouting)
    ensures
        r.primary != r.hedge,
        match configured {
            None => r.primary == ExchangeSide::Binance && r.hedge == ExchangeSide::Gate,
            Some((p, h)) => if p == h {
                r.primary == ExchangeSide::Binance && r.hedge == ExchangeSide::Gate
            } else {
                r.primary == (match p { ConfigExchangeId::Binance => ExchangeSide::Binance, ConfigExchangeId::Gate => ExchangeSide::Gate })
                    && r.hedge == (match h { ConfigExchangeId::Binance => ExchangeSide::Binance, ConfigExchangeId::Gate => ExchangeSide::Gate })
            },
        },
{
    let default = StrategyExchangeRouting::default();
    match configured {
        None => default,
        Some((p, h)) => {
            let routing = StrategyExchangeRouting {
                primary: ExchangeSide::from_config_exchange(p),
                hedge: ExchangeSide::from_config_exchange(h),
            };
            if routing.primary == routing.hedge {
                default
            } else {
                routing
            }
        },
    }
}

/// Sum of the samples.
pub open spec fn sum_i64(s: Seq<i64>) -> int
    decreases s.len(),
{
    if s.len() == 0 { 0 } else { sum_i64(s.drop_last()) + s.last() }
}

/// Every running sum of the samples fits in an `i64`.
pub open spec fn running_sums_fit(s: Seq<i64>) -> bool {
    forall|k: int| 0 <= k <= s.len() ==> i64::MIN <= #[trigger] sum_i64(s.subrange(0, k)) <= i64::MAX
}

/// Integer division rounding toward zero.
pub open spec fn div_toward_zero(a: int, n: int) -> int {
    if a >= 0 { a / n } else { -((-a) / n) }
}

/// Status text of drift samples: `no_data` without samples; else count,
/// average (rounded toward zero), median, 95th and 99th percentile and
/// maximum over the ascending sort, in ms.
pub open spec fn drift_stats_text(s: Seq<i64>) -> Seq<char> {
    if s.len() == 0 {
        "no_data"@
    } else {
        let t = sorted_seq_i64(s);
        let n = s.len();
        "n="@ + decimal(n) + " avg="@ + signed_decimal(div_toward_zero(sum_i64(s), n as int))
            + "ms p50="@ + signed_decimal(t[n as int / 2] as int)
            + "ms p95="@ + signed_decimal(t[percentile_index(n, 95)] as int)
            + "ms p99="@ + signed_decimal(t[percentile_index(n, 99)] as int)
            + "ms max="@ + signed_decimal(t[n - 1] as int) + "ms"@
    }
}

fn append_text(acc: String, s: &str) -> (r: String)
    ensures
        r@ == acc@ + s@,
{
    concat_str(acc.as_str(), s)
}

fn append_signed(acc: String, x: i64) -> (r: String)
    ensures
        r@ == acc@ + signed_decimal(x as int),
{
    let d = i64_to_decimal(x);
    concat_str(acc.as_str(), d.as_str())
}

fn sum_samples(s: &Vec<i64>) -> (r: i64)
    requires
        running_sums_fit(s@),
    ensures
        r == sum_i64(s@),
{
    let n = s.len();
    let mut acc: i64 = 0;
    let mut i: usize = 0;
    while i < n
        invariant
            n == s@.len(),
            i <= n,
            running_sums_fit(s@),
            acc == sum_i64(s@.subrange(0, i as int)),
        decreases n - i,
    {
        proof {
            let r = s@.subrange(0, i + 1);
            assert(r.drop_last() =~= s@.subrange(0, i as int));
            assert(sum_i64(r) == sum_i64(s@.subrange(0, i + 1)));
        }
        acc = acc + s[i];
        i = i + 1;
    }
    proof {
        assert(s@.subrange(0, n as int) =~= s@);
    }
    acc
}

impl EventLoopMetrics {
    /// Status text of the drift samples (see [`drift_stats_text`]); the
    /// samples are emptied.
    pub fn drift_stats_string_and_reset(&mut self) -> (r: String)
        requires
            running_sums_fit(old(self).drift_samples@),
        ensures
            r@ == drift_stats_text(old(self).drift_samples@),
            final(self).drift_samples@.len() == 0,
            final(self).ingest_latency_us@ == old(self).ingest_latency_us@,
            final(self).decision_latency_us@ == old(self).decision_latency_us@,
            final(self).end_to_end_latency_us@ == old(self).end_to_end_latency_us@,
            final(self).last_status_ticker_count == old(self).last_status_ticker_count,
    {
        if self.drift_samples.len() == 0 {
            return "no_data".to_owned();
        }
        let total = sum_samples(&self.drift_samples);
        let ghost orig = self.drift_samples@;
        sort_i64(&mut self.drift_samples);
        let n = self.drift_samples.len();
        let wide: i128 = total as i128;
        let avg_wide: i128 = if wide >= 0 { wide / (n as i128) } else { -((-wide) / (n as i128)) };
        proof {
            assert(avg_wide == div_toward_zero(sum_i64(orig), n as int));
            let w = wide as int;
            let ni = n as int;
            if w >= 0 {
                assert(w / ni <= w) by (nonlinear_arith)
                    requires w >= 0, ni >= 1;
                assert(w / ni >= 0) by (nonlinear_arith)
                    requires w >= 0, ni >= 1;
            } else {
                assert((-w) / ni <= -w) by (nonlinear_arith)
                    requires -w > 0, ni >= 1;
                assert((-w) / ni >= 0) by (nonlinear_arith)
                    requires -w > 0, ni >= 1;
            }
        }
        let avg = avg_wide as i64;
        let p50 = self.drift_samples[n / 2];
        let p95 = self.drift_samples[percentile_pos(n, 95)];
        let p99 = self.drift_samples[percentile_pos(n, 99)];
        let max = self.drift_samples[n - 1];
        self.drift_samples.clear();
        let s = concat_str("n=", u64_to_decimal(n as u64).as_str());
        let s = append_text(s, " avg=");
        let s = append_signed(s, avg);
        let s = append_text(s, "ms p50=");
        let s = append_signed(s, p50);
        let s = append_text(s, "ms p95=");
        let s = append_signed(s, p95);
        let s = append_text(s, "ms p99=");
        let s = append_signed(s, p99);
        let s = append_text(s, "ms max=");
        let s = append_signed(s, max);
        append_text(s, "ms")
    }
}

/// Streak of consecutive send timeouts after `j` timeouts in a row from a
/// clean streak (saturating).
pub open spec fn streak_after(j: nat) -> u32
    decreases j,
{
    if j == 0 { 0 } else {
        let prev = streak_after((j - 1) as nat);
        if prev == u32::MAX { u32::MAX } else { (prev + 1) as u32 }
    }
}

/// From a clean streak, the `j`-th consecutive send timeout leaves a streak
/// of `j`, so the kill switch trips exactly from the `streak`-th timeout on.
pub proof fn lemma_kill_switch_trips_at_streak(kill_switch_timeout_streak: u32, j: nat)
    requires
        j <= u32::MAX,
    ensures
        streak_after(j) == j,
        (streak_after(j) >= kill_switch_timeout_streak) <==> (j >= kill_switch_timeout_streak),
    decreases j,
{
    if j > 0 {
        lemma_kill_switch_trips_at_streak(kill_switch_timeout_streak, (j - 1) as nat);
    }
}

} // verus!
