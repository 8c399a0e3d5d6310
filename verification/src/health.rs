//! Runtime health: the verdict of the health endpoint (issues, warnings,
//! alert level) from a snapshot of counters, and the windowed latency/backlog
//! SLO evaluation that can degrade the runtime out of HFT mode.

use vstd::prelude::*;
use crate::arith::{clamp_i64, sat_sub_i64};
use crate::timestamps::{stage_age_ms_from_ns, spec_stage_age};

verus! {

/// Fallback screener rows are refreshed when older than this (ms).
pub const FALLBACK_ROWS_TTL_MS: i64 = 5_000;
/// Consecutive breached SLO windows after which HFT mode is degraded.
pub const RM4_BREACH_WINDOW_THRESHOLD: u64 = 3;
/// Minimum spacing of SLO window evaluations (ms).
pub const RM4_EVAL_INTERVAL_MS: i64 = 5_000;
/// SLO bound on the ingest p99 latency (µs).
pub const RM4_MAX_INGEST_P99_US: u64 = 1_500;
/// SLO bound on the decision p99 latency (µs).
pub const RM4_MAX_DECISION_P99_US: u64 = 1_500;
/// SLO bound on the end-to-end p99 latency (µs).
pub const RM4_MAX_END_TO_END_P99_US: u64 = 2_000;
/// SLO bound on queued Binance messages.
pub const RM4_MAX_BINANCE_BACKLOG: u64 = 64;
/// SLO bound on queued Gate.io messages.
pub const RM4_MAX_GATE_BACKLOG: u64 = 64;
/// SLO bound on the signal backlog.
pub const RM4_MAX_SIGNAL_BACKLOG: u64 = 128;
/// SLO bound on the execution intent queue depth.
pub const RM4_MAX_EXECUTION_BACKLOG: u64 = 128;
/// SLO bound on the control update queue depth.
pub const RM4_MAX_CONTROL_BACKLOG: u64 = 256;
/// A DB writer with backlog and no progress for this long is stalled (ms).
pub const DB_WRITER_STALL_THRESHOLD_MS: i64 = 15_000;
/// Warn when the absolute p99 clock drift exceeds this (ms).
pub const DRIFT_ABS_P99_WARN_MS: u64 = 200;
/// The engine state is stalled when not updated for this long (ms).
pub const ENGINE_STALL_THRESHOLD_MS: i64 = 5_000;
/// The signal loop is stalled when no decision was made for this long (ms).
pub const SIGNAL_LOOP_STALL_THRESHOLD_MS: i64 = 3_000;
/// The execution loop is stalled when no intent moved for this long (ms).
pub const EXECUTION_LOOP_STALL_THRESHOLD_MS: i64 = 3_000;
/// A feed whose last tick is older than this is stale (ms).
pub const STALE_TICK_THRESHOLD_MS: i64 = 5_000;
/// Warn when the last trial acknowledgement is older than this (ms).
pub const TRIAL_ACK_STALE_WARN_MS: i64 = 120_000;
/// Warn when this many trial batches are queued.
pub const TRIAL_QUEUE_DEPTH_WARN_THRESHOLD: u64 = 10;

/// DB writer saturation flags.
#[derive(Debug, Clone, Copy, PartialEq, Eq)]
pub struct DbSaturationHealth {
    pub drop_budget_exhausted: bool,
    pub overflow_warn: bool,
}

/// DB saturation: the drop budget is exhausted when more batches were dropped
/// than it allows; overflow warns from the threshold on.
pub fn evaluate_db_saturation_health(
    db_dropped_batches: u64,
    db_overflowed_batches: u64,
    dropped_batch_budget: u64,
    overflow_warn_threshold: u64,
) -> (h: DbSaturationHealth)
    ensures
        h.drop_budget_exhausted == (db_dropped_batches > dropped_batch_budget),
        h.overflow_warn == (db_overflowed_batches >= overflow_warn_threshold),
{
    DbSaturationHealth {
        drop_budget_exhausted: db_dropped_batches > dropped_batch_budget,
        overflow_warn: db_overflowed_batches >= overflow_warn_threshold,
    }
}

/// Whether the fallback rows cache must be refreshed: when it is empty, was
/// never refreshed, or is at least [`FALLBACK_ROWS_TTL_MS`] old.
pub fn should_refresh_fallback_rows_cache(now_ms: i64, last_refresh_ms: i64, cache_empty: bool) -> (r: bool)
    ensures
        r == (cache_empty || last_refresh_ms <= 0 || clamp_i64(now_ms - last_refresh_ms) >= FALLBACK_ROWS_TTL_MS),
{
    if cache_empty || last_refresh_ms <= 0 {
        return true;
    }
    sat_sub_i64(now_ms, last_refresh_ms) >= FALLBACK_ROWS_TTL_MS
}

/// Growth of a monotone counter since the last evaluation; remembers `current`.
pub fn counter_delta_and_update_last(current: u64, last: &mut u64) -> (delta: u64)
    ensures
        *final(last) == current,
        delta == (if current >= *old(last) { current - *old(last) } else { 0 }),
{
    let previous = *last;
    *last = current;
    if current >= previous { current - previous } else { 0 }
}

/// Claims the next SLO window evaluation: refused while the last one (if any)
/// is less than [`RM4_EVAL_INTERVAL_MS`] old; a claim records `now_ms`.
pub fn try_claim_rm4_window_eval(last_eval_ms: &mut i64, now_ms: i64) -> (claimed: bool)
    ensures
        claimed == !(*old(last_eval_ms) > 0 && clamp_i64(now_ms - *old(last_eval_ms)) < RM4_EVAL_INTERVAL_MS),
        *final(last_eval_ms) == (if claimed { now_ms } else { *old(last_eval_ms) }),
{
    let observed = *last_eval_ms;
    if observed > 0 && sat_sub_i64(now_ms, observed) < RM4_EVAL_INTERVAL_MS {
        return false;
    }
    *last_eval_ms = now_ms;
    true
}

/// Sample count and percentiles of one latency stage (µs).
#[derive(Debug, Clone, Copy, PartialEq, Eq, Default)]
pub struct RuntimeLatencyStats {
    pub samples: u64,
    pub p50_us: u64,
    pub p95_us: u64,
    pub p99_us: u64,
    pub max_us: u64,
}

/// Latency statistics of the pipeline stages.
#[derive(Debug, Clone, Copy, PartialEq, Eq, Default)]
pub struct RuntimeLatencySnapshot {
    pub ingest: RuntimeLatencyStats,
    pub decision: RuntimeLatencyStats,
    pub end_to_end: RuntimeLatencyStats,
    pub execution_intent_to_sent: RuntimeLatencyStats,
}

/// Queue depths of the runtime.
#[derive(Debug, Clone, Copy, PartialEq, Eq, Default)]
pub struct RuntimeBacklogDepth {
    pub binance_msg_queue_depth: u64,
    pub gate_msg_queue_depth: u64,
    pub signal_backlog_depth: u64,
    pub control_update_queue_depth: u64,
    pub execution_intent_queue_depth: u64,
}

/// Whether one SLO window is breached.
pub open spec fn spec_rm4_slo_breached(
    lat: RuntimeLatencySnapshot,
    backlog: RuntimeBacklogDepth,
    execution_dropped_delta: u64,
    execution_timeout_delta: u64,
    control_dropped_delta: u64,
) -> bool {
    ||| lat.ingest.p99_us > RM4_MAX_INGEST_P99_US
    ||| lat.decision.p99_us > RM4_MAX_DECISION_P99_US
    ||| lat.end_to_end.p99_us > RM4_MAX_END_TO_END_P99_US
    ||| backlog.binance_msg_queue_depth > RM4_MAX_BINANCE_BACKLOG
    ||| backlog.gate_msg_queue_depth > RM4_MAX_GATE_BACKLOG
    ||| backlog.signal_backlog_depth > RM4_MAX_SIGNAL_BACKLOG
    ||| backlog.execution_intent_queue_depth > RM4_MAX_EXECUTION_BACKLOG
    ||| backlog.control_update_queue_depth > RM4_MAX_CONTROL_BACKLOG
    ||| execution_dropped_delta > 0
    ||| execution_timeout_delta > 0
    ||| control_dropped_delta > 0
}

/// An SLO window is breached when a p99 latency or a queue depth exceeds its
/// bound, or when intents or updates were dropped or timed out in the window.
pub fn rm4_slo_breached(
    runtime_latency_us: &RuntimeLatencySnapshot,
    runtime_backlog_depth: &RuntimeBacklogDepth,
    execution_dropped_delta: u64,
    execution_timeout_delta: u64,
    control_dropped_delta: u64,
) -> (r: bool)
    ensures
        r == spec_rm4_slo_breached(*runtime_latency_us, *runtime_backlog_depth, execution_dropped_delta,
            execution_timeout_delta, control_dropped_delta),
{
    runtime_latency_us.ingest.p99_us > RM4_MAX_INGEST_P99_US
        || runtime_latency_us.decision.p99_us > RM4_MAX_DECISION_P99_US
        || runtime_latency_us.end_to_end.p99_us > RM4_MAX_END_TO_END_P99_US
        || runtime_backlog_depth.binance_msg_queue_depth > RM4_MAX_BINANCE_BACKLOG
        || runtime_backlog_depth.gate_msg_queue_depth > RM4_MAX_GATE_BACKLOG
        || runtime_backlog_depth.signal_backlog_depth > RM4_MAX_SIGNAL_BACKLOG
        || runtime_backlog_depth.execution_intent_queue_depth > RM4_MAX_EXECUTION_BACKLOG
        || runtime_backlog_depth.control_update_queue_depth > RM4_MAX_CONTROL_BACKLOG
        || execution_dropped_delta > 0
        || execution_timeout_delta > 0
        || control_dropped_delta > 0
}

/// SLO window bookkeeping kept between evaluations.
#[derive(Debug, Clone, Copy, PartialEq, Eq, Default)]
pub struct Rm4WindowState {
    pub breach_streak: u64,
    pub last_window_breached: bool,
    pub hft_mode_degraded: bool,
    pub hft_mode_ever_degraded: bool,
}

/// The window state after one evaluated window: a breach extends the streak
/// (wrapping like an atomic counter), a clean window resets it; HFT mode is
/// degraded while the streak reaches [`RM4_BREACH_WINDOW_THRESHOLD`], and
/// once degraded the runtime is remembered as ever degraded.
pub open spec fn spec_rm4_window_step(st: Rm4WindowState, breached: bool) -> Rm4WindowState {
    let streak: u64 = if breached {
        if st.breach_streak == u64::MAX { 0 } else { (st.breach_streak + 1) as u64 }
    } else {
        0
    };
    let degraded = streak >= RM4_BREACH_WINDOW_THRESHOLD;
    Rm4WindowState {
        breach_streak: streak,
        last_window_breached: breached,
        hft_mode_degraded: degraded,
        hft_mode_ever_degraded: st.hft_mode_ever_degraded || degraded,
    }
}

/// Records the outcome of one evaluated SLO window (see [`spec_rm4_window_step`]).
pub fn rm4_window_step(st: &mut Rm4WindowState, breached: bool)
    ensures
        *final(st) == spec_rm4_window_step(*old(st), breached),
{
    let streak: u64 = if breached { st.breach_streak.wrapping_add(1) } else { 0 };
    let degraded = streak >= RM4_BREACH_WINDOW_THRESHOLD;
    st.breach_streak = streak;
    st.last_window_breached = breached;
    st.hft_mode_degraded = degraded;
    if degraded {
        st.hft_mode_ever_degraded = true;
    }
}

/// Runs one SLO evaluation when due: claims the window, takes the counter
/// deltas since the last evaluation and records whether the window breached.
/// Returns whether an evaluation took place.
pub fn evaluate_rm4_window(
    st: &mut Rm4WindowState,
    last_eval_ms: &mut i64,
    now_ms: i64,
    runtime_latency_us: &RuntimeLatencySnapshot,
    runtime_backlog_depth: &RuntimeBacklogDepth,
    execution_dropped_intents: u64,
    last_execution_dropped_intents: &mut u64,
    execution_send_timeouts: u64,
    last_execution_send_timeouts: &mut u64,
    control_dropped_updates: u64,
    last_control_dropped_updates: &mut u64,
) -> (evaluated: bool)
    ensures
        evaluated == !(*old(last_eval_ms) > 0 && clamp_i64(now_ms - *old(last_eval_ms)) < RM4_EVAL_INTERVAL_MS),
        !evaluated ==> *final(st) == *old(st) && *final(last_eval_ms) == *old(last_eval_ms)
            && *final(last_execution_dropped_intents) == *old(last_execution_dropped_intents)
            && *final(last_execution_send_timeouts) == *old(last_execution_send_timeouts)
            && *final(last_control_dropped_updates) == *old(last_control_dropped_updates),
        evaluated ==> {
            &&& *final(last_eval_ms) == now_ms
            &&& *final(last_execution_dropped_intents) == execution_dropped_intents
            &&& *final(last_execution_send_timeouts) == execution_send_timeouts
            &&& *final(last_control_dropped_updates) == control_dropped_updates
            &&& *final(st) == spec_rm4_window_step(*old(st), spec_rm4_slo_breached(*runtime_latency_us, *runtime_backlog_depth,
                (if execution_dropped_intents >= *old(last_execution_dropped_intents) { execution_dropped_intents - *old(last_execution_dropped_intents) } else { 0 }) as u64,
                (if execution_send_timeouts >= *old(last_execution_send_timeouts) { execution_send_timeouts - *old(last_execution_send_timeouts) } else { 0 }) as u64,
                (if control_dropped_updates >= *old(last_control_dropped_updates) { control_dropped_updates - *old(last_control_dropped_updates) } else { 0 }) as u64))
        },
{
    if !try_claim_rm4_window_eval(last_eval_ms, now_ms) {
        return false;
    }
    let d1 = counter_delta_and_update_last(execution_dropped_intents, last_execution_dropped_intents);
    let d2 = counter_delta_and_update_last(execution_send_timeouts, last_execution_send_timeouts);
    let d3 = counter_delta_and_update_last(control_dropped_updates, last_control_dropped_updates);
    let breached = rm4_slo_breached(runtime_latency_us, runtime_backlog_depth, d1, d2, d3);
    rm4_window_step(st, breached);
    true
}

/// Last timestamps (ns) of the pipeline stages.
#[derive(Debug, Clone, Copy, PartialEq, Eq, Default)]
pub struct RuntimeStageTimestamps {
    pub recv_ws_frame_ts_ns: i64,
    pub parsed_ts_ns: i64,
    pub state_updated_ts_ns: i64,
    pub signal_decided_ts_ns: i64,
    pub order_intent_enqueued_ts_ns: i64,
    pub order_intent_sent_ts_ns: i64,
}

/// Exchange clock drift statistics (ms).
#[derive(Debug, Clone, Copy, PartialEq, Eq, Default)]
pub struct RuntimeDriftSnapshot {
    pub samples: u64,
    pub avg_ms: i64,
    pub p50_ms: i64,
    pub p95_ms: i64,
    pub p99_ms: i64,
    pub abs_p99_ms: u64,
    pub abs_max_ms: u64,
}

/// Snapshot of the counters and clocks the health verdict reads.
#[derive(Debug, Clone, Copy, PartialEq, Eq, Default)]
pub struct HealthInputs {
    pub now_ms: i64,
    pub now_ns: i64,
    pub binance_connected: bool,
    pub gate_connected: bool,
    pub binance_last_tick_ms: i64,
    pub gate_last_tick_ms: i64,
    pub trial_queue_depth: u64,
    pub trial_queue_quarantined: u64,
    pub trial_last_ack_ms: i64,
    pub trial_last_ack_error: bool,
    pub binance_dropped_messages: u64,
    pub gate_dropped_messages: u64,
    pub control_dropped_updates: u64,
    pub db_dropped_batches: u64,
    pub db_overflowed_batches: u64,
    pub db_dropped_batch_budget: u64,
    pub db_overflow_warn_threshold: u64,
    pub db_writer_enqueued_seq: u64,
    pub db_writer_observed_seq: u64,
    pub db_writer_last_progress_ms: i64,
    pub execution_sent_intents: u64,
    pub execution_dropped_intents: u64,
    pub execution_send_timeouts: u64,
    pub execution_kill_switch_active: bool,
    pub state_updated_ts_ns: i64,
    pub signal_decided_ts_ns: i64,
    pub order_intent_enqueued_ts_ns: i64,
    pub order_intent_sent_ts_ns: i64,
    pub drift_samples: u64,
    pub drift_abs_p99_ms: u64,
    pub backlog: RuntimeBacklogDepth,
    pub rm4_last_window_breached: bool,
    pub hft_mode_degraded: bool,
    pub recv_ws_frame_ts_ns: i64,
    pub parsed_ts_ns: i64,
    pub latency_us: RuntimeLatencySnapshot,
    pub drift_avg_ms: i64,
    pub drift_p50_ms: i64,
    pub drift_p95_ms: i64,
    pub drift_p99_ms: i64,
    pub drift_abs_max_ms: u64,
    pub rm4_breach_streak: u64,
    pub hft_mode_ever_degraded: bool,
}

/// A condition that makes the runtime unhealthy.
#[derive(Debug, Clone, Copy, PartialEq, Eq)]
pub enum HealthIssue {
    BinanceDisconnected,
    BinanceStale,
    GateDisconnected,
    GateStale,
    BinanceDroppedMessages,
    GateDroppedMessages,
    DbDropBudgetExhausted,
    DbWriterStall,
    ExecutionKillSwitchActive,
    HftSloDegradedNonHft,
    EngineStateStall,
    SignalLoopStall,
    ExecutionLoopStall,
}

/// Stable name of an issue.
pub open spec fn issue_name(i: HealthIssue) -> Seq<char> {
    match i {
        HealthIssue::BinanceDisconnected => "binance_disconnected"@,
        HealthIssue::BinanceStale => "binance_stale"@,
        HealthIssue::GateDisconnected => "gate_disconnected"@,
        HealthIssue::GateStale => "gate_stale"@,
        HealthIssue::BinanceDroppedMessages => "binance_dropped_messages"@,
        HealthIssue::GateDroppedMessages => "gate_dropped_messages"@,
        HealthIssue::DbDropBudgetExhausted => "db_drop_budget_exhausted"@,
        HealthIssue::DbWriterStall => "db_writer_stall"@,
        HealthIssue::ExecutionKillSwitchActive => "execution_kill_switch_active"@,
        HealthIssue::HftSloDegradedNonHft => "hft_slo_degraded_non_hft"@,
        HealthIssue::EngineStateStall => "engine_state_stall"@,
        HealthIssue::SignalLoopStall => "signal_loop_stall"@,
        HealthIssue::ExecutionLoopStall => "execution_loop_stall"@,
    }
}

impl HealthIssue {
    /// Stable name of the issue (see [`issue_name`]).
    pub fn as_str(&self) -> (r: &'static str)
        ensures
            r@ == issue_name(*self),
    {
        match self {
            HealthIssue::BinanceDisconnected => "binance_disconnected",
            HealthIssue::BinanceStale => "binance_stale",
            HealthIssue::GateDisconnected => "gate_disconnected",
            HealthIssue::GateStale => "gate_stale",
            HealthIssue::BinanceDroppedMessages => "binance_dropped_messages",
            HealthIssue::GateDroppedMessages => "gate_dropped_messages",
            HealthIssue::DbDropBudgetExhausted => "db_drop_budget_exhausted",
            HealthIssue::DbWriterStall => "db_writer_stall",
            HealthIssue::ExecutionKillSwitchActive => "execution_kill_switch_active",
            HealthIssue::HftSloDegradedNonHft => "hft_slo_degraded_non_hft",
            HealthIssue::EngineStateStall => "engine_state_stall",
            HealthIssue::SignalLoopStall => "signal_loop_stall",
            HealthIssue::ExecutionLoopStall => "execution_loop_stall",
        }
    }
}

/// A condition worth a warning that does not make the runtime unhealthy.
#[derive(Debug, Clone, Copy, PartialEq, Eq)]
pub enum HealthWarning {
    DbOverflowBatchesHigh,
    DriftP99High,
    ExecutionSendTimeoutsPresent,
    ExecutionIntentsDropped,
    ControlUpdatesDropped,
    HftSloWindowBreach,
    TrialQueueDepthHigh,
    TrialQueueQuarantinedPresent,
    TrialLastAckError,
    TrialAckStale,
    TrialAckMissingForQueuedBatches,
}

/// Stable name of a warning.
pub open spec fn warning_name(w: HealthWarning) -> Seq<char> {
    match w {
        HealthWarning::DbOverflowBatchesHigh => "db_overflow_batches_high"@,
        HealthWarning::DriftP99High => "drift_p99_high"@,
        HealthWarning::ExecutionSendTimeoutsPresent => "execution_send_timeouts_present"@,
        HealthWarning::ExecutionIntentsDropped => "execution_intents_dropped"@,
        HealthWarning::ControlUpdatesDropped => "control_updates_dropped"@,
        HealthWarning::HftSloWindowBreach => "hft_slo_window_breach"@,
        HealthWarning::TrialQueueDepthHigh => "trial_queue_depth_high"@,
        HealthWarning::TrialQueueQuarantinedPresent => "trial_queue_quarantined_present"@,
        HealthWarning::TrialLastAckError => "trial_last_ack_error"@,
        HealthWarning::TrialAckStale => "trial_ack_stale"@,
        HealthWarning::TrialAckMissingForQueuedBatches => "trial_ack_missing_for_queued_batches"@,
    }
}

impl HealthWarning {
    /// Stable name of the warning (see [`warning_name`]).
    pub fn as_str(&self) -> (r: &'static str)
        ensures
            r@ == warning_name(*self),
    {
        match self {
            HealthWarning::DbOverflowBatchesHigh => "db_overflow_batches_high",
            HealthWarning::DriftP99High => "drift_p99_high",
            HealthWarning::ExecutionSendTimeoutsPresent => "execution_send_timeouts_present",
            HealthWarning::ExecutionIntentsDropped => "execution_intents_dropped",
            HealthWarning::ControlUpdatesDropped => "control_updates_dropped",
            HealthWarning::HftSloWindowBreach => "hft_slo_window_breach",
            HealthWarning::TrialQueueDepthHigh => "trial_queue_depth_high",
            HealthWarning::TrialQueueQuarantinedPresent => "trial_queue_quarantined_present",
            HealthWarning::TrialLastAckError => "trial_last_ack_error",
            HealthWarning::TrialAckStale => "trial_ack_stale",
            HealthWarning::TrialAckMissingForQueuedBatches => "trial_ack_missing_for_queued_batches",
        }
    }
}

/// Status of the last trial acknowledgement (reported as `unknown`, `error`, `ok`).
#[derive(Debug, Clone, Copy, PartialEq, Eq)]
pub enum AckStatus {
    Unknown,
    Error,
    Acked,
}

/// Alert level of the health verdict (reported as `ok`, `warn`, `critical`).
#[derive(Debug, Clone, Copy, PartialEq, Eq)]
pub enum AlertLevel {
    Normal,
    Warn,
    Critical,
}

/// The health verdict.
#[derive(Debug, Clone, PartialEq, Eq)]
pub struct HealthReport {
    pub healthy: bool,
    pub alert_level: AlertLevel,
    pub binance: bool,
    pub gate: bool,
    pub binance_last_tick_age_ms: i64,
    pub gate_last_tick_age_ms: i64,
    pub trial_last_ack_age_ms: Option<i64>,
    pub trial_last_ack_status: AckStatus,
    pub db_saturation: DbSaturationHealth,
    pub db_writer_backlog_seq: u64,
    pub db_writer_last_progress_age_ms: Option<i64>,
    pub trial_queue_depth: u64,
    pub trial_active_run_id: Option<String>,
    pub binance_dropped_messages: u64,
    pub gate_dropped_messages: u64,
    pub db_dropped_batches: u64,
    pub db_overflowed_batches: u64,
    pub db_dropped_batch_budget: u64,
    pub db_overflow_warn_threshold: u64,
    pub trial_queue_quarantined: u64,
    pub control_dropped_updates: u64,
    pub db_writer_enqueued_seq: u64,
    pub db_writer_observed_seq: u64,
    pub execution_sent_intents: u64,
    pub execution_dropped_intents: u64,
    pub execution_send_timeouts: u64,
    pub execution_kill_switch_active: bool,
    pub stage_timestamps: RuntimeStageTimestamps,
    pub latency_us: RuntimeLatencySnapshot,
    pub drift_ms: RuntimeDriftSnapshot,
    pub backlog: RuntimeBacklogDepth,
    pub hft_mode_degraded: bool,
    pub hft_mode_ever_degraded: bool,
    pub rm4_breach_streak: u64,
    pub rm4_window_threshold: u64,
    pub rm4_window_interval_ms: i64,
    pub issues: Vec<HealthIssue>,
    pub warnings: Vec<HealthWarning>,
}

/// Age of a last-event timestamp (ms); `i64::MAX` when there never was one.
pub open spec fn age_or_never(now_ms: i64, last_ms: i64) -> i64 {
    if last_ms > 0 { clamp_i64(now_ms - last_ms) as i64 } else { i64::MAX }
}

/// Age of a last-event timestamp (ms); `None` when there never was one.
pub open spec fn age_if_any(now_ms: i64, last_ms: i64) -> Option<i64> {
    if last_ms > 0 { Some(clamp_i64(now_ms - last_ms) as i64) } else { None }
}

/// Whether a stage age exceeds `threshold`; an unknown age counts as stalled.
pub open spec fn stalled_or_unknown(age: Option<i64>, threshold: i64) -> bool {
    match age {
        Some(a) => a > threshold,
        None => true,
    }
}

/// Whether a feed is live: connected with a tick at most
/// [`STALE_TICK_THRESHOLD_MS`] old.
pub open spec fn feed_live(connected: bool, last_tick_ms: i64, now_ms: i64) -> bool {
    connected && age_or_never(now_ms, last_tick_ms) <= STALE_TICK_THRESHOLD_MS
}

/// Appends `x` when `c` holds.
pub open spec fn push_if<T>(s: Seq<T>, c: bool, x: T) -> Seq<T> {
    if c { s.push(x) } else { s }
}

/// The issues of a snapshot, in reporting order.
pub open spec fn spec_issues(i: HealthInputs) -> Seq<HealthIssue> {
    let binance_age = age_or_never(i.now_ms, i.binance_last_tick_ms);
    let gate_age = age_or_never(i.now_ms, i.gate_last_tick_ms);
    let backlog_seq = if i.db_writer_enqueued_seq >= i.db_writer_observed_seq { i.db_writer_enqueued_seq - i.db_writer_observed_seq } else { 0 };
    let progress_age = age_if_any(i.now_ms, i.db_writer_last_progress_ms);
    let s0 = Seq::<HealthIssue>::empty();
    let s1 = if !i.binance_connected { s0.push(HealthIssue::BinanceDisconnected) }
        else { push_if(s0, binance_age > STALE_TICK_THRESHOLD_MS, HealthIssue::BinanceStale) };
    let s2 = if !i.gate_connected { s1.push(HealthIssue::GateDisconnected) }
        else { push_if(s1, gate_age > STALE_TICK_THRESHOLD_MS, HealthIssue::GateStale) };
    let s3 = push_if(s2, i.binance_dropped_messages > 0, HealthIssue::BinanceDroppedMessages);
    let s4 = push_if(s3, i.gate_dropped_messages > 0, HealthIssue::GateDroppedMessages);
    let s5 = push_if(s4, i.db_dropped_batches > i.db_dropped_batch_budget, HealthIssue::DbDropBudgetExhausted);
    let s6 = push_if(s5, backlog_seq > 0 && match progress_age { Some(a) => a > DB_WRITER_STALL_THRESHOLD_MS, None => false },
        HealthIssue::DbWriterStall);
    let s7 = push_if(s6, i.execution_kill_switch_active, HealthIssue::ExecutionKillSwitchActive);
    let s8 = push_if(s7, i.hft_mode_degraded, HealthIssue::HftSloDegradedNonHft);
    let s9 = push_if(s8, feed_live(i.binance_connected, i.binance_last_tick_ms, i.now_ms)
        && feed_live(i.gate_connected, i.gate_last_tick_ms, i.now_ms)
        && stalled_or_unknown(spec_stage_age(i.now_ns, i.state_updated_ts_ns), ENGINE_STALL_THRESHOLD_MS),
        HealthIssue::EngineStateStall);
    let s10 = push_if(s9, i.backlog.signal_backlog_depth > 0
        && stalled_or_unknown(spec_stage_age(i.now_ns, i.signal_decided_ts_ns), SIGNAL_LOOP_STALL_THRESHOLD_MS),
        HealthIssue::SignalLoopStall);
    push_if(s10, i.backlog.execution_intent_queue_depth > 0
        && stalled_or_unknown(spec_stage_age(i.now_ns, i.order_intent_enqueued_ts_ns), EXECUTION_LOOP_STALL_THRESHOLD_MS)
        && stalled_or_unknown(spec_stage_age(i.now_ns, i.order_intent_sent_ts_ns), EXECUTION_LOOP_STALL_THRESHOLD_MS),
        HealthIssue::ExecutionLoopStall)
}

/// The warnings of a snapshot, in reporting order.
pub open spec fn spec_warnings(i: HealthInputs) -> Seq<HealthWarning> {
    let ack_age = age_if_any(i.now_ms, i.trial_last_ack_ms);
    let s0 = Seq::<HealthWarning>::empty();
    let s1 = push_if(s0, i.db_overflowed_batches >= i.db_overflow_warn_threshold, HealthWarning::DbOverflowBatchesHigh);
    let s2 = push_if(s1, i.drift_samples > 0 && i.drift_abs_p99_ms > DRIFT_ABS_P99_WARN_MS, HealthWarning::DriftP99High);
    let s3 = push_if(s2, i.execution_send_timeouts > 0, HealthWarning::ExecutionSendTimeoutsPresent);
    let s4 = push_if(s3, i.execution_dropped_intents > 0, HealthWarning::ExecutionIntentsDropped);
    let s5 = push_if(s4, i.control_dropped_updates > 0, HealthWarning::ControlUpdatesDropped);
    let s6 = push_if(s5, !i.hft_mode_degraded && i.rm4_last_window_breached, HealthWarning::HftSloWindowBreach);
    let s7 = push_if(s6, i.trial_queue_depth >= TRIAL_QUEUE_DEPTH_WARN_THRESHOLD, HealthWarning::TrialQueueDepthHigh);
    let s8 = push_if(s7, i.trial_queue_quarantined > 0, HealthWarning::TrialQueueQuarantinedPresent);
    let s9 = push_if(s8, i.trial_last_ack_error, HealthWarning::TrialLastAckError);
    if i.trial_queue_depth > 0 {
        match ack_age {
            Some(a) => push_if(s9, a > TRIAL_ACK_STALE_WARN_MS, HealthWarning::TrialAckStale),
            None => s9.push(HealthWarning::TrialAckMissingForQueuedBatches),
        }
    } else {
        s9
    }
}

/// Which issues a snapshot reports: each issue is reported exactly on its
/// own condition over the inputs.
pub proof fn lemma_issue_conditions(i: HealthInputs)
    ensures
        spec_issues(i).contains(HealthIssue::BinanceDisconnected) <==> !i.binance_connected,
        spec_issues(i).contains(HealthIssue::BinanceStale) <==>
            i.binance_connected && age_or_never(i.now_ms, i.binance_last_tick_ms) > STALE_TICK_THRESHOLD_MS,
        spec_issues(i).contains(HealthIssue::GateDisconnected) <==> !i.gate_connected,
        spec_issues(i).contains(HealthIssue::GateStale) <==>
            i.gate_connected && age_or_never(i.now_ms, i.gate_last_tick_ms) > STALE_TICK_THRESHOLD_MS,
        spec_issues(i).contains(HealthIssue::BinanceDroppedMessages) <==> i.binance_dropped_messages != 0,
        spec_issues(i).contains(HealthIssue::GateDroppedMessages) <==> i.gate_dropped_messages != 0,
        spec_issues(i).contains(HealthIssue::DbDropBudgetExhausted) <==> i.db_dropped_batches > i.db_dropped_batch_budget,
        spec_issues(i).contains(HealthIssue::DbWriterStall) <==>
            i.db_writer_enqueued_seq > i.db_writer_observed_seq
            && i.db_writer_last_progress_ms > 0
            && clamp_i64(i.now_ms - i.db_writer_last_progress_ms) > DB_WRITER_STALL_THRESHOLD_MS,
        spec_issues(i).contains(HealthIssue::ExecutionKillSwitchActive) <==> i.execution_kill_switch_active,
        spec_issues(i).contains(HealthIssue::HftSloDegradedNonHft) <==> i.hft_mode_degraded,
        spec_issues(i).contains(HealthIssue::EngineStateStall) <==>
            feed_live(i.binance_connected, i.binance_last_tick_ms, i.now_ms)
            && feed_live(i.gate_connected, i.gate_last_tick_ms, i.now_ms)
            && stalled_or_unknown(spec_stage_age(i.now_ns, i.state_updated_ts_ns), ENGINE_STALL_THRESHOLD_MS),
        spec_issues(i).contains(HealthIssue::SignalLoopStall) <==>
            i.backlog.signal_backlog_depth != 0
            && stalled_or_unknown(spec_stage_age(i.now_ns, i.signal_decided_ts_ns), SIGNAL_LOOP_STALL_THRESHOLD_MS),
        spec_issues(i).contains(HealthIssue::ExecutionLoopStall) <==>
            i.backlog.execution_intent_queue_depth != 0
            && stalled_or_unknown(spec_stage_age(i.now_ns, i.order_intent_enqueued_ts_ns), EXECUTION_LOOP_STALL_THRESHOLD_MS)
            && stalled_or_unknown(spec_stage_age(i.now_ns, i.order_intent_sent_ts_ns), EXECUTION_LOOP_STALL_THRESHOLD_MS),
{
    broadcast use vstd::seq_lib::group_seq_properties;
}

/// The verdict follows the issues and warnings: healthy exactly without
/// issues; critical with an issue, a warning level with warnings only, else
/// normal. In particular an active kill switch makes the runtime unhealthy and
/// critical.
pub proof fn lemma_health_verdict(i: HealthInputs)
    ensures
        i.execution_kill_switch_active ==> spec_issues(i).len() > 0
            && spec_alert_level(spec_issues(i), spec_warnings(i)) == AlertLevel::Critical,
        spec_alert_level(spec_issues(i), spec_warnings(i)) == AlertLevel::Normal
            <==> spec_issues(i).len() == 0 && spec_warnings(i).len() == 0,
        spec_alert_level(spec_issues(i), spec_warnings(i)) == AlertLevel::Critical <==> spec_issues(i).len() > 0,
{
    lemma_issue_conditions(i);
}

/// Which warnings a snapshot reports: each warning exactly on its own
/// condition over the inputs.
pub proof fn lemma_warning_conditions(i: HealthInputs)
    ensures
        spec_warnings(i).contains(HealthWarning::DbOverflowBatchesHigh) <==> i.db_overflowed_batches >= i.db_overflow_warn_threshold,
        spec_warnings(i).contains(HealthWarning::DriftP99High) <==> i.drift_samples != 0 && i.drift_abs_p99_ms > DRIFT_ABS_P99_WARN_MS,
        spec_warnings(i).contains(HealthWarning::ExecutionSendTimeoutsPresent) <==> i.execution_send_timeouts != 0,
        spec_warnings(i).contains(HealthWarning::ExecutionIntentsDropped) <==> i.execution_dropped_intents != 0,
        spec_warnings(i).contains(HealthWarning::ControlUpdatesDropped) <==> i.control_dropped_updates != 0,
        spec_warnings(i).contains(HealthWarning::HftSloWindowBreach) <==> !i.hft_mode_degraded && i.rm4_last_window_breached,
        spec_warnings(i).contains(HealthWarning::TrialQueueDepthHigh) <==> i.trial_queue_depth >= TRIAL_QUEUE_DEPTH_WARN_THRESHOLD,
        spec_warnings(i).contains(HealthWarning::TrialQueueQuarantinedPresent) <==> i.trial_queue_quarantined != 0,
        spec_warnings(i).contains(HealthWarning::TrialLastAckError) <==> i.trial_last_ack_error,
        spec_warnings(i).contains(HealthWarning::TrialAckStale) <==>
            i.trial_queue_depth != 0 && i.trial_last_ack_ms > 0
            && clamp_i64(i.now_ms - i.trial_last_ack_ms) > TRIAL_ACK_STALE_WARN_MS,
        spec_warnings(i).contains(HealthWarning::TrialAckMissingForQueuedBatches) <==>
            i.trial_queue_depth != 0 && i.trial_last_ack_ms <= 0,
{
    broadcast use vstd::seq_lib::group_seq_properties;
}

/// Alert level: critical with issues, warn with warnings only, else normal.
pub open spec fn spec_alert_level(issues: Seq<HealthIssue>, warnings: Seq<HealthWarning>) -> AlertLevel {
    if issues.len() > 0 { AlertLevel::Critical } else if warnings.len() > 0 { AlertLevel::Warn } else { AlertLevel::Normal }
}

fn age_since(now_ms: i64, last_ms: i64) -> (r: Option<i64>)
    ensures
        r == age_if_any(now_ms, last_ms),
{
    if last_ms > 0 { Some(sat_sub_i64(now_ms, last_ms)) } else { None }
}

fn stalled_over(age: Option<i64>, threshold: i64) -> (r: bool)
    ensures
        r == stalled_or_unknown(age, threshold),
{
    match age {
        Some(a) => a > threshold,
        None => true,
    }
}

fn push_issue_if(v: &mut Vec<HealthIssue>, c: bool, x: HealthIssue)
    ensures
        final(v)@ == push_if(old(v)@, c, x),
{
    if c {
        v.push(x);
    }
}

fn push_warning_if(v: &mut Vec<HealthWarning>, c: bool, x: HealthWarning)
    ensures
        final(v)@ == push_if(old(v)@, c, x),
{
    if c {
        v.push(x);
    }
}

/// The issues of a snapshot (see [`spec_issues`]).
fn collect_issues(i: &HealthInputs) -> (r: Vec<HealthIssue>)
    ensures
        r@ == spec_issues(*i),
{
    let binance_age = match age_since(i.now_ms, i.binance_last_tick_ms) { Some(a) => a, None => i64::MAX };
    let gate_age = match age_since(i.now_ms, i.gate_last_tick_ms) { Some(a) => a, None => i64::MAX };
    let backlog_seq = if i.db_writer_enqueued_seq >= i.db_writer_observed_seq {
        i.db_writer_enqueued_seq - i.db_writer_observed_seq
    } else {
        0
    };
    let progress_stalled = match age_since(i.now_ms, i.db_writer_last_progress_ms) {
        Some(age) => age > DB_WRITER_STALL_THRESHOLD_MS,
        None => false,
    };
    let binance_live = i.binance_connected && binance_age <= STALE_TICK_THRESHOLD_MS;
    let gate_live = i.gate_connected && gate_age <= STALE_TICK_THRESHOLD_MS;
    let engine_stalled = stalled_over(stage_age_ms_from_ns(i.now_ns, i.state_updated_ts_ns), ENGINE_STALL_THRESHOLD_MS);
    let signal_stalled = stalled_over(stage_age_ms_from_ns(i.now_ns, i.signal_decided_ts_ns), SIGNAL_LOOP_STALL_THRESHOLD_MS);
    let enqueued_stalled = stalled_over(stage_age_ms_from_ns(i.now_ns, i.order_intent_enqueued_ts_ns), EXECUTION_LOOP_STALL_THRESHOLD_MS);
    let sent_stalled = stalled_over(stage_age_ms_from_ns(i.now_ns, i.order_intent_sent_ts_ns), EXECUTION_LOOP_STALL_THRESHOLD_MS);

    let mut issues: Vec<HealthIssue> = Vec::new();
    if !i.binance_connected {
        issues.push(HealthIssue::BinanceDisconnected);
    } else {
        push_issue_if(&mut issues, binance_age > STALE_TICK_THRESHOLD_MS, HealthIssue::BinanceStale);
    }
    if !i.gate_connected {
        issues.push(HealthIssue::GateDisconnected);
    } else {
        push_issue_if(&mut issues, gate_age > STALE_TICK_THRESHOLD_MS, HealthIssue::GateStale);
    }
    push_issue_if(&mut issues, i.binance_dropped_messages > 0, HealthIssue::BinanceDroppedMessages);
    push_issue_if(&mut issues, i.gate_dropped_messages > 0, HealthIssue::GateDroppedMessages);
    push_issue_if(&mut issues, i.db_dropped_batches > i.db_dropped_batch_budget, HealthIssue::DbDropBudgetExhausted);
    push_issue_if(&mut issues, backlog_seq > 0 && progress_stalled, HealthIssue::DbWriterStall);
    push_issue_if(&mut issues, i.execution_kill_switch_active, HealthIssue::ExecutionKillSwitchActive);
    push_issue_if(&mut issues, i.hft_mode_degraded, HealthIssue::HftSloDegradedNonHft);
    push_issue_if(&mut issues, binance_live && gate_live && engine_stalled, HealthIssue::EngineStateStall);
    push_issue_if(&mut issues, i.backlog.signal_backlog_depth > 0 && signal_stalled, HealthIssue::SignalLoopStall);
    push_issue_if(&mut issues, i.backlog.execution_intent_queue_depth > 0 && enqueued_stalled && sent_stalled,
        HealthIssue::ExecutionLoopStall);
    issues
}

/// The warnings of a snapshot (see [`spec_warnings`]).
fn collect_warnings(i: &HealthInputs) -> (r: Vec<HealthWarning>)
    ensures
        r@ == spec_warnings(*i),
{
    let mut warnings: Vec<HealthWarning> = Vec::new();
    push_warning_if(&mut warnings, i.db_overflowed_batches >= i.db_overflow_warn_threshold, HealthWarning::DbOverflowBatchesHigh);
    push_warning_if(&mut warnings, i.drift_samples > 0 && i.drift_abs_p99_ms > DRIFT_ABS_P99_WARN_MS, HealthWarning::DriftP99High);
    push_warning_if(&mut warnings, i.execution_send_timeouts > 0, HealthWarning::ExecutionSendTimeoutsPresent);
    push_warning_if(&mut warnings, i.execution_dropped_intents > 0, HealthWarning::ExecutionIntentsDropped);
    push_warning_if(&mut warnings, i.control_dropped_updates > 0, HealthWarning::ControlUpdatesDropped);
    push_warning_if(&mut warnings, !i.hft_mode_degraded && i.rm4_last_window_breached, HealthWarning::HftSloWindowBreach);
    push_warning_if(&mut warnings, i.trial_queue_depth >= TRIAL_QUEUE_DEPTH_WARN_THRESHOLD, HealthWarning::TrialQueueDepthHigh);
    push_warning_if(&mut warnings, i.trial_queue_quarantined > 0, HealthWarning::TrialQueueQuarantinedPresent);
    push_warning_if(&mut warnings, i.trial_last_ack_error, HealthWarning::TrialLastAckError);
    if i.trial_queue_depth > 0 {
        match age_since(i.now_ms, i.trial_last_ack_ms) {
            Some(age_ms) => push_warning_if(&mut warnings, age_ms > TRIAL_ACK_STALE_WARN_MS, HealthWarning::TrialAckStale),
            None => warnings.push(HealthWarning::TrialAckMissingForQueuedBatches),
        }
    }
    warnings
}

/// The health verdict of a snapshot: issues and warnings in reporting order
/// ([`spec_issues`], [`spec_warnings`]); healthy exactly without issues. The
/// report also echoes the trial queue depth, the active trial run and the
/// drop counters with their limits.
pub fn health_report(i: &HealthInputs, trial_active_run_id: Option<String>) -> (r: HealthReport)
    ensures
        r.issues@ == spec_issues(*i),
        r.warnings@ == spec_warnings(*i),
        r.healthy == (spec_issues(*i).len() == 0),
        r.alert_level == spec_alert_level(spec_issues(*i), spec_warnings(*i)),
        r.binance == feed_live(i.binance_connected, i.binance_last_tick_ms, i.now_ms),
        r.gate == feed_live(i.gate_connected, i.gate_last_tick_ms, i.now_ms),
        r.binance_last_tick_age_ms == age_or_never(i.now_ms, i.binance_last_tick_ms),
        r.gate_last_tick_age_ms == age_or_never(i.now_ms, i.gate_last_tick_ms),
        r.trial_last_ack_age_ms == age_if_any(i.now_ms, i.trial_last_ack_ms),
        r.trial_last_ack_status == (if i.trial_last_ack_ms <= 0 { AckStatus::Unknown }
            else if i.trial_last_ack_error { AckStatus::Error } else { AckStatus::Acked }),
        r.db_saturation.drop_budget_exhausted == (i.db_dropped_batches > i.db_dropped_batch_budget),
        r.db_saturation.overflow_warn == (i.db_overflowed_batches >= i.db_overflow_warn_threshold),
        r.db_writer_backlog_seq == (if i.db_writer_enqueued_seq >= i.db_writer_observed_seq { i.db_writer_enqueued_seq - i.db_writer_observed_seq } else { 0 }),
        r.db_writer_last_progress_age_ms == age_if_any(i.now_ms, i.db_writer_last_progress_ms),
        r.trial_queue_depth == i.trial_queue_depth,
        r.trial_active_run_id == trial_active_run_id,
        r.binance_dropped_messages == i.binance_dropped_messages,
        r.gate_dropped_messages == i.gate_dropped_messages,
        r.db_dropped_batches == i.db_dropped_batches,
        r.db_overflowed_batches == i.db_overflowed_batches,
        r.db_dropped_batch_budget == i.db_dropped_batch_budget,
        r.db_overflow_warn_threshold == i.db_overflow_warn_threshold,
        r.trial_queue_quarantined == i.trial_queue_quarantined,
        r.control_dropped_updates == i.control_dropped_updates,
        r.db_writer_enqueued_seq == i.db_writer_enqueued_seq,
        r.db_writer_observed_seq == i.db_writer_observed_seq,
        r.execution_sent_intents == i.execution_sent_intents,
        r.execution_dropped_intents == i.execution_dropped_intents,
        r.execution_send_timeouts == i.execution_send_timeouts,
        r.execution_kill_switch_active == i.execution_kill_switch_active,
        r.stage_timestamps == (RuntimeStageTimestamps {
            recv_ws_frame_ts_ns: i.recv_ws_frame_ts_ns,
            parsed_ts_ns: i.parsed_ts_ns,
            state_updated_ts_ns: i.state_updated_ts_ns,
            signal_decided_ts_ns: i.signal_decided_ts_ns,
            order_intent_enqueued_ts_ns: i.order_intent_enqueued_ts_ns,
            order_intent_sent_ts_ns: i.order_intent_sent_ts_ns,
        }),
        r.latency_us == i.latency_us,
        r.drift_ms == (RuntimeDriftSnapshot {
            samples: i.drift_samples,
            avg_ms: i.drift_avg_ms,
            p50_ms: i.drift_p50_ms,
            p95_ms: i.drift_p95_ms,
            p99_ms: i.drift_p99_ms,
            abs_p99_ms: i.drift_abs_p99_ms,
            abs_max_ms: i.drift_abs_max_ms,
        }),
        r.backlog == i.backlog,
        r.hft_mode_degraded == i.hft_mode_degraded,
        r.hft_mode_ever_degraded == i.hft_mode_ever_degraded,
        r.rm4_breach_streak == i.rm4_breach_streak,
        r.rm4_window_threshold == RM4_BREACH_WINDOW_THRESHOLD,
        r.rm4_window_interval_ms == RM4_EVAL_INTERVAL_MS,
{
    let binance_last_tick_age_ms = match age_since(i.now_ms, i.binance_last_tick_ms) { Some(a) => a, None => i64::MAX };
    let gate_last_tick_age_ms = match age_since(i.now_ms, i.gate_last_tick_ms) { Some(a) => a, None => i64::MAX };
    let trial_last_ack_status = if i.trial_last_ack_ms <= 0 {
        AckStatus::Unknown
    } else if i.trial_last_ack_error {
        AckStatus::Error
    } else {
        AckStatus::Acked
    };
    let db_writer_backlog_seq = if i.db_writer_enqueued_seq >= i.db_writer_observed_seq {
        i.db_writer_enqueued_seq - i.db_writer_observed_seq
    } else {
        0
    };
    let issues = collect_issues(i);
    let warnings = collect_warnings(i);
    let healthy = issues.len() == 0;
    let alert_level = if issues.len() > 0 {
        AlertLevel::Critical
    } else if warnings.len() > 0 {
        AlertLevel::Warn
    } else {
        AlertLevel::Normal
    };
    HealthReport {
        healthy,
        alert_level,
        binance: i.binance_connected && binance_last_tick_age_ms <= STALE_TICK_THRESHOLD_MS,
        gate: i.gate_connected && gate_last_tick_age_ms <= STALE_TICK_THRESHOLD_MS,
        binance_last_tick_age_ms,
        gate_last_tick_age_ms,
        trial_last_ack_age_ms: age_since(i.now_ms, i.trial_last_ack_ms),
        trial_last_ack_status,
        db_saturation: evaluate_db_saturation_health(i.db_dropped_batches, i.db_overflowed_batches,
            i.db_dropped_batch_budget, i.db_overflow_warn_threshold),
        db_writer_backlog_seq,
        db_writer_last_progress_age_ms: age_since(i.now_ms, i.db_writer_last_progress_ms),
        trial_queue_depth: i.trial_queue_depth,
        trial_active_run_id,
        binance_dropped_messages: i.binance_dropped_messages,
        gate_dropped_messages: i.gate_dropped_messages,
        db_dropped_batches: i.db_dropped_batches,
        db_overflowed_batches: i.db_overflowed_batches,
        db_dropped_batch_budget: i.db_dropped_batch_budget,
        db_overflow_warn_threshold: i.db_overflow_warn_threshold,
        trial_queue_quarantined: i.trial_queue_quarantined,
        control_dropped_updates: i.control_dropped_updates,
        db_writer_enqueued_seq: i.db_writer_enqueued_seq,
        db_writer_observed_seq: i.db_writer_observed_seq,
        execution_sent_intents: i.execution_sent_intents,
        execution_dropped_intents: i.execution_dropped_intents,
        execution_send_timeouts: i.execution_send_timeouts,
        execution_kill_switch_active: i.execution_kill_switch_active,
        stage_timestamps: RuntimeStageTimestamps {
            recv_ws_frame_ts_ns: i.recv_ws_frame_ts_ns,
            parsed_ts_ns: i.parsed_ts_ns,
            state_updated_ts_ns: i.state_updated_ts_ns,
            signal_decided_ts_ns: i.signal_decided_ts_ns,
            order_intent_enqueued_ts_ns: i.order_intent_enqueued_ts_ns,
            order_intent_sent_ts_ns: i.order_intent_sent_ts_ns,
        },
        latency_us: i.latency_us,
        drift_ms: RuntimeDriftSnapshot {
            samples: i.drift_samples,
            avg_ms: i.drift_avg_ms,
            p50_ms: i.drift_p50_ms,
            p95_ms: i.drift_p95_ms,
            p99_ms: i.drift_p99_ms,
            abs_p99_ms: i.drift_abs_p99_ms,
            abs_max_ms: i.drift_abs_max_ms,
        },
        backlog: i.backlog,
        hft_mode_degraded: i.hft_mode_degraded,
        hft_mode_ever_degraded: i.hft_mode_ever_degraded,
        rm4_breach_streak: i.rm4_breach_streak,
        rm4_window_threshold: RM4_BREACH_WINDOW_THRESHOLD,
        rm4_window_interval_ms: RM4_EVAL_INTERVAL_MS,
        issues,
        warnings,
    }
}

} // verus!
