//! The runtime's shared health counters. They are atomics, written by the
//! ingest, signal and execution loops and read by the health endpoint;
//! Verus does not model the values inside them, so what is stated here is
//! how a snapshot is assembled from what is read.

use vstd::prelude::*;
use std::sync::atomic::{AtomicBool, AtomicI64, AtomicU64, Ordering};
use crate::health::{HealthInputs, RuntimeBacklogDepth, RuntimeLatencySnapshot, RuntimeLatencyStats};

verus! {

/// Counters kept outside this struct (feed drop counters and the database
/// writer's counters and limits), as read at one moment.
#[derive(Debug, Clone, Copy, PartialEq, Eq, Default)]
pub struct ExternalHealthCounters {
    pub binance_dropped_messages: u64,
    pub gate_dropped_messages: u64,
    pub db_dropped_batches: u64,
    pub db_overflowed_batches: u64,
    pub db_dropped_batch_budget: u64,
    pub db_overflow_warn_threshold: u64,
    pub db_writer_enqueued_seq: u64,
    pub db_writer_observed_seq: u64,
    pub db_writer_last_progress_ms: i64,
}

/// Shared health counters of the runtime.
#[derive(Debug)]
pub struct HealthState {
    pub binance_connected: AtomicBool,
    pub gate_connected: AtomicBool,
    pub binance_last_tick_ms: AtomicI64,
    pub gate_last_tick_ms: AtomicI64,
    pub runtime_last_recv_ws_frame_ts_ns: AtomicI64,
    pub runtime_last_parsed_ts_ns: AtomicI64,
    pub runtime_last_state_updated_ts_ns: AtomicI64,
    pub runtime_last_signal_decided_ts_ns: AtomicI64,
    pub runtime_last_order_intent_enqueued_ts_ns: AtomicI64,
    pub runtime_last_order_intent_sent_ts_ns: AtomicI64,
    pub runtime_ingest_samples: AtomicU64,
    pub runtime_ingest_p50_us: AtomicU64,
    pub runtime_ingest_p95_us: AtomicU64,
    pub runtime_ingest_p99_us: AtomicU64,
    pub runtime_ingest_max_us: AtomicU64,
    pub runtime_decision_samples: AtomicU64,
    pub runtime_decision_p50_us: AtomicU64,
    pub runtime_decision_p95_us: AtomicU64,
    pub runtime_decision_p99_us: AtomicU64,
    pub runtime_decision_max_us: AtomicU64,
    pub runtime_end_to_end_samples: AtomicU64,
    pub runtime_end_to_end_p50_us: AtomicU64,
    pub runtime_end_to_end_p95_us: AtomicU64,
    pub runtime_end_to_end_p99_us: AtomicU64,
    pub runtime_end_to_end_max_us: AtomicU64,
    pub runtime_drift_samples: AtomicU64,
    pub runtime_drift_avg_ms: AtomicI64,
    pub runtime_drift_p50_ms: AtomicI64,
    pub runtime_drift_p95_ms: AtomicI64,
    pub runtime_drift_p99_ms: AtomicI64,
    pub runtime_drift_abs_p99_ms: AtomicU64,
    pub runtime_drift_abs_max_ms: AtomicU64,
    pub runtime_binance_msg_queue_depth: AtomicU64,
    pub runtime_gate_msg_queue_depth: AtomicU64,
    pub runtime_signal_backlog_depth: AtomicU64,
    pub runtime_control_queue_depth: AtomicU64,
    pub runtime_control_dropped_updates: AtomicU64,
    pub runtime_execution_queue_depth: AtomicU64,
    pub runtime_execution_sent_intents: AtomicU64,
    pub runtime_execution_dropped_intents: AtomicU64,
    pub runtime_execution_send_timeouts: AtomicU64,
    pub runtime_execution_kill_switch_active: AtomicBool,
    pub runtime_execution_intent_to_sent_samples: AtomicU64,
    pub runtime_execution_intent_to_sent_p50_us: AtomicU64,
    pub runtime_execution_intent_to_sent_p95_us: AtomicU64,
    pub runtime_execution_intent_to_sent_p99_us: AtomicU64,
    pub runtime_execution_intent_to_sent_max_us: AtomicU64,
    pub runtime_rm4_last_eval_ms: AtomicI64,
    pub runtime_rm4_last_window_breached: AtomicBool,
    pub runtime_rm4_breach_streak: AtomicU64,
    pub runtime_hft_mode_degraded: AtomicBool,
    pub runtime_hft_mode_ever_degraded: AtomicBool,
    pub runtime_last_eval_execution_dropped_intents: AtomicU64,
    pub runtime_last_eval_execution_send_timeouts: AtomicU64,
    pub runtime_last_eval_control_dropped_updates: AtomicU64,
    pub trial_last_ack_ms: AtomicI64,
    pub trial_last_ack_error: AtomicBool,
    pub trial_queue_depth: AtomicU64,
    pub trial_queue_quarantined: AtomicU64,
}

impl HealthState {
    /// All counters zero, all flags false.
    pub fn new() -> (s: Self) {
        HealthState {
            binance_connected: AtomicBool::new(false),
            gate_connected: AtomicBool::new(false),
            binance_last_tick_ms: AtomicI64::new(0),
            gate_last_tick_ms: AtomicI64::new(0),
            runtime_last_recv_ws_frame_ts_ns: AtomicI64::new(0),
            runtime_last_parsed_ts_ns: AtomicI64::new(0),
            runtime_last_state_updated_ts_ns: AtomicI64::new(0),
            runtime_last_signal_decided_ts_ns: AtomicI64::new(0),
            runtime_last_order_intent_enqueued_ts_ns: AtomicI64::new(0),
            runtime_last_order_intent_sent_ts_ns: AtomicI64::new(0),
            runtime_ingest_samples: AtomicU64::new(0),
            runtime_ingest_p50_us: AtomicU64::new(0),
            runtime_ingest_p95_us: AtomicU64::new(0),
            runtime_ingest_p99_us: AtomicU64::new(0),
            runtime_ingest_max_us: AtomicU64::new(0),
            runtime_decision_samples: AtomicU64::new(0),
            runtime_decision_p50_us: AtomicU64::new(0),
            runtime_decision_p95_us: AtomicU64::new(0),
            runtime_decision_p99_us: AtomicU64::new(0),
            runtime_decision_max_us: AtomicU64::new(0),
            runtime_end_to_end_samples: AtomicU64::new(0),
            runtime_end_to_end_p50_us: AtomicU64::new(0),
            runtime_end_to_end_p95_us: AtomicU64::new(0),
            runtime_end_to_end_p99_us: AtomicU64::new(0),
            runtime_end_to_end_max_us: AtomicU64::new(0),
            runtime_drift_samples: AtomicU64::new(0),
            runtime_drift_avg_ms: AtomicI64::new(0),
            runtime_drift_p50_ms: AtomicI64::new(0),
            runtime_drift_p95_ms: AtomicI64::new(0),
            runtime_drift_p99_ms: AtomicI64::new(0),
            runtime_drift_abs_p99_ms: AtomicU64::new(0),
            runtime_drift_abs_max_ms: AtomicU64::new(0),
            runtime_binance_msg_queue_depth: AtomicU64::new(0),
            runtime_gate_msg_queue_depth: AtomicU64::new(0),
            runtime_signal_backlog_depth: AtomicU64::new(0),
            runtime_control_queue_depth: AtomicU64::new(0),
            runtime_control_dropped_updates: AtomicU64::new(0),
            runtime_execution_queue_depth: AtomicU64::new(0),
            runtime_execution_sent_intents: AtomicU64::new(0),
            runtime_execution_dropped_intents: AtomicU64::new(0),
            runtime_execution_send_timeouts: AtomicU64::new(0),
            runtime_execution_kill_switch_active: AtomicBool::new(false),
            runtime_execution_intent_to_sent_samples: AtomicU64::new(0),
            runtime_execution_intent_to_sent_p50_us: AtomicU64::new(0),
            runtime_execution_intent_to_sent_p95_us: AtomicU64::new(0),
            runtime_execution_intent_to_sent_p99_us: AtomicU64::new(0),
            runtime_execution_intent_to_sent_max_us: AtomicU64::new(0),
            runtime_rm4_last_eval_ms: AtomicI64::new(0),
            runtime_rm4_last_window_breached: AtomicBool::new(false),
            runtime_rm4_breach_streak: AtomicU64::new(0),
            runtime_hft_mode_degraded: AtomicBool::new(false),
            runtime_hft_mode_ever_degraded: AtomicBool::new(false),
            runtime_last_eval_execution_dropped_intents: AtomicU64::new(0),
            runtime_last_eval_execution_send_timeouts: AtomicU64::new(0),
            runtime_last_eval_control_dropped_updates: AtomicU64::new(0),
            trial_last_ack_ms: AtomicI64::new(0),
            trial_last_ack_error: AtomicBool::new(false),
            trial_queue_depth: AtomicU64::new(0),
            trial_queue_quarantined: AtomicU64::new(0),
        }
    }

    /// Reads the counters once into the inputs of the health verdict, with
    /// the clock and the external counters given.
    pub fn snapshot(&self, now_ms: i64, now_ns: i64, external: &ExternalHealthCounters) -> (i: HealthInputs)
        ensures
            i.now_ms == now_ms,
            i.now_ns == now_ns,
            i.binance_dropped_messages == external.binance_dropped_messages,
            i.gate_dropped_messages == external.gate_dropped_messages,
            i.db_dropped_batches == external.db_dropped_batches,
            i.db_overflowed_batches == external.db_overflowed_batches,
            i.db_dropped_batch_budget == external.db_dropped_batch_budget,
            i.db_overflow_warn_threshold == external.db_overflow_warn_threshold,
            i.db_writer_enqueued_seq == external.db_writer_enqueued_seq,
            i.db_writer_observed_seq == external.db_writer_observed_seq,
            i.db_writer_last_progress_ms == external.db_writer_last_progress_ms,
    {
        HealthInputs {
            now_ms,
            now_ns,
            binance_connected: self.binance_connected.load(Ordering::Relaxed),
            gate_connected: self.gate_connected.load(Ordering::Relaxed),
            binance_last_tick_ms: self.binance_last_tick_ms.load(Ordering::Relaxed),
            gate_last_tick_ms: self.gate_last_tick_ms.load(Ordering::Relaxed),
            trial_queue_depth: self.trial_queue_depth.load(Ordering::Relaxed),
            trial_queue_quarantined: self.trial_queue_quarantined.load(Ordering::Relaxed),
            trial_last_ack_ms: self.trial_last_ack_ms.load(Ordering::Relaxed),
            trial_last_ack_error: self.trial_last_ack_error.load(Ordering::Relaxed),
            binance_dropped_messages: external.binance_dropped_messages,
            gate_dropped_messages: external.gate_dropped_messages,
            control_dropped_updates: self.runtime_control_dropped_updates.load(Ordering::Relaxed),
            db_dropped_batches: external.db_dropped_batches,
            db_overflowed_batches: external.db_overflowed_batches,
            db_dropped_batch_budget: external.db_dropped_batch_budget,
            db_overflow_warn_threshold: external.db_overflow_warn_threshold,
            db_writer_enqueued_seq: external.db_writer_enqueued_seq,
            db_writer_observed_seq: external.db_writer_observed_seq,
            db_writer_last_progress_ms: external.db_writer_last_progress_ms,
            execution_sent_intents: self.runtime_execution_sent_intents.load(Ordering::Relaxed),
            execution_dropped_intents: self.runtime_execution_dropped_intents.load(Ordering::Relaxed),
            execution_send_timeouts: self.runtime_execution_send_timeouts.load(Ordering::Relaxed),
            execution_kill_switch_active: self.runtime_execution_kill_switch_active.load(Ordering::Relaxed),
            state_updated_ts_ns: self.runtime_last_state_updated_ts_ns.load(Ordering::Relaxed),
            signal_decided_ts_ns: self.runtime_last_signal_decided_ts_ns.load(Ordering::Relaxed),
            order_intent_enqueued_ts_ns: self.runtime_last_order_intent_enqueued_ts_ns.load(Ordering::Relaxed),
            order_intent_sent_ts_ns: self.runtime_last_order_intent_sent_ts_ns.load(Ordering::Relaxed),
            drift_samples: self.runtime_drift_samples.load(Ordering::Relaxed),
            drift_abs_p99_ms: self.runtime_drift_abs_p99_ms.load(Ordering::Relaxed),
            backlog: RuntimeBacklogDepth {
                binance_msg_queue_depth: self.runtime_binance_msg_queue_depth.load(Ordering::Relaxed),
                gate_msg_queue_depth: self.runtime_gate_msg_queue_depth.load(Ordering::Relaxed),
                signal_backlog_depth: self.runtime_signal_backlog_depth.load(Ordering::Relaxed),
                control_update_queue_depth: self.runtime_control_queue_depth.load(Ordering::Relaxed),
                execution_intent_queue_depth: self.runtime_execution_queue_depth.load(Ordering::Relaxed),
            },
            rm4_last_window_breached: self.runtime_rm4_last_window_breached.load(Ordering::Relaxed),
            hft_mode_degraded: self.runtime_hft_mode_degraded.load(Ordering::Relaxed),
            recv_ws_frame_ts_ns: self.runtime_last_recv_ws_frame_ts_ns.load(Ordering::Relaxed),
            parsed_ts_ns: self.runtime_last_parsed_ts_ns.load(Ordering::Relaxed),
            latency_us: RuntimeLatencySnapshot {
                ingest: RuntimeLatencyStats {
                    samples: self.runtime_ingest_samples.load(Ordering::Relaxed),
                    p50_us: self.runtime_ingest_p50_us.load(Ordering::Relaxed),
                    p95_us: self.runtime_ingest_p95_us.load(Ordering::Relaxed),
                    p99_us: self.runtime_ingest_p99_us.load(Ordering::Relaxed),
                    max_us: self.runtime_ingest_max_us.load(Ordering::Relaxed),
                },
                decision: RuntimeLatencyStats {
                    samples: self.runtime_decision_samples.load(Ordering::Relaxed),
                    p50_us: self.runtime_decision_p50_us.load(Ordering::Relaxed),
                    p95_us: self.runtime_decision_p95_us.load(Ordering::Relaxed),
                    p99_us: self.runtime_decision_p99_us.load(Ordering::Relaxed),
                    max_us: self.runtime_decision_max_us.load(Ordering::Relaxed),
                },
                end_to_end: RuntimeLatencyStats {
                    samples: self.runtime_end_to_end_samples.load(Ordering::Relaxed),
                    p50_us: self.runtime_end_to_end_p50_us.load(Ordering::Relaxed),
                    p95_us: self.runtime_end_to_end_p95_us.load(Ordering::Relaxed),
                    p99_us: self.runtime_end_to_end_p99_us.load(Ordering::Relaxed),
                    max_us: self.runtime_end_to_end_max_us.load(Ordering::Relaxed),
                },
                execution_intent_to_sent: RuntimeLatencyStats {
                    samples: self.runtime_execution_intent_to_sent_samples.load(Ordering::Relaxed),
                    p50_us: self.runtime_execution_intent_to_sent_p50_us.load(Ordering::Relaxed),
                    p95_us: self.runtime_execution_intent_to_sent_p95_us.load(Ordering::Relaxed),
                    p99_us: self.runtime_execution_intent_to_sent_p99_us.load(Ordering::Relaxed),
                    max_us: self.runtime_execution_intent_to_sent_max_us.load(Ordering::Relaxed),
                },
            },
            drift_avg_ms: self.runtime_drift_avg_ms.load(Ordering::Relaxed),
            drift_p50_ms: self.runtime_drift_p50_ms.load(Ordering::Relaxed),
            drift_p95_ms: self.runtime_drift_p95_ms.load(Ordering::Relaxed),
            drift_p99_ms: self.runtime_drift_p99_ms.load(Ordering::Relaxed),
            drift_abs_max_ms: self.runtime_drift_abs_max_ms.load(Ordering::Relaxed),
            rm4_breach_streak: self.runtime_rm4_breach_streak.load(Ordering::Relaxed),
            hft_mode_ever_degraded: self.runtime_hft_mode_ever_degraded.load(Ordering::Relaxed),
        }
    }
}

} // verus!
