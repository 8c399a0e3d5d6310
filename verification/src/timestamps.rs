//! Timestamp normalisation and websocket drift arithmetic.

use vstd::prelude::*;
use crate::arith::{clamp_i64, sat_sub_i64};

verus! {

/// Drifts whose magnitude exceeds this bound (in ms) are treated as outliers.
pub const MAX_DRIFT_ABS_MS: i64 = 30_000;

/// Interpretation of a raw exchange timestamp by magnitude: seconds,
/// milliseconds, microseconds or nanoseconds, converted to milliseconds.
pub open spec fn spec_normalize_exchange_ts_ms(raw: int) -> Option<int> {
    if raw <= 0 {
        None
    } else if raw >= 1_000_000_000_000_000_000 {
        Some(raw / 1_000_000)
    } else if raw >= 1_000_000_000_000_000 {
        Some(raw / 1_000)
    } else if raw >= 1_000_000_000_000 {
        Some(raw)
    } else if raw >= 1_000_000_000 {
        if raw * 1_000 <= i64::MAX {
            Some(raw * 1_000)
        } else {
            None
        }
    } else {
        None
    }
}

/// Normalises a raw exchange timestamp (sec, ms, us or ns) to milliseconds.
pub fn normalize_exchange_ts_ms(raw_ts_ns: i64) -> (res: Option<i64>)
    ensures
        match spec_normalize_exchange_ts_ms(raw_ts_ns as int) {
            Some(v) => res == Some(v as i64),
            None => res is None,
        },
{
    if raw_ts_ns <= 0 {
        return None;
    }
    if raw_ts_ns >= 1_000_000_000_000_000_000 {
        return Some(raw_ts_ns / 1_000_000);
    }
    if raw_ts_ns >= 1_000_000_000_000_000 {
        return Some(raw_ts_ns / 1_000);
    }
    if raw_ts_ns >= 1_000_000_000_000 {
        return Some(raw_ts_ns);
    }
    if raw_ts_ns >= 1_000_000_000 {
        return raw_ts_ns.checked_mul(1_000);
    }
    None
}

} // verus!

verus! {

/// Drift between a local timestamp and an exchange timestamp (ms), kept only
/// when its magnitude stays within [`MAX_DRIFT_ABS_MS`].
pub open spec fn spec_drift_ms(local_ts_ms: int, exchange_ts_ms: int) -> Option<int> {
    let d = clamp_i64(local_ts_ms - exchange_ts_ms);
    if -MAX_DRIFT_ABS_MS <= d <= MAX_DRIFT_ABS_MS {
        Some(d)
    } else {
        None
    }
}

/// Saturating drift `local - exchange` in ms, or `None` for outliers.
pub fn compute_drift_ms(local_ts_ms: i64, exchange_ts_ms: i64) -> (res: Option<i64>)
    ensures
        match spec_drift_ms(local_ts_ms as int, exchange_ts_ms as int) {
            Some(d) => res == Some(d as i64),
            None => res is None,
        },
{
    let drift = sat_sub_i64(local_ts_ms, exchange_ts_ms);
    if -MAX_DRIFT_ABS_MS <= drift && drift <= MAX_DRIFT_ABS_MS {
        Some(drift)
    } else {
        None
    }
}

/// Explicit time-domain representation of one quote:
/// exchange event time, local ingress time and local decision time (all ms).
#[derive(Debug, Clone, Copy, PartialEq, Eq)]
pub struct TimeDomainSample {
    pub exchange_event_ts_ms: i64,
    pub ingress_ts_ms: i64,
    pub decision_ts_ms: i64,
}

/// Normalised timestamp, falling back to `fallback` when the raw value is invalid.
pub open spec fn normalized_or(raw: int, fallback: int) -> int {
    match spec_normalize_exchange_ts_ms(raw) {
        Some(v) => v,
        None => fallback,
    }
}

impl TimeDomainSample {
    /// Builds a sample from raw exchange / local-receive timestamps; invalid raw
    /// values fall back to the decision time.
    pub fn from_raw(raw_exchange_ts_ns: i64, raw_local_receive_ts_ns: i64, decision_ts_ms: i64) -> (s: Self)
        ensures
            s.exchange_event_ts_ms == normalized_or(raw_exchange_ts_ns as int, decision_ts_ms as int),
            s.ingress_ts_ms == normalized_or(raw_local_receive_ts_ns as int, decision_ts_ms as int),
            s.decision_ts_ms == decision_ts_ms,
    {
        let exchange_event_ts_ms = match normalize_exchange_ts_ms(raw_exchange_ts_ns) {
            Some(v) => v,
            None => decision_ts_ms,
        };
        let ingress_ts_ms = match normalize_exchange_ts_ms(raw_local_receive_ts_ns) {
            Some(v) => v,
            None => decision_ts_ms,
        };
        TimeDomainSample { exchange_event_ts_ms, ingress_ts_ms, decision_ts_ms }
    }

    /// Drift of the decision time against the exchange event time (ms).
    pub fn decision_ws_drift_ms(&self) -> (res: Option<i64>)
        ensures
            match spec_drift_ms(self.decision_ts_ms as int, self.exchange_event_ts_ms as int) {
                Some(d) => res == Some(d as i64),
                None => res is None,
            },
    {
        compute_drift_ms(self.decision_ts_ms, self.exchange_event_ts_ms)
    }

    /// Drift of the ingress time against the exchange event time (ms).
    pub fn ingress_ws_drift_ms(&self) -> (res: Option<i64>)
        ensures
            match spec_drift_ms(self.ingress_ts_ms as int, self.exchange_event_ts_ms as int) {
                Some(d) => res == Some(d as i64),
                None => res is None,
            },
    {
        compute_drift_ms(self.ingress_ts_ms, self.exchange_event_ts_ms)
    }
}

/// Drift of a local timestamp against a raw exchange timestamp; `None` when the
/// raw timestamp is invalid or the drift is an outlier.
pub fn calculate_ws_drift_ms(local_ts_ms: i64, raw_exchange_ts_ns: i64) -> (res: Option<i64>)
    ensures
        match spec_normalize_exchange_ts_ms(raw_exchange_ts_ns as int) {
            None => res is None,
            Some(e) => match spec_drift_ms(local_ts_ms as int, e) {
                Some(d) => res == Some(d as i64),
                None => res is None,
            },
        },
{
    match normalize_exchange_ts_ms(raw_exchange_ts_ns) {
        None => None,
        Some(exchange_ts_ms) => compute_drift_ms(local_ts_ms, exchange_ts_ms),
    }
}

/// Age in whole ms of a pipeline stage timestamp (ns), or `None` when the
/// stage has never been reached or lies in the future.
pub open spec fn spec_stage_age(now_ns: i64, ts_ns: i64) -> Option<i64> {
    if ts_ns <= 0 || now_ns <= ts_ns { None } else { Some(((now_ns - ts_ns) / 1_000_000) as i64) }
}

/// Age in ms of a pipeline stage timestamp (see [`spec_stage_age`]).
pub fn stage_age_ms_from_ns(now_ns: i64, ts_ns: i64) -> (res: Option<i64>)
    ensures
        res == spec_stage_age(now_ns, ts_ns),
{
    if ts_ns <= 0 || now_ns <= ts_ns {
        return None;
    }
    Some((now_ns - ts_ns) / 1_000_000)
}

} // verus!
