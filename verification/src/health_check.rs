//! The simple health checker: exchange connectivity and a heartbeat, with
//! the clock (monotonic milliseconds) supplied by the caller.

use vstd::prelude::*;
use crate::arith::{clamp_i64, sat_sub_i64};

verus! {

/// A heartbeat older than this (ms) makes the checker unhealthy.
pub const HEARTBEAT_TIMEOUT_MS: i64 = 60_000;

/// One named check with its verdict and message.
#[derive(Debug, Clone, PartialEq, Eq)]
pub struct HealthCheck {
    pub name: String,
    pub is_healthy: bool,
    pub message: Option<String>,
}

/// Overall verdict and the individual checks.
#[derive(Debug, Clone, PartialEq, Eq)]
pub struct HealthStatus {
    pub is_healthy: bool,
    pub status: String,
    pub checks: Vec<HealthCheck>,
}

/// Connectivity flags and the time of the last heartbeat.
#[derive(Debug, Clone, Copy, PartialEq, Eq)]
pub struct HealthChecker {
    pub start_ms: i64,
    pub binance_connected: bool,
    pub gate_connected: bool,
    pub last_heartbeat_ms: Option<i64>,
}

/// The heartbeat is fresh when there was one less than
/// [`HEARTBEAT_TIMEOUT_MS`] ago.
pub open spec fn heartbeat_fresh(last_heartbeat_ms: Option<i64>, now_ms: i64) -> bool {
    match last_heartbeat_ms {
        Some(h) => clamp_i64(now_ms - h) < HEARTBEAT_TIMEOUT_MS,
        None => false,
    }
}

/// View of a check: name, verdict, message.
pub open spec fn check_view(c: HealthCheck) -> (Seq<char>, bool, Option<Seq<char>>) {
    (c.name@, c.is_healthy, match c.message { Some(m) => Some(m@), None => None })
}

fn check(name: &str, healthy: bool, ok_message: &str, bad_message: &str) -> (c: HealthCheck)
    ensures
        check_view(c) == (name@, healthy, Some(if healthy { ok_message@ } else { bad_message@ })),
{
    HealthCheck {
        name: name.to_owned(),
        is_healthy: healthy,
        message: Some(if healthy { ok_message.to_owned() } else { bad_message.to_owned() }),
    }
}

impl HealthChecker {
    /// A checker started at `now_ms`: both exchanges disconnected, no heartbeat.
    pub fn new(now_ms: i64) -> (c: Self)
        ensures
            c == (HealthChecker { start_ms: now_ms, binance_connected: false, gate_connected: false, last_heartbeat_ms: None }),
    {
        HealthChecker { start_ms: now_ms, binance_connected: false, gate_connected: false, last_heartbeat_ms: None }
    }

    /// Time since the start (ms), saturating.
    pub fn uptime_ms(&self, now_ms: i64) -> (r: i64)
        ensures
            r == clamp_i64(now_ms - self.start_ms),
    {
        sat_sub_i64(now_ms, self.start_ms)
    }

    pub fn set_binance_connected(&mut self, connected: bool)
        ensures
            *final(self) == (HealthChecker { binance_connected: connected, ..*old(self) }),
    {
        self.binance_connected = connected;
    }

    pub fn set_gate_connected(&mut self, connected: bool)
        ensures
            *final(self) == (HealthChecker { gate_connected: connected, ..*old(self) }),
    {
        self.gate_connected = connected;
    }

    /// Records a heartbeat at `now_ms`.
    pub fn heartbeat(&mut self, now_ms: i64)
        ensures
            *final(self) == (HealthChecker { last_heartbeat_ms: Some(now_ms), ..*old(self) }),
    {
        self.last_heartbeat_ms = Some(now_ms);
    }

    /// The verdict at `now_ms`: healthy when both exchanges are connected and
    /// the heartbeat is fresh (see [`heartbeat_fresh`]); the checks come in
    /// the order Binance connection, Gate connection, heartbeat.
    pub fn get_status(&self, now_ms: i64) -> (s: HealthStatus)
        ensures
            ({
                let hb = heartbeat_fresh(self.last_heartbeat_ms, now_ms);
                &&& s.is_healthy == (self.binance_connected && self.gate_connected && hb)
                &&& s.status@ == (if s.is_healthy { "healthy"@ } else { "unhealthy"@ })
                &&& s.checks@.len() == 3
                &&& check_view(s.checks@[0]) == ("binance_connection"@, self.binance_connected,
                        Some(if self.binance_connected { "Connected"@ } else { "Disconnected"@ }))
                &&& check_view(s.checks@[1]) == ("gate_connection"@, self.gate_connected,
                        Some(if self.gate_connected { "Connected"@ } else { "Disconnected"@ }))
                &&& check_view(s.checks@[2]) == ("heartbeat"@, hb,
                        Some(if hb { "OK"@ } else { "No recent heartbeat"@ }))
            }),
    {
        let heartbeat_healthy: bool = match self.last_heartbeat_ms {
            Some(h) => sat_sub_i64(now_ms, h) < HEARTBEAT_TIMEOUT_MS,
            None => false,
        };
        let mut checks: Vec<HealthCheck> = Vec::new();
        checks.push(check("binance_connection", self.binance_connected, "Connected", "Disconnected"));
        checks.push(check("gate_connection", self.gate_connected, "Connected", "Disconnected"));
        checks.push(check("heartbeat", heartbeat_healthy, "OK", "No recent heartbeat"));
        let is_healthy = self.binance_connected && self.gate_connected && heartbeat_healthy;
        HealthStatus {
            is_healthy,
            status: if is_healthy { "healthy".to_owned() } else { "unhealthy".to_owned() },
            checks,
        }
    }
}

} // verus!
