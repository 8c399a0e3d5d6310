use hft_lead_lag::health_check::{HealthChecker, HEARTBEAT_TIMEOUT_MS};

#[test]
fn test_health_status() {
    let mut checker = HealthChecker::new(0);
    checker.set_binance_connected(true);
    checker.set_gate_connected(true);
    checker.heartbeat(0);

    let status = checker.get_status(0);
    assert!(status.is_healthy);
    assert_eq!(status.status, "healthy");
}

#[test]
fn health_checker_reports_each_failing_check() {
    let mut checker = HealthChecker::new(1_000);
    let status = checker.get_status(1_000);
    assert!(!status.is_healthy);
    assert_eq!(status.status, "unhealthy");
    let names: Vec<&str> = status.checks.iter().map(|c| c.name.as_str()).collect();
    assert_eq!(names, vec!["binance_connection", "gate_connection", "heartbeat"]);
    assert_eq!(status.checks[0].message.as_deref(), Some("Disconnected"));
    assert_eq!(status.checks[2].message.as_deref(), Some("No recent heartbeat"));

    checker.set_binance_connected(true);
    checker.set_gate_connected(true);
    checker.heartbeat(2_000);
    assert!(checker.get_status(2_000 + HEARTBEAT_TIMEOUT_MS - 1).is_healthy);
    let stale = checker.get_status(2_000 + HEARTBEAT_TIMEOUT_MS);
    assert!(!stale.is_healthy);
    assert_eq!(stale.checks[0].message.as_deref(), Some("Connected"));
    assert!(!stale.checks[2].is_healthy);
    assert_eq!(checker.uptime_ms(5_000), 4_000);
}
