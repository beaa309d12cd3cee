use gungho::addr::SocketAddr;
use gungho::backend::{Backend, BackendPool};
use gungho::config::HealthCheckConfig;
use gungho::health::{
    check_result, BackendStatus, CheckOutcome, HealthCheckResult, HealthTracker, HealthTransition,
};

fn addr(port: u16) -> SocketAddr {
    SocketAddr::V4 { ip: u32::from_be_bytes([127, 0, 0, 1]), port }
}

fn thresholds(healthy: u32, unhealthy: u32) -> HealthCheckConfig {
    HealthCheckConfig {
        path: String::from("/health"),
        interval: 1,
        timeout: 3,
        healthy_threshold: healthy,
        unhealthy_threshold: unhealthy,
    }
}

#[test]
fn status_update_counts_runs() {
    let mut s = BackendStatus { consecutive_successes: 0, consecutive_failures: 0 };
    s.update(&HealthCheckResult::Healthy);
    s.update(&HealthCheckResult::Healthy);
    assert_eq!(s, BackendStatus { consecutive_successes: 2, consecutive_failures: 0 });
    s.update(&HealthCheckResult::Unhealthy);
    assert_eq!(s, BackendStatus { consecutive_successes: 0, consecutive_failures: 1 });
}

#[test]
fn test_unhealthy_after_threshold() {
    let mut pool = BackendPool::new(vec![Backend::new(addr(1))]);
    let mut tracker = HealthTracker::new();
    let config = thresholds(1, 1);
    for _ in 0..2 {
        let result = check_result(CheckOutcome::Responded(500));
        tracker.record(&mut pool, &config, addr(1), result);
    }
    assert_eq!(pool.get_health_by_addr(addr(1)), Some(false));
}

#[test]
fn test_backend_recovery() {
    let mut pool = BackendPool::new(vec![Backend::new(addr(1))]);
    let mut tracker = HealthTracker::new();
    let config = thresholds(1, 1);
    for _ in 0..2 {
        let result = check_result(CheckOutcome::Responded(500));
        tracker.record(&mut pool, &config, addr(1), result);
    }
    assert_eq!(pool.get_health_by_addr(addr(1)), Some(false));
    for _ in 0..2 {
        let result = check_result(CheckOutcome::Responded(200));
        tracker.record(&mut pool, &config, addr(1), result);
    }
    assert_eq!(pool.get_health_by_addr(addr(1)), Some(true));
}

#[test]
fn test_unreachable_backend() {
    let mut pool = BackendPool::new(vec![Backend::new(addr(1))]);
    let mut tracker = HealthTracker::new();
    let config = thresholds(1, 1);
    for _ in 0..2 {
        let result = check_result(CheckOutcome::NoResponse);
        tracker.record(&mut pool, &config, addr(1), result);
    }
    assert_eq!(pool.get_health_by_addr(addr(1)), Some(false));
}

#[test]
fn only_200_is_healthy() {
    assert_eq!(check_result(CheckOutcome::Responded(200)), HealthCheckResult::Healthy);
    assert_eq!(check_result(CheckOutcome::Responded(500)), HealthCheckResult::Unhealthy);
    assert_eq!(check_result(CheckOutcome::Responded(204)), HealthCheckResult::Unhealthy);
    assert_eq!(check_result(CheckOutcome::NoResponse), HealthCheckResult::Unhealthy);
}

#[test]
fn test_healthy_backend_stays_healthy() {
    let mut pool = BackendPool::new(vec![Backend::new(addr(1))]);
    let mut tracker = HealthTracker::new();
    let config = thresholds(1, 1);
    for _ in 0..3 {
        let result = check_result(CheckOutcome::Responded(200));
        let t = tracker.record(&mut pool, &config, addr(1), result);
        assert_eq!(t, HealthTransition { became_unhealthy: false, became_healthy: false });
    }
    assert_eq!(pool.get_health_by_addr(addr(1)), Some(true));
}

#[test]
fn unhealthy_only_after_threshold() {
    let mut pool = BackendPool::new(vec![Backend::new(addr(1))]);
    let mut tracker = HealthTracker::new();
    let config = thresholds(3, 3);
    for _ in 0..2 {
        tracker.record(&mut pool, &config, addr(1), HealthCheckResult::Unhealthy);
        assert_eq!(pool.get_health_by_addr(addr(1)), Some(true));
    }
    let t = tracker.record(&mut pool, &config, addr(1), HealthCheckResult::Unhealthy);
    assert!(t.became_unhealthy);
    assert_eq!(pool.get_health_by_addr(addr(1)), Some(false));
    assert!(pool.healthy_backends().is_empty());
    assert_eq!(tracker.status(addr(1)).consecutive_failures, 3);
}

#[test]
fn recovery_after_healthy_threshold() {
    let mut pool = BackendPool::new(vec![Backend::new(addr(1)), Backend::new(addr(2))]);
    let mut tracker = HealthTracker::new();
    let config = thresholds(2, 1);
    tracker.record(&mut pool, &config, addr(2), HealthCheckResult::Unhealthy);
    assert_eq!(pool.get_health_by_addr(addr(2)), Some(false));
    let t = tracker.record(&mut pool, &config, addr(2), HealthCheckResult::Healthy);
    assert!(!t.became_healthy);
    assert_eq!(pool.get_health_by_addr(addr(2)), Some(false));
    let t = tracker.record(&mut pool, &config, addr(2), HealthCheckResult::Healthy);
    assert!(t.became_healthy);
    assert_eq!(pool.get_health_by_addr(addr(2)), Some(true));
    assert_eq!(pool.get_health_by_addr(addr(1)), Some(true));
}

#[test]
fn failure_breaks_a_run_of_successes() {
    let mut pool = BackendPool::new(vec![Backend::new(addr(1))]);
    pool.mark_unhealthy(0);
    let mut tracker = HealthTracker::new();
    let config = thresholds(2, 5);
    tracker.record(&mut pool, &config, addr(1), HealthCheckResult::Healthy);
    tracker.record(&mut pool, &config, addr(1), HealthCheckResult::Unhealthy);
    tracker.record(&mut pool, &config, addr(1), HealthCheckResult::Healthy);
    assert_eq!(pool.get_health_by_addr(addr(1)), Some(false));
    tracker.record(&mut pool, &config, addr(1), HealthCheckResult::Healthy);
    assert_eq!(pool.get_health_by_addr(addr(1)), Some(true));
}

#[test]
fn unknown_address_changes_no_backend() {
    let mut pool = BackendPool::new(vec![Backend::new(addr(1))]);
    let mut tracker = HealthTracker::new();
    let t = tracker.record(&mut pool, &thresholds(1, 1), addr(9), HealthCheckResult::Unhealthy);
    assert_eq!(t, HealthTransition { became_unhealthy: false, became_healthy: false });
    assert_eq!(pool.get_health_by_addr(addr(1)), Some(true));
    assert_eq!(tracker.status(addr(9)).consecutive_failures, 1);
}

#[test]
fn zero_thresholds_mark_down_then_up() {
    let mut pool = BackendPool::new(vec![Backend::new(addr(1))]);
    let mut tracker = HealthTracker::new();
    let t = tracker.record(&mut pool, &thresholds(0, 0), addr(1), HealthCheckResult::Healthy);
    assert_eq!(t, HealthTransition { became_unhealthy: true, became_healthy: true });
    assert_eq!(pool.get_health_by_addr(addr(1)), Some(true));
}
