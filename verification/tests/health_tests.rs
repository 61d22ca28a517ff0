use guardian::backup::BackupManager;
use guardian::health::{
    aggregate_status, endpoint_addr, HealthChecker, HealthStatus, HttpOutcome, LevelResult,
    ResourceHistory,
};

fn level(level: u8, name: &str, passed: bool, message: &str) -> LevelResult {
    LevelResult {
        level,
        name: String::from(name),
        passed,
        message: String::from(message),
    }
}

#[test]
fn test_health_status_display() {
    assert_eq!(HealthStatus::Healthy.label().as_str(), "Healthy");
    assert_eq!(
        HealthStatus::Degraded(String::from("test")).label().as_str(),
        "Degraded: test"
    );
    assert_eq!(
        HealthStatus::Unhealthy(String::from("critical")).label().as_str(),
        "Unhealthy: critical"
    );
}

#[test]
fn test_aggregate_all_passed() {
    let results = vec![level(1, "Test", true, "OK"), level(2, "Test2", true, "OK")];
    assert_eq!(aggregate_status(&results), HealthStatus::Healthy);
}

#[test]
fn test_aggregate_critical_failure() {
    let results = vec![level(1, "Process Alive", false, "PID not found")];
    match aggregate_status(&results) {
        HealthStatus::Unhealthy(_) => {}
        other => panic!("Expected Unhealthy, got {:?}", other),
    }
}

#[test]
fn test_aggregate_degraded() {
    let results = vec![
        level(1, "Process Alive", true, "OK"),
        level(2, "Log Activity", false, "Log stale"),
    ];
    match aggregate_status(&results) {
        HealthStatus::Degraded(_) => {}
        other => panic!("Expected Degraded, got {:?}", other),
    }
}

#[test]
fn test_aggregate_empty_is_unknown() {
    assert_eq!(aggregate_status(&vec![]), HealthStatus::Unknown);
}

#[test]
fn test_aggregate_multi_failure_is_unhealthy() {
    let results = vec![
        level(2, "Log", false, "stale"),
        level(4, "Resources", false, "memory high"),
    ];
    match aggregate_status(&results) {
        HealthStatus::Unhealthy(msg) => {
            assert!(msg.contains("stale"));
            assert!(msg.contains("memory high"));
        }
        other => panic!("Expected Unhealthy, got {:?}", other),
    }
}

#[test]
fn test_backup_create_and_restore() {
    let mut bm = BackupManager::new(String::from("test.json"));

    bm.file = Some(String::from("{\"key\": \"value1\"}"));
    let backup = bm.create_backup().unwrap();
    assert_eq!(backup.as_str(), "test.json.backup.1");

    bm.file = Some(String::from("{\"key\": \"value2\"}"));
    bm.create_backup().unwrap();

    let backups = bm.list_backups();
    assert_eq!(backups.len(), 2);

    bm.restore_latest().unwrap();
    assert_eq!(bm.file, Some(String::from("{\"key\": \"value2\"}")));
}

#[test]
fn test_backup_max_generations() {
    let mut bm = BackupManager::new(String::from("test.json"));
    for i in 0..6 {
        bm.file = Some(format!("{{\"v\":{}}}", i));
        bm.create_backup().unwrap();
    }
    let backups = bm.list_backups();
    assert!(backups.len() <= 5);
}

#[test]
fn test_backup_round_trip_keeps_content() {
    let mut bm = BackupManager::new(String::from("config.json"));
    for v in ["v0", "v1", "v2", "v3", "v4", "v5"] {
        bm.file = Some(String::from(v));
        bm.create_backup().unwrap();
    }
    assert!(bm.list_backups().len() <= 5);
    bm.file = None;
    bm.restore_latest().unwrap();
    assert_eq!(bm.file, Some(String::from("v5")));
}

#[test]
fn test_resource_history_sustained() {
    let mut history = ResourceHistory::new(10);
    for _ in 0..5 {
        history.add_sample(3000, 950, 0);
    }
    let (mem_exceeded, cpu_exceeded) = history.is_sustained_over(2048, 900, 0, 0);
    assert!(mem_exceeded);
    assert!(cpu_exceeded);
}

#[test]
fn test_resource_history_not_sustained() {
    let mut history = ResourceHistory::new(10);
    history.add_sample(1000, 500, 0);
    history.add_sample(3000, 950, 0);
    history.add_sample(1000, 500, 0);
    let (mem_exceeded, _) = history.is_sustained_over(2048, 900, 0, 0);
    assert!(!mem_exceeded);
}

#[test]
fn test_resource_history_max_samples() {
    let mut history = ResourceHistory::new(3);
    for i in 0..5u64 {
        history.add_sample(i * 100, (i * 100) as u32, 0);
    }
    assert_eq!(history.samples.len(), 3);
}

#[test]
fn test_memory_at_limit_is_not_sustained() {
    let mut history = ResourceHistory::new(10);
    history.add_sample(2048, 100, 0);
    history.add_sample(2048, 100, 0);
    let (mem_exceeded, _) = history.is_sustained_over(2048, 900, 0, 0);
    assert!(!mem_exceeded);
}

#[test]
fn test_log_pattern_detection() {
    let mut checker = HealthChecker::new();

    // First scan seeds the read offset.
    let seed = "INFO: starting up\n";
    let result = checker.scan_log_for_patterns("test", seed, "ERROR|FATAL");
    assert!(result.is_none());

    // New content past the seeded offset is scanned.
    let grown = format!(
        "{}{}",
        seed, "ERROR: something went wrong\nINFO: continuing\nFATAL: critical failure\n"
    );
    let result = checker.scan_log_for_patterns("test", &grown, "ERROR|FATAL");
    assert!(result.is_some());
    let msg = result.unwrap();
    assert!(msg.contains("2 errors found"));
}

#[test]
fn test_log_pattern_exact_message() {
    let mut checker = HealthChecker::new();
    let seed = "INFO: start\n";
    assert!(checker.scan_log_for_patterns("p", seed, "ERROR|FATAL").is_none());
    let grown = format!("{}{}", seed, "ERROR: boom\nINFO: ok\nFATAL: die\n");
    let msg = checker.scan_log_for_patterns("p", &grown, "ERROR|FATAL").unwrap();
    assert_eq!(msg.as_str(), "2 errors found, latest: FATAL: die");
}

#[test]
fn test_http_failure_tracking() {
    let mut checker = HealthChecker::new();
    checker
        .http_consecutive_failures
        .insert(String::from("test"), 3);
    assert_eq!(checker.http_consecutive_failures.get("test"), Some(&3));
    checker.http_consecutive_failures.remove_key("test");
    assert!(!checker.http_consecutive_failures.contains_key("test"));
}

#[test]
fn test_http_success_clears_counter() {
    let mut checker = HealthChecker::new();
    checker
        .http_consecutive_failures
        .insert(String::from("web"), 7);
    let r = checker.apply_http_outcome("web", "http://localhost:8080", &HttpOutcome::Reachable);
    assert!(r.passed);
    assert!(!checker.http_consecutive_failures.contains_key("web"));
}

#[test]
fn test_http_failure_message_counts() {
    let mut checker = HealthChecker::new();
    let out = HttpOutcome::Unreachable(String::from("connection refused"));
    let r1 = checker.apply_http_outcome("web", "http://localhost:1", &out);
    assert!(!r1.passed);
    assert!(r1.message.contains("consecutive failures: 1"));
    let r2 = checker.apply_http_outcome("web", "http://localhost:1", &out);
    assert!(r2.message.contains("consecutive failures: 2"));
}

#[test]
fn test_endpoint_addr_strips_scheme_and_path() {
    assert_eq!(endpoint_addr("http://localhost:8080/health").as_str(), "localhost:8080");
    assert_eq!(endpoint_addr("https://example.com:443").as_str(), "example.com:443");
    assert_eq!(endpoint_addr("host:9").as_str(), "host:9");
}
