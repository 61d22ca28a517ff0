use guardian::config::{RecoveryConfig, RecoveryScenario};
use guardian::health::{HealthCheckResult, HealthStatus, LevelResult};
use guardian::recovery::{RecoveryAction, RecoveryEngine};

fn scenario(
    name: &str,
    trigger: &str,
    action: &str,
    backup_path: Option<&str>,
    follow_up: Option<&str>,
    cascade: bool,
) -> RecoveryScenario {
    RecoveryScenario {
        name: String::from(name),
        trigger: String::from(trigger),
        action: String::from(action),
        backup_path: backup_path.map(String::from),
        follow_up: follow_up.map(String::from),
        cascade,
        grace_period: 30,
        max_backoff: None,
        notify: !matches!(action, "log_warning"),
    }
}

fn default_config() -> RecoveryConfig {
    RecoveryConfig {
        max_restarts: 5,
        restart_window: 300,
        backoff_strategy: String::from("exponential"),
        initial_backoff: 1,
        max_backoff: 60,
        give_up_action: String::from("notify"),
        scenarios: vec![
            scenario(
                "invalid_json",
                "config_validation_failed",
                "restore_backup",
                Some("/tmp/backup.json"),
                Some("restart"),
                false,
            ),
            scenario("process_crash", "exit_code != 0", "restart_with_dependencies", None, None, true),
            scenario("unresponsive", "log_activity_timeout", "graceful_restart", None, None, false),
            scenario("memory_leak", "memory > max_memory_mb", "graceful_restart", None, None, true),
            scenario(
                "llm_error",
                "log_pattern = 'LLM.*error|API.*failed'",
                "log_warning",
                None,
                None,
                false,
            ),
        ],
    }
}

fn verdict(status: HealthStatus, level_results: Vec<LevelResult>) -> HealthCheckResult {
    HealthCheckResult {
        process_name: String::from("test"),
        status,
        level_results,
        checked_at: 0,
    }
}

fn level(level: u8, name: &str, passed: bool, message: &str) -> LevelResult {
    LevelResult {
        level,
        name: String::from(name),
        passed,
        message: String::from(message),
    }
}

#[test]
fn test_healthy_returns_none() {
    let mut engine = RecoveryEngine::new(default_config());
    let result = verdict(HealthStatus::Healthy, vec![]);
    assert!(engine.evaluate("test", &result, 0, 0).is_none());
}

#[test]
fn test_max_restarts_gives_up() {
    let mut engine = RecoveryEngine::new(default_config());
    let result = verdict(HealthStatus::Unhealthy(String::from("Process dead")), vec![]);
    let action = engine.evaluate("test", &result, 5, 0);
    match action {
        Some(RecoveryAction::Notify { .. }) => {}
        other => panic!("Expected Notify, got {:?}", other),
    }
}

#[test]
fn test_process_crash_scenario() {
    let mut engine = RecoveryEngine::new(default_config());
    let result = verdict(
        HealthStatus::Unhealthy(String::from("PID not found")),
        vec![level(1, "Process Alive", false, "PID not found")],
    );
    let action = engine.evaluate("test", &result, 0, 0);
    assert_eq!(action, Some(RecoveryAction::RestartWithDependencies));
}

#[test]
fn test_config_validation_scenario() {
    let mut engine = RecoveryEngine::new(default_config());
    let result = verdict(
        HealthStatus::Unhealthy(String::from("Invalid JSON")),
        vec![level(3, "Config Validation", false, "Invalid JSON: unexpected token")],
    );
    let action = engine.evaluate("test", &result, 0, 0);
    match action {
        Some(RecoveryAction::RestoreBackup { .. }) => {}
        other => panic!("Expected RestoreBackup, got {:?}", other),
    }
}

#[test]
fn test_log_stale_scenario() {
    let mut engine = RecoveryEngine::new(default_config());
    let result = verdict(
        HealthStatus::Degraded(String::from("Log stale")),
        vec![level(
            2,
            "Log Activity",
            false,
            "Log stale: last updated 600s ago (timeout: 300s)",
        )],
    );
    let action = engine.evaluate("test", &result, 0, 0);
    match action {
        Some(RecoveryAction::GracefulRestart { grace_period: 30 }) => {}
        other => panic!("Expected GracefulRestart(30), got {:?}", other),
    }
}

#[test]
fn test_memory_leak_scenario() {
    let mut engine = RecoveryEngine::new(default_config());
    let result = verdict(
        HealthStatus::Unhealthy(String::from("Memory high")),
        vec![level(
            4,
            "Resource Usage",
            false,
            "Memory: 3000MB/2048MB, CPU: 50.0%/90.0%",
        )],
    );
    let action = engine.evaluate("test", &result, 0, 0);
    match action {
        Some(RecoveryAction::GracefulRestart { .. }) => {}
        other => panic!("Expected GracefulRestart, got {:?}", other),
    }
}

#[test]
fn test_log_pattern_scenario_matches_message() {
    let mut engine = RecoveryEngine::new(default_config());
    let result = verdict(
        HealthStatus::Degraded(String::from("LLM request error near line 3")),
        vec![level(2, "Log Activity", false, "LLM request error near line 3")],
    );
    let action = engine.evaluate("test", &result, 0, 0);
    assert_eq!(action, Some(RecoveryAction::LogWarning));
}

#[test]
fn test_backoff_increases() {
    let mut engine = RecoveryEngine::new(default_config());
    engine.apply_backoff("test", 60, 0);
    let delay1 = engine.get_backoff_delay("test");
    engine.apply_backoff("test", 60, 0);
    let delay2 = engine.get_backoff_delay("test");
    assert!(delay2 > delay1);
}

#[test]
fn test_backoff_caps_at_max() {
    let mut engine = RecoveryEngine::new(default_config());
    for _ in 0..20 {
        engine.apply_backoff("test", 60, 0);
    }
    let delay = engine.get_backoff_delay("test");
    assert!(delay <= 60);
}

#[test]
fn test_backoff_first_application_doubles() {
    let mut engine = RecoveryEngine::new(default_config());
    engine.apply_backoff("test", 60, 0);
    assert_eq!(engine.get_backoff_delay("test"), 2);
}

#[test]
fn test_recovery_stats_tracking() {
    let mut engine = RecoveryEngine::new(default_config());
    let result = verdict(
        HealthStatus::Unhealthy(String::from("PID not found")),
        vec![level(1, "Process Alive", false, "PID not found")],
    );
    engine.evaluate("test", &result, 0, 0);
    engine.evaluate("test", &result, 1, 0);
    assert_eq!(engine.stats().total_recoveries, 2);
    assert_eq!(engine.stats().by_scenario.get("process_crash"), Some(&2));
}

#[test]
fn test_recovery_action_display() {
    assert_eq!(RecoveryAction::Restart.label().as_str(), "restart");
    assert_eq!(
        RecoveryAction::GracefulRestart { grace_period: 30 }.label().as_str(),
        "graceful_restart(30s)"
    );
    assert_eq!(
        RecoveryAction::ExponentialBackoff { max_backoff: 60 }.label().as_str(),
        "exponential_backoff(max=60s)"
    );
}

#[test]
fn test_give_up_shutdown_all() {
    let mut config = default_config();
    config.give_up_action = String::from("shutdown_all");
    let engine = RecoveryEngine::new(config);
    let action = engine.get_give_up_action("test", "fatal");
    assert_eq!(action, RecoveryAction::GiveUp);
}

#[test]
fn test_give_up_keep_trying() {
    let mut config = default_config();
    config.give_up_action = String::from("keep_trying");
    let engine = RecoveryEngine::new(config);
    let action = engine.get_give_up_action("test", "fatal");
    assert_eq!(action, RecoveryAction::Restart);
}

#[test]
fn test_give_up_notify_counts_as_failed_recovery() {
    let mut engine = RecoveryEngine::new(default_config());
    let result = verdict(HealthStatus::Unhealthy(String::from("Process dead")), vec![]);
    let action = engine.evaluate("test", &result, 5, 0).unwrap();
    assert!(matches!(action, RecoveryAction::Notify { .. }));
    engine.record_execution(&action, "test", "Recovery action completed", String::from("t0"), true);
    assert_eq!(engine.stats().failed, 1);
    assert_eq!(engine.stats().successful, 0);
    assert_eq!(engine.stats().events.len(), 1);
    let event = &engine.stats().events[0];
    assert_eq!(event.process_name.as_str(), "test");
    assert_eq!(event.scenario.as_str(), "give_up");
    assert_eq!(event.action.as_str(), "notify");
    assert!(event.success);
}

#[test]
fn test_backoff_attempt_count_advances() {
    let mut engine = RecoveryEngine::new(default_config());
    engine.apply_backoff("test", 60, 7);
    engine.apply_backoff("test", 60, 9);
    let state = engine.backoff_state.get("test").unwrap();
    assert_eq!(state.attempt_count, 2);
    assert_eq!(state.last_attempt, 9);
    assert_eq!(state.current_delay, 4);
}
