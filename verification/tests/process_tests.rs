use guardian::config::ProcessConfig;
use guardian::process::{ManagedProcess, ProcessManager, ProcessState};
use guardian::supervisor::{supervisor_decision, synthetic_failure_verdict, TickStep};

fn record(name: &str) -> ManagedProcess {
    ManagedProcess::new(
        String::from(name),
        ProcessConfig::new(String::from(name), String::from("echo")),
    )
}

#[test]
fn test_new_record_is_stopped() {
    let p = record("a");
    assert_eq!(p.state, ProcessState::Stopped);
    assert_eq!(p.pid, None);
    assert!(!p.has_child);
    assert_eq!(p.restart_count, 0);
}

#[test]
fn test_start_then_stop_restores_record() {
    let mut p = record("a");
    p.begin_start();
    p.mark_running(4242, 100);
    assert_eq!(p.state, ProcessState::Running);
    assert_eq!(p.pid, Some(4242));
    p.begin_stop();
    p.mark_stopped(Some(0), true);
    assert_eq!(p.state, ProcessState::Stopped);
    assert_eq!(p.pid, None);
    assert!(!p.has_child);
    assert_eq!(p.restart_count, 0);
    assert_eq!(p.restart_timestamps.len(), 0);
}

#[test]
fn test_restart_bookkeeping() {
    let mut p = record("a");
    p.note_restart(10);
    p.note_restart(20);
    assert_eq!(p.restart_count, 2);
    assert_eq!(p.recent_restart_count(15, 30), 1);
    assert_eq!(p.recent_restart_count(100, 30), 2);
}

#[test]
fn test_uptime_display_formats() {
    let mut p = record("a");
    assert_eq!(p.uptime_display(0).as_str(), "-");
    p.started_at = Some(0);
    assert_eq!(p.uptime_display(5).as_str(), "5s");
    assert_eq!(p.uptime_display(125).as_str(), "2m 5s");
    assert_eq!(p.uptime_display(3725).as_str(), "1h 2m 5s");
}

#[test]
fn test_state_labels() {
    assert_eq!(ProcessState::Running.label().as_str(), "online");
    assert_eq!(ProcessState::Stopped.label().as_str(), "stopped");
    assert_eq!(ProcessState::Failed.label().as_str(), "failed");
}

#[test]
fn test_supervisor_decisions() {
    assert_eq!(supervisor_decision(&ProcessState::Failed, true), TickStep::RecoverFailed);
    assert_eq!(supervisor_decision(&ProcessState::Failed, false), TickStep::Skip);
    assert_eq!(supervisor_decision(&ProcessState::Running, true), TickStep::Probe);
    assert_eq!(supervisor_decision(&ProcessState::Stopped, true), TickStep::Skip);
}

#[test]
fn test_synthetic_failure_verdict_shape() {
    let v = synthetic_failure_verdict("worker", 7);
    assert_eq!(v.process_name.as_str(), "worker");
    assert_eq!(v.checked_at, 7);
    assert_eq!(v.level_results.len(), 1);
    assert_eq!(v.level_results[0].level, 1);
    assert!(!v.level_results[0].passed);
    assert_eq!(v.level_results[0].message.as_str(), "Process in Failed state");
}

#[test]
fn test_get_status_lists_every_record_sorted() {
    let config = guardian::config::GuardianConfig {
        processes: vec![
            ProcessConfig::new(String::from("zeta"), String::from("echo")),
            ProcessConfig::new(String::from("alpha"), String::from("echo")),
            ProcessConfig::new(String::from("mid"), String::from("echo")),
        ],
        recovery: guardian::config::RecoveryConfig::default(),
        logging: guardian::config::LoggingConfig::default(),
        memory: guardian::config::MemoryConfig::default(),
        notifications: guardian::config::NotificationConfig::default(),
        macos: guardian::config::MacOsConfig::default(),
        advanced: guardian::config::AdvancedConfig::default(),
    };
    let manager = ProcessManager::new(config);
    let rows = manager.get_status(0);
    assert_eq!(rows.len(), 3);
    let names: Vec<&str> = rows.iter().map(|r| r.name.as_str()).collect();
    assert_eq!(names, vec!["alpha", "mid", "zeta"]);
    assert_eq!(rows[0].state, ProcessState::Stopped);
}
