use guardian::config::{
    validate_config, topological_sort, expand_tilde, AdvancedConfig, ConfigError, GuardianConfig,
    LoggingConfig, MacOsConfig, MemoryConfig, NotificationConfig, ProcessConfig, RecoveryConfig,
};

fn config_with(processes: Vec<ProcessConfig>) -> GuardianConfig {
    GuardianConfig {
        processes,
        recovery: RecoveryConfig::default(),
        logging: LoggingConfig::default(),
        memory: MemoryConfig::default(),
        notifications: NotificationConfig::default(),
        macos: MacOsConfig::default(),
        advanced: AdvancedConfig::default(),
    }
}

fn process(name: &str, command: &str, deps: &[&str]) -> ProcessConfig {
    let mut p = ProcessConfig::new(String::from(name), String::from(command));
    p.depends_on = deps.iter().map(|d| String::from(*d)).collect();
    p
}

#[test]
fn test_expand_tilde() {
    let home = "/home/user";
    assert_eq!(expand_tilde("~/test", home).as_str(), "/home/user/test");
    assert_eq!(expand_tilde("/absolute/path", home).as_str(), "/absolute/path");
    assert_eq!(expand_tilde("relative/path", home).as_str(), "relative/path");
}

#[test]
fn test_cyclic_dependency_detected() {
    let config = config_with(vec![
        process("a", "echo", &["b"]),
        process("b", "echo", &["a"]),
    ]);
    let result = validate_config(&config);
    assert!(result.is_err());
    let err_msg = result.unwrap_err().message();
    assert!(err_msg.contains("Cyclic dependency"));
}

#[test]
fn test_missing_dependency_detected() {
    let config = config_with(vec![process("a", "echo", &["nonexistent"])]);
    let result = validate_config(&config);
    assert!(result.is_err());
    let err_msg = result.unwrap_err().message();
    assert!(err_msg.contains("nonexistent"));
}

#[test]
fn test_empty_processes_returns_error() {
    let config = config_with(vec![]);
    let result = validate_config(&config);
    assert!(result.is_err());
    assert!(matches!(result.unwrap_err(), ConfigError::NoProcesses));
}

#[test]
fn test_empty_command_rejected() {
    let config = config_with(vec![process("a", "", &[])]);
    let result = validate_config(&config);
    assert!(result.is_err());
    assert!(result.unwrap_err().message().contains("empty command"));
}

#[test]
fn test_valid_config_accepted() {
    let config = config_with(vec![
        process("a", "echo", &[]),
        process("b", "echo", &["a"]),
    ]);
    assert!(validate_config(&config).is_ok());
}

#[test]
fn test_default_values() {
    let p = ProcessConfig::new(String::from("test"), String::from("echo"));
    assert!(p.auto_restart);
    assert_eq!(p.restart_delay, 5);
    assert!(p.health.process_alive);
    assert_eq!(p.health.max_memory_mb, 2048);
}

#[test]
fn test_topological_sort_simple() {
    let processes = vec![
        process("openclaw", "openclaw", &[]),
        process("oc-memory", "python", &["openclaw"]),
    ];
    let order = topological_sort(&processes).unwrap();

    let openclaw_idx = order.iter().position(|x| x == "openclaw").unwrap();
    let memory_idx = order.iter().position(|x| x == "oc-memory").unwrap();
    assert!(openclaw_idx < memory_idx);
}

#[test]
fn test_topological_sort_no_deps_lists_all() {
    let processes = vec![
        process("a", "echo", &[]),
        process("b", "echo", &[]),
        process("c", "echo", &[]),
    ];
    let order = topological_sort(&processes).unwrap();
    assert_eq!(order.len(), 3);
    for name in ["a", "b", "c"] {
        assert_eq!(order.iter().filter(|x| x.as_str() == name).count(), 1);
    }
}
