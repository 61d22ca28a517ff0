use guardian::config::{EmailConfig, EmailTemplate, NotificationConfig};
use guardian::notification::{
    build_smtp_script, substitute_vars, EventType, NotificationEvent, NotificationManager,
    Severity,
};

fn email_config(template: Option<EmailTemplate>) -> EmailConfig {
    EmailConfig {
        smtp_server: String::from("smtp.test.com"),
        smtp_port: 587,
        smtp_tls: true,
        smtp_user: None,
        smtp_password_env: None,
        from: String::from("guardian@test.com"),
        to: vec![String::from("admin@test.com")],
        events: vec![],
        template,
    }
}

#[test]
fn test_substitute_vars() {
    let vars = vec![
        (String::from("name"), String::from("OpenClaw")),
        (String::from("event"), String::from("crash")),
    ];
    let result = substitute_vars("Process {name} had {event}", &vars);
    assert_eq!(result.as_str(), "Process OpenClaw had crash");
}

#[test]
fn test_substitute_vars_no_match() {
    let vars = vec![];
    let result = substitute_vars("No variables here", &vars);
    assert_eq!(result.as_str(), "No variables here");
}

#[test]
fn test_event_type_display() {
    assert_eq!(EventType::ProcessCrash.label().as_str(), "process_crash");
    assert_eq!(EventType::ProcessRestart.label().as_str(), "process_restart");
    assert_eq!(EventType::HealthCheckFailed.label().as_str(), "health_check_failed");
}

#[test]
fn test_severity_display() {
    assert_eq!(Severity::Info.label().as_str(), "INFO");
    assert_eq!(Severity::Warning.label().as_str(), "WARNING");
    assert_eq!(Severity::Critical.label().as_str(), "CRITICAL");
}

#[test]
fn test_notification_disabled() {
    let config = NotificationConfig { enabled: false, email: None };
    let manager = NotificationManager::new(config);
    assert_eq!(manager.stats().total_sent, 0);
}

#[test]
fn test_email_content_default_template() {
    let config = NotificationConfig { enabled: true, email: Some(email_config(None)) };
    let manager = NotificationManager::new(config);

    let event = NotificationEvent {
        event_type: EventType::ProcessCrash,
        process_name: String::from("openclaw"),
        message: String::from("Process exited with code 1"),
        severity: Severity::Critical,
    };

    let email = email_config(None);
    let (subject, body) = manager.build_email_content(&email, &event, "2024-01-01T00:00:00Z", "host1");

    assert!(subject.contains("OC-Guardian"));
    assert!(subject.contains("CRITICAL"));
    assert!(body.contains("openclaw"));
    assert!(body.contains("Process exited"));
}

#[test]
fn test_email_content_custom_template() {
    let template = EmailTemplate {
        subject: Some(String::from("Alert: {event_type} on {process_name}")),
        body: Some(String::from(
            "Process {process_name} triggered {event_type}: {message}",
        )),
    };
    let config = NotificationConfig {
        enabled: true,
        email: Some(email_config(Some(EmailTemplate {
            subject: template.subject.clone(),
            body: template.body.clone(),
        }))),
    };
    let manager = NotificationManager::new(config);

    let event = NotificationEvent {
        event_type: EventType::ProcessRestart,
        process_name: String::from("oc-memory"),
        message: String::from("Auto-restart triggered"),
        severity: Severity::Warning,
    };

    let email = email_config(Some(template));
    let (subject, body) = manager.build_email_content(&email, &event, "2024-01-01T00:00:00Z", "host1");

    assert_eq!(subject.as_str(), "Alert: process_restart on oc-memory");
    assert_eq!(
        body.as_str(),
        "Process oc-memory triggered process_restart: Auto-restart triggered"
    );
}

#[test]
fn test_build_smtp_script() {
    let script = build_smtp_script(
        "smtp.gmail.com",
        587,
        true,
        "user@gmail.com",
        "password",
        "from@gmail.com",
        "to@gmail.com",
        "Test Subject",
        "Test Body",
    );
    assert!(script.contains("smtplib.SMTP"));
    assert!(script.contains("smtp.gmail.com"));
    assert!(script.contains("starttls"));
}

#[test]
fn test_should_email_filters_event_types() {
    let mut email = email_config(None);
    email.events = vec![String::from("process_crash")];
    let config = NotificationConfig { enabled: true, email: Some(email) };
    let manager = NotificationManager::new(config);

    let crash = NotificationEvent {
        event_type: EventType::ProcessCrash,
        process_name: String::from("a"),
        message: String::from("m"),
        severity: Severity::Critical,
    };
    let restart = NotificationEvent {
        event_type: EventType::ProcessRestart,
        process_name: String::from("a"),
        message: String::from("m"),
        severity: Severity::Info,
    };
    assert!(manager.should_email(&crash));
    assert!(!manager.should_email(&restart));
}
