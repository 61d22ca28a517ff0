//! Notification policy and message building.
//!
//! The library decides which events warrant an email and renders the
//! subject, body and the SMTP helper script; delivering the mail is the
//! application's job.
use vstd::prelude::*;

use crate::config::{EmailConfig, NotificationConfig};
use crate::text::{replace_all, str_eq, u64_to_string};

verus! {

#[derive(Debug, Clone, Copy, PartialEq, Eq, Structural)]
pub enum EventType {
    ProcessCrash,
    ProcessRestart,
    RecoveryAction,
    HealthCheckFailed,
    CompressionComplete,
    GuardianStartup,
    GuardianShutdown,
}

/// The wire name of an event type.
pub open spec fn event_type_chars(e: EventType) -> Seq<char> {
    match e {
        EventType::ProcessCrash => "process_crash"@,
        EventType::ProcessRestart => "process_restart"@,
        EventType::RecoveryAction => "recovery_action"@,
        EventType::HealthCheckFailed => "health_check_failed"@,
        EventType::CompressionComplete => "compression_complete"@,
        EventType::GuardianStartup => "guardian_startup"@,
        EventType::GuardianShutdown => "guardian_shutdown"@,
    }
}

impl EventType {
    pub fn label(&self) -> (r: String)
        ensures
            r@ == event_type_chars(*self),
    {
        match self {
            EventType::ProcessCrash => String::from_str("process_crash"),
            EventType::ProcessRestart => String::from_str("process_restart"),
            EventType::RecoveryAction => String::from_str("recovery_action"),
            EventType::HealthCheckFailed => String::from_str("health_check_failed"),
            EventType::CompressionComplete => String::from_str("compression_complete"),
            EventType::GuardianStartup => String::from_str("guardian_startup"),
            EventType::GuardianShutdown => String::from_str("guardian_shutdown"),
        }
    }
}

#[derive(Debug, Clone, Copy, PartialEq, Eq, Structural)]
pub enum Severity {
    Info,
    Warning,
    Critical,
}

/// The rendering of a severity.
pub open spec fn severity_chars(s: Severity) -> Seq<char> {
    match s {
        Severity::Info => "INFO"@,
        Severity::Warning => "WARNING"@,
        Severity::Critical => "CRITICAL"@,
    }
}

impl Severity {
    pub fn label(&self) -> (r: String)
        ensures
            r@ == severity_chars(*self),
    {
        match self {
            Severity::Info => String::from_str("INFO"),
            Severity::Warning => String::from_str("WARNING"),
            Severity::Critical => String::from_str("CRITICAL"),
        }
    }
}

#[derive(Debug)]
pub struct NotificationEvent {
    pub event_type: EventType,
    pub process_name: String,
    pub message: String,
    pub severity: Severity,
}

#[derive(Debug)]
pub struct NotificationStats {
    pub total_sent: u64,
    pub last_error: Option<String>,
}

// ---------------------------------------------------------------------------
// Variable substitution
// ---------------------------------------------------------------------------
/// The template after substituting the variables from `i` on: each key
/// `k` is replaced as `{k}`, in order.
pub open spec fn subst_from(t: Seq<char>, vars: Seq<(Seq<char>, Seq<char>)>, i: int) -> Seq<char>
    decreases vars.len() - i,
{
    if i < 0 || i >= vars.len() {
        t
    } else {
        subst_from(replace_all(t, "{"@ + vars[i].0 + "}"@, vars[i].1), vars, i + 1)
    }
}

/// Substitute `{key}` templates, each variable in order.
pub fn substitute_vars(template: &str, vars: &Vec<(String, String)>) -> (r: String)
    ensures
        r@ == subst_from(
            template@,
            vars@.map_values(|p: (String, String)| (p.0@, p.1@)),
            0,
        ),
{
    let ghost vs = vars@.map_values(|p: (String, String)| (p.0@, p.1@));
    let mut cur = String::from_str(template);
    let mut i: usize = 0;
    while i < vars.len()
        invariant
            vs == vars@.map_values(|p: (String, String)| (p.0@, p.1@)),
            0 <= i <= vars@.len(),
            subst_from(cur@, vs, i as int) == subst_from(template@, vs, 0),
        decreases vars@.len() - i,
    {
        let needle = String::from_str("{").concat(vars[i].0.as_str()).concat("}");
        proof {
            assert(needle@ =~= "{"@ + vs[i as int].0 + "}"@);
        }
        cur = crate::text::str_replace(cur.as_str(), needle.as_str(), vars[i].1.as_str());
        i = i + 1;
    }
    cur
}

// ---------------------------------------------------------------------------
// Email content
// ---------------------------------------------------------------------------
/// The variables available to email templates.
pub open spec fn email_vars(
    event: &NotificationEvent,
    timestamp: Seq<char>,
    hostname: Seq<char>,
) -> Seq<(Seq<char>, Seq<char>)> {
    seq![
        ("event_type"@, event_type_chars(event.event_type)),
        ("process_name"@, event.process_name@),
        ("message"@, event.message@),
        ("severity"@, severity_chars(event.severity)),
        ("timestamp"@, timestamp),
        ("hostname"@, hostname),
    ]
}

/// The default subject when no template is configured.
pub open spec fn default_subject_chars(event: &NotificationEvent) -> Seq<char> {
    "[OC-Guardian] "@ + severity_chars(event.severity) + " - "@ + event_type_chars(
        event.event_type,
    ) + " on "@ + event.process_name@
}

/// The default body when no template is configured.
pub open spec fn default_body_chars(
    event: &NotificationEvent,
    timestamp: Seq<char>,
    hostname: Seq<char>,
) -> Seq<char> {
    "OC-Guardian Alert\n==================\nEvent: "@ + event_type_chars(event.event_type)
        + "\nProcess: "@ + event.process_name@ + "\nSeverity: "@ + severity_chars(event.severity)
        + "\nTime: "@ + timestamp + "\nHost: "@ + hostname + "\n\nMessage:\n"@ + event.message@
        + "\n\n---\nSent by OC-Guardian Process Manager"@
}

pub struct NotificationManager {
    pub config: NotificationConfig,
    pub send_count: u64,
    pub last_error: Option<String>,
}

/// Whether the policy wants an email for this event type.
pub open spec fn email_wanted(cfg: &NotificationConfig, e: EventType) -> bool {
    &&& cfg.enabled
    &&& match cfg.email {
        Some(ec) => ec.events@.len() == 0 || exists|i: int|
            0 <= i < ec.events@.len() && (#[trigger] ec.events@[i])@ == event_type_chars(e),
        None => false,
    }
}

/// Whether some entry of `v` reads `s`.
fn contains_string(v: &Vec<String>, s: &str) -> (r: bool)
    ensures
        r == exists|i: int| 0 <= i < v@.len() && (#[trigger] v@[i])@ == s@,
{
    let mut i: usize = 0;
    while i < v.len()
        invariant
            0 <= i <= v@.len(),
            forall|k: int| 0 <= k < i ==> (#[trigger] v@[k])@ != s@,
        decreases v@.len() - i,
    {
        if str_eq(v[i].as_str(), s) {
            return true;
        }
        i = i + 1;
    }
    false
}

impl NotificationManager {
    pub fn new(config: NotificationConfig) -> (r: Self)
        ensures
            r.config == config,
            r.send_count == 0,
            r.last_error is None,
    {
        NotificationManager { config, send_count: 0, last_error: None }
    }

    /// Delivery statistics.
    pub fn stats(&self) -> (r: NotificationStats)
        ensures
            r.total_sent == self.send_count,
            (match self.last_error {
                Some(e) => r.last_error matches Some(f) && f@ == e@,
                None => r.last_error is None,
            }),
    {
        NotificationStats {
            total_sent: self.send_count,
            last_error: match &self.last_error {
                Some(e) => Some(e.clone()),
                None => None,
            },
        }
    }

    /// Whether this event should produce an email.
    pub fn should_email(&self, event: &NotificationEvent) -> (r: bool)
        ensures
            r == email_wanted(&self.config, event.event_type),
    {
        if !self.config.enabled {
            return false;
        }
        match &self.config.email {
            None => false,
            Some(ec) => {
                if ec.events.len() == 0 {
                    return true;
                }
                let wanted = event.event_type.label();
                contains_string(&ec.events, wanted.as_str())
            },
        }
    }

    /// A delivery went out.
    pub fn record_send_success(&mut self)
        ensures
            final(self).send_count == vstd::math::min(
                old(self).send_count + 1,
                u64::MAX as int,
            ),
            final(self).last_error == old(self).last_error,
            final(self).config == old(self).config,
    {
        if self.send_count < u64::MAX {
            self.send_count = self.send_count + 1;
        }
    }

    /// A delivery failed; the failure is kept, never propagated.
    pub fn record_send_failure(&mut self, error: &str)
        ensures
            final(self).send_count == old(self).send_count,
            final(self).config == old(self).config,
            final(self).last_error matches Some(m) && m@ == "Email send failed: "@ + error@,
    {
        let m = String::from_str("Email send failed: ").concat(error);
        assert(m@ =~= "Email send failed: "@ + error@);
        self.last_error = Some(m);
    }

    /// Render the subject and body for an event, from the configured
    /// templates or the defaults.
    pub fn build_email_content(
        &self,
        email_config: &EmailConfig,
        event: &NotificationEvent,
        timestamp: &str,
        hostname: &str,
    ) -> (r: (String, String))
        ensures
            ({
                let vars = email_vars(event, timestamp@, hostname@);
                &&& (match email_config.template {
                    Some(t) => match t.subject {
                        Some(st) => r.0@ == subst_from(st@, vars, 0),
                        None => r.0@ == default_subject_chars(event),
                    },
                    None => r.0@ == default_subject_chars(event),
                })
                &&& (match email_config.template {
                    Some(t) => match t.body {
                        Some(bt) => r.1@ == subst_from(bt@, vars, 0),
                        None => r.1@ == default_body_chars(event, timestamp@, hostname@),
                    },
                    None => r.1@ == default_body_chars(event, timestamp@, hostname@),
                })
            }),
    {
        let mut vars: Vec<(String, String)> = Vec::new();
        vars.push((String::from_str("event_type"), event.event_type.label()));
        vars.push((String::from_str("process_name"), event.process_name.clone()));
        vars.push((String::from_str("message"), event.message.clone()));
        vars.push((String::from_str("severity"), event.severity.label()));
        vars.push((String::from_str("timestamp"), String::from_str(timestamp)));
        vars.push((String::from_str("hostname"), String::from_str(hostname)));
        proof {
            assert(vars@.map_values(|p: (String, String)| (p.0@, p.1@)) =~= email_vars(
                event,
                timestamp@,
                hostname@,
            ));
        }
        let subject_template: Option<&String> = match &email_config.template {
            Some(t) => match &t.subject {
                Some(st) => Some(st),
                None => None,
            },
            None => None,
        };
        let subject = match subject_template {
            Some(st) => substitute_vars(st.as_str(), &vars),
            None => {
                let s = String::from_str("[OC-Guardian] ").concat(
                    event.severity.label().as_str(),
                ).concat(" - ").concat(event.event_type.label().as_str()).concat(" on ").concat(
                    event.process_name.as_str(),
                );
                assert(s@ =~= default_subject_chars(event));
                s
            },
        };
        let body_template: Option<&String> = match &email_config.template {
            Some(t) => match &t.body {
                Some(bt) => Some(bt),
                None => None,
            },
            None => None,
        };
        let body = match body_template {
            Some(bt) => substitute_vars(bt.as_str(), &vars),
            None => {
                let b = String::from_str("OC-Guardian Alert\n==================\nEvent: ").concat(
                    event.event_type.label().as_str(),
                ).concat("\nProcess: ").concat(event.process_name.as_str()).concat(
                    "\nSeverity: ",
                ).concat(event.severity.label().as_str()).concat("\nTime: ").concat(
                    timestamp,
                ).concat("\nHost: ").concat(hostname).concat("\n\nMessage:\n").concat(
                    event.message.as_str(),
                ).concat("\n\n---\nSent by OC-Guardian Process Manager");
                assert(b@ =~= default_body_chars(event, timestamp@, hostname@));
                b
            },
        };
        (subject, body)
    }
}

// ---------------------------------------------------------------------------
// The SMTP helper script
// ---------------------------------------------------------------------------
/// A string with single quotes escaped for a Python literal.
pub open spec fn py_quoted(s: Seq<char>) -> Seq<char> {
    replace_all(s, "'"@, "\\'"@)
}

/// A body string with quotes and newlines escaped for a Python literal.
pub open spec fn py_body(s: Seq<char>) -> Seq<char> {
    replace_all(py_quoted(s), "\n"@, "\\n"@)
}

/// The helper script the application hands to `python -c` to deliver one
/// mail over SMTP.
pub open spec fn smtp_script_chars(
    server: Seq<char>,
    port: int,
    use_tls: bool,
    user: Seq<char>,
    password: Seq<char>,
    from: Seq<char>,
    to: Seq<char>,
    subject: Seq<char>,
    body: Seq<char>,
) -> Seq<char> {
    let tls = if use_tls {
        "server.starttls()"@
    } else {
        "pass"@
    };
    let auth = if user.len() > 0 {
        "server.login('"@ + py_quoted(user) + "', '"@ + py_quoted(password) + "')"@
    } else {
        "pass"@
    };
    "\nimport smtplib\nfrom email.mime.text import MIMEText\nfrom email.mime.multipart import MIMEMultipart\n\nmsg = MIMEMultipart()\nmsg['From'] = '"@
        + from + "'\nmsg['To'] = '"@ + to + "'\nmsg['Subject'] = '"@ + py_quoted(subject)
        + "'\nmsg.attach(MIMEText('"@ + py_body(body) + "', 'plain'))\n\ntry:\n    server = smtplib.SMTP('"@
        + server + "', "@ + crate::text::dec_digits(port) + ")\n    "@ + tls + "\n    "@ + auth
        + "\n    server.sendmail('"@ + from + "', '"@ + to
        + "'.split(','), msg.as_string())\n    server.quit()\nexcept Exception as e:\n    import sys\n    print(str(e), file=sys.stderr)\n    sys.exit(1)\n"@
}

/// Build the Python script that delivers one mail.
pub fn build_smtp_script(
    server: &str,
    port: u16,
    use_tls: bool,
    user: &str,
    password: &str,
    from: &str,
    to: &str,
    subject: &str,
    body: &str,
) -> (r: String)
    ensures
        r@ == smtp_script_chars(
            server@,
            port as int,
            use_tls,
            user@,
            password@,
            from@,
            to@,
            subject@,
            body@,
        ),
{
    let subject_escaped = crate::text::str_replace(subject, "'", "\\'");
    let body_escaped0 = crate::text::str_replace(body, "'", "\\'");
    let body_escaped = crate::text::str_replace(body_escaped0.as_str(), "\n", "\\n");
    let user_escaped = crate::text::str_replace(user, "'", "\\'");
    let password_escaped = crate::text::str_replace(password, "'", "\\'");
    let tls = if use_tls {
        String::from_str("server.starttls()")
    } else {
        String::from_str("pass")
    };
    let auth = if user.unicode_len() > 0 {
        let a = String::from_str("server.login('").concat(user_escaped.as_str()).concat(
            "', '",
        ).concat(password_escaped.as_str()).concat("')");
        a
    } else {
        String::from_str("pass")
    };
    let r = String::from_str(
        "\nimport smtplib\nfrom email.mime.text import MIMEText\nfrom email.mime.multipart import MIMEMultipart\n\nmsg = MIMEMultipart()\nmsg['From'] = '",
    ).concat(from).concat("'\nmsg['To'] = '").concat(to).concat("'\nmsg['Subject'] = '").concat(
        subject_escaped.as_str(),
    ).concat("'\nmsg.attach(MIMEText('").concat(body_escaped.as_str()).concat(
        "', 'plain'))\n\ntry:\n    server = smtplib.SMTP('",
    ).concat(server).concat("', ").concat(u64_to_string(port as u64).as_str()).concat(
        ")\n    ",
    ).concat(tls.as_str()).concat("\n    ").concat(auth.as_str()).concat(
        "\n    server.sendmail('",
    ).concat(from).concat("', '").concat(to).concat(
        "'.split(','), msg.as_string())\n    server.quit()\nexcept Exception as e:\n    import sys\n    print(str(e), file=sys.stderr)\n    sys.exit(1)\n",
    );
    proof {
        assert(r@ =~= smtp_script_chars(
            server@,
            port as int,
            use_tls,
            user@,
            password@,
            from@,
            to@,
            subject@,
            body@,
        ));
    }
    r
}

} // verus!
