//! The recovery engine: match a health verdict against the configured
//! scenarios and pick an action; keep backoff state and statistics.
use vstd::prelude::*;

use crate::config::{RecoveryConfig, RecoveryScenario};
use crate::health::{HealthCheckResult, HealthStatus, LevelResult};
use crate::shims::{regex_valid, regex_match, regex_new, regex_is_match};
use crate::strmap::StrMap;
use crate::text::{dec_digits, seq_has, seq_starts_with, str_eq, str_has, str_starts_with, u64_to_string};

verus! {

// ---------------------------------------------------------------------------
// Actions
// ---------------------------------------------------------------------------
#[derive(Debug)]
pub enum RecoveryAction {
    RestoreBackup { path: String },
    Restart,
    RestartWithDependencies,
    GracefulRestart { grace_period: u64 },
    ExponentialBackoff { max_backoff: u64 },
    LogWarning,
    Notify { message: String },
    GiveUp,
}

impl PartialEq for RecoveryAction {
    fn eq(&self, other: &Self) -> (r: bool) {
        match (self, other) {
            (RecoveryAction::RestoreBackup { path: a }, RecoveryAction::RestoreBackup {
                path: b,
            }) => str_eq(a.as_str(), b.as_str()),
            (RecoveryAction::Restart, RecoveryAction::Restart) => true,
            (
                RecoveryAction::RestartWithDependencies,
                RecoveryAction::RestartWithDependencies,
            ) => true,
            (RecoveryAction::GracefulRestart { grace_period: a }, RecoveryAction::GracefulRestart {
                grace_period: b,
            }) => a == b,
            (
                RecoveryAction::ExponentialBackoff { max_backoff: a },
                RecoveryAction::ExponentialBackoff { max_backoff: b },
            ) => a == b,
            (RecoveryAction::LogWarning, RecoveryAction::LogWarning) => true,
            (RecoveryAction::Notify { message: a }, RecoveryAction::Notify { message: b }) => str_eq(
                a.as_str(),
                b.as_str(),
            ),
            (RecoveryAction::GiveUp, RecoveryAction::GiveUp) => true,
            _ => false,
        }
    }
}

impl vstd::std_specs::cmp::PartialEqSpecImpl for RecoveryAction {
    open spec fn obeys_eq_spec() -> bool {
        true
    }

    open spec fn eq_spec(&self, other: &Self) -> bool {
        match (self, other) {
            (RecoveryAction::RestoreBackup { path: a }, RecoveryAction::RestoreBackup {
                path: b,
            }) => a@ == b@,
            (RecoveryAction::Restart, RecoveryAction::Restart) => true,
            (
                RecoveryAction::RestartWithDependencies,
                RecoveryAction::RestartWithDependencies,
            ) => true,
            (RecoveryAction::GracefulRestart { grace_period: a }, RecoveryAction::GracefulRestart {
                grace_period: b,
            }) => a == b,
            (
                RecoveryAction::ExponentialBackoff { max_backoff: a },
                RecoveryAction::ExponentialBackoff { max_backoff: b },
            ) => a == b,
            (RecoveryAction::LogWarning, RecoveryAction::LogWarning) => true,
            (RecoveryAction::Notify { message: a }, RecoveryAction::Notify { message: b }) => a@
                == b@,
            (RecoveryAction::GiveUp, RecoveryAction::GiveUp) => true,
            _ => false,
        }
    }
}

/// The short rendering of an action, as logs and statistics show it.
pub open spec fn action_label_chars(a: RecoveryAction) -> Seq<char> {
    match a {
        RecoveryAction::RestoreBackup { path } => "restore_backup("@ + path@ + ")"@,
        RecoveryAction::Restart => "restart"@,
        RecoveryAction::RestartWithDependencies => "restart_with_deps"@,
        RecoveryAction::GracefulRestart { grace_period } => "graceful_restart("@ + dec_digits(
            grace_period as int,
        ) + "s)"@,
        RecoveryAction::ExponentialBackoff { max_backoff } => "exponential_backoff(max="@
            + dec_digits(max_backoff as int) + "s)"@,
        RecoveryAction::LogWarning => "log_warning"@,
        RecoveryAction::Notify { .. } => "notify"@,
        RecoveryAction::GiveUp => "give_up"@,
    }
}

/// The scenario family an action is reported under.
pub open spec fn scenario_family_chars(a: RecoveryAction) -> Seq<char> {
    match a {
        RecoveryAction::RestoreBackup { .. } => "invalid_json"@,
        RecoveryAction::RestartWithDependencies => "process_crash"@,
        RecoveryAction::GracefulRestart { .. } => "unresponsive"@,
        RecoveryAction::ExponentialBackoff { .. } => "network_timeout"@,
        RecoveryAction::LogWarning => "llm_error"@,
        RecoveryAction::Notify { .. } => "give_up"@,
        RecoveryAction::GiveUp => "give_up"@,
        RecoveryAction::Restart => "default_restart"@,
    }
}

impl RecoveryAction {
    /// The short rendering used in logs and statistics.
    pub fn label(&self) -> (r: String)
        ensures
            r@ == action_label_chars(*self),
    {
        match self {
            RecoveryAction::RestoreBackup { path } => {
                let r = String::from_str("restore_backup(").concat(path.as_str()).concat(")");
                assert(r@ =~= "restore_backup("@ + path@ + ")"@);
                r
            },
            RecoveryAction::Restart => String::from_str("restart"),
            RecoveryAction::RestartWithDependencies => String::from_str("restart_with_deps"),
            RecoveryAction::GracefulRestart { grace_period } => {
                let r = String::from_str("graceful_restart(").concat(
                    u64_to_string(*grace_period).as_str(),
                ).concat("s)");
                assert(r@ =~= "graceful_restart("@ + dec_digits(*grace_period as int) + "s)"@);
                r
            },
            RecoveryAction::ExponentialBackoff { max_backoff } => {
                let r = String::from_str("exponential_backoff(max=").concat(
                    u64_to_string(*max_backoff).as_str(),
                ).concat("s)");
                assert(r@ =~= "exponential_backoff(max="@ + dec_digits(*max_backoff as int)
                    + "s)"@);
                r
            },
            RecoveryAction::LogWarning => String::from_str("log_warning"),
            RecoveryAction::Notify { .. } => String::from_str("notify"),
            RecoveryAction::GiveUp => String::from_str("give_up"),
        }
    }
}

// ---------------------------------------------------------------------------
// Statistics
// ---------------------------------------------------------------------------
#[derive(Debug)]
pub struct RecoveryEvent {
    pub timestamp: String,
    pub process_name: String,
    pub scenario: String,
    pub action: String,
    pub success: bool,
    pub details: String,
}

pub struct RecoveryStats {
    pub total_recoveries: u64,
    pub successful: u64,
    pub failed: u64,
    pub by_scenario: StrMap<u64>,
    pub events: Vec<RecoveryEvent>,
}

/// The in-memory event log keeps the last 100 events.
pub open spec fn event_ring_cap() -> int {
    100
}

impl RecoveryStats {
    pub open spec fn wf(&self) -> bool {
        &&& self.by_scenario.wf()
        &&& self.events@.len() <= event_ring_cap()
    }

    pub fn new() -> (r: Self)
        ensures
            r.wf(),
            r.total_recoveries == 0,
            r.successful == 0,
            r.failed == 0,
            r.by_scenario@ == Map::<Seq<char>, u64>::empty(),
            r.events@.len() == 0,
    {
        RecoveryStats {
            total_recoveries: 0,
            successful: 0,
            failed: 0,
            by_scenario: StrMap::new(),
            events: Vec::new(),
        }
    }

    /// Append an event, keeping the ring at its bound.
    pub fn record_event(
        &mut self,
        process_name: &str,
        scenario: &str,
        action: &str,
        success: bool,
        details: &str,
        timestamp: String,
    )
        requires
            old(self).wf(),
        ensures
            final(self).wf(),
            final(self).total_recoveries == old(self).total_recoveries,
            final(self).successful == old(self).successful,
            final(self).failed == old(self).failed,
            final(self).by_scenario == old(self).by_scenario,
            final(self).events@.len() <= event_ring_cap(),
            final(self).events@.len() > 0,
            ({
                let e = final(self).events@.last();
                e.process_name@ == process_name@ && e.scenario@ == scenario@ && e.action@
                    == action@ && e.success == success && e.details@ == details@
            }),
            old(self).events@.len() < event_ring_cap() ==> final(self).events@.drop_last() == old(self).events@,
            old(self).events@.len() == event_ring_cap() ==> final(self).events@.drop_last() == old(self).events@.drop_first(),
    {
        if self.events.len() >= 100 {
            let _ = self.events.remove(0);
        }
        let ghost before = self.events@;
        self.events.push(
            RecoveryEvent {
                timestamp,
                process_name: String::from_str(process_name),
                scenario: String::from_str(scenario),
                action: String::from_str(action),
                success,
                details: String::from_str(details),
            },
        );
        proof {
            assert(self.events@.drop_last() =~= before);
        }
    }
}

// ---------------------------------------------------------------------------
// Backoff
// ---------------------------------------------------------------------------
#[derive(Debug, Clone, Copy)]
pub struct BackoffState {
    pub current_delay: u64,
    /// Monotonic seconds of the last recovery attempt.
    pub last_attempt: u64,
    pub attempt_count: u32,
}

/// One application of exponential backoff: the delay doubles, capped at
/// `max_backoff`.
pub open spec fn next_delay(d: int, max_backoff: int) -> int {
    vstd::math::min(2 * d, max_backoff)
}

/// One backoff application for `name`: the delay doubles (capped), the
/// attempt counter advances, and the attempt time is recorded.
pub open spec fn backoff_applied(
    b0: Map<Seq<char>, BackoffState>,
    b1: Map<Seq<char>, BackoffState>,
    cfg: RecoveryConfig,
    name: Seq<char>,
    max_backoff: int,
    now: u64,
) -> bool {
    let prev_delay: int = if b0.contains_key(name) {
        b0[name].current_delay as int
    } else {
        cfg.initial_backoff as int
    };
    let prev_count: int = if b0.contains_key(name) {
        b0[name].attempt_count as int
    } else {
        0
    };
    let st = b1[name];
    &&& b1 == b0.insert(name, st)
    &&& st.current_delay == next_delay(prev_delay, max_backoff)
    &&& st.attempt_count == vstd::math::min(prev_count + 1, u32::MAX as int)
    &&& st.last_attempt == now
}

/// Backoff grows but never passes the cap: starting at or under the cap,
/// one application neither shrinks the delay nor exceeds the cap.
pub proof fn lemma_backoff_monotone_until_cap(d: int, max_backoff: int)
    requires
        0 <= d <= max_backoff,
    ensures
        d <= next_delay(d, max_backoff) <= max_backoff,
{
}

// ---------------------------------------------------------------------------
// The engine
// ---------------------------------------------------------------------------
pub struct RecoveryEngine {
    pub config: RecoveryConfig,
    pub stats: RecoveryStats,
    pub backoff_state: StrMap<BackoffState>,
}

// What the give-up gate yields for each configured `give_up_action`.
pub open spec fn give_up_rel(
    give_up_action: Seq<char>,
    name: Seq<char>,
    msg: Seq<char>,
    r: RecoveryAction,
) -> bool {
    if give_up_action == "notify"@ {
        r matches RecoveryAction::Notify { message } && message@ == "Process '"@ + name
            + "' exceeded max restarts. Last error: "@ + msg
    } else if give_up_action == "shutdown_all"@ {
        r is GiveUp
    } else if give_up_action == "keep_trying"@ {
        r is Restart
    } else {
        r matches RecoveryAction::Notify { message } && message@ == "Process '"@ + name
            + "' recovery failed"@
    }
}

/// Restart-window gate: unless the operator chose to keep trying, the
/// give-up action never restarts, backs off, or restores anything.
pub proof fn lemma_restart_gate(
    give_up_action: Seq<char>,
    name: Seq<char>,
    msg: Seq<char>,
    r: RecoveryAction,
)
    requires
        give_up_rel(give_up_action, name, msg, r),
        give_up_action != "keep_trying"@,
    ensures
        !(r is Restart),
        !(r is RestartWithDependencies),
        !(r is GracefulRestart),
        !(r is ExponentialBackoff),
        !(r is RestoreBackup),
        r is Notify || r is GiveUp,
{
}

impl RecoveryEngine {
    pub open spec fn wf(&self) -> bool {
        &&& self.stats.wf()
        &&& self.backoff_state.wf()
    }

    pub fn new(config: RecoveryConfig) -> (r: Self)
        ensures
            r.wf(),
            r.config == config,
            r.stats.total_recoveries == 0,
            r.stats.successful == 0,
            r.stats.failed == 0,
            r.stats.by_scenario@ == Map::<Seq<char>, u64>::empty(),
            r.stats.events@.len() == 0,
            r.backoff_state@ == Map::<Seq<char>, BackoffState>::empty(),
    {
        RecoveryEngine { config, stats: RecoveryStats::new(), backoff_state: StrMap::new() }
    }

    /// The recovery statistics gathered so far.
    pub fn stats(&self) -> (r: &RecoveryStats)
        ensures
            *r == self.stats,
    {
        &self.stats
    }

    /// The delay currently in effect for a process (seconds).
    pub fn get_backoff_delay(&self, process_name: &str) -> (r: u64)
        requires
            self.wf(),
        ensures
            self.backoff_state@.contains_key(process_name@) ==> r == self.backoff_state@[
                process_name@
            ].current_delay,
            !self.backoff_state@.contains_key(process_name@) ==> r
                == self.config.initial_backoff,
    {
        match self.backoff_state.get(process_name) {
            Some(s) => s.current_delay,
            None => self.config.initial_backoff,
        }
    }

    /// Double a process's backoff delay, capped at `max_backoff`.
    pub fn apply_backoff(&mut self, process_name: &str, max_backoff: u64, now: u64)
        requires
            old(self).wf(),
        ensures
            final(self).wf(),
            final(self).config == old(self).config,
            final(self).stats == old(self).stats,
            backoff_applied(
                old(self).backoff_state@,
                final(self).backoff_state@,
                old(self).config,
                process_name@,
                max_backoff as int,
                now,
            ),
    {
        let mut state = match self.backoff_state.take(process_name) {
            Some(s) => s,
            None => BackoffState {
                current_delay: self.config.initial_backoff,
                last_attempt: now,
                attempt_count: 0,
            },
        };
        state.attempt_count = state.attempt_count.saturating_add(1);
        let doubled = if state.current_delay > u64::MAX / 2 {
            u64::MAX
        } else {
            state.current_delay * 2
        };
        state.current_delay = if doubled > max_backoff {
            max_backoff
        } else {
            doubled
        };
        state.last_attempt = now;
        self.backoff_state.insert(String::from_str(process_name), state);
        proof {
            assert(self.backoff_state@ =~= old(self).backoff_state@.insert(
                process_name@,
                self.backoff_state@[process_name@],
            ));
        }
    }

    /// What the give-up gate does once a process has used up its restarts.
    pub fn get_give_up_action(&self, process_name: &str, msg: &str) -> (r: RecoveryAction)
        ensures
            give_up_rel(self.config.give_up_action@, process_name@, msg@, r),
    {
        if str_eq(self.config.give_up_action.as_str(), "notify") {
            let m = String::from_str("Process '").concat(process_name).concat(
                "' exceeded max restarts. Last error: ",
            ).concat(msg);
            assert(m@ =~= "Process '"@ + process_name@
                + "' exceeded max restarts. Last error: "@ + msg@);
            RecoveryAction::Notify { message: m }
        } else if str_eq(self.config.give_up_action.as_str(), "shutdown_all") {
            RecoveryAction::GiveUp
        } else if str_eq(self.config.give_up_action.as_str(), "keep_trying") {
            RecoveryAction::Restart
        } else {
            let m = String::from_str("Process '").concat(process_name).concat(
                "' recovery failed",
            );
            assert(m@ =~= "Process '"@ + process_name@ + "' recovery failed"@);
            RecoveryAction::Notify { message: m }
        }
    }
}

// ---------------------------------------------------------------------------
// Trigger matching
// ---------------------------------------------------------------------------
/// Some result of this level failed.
pub open spec fn has_level_failure(rs: Seq<LevelResult>, level: int) -> bool {
    exists|i: int|
        0 <= i < rs.len() && (#[trigger] rs[i]).level == level && !rs[i].passed
}

/// Some result of this level failed with a message containing `needle`.
pub open spec fn has_level_failure_with(
    rs: Seq<LevelResult>,
    level: int,
    needle: Seq<char>,
) -> bool {
    exists|i: int|
        0 <= i < rs.len() && (#[trigger] rs[i]).level == level && !rs[i].passed && seq_has(
            rs[i].message@,
            needle,
        )
}

fn any_level_failed(rs: &Vec<LevelResult>, level: u8) -> (r: bool)
    ensures
        r == has_level_failure(rs@, level as int),
{
    let mut i: usize = 0;
    while i < rs.len()
        invariant
            0 <= i <= rs@.len(),
            forall|k: int|
                0 <= k < i ==> !((#[trigger] rs@[k]).level == level && !rs@[k].passed),
        decreases rs@.len() - i,
    {
        if rs[i].level == level && !rs[i].passed {
            return true;
        }
        i = i + 1;
    }
    false
}

fn any_level_failed_with(rs: &Vec<LevelResult>, level: u8, needle: &str) -> (r: bool)
    ensures
        r == has_level_failure_with(rs@, level as int, needle@),
{
    let mut i: usize = 0;
    while i < rs.len()
        invariant
            0 <= i <= rs@.len(),
            forall|k: int|
                0 <= k < i ==> !((#[trigger] rs@[k]).level == level && !rs@[k].passed && seq_has(
                    rs@[k].message@,
                    needle@,
                )),
        decreases rs@.len() - i,
    {
        if rs[i].level == level && !rs[i].passed && str_has(rs[i].message.as_str(), needle) {
            return true;
        }
        i = i + 1;
    }
    false
}

/// Index of the first single quote, or `s.len()`.
pub open spec fn first_quote(s: Seq<char>) -> int
    decreases s.len(),
{
    if s.len() == 0 {
        0
    } else if s.first() == '\'' {
        0
    } else {
        1 + first_quote(s.drop_first())
    }
}

/// Index of the last single quote, or -1.
pub open spec fn last_quote(s: Seq<char>) -> int
    decreases s.len(),
{
    if s.len() == 0 {
        -1
    } else if s.last() == '\'' {
        s.len() - 1
    } else {
        last_quote(s.drop_last())
    }
}

proof fn lemma_first_quote_at(s: Seq<char>, i: int)
    requires
        0 <= i <= s.len(),
        forall|k: int| 0 <= k < i ==> s[k] != '\'',
        i < s.len() ==> s[i] == '\'',
    ensures
        first_quote(s) == i,
    decreases s.len(),
{
    if s.len() > 0 && s.first() != '\'' {
        let t = s.drop_first();
        assert forall|k: int| 0 <= k < i - 1 implies t[k] != '\'' by {
            assert(t[k] == s[k + 1]);
        }
        assert(i > 0);
        lemma_first_quote_at(t, i - 1);
    }
}

proof fn lemma_last_quote_at(s: Seq<char>, i: int)
    requires
        -1 <= i < s.len(),
        forall|k: int| i < k < s.len() ==> s[k] != '\'',
        i >= 0 ==> s[i] == '\'',
    ensures
        last_quote(s) == i,
    decreases s.len(),
{
    if s.len() > 0 && s.last() != '\'' {
        let t = s.drop_last();
        assert forall|k: int| i < k < t.len() implies t[k] != '\'' by {
            assert(t[k] == s[k]);
        }
        assert(i < s.len() - 1);
        if i >= 0 {
            assert(t[i] == s[i]);
        }
        lemma_last_quote_at(t, i);
    }
}

/// Whether a scenario's trigger matches the verdict's level results and
/// aggregate failure message.
pub open spec fn trigger_matches_spec(
    sc: RecoveryScenario,
    rs: Seq<LevelResult>,
    failure_msg: Seq<char>,
) -> bool {
    let t = sc.trigger@;
    if t == "config_validation_failed"@ {
        has_level_failure(rs, 3)
    } else if seq_starts_with(t, "exit_code"@) {
        has_level_failure(rs, 1)
    } else if t == "log_activity_timeout"@ {
        has_level_failure_with(rs, 2, "stale"@)
    } else if seq_starts_with(t, "memory >"@) {
        has_level_failure_with(rs, 4, "Memory"@)
    } else if seq_starts_with(t, "restart_count >"@) {
        false
    } else if seq_starts_with(t, "log_pattern"@) {
        let fq = first_quote(t);
        let lq = last_quote(t);
        if fq < t.len() && lq >= 0 && fq != lq {
            let pat = t.subrange(fq + 1, lq);
            regex_valid(pat) && regex_match(pat, failure_msg)
        } else {
            false
        }
    } else {
        false
    }
}

/// Test one scenario's trigger against a verdict.
pub fn trigger_matches(
    scenario: &RecoveryScenario,
    level_results: &Vec<LevelResult>,
    failure_msg: &str,
) -> (r: bool)
    ensures
        r == trigger_matches_spec(*scenario, level_results@, failure_msg@),
{
    let t = scenario.trigger.as_str();
    if str_eq(t, "config_validation_failed") {
        return any_level_failed(level_results, 3);
    }
    if str_starts_with(t, "exit_code") {
        return any_level_failed(level_results, 1);
    }
    if str_eq(t, "log_activity_timeout") {
        return any_level_failed_with(level_results, 2, "stale");
    }
    if str_starts_with(t, "memory >") {
        return any_level_failed_with(level_results, 4, "Memory");
    }
    if str_starts_with(t, "restart_count >") {
        return false;
    }
    if str_starts_with(t, "log_pattern") {
        let n = t.unicode_len();
        let mut fq: usize = 0;
        while fq < n && t.get_char(fq) != '\''
            invariant
                n == t@.len(),
                0 <= fq <= n,
                forall|k: int| 0 <= k < fq ==> t@[k] != '\'',
            decreases n - fq,
        {
            fq = fq + 1;
        }
        proof {
            lemma_first_quote_at(t@, fq as int);
        }
        let mut lq_plus: usize = n;
        while lq_plus > 0 && t.get_char(lq_plus - 1) != '\''
            invariant
                n == t@.len(),
                0 <= lq_plus <= n,
                forall|k: int| lq_plus <= k < n ==> t@[k] != '\'',
            decreases lq_plus,
        {
            lq_plus = lq_plus - 1;
        }
        proof {
            lemma_last_quote_at(t@, lq_plus - 1);
        }
        if fq < n && lq_plus >= 1 && fq != lq_plus - 1 {
            let pat = t.substring_char(fq + 1, lq_plus - 1);
            match regex_new(pat) {
                Some(re) => {
                    return regex_is_match(&re, failure_msg);
                },
                None => {
                    return false;
                },
            }
        }
        return false;
    }
    false
}

// ---------------------------------------------------------------------------
// Scenario selection and evaluation
// ---------------------------------------------------------------------------
/// Index of the first scenario whose trigger matches, or -1.
pub open spec fn first_match(
    scenarios: Seq<RecoveryScenario>,
    rs: Seq<LevelResult>,
    failure_msg: Seq<char>,
) -> int
    decreases scenarios.len(),
{
    if scenarios.len() == 0 {
        -1
    } else if trigger_matches_spec(scenarios.first(), rs, failure_msg) {
        0
    } else {
        let r = first_match(scenarios.drop_first(), rs, failure_msg);
        if r < 0 {
            -1
        } else {
            1 + r
        }
    }
}

proof fn lemma_first_match_at(
    scenarios: Seq<RecoveryScenario>,
    rs: Seq<LevelResult>,
    msg: Seq<char>,
    i: int,
)
    requires
        0 <= i <= scenarios.len(),
        forall|k: int|
            0 <= k < i ==> !trigger_matches_spec(#[trigger] scenarios[k], rs, msg),
        i < scenarios.len() ==> trigger_matches_spec(scenarios[i], rs, msg),
    ensures
        i < scenarios.len() ==> first_match(scenarios, rs, msg) == i,
        i == scenarios.len() ==> first_match(scenarios, rs, msg) == -1,
    decreases scenarios.len(),
{
    if scenarios.len() > 0 && !trigger_matches_spec(scenarios.first(), rs, msg) {
        let t = scenarios.drop_first();
        assert forall|k: int|
            0 <= k < i - 1 implies !trigger_matches_spec(#[trigger] t[k], rs, msg) by {
            assert(t[k] == scenarios[k + 1]);
        }
        assert(i > 0);
        if i < scenarios.len() {
            assert(t[i - 1] == scenarios[i]);
        }
        lemma_first_match_at(t, rs, msg, i - 1);
    }
}

/// The action a scenario's configuration names.
pub open spec fn scenario_action_rel(
    sc: RecoveryScenario,
    cfg: RecoveryConfig,
    act: RecoveryAction,
) -> bool {
    let a = sc.action@;
    if a == "restore_backup"@ {
        match sc.backup_path {
            Some(p) => act matches RecoveryAction::RestoreBackup { path } && path@ == p@,
            None => act is Restart,
        }
    } else if a == "restart_with_dependencies"@ {
        act is RestartWithDependencies
    } else if a == "graceful_restart"@ {
        act matches RecoveryAction::GracefulRestart { grace_period } && grace_period
            == sc.grace_period
    } else if a == "exponential_backoff"@ {
        act matches RecoveryAction::ExponentialBackoff { max_backoff } && max_backoff == (
        match sc.max_backoff {
            Some(m) => m,
            None => cfg.max_backoff,
        })
    } else if a == "log_warning"@ {
        act is LogWarning
    } else {
        act is Restart
    }
}

impl RecoveryEngine {
    /// Turn the matched scenario into an action; exponential backoff also
    /// advances the process's backoff state.
    pub fn scenario_to_action(
        &mut self,
        process_name: &str,
        scenario: &RecoveryScenario,
        now: u64,
    ) -> (r: RecoveryAction)
        requires
            old(self).wf(),
        ensures
            final(self).wf(),
            final(self).config == old(self).config,
            final(self).stats == old(self).stats,
            scenario_action_rel(*scenario, old(self).config, r),
            scenario.action@ != "exponential_backoff"@ ==> final(self).backoff_state == old(self).backoff_state,
            scenario.action@ == "exponential_backoff"@ ==> backoff_applied(
                old(self).backoff_state@,
                final(self).backoff_state@,
                old(self).config,
                process_name@,
                (match scenario.max_backoff {
                    Some(m) => m as int,
                    None => old(self).config.max_backoff as int,
                }),
                now,
            ),
    {
        proof {
            // The action keywords have distinct lengths, so revealing them
            // lets each branch rule the others out.
            reveal_strlit("restore_backup");
            reveal_strlit("restart_with_dependencies");
            reveal_strlit("graceful_restart");
            reveal_strlit("exponential_backoff");
            reveal_strlit("log_warning");
        }
        proof {
            assert("restore_backup"@.len() == 14);
            assert("restart_with_dependencies"@.len() == 25);
            assert("graceful_restart"@.len() == 16);
            assert("exponential_backoff"@.len() == 19);
        }
        if str_eq(scenario.action.as_str(), "restore_backup") {
            match &scenario.backup_path {
                Some(p) => RecoveryAction::RestoreBackup { path: p.clone() },
                None => RecoveryAction::Restart,
            }
        } else if str_eq(scenario.action.as_str(), "restart_with_dependencies") {
            RecoveryAction::RestartWithDependencies
        } else if str_eq(scenario.action.as_str(), "graceful_restart") {
            RecoveryAction::GracefulRestart { grace_period: scenario.grace_period }
        } else if str_eq(scenario.action.as_str(), "exponential_backoff") {
            let max_backoff = match scenario.max_backoff {
                Some(m) => m,
                None => self.config.max_backoff,
            };
            self.apply_backoff(process_name, max_backoff, now);
            RecoveryAction::ExponentialBackoff { max_backoff }
        } else if str_eq(scenario.action.as_str(), "log_warning") {
            RecoveryAction::LogWarning
        } else {
            RecoveryAction::Restart
        }
    }

    /// Match the verdict against the configured scenarios, first match
    /// first; fall back to a plain restart.  Either way one recovery is
    /// counted.
    pub fn match_scenario(
        &mut self,
        process_name: &str,
        health_result: &HealthCheckResult,
        failure_msg: &str,
        now: u64,
    ) -> (r: RecoveryAction)
        requires
            old(self).wf(),
        ensures
            final(self).wf(),
            final(self).config == old(self).config,
            final(self).stats.total_recoveries == vstd::math::min(
                old(self).stats.total_recoveries + 1,
                u64::MAX as int,
            ),
            final(self).stats.successful == old(self).stats.successful,
            final(self).stats.failed == old(self).stats.failed,
            ({
                let idx = first_match(
                    old(self).config.scenarios@,
                    health_result.level_results@,
                    failure_msg@,
                );
                let counter = if idx >= 0 {
                    old(self).config.scenarios@[idx].name@
                } else {
                    "default_restart"@
                };
                let prev: int = if old(self).stats.by_scenario@.contains_key(counter) {
                    old(self).stats.by_scenario@[counter] as int
                } else {
                    0
                };
                &&& (idx >= 0 ==> scenario_action_rel(
                    old(self).config.scenarios@[idx],
                    old(self).config,
                    r,
                ))
                &&& (idx < 0 ==> r is Restart)
                &&& final(self).stats.by_scenario@ == old(self).stats.by_scenario@.insert(
                    counter,
                    vstd::math::min(prev + 1, u64::MAX as int) as u64,
                )
            }),
    {
        let ghost rs = health_result.level_results@;
        let n = self.config.scenarios.len();
        let found = find_matching(&self.config.scenarios, &health_result.level_results, failure_msg);
        match found {
            Some(j) => {
                proof {
                    lemma_first_match_at(self.config.scenarios@, rs, failure_msg@, j as int);
                }
                self.stats.total_recoveries = bump(self.stats.total_recoveries);
                let key = self.config.scenarios[j].name.clone();
                let prev: u64 = match self.stats.by_scenario.get(key.as_str()) {
                    Some(c) => *c,
                    None => 0,
                };
                self.stats.by_scenario.insert(key, bump(prev));
                let sc = self.config.scenarios[j].duplicate();
                self.scenario_to_action(process_name, &sc, now)
            },
            None => {
                proof {
                    lemma_first_match_at(self.config.scenarios@, rs, failure_msg@, n as int);
                }
                self.stats.total_recoveries = bump(self.stats.total_recoveries);
                let prev: u64 = match self.stats.by_scenario.get("default_restart") {
                    Some(c) => *c,
                    None => 0,
                };
                self.stats.by_scenario.insert(String::from_str("default_restart"), bump(prev));
                RecoveryAction::Restart
            },
        }
    }

    /// Decide how to react to a health result: nothing while healthy or
    /// unknown, the configured last resort once max_restarts is reached,
    /// and otherwise the first matching scenario.
    pub fn evaluate(
        &mut self,
        process_name: &str,
        health_result: &HealthCheckResult,
        restart_count: u32,
        now: u64,
    ) -> (r: Option<RecoveryAction>)
        requires
            old(self).wf(),
        ensures
            final(self).wf(),
            final(self).config == old(self).config,
            health_result.status is Healthy ==> r is None && final(self).backoff_state@ == old(self).backoff_state@.remove(process_name@) && final(self).stats == old(self).stats,
            health_result.status is Unknown ==> r is None && final(self).backoff_state == old(self).backoff_state && final(self).stats == old(self).stats,
            ({
                health_result.status matches HealthStatus::Degraded(msg) ==> failing_rel(
                    *old(self),
                    *final(self),
                    process_name@,
                    *health_result,
                    msg@,
                    restart_count,
                    r,
                )
            }),
            ({
                health_result.status matches HealthStatus::Unhealthy(msg) ==> failing_rel(
                    *old(self),
                    *final(self),
                    process_name@,
                    *health_result,
                    msg@,
                    restart_count,
                    r,
                )
            }),
    {
        match &health_result.status {
            HealthStatus::Healthy => {
                self.backoff_state.remove_key(process_name);
                None
            },
            HealthStatus::Unknown => None,
            HealthStatus::Degraded(msg) => {
                if restart_count >= self.config.max_restarts {
                    Some(self.get_give_up_action(process_name, msg.as_str()))
                } else {
                    Some(self.match_scenario(process_name, health_result, msg.as_str(), now))
                }
            },
            HealthStatus::Unhealthy(msg) => {
                if restart_count >= self.config.max_restarts {
                    Some(self.get_give_up_action(process_name, msg.as_str()))
                } else {
                    Some(self.match_scenario(process_name, health_result, msg.as_str(), now))
                }
            },
        }
    }
}

/// What `evaluate` does for a degraded or unhealthy verdict.
pub open spec fn failing_rel(
    before: RecoveryEngine,
    after: RecoveryEngine,
    name: Seq<char>,
    health_result: HealthCheckResult,
    msg: Seq<char>,
    restart_count: u32,
    r: Option<RecoveryAction>,
) -> bool {
    if restart_count >= before.config.max_restarts {
        // The restart-window gate bypasses the matcher.
        &&& r matches Some(a) && give_up_rel(before.config.give_up_action@, name, msg, a)
        &&& after.stats == before.stats
        &&& after.backoff_state == before.backoff_state
    } else {
        let idx = first_match(before.config.scenarios@, health_result.level_results@, msg);
        &&& r is Some
        &&& (idx >= 0 ==> scenario_action_rel(
            before.config.scenarios@[idx],
            before.config,
            r->0,
        ))
        &&& (idx < 0 ==> r->0 is Restart)
        &&& after.stats.total_recoveries == vstd::math::min(
            before.stats.total_recoveries + 1,
            u64::MAX as int,
        )
        &&& after.stats.successful == before.stats.successful
        &&& after.stats.failed == before.stats.failed
    }
}

/// A saturating increment for statistics counters.
fn bump(n: u64) -> (r: u64)
    ensures
        r == vstd::math::min(n + 1, u64::MAX as int),
{
    if n < u64::MAX {
        n + 1
    } else {
        n
    }
}

/// Index of the first scenario whose trigger matches.
fn find_matching(
    scenarios: &Vec<RecoveryScenario>,
    levels: &Vec<LevelResult>,
    failure_msg: &str,
) -> (r: Option<usize>)
    ensures
        r matches Some(j) ==> j < scenarios@.len() && trigger_matches_spec(
            scenarios@[j as int],
            levels@,
            failure_msg@,
        ) && forall|k: int|
            0 <= k < j ==> !trigger_matches_spec(#[trigger] scenarios@[k], levels@, failure_msg@),
        r is None ==> forall|k: int|
            0 <= k < scenarios@.len() ==> !trigger_matches_spec(
                #[trigger] scenarios@[k],
                levels@,
                failure_msg@,
            ),
{
    let mut i: usize = 0;
    while i < scenarios.len()
        invariant
            0 <= i <= scenarios@.len(),
            forall|k: int|
                0 <= k < i ==> !trigger_matches_spec(
                    #[trigger] scenarios@[k],
                    levels@,
                    failure_msg@,
                ),
        decreases scenarios@.len() - i,
    {
        if trigger_matches(&scenarios[i], levels, failure_msg) {
            return Some(i);
        }
        i = i + 1;
    }
    None
}

impl RecoveryScenario {
    /// An equal copy (element for element).
    pub fn duplicate(&self) -> (r: Self)
        ensures
            r.name@ == self.name@,
            r.trigger@ == self.trigger@,
            r.action@ == self.action@,
            (match self.backup_path {
                Some(p) => r.backup_path matches Some(q) && q@ == p@,
                None => r.backup_path is None,
            }),
            r.grace_period == self.grace_period,
            r.max_backoff == self.max_backoff,
            r.cascade == self.cascade,
            r.notify == self.notify,
    {
        RecoveryScenario {
            name: self.name.clone(),
            trigger: self.trigger.clone(),
            action: self.action.clone(),
            backup_path: match &self.backup_path {
                Some(p) => Some(p.clone()),
                None => None,
            },
            follow_up: match &self.follow_up {
                Some(p) => Some(p.clone()),
                None => None,
            },
            cascade: self.cascade,
            grace_period: self.grace_period,
            max_backoff: self.max_backoff,
            notify: self.notify,
        }
    }
}

// ---------------------------------------------------------------------------
// Execution bookkeeping
// ---------------------------------------------------------------------------
impl RecoveryEngine {
    /// The scenario family an action is reported under.
    pub fn find_scenario_name(&self, action: &RecoveryAction) -> (r: String)
        ensures
            r@ == scenario_family_chars(*action),
    {
        match action {
            RecoveryAction::RestoreBackup { .. } => String::from_str("invalid_json"),
            RecoveryAction::RestartWithDependencies => String::from_str("process_crash"),
            RecoveryAction::GracefulRestart { .. } => String::from_str("unresponsive"),
            RecoveryAction::ExponentialBackoff { .. } => String::from_str("network_timeout"),
            RecoveryAction::LogWarning => String::from_str("llm_error"),
            RecoveryAction::Notify { .. } => String::from_str("give_up"),
            RecoveryAction::GiveUp => String::from_str("give_up"),
            RecoveryAction::Restart => String::from_str("default_restart"),
        }
    }

    /// Book the outcome of an executed action: completed restarts count as
    /// successful recoveries, a notification or a give-up counts as a
    /// failed one, and a log-only action counts as neither.
    pub fn record_execution(
        &mut self,
        action: &RecoveryAction,
        process_name: &str,
        details: &str,
        timestamp: String,
        completed: bool,
    )
        requires
            old(self).wf(),
        ensures
            final(self).wf(),
            final(self).config == old(self).config,
            final(self).backoff_state == old(self).backoff_state,
            final(self).stats.total_recoveries == old(self).stats.total_recoveries,
            completed && (action is RestoreBackup || action is Restart
                || action is RestartWithDependencies || action is GracefulRestart
                || action is ExponentialBackoff) ==> final(self).stats.successful
                == vstd::math::min(old(self).stats.successful + 1, u64::MAX as int) && final(self).stats.failed == old(self).stats.failed,
            completed && (action is Notify || action is GiveUp) ==> final(self).stats.failed
                == vstd::math::min(old(self).stats.failed + 1, u64::MAX as int) && final(self).stats.successful == old(self).stats.successful,
            action is LogWarning || !completed ==> final(self).stats.successful == old(self).stats.successful && final(self).stats.failed == old(self).stats.failed,
            final(self).stats.events@.len() > 0,
            old(self).stats.events@.len() < event_ring_cap() ==> final(self).stats.events@.drop_last() == old(self).stats.events@,
            old(self).stats.events@.len() == event_ring_cap() ==> final(self).stats.events@.drop_last() == old(self).stats.events@.drop_first(),
            ({
                let e = final(self).stats.events@.last();
                &&& e.process_name@ == process_name@
                &&& e.scenario@ == scenario_family_chars(*action)
                &&& e.action@ == action_label_chars(*action)
                &&& e.success == completed
                &&& e.details@ == details@
            }),
    {
        if completed {
            match action {
                RecoveryAction::LogWarning => {},
                RecoveryAction::Notify { .. } => {
                    self.stats.failed = bump(self.stats.failed);
                },
                RecoveryAction::GiveUp => {
                    self.stats.failed = bump(self.stats.failed);
                },
                _ => {
                    self.stats.successful = bump(self.stats.successful);
                },
            }
        }
        let scenario = self.find_scenario_name(action);
        let action_str = action.label();
        self.stats.record_event(
            process_name,
            scenario.as_str(),
            action_str.as_str(),
            completed,
            details,
            timestamp,
        );
    }
}

} // verus!
