//! Configuration model: the processes under supervision, the recovery
//! policy, and the peripheral settings.
//!
//! Reading the TOML file is the application's job; the library holds the
//! validated model and the rules: unique names, resolvable dependencies,
//! non-empty commands, and an acyclic dependency graph.
use vstd::prelude::*;

use crate::graph::{
    acyclic, adj_view, graph_wf, has_edge, is_cycle, lists_each_node_once, deps_first, node_listed,
    sort_graph,
};
use crate::text::str_eq;

verus! {

// ---------------------------------------------------------------------------
// Configuration data
// ---------------------------------------------------------------------------
pub struct GuardianConfig {
    pub processes: Vec<ProcessConfig>,
    pub recovery: RecoveryConfig,
    pub logging: LoggingConfig,
    pub memory: MemoryConfig,
    pub notifications: NotificationConfig,
    pub macos: MacOsConfig,
    pub advanced: AdvancedConfig,
}

pub struct ProcessConfig {
    pub name: String,
    pub command: String,
    pub args: Vec<String>,
    pub working_dir: String,
    pub env: Vec<(String, String)>,
    pub depends_on: Vec<String>,
    pub wait_for_dependency: bool,
    pub auto_restart: bool,
    pub restart_delay: u64,
    pub health: HealthConfig,
    pub ready: ReadyConfig,
}

pub struct HealthConfig {
    pub process_alive: bool,
    pub log_file: Option<String>,
    pub log_activity_timeout: u64,
    pub log_pattern: Option<String>,
    pub config_file: Option<String>,
    pub validate_json: bool,
    pub auto_backup: bool,
    pub max_memory_mb: u64,
    /// CPU limit in tenths of a percent (900 means 90.0%).
    pub max_cpu_tenths: u32,
    pub check_interval: u64,
    pub http_endpoint: Option<String>,
    pub http_timeout: u64,
    pub http_interval: u64,
}

pub struct ReadyConfig {
    pub method: ReadyMethod,
    pub pattern: Option<String>,
    pub port: Option<u16>,
    pub timeout: u64,
}

#[derive(Debug, Clone, Copy, PartialEq, Eq, Structural)]
pub enum ReadyMethod {
    Log,
    Port,
    Time,
}

pub struct RecoveryConfig {
    pub max_restarts: u32,
    pub restart_window: u64,
    pub backoff_strategy: String,
    pub initial_backoff: u64,
    pub max_backoff: u64,
    pub give_up_action: String,
    pub scenarios: Vec<RecoveryScenario>,
}

pub struct RecoveryScenario {
    pub name: String,
    pub trigger: String,
    pub action: String,
    pub backup_path: Option<String>,
    pub follow_up: Option<String>,
    pub cascade: bool,
    pub grace_period: u64,
    pub max_backoff: Option<u64>,
    pub notify: bool,
}

pub struct LoggingConfig {
    pub output: String,
    pub level: String,
    pub rotation: String,
    pub max_size: String,
    pub max_files: u32,
    pub format: String,
    pub timestamp_format: String,
    pub capture_stdout: bool,
    pub capture_stderr: bool,
    pub managed_logs: ManagedLogs,
}

pub struct ManagedLogs {
    pub files: Vec<ManagedLogFile>,
}

pub struct ManagedLogFile {
    pub path: String,
    pub rotation: String,
    pub max_size: String,
    pub max_files: u32,
}

pub struct MemoryConfig {
    pub compression: CompressionConfig,
}

pub struct CompressionConfig {
    pub enabled: bool,
    pub token_threshold: u64,
    pub schedule_enabled: bool,
    pub schedule: String,
    pub schedule_time: String,
    pub target_files: Vec<String>,
    pub method: String,
    pub llm_model: Option<String>,
    pub llm_api_key_env: Option<String>,
    pub max_retries: u32,
    pub retry_delay: u64,
    pub log_compression_stats: bool,
}

pub struct NotificationConfig {
    pub enabled: bool,
    pub email: Option<EmailConfig>,
}

pub struct EmailConfig {
    pub smtp_server: String,
    pub smtp_port: u16,
    pub smtp_tls: bool,
    pub smtp_user: Option<String>,
    pub smtp_password_env: Option<String>,
    pub from: String,
    pub to: Vec<String>,
    pub events: Vec<String>,
    pub template: Option<EmailTemplate>,
}

pub struct EmailTemplate {
    pub subject: Option<String>,
    pub body: Option<String>,
}

pub struct MacOsConfig {
    pub prevent_sleep: bool,
    pub use_caffeinate: bool,
    pub restore_sleep_on_exit: bool,
}

pub struct AdvancedConfig {
    pub supervisor_interval: u64,
    pub spawn_timeout: u64,
    pub shutdown_grace_period: u64,
    pub pid_file: String,
}

// ---------------------------------------------------------------------------
// Default values
// ---------------------------------------------------------------------------
pub fn default_true() -> (r: bool)
    ensures
        r,
{
    true
}

pub fn default_working_dir() -> (r: String)
    ensures
        r@ == "."@,
{
    String::from_str(".")
}

pub fn default_restart_delay() -> (r: u64)
    ensures
        r == 5,
{
    5
}

pub fn default_log_activity_timeout() -> (r: u64)
    ensures
        r == 300,
{
    300
}

pub fn default_max_memory_mb() -> (r: u64)
    ensures
        r == 2048,
{
    2048
}

pub fn default_max_cpu_tenths() -> (r: u32)
    ensures
        r == 900,
{
    900
}

pub fn default_check_interval() -> (r: u64)
    ensures
        r == 30,
{
    30
}

pub fn default_http_timeout() -> (r: u64)
    ensures
        r == 5,
{
    5
}

pub fn default_http_interval() -> (r: u64)
    ensures
        r == 60,
{
    60
}

pub fn default_ready_method() -> (r: ReadyMethod)
    ensures
        r is Time,
{
    ReadyMethod::Time
}

pub fn default_ready_timeout() -> (r: u64)
    ensures
        r == 60,
{
    60
}

pub fn default_max_restarts() -> (r: u32)
    ensures
        r == 5,
{
    5
}

pub fn default_restart_window() -> (r: u64)
    ensures
        r == 300,
{
    300
}

pub fn default_backoff_strategy() -> (r: String)
    ensures
        r@ == "exponential"@,
{
    String::from_str("exponential")
}

pub fn default_initial_backoff() -> (r: u64)
    ensures
        r == 1,
{
    1
}

pub fn default_max_backoff() -> (r: u64)
    ensures
        r == 60,
{
    60
}

pub fn default_give_up_action() -> (r: String)
    ensures
        r@ == "notify"@,
{
    String::from_str("notify")
}

pub fn default_grace_period() -> (r: u64)
    ensures
        r == 30,
{
    30
}

pub fn default_log_output() -> (r: String)
    ensures
        r@ == "guardian.log"@,
{
    String::from_str("guardian.log")
}

pub fn default_log_level() -> (r: String)
    ensures
        r@ == "info"@,
{
    String::from_str("info")
}

pub fn default_rotation() -> (r: String)
    ensures
        r@ == "daily"@,
{
    String::from_str("daily")
}

pub fn default_log_max_size() -> (r: String)
    ensures
        r@ == "50MB"@,
{
    String::from_str("50MB")
}

pub fn default_log_max_files() -> (r: u32)
    ensures
        r == 7,
{
    7
}

pub fn default_log_format() -> (r: String)
    ensures
        r@ == "json"@,
{
    String::from_str("json")
}

pub fn default_timestamp_format() -> (r: String)
    ensures
        r@ == "rfc3339"@,
{
    String::from_str("rfc3339")
}

pub fn default_token_threshold() -> (r: u64)
    ensures
        r == 30000,
{
    30000
}

pub fn default_schedule() -> (r: String)
    ensures
        r@ == "daily"@,
{
    String::from_str("daily")
}

pub fn default_schedule_time() -> (r: String)
    ensures
        r@ == "03:00"@,
{
    String::from_str("03:00")
}

pub fn default_compression_method() -> (r: String)
    ensures
        r@ == "llm"@,
{
    String::from_str("llm")
}

pub fn default_max_retries() -> (r: u32)
    ensures
        r == 3,
{
    3
}

pub fn default_retry_delay() -> (r: u64)
    ensures
        r == 5,
{
    5
}

pub fn default_smtp_port() -> (r: u16)
    ensures
        r == 587,
{
    587
}

pub fn default_supervisor_interval() -> (r: u64)
    ensures
        r == 5,
{
    5
}

pub fn default_spawn_timeout() -> (r: u64)
    ensures
        r == 30,
{
    30
}

pub fn default_shutdown_grace_period() -> (r: u64)
    ensures
        r == 60,
{
    60
}

pub fn default_pid_file() -> (r: String)
    ensures
        r@ == "guardian.pid"@,
{
    String::from_str("guardian.pid")
}

impl Default for HealthConfig {
    fn default() -> (r: Self)
        ensures
            r.process_alive,
            r.log_file is None,
            r.log_activity_timeout == 300,
            r.log_pattern is None,
            r.config_file is None,
            !r.validate_json,
            !r.auto_backup,
            r.max_memory_mb == 2048,
            r.max_cpu_tenths == 900,
            r.check_interval == 30,
            r.http_endpoint is None,
            r.http_timeout == 5,
            r.http_interval == 60,
    {
        HealthConfig {
            process_alive: true,
            log_file: None,
            log_activity_timeout: default_log_activity_timeout(),
            log_pattern: None,
            config_file: None,
            validate_json: false,
            auto_backup: false,
            max_memory_mb: default_max_memory_mb(),
            max_cpu_tenths: default_max_cpu_tenths(),
            check_interval: default_check_interval(),
            http_endpoint: None,
            http_timeout: default_http_timeout(),
            http_interval: default_http_interval(),
        }
    }
}

impl Default for ReadyConfig {
    fn default() -> (r: Self)
        ensures
            r.method is Time,
            r.pattern is None,
            r.port is None,
            r.timeout == 60,
    {
        ReadyConfig {
            method: ReadyMethod::Time,
            pattern: None,
            port: None,
            timeout: default_ready_timeout(),
        }
    }
}

impl Default for RecoveryConfig {
    fn default() -> (r: Self)
        ensures
            r.max_restarts == 5,
            r.restart_window == 300,
            r.backoff_strategy@ == "exponential"@,
            r.initial_backoff == 1,
            r.max_backoff == 60,
            r.give_up_action@ == "notify"@,
            r.scenarios@.len() == 0,
    {
        RecoveryConfig {
            max_restarts: default_max_restarts(),
            restart_window: default_restart_window(),
            backoff_strategy: default_backoff_strategy(),
            initial_backoff: default_initial_backoff(),
            max_backoff: default_max_backoff(),
            give_up_action: default_give_up_action(),
            scenarios: Vec::new(),
        }
    }
}

impl Default for LoggingConfig {
    fn default() -> (r: Self)
        ensures
            r.output@ == "guardian.log"@,
            r.level@ == "info"@,
            r.rotation@ == "daily"@,
            r.max_size@ == "50MB"@,
            r.max_files == 7,
            r.format@ == "json"@,
            r.timestamp_format@ == "rfc3339"@,
            r.capture_stdout,
            r.capture_stderr,
            r.managed_logs.files@.len() == 0,
    {
        LoggingConfig {
            output: default_log_output(),
            level: default_log_level(),
            rotation: default_rotation(),
            max_size: default_log_max_size(),
            max_files: default_log_max_files(),
            format: default_log_format(),
            timestamp_format: default_timestamp_format(),
            capture_stdout: true,
            capture_stderr: true,
            managed_logs: ManagedLogs { files: Vec::new() },
        }
    }
}

impl Default for MemoryConfig {
    fn default() -> (r: Self)
        ensures
            !r.compression.enabled,
    {
        MemoryConfig { compression: CompressionConfig::default() }
    }
}

impl Default for CompressionConfig {
    fn default() -> (r: Self)
        ensures
            !r.enabled,
            r.token_threshold == 30000,
            !r.schedule_enabled,
            r.schedule@ == "daily"@,
            r.schedule_time@ == "03:00"@,
            r.target_files@.len() == 0,
            r.method@ == "llm"@,
            r.llm_model is None,
            r.llm_api_key_env is None,
            r.max_retries == 3,
            r.retry_delay == 5,
            r.log_compression_stats,
    {
        CompressionConfig {
            enabled: false,
            token_threshold: default_token_threshold(),
            schedule_enabled: false,
            schedule: default_schedule(),
            schedule_time: default_schedule_time(),
            target_files: Vec::new(),
            method: default_compression_method(),
            llm_model: None,
            llm_api_key_env: None,
            max_retries: default_max_retries(),
            retry_delay: default_retry_delay(),
            log_compression_stats: true,
        }
    }
}

impl Default for NotificationConfig {
    fn default() -> (r: Self)
        ensures
            !r.enabled,
            r.email is None,
    {
        NotificationConfig { enabled: false, email: None }
    }
}

impl Default for MacOsConfig {
    fn default() -> (r: Self)
        ensures
            !r.prevent_sleep,
            r.use_caffeinate,
            r.restore_sleep_on_exit,
    {
        MacOsConfig { prevent_sleep: false, use_caffeinate: true, restore_sleep_on_exit: true }
    }
}

impl Default for AdvancedConfig {
    fn default() -> (r: Self)
        ensures
            r.supervisor_interval == 5,
            r.spawn_timeout == 30,
            r.shutdown_grace_period == 60,
            r.pid_file@ == "guardian.pid"@,
    {
        AdvancedConfig {
            supervisor_interval: default_supervisor_interval(),
            spawn_timeout: default_spawn_timeout(),
            shutdown_grace_period: default_shutdown_grace_period(),
            pid_file: default_pid_file(),
        }
    }
}

impl ProcessConfig {
    /// A process entry with every optional setting at its default.
    pub fn new(name: String, command: String) -> (r: Self)
        ensures
            r.name@ == name@,
            r.command@ == command@,
            r.args@.len() == 0,
            r.working_dir@ == "."@,
            r.env@.len() == 0,
            r.depends_on@.len() == 0,
            r.wait_for_dependency,
            r.auto_restart,
            r.restart_delay == 5,
            r.health.process_alive,
            r.health.max_memory_mb == 2048,
            r.ready.method is Time,
    {
        ProcessConfig {
            name,
            command,
            args: Vec::new(),
            working_dir: default_working_dir(),
            env: Vec::new(),
            depends_on: Vec::new(),
            wait_for_dependency: default_true(),
            auto_restart: default_true(),
            restart_delay: default_restart_delay(),
            health: HealthConfig::default(),
            ready: ReadyConfig::default(),
        }
    }
}

// ---------------------------------------------------------------------------
// Tilde expansion
// ---------------------------------------------------------------------------
/// Whether a path names the home directory: `~/` or `~\`.
pub open spec fn tilde_prefixed(p: Seq<char>) -> bool {
    p.len() >= 2 && p[0] == '~' && (p[1] == '/' || p[1] == '\\')
}

/// The path with a leading `~` replaced by the home directory.
pub open spec fn tilde_expanded(p: Seq<char>, home: Seq<char>) -> Seq<char> {
    if tilde_prefixed(p) {
        home + p.skip(1)
    } else {
        p
    }
}

/// Expand a leading `~/` (or `~\`) against the home directory.
pub fn expand_tilde(path: &str, home: &str) -> (r: String)
    ensures
        r@ == tilde_expanded(path@, home@),
{
    let len = path.unicode_len();
    if len >= 2 && path.get_char(0) == '~' && (path.get_char(1) == '/' || path.get_char(1)
        == '\\') {
        let rest = path.substring_char(1, len);
        let r = String::from_str(home).concat(rest);
        assert(r@ =~= tilde_expanded(path@, home@));
        r
    } else {
        String::from_str(path)
    }
}

/// The per-process outcome of `expand_paths`: the path fields expanded, the
/// identifying fields kept.
pub open spec fn process_paths_expanded(p: ProcessConfig, q: ProcessConfig, home: Seq<char>) -> bool {
    &&& p.working_dir@ == tilde_expanded(q.working_dir@, home)
    &&& (match q.health.log_file {
        Some(f) => p.health.log_file matches Some(g) && g@ == tilde_expanded(f@, home),
        None => p.health.log_file is None,
    })
    &&& (match q.health.config_file {
        Some(f) => p.health.config_file matches Some(g) && g@ == tilde_expanded(f@, home),
        None => p.health.config_file is None,
    })
    &&& p.name@ == q.name@
    &&& p.command@ == q.command@
    &&& p.depends_on@ == q.depends_on@
}

/// Expand `~` in every path field of the configuration.
pub fn expand_paths(config: &mut GuardianConfig, home: &str)
    ensures
        final(config).processes@.len() == old(config).processes@.len(),
        forall|i: int|
            0 <= i < old(config).processes@.len() ==> process_paths_expanded(
                #[trigger] final(config).processes@[i],
                old(config).processes@[i],
                home@,
            ),
        final(config).recovery.scenarios@.len() == old(config).recovery.scenarios@.len(),
        forall|i: int|
            0 <= i < old(config).recovery.scenarios@.len() ==> {
                let s = #[trigger] final(config).recovery.scenarios@[i];
                let t = old(config).recovery.scenarios@[i];
                match t.backup_path {
                    Some(f) => s.backup_path matches Some(g) && g@ == tilde_expanded(f@, home@),
                    None => s.backup_path is None,
                }
            },
{
    let n = config.processes.len();
    let mut i: usize = 0;
    while i < n
        invariant
            n == config.processes@.len(),
            n == old(config).processes@.len(),
            0 <= i <= n,
            config.recovery.scenarios@ == old(config).recovery.scenarios@,
            forall|k: int|
                i <= k < n ==> (#[trigger] config.processes@[k]) == old(config).processes@[k],
            forall|k: int|
                0 <= k < i ==> process_paths_expanded(
                    #[trigger] config.processes@[k],
                    old(config).processes@[k],
                    home@,
                ),
        decreases n - i,
    {
        let wd = expand_tilde(config.processes[i].working_dir.as_str(), home);
        config.processes[i].working_dir = wd;
        let lf = match &config.processes[i].health.log_file {
            Some(f) => Some(expand_tilde(f.as_str(), home)),
            None => None,
        };
        config.processes[i].health.log_file = lf;
        let cf = match &config.processes[i].health.config_file {
            Some(f) => Some(expand_tilde(f.as_str(), home)),
            None => None,
        };
        config.processes[i].health.config_file = cf;
        i = i + 1;
    }
    let ghost mid_processes = config.processes@;
    let m = config.recovery.scenarios.len();
    let mut j: usize = 0;
    while j < m
        invariant
            m == config.recovery.scenarios@.len(),
            m == old(config).recovery.scenarios@.len(),
            0 <= j <= m,
            config.processes@ == mid_processes,
            mid_processes.len() == old(config).processes@.len(),
            forall|k: int|
                0 <= k < mid_processes.len() ==> process_paths_expanded(
                    #[trigger] mid_processes[k],
                    old(config).processes@[k],
                    home@,
                ),
            forall|k: int|
                j <= k < m ==> (#[trigger] config.recovery.scenarios@[k]) == old(
                    config,
                ).recovery.scenarios@[k],
            forall|k: int|
                0 <= k < j ==> {
                    let s = #[trigger] config.recovery.scenarios@[k];
                    let t = old(config).recovery.scenarios@[k];
                    match t.backup_path {
                        Some(f) => s.backup_path matches Some(g) && g@ == tilde_expanded(
                            f@,
                            home@,
                        ),
                        None => s.backup_path is None,
                    }
                },
        decreases m - j,
    {
        let bp = match &config.recovery.scenarios[j].backup_path {
            Some(f) => Some(expand_tilde(f.as_str(), home)),
            None => None,
        };
        config.recovery.scenarios[j].backup_path = bp;
        j = j + 1;
    }
}

// ---------------------------------------------------------------------------
// Validation
// ---------------------------------------------------------------------------
/// Some process is named `name`.
pub open spec fn name_resolves(ps: Seq<ProcessConfig>, name: Seq<char>) -> bool {
    exists|k: int| 0 <= k < ps.len() && (#[trigger] ps[k]).name@ == name
}

/// Every declared dependency names a defined process.
pub open spec fn deps_resolve(ps: Seq<ProcessConfig>) -> bool {
    forall|i: int, j: int|
        0 <= i < ps.len() && 0 <= j < (#[trigger] ps[i]).depends_on@.len() ==> name_resolves(
            ps,
            (#[trigger] ps[i].depends_on@[j])@,
        )
}

/// No two processes share a name.
pub open spec fn unique_names(ps: Seq<ProcessConfig>) -> bool {
    forall|i: int, j: int|
        0 <= i < j < ps.len() ==> (#[trigger] ps[i]).name@ != (#[trigger] ps[j]).name@
}

/// Every process has a command.
pub open spec fn nonempty_commands(ps: Seq<ProcessConfig>) -> bool {
    forall|i: int| 0 <= i < ps.len() ==> (#[trigger] ps[i]).command@.len() > 0
}

/// Process `a` depends on process `b`.
pub open spec fn dep_edge(ps: Seq<ProcessConfig>, a: int, b: int) -> bool {
    &&& 0 <= a < ps.len()
    &&& 0 <= b < ps.len()
    &&& exists|j: int| 0 <= j < ps[a].depends_on@.len() && (#[trigger] ps[a].depends_on@[j])@
        == ps[b].name@
}

/// A dependency cycle among the processes.
pub open spec fn is_dep_cycle(ps: Seq<ProcessConfig>, p: Seq<int>) -> bool {
    &&& p.len() >= 2
    &&& p.first() == p.last()
    &&& forall|k: int| 0 <= k < p.len() - 1 ==> dep_edge(ps, #[trigger] p[k], p[k + 1])
}

/// The dependency relation has no cycle.
pub open spec fn dep_acyclic(ps: Seq<ProcessConfig>) -> bool {
    !exists|p: Seq<int>| is_dep_cycle(ps, p)
}

/// What `validate_config` accepts.
pub open spec fn config_valid(c: &GuardianConfig) -> bool {
    &&& c.processes@.len() > 0
    &&& unique_names(c.processes@)
    &&& deps_resolve(c.processes@)
    &&& nonempty_commands(c.processes@)
    &&& dep_acyclic(c.processes@)
}

/// Why a configuration was rejected.
#[derive(Debug)]
pub enum ConfigError {
    NoProcesses,
    DuplicateName { name: String },
    MissingDependency { process: String, dependency: String },
    EmptyCommand { process: String },
    CyclicDependency { from: String, to: String },
}

impl ConfigError {
    /// The diagnostic shown to the user.
    pub fn message(&self) -> (r: String)
        ensures
            self matches ConfigError::NoProcesses ==> r@ == "No processes defined in configuration"@,
            self matches ConfigError::DuplicateName { name } ==> r@ == "Duplicate process name: '"@
                + name@ + "'"@,
            self matches ConfigError::MissingDependency { process, dependency } ==> r@
                == "Process '"@ + process@ + "' depends on '"@ + dependency@
                + "', which is not defined"@,
            self matches ConfigError::EmptyCommand { process } ==> r@ == "Process '"@ + process@
                + "' has an empty command"@,
            self matches ConfigError::CyclicDependency { from, to } ==> r@
                == "Cyclic dependency detected: '"@ + from@ + "' -> '"@ + to@ + "' forms a cycle"@,
    {
        match self {
            ConfigError::NoProcesses => String::from_str("No processes defined in configuration"),
            ConfigError::DuplicateName { name } => {
                let r = String::from_str("Duplicate process name: '").concat(name.as_str()).concat(
                    "'",
                );
                assert(r@ =~= "Duplicate process name: '"@ + name@ + "'"@);
                r
            },
            ConfigError::MissingDependency { process, dependency } => {
                let r = String::from_str("Process '").concat(process.as_str()).concat(
                    "' depends on '",
                ).concat(dependency.as_str()).concat("', which is not defined");
                assert(r@ =~= "Process '"@ + process@ + "' depends on '"@ + dependency@
                    + "', which is not defined"@);
                r
            },
            ConfigError::EmptyCommand { process } => {
                let r = String::from_str("Process '").concat(process.as_str()).concat(
                    "' has an empty command",
                );
                assert(r@ =~= "Process '"@ + process@ + "' has an empty command"@);
                r
            },
            ConfigError::CyclicDependency { from, to } => {
                let r = String::from_str("Cyclic dependency detected: '").concat(
                    from.as_str(),
                ).concat("' -> '").concat(to.as_str()).concat("' forms a cycle");
                assert(r@ =~= "Cyclic dependency detected: '"@ + from@ + "' -> '"@ + to@
                    + "' forms a cycle"@);
                r
            },
        }
    }
}

/// Index of the process named `name`.
fn find_process(ps: &Vec<ProcessConfig>, name: &str) -> (r: Option<usize>)
    ensures
        r matches Some(k) ==> k < ps@.len() && ps@[k as int].name@ == name@,
        r is None ==> !name_resolves(ps@, name@),
{
    let mut k: usize = 0;
    while k < ps.len()
        invariant
            0 <= k <= ps@.len(),
            forall|m: int| 0 <= m < k ==> (#[trigger] ps@[m]).name@ != name@,
        decreases ps@.len() - k,
    {
        if str_eq(ps[k].name.as_str(), name) {
            return Some(k);
        }
        k = k + 1;
    }
    None
}

/// Resolve every dependency name to a process index.  `Err((i, j))` marks
/// the `j`-th dependency of process `i` as unresolvable.
fn build_dep_graph(ps: &Vec<ProcessConfig>) -> (r: Result<Vec<Vec<usize>>, (usize, usize)>)
    requires
        unique_names(ps@),
    ensures
        r matches Ok(g) ==> {
            &&& g@.len() == ps@.len()
            &&& graph_wf(adj_view(&g))
            &&& forall|a: int, b: int|
                #![trigger has_edge(adj_view(&g), a, b)]
                #![trigger dep_edge(ps@, a, b)]
                has_edge(adj_view(&g), a, b) <==> dep_edge(ps@, a, b)
            &&& deps_resolve(ps@)
        },
        r matches Err(e) ==> e.0 < ps@.len() && e.1 < ps@[e.0 as int].depends_on@.len()
            && !name_resolves(ps@, ps@[e.0 as int].depends_on@[e.1 as int]@),
        r is Ok <==> deps_resolve(ps@),
{
    let n = ps.len();
    let mut g: Vec<Vec<usize>> = Vec::new();
    let mut i: usize = 0;
    while i < n
        invariant
            unique_names(ps@),
            n == ps@.len(),
            0 <= i <= n,
            g@.len() == i,
            forall|a: int|
                0 <= a < i ==> (#[trigger] g@[a])@.len() == ps@[a].depends_on@.len(),
            forall|a: int, j: int|
                0 <= a < i && 0 <= j < ps@[a].depends_on@.len() ==> {
                    let t = (#[trigger] g@[a]@[j]);
                    t < n && ps@[t as int].name@ == ps@[a].depends_on@[j]@
                },
        decreases n - i,
    {
        let deps_len = ps[i].depends_on.len();
        let mut row: Vec<usize> = Vec::new();
        let mut j: usize = 0;
        while j < deps_len
            invariant
                unique_names(ps@),
                n == ps@.len(),
                i < n,
                deps_len == ps@[i as int].depends_on@.len(),
                0 <= j <= deps_len,
                row@.len() == j,
                forall|m: int|
                    0 <= m < j ==> {
                        let t = #[trigger] row@[m];
                        t < n && ps@[t as int].name@ == ps@[i as int].depends_on@[m]@
                    },
            decreases deps_len - j,
        {
            match find_process(ps, ps[i].depends_on[j].as_str()) {
                Some(k) => {
                    row.push(k);
                },
                None => {
                    return Err((i, j));
                },
            }
            j = j + 1;
        }
        g.push(row);
        i = i + 1;
    }
    proof {
        let gs = adj_view(&g);
        assert(gs.len() == ps@.len());
        assert forall|a: int, b: int|
            #![trigger has_edge(gs, a, b)]
            #![trigger dep_edge(ps@, a, b)]
            has_edge(gs, a, b) <==> dep_edge(ps@, a, b) by {
            if has_edge(gs, a, b) {
                let j = choose|j: int| 0 <= j < gs[a].len() && gs[a][j] == b;
                assert(g@[a]@[j] == b);
                assert(ps@[b].name@ == ps@[a].depends_on@[j]@);
                assert(dep_edge(ps@, a, b));
            }
            if dep_edge(ps@, a, b) {
                let j = choose|j: int|
                    0 <= j < ps@[a].depends_on@.len() && (#[trigger] ps@[a].depends_on@[j])@
                        == ps@[b].name@;
                let t = g@[a]@[j];
                assert(ps@[t as int].name@ == ps@[a].depends_on@[j]@);
                // Unique names force the resolved index to be `b`.
                if t as int != b {
                    assert(ps@[t as int].name@ == ps@[b].name@);
                    assert(false);
                }
                assert(gs[a][j] == b);
            }
        }
        assert(graph_wf(gs)) by {
            assert forall|a: int, j: int|
                0 <= a < gs.len() && 0 <= j < gs[a].len() implies (#[trigger] gs[a][j])
                < gs.len() by {
                assert(g@[a]@[j] < n);
            }
        }
        assert(deps_resolve(ps@)) by {
            assert forall|a: int, j: int|
                0 <= a < ps@.len() && 0 <= j < ps@[a].depends_on@.len() implies name_resolves(
                ps@,
                (#[trigger] ps@[a].depends_on@[j])@,
            ) by {
                let t = g@[a]@[j];
                assert(ps@[t as int].name@ == ps@[a].depends_on@[j]@);
            }
        }
    }
    Ok(g)
}

/// Index-level cycles and name-level cycles coincide when the edges do.
proof fn lemma_dep_cycle_equiv(ps: Seq<ProcessConfig>, gs: Seq<Seq<usize>>)
    requires
        gs.len() == ps.len(),
        forall|a: int, b: int|
            #![trigger has_edge(gs, a, b)]
            #![trigger dep_edge(ps, a, b)]
            has_edge(gs, a, b) <==> dep_edge(ps, a, b),
    ensures
        dep_acyclic(ps) <==> acyclic(gs),
{
    assert forall|p: Seq<int>| #[trigger] is_cycle(gs, p) implies is_dep_cycle(ps, p) by {
        assert forall|k: int| 0 <= k < p.len() - 1 implies dep_edge(ps, #[trigger] p[k], p[k + 1]) by {
            assert(has_edge(gs, p[k], p[k + 1]));
        }
    }
    assert forall|p: Seq<int>| #[trigger] is_dep_cycle(ps, p) implies is_cycle(gs, p) by {
        assert forall|k: int| 0 <= k < p.len() - 1 implies has_edge(gs, #[trigger] p[k], p[k + 1]) by {
            assert(dep_edge(ps, p[k], p[k + 1]));
        }
    }
    if !dep_acyclic(ps) {
        let p = choose|p: Seq<int>| is_dep_cycle(ps, p);
        assert(is_cycle(gs, p));
    }
    if !acyclic(gs) {
        let p = choose|p: Seq<int>| is_cycle(gs, p);
        assert(is_dep_cycle(ps, p));
    }
}

fn check_unique_names(ps: &Vec<ProcessConfig>) -> (r: Option<usize>)
    ensures
        r matches Some(i) ==> i < ps@.len() && !unique_names(ps@),
        r is None ==> unique_names(ps@),
{
    let n = ps.len();
    let mut i: usize = 0;
    while i < n
        invariant
            n == ps@.len(),
            0 <= i <= n,
            forall|a: int, b: int|
                0 <= a < b < ps@.len() && a < i ==> (#[trigger] ps@[a]).name@ != (
                #[trigger] ps@[b]).name@,
        decreases n - i,
    {
        let mut j: usize = i + 1;
        while j < n
            invariant
                n == ps@.len(),
                0 <= i < n,
                i < j <= n,
                forall|b: int| i < b < j ==> (#[trigger] ps@[b]).name@ != ps@[i as int].name@,
            decreases n - j,
        {
            if str_eq(ps[i].name.as_str(), ps[j].name.as_str()) {
                assert(!unique_names(ps@));
                return Some(j);
            }
            j = j + 1;
        }
        i = i + 1;
    }
    None
}

/// Check the configuration: processes exist, names are unique, dependencies
/// resolve, commands are non-empty, and the dependency graph is acyclic.
pub fn validate_config(config: &GuardianConfig) -> (r: Result<(), ConfigError>)
    ensures
        r is Ok <==> config_valid(config),
        r matches Err(e) ==> match e {
            ConfigError::NoProcesses => config.processes@.len() == 0,
            ConfigError::DuplicateName { .. } => !unique_names(config.processes@),
            ConfigError::MissingDependency { .. } => !deps_resolve(config.processes@),
            ConfigError::EmptyCommand { .. } => !nonempty_commands(config.processes@),
            ConfigError::CyclicDependency { .. } => !dep_acyclic(config.processes@),
        },
{
    let ps = &config.processes;
    let n = ps.len();
    if n == 0 {
        return Err(ConfigError::NoProcesses);
    }
    if let Some(j) = check_unique_names(ps) {
        return Err(ConfigError::DuplicateName { name: ps[j].name.clone() });
    }
    let mut i: usize = 0;
    while i < n
        invariant
            ps@ == config.processes@,
            config.processes@.len() > 0,
            unique_names(config.processes@),
            n == ps@.len(),
            0 <= i <= n,
            forall|a: int| 0 <= a < i ==> (#[trigger] ps@[a]).command@.len() > 0,
        decreases n - i,
    {
        if ps[i].command.as_str().is_empty() {
            proof {
                assert(ps@[i as int].command@.len() == 0);
                assert(!nonempty_commands(ps@));
            }
            return Err(ConfigError::EmptyCommand { process: ps[i].name.clone() });
        }
        i = i + 1;
    }
    match build_dep_graph(ps) {
        Err((a, j)) => {
            Err(
                ConfigError::MissingDependency {
                    process: ps[a].name.clone(),
                    dependency: ps[a].depends_on[j].clone(),
                },
            )
        },
        Ok(g) => {
            match sort_graph(&g) {
                Err(e) => {
                    proof {
                        lemma_dep_cycle_equiv(ps@, adj_view(&g));
                    }
                    Err(
                        ConfigError::CyclicDependency {
                            from: ps[e.0].name.clone(),
                            to: ps[e.1].name.clone(),
                        },
                    )
                },
                Ok(_) => {
                    proof {
                        lemma_dep_cycle_equiv(ps@, adj_view(&g));
                    }
                    Ok(())
                },
            }
        },
    }
}

// ---------------------------------------------------------------------------
// Start order
// ---------------------------------------------------------------------------
/// `name` stands in the order before position `upto`.
pub open spec fn order_has_name(order: Seq<String>, name: Seq<char>, upto: int) -> bool {
    exists|q: int| 0 <= q < upto && (#[trigger] order[q])@ == name
}

/// The produced start order: every process exactly once, each after all of
/// its dependencies.
pub open spec fn start_order_ok(ps: Seq<ProcessConfig>, order: Seq<String>) -> bool {
    &&& order.len() == ps.len()
    &&& forall|i: int|
        0 <= i < ps.len() ==> order_has_name(order, (#[trigger] ps[i]).name@, order.len() as int)
    &&& forall|q1: int, q2: int|
        0 <= q1 < q2 < order.len() ==> (#[trigger] order[q1])@ != (#[trigger] order[q2])@
    &&& forall|q: int, i: int, j: int|
        #![trigger order[q], ps[i].depends_on@[j]]
        0 <= q < order.len() && 0 <= i < ps.len() && order[q]@ == ps[i].name@ && 0 <= j
            < ps[i].depends_on@.len() ==> order_has_name(order, ps[i].depends_on@[j]@, q)
}

/// Compute the start order: process names, dependencies first.
pub fn topological_sort(processes: &Vec<ProcessConfig>) -> (r: Result<Vec<String>, ConfigError>)
    ensures
        r is Ok <==> unique_names(processes@) && deps_resolve(processes@) && dep_acyclic(
            processes@,
        ),
        r matches Ok(order) ==> start_order_ok(processes@, order@),
{
    let ps = processes;
    if let Some(j) = check_unique_names(ps) {
        return Err(ConfigError::DuplicateName { name: ps[j].name.clone() });
    }
    let g = match build_dep_graph(ps) {
        Ok(g) => g,
        Err((a, j)) => {
            return Err(
                ConfigError::MissingDependency {
                    process: ps[a].name.clone(),
                    dependency: ps[a].depends_on[j].clone(),
                },
            );
        },
    };
    let idx_order = match sort_graph(&g) {
        Ok(o) => o,
        Err(e) => {
            proof {
                lemma_dep_cycle_equiv(ps@, adj_view(&g));
            }
            return Err(
                ConfigError::CyclicDependency {
                    from: ps[e.0].name.clone(),
                    to: ps[e.1].name.clone(),
                },
            );
        },
    };
    proof {
        lemma_dep_cycle_equiv(ps@, adj_view(&g));
    }
    let ghost gs = adj_view(&g);
    let n = idx_order.len();
    let mut order: Vec<String> = Vec::new();
    let mut q: usize = 0;
    while q < n
        invariant
            n == idx_order@.len(),
            0 <= q <= n,
            order@.len() == q,
            forall|m: int|
                0 <= m < q ==> (#[trigger] order@[m])@ == ps@[idx_order@[m] as int].name@,
            forall|m: int| 0 <= m < n ==> (#[trigger] idx_order@[m]) < ps@.len(),
        decreases n - q,
    {
        order.push(ps[idx_order[q]].name.clone());
        q = q + 1;
    }
    proof {
        let pss = ps@;
        let ord = order@;
        let idx = idx_order@;
        assert(lists_each_node_once(idx, pss.len() as nat));
        assert forall|i: int|
            0 <= i < pss.len() implies order_has_name(ord, (#[trigger] pss[i]).name@, ord.len() as int) by {
            assert(node_listed(idx, i));
            let m = choose|m: int| 0 <= m < idx.len() && idx[m] == i;
            assert(ord[m]@ == pss[i].name@);
        }
        assert forall|q1: int, q2: int| 0 <= q1 < q2 < ord.len() implies (#[trigger] ord[q1])@ != (
        #[trigger] ord[q2])@ by {
            let a = idx[q1] as int;
            let b = idx[q2] as int;
            assert(a != b);
            assert(ord[q1]@ == pss[a].name@ && ord[q2]@ == pss[b].name@);
            if a < b {
                assert(pss[a].name@ != pss[b].name@);
            } else {
                assert(pss[b].name@ != pss[a].name@);
            }
        }
        assert forall|qq: int, i: int, j: int|
            #![trigger ord[qq], pss[i].depends_on@[j]]
            0 <= qq < ord.len() && 0 <= i < pss.len() && ord[qq]@ == pss[i].name@ && 0 <= j
                < pss[i].depends_on@.len() implies order_has_name(
            ord,
            pss[i].depends_on@[j]@,
            qq,
        ) by {
            let a = idx[qq] as int;
            assert(ord[qq]@ == pss[a].name@);
            if a != i {
                if a < i {
                    assert(pss[a].name@ != pss[i].name@);
                } else {
                    assert(pss[i].name@ != pss[a].name@);
                }
                assert(false);
            }
            let dname = pss[i].depends_on@[j]@;
            assert(name_resolves(pss, dname));
            let b = choose|k: int| 0 <= k < pss.len() && (#[trigger] pss[k]).name@ == dname;
            assert(dep_edge(pss, i, b));
            assert(has_edge(gs, idx[qq] as int, b));
            assert(deps_first(gs, idx));
            let q2 = choose|q2: int| 0 <= q2 < qq && idx[q2] == b;
            assert(ord[q2]@ == pss[b].name@);
            assert(order_has_name(ord, dname, qq));
        }
    }
    Ok(order)
}

// ---------------------------------------------------------------------------
// Copying configuration values
// ---------------------------------------------------------------------------
/// An equal copy of a vector of strings.
pub fn dup_strings(v: &Vec<String>) -> (r: Vec<String>)
    ensures
        r@ == v@,
{
    let mut r: Vec<String> = Vec::new();
    let mut i: usize = 0;
    while i < v.len()
        invariant
            0 <= i <= v@.len(),
            r@.len() == i,
            forall|k: int| 0 <= k < i ==> (#[trigger] r@[k]) == v@[k],
        decreases v@.len() - i,
    {
        r.push(v[i].clone());
        i = i + 1;
    }
    proof {
        assert(r@ =~= v@);
    }
    r
}

fn dup_opt_string(v: &Option<String>) -> (r: Option<String>)
    ensures
        r == *v,
{
    match v {
        Some(s) => Some(s.clone()),
        None => None,
    }
}

fn dup_env(v: &Vec<(String, String)>) -> (r: Vec<(String, String)>)
    ensures
        r@ == v@,
{
    let mut r: Vec<(String, String)> = Vec::new();
    let mut i: usize = 0;
    while i < v.len()
        invariant
            0 <= i <= v@.len(),
            r@.len() == i,
            forall|k: int| 0 <= k < i ==> (#[trigger] r@[k]) == v@[k],
        decreases v@.len() - i,
    {
        let (k, val) = (&v[i].0, &v[i].1);
        r.push((k.clone(), val.clone()));
        proof {
            assert(r@.last() == v@[i as int]);
        }
        i = i + 1;
    }
    proof {
        assert(r@ =~= v@);
    }
    r
}

impl HealthConfig {
    /// An equal copy.
    pub fn duplicate(&self) -> (r: Self)
        ensures
            r == *self,
    {
        HealthConfig {
            process_alive: self.process_alive,
            log_file: dup_opt_string(&self.log_file),
            log_activity_timeout: self.log_activity_timeout,
            log_pattern: dup_opt_string(&self.log_pattern),
            config_file: dup_opt_string(&self.config_file),
            validate_json: self.validate_json,
            auto_backup: self.auto_backup,
            max_memory_mb: self.max_memory_mb,
            max_cpu_tenths: self.max_cpu_tenths,
            check_interval: self.check_interval,
            http_endpoint: dup_opt_string(&self.http_endpoint),
            http_timeout: self.http_timeout,
            http_interval: self.http_interval,
        }
    }
}

impl ReadyConfig {
    /// An equal copy.
    pub fn duplicate(&self) -> (r: Self)
        ensures
            r == *self,
    {
        ReadyConfig {
            method: self.method,
            pattern: dup_opt_string(&self.pattern),
            port: self.port,
            timeout: self.timeout,
        }
    }
}

impl ProcessConfig {
    /// A copy equal in every field.
    pub fn duplicate(&self) -> (r: Self)
        ensures
            r.name == self.name,
            r.command == self.command,
            r.args@ == self.args@,
            r.working_dir == self.working_dir,
            r.env@ == self.env@,
            r.depends_on@ == self.depends_on@,
            r.wait_for_dependency == self.wait_for_dependency,
            r.auto_restart == self.auto_restart,
            r.restart_delay == self.restart_delay,
            r.health == self.health,
            r.ready == self.ready,
    {
        ProcessConfig {
            name: self.name.clone(),
            command: self.command.clone(),
            args: dup_strings(&self.args),
            working_dir: self.working_dir.clone(),
            env: dup_env(&self.env),
            depends_on: dup_strings(&self.depends_on),
            wait_for_dependency: self.wait_for_dependency,
            auto_restart: self.auto_restart,
            restart_delay: self.restart_delay,
            health: self.health.duplicate(),
            ready: self.ready.duplicate(),
        }
    }
}

} // verus!
