//! Process records and the registry that owns them.
//!
//! A record tracks one managed process's lifecycle state.  The registry is
//! the only mutator of records; spawning and signalling children is the
//! application's job, which reports back through the transition methods.
use vstd::prelude::*;

use crate::config::{GuardianConfig, ProcessConfig};
use crate::strmap::StrMap;
use crate::text::{dec_digits, str_lt, u64_to_string};

verus! {

#[derive(Debug, Clone, Copy, PartialEq, Eq, Structural)]
pub enum ProcessState {
    Stopped,
    Starting,
    Running,
    Stopping,
    Failed,
}

impl ProcessState {
    /// The rendering used in status output.
    pub fn label(&self) -> (r: String)
        ensures
            self is Stopped ==> r@ == "stopped"@,
            self is Starting ==> r@ == "starting"@,
            self is Running ==> r@ == "online"@,
            self is Stopping ==> r@ == "stopping"@,
            self is Failed ==> r@ == "failed"@,
    {
        match self {
            ProcessState::Stopped => String::from_str("stopped"),
            ProcessState::Starting => String::from_str("starting"),
            ProcessState::Running => String::from_str("online"),
            ProcessState::Stopping => String::from_str("stopping"),
            ProcessState::Failed => String::from_str("failed"),
        }
    }
}

// ---------------------------------------------------------------------------
// One managed process
// ---------------------------------------------------------------------------
pub struct ManagedProcess {
    pub name: String,
    pub config: ProcessConfig,
    pub state: ProcessState,
    pub pid: Option<u32>,
    /// Whether the application still holds a handle on the child.
    pub has_child: bool,
    /// Monotonic seconds at which the process last started.
    pub started_at: Option<u64>,
    pub restart_count: u32,
    pub last_exit_code: Option<i32>,
    /// Monotonic seconds of every restart.
    pub restart_timestamps: Vec<u64>,
}

impl ManagedProcess {
    /// A running process has a pid and a child handle; a stopped or failed
    /// one has neither; the restart counter always matches its timestamps.
    pub open spec fn wf(&self) -> bool {
        &&& (self.state is Running ==> self.pid is Some && self.has_child)
        &&& (self.state is Stopped || self.state is Failed ==> self.pid is None
            && !self.has_child)
        &&& self.restart_count == self.restart_timestamps@.len()
    }

    pub fn new(name: String, config: ProcessConfig) -> (r: Self)
        ensures
            r.wf(),
            r.name@ == name@,
            r.config == config,
            r.state is Stopped,
            r.pid is None,
            !r.has_child,
            r.started_at is None,
            r.restart_count == 0,
            r.last_exit_code is None,
            r.restart_timestamps@.len() == 0,
    {
        ManagedProcess {
            name,
            config,
            state: ProcessState::Stopped,
            pid: None,
            has_child: false,
            started_at: None,
            restart_count: 0,
            last_exit_code: None,
            restart_timestamps: Vec::new(),
        }
    }

    /// Seconds since the process started, if it has.
    pub fn uptime(&self, now: u64) -> (r: Option<u64>)
        ensures
            self.started_at is None <==> r is None,
            self.started_at matches Some(s) ==> r matches Some(u) && u == (if now >= s {
                now - s
            } else {
                0
            }),
    {
        match self.started_at {
            Some(s) => {
                if now >= s {
                    Some(now - s)
                } else {
                    Some(0)
                }
            },
            None => None,
        }
    }

    /// Uptime rendered as hours, minutes and seconds.
    pub fn uptime_display(&self, now: u64) -> (r: String)
        ensures
            self.started_at is None ==> r@ == "-"@,
            self.started_at matches Some(s) ==> r@ == uptime_chars(
                if now >= s {
                    (now - s) as int
                } else {
                    0
                },
            ),
    {
        match self.uptime(now) {
            Some(total) => {
                let hours = total / 3600;
                let minutes = (total % 3600) / 60;
                let seconds = total % 60;
                if hours > 0 {
                    let r = u64_to_string(hours).concat("h ").concat(
                        u64_to_string(minutes).as_str(),
                    ).concat("m ").concat(u64_to_string(seconds).as_str()).concat("s");
                    assert(r@ =~= uptime_chars(total as int));
                    r
                } else if minutes > 0 {
                    let r = u64_to_string(minutes).concat("m ").concat(
                        u64_to_string(seconds).as_str(),
                    ).concat("s");
                    assert(r@ =~= uptime_chars(total as int));
                    r
                } else {
                    let r = u64_to_string(seconds).concat("s");
                    assert(r@ =~= uptime_chars(total as int));
                    r
                }
            },
            None => String::from_str("-"),
        }
    }

    // -- lifecycle transitions -------------------------------------------
    /// The process is about to be spawned.
    pub fn begin_start(&mut self)
        requires
            old(self).wf(),
            !(old(self).state is Running),
        ensures
            final(self).wf(),
            begin_start_rel(*old(self), *final(self)),
    {
        self.state = ProcessState::Starting;
    }

    /// The spawn succeeded.
    pub fn mark_running(&mut self, pid: u32, now: u64)
        requires
            old(self).wf(),
        ensures
            final(self).wf(),
            mark_running_rel(*old(self), *final(self), pid, now),
    {
        self.pid = Some(pid);
        self.has_child = true;
        self.state = ProcessState::Running;
        self.started_at = Some(now);
    }

    /// The spawn failed.
    pub fn mark_failed(&mut self)
        requires
            old(self).wf(),
        ensures
            final(self).wf(),
            final(self).state is Failed,
            final(self).pid is None,
            !final(self).has_child,
            final(self).name == old(self).name,
            final(self).config == old(self).config,
            final(self).restart_count == old(self).restart_count,
            final(self).restart_timestamps == old(self).restart_timestamps,
            final(self).started_at == old(self).started_at,
            final(self).last_exit_code == old(self).last_exit_code,
    {
        self.state = ProcessState::Failed;
        self.pid = None;
        self.has_child = false;
    }

    /// A stop was requested.
    pub fn begin_stop(&mut self)
        requires
            old(self).wf(),
        ensures
            final(self).wf(),
            begin_stop_rel(*old(self), *final(self)),
    {
        self.state = ProcessState::Stopping;
    }

    /// The child exited; `exit_code` is recorded when the exit was
    /// observed gracefully.
    pub fn mark_stopped(&mut self, exit_code: Option<i32>, exit_observed: bool)
        requires
            old(self).wf(),
        ensures
            final(self).wf(),
            mark_stopped_rel(*old(self), *final(self), exit_code, exit_observed),
    {
        if exit_observed {
            self.last_exit_code = exit_code;
        }
        self.state = ProcessState::Stopped;
        self.pid = None;
        self.has_child = false;
    }

    /// A restart was initiated: count it and remember when.
    pub fn note_restart(&mut self, now: u64)
        requires
            old(self).wf(),
            old(self).restart_count < u32::MAX,
        ensures
            final(self).wf(),
            final(self).restart_count == old(self).restart_count + 1,
            final(self).restart_timestamps@ == old(self).restart_timestamps@.push(now),
            final(self).state == old(self).state,
            final(self).pid == old(self).pid,
            final(self).has_child == old(self).has_child,
            final(self).name == old(self).name,
            final(self).config == old(self).config,
            final(self).started_at == old(self).started_at,
            final(self).last_exit_code == old(self).last_exit_code,
    {
        self.restart_count = self.restart_count + 1;
        self.restart_timestamps.push(now);
    }

    /// How many restarts fall inside the trailing window.
    pub fn recent_restart_count(&self, window_secs: u64, now: u64) -> (r: u32)
        requires
            self.wf(),
        ensures
            r == recent_count(self.restart_timestamps@, window_secs, now),
    {
        let n = self.restart_timestamps.len();
        let mut count: u32 = 0;
        let mut i: usize = 0;
        proof {
            assert(self.restart_timestamps@.subrange(0, 0) =~= Seq::<u64>::empty());
        }
        while i < n
            invariant
                self.wf(),
                n == self.restart_timestamps@.len(),
                n <= u32::MAX,
                0 <= i <= n,
                count == recent_count(
                    self.restart_timestamps@.subrange(0, i as int),
                    window_secs,
                    now,
                ),
                count <= i,
            decreases n - i,
        {
            let ghost pre = self.restart_timestamps@.subrange(0, i as int);
            let t = self.restart_timestamps[i];
            if t > now || now - t < window_secs {
                count = count + 1;
            }
            proof {
                let cur = self.restart_timestamps@.subrange(0, i + 1);
                assert(cur.drop_last() =~= pre);
                assert(cur.last() == self.restart_timestamps@[i as int]);
            }
            i = i + 1;
        }
        proof {
            assert(self.restart_timestamps@.subrange(0, n as int) =~= self.restart_timestamps@);
        }
        count
    }
}

/// The uptime rendering: hours shown only when non-zero, minutes only when
/// hours or minutes are non-zero.
pub open spec fn uptime_chars(total: int) -> Seq<char> {
    let hours = total / 3600;
    let minutes = (total % 3600) / 60;
    let seconds = total % 60;
    if hours > 0 {
        dec_digits(hours) + "h "@ + dec_digits(minutes) + "m "@ + dec_digits(seconds) + "s"@
    } else if minutes > 0 {
        dec_digits(minutes) + "m "@ + dec_digits(seconds) + "s"@
    } else {
        dec_digits(seconds) + "s"@
    }
}

/// A restart at `t` falls inside the trailing window ending at `now`.
pub open spec fn in_restart_window(t: u64, window_secs: u64, now: u64) -> bool {
    t > now || now - t < window_secs
}

/// Restarts inside the window.
pub open spec fn recent_count(ts: Seq<u64>, window_secs: u64, now: u64) -> nat
    decreases ts.len(),
{
    if ts.len() == 0 {
        0
    } else {
        recent_count(ts.drop_last(), window_secs, now) + (if in_restart_window(
            ts.last(),
            window_secs,
            now,
        ) {
            1nat
        } else {
            0nat
        })
    }
}

// ---------------------------------------------------------------------------
// Transition relations, and the start/stop round trip
// ---------------------------------------------------------------------------
pub open spec fn begin_start_rel(p: ManagedProcess, q: ManagedProcess) -> bool {
    q == ManagedProcess { state: ProcessState::Starting, ..p }
}

pub open spec fn mark_running_rel(p: ManagedProcess, q: ManagedProcess, pid: u32, now: u64) -> bool {
    q == ManagedProcess {
        state: ProcessState::Running,
        pid: Some(pid),
        has_child: true,
        started_at: Some(now),
        ..p
    }
}

pub open spec fn begin_stop_rel(p: ManagedProcess, q: ManagedProcess) -> bool {
    q == ManagedProcess { state: ProcessState::Stopping, ..p }
}

pub open spec fn mark_stopped_rel(
    p: ManagedProcess,
    q: ManagedProcess,
    exit_code: Option<i32>,
    exit_observed: bool,
) -> bool {
    q == ManagedProcess {
        state: ProcessState::Stopped,
        pid: None,
        has_child: false,
        last_exit_code: if exit_observed {
            exit_code
        } else {
            p.last_exit_code
        },
        ..p
    }
}

/// Round trip: starting a stopped process and then stopping it returns the
/// record to its pre-start state for lifecycle, pid and child handle, and
/// leaves the restart counter and timestamps untouched.
pub proof fn lemma_start_stop_round_trip(
    s0: ManagedProcess,
    s1: ManagedProcess,
    s2: ManagedProcess,
    s3: ManagedProcess,
    s4: ManagedProcess,
    pid: u32,
    start_time: u64,
    exit_code: Option<i32>,
    exit_observed: bool,
)
    requires
        s0.wf(),
        s0.state is Stopped,
        begin_start_rel(s0, s1),
        mark_running_rel(s1, s2, pid, start_time),
        begin_stop_rel(s2, s3),
        mark_stopped_rel(s3, s4, exit_code, exit_observed),
    ensures
        s4.state == s0.state,
        s4.pid == s0.pid,
        s4.has_child == s0.has_child,
        s4.restart_count == s0.restart_count,
        s4.restart_timestamps == s0.restart_timestamps,
        s4.name == s0.name,
        s4.config == s0.config,
{
}

// ---------------------------------------------------------------------------
// The registry
// ---------------------------------------------------------------------------
/// A freshly registered record: stopped, never restarted, carrying the
/// given process configuration.
pub open spec fn fresh_record_for(rec: ManagedProcess, pc: ProcessConfig) -> bool {
    &&& rec.state is Stopped
    &&& rec.pid is None
    &&& !rec.has_child
    &&& rec.started_at is None
    &&& rec.restart_count == 0
    &&& rec.last_exit_code is None
    &&& rec.restart_timestamps@.len() == 0
    &&& rec.name@ == pc.name@
    &&& rec.config.name == pc.name
    &&& rec.config.command == pc.command
    &&& rec.config.args@ == pc.args@
    &&& rec.config.working_dir == pc.working_dir
    &&& rec.config.env@ == pc.env@
    &&& rec.config.depends_on@ == pc.depends_on@
    &&& rec.config.wait_for_dependency == pc.wait_for_dependency
    &&& rec.config.auto_restart == pc.auto_restart
    &&& rec.config.restart_delay == pc.restart_delay
    &&& rec.config.health == pc.health
    &&& rec.config.ready == pc.ready
}

pub struct ProcessStatus {
    pub name: String,
    pub state: ProcessState,
    pub pid: Option<u32>,
    pub uptime: String,
    pub restart_count: u32,
}

impl ManagedProcess {
    /// The record's row in a status display.
    pub fn status_row(&self, now: u64) -> (r: ProcessStatus)
        ensures
            r.name@ == self.name@,
            r.state == self.state,
            r.pid == self.pid,
            r.restart_count == self.restart_count,
            self.started_at is None ==> r.uptime@ == "-"@,
            self.started_at matches Some(s) ==> r.uptime@ == uptime_chars(
                if now >= s {
                    (now - s) as int
                } else {
                    0
                },
            ),
    {
        ProcessStatus {
            name: self.name.clone(),
            state: self.state,
            pid: self.pid,
            uptime: self.uptime_display(now),
            restart_count: self.restart_count,
        }
    }
}

pub struct ProcessManager {
    pub processes: StrMap<ManagedProcess>,
    /// The configured start order is recomputed from this by the caller.
    pub config: GuardianConfig,
}

impl ProcessManager {
    /// Every record is well formed and filed under its own name.
    pub open spec fn wf(&self) -> bool {
        &&& self.processes.wf()
        &&& forall|n: Seq<char>|
            self.processes@.contains_key(n) ==> (#[trigger] self.processes@[n]).wf()
                && self.processes@[n].name@ == n
    }

    /// Build a registry with one stopped record per configured process,
    /// each filed under its name and carrying its configuration.
    pub fn new(config: GuardianConfig) -> (r: Self)
        requires
            crate::config::unique_names(config.processes@),
        ensures
            r.wf(),
            r.config == config,
            r.processes.spec_len() == config.processes@.len(),
            forall|i: int|
                0 <= i < config.processes@.len() ==> r.processes@.contains_key(
                    (#[trigger] config.processes@[i]).name@,
                ) && fresh_record_for(
                    r.processes@[config.processes@[i].name@],
                    config.processes@[i],
                ),
            forall|k: Seq<char>|
                r.processes@.contains_key(k) ==> exists|i: int|
                    0 <= i < config.processes@.len() && (#[trigger] config.processes@[i]).name@
                        == k,
    {
        let mut processes: StrMap<ManagedProcess> = StrMap::new();
        let specs = config;
        let n = specs.processes.len();
        let mut i: usize = 0;
        while i < n
            invariant
                crate::config::unique_names(specs.processes@),
                n == specs.processes@.len(),
                0 <= i <= n,
                processes.wf(),
                processes.spec_len() == i,
                forall|k: Seq<char>|
                    processes@.contains_key(k) ==> (#[trigger] processes@[k]).wf()
                        && processes@[k].name@ == k,
                forall|j: int|
                    0 <= j < i ==> processes@.contains_key(
                        (#[trigger] specs.processes@[j]).name@,
                    ) && fresh_record_for(
                        processes@[specs.processes@[j].name@],
                        specs.processes@[j],
                    ),
                forall|k: Seq<char>|
                    processes@.contains_key(k) ==> exists|j: int|
                        0 <= j < i && (#[trigger] specs.processes@[j]).name@ == k,
            decreases n - i,
        {
            let pc = specs.processes[i].duplicate();
            let name = pc.name.clone();
            let record = ManagedProcess::new(pc.name.clone(), pc);
            let ghost before = processes@;
            processes.insert(name, record);
            proof {
                assert forall|j: int|
                    0 <= j < i + 1 implies processes@.contains_key(
                        (#[trigger] specs.processes@[j]).name@,
                    ) && fresh_record_for(
                        processes@[specs.processes@[j].name@],
                        specs.processes@[j],
                    ) by {
                    if j < i {
                        // Unique names keep the fresh insert from touching
                        // the earlier entries.
                        assert(specs.processes@[j].name@ != specs.processes@[i as int].name@);
                        assert(processes@[specs.processes@[j].name@]
                            == before[specs.processes@[j].name@]);
                    }
                }
            }
            i = i + 1;
        }
        ProcessManager { processes, config: specs }
    }

    /// Whether the registry holds this process in the running state.
    pub fn is_running(&self, name: &str) -> (r: bool)
        requires
            self.wf(),
        ensures
            r == (self.processes@.contains_key(name@) && self.processes@[name@].state
                is Running),
    {
        match self.processes.get(name) {
            Some(p) => matches!(p.state, ProcessState::Running),
            None => false,
        }
    }

    /// Take a record out for a transition; put it back with `put_record`.
    pub fn take_record(&mut self, name: &str) -> (r: Option<ManagedProcess>)
        requires
            old(self).wf(),
        ensures
            final(self).wf(),
            final(self).config == old(self).config,
            final(self).processes@ == old(self).processes@.remove(name@),
            r matches Some(p) ==> old(self).processes@.contains_key(name@) && p == old(
                self,
            ).processes@[name@] && p.wf(),
            r is None ==> !old(self).processes@.contains_key(name@),
    {
        self.processes.take(name)
    }

    /// Whether a status row reflects the registry's record of that name.
    pub open spec fn row_matches(&self, row: ProcessStatus) -> bool {
        &&& self.processes@.contains_key(row.name@)
        &&& row.state == self.processes@[row.name@].state
        &&& row.pid == self.processes@[row.name@].pid
        &&& row.restart_count == self.processes@[row.name@].restart_count
    }

    /// One status row per process, sorted by name for display.
    #[verifier::rlimit(80)]
    pub fn get_status(&self, now: u64) -> (r: Vec<ProcessStatus>)
        requires
            self.wf(),
        ensures
            r@.len() == self.processes.spec_len(),
            forall|q: int| 0 <= q < r@.len() ==> self.row_matches(#[trigger] r@[q]),
            forall|q1: int, q2: int|
                0 <= q1 < q2 < r@.len() ==> (#[trigger] r@[q1]).name@ != (
                #[trigger] r@[q2]).name@,
            forall|k: Seq<char>|
                self.processes@.contains_key(k) ==> exists|q: int|
                    0 <= q < r@.len() && (#[trigger] r@[q]).name@ == k,
            forall|q: int|
                0 <= q < r@.len() - 1 ==> !crate::text::lex_lt(
                    (#[trigger] r@[q + 1]).name@,
                    r@[q].name@,
                ),
    {
        let keys = self.processes.keys();
        let mut rows: Vec<ProcessStatus> = Vec::new();
        let mut i: usize = 0;
        while i < keys.len()
            invariant
                self.wf(),
                keys@.len() == self.processes.spec_len(),
                forall|k: int|
                    0 <= k < keys@.len() ==> self.processes@.contains_key(
                        (#[trigger] keys@[k])@,
                    ),
                0 <= i <= keys@.len(),
                rows@.len() == i,
                forall|q: int| 0 <= q < rows@.len() ==> self.row_matches(#[trigger] rows@[q]),
                forall|q: int|
                    0 <= q < rows@.len() ==> (#[trigger] rows@[q]).name@ == keys@[q]@,
            decreases keys@.len() - i,
        {
            if let Some(record) = self.processes.get(keys[i].as_str()) {
                let row = record.status_row(now);
                rows.push(row);
            }
            i = i + 1;
        }
        proof {
            assert forall|k: Seq<char>| self.processes@.contains_key(k) implies exists|q: int|
                0 <= q < rows@.len() && (#[trigger] rows@[q]).name@ == k by {
                let a = choose|a: int| 0 <= a < keys@.len() && (#[trigger] keys@[a])@ == k;
                assert(rows@[a].name@ == k);
            }
            assert forall|q1: int, q2: int|
                0 <= q1 < q2 < rows@.len() implies (#[trigger] rows@[q1]).name@ != (
            #[trigger] rows@[q2]).name@ by {
                assert(keys@[q1]@ != keys@[q2]@);
            }
        }
        // Order the rows by name; the sort rearranges rows that each
        // already reflect a record.
        let mut sorted_upto: usize = 1;
        while sorted_upto < rows.len()
            invariant
                self.wf(),
                rows@.len() == keys@.len(),
                keys@.len() == self.processes.spec_len(),
                1 <= sorted_upto <= rows@.len() || rows@.len() == 0,
                forall|q: int| 0 <= q < rows@.len() ==> self.row_matches(#[trigger] rows@[q]),
                forall|q1: int, q2: int|
                    0 <= q1 < q2 < rows@.len() ==> (#[trigger] rows@[q1]).name@ != (
                    #[trigger] rows@[q2]).name@,
                forall|k: Seq<char>|
                    self.processes@.contains_key(k) ==> exists|q: int|
                        0 <= q < rows@.len() && (#[trigger] rows@[q]).name@ == k,
                forall|q: int|
                    0 <= q < sorted_upto - 1 ==> !crate::text::lex_lt(
                        (#[trigger] rows@[q + 1]).name@,
                        rows@[q].name@,
                    ),
            decreases rows@.len() - sorted_upto,
        {
            let mut j: usize = sorted_upto;
            while j > 0 && str_lt(rows[j].name.as_str(), rows[j - 1].name.as_str())
                invariant
                    self.wf(),
                    rows@.len() == keys@.len(),
                    keys@.len() == self.processes.spec_len(),
                    0 <= j <= sorted_upto < rows@.len(),
                    forall|q: int|
                        0 <= q < rows@.len() ==> self.row_matches(#[trigger] rows@[q]),
                    forall|q1: int, q2: int|
                        0 <= q1 < q2 < rows@.len() ==> (#[trigger] rows@[q1]).name@ != (
                        #[trigger] rows@[q2]).name@,
                    forall|k: Seq<char>|
                        self.processes@.contains_key(k) ==> exists|q: int|
                            0 <= q < rows@.len() && (#[trigger] rows@[q]).name@ == k,
                    // Every adjacent pair below the insertion point is
                    // ordered...
                    forall|q: int|
                        0 <= q < j - 1 ==> !crate::text::lex_lt(
                            (#[trigger] rows@[q + 1]).name@,
                            rows@[q].name@,
                        ),
                    // ...as is every pair from the insertion point on...
                    forall|q: int|
                        j <= q <= sorted_upto - 1 ==> !crate::text::lex_lt(
                            (#[trigger] rows@[q + 1]).name@,
                            rows@[q].name@,
                        ),
                    // ...and the element after the hole does not precede the
                    // one before it.
                    1 <= j && j < sorted_upto ==> !crate::text::lex_lt(
                        rows@[j + 1].name@,
                        rows@[j - 1].name@,
                    ),
                decreases j,
            {
                let ghost before = rows@;
                proof {
                    if j >= 2 {
                        // The pair below the soon-to-move hole is ordered.
                        assert(!crate::text::lex_lt(rows@[(j - 2) + 1].name@, rows@[j - 2].name@));
                        assert(!crate::text::lex_lt(rows@[j - 1].name@, rows@[j - 2].name@));
                    }
                }
                let moved = rows.remove(j);
                rows.insert(j - 1, moved);
                proof {
                    assert(crate::text::lex_lt(before[j as int].name@, before[j - 1].name@));
                    crate::text::lemma_lex_lt_asym(before[j as int].name@, before[j - 1].name@);
                    if j >= 2 {
                        assert(rows@[j as int] == before[j - 1]);
                        assert(rows@[j - 2] == before[j - 2]);
                    }
                    assert forall|q: int|
                        0 <= q < rows@.len() implies self.row_matches(#[trigger] rows@[q]) by {
                        if q < j - 1 {
                            assert(rows@[q] == before[q]);
                        } else if q == j - 1 {
                            assert(rows@[q] == before[j as int]);
                        } else if q == j {
                            assert(rows@[q] == before[j - 1]);
                        } else {
                            assert(rows@[q] == before[q]);
                        }
                    }
                    assert forall|q1: int, q2: int|
                        0 <= q1 < q2 < rows@.len() implies (#[trigger] rows@[q1]).name@ != (
                    #[trigger] rows@[q2]).name@ by {
                        let p1 = if q1 == j - 1 {
                            j as int
                        } else if q1 == j {
                            j - 1
                        } else {
                            q1
                        };
                        let p2 = if q2 == j - 1 {
                            j as int
                        } else if q2 == j {
                            j - 1
                        } else {
                            q2
                        };
                        assert(rows@[q1] == before[p1]);
                        assert(rows@[q2] == before[p2]);
                    }
                    assert forall|k: Seq<char>|
                        self.processes@.contains_key(k) implies exists|q: int|
                        0 <= q < rows@.len() && (#[trigger] rows@[q]).name@ == k by {
                        let q0 = choose|q0: int|
                            0 <= q0 < before.len() && (#[trigger] before[q0]).name@ == k;
                        let q1 = if q0 == j - 1 {
                            j as int
                        } else if q0 == j {
                            j - 1
                        } else {
                            q0
                        };
                        assert(rows@[q1].name@ == k);
                    }
                }
                j = j - 1;
            }
            sorted_upto = sorted_upto + 1;
        }
        rows
    }

    /// How many of a process's restarts fall inside the trailing window.
    pub fn recent_restart_count(&self, name: &str, window_secs: u64, now: u64) -> (r: u32)
        requires
            self.wf(),
        ensures
            self.processes@.contains_key(name@) ==> r == recent_count(
                self.processes@[name@].restart_timestamps@,
                window_secs,
                now,
            ),
            !self.processes@.contains_key(name@) ==> r == 0,
    {
        match self.processes.get(name) {
            Some(record) => record.recent_restart_count(window_secs, now),
            None => 0,
        }
    }

    /// Return a record to the registry.
    pub fn put_record(&mut self, record: ManagedProcess)
        requires
            old(self).wf(),
            record.wf(),
        ensures
            final(self).wf(),
            final(self).config == old(self).config,
            final(self).processes@ == old(self).processes@.insert(record.name@, record),
    {
        let name = record.name.clone();
        self.processes.insert(name, record);
    }
}

} // verus!
