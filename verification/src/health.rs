//! The five-level health model.
//!
//! Each probe yields one `LevelResult`; the verdict aggregates them: no
//! probes means `Unknown`, all passed means `Healthy`, a failed liveness
//! probe means `Unhealthy`, a single other failure means `Degraded`, and
//! several failures mean `Unhealthy` with their messages joined.
use vstd::prelude::*;

use crate::backup::{BackupManager, create_post, first_some, restore_post};
use crate::shims::{json_valid, json_check, regex_valid, regex_match, regex_new, regex_is_match};
use crate::strmap::StrMap;
use crate::text::{
    dec_digits, lines_of, seq_starts_with, split_lines, str_trim, trimmed, u64_to_string,
};
use vstd::string::StringSliceAdditionalSpecFns;

verus! {

// ---------------------------------------------------------------------------
// Statuses and level results
// ---------------------------------------------------------------------------
#[derive(Debug)]
pub enum HealthStatus {
    Healthy,
    Degraded(String),
    Unhealthy(String),
    Unknown,
}

impl PartialEq for HealthStatus {
    fn eq(&self, other: &Self) -> (r: bool) {
        match (self, other) {
            (HealthStatus::Healthy, HealthStatus::Healthy) => true,
            (HealthStatus::Degraded(a), HealthStatus::Degraded(b)) => crate::text::str_eq(
                a.as_str(),
                b.as_str(),
            ),
            (HealthStatus::Unhealthy(a), HealthStatus::Unhealthy(b)) => crate::text::str_eq(
                a.as_str(),
                b.as_str(),
            ),
            (HealthStatus::Unknown, HealthStatus::Unknown) => true,
            _ => false,
        }
    }
}

impl vstd::std_specs::cmp::PartialEqSpecImpl for HealthStatus {
    open spec fn obeys_eq_spec() -> bool {
        true
    }

    open spec fn eq_spec(&self, other: &Self) -> bool {
        match (self, other) {
            (HealthStatus::Healthy, HealthStatus::Healthy) => true,
            (HealthStatus::Degraded(a), HealthStatus::Degraded(b)) => a@ == b@,
            (HealthStatus::Unhealthy(a), HealthStatus::Unhealthy(b)) => a@ == b@,
            (HealthStatus::Unknown, HealthStatus::Unknown) => true,
            _ => false,
        }
    }
}

impl HealthStatus {
    /// The one-line rendering of a verdict.
    pub fn label(&self) -> (r: String)
        ensures
            self is Healthy ==> r@ == "Healthy"@,
            self matches HealthStatus::Degraded(m) ==> r@ == "Degraded: "@ + m@,
            self matches HealthStatus::Unhealthy(m) ==> r@ == "Unhealthy: "@ + m@,
            self is Unknown ==> r@ == "Unknown"@,
    {
        match self {
            HealthStatus::Healthy => String::from_str("Healthy"),
            HealthStatus::Degraded(m) => {
                let r = String::from_str("Degraded: ").concat(m.as_str());
                assert(r@ =~= "Degraded: "@ + m@);
                r
            },
            HealthStatus::Unhealthy(m) => {
                let r = String::from_str("Unhealthy: ").concat(m.as_str());
                assert(r@ =~= "Unhealthy: "@ + m@);
                r
            },
            HealthStatus::Unknown => String::from_str("Unknown"),
        }
    }
}

#[derive(Debug)]
pub struct LevelResult {
    pub level: u8,
    pub name: String,
    pub passed: bool,
    pub message: String,
}

impl LevelResult {
    /// An equal copy.
    pub fn duplicate(&self) -> (r: Self)
        ensures
            r == *self,
    {
        LevelResult {
            level: self.level,
            name: self.name.clone(),
            passed: self.passed,
            message: self.message.clone(),
        }
    }
}

#[derive(Debug)]
pub struct HealthCheckResult {
    pub process_name: String,
    pub status: HealthStatus,
    pub level_results: Vec<LevelResult>,
    /// Monotonic seconds at which the check ran.
    pub checked_at: u64,
}

// ---------------------------------------------------------------------------
// Verdict aggregation
// ---------------------------------------------------------------------------
/// Number of failed results.
pub open spec fn failed_count(rs: Seq<LevelResult>) -> nat
    decreases rs.len(),
{
    if rs.len() == 0 {
        0
    } else {
        failed_count(rs.drop_last()) + (if !rs.last().passed {
            1nat
        } else {
            0nat
        })
    }
}

/// Index of the first failed result, or -1.
pub open spec fn first_failed(rs: Seq<LevelResult>) -> int
    decreases rs.len(),
{
    if rs.len() == 0 {
        -1
    } else if !rs.first().passed {
        0
    } else {
        let r = first_failed(rs.drop_first());
        if r < 0 {
            -1
        } else {
            1 + r
        }
    }
}

/// Index of the first failed liveness (level 1) result, or -1.
pub open spec fn first_l1_failed(rs: Seq<LevelResult>) -> int
    decreases rs.len(),
{
    if rs.len() == 0 {
        -1
    } else if rs.first().level == 1 && !rs.first().passed {
        0
    } else {
        let r = first_l1_failed(rs.drop_first());
        if r < 0 {
            -1
        } else {
            1 + r
        }
    }
}

/// The messages of the failed results, in order.
pub open spec fn failed_msgs(rs: Seq<LevelResult>) -> Seq<Seq<char>>
    decreases rs.len(),
{
    if rs.len() == 0 {
        Seq::empty()
    } else if !rs.last().passed {
        failed_msgs(rs.drop_last()) + seq![rs.last().message@]
    } else {
        failed_msgs(rs.drop_last())
    }
}

/// Messages joined with `"; "`.
pub open spec fn sep_join(ms: Seq<Seq<char>>) -> Seq<char>
    decreases ms.len(),
{
    if ms.len() == 0 {
        Seq::empty()
    } else if ms.len() == 1 {
        ms[0]
    } else {
        sep_join(ms.drop_last()) + "; "@ + ms.last()
    }
}

/// What the aggregated verdict must be for a given list of results.
pub open spec fn verdict_rel(rs: Seq<LevelResult>, r: HealthStatus) -> bool {
    &&& (rs.len() == 0 <==> r is Unknown)
    &&& (rs.len() > 0 && failed_count(rs) == 0 <==> r is Healthy)
    &&& (first_l1_failed(rs) >= 0 ==> (r matches HealthStatus::Unhealthy(m) && m@ == rs[
        first_l1_failed(rs)
    ].message@))
    &&& (failed_count(rs) == 1 && first_l1_failed(rs) < 0 ==> (r matches HealthStatus::Degraded(m)
        && m@ == rs[first_failed(rs)].message@))
    &&& (failed_count(rs) >= 2 && first_l1_failed(rs) < 0 ==> (r matches HealthStatus::Unhealthy(m)
        && m@ == sep_join(failed_msgs(rs))))
}

proof fn lemma_first_failed_at(rs: Seq<LevelResult>, i: int)
    requires
        0 <= i < rs.len(),
        !rs[i].passed,
        forall|k: int| 0 <= k < i ==> (#[trigger] rs[k]).passed,
    ensures
        first_failed(rs) == i,
    decreases i,
{
    if i > 0 {
        let t = rs.drop_first();
        assert forall|k: int| 0 <= k < i - 1 implies (#[trigger] t[k]).passed by {
            assert(t[k] == rs[k + 1]);
        }
        assert(t[i - 1] == rs[i]);
        lemma_first_failed_at(t, i - 1);
    }
}

proof fn lemma_first_l1_at(rs: Seq<LevelResult>, i: int)
    requires
        0 <= i < rs.len(),
        rs[i].level == 1 && !rs[i].passed,
        forall|k: int| 0 <= k < i ==> !((#[trigger] rs[k]).level == 1 && !rs[k].passed),
    ensures
        first_l1_failed(rs) == i,
    decreases i,
{
    if i > 0 {
        let t = rs.drop_first();
        assert forall|k: int| 0 <= k < i - 1 implies !((#[trigger] t[k]).level == 1
            && !t[k].passed) by {
            assert(t[k] == rs[k + 1]);
        }
        assert(t[i - 1] == rs[i]);
        lemma_first_l1_at(t, i - 1);
    }
}

proof fn lemma_first_l1_none(rs: Seq<LevelResult>)
    requires
        forall|k: int| 0 <= k < rs.len() ==> !((#[trigger] rs[k]).level == 1 && !rs[k].passed),
    ensures
        first_l1_failed(rs) == -1,
    decreases rs.len(),
{
    if rs.len() > 0 {
        let t = rs.drop_first();
        assert forall|k: int| 0 <= k < t.len() implies !((#[trigger] t[k]).level == 1
            && !t[k].passed) by {
            assert(t[k] == rs[k + 1]);
        }
        lemma_first_l1_none(t);
    }
}

proof fn lemma_failed_count_exists(rs: Seq<LevelResult>)
    ensures
        failed_count(rs) >= 1 <==> exists|i: int| 0 <= i < rs.len() && !(#[trigger] rs[i]).passed,
    decreases rs.len(),
{
    if rs.len() > 0 {
        lemma_failed_count_exists(rs.drop_last());
        if !rs.last().passed {
            assert(!rs[rs.len() - 1].passed);
        } else {
            if failed_count(rs) >= 1 {
                let i = choose|i: int|
                    0 <= i < rs.drop_last().len() && !(#[trigger] rs.drop_last()[i]).passed;
                assert(!rs[i].passed);
            }
            if exists|i: int| 0 <= i < rs.len() && !(#[trigger] rs[i]).passed {
                let i = choose|i: int| 0 <= i < rs.len() && !(#[trigger] rs[i]).passed;
                assert(i < rs.len() - 1);
                assert(!rs.drop_last()[i].passed);
            }
        }
    }
}

/// Verdict totality: an empty result list yields `Unknown` and only then;
/// a non-empty list yields one of the three informative verdicts; a failed
/// liveness probe always yields `Unhealthy`.
pub proof fn lemma_verdict_totality(rs: Seq<LevelResult>, r: HealthStatus)
    requires
        verdict_rel(rs, r),
    ensures
        rs.len() == 0 <==> r is Unknown,
        rs.len() > 0 ==> (r is Healthy || r is Degraded || r is Unhealthy),
        (exists|i: int| 0 <= i < rs.len() && (#[trigger] rs[i]).level == 1 && !rs[i].passed)
            ==> r is Unhealthy,
{
    lemma_failed_count_exists(rs);
    if rs.len() > 0 {
        if failed_count(rs) == 0 {
        } else if first_l1_failed(rs) >= 0 {
        } else if failed_count(rs) == 1 {
        } else {
            assert(failed_count(rs) >= 2);
        }
    }
    if exists|i: int| 0 <= i < rs.len() && (#[trigger] rs[i]).level == 1 && !rs[i].passed {
        let i = choose|i: int|
            0 <= i < rs.len() && (#[trigger] rs[i]).level == 1 && !rs[i].passed;
        lemma_first_l1_some(rs, i);
    }
}

proof fn lemma_first_l1_some(rs: Seq<LevelResult>, i: int)
    requires
        0 <= i < rs.len(),
        rs[i].level == 1,
        !rs[i].passed,
    ensures
        first_l1_failed(rs) >= 0,
    decreases rs.len(),
{
    if rs.len() > 0 && !(rs.first().level == 1 && !rs.first().passed) {
        assert(i > 0);
        let t = rs.drop_first();
        assert(t[i - 1] == rs[i]);
        lemma_first_l1_some(t, i - 1);
    }
}

/// Aggregate the level results into one verdict.
pub fn aggregate_status(results: &Vec<LevelResult>) -> (r: HealthStatus)
    ensures
        verdict_rel(results@, r),
{
    let n = results.len();
    if n == 0 {
        return HealthStatus::Unknown;
    }
    let mut count: usize = 0;
    let mut first_fail: Option<usize> = None;
    let mut first_l1: Option<usize> = None;
    let mut msgs: Vec<String> = Vec::new();
    let mut i: usize = 0;
    proof {
        assert(results@.subrange(0, 0) =~= Seq::<LevelResult>::empty());
        assert(msgs@.map_values(|m: String| m@) =~= Seq::<Seq<char>>::empty());
    }
    while i < n
        invariant
            n == results@.len(),
            0 <= i <= n,
            count == failed_count(results@.subrange(0, i as int)),
            count <= i,
            msgs@.map_values(|m: String| m@) =~= failed_msgs(results@.subrange(0, i as int)),
            msgs@.len() == count,
            first_fail matches Some(k) ==> k < i && !results@[k as int].passed && forall|j: int|
                0 <= j < k ==> (#[trigger] results@[j]).passed,
            first_fail is None ==> forall|j: int| 0 <= j < i ==> (#[trigger] results@[j]).passed,
            first_l1 matches Some(k) ==> k < i && results@[k as int].level == 1
                && !results@[k as int].passed && forall|j: int|
                0 <= j < k ==> !((#[trigger] results@[j]).level == 1 && !results@[j].passed),
            first_l1 is None ==> forall|j: int|
                0 <= j < i ==> !((#[trigger] results@[j]).level == 1 && !results@[j].passed),
        decreases n - i,
    {
        let ghost pre = results@.subrange(0, i as int);
        let failed_here = !results[i].passed;
        if failed_here {
            if first_fail.is_none() {
                first_fail = Some(i);
            }
            if results[i].level == 1 && first_l1.is_none() {
                first_l1 = Some(i);
            }
            msgs.push(results[i].message.clone());
            count = count + 1;
        }
        proof {
            let cur = results@.subrange(0, i + 1);
            assert(cur.drop_last() =~= pre);
            assert(cur.last() == results@[i as int]);
            if failed_here {
                assert(msgs@.map_values(|m: String| m@) =~= failed_msgs(pre) + seq![
                    results@[i as int].message@,
                ]);
            }
        }
        i = i + 1;
    }
    proof {
        assert(results@.subrange(0, n as int) =~= results@);
    }
    match first_l1 {
        Some(k) => {
            proof {
                lemma_first_l1_at(results@, k as int);
                lemma_failed_count_exists(results@);
                assert(!results@[k as int].passed);
            }
            HealthStatus::Unhealthy(results[k].message.clone())
        },
        None => {
            proof {
                lemma_first_l1_none(results@);
            }
            if count == 0 {
                HealthStatus::Healthy
            } else if count == 1 {
                match first_fail {
                    Some(k) => {
                        proof {
                            lemma_first_failed_at(results@, k as int);
                        }
                        HealthStatus::Degraded(results[k].message.clone())
                    },
                    None => {
                        // A failure was counted, so one exists: this arm
                        // cannot be reached.
                        proof {
                            lemma_failed_count_exists(results@);
                        }
                        HealthStatus::Healthy
                    },
                }
            } else {
                let mut m = msgs[0].clone();
                let mut k: usize = 1;
                proof {
                    assert(msgs@.subrange(0, 1).len() == 1);
                    assert(sep_join(msgs@.subrange(0, 1).map_values(|s: String| s@)) == msgs@[0]@);
                }
                while k < msgs.len()
                    invariant
                        1 <= k <= msgs@.len(),
                        msgs@.len() >= 2,
                        m@ == sep_join(msgs@.subrange(0, k as int).map_values(|s: String| s@)),
                    decreases msgs@.len() - k,
                {
                    let ghost pre = msgs@.subrange(0, k as int).map_values(|s: String| s@);
                    m = m.concat("; ").concat(msgs[k].as_str());
                    proof {
                        let cur = msgs@.subrange(0, k + 1).map_values(|s: String| s@);
                        assert(cur.drop_last() =~= pre);
                        assert(cur.last() == msgs@[k as int]@);
                        assert(cur.len() >= 2);
                        assert(m@ =~= sep_join(pre) + "; "@ + msgs@[k as int]@);
                    }
                    k = k + 1;
                }
                proof {
                    assert(msgs@.subrange(0, msgs@.len() as int) =~= msgs@);
                }
                HealthStatus::Unhealthy(m)
            }
        },
    }
}

// ---------------------------------------------------------------------------
// Resource history
// ---------------------------------------------------------------------------
#[derive(Debug, Clone, Copy)]
pub struct ResourceSample {
    pub memory_mb: u64,
    /// CPU usage in tenths of a percent.
    pub cpu_tenths: u32,
    /// Monotonic seconds at which the sample was taken.
    pub timestamp: u64,
}

#[derive(Debug)]
pub struct ResourceHistory {
    pub samples: Vec<ResourceSample>,
    pub max_samples: usize,
}

/// Whether a sample falls in the sustained window ending at `now`.  A zero
/// window means every sample counts.
pub open spec fn in_window(s: ResourceSample, sustained_secs: u64, now: u64) -> bool {
    ||| sustained_secs == 0
    ||| s.timestamp + sustained_secs >= now
}

/// How many samples fall in the window.
pub open spec fn window_count(samples: Seq<ResourceSample>, sustained_secs: u64, now: u64) -> nat
    decreases samples.len(),
{
    if samples.len() == 0 {
        0
    } else {
        window_count(samples.drop_last(), sustained_secs, now) + (if in_window(
            samples.last(),
            sustained_secs,
            now,
        ) {
            1nat
        } else {
            0nat
        })
    }
}

/// Every sample in the window exceeds the memory limit (strictly).
pub open spec fn all_memory_over(
    samples: Seq<ResourceSample>,
    limit: u64,
    sustained_secs: u64,
    now: u64,
) -> bool {
    forall|i: int|
        0 <= i < samples.len() && in_window(#[trigger] samples[i], sustained_secs, now)
            ==> samples[i].memory_mb > limit
}

/// Every sample in the window exceeds the CPU limit (strictly).
pub open spec fn all_cpu_over(
    samples: Seq<ResourceSample>,
    limit: u32,
    sustained_secs: u64,
    now: u64,
) -> bool {
    forall|i: int|
        0 <= i < samples.len() && in_window(#[trigger] samples[i], sustained_secs, now)
            ==> samples[i].cpu_tenths > limit
}

impl ResourceHistory {
    pub fn new(max_samples: usize) -> (r: Self)
        ensures
            r.samples@.len() == 0,
            r.max_samples == max_samples,
    {
        ResourceHistory { samples: Vec::new(), max_samples }
    }

    /// Record a sample, keeping only the most recent `max_samples`.
    pub fn add_sample(&mut self, memory_mb: u64, cpu_tenths: u32, now: u64)
        ensures
            final(self).max_samples == old(self).max_samples,
            ({
                let appended = old(self).samples@.push(
                    ResourceSample { memory_mb, cpu_tenths, timestamp: now },
                );
                if appended.len() > old(self).max_samples {
                    final(self).samples@ == appended.drop_first()
                } else {
                    final(self).samples@ == appended
                }
            }),
    {
        self.samples.push(ResourceSample { memory_mb, cpu_tenths, timestamp: now });
        if self.samples.len() > self.max_samples {
            let _ = self.samples.remove(0);
            proof {
                assert(self.samples@ =~= old(self).samples@.push(
                    ResourceSample { memory_mb, cpu_tenths, timestamp: now },
                ).drop_first());
            }
        }
    }

    /// Whether memory and CPU stayed (strictly) above their limits for every
    /// sample of the window.  Fewer than two samples in the window never
    /// count as sustained.
    pub fn is_sustained_over(
        &self,
        max_memory_mb: u64,
        max_cpu_tenths: u32,
        sustained_secs: u64,
        now: u64,
    ) -> (r: (bool, bool))
        ensures
            window_count(self.samples@, sustained_secs, now) < 2 ==> r == (false, false),
            window_count(self.samples@, sustained_secs, now) >= 2 ==> r.0 == all_memory_over(
                self.samples@,
                max_memory_mb,
                sustained_secs,
                now,
            ) && r.1 == all_cpu_over(self.samples@, max_cpu_tenths, sustained_secs, now),
    {
        let n = self.samples.len();
        let mut cnt: usize = 0;
        let mut mem_over: bool = true;
        let mut cpu_over: bool = true;
        let mut i: usize = 0;
        proof {
            assert(self.samples@.subrange(0, 0) =~= Seq::<ResourceSample>::empty());
        }
        while i < n
            invariant
                n == self.samples@.len(),
                0 <= i <= n,
                cnt == window_count(self.samples@.subrange(0, i as int), sustained_secs, now),
                cnt <= i,
                mem_over == all_memory_over(
                    self.samples@.subrange(0, i as int),
                    max_memory_mb,
                    sustained_secs,
                    now,
                ),
                cpu_over == all_cpu_over(
                    self.samples@.subrange(0, i as int),
                    max_cpu_tenths,
                    sustained_secs,
                    now,
                ),
            decreases n - i,
        {
            let ghost pre = self.samples@.subrange(0, i as int);
            let s = self.samples[i];
            let inside = sustained_secs == 0 || s.timestamp >= now || now - s.timestamp
                <= sustained_secs;
            proof {
                assert(inside == in_window(self.samples@[i as int], sustained_secs, now));
            }
            if inside {
                cnt = cnt + 1;
                if s.memory_mb <= max_memory_mb {
                    mem_over = false;
                }
                if s.cpu_tenths <= max_cpu_tenths {
                    cpu_over = false;
                }
            }
            proof {
                let cur = self.samples@.subrange(0, i + 1);
                assert(cur.drop_last() =~= pre);
                assert(cur.last() == self.samples@[i as int]);
                assert(all_memory_over(cur, max_memory_mb, sustained_secs, now) <==> (
                all_memory_over(pre, max_memory_mb, sustained_secs, now) && (in_window(
                    cur.last(),
                    sustained_secs,
                    now,
                ) ==> cur.last().memory_mb > max_memory_mb))) by {
                    assert(forall|j: int| 0 <= j < pre.len() ==> cur[j] == #[trigger] pre[j]);
                }
                assert(all_cpu_over(cur, max_cpu_tenths, sustained_secs, now) <==> (all_cpu_over(
                    pre,
                    max_cpu_tenths,
                    sustained_secs,
                    now,
                ) && (in_window(cur.last(), sustained_secs, now) ==> cur.last().cpu_tenths
                    > max_cpu_tenths))) by {
                    assert(forall|j: int| 0 <= j < pre.len() ==> cur[j] == #[trigger] pre[j]);
                }
            }
            i = i + 1;
        }
        proof {
            assert(self.samples@.subrange(0, n as int) =~= self.samples@);
        }
        if cnt < 2 {
            return (false, false);
        }
        (mem_over, cpu_over)
    }

    /// The most recent sample.
    pub fn latest(&self) -> (r: Option<&ResourceSample>)
        ensures
            self.samples@.len() == 0 <==> r is None,
            r matches Some(s) ==> *s == self.samples@.last(),
    {
        if self.samples.len() == 0 {
            None
        } else {
            Some(&self.samples[self.samples.len() - 1])
        }
    }
}

/// A sample at exactly the limit stops a window from counting as sustained:
/// the comparison is strict.
pub proof fn lemma_at_limit_not_sustained(
    samples: Seq<ResourceSample>,
    limit: u64,
    sustained_secs: u64,
    now: u64,
    i: int,
)
    requires
        0 <= i < samples.len(),
        in_window(samples[i], sustained_secs, now),
        samples[i].memory_mb == limit,
    ensures
        !all_memory_over(samples, limit, sustained_secs, now),
{
    assert(!(samples[i].memory_mb > limit));
}

// ---------------------------------------------------------------------------
// Log pattern scanning (level 2)
// ---------------------------------------------------------------------------
#[derive(Debug)]
pub struct LogPatternState {
    /// Byte size of the log at the last observation.
    pub last_size: u64,
    pub error_count: u32,
    pub warning_count: u32,
    pub last_error: Option<String>,
}

impl LogPatternState {
    pub fn new() -> (r: Self)
        ensures
            r.last_size == 0,
            r.error_count == 0,
            r.warning_count == 0,
            r.last_error is None,
    {
        LogPatternState { last_size: 0, error_count: 0, warning_count: 0, last_error: None }
    }
}

/// The smallest character boundary at or after `off`.
pub open spec fn boundary_at_or_after(bytes: Seq<u8>, off: int) -> int
    decreases bytes.len() - off,
{
    if off >= bytes.len() {
        bytes.len() as int
    } else if vstd::utf8::is_char_boundary(bytes, off) {
        off
    } else {
        boundary_at_or_after(bytes, off + 1)
    }
}

/// The tail of `content` from the first character boundary at or after byte
/// offset `from`.  Advancing to a boundary keeps a partial trailing write
/// from splitting a multi-byte character.
pub fn log_tail(content: &str, from: usize) -> (r: &str)
    ensures
        r.spec_bytes() == content.spec_bytes().subrange(
            boundary_at_or_after(content.spec_bytes(), from as int),
            content.spec_bytes().len() as int,
        ),
{
    broadcast use vstd::slice::axiom_spec_len;

    let ghost bytes = content.spec_bytes();
    let byte_view = content.as_bytes();
    let len = byte_view.len();
    proof {
        assert(byte_view@ == bytes);
        assert(len == bytes.len());
    }
    let mut off: usize = if from > len {
        len
    } else {
        from
    };
    proof {
        if from > len {
            assert(boundary_at_or_after(bytes, from as int) == bytes.len());
            assert(boundary_at_or_after(bytes, len as int) == bytes.len());
        }
    }
    while off < len && !content.is_char_boundary(off)
        invariant
            len == bytes.len(),
            bytes == content.spec_bytes(),
            0 <= off <= len,
            boundary_at_or_after(bytes, from as int) == boundary_at_or_after(bytes, off as int),
        decreases len - off,
    {
        off = off + 1;
    }
    proof {
        assert(boundary_at_or_after(bytes, off as int) == off);
        vstd::utf8::encode_utf8_valid_utf8(content@);
        vstd::utf8::is_char_boundary_start_end_of_seq(bytes);
    }
    let (_, tail) = content.split_at(off);
    tail
}

/// The lines of the scanned text that the pattern matches, in order.
pub open spec fn matched_of(lines: Seq<Seq<char>>, pattern: Seq<char>) -> Seq<Seq<char>>
    decreases lines.len(),
{
    if lines.len() == 0 {
        Seq::empty()
    } else if regex_match(pattern, lines.last()) {
        matched_of(lines.drop_last(), pattern) + seq![lines.last()]
    } else {
        matched_of(lines.drop_last(), pattern)
    }
}

/// A matched line as the message shows it: trimmed, capped at 100
/// characters with an ellipsis.
pub open spec fn shown_line(l: Seq<char>) -> Seq<char> {
    let t = trimmed(l);
    if t.len() > 100 {
        t.take(100) + "..."@
    } else {
        t
    }
}

/// The scanner's message when the pattern matched: the count of matched
/// lines and the latest one.
pub open spec fn scan_message(tail: Seq<char>, pattern: Seq<char>) -> Seq<char> {
    let matched = matched_of(lines_of(tail), pattern);
    dec_digits(matched.len() as int) + " errors found, latest: "@ + shown_line(matched.last())
}

/// A whole scan step over the per-process scan states: the state for
/// `name` advances against the observed log bytes, everything else stays.
pub open spec fn scan_post(
    ls0: Map<Seq<char>, LogPatternState>,
    ls1: Map<Seq<char>, LogPatternState>,
    name: Seq<char>,
    bytes: Seq<u8>,
    pattern: Seq<char>,
    r: Option<String>,
) -> bool {
    let size = bytes.len() as u64;
    &&& ls1.contains_key(name)
    &&& ls1 == ls0.insert(name, ls1[name])
    &&& ({
        let st2 = ls1[name];
        if !ls0.contains_key(name) {
            // First observation: seed the offset, report no errors.
            r is None && st2.last_size == size && st2.error_count == 0 && st2.last_error is None
        } else {
            let st = ls0[name];
            if size <= st.last_size || st.last_size == 0 {
                r is None && st2.last_size == size && st2.error_count == st.error_count
                    && st2.last_error == st.last_error
            } else {
                exists|tail: Seq<char>|
                    vstd::utf8::encode_utf8(tail) == bytes.subrange(
                        boundary_at_or_after(bytes, st.last_size as int),
                        bytes.len() as int,
                    ) && #[trigger] scan_rel(st, st2, tail, pattern, size, r)
            }
        }
    })
}

/// What one scan of a log tail reports and how it advances the counters.
pub open spec fn scan_rel(
    st: LogPatternState,
    st2: LogPatternState,
    tail: Seq<char>,
    pattern: Seq<char>,
    size: u64,
    r: Option<String>,
) -> bool {
    &&& st2.last_size == size
    &&& (!regex_valid(pattern) ==> r is None && st2.error_count == st.error_count)
    &&& (regex_valid(pattern) ==> {
        let matched = matched_of(lines_of(tail), pattern);
        &&& st2.error_count == vstd::math::min(
            st.error_count + matched.len(),
            u32::MAX as int,
        )
        &&& (matched.len() == 0 ==> r is None && st2.last_error == st.last_error)
        &&& (matched.len() > 0 ==> (r matches Some(m) && m@ == scan_message(tail, pattern)) && (
        st2.last_error matches Some(e) && e@ == matched.last()))
    })
}

// ---------------------------------------------------------------------------
// The health checker
// ---------------------------------------------------------------------------
pub struct HealthChecker {
    pub system: sysinfo::System,
    pub last_check: StrMap<HealthCheckResult>,
    pub resource_history: StrMap<ResourceHistory>,
    pub log_states: StrMap<LogPatternState>,
    pub http_consecutive_failures: StrMap<u32>,
}

impl HealthChecker {
    pub open spec fn wf(&self) -> bool {
        &&& self.last_check.wf()
        &&& self.resource_history.wf()
        &&& self.log_states.wf()
        &&& self.http_consecutive_failures.wf()
    }

    pub fn new() -> (r: Self)
        ensures
            r.wf(),
            r.last_check@ == Map::<Seq<char>, HealthCheckResult>::empty(),
            r.resource_history@ == Map::<Seq<char>, ResourceHistory>::empty(),
            r.log_states@ == Map::<Seq<char>, LogPatternState>::empty(),
            r.http_consecutive_failures@ == Map::<Seq<char>, u32>::empty(),
    {
        HealthChecker {
            system: crate::shims::system_new(),
            last_check: StrMap::new(),
            resource_history: StrMap::new(),
            log_states: StrMap::new(),
            http_consecutive_failures: StrMap::new(),
        }
    }

    /// The last verdict recorded for a process.
    pub fn last_result(&self, name: &str) -> (r: Option<&HealthCheckResult>)
        requires
            self.wf(),
        ensures
            r matches Some(h) ==> self.last_check@.contains_key(name@) && *h == self.last_check@[
                name@
            ],
            r is None ==> !self.last_check@.contains_key(name@),
    {
        self.last_check.get(name)
    }

    /// Level 1: is the process alive in the host's process table?  The
    /// table's answer depends on the machine; the result's shape does not.
    pub fn check_process_alive(&mut self, pid: Option<u32>) -> (r: LevelResult)
        requires
            old(self).wf(),
        ensures
            final(self).wf(),
            final(self).last_check == old(self).last_check,
            final(self).resource_history == old(self).resource_history,
            final(self).log_states == old(self).log_states,
            final(self).http_consecutive_failures == old(self).http_consecutive_failures,
            alive_level_rel(pid, r),
    {
        match pid {
            Some(p) => {
                crate::shims::refresh_process_table(&mut self.system);
                let alive = crate::shims::pid_exists(&self.system, p);
                let num = u64_to_string(p as u64);
                let message = if alive {
                    let m = String::from_str("PID ").concat(num.as_str()).concat(" is running");
                    assert(m@ =~= "PID "@ + dec_digits(p as int) + " is running"@);
                    m
                } else {
                    let m = String::from_str("PID ").concat(num.as_str()).concat(" is not found");
                    assert(m@ =~= "PID "@ + dec_digits(p as int) + " is not found"@);
                    m
                };
                LevelResult {
                    level: 1,
                    name: String::from_str("Process Alive"),
                    passed: alive,
                    message,
                }
            },
            None => LevelResult {
                level: 1,
                name: String::from_str("Process Alive"),
                passed: false,
                message: String::from_str("No PID available"),
            },
        }
    }

    /// Level 2 bookkeeping: scan the part of the log that grew since the
    /// last observation for lines the pattern matches.  The first
    /// observation of a log only seeds the read offset and reports nothing.
    pub fn scan_log_for_patterns(&mut self, name: &str, content: &str, pattern: &str) -> (r: Option<
        String,
    >)
        requires
            old(self).wf(),
        ensures
            final(self).wf(),
            final(self).last_check == old(self).last_check,
            final(self).resource_history == old(self).resource_history,
            final(self).http_consecutive_failures == old(self).http_consecutive_failures,
            scan_post(
                old(self).log_states@,
                final(self).log_states@,
                name@,
                content.spec_bytes(),
                pattern@,
                r,
            ),
    {
        broadcast use vstd::slice::axiom_spec_len;

        let ghost bytes = content.spec_bytes();
        let byte_view = content.as_bytes();
        let blen = byte_view.len();
        proof {
            assert(byte_view@ == bytes);
            assert(blen == bytes.len());
        }
        let current_size = blen as u64;
        let mut state = match self.log_states.take(name) {
            Some(s) => s,
            None => LogPatternState::new(),
        };
        let ghost st0 = state;
        if current_size <= state.last_size || state.last_size == 0 {
            state.last_size = current_size;
            self.log_states.insert(String::from_str(name), state);
            proof {
                assert(self.log_states@ =~= old(self).log_states@.insert(
                    name@,
                    self.log_states@[name@],
                ));
            }
            return None;
        }
        let offset = state.last_size as usize;
        let tail = log_tail(content, offset);
        let ghost tail_chars = tail@;
        state.last_size = current_size;
        let re = match crate::shims::regex_new(pattern) {
            Some(re) => re,
            None => {
                let ghost st2 = state;
                self.log_states.insert(String::from_str(name), state);
                proof {
                    assert(self.log_states@ =~= old(self).log_states@.insert(
                        name@,
                        self.log_states@[name@],
                    ));
                }
                proof {
                    assert(scan_rel(st0, st2, tail_chars, pattern@, current_size, None));
                }
                return None;
            },
        };
        let lines = split_lines(tail);
        let ghost lv = lines@.map_values(|l: String| l@);
        let mut matched_count: usize = 0;
        let mut last_match: Option<String> = None;
        let mut i: usize = 0;
        proof {
            assert(lv.subrange(0, 0) =~= Seq::<Seq<char>>::empty());
        }
        while i < lines.len()
            invariant
                lv == lines@.map_values(|l: String| l@),
                lv == lines_of(tail_chars),
                regex_valid(pattern@),
                crate::shims::regex_pattern(re) == pattern@,
                0 <= i <= lines@.len(),
                matched_count == matched_of(lv.subrange(0, i as int), pattern@).len(),
                matched_count <= i,
                state.error_count == vstd::math::min(
                    st0.error_count + matched_count,
                    u32::MAX as int,
                ),
                state.last_size == current_size,
                state.warning_count == st0.warning_count,
                matched_count == 0 ==> last_match is None && state.last_error == st0.last_error,
                matched_count > 0 ==> (last_match matches Some(l) && l@ == matched_of(
                    lv.subrange(0, i as int),
                    pattern@,
                ).last()) && (state.last_error matches Some(e) && e@ == matched_of(
                    lv.subrange(0, i as int),
                    pattern@,
                ).last()),
            decreases lines@.len() - i,
        {
            let ghost pre = lv.subrange(0, i as int);
            let hit = crate::shims::regex_is_match(&re, lines[i].as_str());
            if hit {
                state.error_count = state.error_count.saturating_add(1);
                state.last_error = Some(lines[i].clone());
                last_match = Some(lines[i].clone());
                matched_count = matched_count + 1;
            }
            proof {
                let cur = lv.subrange(0, i + 1);
                assert(cur.drop_last() =~= pre);
                assert(cur.last() == lv[i as int]);
                assert(lv[i as int] == lines@[i as int]@);
            }
            i = i + 1;
        }
        proof {
            assert(lv.subrange(0, lines@.len() as int) =~= lv);
        }
        if matched_count == 0 {
            let ghost st2 = state;
            self.log_states.insert(String::from_str(name), state);
            proof {
                assert(self.log_states@ =~= old(self).log_states@.insert(
                    name@,
                    self.log_states@[name@],
                ));
            }
            proof {
                assert(scan_rel(st0, st2, tail_chars, pattern@, current_size, None));
            }
            return None;
        }
        let ghost matched = matched_of(lv, pattern@);
        match last_match {
            Some(last) => {
                let t = str_trim(last.as_str());
                let tn = t.unicode_len();
                let shown = if tn > 100 {
                    let s = String::from_str(t.substring_char(0, 100)).concat("...");
                    assert(s@ =~= shown_line(matched.last())) by {
                        assert(t@.subrange(0, 100) =~= trimmed(matched.last()).take(100));
                    }
                    s
                } else {
                    let s = String::from_str(t);
                    assert(s@ =~= shown_line(matched.last()));
                    s
                };
                let msg = u64_to_string(matched_count as u64).concat(
                    " errors found, latest: ",
                ).concat(shown.as_str());
                proof {
                    assert(msg@ =~= scan_message(tail_chars, pattern@));
                }
                let ghost st2 = state;
                self.log_states.insert(String::from_str(name), state);
                proof {
                    assert(self.log_states@ =~= old(self).log_states@.insert(
                        name@,
                        self.log_states@[name@],
                    ));
                }
                proof {
                    assert(scan_rel(st0, st2, tail_chars, pattern@, current_size, Some(msg)));
                }
                Some(msg)
            },
            None => {
                // A match was counted, so one was recorded: this arm cannot
                // be reached.
                self.log_states.insert(String::from_str(name), state);
                proof {
                    assert(self.log_states@ =~= old(self).log_states@.insert(
                        name@,
                        self.log_states@[name@],
                    ));
                }
                None
            },
        }
    }
}

/// Level 1's result for a given pid, whatever the process table said: the
/// shape and messages are fixed, whether it passed is the machine's answer.
pub open spec fn alive_level_rel(pid: Option<u32>, r: LevelResult) -> bool {
    &&& r.level == 1
    &&& r.name@ == "Process Alive"@
    &&& (pid is None ==> !r.passed && r.message@ == "No PID available"@)
    &&& (pid matches Some(p) ==> (r.passed ==> r.message@ == "PID "@ + dec_digits(p as int)
        + " is running"@) && (!r.passed ==> r.message@ == "PID "@ + dec_digits(p as int)
        + " is not found"@))
}

// ---------------------------------------------------------------------------
// Level 2: log activity combined with the pattern scan
// ---------------------------------------------------------------------------
/// The level-2 outcome for one observation of the log and its effect on
/// the scan states: the probe passes exactly when the log is active and
/// the scan of the grown tail reported nothing.  The scan runs only when
/// `scanned` holds — a pattern is configured and the log was readable.
pub open spec fn log_level_rel(
    ls0: Map<Seq<char>, LogPatternState>,
    ls1: Map<Seq<char>, LogPatternState>,
    name: Seq<char>,
    log_file: Seq<char>,
    log_exists: bool,
    elapsed_secs: Option<u64>,
    timeout_secs: u64,
    scanned: bool,
    pattern: Seq<char>,
    bytes: Seq<u8>,
    r: LevelResult,
) -> bool {
    let elapsed = match elapsed_secs {
        Some(e) => e as int,
        None => u64::MAX as int,
    };
    let active = elapsed < timeout_secs;
    &&& r.level == 2
    &&& r.name@ == "Log Activity"@
    &&& (!log_exists ==> r.passed && r.message@ == "Log file not found: "@ + log_file && ls1
        == ls0)
    &&& (log_exists && !active ==> !r.passed && r.message@ == "Log stale: last updated "@
        + dec_digits(elapsed) + "s ago (timeout: "@ + dec_digits(timeout_secs as int) + "s)"@)
    &&& (log_exists && scanned ==> exists|sr: Option<String>|
        {
            &&& #[trigger] scan_post(ls0, ls1, name, bytes, pattern, sr)
            &&& (active ==> (sr is None ==> r.passed && r.message@ == "Log updated "@
                + dec_digits(elapsed) + "s ago"@) && (sr matches Some(m) ==> !r.passed
                && r.message@ == "Log active but errors detected: "@ + m@))
        })
    &&& (log_exists && !scanned ==> ls1 == ls0 && (active ==> r.passed && r.message@
        == "Log updated "@ + dec_digits(elapsed) + "s ago"@))
}

impl HealthChecker {
    /// Level 2: fail when the log went stale or new lines match the error
    /// pattern.  `elapsed_secs` is the observed age of the log file
    /// (`None` when it could not be read), `content` its observed text.
    pub fn check_log_activity_and_patterns(
        &mut self,
        name: &str,
        log_file: &str,
        log_exists: bool,
        elapsed_secs: Option<u64>,
        timeout_secs: u64,
        pattern: Option<&str>,
        content: Option<&str>,
    ) -> (r: LevelResult)
        requires
            old(self).wf(),
        ensures
            final(self).wf(),
            final(self).last_check == old(self).last_check,
            final(self).resource_history == old(self).resource_history,
            final(self).http_consecutive_failures == old(self).http_consecutive_failures,
            log_level_rel(
                old(self).log_states@,
                final(self).log_states@,
                name@,
                log_file@,
                log_exists,
                elapsed_secs,
                timeout_secs,
                pattern is Some && content is Some,
                (match pattern {
                    Some(p) => p@,
                    None => Seq::empty(),
                }),
                (match content {
                    Some(c) => c.spec_bytes(),
                    None => Seq::empty(),
                }),
                r,
            ),
    {
        if !log_exists {
            let m = String::from_str("Log file not found: ").concat(log_file);
            assert(m@ =~= "Log file not found: "@ + log_file@);
            return LevelResult {
                level: 2,
                name: String::from_str("Log Activity"),
                passed: true,
                message: m,
            };
        }
        let elapsed: u64 = match elapsed_secs {
            Some(e) => e,
            None => u64::MAX,
        };
        let is_active = elapsed < timeout_secs;
        let pattern_result: Option<String> = match (pattern, content) {
            (Some(p), Some(c)) => self.scan_log_for_patterns(name, c, p),
            _ => None,
        };
        proof {
            match (pattern, content) {
                (Some(p), Some(c)) => {
                    assert(scan_post(
                        old(self).log_states@,
                        self.log_states@,
                        name@,
                        c.spec_bytes(),
                        p@,
                        pattern_result,
                    ));
                },
                _ => {
                    assert(self.log_states@ =~= old(self).log_states@);
                },
            }
        }
        let result = if !is_active {
            let m = String::from_str("Log stale: last updated ").concat(
                u64_to_string(elapsed).as_str(),
            ).concat("s ago (timeout: ").concat(u64_to_string(timeout_secs).as_str()).concat(
                "s)",
            );
            assert(m@ =~= "Log stale: last updated "@ + dec_digits(elapsed as int)
                + "s ago (timeout: "@ + dec_digits(timeout_secs as int) + "s)"@);
            LevelResult {
                level: 2,
                name: String::from_str("Log Activity"),
                passed: false,
                message: m,
            }
        } else if let Some(err) = pattern_result {
            let m = String::from_str("Log active but errors detected: ").concat(err.as_str());
            assert(m@ =~= "Log active but errors detected: "@ + err@);
            assert(pattern_result matches Some(e) && e@ == err@);
            LevelResult {
                level: 2,
                name: String::from_str("Log Activity"),
                passed: false,
                message: m,
            }
        } else {
            let m = String::from_str("Log updated ").concat(u64_to_string(elapsed).as_str()).concat(
                "s ago",
            );
            assert(m@ =~= "Log updated "@ + dec_digits(elapsed as int) + "s ago"@);
            LevelResult {
                level: 2,
                name: String::from_str("Log Activity"),
                passed: true,
                message: m,
            }
        };
        proof {
            let ls0 = old(self).log_states@;
            let ls1 = self.log_states@;
            let el: int = match elapsed_secs {
                Some(e) => e as int,
                None => u64::MAX as int,
            };
            match (pattern, content) {
                (Some(p), Some(c)) => {
                    assert(scan_post(ls0, ls1, name@, c.spec_bytes(), p@, pattern_result));
                    assert(el < timeout_secs ==> (pattern_result is None ==> result.passed
                        && result.message@ == "Log updated "@ + dec_digits(el) + "s ago"@) && (
                    pattern_result matches Some(m) ==> !result.passed && result.message@
                        == "Log active but errors detected: "@ + m@));
                },
                _ => {},
            }
        }
        result
    }
}

// ---------------------------------------------------------------------------
// Level 3: configuration validation with generational backup
// ---------------------------------------------------------------------------
/// The level-3 outcome for one reading of the watched configuration file,
/// and how the backup image moves: a backup on success, a rollback on a
/// parse failure (when enabled).
pub open spec fn json_level_rel(
    bm0: BackupManager,
    bm1: BackupManager,
    config_file: Seq<char>,
    observed: FileReading,
    auto_backup: bool,
    r: LevelResult,
) -> bool {
    &&& r.level == 3
    &&& r.name@ == "Config Validation"@
    &&& (observed is Missing ==> r.passed && r.message@ == "Config file not found: "@
        + config_file && bm1 == bm0)
    &&& (observed matches FileReading::Unreadable(e) ==> !r.passed && r.message@
        == "Failed to read config: "@ + e@ && bm1 == bm0)
    &&& (observed matches FileReading::Text(t) ==> {
        &&& (r.passed <==> json_valid(t@))
        &&& (json_valid(t@) ==> r.message@ == "JSON config is valid"@)
        &&& (json_valid(t@) && auto_backup ==> create_post(
            BackupManager { file: Some(t), ..bm0 },
            bm1,
        ))
        &&& (!json_valid(t@) ==> seq_starts_with(r.message@, "Invalid JSON: "@)
            && seq_ends_with(r.message@, " (rollback attempted)"@))
        &&& (!json_valid(t@) && auto_backup ==> (if first_some(bm0.slots@) >= 0
            || bm0.legacy is Some {
            restore_post(bm0, bm1)
        } else {
            bm1 == bm0
        }))
        &&& (!auto_backup ==> bm1 == bm0)
    })
}

/// What the application observed of the watched configuration file.
pub enum FileReading {
    /// The file does not exist.
    Missing,
    /// The file exists but could not be read; the diagnostic is kept.
    Unreadable(String),
    /// The file's text.
    Text(String),
}

impl HealthChecker {
    /// Level 3: the watched configuration file must hold valid JSON.  On
    /// success a generational backup is taken (when enabled); on a parse
    /// failure the newest backup is rolled back onto the file image.
    pub fn check_json_config_with_backup(
        &self,
        bm: &mut BackupManager,
        config_file: &str,
        observed: &FileReading,
        auto_backup: bool,
    ) -> (r: LevelResult)
        requires
            old(bm).wf(),
        ensures
            final(bm).wf(),
            json_level_rel(*old(bm), *final(bm), config_file@, *observed, auto_backup, r),
    {
        match observed {
            FileReading::Missing => {
                let m = String::from_str("Config file not found: ").concat(config_file);
                assert(m@ =~= "Config file not found: "@ + config_file@);
                LevelResult {
                    level: 3,
                    name: String::from_str("Config Validation"),
                    passed: true,
                    message: m,
                }
            },
            FileReading::Unreadable(e) => {
                let m = String::from_str("Failed to read config: ").concat(e.as_str());
                assert(m@ =~= "Failed to read config: "@ + e@);
                LevelResult {
                    level: 3,
                    name: String::from_str("Config Validation"),
                    passed: false,
                    message: m,
                }
            },
            FileReading::Text(t) => {
                match json_check(t.as_str()) {
                    Ok(_) => {
                        if auto_backup {
                            bm.file = Some(t.clone());
                            let _ = bm.create_backup();
                        }
                        LevelResult {
                            level: 3,
                            name: String::from_str("Config Validation"),
                            passed: true,
                            message: String::from_str("JSON config is valid"),
                        }
                    },
                    Err(e) => {
                        if auto_backup {
                            let _ = bm.restore_latest();
                        }
                        let m = String::from_str("Invalid JSON: ").concat(e.as_str()).concat(
                            " (rollback attempted)",
                        );
                        proof {
                            assert(m@.subrange(0, "Invalid JSON: "@.len() as int)
                                =~= "Invalid JSON: "@);
                            assert(m@.subrange(
                                m@.len() - " (rollback attempted)"@.len(),
                                m@.len() as int,
                            ) =~= " (rollback attempted)"@);
                        }
                        LevelResult {
                            level: 3,
                            name: String::from_str("Config Validation"),
                            passed: false,
                            message: m,
                        }
                    },
                }
            },
        }
    }
}

/// `hay` ends with `needle`.
pub open spec fn seq_ends_with(hay: Seq<char>, needle: Seq<char>) -> bool {
    needle.len() <= hay.len() && hay.subrange(hay.len() - needle.len(), hay.len() as int)
        == needle
}

// ---------------------------------------------------------------------------
// Level 4: sustained resource usage
// ---------------------------------------------------------------------------
/// A CPU figure in tenths of a percent, rendered with one decimal.
pub open spec fn tenths_chars(t: int) -> Seq<char> {
    dec_digits(t / 10) + "."@ + dec_digits(t % 10)
}

/// Render tenths of a percent with one decimal place.
pub fn tenths_to_string(t: u32) -> (r: String)
    ensures
        r@ == tenths_chars(t as int),
{
    let whole = u64_to_string((t / 10) as u64);
    let frac = u64_to_string((t % 10) as u64);
    let r = whole.concat(".").concat(frac.as_str());
    assert(r@ =~= tenths_chars(t as int));
    r
}

/// The level-4 message: current versus limit for both resources, with
/// explicit tags for sustained or critical conditions.
pub open spec fn resource_message(
    mem: u64,
    max_mem: u64,
    cpu: u32,
    max_cpu: u32,
    mem_sus: bool,
    cpu_sus: bool,
    mem_crit: bool,
) -> Seq<char> {
    let base = "Memory: "@ + dec_digits(mem as int) + "MB/"@ + dec_digits(max_mem as int)
        + "MB, CPU: "@ + tenths_chars(cpu as int) + "%/"@ + tenths_chars(max_cpu as int) + "%"@;
    let m1 = if mem_sus {
        base + " [SUSTAINED memory exceeded]"@
    } else {
        base
    };
    let m2 = if cpu_sus {
        m1 + " [SUSTAINED CPU exceeded]"@
    } else {
        m1
    };
    if mem_crit {
        m2 + " [CRITICAL: 2x memory limit]"@
    } else {
        m2
    }
}

/// The recorded history after one sample: the new sample appended, the
/// oldest dropped once the bound is reached.
pub open spec fn history_after(
    prev: Seq<ResourceSample>,
    bound: int,
    s: ResourceSample,
) -> Seq<ResourceSample> {
    let a = prev.push(s);
    if a.len() > bound {
        a.drop_first()
    } else {
        a
    }
}

/// The level-4 outcome for one observed sample, and how the history moves:
/// the sample is recorded, and the probe fails on a sustained window or an
/// instantaneous critical value.
pub open spec fn resource_level_rel(
    rh0: Map<Seq<char>, ResourceHistory>,
    rh1: Map<Seq<char>, ResourceHistory>,
    name: Seq<char>,
    pid: u32,
    found: bool,
    memory_mb: u64,
    cpu_tenths: u32,
    max_memory_mb: u64,
    max_cpu_tenths: u32,
    check_interval: u64,
    now: u64,
    r: LevelResult,
) -> bool {
    &&& r.level == 4
    &&& r.name@ == "Resource Usage"@
    &&& (!found ==> !r.passed && r.message@ == "Process "@ + dec_digits(pid as int)
        + " not found"@ && rh1 == rh0)
    &&& (found ==> {
        let prev: Seq<ResourceSample> = if rh0.contains_key(name) {
            rh0[name].samples@
        } else {
            Seq::empty()
        };
        let bound: int = if rh0.contains_key(name) {
            rh0[name].max_samples as int
        } else {
            60
        };
        let sample = ResourceSample { memory_mb, cpu_tenths, timestamp: now };
        let h2 = rh1[name];
        let window = 3 * check_interval;
        let counted = window_count(h2.samples@, window as u64, now);
        let mem_sus = counted >= 2 && all_memory_over(
            h2.samples@,
            max_memory_mb,
            window as u64,
            now,
        );
        let cpu_sus = counted >= 2 && all_cpu_over(h2.samples@, max_cpu_tenths, window as u64, now);
        let mem_crit = memory_mb > 2 * max_memory_mb;
        let cpu_crit = cpu_tenths > 990;
        &&& rh1 == rh0.insert(name, h2)
        &&& h2.max_samples == bound
        &&& h2.samples@ == history_after(prev, bound, sample)
        &&& (r.passed <==> !mem_sus && !cpu_sus && !mem_crit && !cpu_crit)
        &&& r.message@ == resource_message(
            memory_mb,
            max_memory_mb,
            cpu_tenths,
            max_cpu_tenths,
            mem_sus,
            cpu_sus,
            mem_crit,
        )
    })
}

impl HealthChecker {
    /// Level 4: record the observed sample and fail when a resource stayed
    /// over its limit for the whole window, or instantaneously ran far
    /// beyond it.
    pub fn check_resources_sustained(
        &mut self,
        name: &str,
        pid: u32,
        found: bool,
        memory_mb: u64,
        cpu_tenths: u32,
        max_memory_mb: u64,
        max_cpu_tenths: u32,
        check_interval: u64,
        now: u64,
    ) -> (r: LevelResult)
        requires
            old(self).wf(),
            check_interval <= u64::MAX / 3,
            max_memory_mb <= u64::MAX / 2,
        ensures
            final(self).wf(),
            final(self).last_check == old(self).last_check,
            final(self).log_states == old(self).log_states,
            final(self).http_consecutive_failures == old(self).http_consecutive_failures,
            resource_level_rel(
                old(self).resource_history@,
                final(self).resource_history@,
                name@,
                pid,
                found,
                memory_mb,
                cpu_tenths,
                max_memory_mb,
                max_cpu_tenths,
                check_interval,
                now,
                r,
            ),
    {
        if !found {
            let m = String::from_str("Process ").concat(u64_to_string(pid as u64).as_str()).concat(
                " not found",
            );
            assert(m@ =~= "Process "@ + dec_digits(pid as int) + " not found"@);
            return LevelResult {
                level: 4,
                name: String::from_str("Resource Usage"),
                passed: false,
                message: m,
            };
        }
        let mut history = match self.resource_history.take(name) {
            Some(h) => h,
            None => ResourceHistory::new(60),
        };
        history.add_sample(memory_mb, cpu_tenths, now);
        let window = check_interval * 3;
        let (mem_sus, cpu_sus) = history.is_sustained_over(
            max_memory_mb,
            max_cpu_tenths,
            window,
            now,
        );
        let mem_crit = memory_mb > max_memory_mb * 2;
        let cpu_crit = cpu_tenths > 990;
        let passed = !mem_sus && !cpu_sus && !mem_crit && !cpu_crit;
        let mut m = String::from_str("Memory: ").concat(
            u64_to_string(memory_mb).as_str(),
        ).concat("MB/").concat(u64_to_string(max_memory_mb).as_str()).concat("MB, CPU: ").concat(
            tenths_to_string(cpu_tenths).as_str(),
        ).concat("%/").concat(tenths_to_string(max_cpu_tenths).as_str()).concat("%");
        if mem_sus {
            m = m.concat(" [SUSTAINED memory exceeded]");
        }
        if cpu_sus {
            m = m.concat(" [SUSTAINED CPU exceeded]");
        }
        if mem_crit {
            m = m.concat(" [CRITICAL: 2x memory limit]");
        }
        proof {
            assert(m@ =~= resource_message(
                memory_mb,
                max_memory_mb,
                cpu_tenths,
                max_cpu_tenths,
                mem_sus,
                cpu_sus,
                mem_crit,
            ));
        }
        let ghost h2 = history;
        self.resource_history.insert(String::from_str(name), history);
        let result = LevelResult {
            level: 4,
            name: String::from_str("Resource Usage"),
            passed,
            message: m,
        };
        proof {
            let rh0 = old(self).resource_history@;
            let rh1 = self.resource_history@;
            assert(rh1 =~= rh0.insert(name@, h2));
            assert(rh1[name@] == h2);
            let prev: Seq<ResourceSample> = if rh0.contains_key(name@) {
                rh0[name@].samples@
            } else {
                Seq::empty()
            };
            let bound: int = if rh0.contains_key(name@) {
                rh0[name@].max_samples as int
            } else {
                60
            };
            let sample = ResourceSample { memory_mb, cpu_tenths, timestamp: now };
            assert(h2.max_samples == bound);
            assert(h2.samples@ == history_after(prev, bound, sample));
            let window = 3 * check_interval;
            let counted = window_count(h2.samples@, window as u64, now);
            let ms = counted >= 2 && all_memory_over(h2.samples@, max_memory_mb, window as u64, now);
            let cs = counted >= 2 && all_cpu_over(h2.samples@, max_cpu_tenths, window as u64, now);
            assert(result.passed <==> !ms && !cs && !(memory_mb > 2 * max_memory_mb) && !(
            cpu_tenths > 990));
            assert(result.message@ == resource_message(
                memory_mb,
                max_memory_mb,
                cpu_tenths,
                max_cpu_tenths,
                ms,
                cs,
                memory_mb > 2 * max_memory_mb,
            ));
        }
        result
    }
}

// ---------------------------------------------------------------------------
// Level 5: HTTP endpoint reachability
// ---------------------------------------------------------------------------
/// What the application's connection attempts yielded.
pub enum HttpOutcome {
    Reachable,
    /// The last connection error's text.
    Unreachable(String),
}

/// `s` with every copy of the prefix `p` stripped from the front.
pub open spec fn strip_prefix_rep(s: Seq<char>, p: Seq<char>) -> Seq<char>
    decreases s.len(),
{
    if p.len() > 0 && seq_starts_with(s, p) && s.len() >= p.len() {
        strip_prefix_rep(s.skip(p.len() as int), p)
    } else {
        s
    }
}

/// Index of the first `/` in `s`, or `s.len()`.
pub open spec fn first_slash(s: Seq<char>) -> int
    decreases s.len(),
{
    if s.len() == 0 {
        0
    } else if s.first() == '/' {
        0
    } else {
        1 + first_slash(s.drop_first())
    }
}

/// The `host:port` part of an endpoint: scheme prefixes stripped, any path
/// cut off.
pub open spec fn addr_of(endpoint: Seq<char>) -> Seq<char> {
    let u = strip_prefix_rep(strip_prefix_rep(endpoint, "http://"@), "https://"@);
    u.subrange(0, first_slash(u))
}

proof fn lemma_first_slash_at(s: Seq<char>, i: int)
    requires
        0 <= i <= s.len(),
        forall|k: int| 0 <= k < i ==> s[k] != '/',
        i < s.len() ==> s[i] == '/',
    ensures
        first_slash(s) == i,
    decreases s.len(),
{
    if s.len() > 0 && s.first() != '/' {
        let t = s.drop_first();
        assert forall|k: int| 0 <= k < i - 1 implies t[k] != '/' by {
            assert(t[k] == s[k + 1]);
        }
        assert(i > 0);
        lemma_first_slash_at(t, i - 1);
    }
}

/// Reduce an HTTP endpoint to the address to probe.
pub fn endpoint_addr(endpoint: &str) -> (r: String)
    ensures
        r@ == addr_of(endpoint@),
{
    let mut u = String::from_str(endpoint);
    while crate::text::str_starts_with(u.as_str(), "http://")
        invariant
            strip_prefix_rep(u@, "http://"@) == strip_prefix_rep(endpoint@, "http://"@),
        decreases u@.len(),
    {
        proof {
            reveal_strlit("http://");
        }
        let ghost before = u@;
        let n = u.as_str().unicode_len();
        u = String::from_str(u.as_str().substring_char(7, n));
        proof {
            assert(u@ =~= before.skip("http://"@.len() as int));
        }
    }
    let ghost u1 = u@;
    proof {
        assert(u1 == strip_prefix_rep(endpoint@, "http://"@));
    }
    while crate::text::str_starts_with(u.as_str(), "https://")
        invariant
            strip_prefix_rep(u@, "https://"@) == strip_prefix_rep(u1, "https://"@),
        decreases u@.len(),
    {
        proof {
            reveal_strlit("https://");
        }
        let ghost before = u@;
        let n = u.as_str().unicode_len();
        u = String::from_str(u.as_str().substring_char(8, n));
        proof {
            assert(u@ =~= before.skip("https://"@.len() as int));
        }
    }
    let n = u.as_str().unicode_len();
    let mut i: usize = 0;
    while i < n && u.as_str().get_char(i) != '/'
        invariant
            n == u@.len(),
            0 <= i <= n,
            forall|k: int| 0 <= k < i ==> u@[k] != '/',
        decreases n - i,
    {
        i = i + 1;
    }
    proof {
        lemma_first_slash_at(u@, i as int);
    }
    let r = String::from_str(u.as_str().substring_char(0, i));
    r
}

/// The level-5 outcome for one set of connection attempts: a reachable
/// endpoint clears the consecutive-failure counter, an unreachable one
/// advances and reports it.
pub open spec fn http_level_rel(
    h0: Map<Seq<char>, u32>,
    h1: Map<Seq<char>, u32>,
    name: Seq<char>,
    endpoint: Seq<char>,
    outcome: HttpOutcome,
    r: LevelResult,
) -> bool {
    &&& r.level == 5
    &&& r.name@ == "HTTP Endpoint"@
    &&& (outcome is Reachable ==> r.passed && !h1.contains_key(name) && r.message@
        == "Endpoint "@ + endpoint + " is reachable"@ && h1 == h0.remove(name))
    &&& (outcome matches HttpOutcome::Unreachable(e) ==> {
        let prev: int = if h0.contains_key(name) {
            h0[name] as int
        } else {
            0
        };
        let n = vstd::math::min(prev + 1, u32::MAX as int);
        &&& !r.passed
        &&& h1 == h0.insert(name, n as u32)
        &&& r.message@ == "Endpoint "@ + endpoint + " unreachable: "@ + e@
            + " (consecutive failures: "@ + dec_digits(n) + ")"@
    })
}

impl HealthChecker {
    /// Level 5 bookkeeping: a reachable endpoint clears the consecutive
    /// failure counter; an unreachable one increments it and reports it.
    pub fn apply_http_outcome(&mut self, name: &str, endpoint: &str, outcome: &HttpOutcome) -> (r:
        LevelResult)
        requires
            old(self).wf(),
        ensures
            final(self).wf(),
            final(self).last_check == old(self).last_check,
            final(self).resource_history == old(self).resource_history,
            final(self).log_states == old(self).log_states,
            http_level_rel(
                old(self).http_consecutive_failures@,
                final(self).http_consecutive_failures@,
                name@,
                endpoint@,
                *outcome,
                r,
            ),
    {
        match outcome {
            HttpOutcome::Reachable => {
                self.http_consecutive_failures.remove_key(name);
                proof {
                    assert(self.http_consecutive_failures@
                        =~= old(self).http_consecutive_failures@.remove(name@));
                }
                let m = String::from_str("Endpoint ").concat(endpoint).concat(" is reachable");
                assert(m@ =~= "Endpoint "@ + endpoint@ + " is reachable"@);
                LevelResult {
                    level: 5,
                    name: String::from_str("HTTP Endpoint"),
                    passed: true,
                    message: m,
                }
            },
            HttpOutcome::Unreachable(e) => {
                let prev: u32 = match self.http_consecutive_failures.get(name) {
                    Some(c) => *c,
                    None => 0,
                };
                let n = prev.saturating_add(1);
                self.http_consecutive_failures.insert(String::from_str(name), n);
                proof {
                    assert(self.http_consecutive_failures@
                        =~= old(self).http_consecutive_failures@.insert(name@, n));
                }
                let m = String::from_str("Endpoint ").concat(endpoint).concat(
                    " unreachable: ",
                ).concat(e.as_str()).concat(" (consecutive failures: ").concat(
                    u64_to_string(n as u64).as_str(),
                ).concat(")");
                assert(m@ =~= "Endpoint "@ + endpoint@ + " unreachable: "@ + e@
                    + " (consecutive failures: "@ + dec_digits(n as int) + ")"@);
                LevelResult {
                    level: 5,
                    name: String::from_str("HTTP Endpoint"),
                    passed: false,
                    message: m,
                }
            },
        }
    }
}

// ---------------------------------------------------------------------------
// One full check of a process
// ---------------------------------------------------------------------------
impl HealthStatus {
    /// An equal copy.
    pub fn duplicate(&self) -> (r: Self)
        ensures
            r == *self,
    {
        match self {
            HealthStatus::Healthy => HealthStatus::Healthy,
            HealthStatus::Degraded(m) => HealthStatus::Degraded(m.clone()),
            HealthStatus::Unhealthy(m) => HealthStatus::Unhealthy(m.clone()),
            HealthStatus::Unknown => HealthStatus::Unknown,
        }
    }
}

impl HealthCheckResult {
    /// A copy equal in every field (the level results element for element).
    pub fn duplicate(&self) -> (r: Self)
        ensures
            r.process_name == self.process_name,
            r.status == self.status,
            r.level_results@ == self.level_results@,
            r.checked_at == self.checked_at,
    {
        let mut level_results: Vec<LevelResult> = Vec::new();
        let mut i: usize = 0;
        while i < self.level_results.len()
            invariant
                0 <= i <= self.level_results@.len(),
                level_results@.len() == i,
                forall|k: int|
                    0 <= k < i ==> (#[trigger] level_results@[k]) == self.level_results@[k],
            decreases self.level_results@.len() - i,
        {
            level_results.push(self.level_results[i].duplicate());
            i = i + 1;
        }
        proof {
            assert(level_results@ =~= self.level_results@);
        }
        HealthCheckResult {
            process_name: self.process_name.clone(),
            status: self.status.duplicate(),
            level_results,
            checked_at: self.checked_at,
        }
    }
}

/// What the application observed of a process's log file.
pub struct LogObservation {
    pub exists: bool,
    /// Seconds since the log last changed, when its metadata was readable.
    pub elapsed_secs: Option<u64>,
    /// The log's text, when it was readable.
    pub content: Option<String>,
}

/// What the application observed of a process's resource usage.
pub struct ResourceObservation {
    /// Whether the process table still lists the pid.
    pub found: bool,
    pub memory_mb: u64,
    pub cpu_tenths: u32,
}

/// Everything the application gathered for one tick of a process's checks.
pub struct ProcessObservations {
    pub log: Option<LogObservation>,
    pub config: Option<FileReading>,
    pub resources: Option<ResourceObservation>,
    pub http: Option<HttpOutcome>,
}

/// The levels that run for a given health spec, in order.
pub open spec fn expected_levels(hc: &crate::config::HealthConfig, pid: Option<u32>) -> Seq<u8> {
    (if hc.process_alive {
        seq![1u8]
    } else {
        Seq::empty()
    }) + (if hc.log_file is Some {
        seq![2u8]
    } else {
        Seq::empty()
    }) + (if hc.config_file is Some && hc.validate_json {
        seq![3u8]
    } else {
        Seq::empty()
    }) + (if pid is Some {
        seq![4u8]
    } else {
        Seq::empty()
    }) + (if hc.http_endpoint is Some {
        seq![5u8]
    } else {
        Seq::empty()
    })
}

impl HealthChecker {
    /// Run the enabled probes for one process, in level order, and record
    /// the aggregated verdict.
    pub fn check_process(
        &mut self,
        name: &str,
        pid: Option<u32>,
        health_config: &crate::config::HealthConfig,
        obs: &ProcessObservations,
        bm: &mut BackupManager,
        now: u64,
    ) -> (r: HealthCheckResult)
        requires
            old(self).wf(),
            old(bm).wf(),
            health_config.log_file is Some ==> obs.log is Some,
            health_config.config_file is Some && health_config.validate_json ==> obs.config
                is Some,
            pid is Some ==> obs.resources is Some,
            health_config.http_endpoint is Some ==> obs.http is Some,
            health_config.check_interval <= u64::MAX / 3,
            health_config.max_memory_mb <= u64::MAX / 2,
        ensures
            final(self).wf(),
            final(bm).wf(),
            r.process_name@ == name@,
            r.checked_at == now,
            r.level_results@.map_values(|lr: LevelResult| lr.level) == expected_levels(
                health_config,
                pid,
            ),
            verdict_rel(r.level_results@, r.status),
            final(self).last_check@ == old(self).last_check@.insert(
                name@,
                final(self).last_check@[name@],
            ),
            ({
                let stored = final(self).last_check@[name@];
                stored.process_name@ == name@ && stored.status == r.status
                    && stored.level_results@ == r.level_results@ && stored.checked_at == now
            }),
            ({
                let rs = r.level_results@;
                let at_log: int = if health_config.process_alive {
                    1
                } else {
                    0
                };
                let at_cfg: int = at_log + (if health_config.log_file is Some {
                    1int
                } else {
                    0
                });
                let at_res: int = at_cfg + (if health_config.config_file is Some
                    && health_config.validate_json {
                    1int
                } else {
                    0
                });
                let at_http: int = at_res + (if pid is Some {
                    1int
                } else {
                    0
                });
                &&& (health_config.process_alive ==> alive_level_rel(pid, rs[0]))
                &&& (health_config.log_file matches Some(lf) ==> (obs.log matches Some(lo)
                    && log_level_rel(
                    old(self).log_states@,
                    final(self).log_states@,
                    name@,
                    lf@,
                    lo.exists,
                    lo.elapsed_secs,
                    health_config.log_activity_timeout,
                    health_config.log_pattern is Some && lo.content is Some,
                    (match health_config.log_pattern {
                        Some(p) => p@,
                        None => Seq::empty(),
                    }),
                    (match lo.content {
                        Some(c) => vstd::utf8::encode_utf8(c@),
                        None => Seq::empty(),
                    }),
                    rs[at_log],
                )))
                &&& (health_config.validate_json ==> (health_config.config_file matches Some(
                    cf,
                ) ==> obs.config matches Some(ob) && json_level_rel(
                    *old(bm),
                    *final(bm),
                    cf@,
                    ob,
                    health_config.auto_backup,
                    rs[at_cfg],
                )))
                &&& (pid matches Some(p) ==> (obs.resources matches Some(ro)
                    && resource_level_rel(
                    old(self).resource_history@,
                    final(self).resource_history@,
                    name@,
                    p,
                    ro.found,
                    ro.memory_mb,
                    ro.cpu_tenths,
                    health_config.max_memory_mb,
                    health_config.max_cpu_tenths,
                    health_config.check_interval,
                    now,
                    rs[at_res],
                )))
                &&& (health_config.http_endpoint matches Some(ep) ==> (obs.http matches Some(
                    ho,
                ) && http_level_rel(
                    old(self).http_consecutive_failures@,
                    final(self).http_consecutive_failures@,
                    name@,
                    ep@,
                    ho,
                    rs[at_http],
                )))
            }),
            health_config.log_file is None ==> final(self).log_states == old(self).log_states,
            pid is None ==> final(self).resource_history == old(self).resource_history,
            health_config.http_endpoint is None ==> final(self).http_consecutive_failures == old(
                self,
            ).http_consecutive_failures,
            !(health_config.config_file is Some && health_config.validate_json) ==> *final(bm)
                == *old(bm),
    {
        let ghost levels_spec = expected_levels(health_config, pid);
        let ghost at_log: int = if health_config.process_alive {
            1
        } else {
            0
        };
        let ghost at_cfg: int = at_log + (if health_config.log_file is Some {
            1int
        } else {
            0
        });
        let ghost at_res: int = at_cfg + (if health_config.config_file is Some
            && health_config.validate_json {
            1int
        } else {
            0
        });
        let ghost at_http: int = at_res + (if pid is Some {
            1int
        } else {
            0
        });
        let mut level_results: Vec<LevelResult> = Vec::new();
        if health_config.process_alive {
            let lr = self.check_process_alive(pid);
            level_results.push(lr);
            proof {
                assert(level_results@[0] == lr);
            }
        }
        if let Some(lf) = &health_config.log_file {
            match &obs.log {
                Some(lo) => {
                    let pattern: Option<&str> = match &health_config.log_pattern {
                        Some(p) => Some(p.as_str()),
                        None => None,
                    };
                    let content: Option<&str> = match &lo.content {
                        Some(c) => Some(c.as_str()),
                        None => None,
                    };
                    let lr = self.check_log_activity_and_patterns(
                        name,
                        lf.as_str(),
                        lo.exists,
                        lo.elapsed_secs,
                        health_config.log_activity_timeout,
                        pattern,
                        content,
                    );
                    proof {
                        assert(level_results@.len() == at_log);
                    }
                    level_results.push(lr);
                    proof {
                        assert(level_results@[at_log] == lr);
                    }
                },
                None => {},
            }
        }
        if let Some(cf) = &health_config.config_file {
            if health_config.validate_json {
                match &obs.config {
                    Some(ob) => {
                        let lr = self.check_json_config_with_backup(
                            bm,
                            cf.as_str(),
                            ob,
                            health_config.auto_backup,
                        );
                        proof {
                            assert(level_results@.len() == at_cfg);
                        }
                        level_results.push(lr);
                        proof {
                            assert(level_results@[at_cfg] == lr);
                        }
                    },
                    None => {},
                }
            }
        }
        if let Some(p) = pid {
            match &obs.resources {
                Some(ro) => {
                    let lr = self.check_resources_sustained(
                        name,
                        p,
                        ro.found,
                        ro.memory_mb,
                        ro.cpu_tenths,
                        health_config.max_memory_mb,
                        health_config.max_cpu_tenths,
                        health_config.check_interval,
                        now,
                    );
                    proof {
                        assert(level_results@.len() == at_res);
                    }
                    level_results.push(lr);
                    proof {
                        assert(level_results@[at_res] == lr);
                    }
                },
                None => {},
            }
        }
        if let Some(ep) = &health_config.http_endpoint {
            match &obs.http {
                Some(ho) => {
                    let lr = self.apply_http_outcome(name, ep.as_str(), ho);
                    proof {
                        assert(level_results@.len() == at_http);
                    }
                    level_results.push(lr);
                    proof {
                        assert(level_results@[at_http] == lr);
                    }
                },
                None => {},
            }
        }
        proof {
            assert(level_results@.map_values(|lr: LevelResult| lr.level) =~= levels_spec);
        }
        let status = aggregate_status(&level_results);
        let check_result = HealthCheckResult {
            process_name: String::from_str(name),
            status,
            level_results,
            checked_at: now,
        };
        let dup = check_result.duplicate();
        self.last_check.insert(String::from_str(name), dup);
        check_result
    }
}

} // verus!
