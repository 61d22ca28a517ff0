//! The supervisor tick's per-process decision.
//!
//! Each tick walks the processes in start order: a failed process with
//! auto-restart goes straight to recovery under a synthesized liveness
//! failure; a running process is probed; everything else is left alone.
use vstd::prelude::*;

use crate::health::{HealthCheckResult, HealthStatus, LevelResult};
use crate::process::ProcessState;

verus! {

#[derive(Debug, Clone, Copy, PartialEq, Eq, Structural)]
pub enum TickStep {
    /// Synthesize a liveness failure and run recovery.
    RecoverFailed,
    /// Run the health checker.
    Probe,
    /// Nothing to do this tick.
    Skip,
}

/// What one tick does with a process in the given state.
pub fn supervisor_decision(state: &ProcessState, auto_restart: bool) -> (r: TickStep)
    ensures
        state is Failed && auto_restart ==> r is RecoverFailed,
        state is Running ==> r is Probe,
        !(state is Failed && auto_restart) && !(state is Running) ==> r is Skip,
{
    match state {
        ProcessState::Failed => {
            if auto_restart {
                TickStep::RecoverFailed
            } else {
                TickStep::Skip
            }
        },
        ProcessState::Running => TickStep::Probe,
        _ => TickStep::Skip,
    }
}

/// The verdict synthesized for a process found in the failed state: a
/// single failed liveness result.
pub fn synthetic_failure_verdict(name: &str, now: u64) -> (r: HealthCheckResult)
    ensures
        r.process_name@ == name@,
        r.checked_at == now,
        r.status matches HealthStatus::Unhealthy(m) && m@ == "Process failed"@,
        r.level_results@.len() == 1,
        r.level_results@[0].level == 1,
        !r.level_results@[0].passed,
        r.level_results@[0].name@ == "Process Alive"@,
        r.level_results@[0].message@ == "Process in Failed state"@,
{
    let mut level_results: Vec<LevelResult> = Vec::new();
    level_results.push(
        LevelResult {
            level: 1,
            name: String::from_str("Process Alive"),
            passed: false,
            message: String::from_str("Process in Failed state"),
        },
    );
    HealthCheckResult {
        process_name: String::from_str(name),
        status: HealthStatus::Unhealthy(String::from_str("Process failed")),
        level_results,
        checked_at: now,
    }
}

} // verus!
