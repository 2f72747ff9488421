//! Process containment for shell jobs.
//!
//! Windows keeps spawned shells inside a kill-on-close Job Object; on every
//! other platform there is no such object, the calls below have nothing to
//! do, and containment comes from the process group instead.
use vstd::prelude::*;

verus! {

/// Places a process inside a kill-on-close job. Without job objects on this
/// platform there is nothing to apply, whatever `enabled` says, and the call
/// succeeds.
pub fn apply_job_object_to_pid(_pid: u32, _enabled: bool, _label: &str) -> (r: Result<(), String>)
    ensures
        r is Ok,
{
    Ok(())
}

/// Terminates a process by pid, best effort. Without job objects on this
/// platform the shell's own process group is torn down by its owner, and
/// this call does nothing.
pub fn kill_pid(_pid: u32) {
}

} // verus!
