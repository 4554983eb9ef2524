use vstd::prelude::*;

verus! {

use crate::proc::PID;

/// How a task's supervised run is bounded: memory in bytes and CPU as a
/// percentage, each with `-1` standing for "unlimited".
#[derive(Debug, Clone, Copy, PartialEq, Eq, Structural)]
pub struct MemStats {
    pub memory_limit: i64,
    pub cpu_limit: i32,
}

/// The identity record persisted once at task creation or restart: the
/// root pid, the literal command, the working directory, a readable
/// process name, and the kernel's own creation-time value for that pid.
/// The start time anchors the record against pid reuse: the pid names the
/// same supervised process only while the current reading of its start
/// time equals the stored value bit for bit.
#[derive(Debug)]
pub struct CommandData {
    pub command: String,
    pub pid: PID,
    pub dir: String,
    pub name: String,
    pub starttime: u64,
}

/// Whether the stored pid still belongs to the supervised process: true
/// exactly when the freshly read start time equals the stored value;
/// `None` (the pid is gone) means not running.
pub open spec fn identity_matches(data: CommandData, live_starttime: Option<u64>) -> bool {
    live_starttime == Some(data.starttime)
}

impl CommandData {
    /// Checks this record against the start time read from the live
    /// process that currently holds the recorded pid.  A mismatch means
    /// the pid was recycled by the platform and the task is not running.
    pub fn matches_starttime(&self, live_starttime: Option<u64>) -> (r: bool)
        ensures
            r == identity_matches(*self, live_starttime),
    {
        match live_starttime {
            Some(s) => s == self.starttime,
            None => false,
        }
    }
}

/// Identity staleness is idempotent: the check reads nothing but the
/// record and the live start time, so over any run of repeated checks,
/// each verdict is "running" exactly when that observation equals the
/// recorded start time — matching observations stay a no-op however often
/// they are rechecked, and a recycled pid is flagged from the very
/// observation whose start time diverges.
pub proof fn lemma_identity_staleness_idempotent(data: CommandData, observations: Seq<Option<u64>>)
    ensures
        forall|i: int|
            0 <= i < observations.len() ==> (identity_matches(data, #[trigger] observations[i])
                <==> observations[i] == Some(data.starttime)),
        forall|i: int, j: int|
            0 <= i < observations.len() && 0 <= j < observations.len() && observations[i]
                == observations[j] ==> (identity_matches(data, #[trigger] observations[i])
                == identity_matches(data, #[trigger] observations[j])),
{
}

} // verus!
