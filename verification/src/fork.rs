use vstd::prelude::*;

verus! {

use crate::command::CommandData;
use crate::error::{MultError, MultErrorTuple};
use crate::proc::{ForkFlagTuple, PID};
use crate::text::{all_dec_digits, dec_value, parse_u64};

/// What a detach attempt's raw result means: the attempt failed, this is
/// still the calling process (which must now return to its shell), or this
/// is the detached child that will supervise the task.
#[derive(Debug, Clone, Copy, PartialEq, Eq, Structural)]
pub enum DetachRole {
    Failed,
    Parent,
    Child,
}

/// Reads a fork-style result: negative is failure, positive is the parent
/// seeing its child's pid, zero is the child itself.
pub fn classify_fork(process_id: i32) -> (r: DetachRole)
    ensures
        r == (if process_id < 0 {
            DetachRole::Failed
        } else if process_id > 0 {
            DetachRole::Parent
        } else {
            DetachRole::Child
        }),
        r == DetachRole::Failed ==> process_id < 0,
{
    if process_id < 0 {
        DetachRole::Failed
    } else if process_id > 0 {
        DetachRole::Parent
    } else {
        DetachRole::Child
    }
}

/// What the daemonizer must do for one supervised run, decided from the
/// resource flags: whether to apply the address-space ceiling (best
/// effort), and whether to start the duty-cycle limiter and at what
/// percentage.
#[derive(Debug, Clone, Copy, PartialEq, Eq, Structural)]
pub struct DaemonPlan {
    pub apply_memory_limit: bool,
    pub rlimit_bytes: u64,
    pub limit_cpu: bool,
    pub cpu_percent: u32,
}

/// Decides the daemonizer's actions from `(memory_limit, cpu_limit,
/// interactive)`: each ceiling is applied exactly when it was requested
/// (`-1` and other non-positive sentinels ask for nothing), and the
/// duty-cycle limiter runs only for a percentage the cycle is defined for.
pub fn plan_daemon(stats: &ForkFlagTuple) -> (r: DaemonPlan)
    ensures
        r.apply_memory_limit == (stats.0 > 0),
        r.apply_memory_limit ==> r.rlimit_bytes == stats.0,
        r.limit_cpu == (1 <= stats.1 <= 100),
        r.limit_cpu ==> r.cpu_percent == stats.1,
{
    let apply_memory_limit = stats.0 > 0;
    let rlimit_bytes = if apply_memory_limit {
        stats.0 as u64
    } else {
        0
    };
    let limit_cpu = 1 <= stats.1 && stats.1 <= 100;
    let cpu_percent = if limit_cpu {
        stats.1 as u32
    } else {
        0
    };
    DaemonPlan { apply_memory_limit, rlimit_bytes, limit_cpu, cpu_percent }
}

/// True when `p` is a suffix of `s`.
pub open spec fn ends_with(s: Seq<char>, p: Seq<char>) -> bool {
    s.len() >= p.len() && s.skip(s.len() - p.len()) == p
}

/// True when the shell path ends in a supported shell's name.
pub open spec fn supported_shell(path: Seq<char>) -> bool {
    ends_with(path, "/sh"@) || ends_with(path, "/bash"@) || ends_with(path, "/zsh"@)
}

fn str_ends_with(s: &str, p: &str) -> (r: bool)
    ensures
        r == ends_with(s@, p@),
{
    let ns = s.unicode_len();
    let np = p.unicode_len();
    if ns < np {
        return false;
    }
    let mut i: usize = 0;
    while i < np
        invariant
            0 <= i <= np,
            np == p@.len(),
            ns == s@.len(),
            np <= ns,
            forall|j: int| 0 <= j < i ==> s@[ns - np + j] == p@[j],
        decreases np - i,
    {
        if s.get_char(ns - np + i) != p.get_char(i) {
            proof {
                assert(s@.skip(ns - np)[i as int] != p@[i as int]);
            }
            return false;
        }
        i = i + 1;
    }
    proof {
        assert(s@.skip(ns - np) =~= p@);
    }
    true
}

/// The shell and argument mode the user's command runs under: the login
/// shell from the environment when it is a supported one (with the
/// interactive invocation when asked, so aliases resolve), the portable
/// fallback shell otherwise; no shell environment at all is a platform we
/// cannot launch on.
pub fn choose_shell(shell_env: Option<&String>, interactive: bool) -> (r: Result<
    (String, String),
    MultErrorTuple,
>)
    ensures
        match shell_env {
            None => r is Err && r->Err_0.0 == MultError::OSNotSupported && r->Err_0.1 is None,
            Some(val) => r is Ok && (if supported_shell(val@) {
                r->Ok_0.0@ == val@ && r->Ok_0.1@ == (if interactive {
                    "-ic"@
                } else {
                    "-c"@
                })
            } else {
                r->Ok_0.0@ == "/bin/bash"@ && r->Ok_0.1@ == "-c"@
            }),
        },
{
    match shell_env {
        None => Err((MultError::OSNotSupported, None)),
        Some(val) => {
            let supported = str_ends_with(val.as_str(), "/sh") || str_ends_with(
                val.as_str(),
                "/bash",
            ) || str_ends_with(val.as_str(), "/zsh");
            if supported {
                let args = if interactive {
                    String::from_str("-ic")
                } else {
                    String::from_str("-c")
                };
                Ok((val.clone(), args))
            } else {
                Ok((String::from_str("/bin/bash"), String::from_str("-c")))
            }
        },
    }
}

/// Builds the identity record for a freshly spawned child from its parsed
/// per-process fields: the start-time field (position 21) anchors the
/// record against pid reuse.  No fields at all means the process is
/// already gone; fields without a readable start time cannot be recorded.
pub fn get_command_data(
    pid: PID,
    command: String,
    dir: String,
    name: String,
    stats: &Vec<String>,
) -> (r: Result<CommandData, MultErrorTuple>)
    ensures
        stats.deep_view().len() == 0 ==> r is Err && r->Err_0.0 == MultError::ProcessNotExists,
        stats.deep_view().len() > 0 && !starttime_field_ok(stats.deep_view()) ==> r is Err
            && r->Err_0.0 == MultError::FailedToReadProcessStats,
        stats.deep_view().len() > 0 && starttime_field_ok(stats.deep_view()) ==> r is Ok
            && r->Ok_0.pid == pid && r->Ok_0.command@ == command@ && r->Ok_0.dir@ == dir@
            && r->Ok_0.name@ == name@ && r->Ok_0.starttime == dec_value(
            stats.deep_view()[21],
        ),
{
    if stats.len() == 0 {
        return Err((MultError::ProcessNotExists, None));
    }
    if stats.len() <= 21 {
        return Err((MultError::FailedToReadProcessStats, None));
    }
    match parse_u64(stats[21].as_str()) {
        None => Err((MultError::FailedToReadProcessStats, None)),
        Some(starttime) => Ok(CommandData { command, pid, dir, name, starttime }),
    }
}

/// True when field 21 exists and reads as a `u64` start time.
pub open spec fn starttime_field_ok(stats: Seq<Seq<char>>) -> bool {
    stats.len() > 21 && stats[21].len() > 0 && all_dec_digits(stats[21]) && dec_value(stats[21])
        <= u64::MAX
}

} // verus!
