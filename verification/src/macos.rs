use vstd::prelude::*;

verus! {

use crate::enumerate::{scan_forest_built, scan_get_all_processes, ProcEntry};
use crate::kill::KillSweep;
use crate::monitor::{mach_ns_spec, total_ns_spec};
use crate::proc::PID;
use crate::tree::{flatten_pids, FlatNode, TreeNode};

/// The fields read from the kernel's per-process record on the Apple
/// platform, decoded to plain values.
#[derive(Debug)]
pub struct MacProcInfo {
    pub name: String,
    pub comm: String,
}

/// Nanoseconds for a mach-tick counter value, given the timebase's
/// nanoseconds-per-tick, saturating at `u64::MAX`.
pub fn mach_ticks_to_nanoseconds(time: u64, ns_per_tick: u32) -> (r: u64)
    ensures
        r == mach_ns_spec(time as int, ns_per_tick as int),
{
    match time.checked_mul(ns_per_tick as u64) {
        Some(v) => v,
        None => u64::MAX,
    }
}

/// The CPU percentage (hundredths of a percent) one node consumed over the
/// one-second sampling interval, and its current total CPU time in
/// nanoseconds.  `curr` is the freshly read counter pair, `None` when the
/// process's record could no longer be read; the node's recorded counters
/// are the prior sample.  A counter that reads zero or ran backwards
/// denotes no usage.
pub fn macos_get_cpu_usage(node: &FlatNode, curr: Option<(u64, u64)>, ns_per_tick: u32) -> (r: (
    u64,
    u64,
))
    ensures
        ({
            let existing = total_ns_spec(node.utime as int, node.stime as int, ns_per_tick as int);
            match curr {
                None => r.0 == 0 && r.1 == existing,
                Some(c) => {
                    let curr_ns = total_ns_spec(c.0 as int, c.1 as int, ns_per_tick as int);
                    if curr_ns == 0 {
                        r.0 == 0 && r.1 == 0
                    } else if curr_ns < existing {
                        r.0 == 0 && r.1 == curr_ns
                    } else {
                        r.0 == (curr_ns - existing) / 100000 && r.1 == curr_ns
                    }
                },
            }
        }),
{
    let existing = mach_ticks_to_nanoseconds(node.utime, ns_per_tick).saturating_add(
        mach_ticks_to_nanoseconds(node.stime, ns_per_tick),
    );
    match curr {
        None => (0, existing),
        Some((u, s)) => {
            let curr_ns = mach_ticks_to_nanoseconds(u, ns_per_tick).saturating_add(
                mach_ticks_to_nanoseconds(s, ns_per_tick),
            );
            if curr_ns == 0 {
                (0, 0)
            } else if curr_ns < existing {
                (0, curr_ns)
            } else {
                ((curr_ns - existing) / 100000, curr_ns)
            }
        },
    }
}

/// Builds the tree rooted at `pid` the way this platform must: the kernel
/// offers no children-of-pid call, so every live process's parent field is
/// matched against the node being expanded.  `root_stats` is the root's own
/// counter pair, `None` when unreadable.
pub fn macos_get_all_processes(
    pid: PID,
    root_stats: Option<(u64, u64)>,
    table: &Vec<ProcEntry>,
) -> (r: TreeNode)
    ensures
        r.pid == pid,
        match root_stats {
            Some(s) => r.utime == s.0 && r.stime == s.1,
            None => r.utime == 0 && r.stime == 0,
        },
        scan_forest_built(pid, r.children@, table@, table@.len()),
{
    scan_get_all_processes(pid, root_stats, table)
}

/// Seconds since the recorded start moment, by the wall clock.
pub fn macos_get_runtime(now_secs: u64, starttime: u64) -> (r: u64)
    ensures
        r == if now_secs >= starttime {
            now_secs - starttime
        } else {
            0
        },
{
    if now_secs >= starttime {
        now_secs - starttime
    } else {
        0
    }
}

/// Primes a best-effort terminate sweep over every process of the tree.
pub fn macos_kill_all_processes(tree: &TreeNode) -> (s: KillSweep)
    ensures
        s.pids@ == flatten_pids(*tree),
        s.next == 0,
        s.first_error is None,
{
    KillSweep::new(tree)
}

/// A process is alive exactly when its kernel record could still be read
/// (the read itself filters terminated-but-unreaped processes out).
pub fn macos_proc_exists(stats: &Option<(u64, u64)>) -> (r: bool)
    ensures
        r == (stats is Some),
{
    stats.is_some()
}

/// The process's long name from its decoded record.
pub fn macos_get_proc_name(info: &MacProcInfo) -> (r: String)
    ensures
        r@ == info.name@,
{
    info.name.clone()
}

/// The process's short command name from its decoded record.
pub fn macos_get_proc_comm(info: &MacProcInfo) -> (r: String)
    ensures
        r@ == info.comm@,
{
    info.comm.clone()
}

} // verus!
