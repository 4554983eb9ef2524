use vstd::prelude::*;

verus! {

use crate::enumerate::{scan_forest_built, scan_get_all_processes, ProcEntry};
use crate::error::MultErrorTuple;
use crate::kill::KillSweep;
use crate::proc::PID;
use crate::tree::{flatten_pids, TreeNode};

/// The fields read from one kernel process-table record on the BSD
/// platform, decoded to plain values.
#[derive(Debug)]
pub struct BsdProcStats {
    pub pid: PID,
    pub comm: String,
    /// The kernel's own recent-CPU fraction, in units of `1 / f_scale`.
    pub pctcpu: u32,
    /// Resident set size, in pages.
    pub rssize_pages: u64,
    /// The process's start moment, seconds since the epoch.
    pub start_tv_sec: u64,
}

/// The CPU percentage (hundredths of a percent) the kernel's own load
/// fraction denotes against its fixed-point scale.
pub fn bsd_get_cpu_usage(pctcpu: u32, f_scale: u32) -> (r: u64)
    requires
        f_scale >= 1,
    ensures
        r == pctcpu * 10000 / (f_scale as int),
{
    (pctcpu as u64) * 10000 / (f_scale as u64)
}

/// Resident memory in bytes from the record's page count and the page
/// size, saturating at `u64::MAX`.
pub fn bsd_get_process_memory(rssize_pages: u64, page_size: u64) -> (r: u64)
    ensures
        r as int == if rssize_pages * page_size > u64::MAX as int {
            u64::MAX as int
        } else {
            rssize_pages * page_size
        },
{
    match rssize_pages.checked_mul(page_size) {
        Some(v) => v,
        None => u64::MAX,
    }
}

/// Builds the tree rooted at `pid` by scanning the whole process table for
/// parent pids, as this platform's kernel requires.  The counters of the
/// nodes are not filled here (the record's CPU reading is a load fraction,
/// not a counter pair), so they read as zero.
pub fn bsd_get_all_processes(pid: PID, table: &Vec<ProcEntry>) -> (r: TreeNode)
    ensures
        r.pid == pid,
        r.utime == 0 && r.stime == 0,
        scan_forest_built(pid, r.children@, table@, table@.len()),
{
    scan_get_all_processes(pid, None, table)
}

/// A process is alive exactly when its kernel record could still be read
/// (the read itself filters terminated-but-unreaped processes out).
pub fn bsd_proc_exists(stats: &Option<BsdProcStats>) -> (r: bool)
    ensures
        r == (stats is Some),
{
    stats.is_some()
}

/// The short command name of the process, empty when its record is gone.
pub fn bsd_get_proc_comm(stats: &Option<BsdProcStats>) -> (r: Result<String, MultErrorTuple>)
    ensures
        r is Ok,
        r->Ok_0@ == match stats {
            Some(s) => s.comm@,
            None => Seq::<char>::empty(),
        },
{
    match stats {
        Some(s) => Ok(s.comm.clone()),
        None => Ok(String::new()),
    }
}

/// The display name of the process, empty when its record is gone.
pub fn bsd_get_proc_name(stats: &Option<BsdProcStats>) -> (r: String)
    ensures
        r@ == match stats {
            Some(s) => s.comm@,
            None => Seq::<char>::empty(),
        },
{
    match stats {
        Some(s) => s.comm.clone(),
        None => String::new(),
    }
}

/// Seconds since the recorded start moment, by the wall clock.
pub fn bsd_get_runtime(now_secs: u64, starttime: u64) -> (r: u64)
    ensures
        r == if now_secs >= starttime {
            now_secs - starttime
        } else {
            0
        },
{
    if now_secs >= starttime {
        now_secs - starttime
    } else {
        0
    }
}

/// Primes a best-effort terminate sweep over every process of the tree.
pub fn bsd_kill_all_processes(tree: &TreeNode) -> (s: KillSweep)
    ensures
        s.pids@ == flatten_pids(*tree),
        s.next == 0,
        s.first_error is None,
{
    KillSweep::new(tree)
}

} // verus!
