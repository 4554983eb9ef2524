use vstd::prelude::*;

verus! {

use crate::cpu::linux_usage_spec;
use crate::proc::{UsageStats, PID};
use crate::tree::FlatNode;

/// What the platform reported about one tree node on this tick: whether the
/// process still counts as alive, its current CPU readings, and its
/// resident memory where the platform's ceiling applies.  The CPU fields
/// are read per the accounting mode: counter pairs for [`CpuAccounting::Jiffies`]
/// and [`CpuAccounting::MachTicks`], the kernel's own load percentage for
/// [`CpuAccounting::LoadPct`].
#[derive(Debug, Clone, Copy, PartialEq, Eq, Structural)]
pub struct NodeObs {
    pub pid: PID,
    pub alive: bool,
    pub utime: u64,
    pub stime: u64,
    pub pctcpu: u32,
    pub has_memory: bool,
    pub memory: u64,
}

/// How raw CPU readings turn into a percentage on this platform: jiffy
/// counters against a machine-wide jiffy clock, mach tick counters against
/// a one-second wall interval, or a kernel-computed load fraction against
/// its fixed-point scale.
#[derive(Debug, Clone, Copy, PartialEq, Eq, Structural)]
pub enum CpuAccounting {
    Jiffies { old_total: u32, new_total: u32, ncpus: u32 },
    MachTicks { ns_per_tick: u32 },
    LoadPct { f_scale: u32 },
}

impl CpuAccounting {
    pub open spec fn wf(&self) -> bool {
        match *self {
            CpuAccounting::LoadPct { f_scale } => f_scale >= 1,
            _ => true,
        }
    }
}

/// The nanoseconds `ticks` mach ticks denote, saturating at `u64::MAX`.
pub open spec fn mach_ns_spec(ticks: int, ns_per_tick: int) -> int {
    if ticks * ns_per_tick > u64::MAX as int {
        u64::MAX as int
    } else {
        ticks * ns_per_tick
    }
}

/// A process's total CPU time in nanoseconds, from its two mach-tick
/// counters, saturating at `u64::MAX`.
pub open spec fn total_ns_spec(utime: int, stime: int, ns_per_tick: int) -> int {
    let sum = mach_ns_spec(utime, ns_per_tick) + mach_ns_spec(stime, ns_per_tick);
    if sum > u64::MAX as int {
        u64::MAX as int
    } else {
        sum
    }
}

/// The usage, in hundredths of a percent, one node's readings denote under
/// an accounting mode, measured against its counters from the prior tick.
/// A reading that ran backwards, or an interval that is not positive,
/// denotes zero.
pub open spec fn usage_of_spec(mode: CpuAccounting, prior: FlatNode, o: NodeObs) -> int {
    match mode {
        CpuAccounting::Jiffies { old_total, new_total, ncpus } => linux_usage_spec(
            prior.utime + prior.stime,
            o.utime + o.stime,
            old_total as int,
            new_total as int,
            ncpus as int,
        ),
        CpuAccounting::MachTicks { ns_per_tick } => {
            let existing = total_ns_spec(prior.utime as int, prior.stime as int, ns_per_tick as int);
            let curr = total_ns_spec(o.utime as int, o.stime as int, ns_per_tick as int);
            if curr == 0 || curr < existing {
                0
            } else {
                (curr - existing) / 100000
            }
        },
        CpuAccounting::LoadPct { f_scale } => o.pctcpu * 10000 / (f_scale as int),
    }
}

/// Usage is never negative, and under counter accounting a sampling
/// interval that is not positive reads as exactly zero.
pub proof fn lemma_usage_of_non_negative(mode: CpuAccounting, prior: FlatNode, o: NodeObs)
    requires
        mode.wf(),
    ensures
        usage_of_spec(mode, prior, o) >= 0,
        mode matches CpuAccounting::Jiffies { old_total, new_total, .. } && new_total <= old_total
            ==> usage_of_spec(mode, prior, o) == 0,
{
    match mode {
        CpuAccounting::Jiffies { old_total, new_total, ncpus } => {
            crate::cpu::lemma_usage_non_negative(
                prior.utime + prior.stime,
                o.utime + o.stime,
                old_total as int,
                new_total as int,
                ncpus as int,
            );
        },
        CpuAccounting::MachTicks { ns_per_tick } => {
        },
        CpuAccounting::LoadPct { f_scale } => {
            assert(o.pctcpu * 10000 >= 0) by (nonlinear_arith);
            assert(o.pctcpu * 10000 / (f_scale as int) >= 0) by (nonlinear_arith)
                requires
                    o.pctcpu * 10000 >= 0,
                    f_scale >= 1,
            ;
        },
    }
}

fn mach_ns(ticks: u64, ns_per_tick: u32) -> (r: u64)
    ensures
        r == mach_ns_spec(ticks as int, ns_per_tick as int),
{
    match ticks.checked_mul(ns_per_tick as u64) {
        Some(v) => v,
        None => {
            proof {
                assert((ticks as int) * (ns_per_tick as int) > u64::MAX as int);
            }
            u64::MAX
        },
    }
}

/// Computes one node's usage under the given accounting mode.
pub fn usage_of(mode: &CpuAccounting, prior: &FlatNode, o: &NodeObs) -> (r: u64)
    requires
        mode.wf(),
    ensures
        r == usage_of_spec(*mode, *prior, *o),
{
    match mode {
        CpuAccounting::Jiffies { old_total, new_total, ncpus } => {
            crate::cpu::linux_get_cpu_usage(prior, o.utime, o.stime, *new_total, *old_total, *ncpus)
        },
        CpuAccounting::MachTicks { ns_per_tick } => {
            let existing = mach_ns(prior.utime, *ns_per_tick).saturating_add(
                mach_ns(prior.stime, *ns_per_tick),
            );
            let curr = mach_ns(o.utime, *ns_per_tick).saturating_add(
                mach_ns(o.stime, *ns_per_tick),
            );
            if curr == 0 || curr < existing {
                0
            } else {
                (curr - existing) / 100000
            }
        },
        CpuAccounting::LoadPct { f_scale } => {
            let raw: u64 = (o.pctcpu as u64) * 10000 / (*f_scale as u64);
            raw
        },
    }
}

/// True when this node's reading breaches the configured memory ceiling.
pub open spec fn is_breach(o: NodeObs, memory_limit: i64) -> bool {
    o.alive && memory_limit >= 0 && o.has_memory && o.memory > memory_limit
}

/// True when any of the first `n` readings breaches the ceiling.
pub open spec fn any_breach_upto(obs: Seq<NodeObs>, memory_limit: i64, n: int) -> bool {
    exists|j: int| 0 <= j < n && is_breach(#[trigger] obs[j], memory_limit)
}

/// The usage entries of the first `n` nodes that are still alive, in tree
/// order.
pub open spec fn usage_entries_upto(
    prior: Seq<FlatNode>,
    obs: Seq<NodeObs>,
    mode: CpuAccounting,
    n: int,
) -> Seq<(PID, UsageStats)>
    decreases n,
{
    if n <= 0 {
        Seq::empty()
    } else {
        usage_entries_upto(prior, obs, mode, n - 1) + (if obs[n - 1].alive {
            seq![
                (
                    obs[n - 1].pid,
                    UsageStats {
                        cpu_usage: usage_of_spec(mode, prior[n - 1], obs[n - 1]) as u64,
                    },
                ),
            ]
        } else {
            Seq::empty()
        })
    }
}

/// Whether supervision goes on after a tick: the root must still be alive
/// and no live node may stand above the memory ceiling.
pub open spec fn tick_continues(obs: Seq<NodeObs>, memory_limit: i64) -> bool {
    obs[0].alive && !any_breach_upto(obs, memory_limit, obs.len() as int)
}

/// One iteration of the monitor loop's decision: given the prior tree
/// snapshot (in preorder, root first) and this tick's readings for the same
/// pids, either the per-pid usage snapshot to persist, or `None` — the root
/// died or a memory ceiling was breached, supervision ends and nothing
/// further is written.
pub fn monitor_tick(
    prior: &Vec<FlatNode>,
    obs: &Vec<NodeObs>,
    mode: &CpuAccounting,
    memory_limit: i64,
) -> (r: Option<Vec<(PID, UsageStats)>>)
    requires
        prior@.len() > 0,
        obs@.len() == prior@.len(),
        forall|i: int| 0 <= i < obs@.len() ==> (#[trigger] obs@[i]).pid == prior@[i].pid,
        mode.wf(),
        memory_limit >= -1,
    ensures
        r is Some <==> tick_continues(obs@, memory_limit),
        r is Some ==> r->0@ == usage_entries_upto(prior@, obs@, *mode, obs@.len() as int),
{
    let n = obs.len();
    let mut usage: Vec<(PID, UsageStats)> = Vec::new();
    let mut breach = false;
    let mut i: usize = 0;
    while i < n
        invariant
            0 <= i <= n,
            n == obs@.len(),
            n == prior@.len(),
            mode.wf(),
            memory_limit >= -1,
            breach == any_breach_upto(obs@, memory_limit, i as int),
            usage@ == usage_entries_upto(prior@, obs@, *mode, i as int),
        decreases n - i,
    {
        let o = obs[i];
        if o.alive {
            if memory_limit >= 0 && o.has_memory && o.memory > memory_limit as u64 {
                breach = true;
            }
            let u = usage_of(mode, &prior[i], &o);
            usage.push((o.pid, UsageStats { cpu_usage: u }));
        }
        proof {
            if breach {
                assert(any_breach_upto(obs@, memory_limit, i as int + 1));
            } else {
                assert forall|j: int| 0 <= j < i as int + 1 implies !is_breach(
                    #[trigger] obs@[j],
                    memory_limit,
                ) by {}
            }
            if obs@[i as int].alive {
                assert(usage@ =~= usage_entries_upto(prior@, obs@, *mode, i as int + 1));
            } else {
                assert(usage@ =~= usage_entries_upto(prior@, obs@, *mode, i as int + 1));
            }
        }
        i = i + 1;
    }
    if obs[0].alive && !breach {
        Some(usage)
    } else {
        None
    }
}

/// A breached memory ceiling always ends supervision on that very tick, so
/// no usage snapshot is written after the breach.
pub proof fn lemma_memory_breach_stops(obs: Seq<NodeObs>, memory_limit: i64, i: int)
    requires
        0 <= i < obs.len(),
        is_breach(obs[i], memory_limit),
    ensures
        !tick_continues(obs, memory_limit),
{
    assert(any_breach_upto(obs, memory_limit, obs.len() as int));
}

/// A dead root always ends supervision on that very tick.
pub proof fn lemma_dead_root_stops(obs: Seq<NodeObs>, memory_limit: i64)
    requires
        obs.len() > 0,
        !obs[0].alive,
    ensures
        !tick_continues(obs, memory_limit),
{
}

} // verus!
