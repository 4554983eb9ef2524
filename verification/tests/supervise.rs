use mult_lib::bsd::{
    bsd_get_all_processes, bsd_get_proc_comm, bsd_get_proc_name, bsd_proc_exists, BsdProcStats,
};
use mult_lib::command::CommandData;
use mult_lib::cpu::{get_cpu_usage, linux_get_cpu_time_total, linux_get_cpu_usage};
use mult_lib::enumerate::ProcEntry;
use mult_lib::error::MultError;
use mult_lib::kill::KillSweep;
use mult_lib::limit::{split_limit_cpu, CpuLimiter, TaskSignal};
use mult_lib::linux::{linux_get_all_processes, LinuxProcEntry};
use mult_lib::macos::{
    macos_get_all_processes, macos_get_cpu_usage, macos_get_proc_comm, macos_get_proc_name,
    macos_proc_exists, mach_ticks_to_nanoseconds, MacProcInfo,
};
use mult_lib::monitor::{monitor_tick, CpuAccounting, NodeObs};
use mult_lib::tree::{compress_tree, search_tree, FlatNode, TreeNode};

fn entry(pid: i32, ppid: i32) -> ProcEntry {
    ProcEntry { pid, ppid, utime: pid as u64 * 10, stime: pid as u64 }
}

/// A synthetic two-generation tree with branching factor 2: the scan must
/// enumerate exactly the 2 + 4 descendants, each once, in table order.
#[test]
fn enumerates_complete_binary_tree() {
    let table = vec![
        entry(2, 1),
        entry(3, 1),
        entry(4, 2),
        entry(5, 2),
        entry(6, 3),
        entry(7, 3),
    ];
    let tree = macos_get_all_processes(1, Some((10, 20)), &table);
    assert_eq!(tree.pid, 1);
    assert_eq!(tree.utime, 10);
    assert_eq!(tree.stime, 20);
    let mut pids = Vec::new();
    compress_tree(&tree, &mut pids);
    assert_eq!(pids, vec![1, 2, 4, 5, 3, 6, 7]);
    // branching factor 2, depth 2: exactly 2 + 4 descendants, no duplicates
    assert_eq!(pids.len(), 1 + 2 + 4);
    let nodes = search_tree(&tree);
    assert_eq!(nodes.len(), 7);
    assert_eq!(nodes[1], FlatNode { pid: 2, utime: 20, stime: 2 });
}

#[test]
fn enumerates_three_generations() {
    // branching factor 2, depth 3: 2 + 4 + 8 descendants
    let mut table = Vec::new();
    for parent in 1..=7 {
        table.push(entry(parent * 2, parent));
        table.push(entry(parent * 2 + 1, parent));
    }
    let tree = macos_get_all_processes(1, None, &table);
    let mut pids = Vec::new();
    compress_tree(&tree, &mut pids);
    assert_eq!(pids.len(), 1 + 2 + 4 + 8);
    let mut sorted = pids.clone();
    sorted.sort();
    sorted.dedup();
    assert_eq!(sorted.len(), pids.len());
    assert_eq!(sorted, (1..=15).collect::<Vec<i32>>());
}

#[test]
fn enumerates_deep_chain() {
    // 1 -> 10 -> 20 -> 30, plus an unrelated process 99 under 98
    let table = vec![entry(10, 1), entry(20, 10), entry(30, 20), entry(99, 98)];
    let tree = bsd_get_all_processes(1, &table);
    let mut pids = Vec::new();
    compress_tree(&tree, &mut pids);
    assert_eq!(pids, vec![1, 10, 20, 30]);
}

/// A parent-link cycle in a corrupted table must not hang the build.
#[test]
fn tolerates_cyclic_table() {
    let table = vec![entry(2, 1), entry(1, 2)];
    let tree = bsd_get_all_processes(1, &table);
    let mut pids = Vec::new();
    compress_tree(&tree, &mut pids);
    assert_eq!(pids[0], 1);
    assert!(pids.len() <= 1 + table.len());
}

fn linux_entry(pid: i32, has_stat: bool, children: Vec<i32>) -> LinuxProcEntry {
    LinuxProcEntry { pid, has_stat, utime: pid as u64 * 100, stime: pid as u64, children }
}

/// A three-node chain where the grandchild exits between the child listing
/// and the counter read: the snapshot holds root and child only, with no
/// failure.
#[test]
fn omits_vanished_grandchild() {
    let table = vec![
        linux_entry(1, true, vec![2]),
        linux_entry(2, true, vec![3]),
        linux_entry(3, false, vec![]),
    ];
    let tree = linux_get_all_processes(1, &table);
    let mut pids = Vec::new();
    compress_tree(&tree, &mut pids);
    assert_eq!(pids, vec![1, 2]);
}

#[test]
fn omits_unlisted_child() {
    let table = vec![linux_entry(1, true, vec![2, 3]), linux_entry(3, true, vec![])];
    let tree = linux_get_all_processes(1, &table);
    let mut pids = Vec::new();
    compress_tree(&tree, &mut pids);
    assert_eq!(pids, vec![1, 3]);
}

/// For a two-sample input with a positive wall delta the accountant is
/// non-negative and exact; for a non-positive delta it is exactly zero.
#[test]
fn usage_non_negative_and_exact() {
    let prior = FlatNode { pid: 7, utime: 10, stime: 10 };
    // 20 jiffies of process time over 100 machine jiffies on 2 cpus: 40.00 %
    assert_eq!(linux_get_cpu_usage(&prior, 30, 10, 200, 100, 2), 4000);
    // wall delta not positive: exactly zero
    assert_eq!(linux_get_cpu_usage(&prior, 30, 10, 100, 100, 2), 0);
    assert_eq!(linux_get_cpu_usage(&prior, 30, 10, 50, 100, 2), 0);
    // counters ran backwards (pid recycled): zero, not negative
    assert_eq!(linux_get_cpu_usage(&prior, 0, 0, 200, 100, 2), 0);
    assert_eq!(get_cpu_usage(&prior, 30, 10, 200, 100, 2), 4000);
}

#[test]
fn sums_cpu_time_total() {
    let stats = vec![
        "cpu".to_string(),
        "100".to_string(),
        "20".to_string(),
        "not-a-number".to_string(),
        "3".to_string(),
    ];
    assert_eq!(linux_get_cpu_time_total(&stats), 123);
}

#[test]
fn mach_accounting() {
    assert_eq!(mach_ticks_to_nanoseconds(125, 8), 1000);
    let prior = FlatNode { pid: 1, utime: 0, stime: 0 };
    // 2_000_000_000 ns of fresh CPU time over the 1 s interval: 200.00 %
    let (usage, total) = macos_get_cpu_usage(&prior, Some((125_000_000, 125_000_000)), 8);
    assert_eq!(total, 2_000_000_000);
    assert_eq!(usage, 20000);
    // unreadable record: no usage, existing total kept
    let prior2 = FlatNode { pid: 1, utime: 125, stime: 0 };
    assert_eq!(macos_get_cpu_usage(&prior2, None, 8), (0, 1000));
}

/// For every ceiling in 1..=100 the two slices partition the second and
/// the running slice is 10 ms per percent.
#[test]
fn duty_cycle_conservation() {
    for limit in 1..=100u32 {
        let (running, idle) = split_limit_cpu(limit);
        assert_eq!(running + idle, 1000);
        assert_eq!(running, 10 * limit as u64);
    }
}

/// One full duty cycle at ceiling 50: exactly one suspend and one resume,
/// each held 500 ms, and the limiter is back in its starting state.
#[test]
fn one_full_duty_cycle_at_fifty() {
    let mut limiter = CpuLimiter::new(50);
    let first = limiter.next_action();
    let second = limiter.next_action();
    assert_eq!(first.signal, TaskSignal::Suspend);
    assert_eq!(first.hold_ms, 500);
    assert_eq!(second.signal, TaskSignal::Resume);
    assert_eq!(second.hold_ms, 500);
    assert_eq!(limiter, CpuLimiter::new(50));
    let suspends = [first.signal, second.signal]
        .iter()
        .filter(|s| **s == TaskSignal::Suspend)
        .count();
    assert_eq!(suspends, 1);
}

#[test]
fn duty_cycle_asymmetric() {
    let mut limiter = CpuLimiter::new(20);
    let a = limiter.next_action();
    let b = limiter.next_action();
    assert_eq!((a.signal, a.hold_ms), (TaskSignal::Suspend, 800));
    assert_eq!((b.signal, b.hold_ms), (TaskSignal::Resume, 200));
}

fn leaf(pid: i32) -> TreeNode {
    TreeNode { pid, utime: 0, stime: 0, children: Vec::new() }
}

/// A sweep over a flattened pid list where some pids are already dead
/// attempts every remaining pid and never stops early on a failure.
#[test]
fn kill_sweep_attempts_every_pid() {
    let tree = TreeNode { pid: 1, utime: 0, stime: 0, children: vec![leaf(2), leaf(3)] };
    let mut sweep = KillSweep::new(&tree);
    let outcomes: [Result<(), i32>; 3] = [Err(3), Ok(()), Err(1)];
    let mut attempted = Vec::new();
    let mut i = 0;
    while let Some(pid) = sweep.next_target() {
        attempted.push(pid);
        sweep.record(outcomes[i]);
        i += 1;
    }
    assert!(sweep.finished());
    // every pid was attempted, in tree order, despite the first failure
    assert_eq!(attempted, vec![1, 2, 3]);
    // the verdict reports the first failure's error number
    let err = sweep.result().unwrap_err();
    assert_eq!(err.0, MultError::UnixError);
    assert_eq!(err.1, Some("3".to_string()));
}

#[test]
fn kill_sweep_all_delivered() {
    let tree = leaf(9);
    let mut sweep = KillSweep::new(&tree);
    assert_eq!(sweep.next_target(), Some(9));
    sweep.record(Ok(()));
    assert_eq!(sweep.next_target(), None);
    assert!(sweep.result().is_ok());
}

#[test]
fn platform_record_readings() {
    let stats = Some(BsdProcStats {
        pid: 9,
        comm: "nginx".to_string(),
        pctcpu: 512,
        rssize_pages: 10,
        start_tv_sec: 100,
    });
    assert!(bsd_proc_exists(&stats));
    assert!(!bsd_proc_exists(&None));
    assert_eq!(bsd_get_proc_comm(&stats).unwrap(), "nginx");
    assert_eq!(bsd_get_proc_name(&None), "");
    let info = MacProcInfo { name: "web server".to_string(), comm: "web".to_string() };
    assert_eq!(macos_get_proc_name(&info), "web server");
    assert_eq!(macos_get_proc_comm(&info), "web");
    assert!(macos_proc_exists(&Some((1, 2))));
    assert!(!macos_proc_exists(&None));
}

fn obs(pid: i32, alive: bool, memory: Option<u64>) -> NodeObs {
    NodeObs {
        pid,
        alive,
        utime: 0,
        stime: 0,
        pctcpu: 0,
        has_memory: memory.is_some(),
        memory: memory.unwrap_or(0),
    }
}

/// A memory ceiling of X with a process reporting X + 1 resident bytes
/// ends supervision on that tick: no usage snapshot comes back.
#[test]
fn memory_breach_stops_supervision() {
    let ceiling: i64 = 4096;
    let prior = vec![FlatNode { pid: 1, utime: 0, stime: 0 }, FlatNode { pid: 2, utime: 0, stime: 0 }];
    let mode = CpuAccounting::MachTicks { ns_per_tick: 1 };
    let over = vec![obs(1, true, Some(10)), obs(2, true, Some(ceiling as u64 + 1))];
    assert!(monitor_tick(&prior, &over, &mode, ceiling).is_none());
    let under = vec![obs(1, true, Some(10)), obs(2, true, Some(ceiling as u64))];
    let snapshot = monitor_tick(&prior, &under, &mode, ceiling).unwrap();
    assert_eq!(snapshot.len(), 2);
    // an unlimited ceiling never breaches
    assert!(monitor_tick(&prior, &over, &mode, -1).is_some());
}

/// Supervision also ends, with nothing written, once the root is gone.
#[test]
fn dead_root_stops_supervision() {
    let prior = vec![FlatNode { pid: 1, utime: 0, stime: 0 }, FlatNode { pid: 2, utime: 0, stime: 0 }];
    let mode = CpuAccounting::LoadPct { f_scale: 2048 };
    let observations = vec![obs(1, false, None), obs(2, true, None)];
    assert!(monitor_tick(&prior, &observations, &mode, -1).is_none());
}

#[test]
fn monitor_tick_reports_usage_for_live_nodes() {
    let prior = vec![
        FlatNode { pid: 1, utime: 10, stime: 10 },
        FlatNode { pid: 2, utime: 0, stime: 0 },
        FlatNode { pid: 3, utime: 0, stime: 0 },
    ];
    let mode = CpuAccounting::Jiffies { old_total: 100, new_total: 200, ncpus: 2 };
    let mut o1 = obs(1, true, None);
    o1.utime = 30;
    o1.stime = 10;
    let o2 = obs(2, false, None);
    let mut o3 = obs(3, true, None);
    o3.utime = 5;
    let snapshot = monitor_tick(&prior, &vec![o1, o2, o3], &mode, -1).unwrap();
    assert_eq!(snapshot.len(), 2);
    assert_eq!(snapshot[0].0, 1);
    assert_eq!(snapshot[0].1.cpu_usage, 4000);
    assert_eq!(snapshot[1].0, 3);
    assert_eq!(snapshot[1].1.cpu_usage, 1000);
}

/// Re-checking an identity against a live process whose start time still
/// matches stays a no-op; one respawn with a recycled pid is flagged the
/// moment the start time diverges.
#[test]
fn identity_staleness() {
    let data = CommandData {
        command: "sleep 100".to_string(),
        pid: 4242,
        dir: "/tmp".to_string(),
        name: "sleep".to_string(),
        starttime: 777777,
    };
    for _ in 0..3 {
        assert!(data.matches_starttime(Some(777777)));
    }
    assert!(!data.matches_starttime(Some(777778)));
    assert!(!data.matches_starttime(None));
    // and the matching observation still passes afterwards
    assert!(data.matches_starttime(Some(777777)));
}
