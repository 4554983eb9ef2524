use vstd::prelude::*;

verus! {

use crate::proc::PID;
use crate::tree::{FlatNode, TreeNode};

/// The two CPU-time counters read for one job member, in 100 ns units.
#[derive(Debug, Clone, Copy, PartialEq, Eq, Structural)]
pub struct WinProcTimes {
    pub pid: PID,
    pub kernel_time: u64,
    pub user_time: u64,
}

/// The 64-bit value a split file-time pair denotes.
pub fn combine_filetime(low: u32, high: u32) -> (r: u64)
    ensures
        r == high * 0x1_0000_0000u64 + low,
{
    (high as u64) * 0x1_0000_0000u64 + low as u64
}

/// Seconds since the Unix epoch for a 64-bit file time, which counts 100 ns
/// units since the platform's own epoch 11644473600 seconds earlier.
pub fn convert_filetime64_to_unix_epoch(filetime64: u64) -> (r: u64)
    requires
        filetime64 / 10000000 >= 11644473600,
    ensures
        r == filetime64 / 10000000 - 11644473600,
{
    filetime64 / 10000000 - 11644473600
}

/// Seconds since the recorded start moment, by the wall clock.
pub fn win_get_process_runtime(now_secs: u64, starttime: u64) -> (r: u64)
    ensures
        r == if now_secs >= starttime {
            now_secs - starttime
        } else {
            0
        },
{
    if now_secs >= starttime {
        now_secs - starttime
    } else {
        0
    }
}

/// The CPU percentage a node consumed, from its two file-time counter
/// sums and the wall file-time clock, rounded to the nearest percent and
/// averaged over the processors.  A clock that did not advance, or a
/// counter that ran backwards, denotes zero.
pub fn win_get_cpu_usage(
    prior: &FlatNode,
    kernel_time: u64,
    user_time: u64,
    now: u64,
    last_time: u64,
    processor_count: u64,
) -> (r: u64)
    requires
        processor_count >= 1,
    ensures
        r as int == ({
            let prior_total = prior.utime + prior.stime;
            let curr_total = kernel_time + user_time;
            if now <= last_time || curr_total < prior_total {
                0
            } else {
                let sd = curr_total - prior_total;
                let td = now - last_time;
                let raw = (sd * 100 + td / 2) / td / (processor_count as int);
                if raw > u64::MAX as int {
                    u64::MAX as int
                } else {
                    raw
                }
            }
        }),
{
    let prior_total: u128 = prior.utime as u128 + prior.stime as u128;
    let curr_total: u128 = kernel_time as u128 + user_time as u128;
    if now <= last_time || curr_total < prior_total {
        return 0;
    }
    let sd: u128 = curr_total - prior_total;
    let td: u128 = (now - last_time) as u128;
    proof {
        assert(sd <= 0x3_ffff_ffff_ffff_fffeu128);
        assert(sd * 100 <= 0x3_ffff_ffff_ffff_fffeu128 * 100) by (nonlinear_arith)
            requires
                sd <= 0x3_ffff_ffff_ffff_fffeu128,
        ;
    }
    let raw: u128 = (sd * 100 + td / 2) / td / (processor_count as u128);
    if raw > u64::MAX as u128 {
        u64::MAX
    } else {
        raw as u64
    }
}

/// `out` holds one flat node per job member that is neither the root nor
/// the null pid and whose times could be read, in member order.
pub open spec fn win_members_built(
    members: Seq<PID>,
    table: Seq<WinProcTimes>,
    root: PID,
    out: Seq<TreeNode>,
) -> bool
    decreases members,
{
    if members.len() == 0 {
        out.len() == 0
    } else {
        match win_lookup_spec(table, members[0]) {
            None => win_members_built(members.drop_first(), table, root, out),
            Some(e) => {
                if members[0] == root || members[0] == 0 {
                    win_members_built(members.drop_first(), table, root, out)
                } else {
                    out.len() > 0 && out[0].pid == members[0] && out[0].stime == e.kernel_time
                        && out[0].utime == e.user_time && out[0].children@.len() == 0
                        && win_members_built(members.drop_first(), table, root, out.drop_first())
                }
            },
        }
    }
}

pub open spec fn win_lookup_spec(table: Seq<WinProcTimes>, pid: PID) -> Option<WinProcTimes>
    decreases table,
{
    if table.len() == 0 {
        None
    } else if table[0].pid == pid {
        Some(table[0])
    } else {
        win_lookup_spec(table.drop_first(), pid)
    }
}

fn win_lookup(table: &Vec<WinProcTimes>, pid: PID) -> (r: Option<WinProcTimes>)
    ensures
        r == win_lookup_spec(table@, pid),
{
    let mut i: usize = 0;
    proof {
        assert(table@.skip(0) =~= table@);
    }
    while i < table.len()
        invariant
            0 <= i <= table@.len(),
            win_lookup_spec(table@, pid) == win_lookup_spec(table@.skip(i as int), pid),
        decreases table@.len() - i,
    {
        proof {
            assert(table@.skip(i as int).drop_first() =~= table@.skip(i as int + 1));
        }
        if table[i].pid == pid {
            return Some(table[i]);
        }
        i = i + 1;
    }
    proof {
        assert(table@.skip(table@.len() as int) =~= Seq::<WinProcTimes>::empty());
    }
    None
}

/// Builds the task's tree the way this platform must: the kernel has no
/// parent/child relation, so the members of the task's job object stand in
/// for the root's children, one flat generation deep.  The root's own
/// counter pair is handed in (`None` when unreadable, reading as zero); a
/// member whose times could not be read is omitted.
pub fn win_get_all_processes(
    pid: PID,
    root_stats: Option<(u64, u64)>,
    members: &Vec<PID>,
    table: &Vec<WinProcTimes>,
) -> (r: TreeNode)
    ensures
        r.pid == pid,
        match root_stats {
            Some(s) => r.stime == s.0 && r.utime == s.1,
            None => r.utime == 0 && r.stime == 0,
        },
        win_members_built(members@, table@, pid, r.children@),
{
    let (stime, utime) = match root_stats {
        Some(s) => s,
        None => (0, 0),
    };
    let mut children: Vec<TreeNode> = Vec::new();
    let mut i: usize = 0;
    proof {
        assert(members@.skip(0) =~= members@);
        assert forall|rest: Seq<TreeNode>|
            win_members_built(members@.skip(0), table@, pid, rest) implies win_members_built(
            members@,
            table@,
            pid,
            children@ + rest,
        ) by {
            assert(children@ + rest =~= rest);
        }
    }
    while i < members.len()
        invariant
            0 <= i <= members@.len(),
            forall|rest: Seq<TreeNode>|
                win_members_built(members@.skip(i as int), table@, pid, rest)
                    ==> win_members_built(members@, table@, pid, children@ + rest),
        decreases members@.len() - i,
    {
        let ghost pre = children@;
        let m = members[i];
        match win_lookup(table, m) {
            None => {},
            Some(e) => {
                if m != pid && m != 0 {
                    children.push(
                        TreeNode {
                            pid: m,
                            stime: e.kernel_time,
                            utime: e.user_time,
                            children: Vec::new(),
                        },
                    );
                }
            },
        }
        proof {
            let mi = members@.skip(i as int);
            assert(mi[0] == members@[i as int]);
            assert(mi.drop_first() =~= members@.skip(i as int + 1));
            assert forall|rest: Seq<TreeNode>|
                win_members_built(members@.skip(i as int + 1), table@, pid, rest)
                    implies win_members_built(members@, table@, pid, children@ + rest) by {
                if children@.len() > pre.len() {
                    let node = children@[pre.len() as int];
                    assert((seq![node] + rest).drop_first() =~= rest);
                    assert((seq![node] + rest)[0] == node);
                    assert(node.children@.len() == 0);
                    assert(win_members_built(mi, table@, pid, seq![node] + rest));
                    assert(children@ + rest =~= pre + (seq![node] + rest));
                } else {
                    assert(children@ == pre);
                    assert(win_members_built(mi, table@, pid, rest));
                }
            }
        }
        i = i + 1;
    }
    proof {
        assert(members@.skip(members@.len() as int) =~= Seq::<PID>::empty());
        assert(win_members_built(
            members@.skip(members@.len() as int),
            table@,
            pid,
            Seq::<TreeNode>::empty(),
        ));
        assert(children@ + Seq::<TreeNode>::empty() =~= children@);
    }
    TreeNode { pid, utime, stime, children }
}

} // verus!
