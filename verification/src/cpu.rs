use vstd::prelude::*;

verus! {

use crate::text::{all_dec_digits, dec_value, parse_u32};
use crate::tree::FlatNode;

/// The CPU utilization, in hundredths of a percent, that two jiffy counter
/// snapshots of one process denote against the machine-wide jiffy counter:
/// `ncpus * 100 % * Δprocess / Δtotal`, clamped to `u64`.  A non-positive
/// wall delta or a counter that ran backwards (a pid recycled between the
/// snapshots) reads as `0`.
pub open spec fn linux_usage_spec(
    prior: int,
    curr: int,
    old_total: int,
    new_total: int,
    ncpus: int,
) -> int {
    if new_total <= old_total || curr < prior {
        0
    } else {
        let raw = ncpus * 10000 * (curr - prior) / (new_total - old_total);
        if raw > u64::MAX as int {
            u64::MAX as int
        } else {
            raw
        }
    }
}

/// The CPU percentage one process consumed over a sampling interval, from
/// jiffy counters: `node` holds the counters read when the process tree was
/// built, `utime`/`stime` the counters read now, and `old_total_time` /
/// `total_time` the machine-wide jiffy counter at the same two instants.
/// Multiplying by the processor count expresses multi-core consumption above
/// 100 %, matching what the machine-wide counter (which advances on every
/// core at once) denotes.
pub fn linux_get_cpu_usage(
    node: &FlatNode,
    utime: u64,
    stime: u64,
    total_time: u32,
    old_total_time: u32,
    ncpus: u32,
) -> (r: u64)
    ensures
        r == linux_usage_spec(
            node.utime + node.stime,
            utime + stime,
            old_total_time as int,
            total_time as int,
            ncpus as int,
        ),
{
    let prior: u128 = node.utime as u128 + node.stime as u128;
    let curr: u128 = utime as u128 + stime as u128;
    if total_time <= old_total_time || curr < prior {
        return 0;
    }
    let wall_delta: u128 = (total_time - old_total_time) as u128;
    let delta: u128 = curr - prior;
    proof {
        assert(ncpus as u128 <= 0xffff_ffffu128);
        assert(delta <= 0x3_ffff_ffff_ffff_fffeu128);
        assert((ncpus as u128) * 10000u128 * delta <= 0xffff_ffffu128 * 10000u128
            * 0x3_ffff_ffff_ffff_fffeu128) by (nonlinear_arith)
            requires
                ncpus as u128 <= 0xffff_ffffu128,
                delta <= 0x3_ffff_ffff_ffff_fffeu128,
        ;
    }
    let raw: u128 = (ncpus as u128) * 10000u128 * delta / wall_delta;
    if raw > u64::MAX as u128 {
        u64::MAX
    } else {
        raw as u64
    }
}

/// Forwards to the platform accountant for this build.
pub fn get_cpu_usage(
    node: &FlatNode,
    utime: u64,
    stime: u64,
    total_time: u32,
    old_total_time: u32,
    ncpus: u32,
) -> (r: u64)
    ensures
        r == linux_usage_spec(
            node.utime + node.stime,
            utime + stime,
            old_total_time as int,
            total_time as int,
            ncpus as int,
        ),
{
    linux_get_cpu_usage(node, utime, stime, total_time, old_total_time, ncpus)
}

/// Usage is never negative, and a non-positive sampling interval reads as
/// exactly zero, whatever the counters held.
pub proof fn lemma_usage_non_negative(
    prior: int,
    curr: int,
    old_total: int,
    new_total: int,
    ncpus: int,
)
    requires
        prior >= 0,
        curr >= 0,
        ncpus >= 0,
    ensures
        linux_usage_spec(prior, curr, old_total, new_total, ncpus) >= 0,
        new_total <= old_total ==> linux_usage_spec(prior, curr, old_total, new_total, ncpus)
            == 0,
{
    if new_total > old_total && curr >= prior {
        assert(ncpus * 10000 * (curr - prior) >= 0) by (nonlinear_arith)
            requires
                ncpus >= 0,
                curr >= prior,
        ;
        assert(ncpus * 10000 * (curr - prior) / (new_total - old_total) >= 0) by (nonlinear_arith)
            requires
                ncpus * 10000 * (curr - prior) >= 0,
                new_total - old_total > 0,
        ;
    }
}

/// What a sequence of textual counter readings sums to: each entry that reads
/// as a `u32` contributes its value, anything else contributes nothing.
pub open spec fn jiffies_total(stats: Seq<Seq<char>>) -> int
    decreases stats,
{
    if stats.len() == 0 {
        0
    } else {
        jiffies_total(stats.drop_last()) + jiffy_entry(stats.last())
    }
}

pub open spec fn jiffy_entry(s: Seq<char>) -> int {
    if s.len() > 0 && all_dec_digits(s) && dec_value(s) <= u32::MAX {
        dec_value(s) as int
    } else {
        0
    }
}

proof fn lemma_jiffies_total_nonneg(stats: Seq<Seq<char>>)
    ensures
        jiffies_total(stats) >= 0,
    decreases stats,
{
    if stats.len() > 0 {
        lemma_jiffies_total_nonneg(stats.drop_last());
    }
}

/// Sums the machine-wide CPU-time fields read from the kernel's cumulative
/// counter line.  Entries that do not read as numbers (the leading label) are
/// passed over; the sum saturates at `u32::MAX` instead of wrapping.
pub fn linux_get_cpu_time_total(cpu_stats: &Vec<String>) -> (r: u32)
    ensures
        r as int == if jiffies_total(cpu_stats.deep_view()) > u32::MAX as int {
            u32::MAX as int
        } else {
            jiffies_total(cpu_stats.deep_view())
        },
{
    let ghost all = cpu_stats.deep_view();
    let mut time_total: u32 = 0;
    let mut i: usize = 0;
    proof {
        assert(all.take(0) =~= Seq::<Seq<char>>::empty());
    }
    while i < cpu_stats.len()
        invariant
            0 <= i <= cpu_stats.len(),
            all == cpu_stats.deep_view(),
            all.len() == cpu_stats.len(),
            forall|j: int| 0 <= j < all.len() ==> all[j] == #[trigger] cpu_stats@[j]@,
            time_total as int == if jiffies_total(all.take(i as int)) > u32::MAX as int {
                u32::MAX as int
            } else {
                jiffies_total(all.take(i as int))
            },
        decreases cpu_stats.len() - i,
    {
        let entry = match parse_u32(cpu_stats[i].as_str()) {
            Some(v) => v,
            None => 0,
        };
        proof {
            assert(all.take(i as int + 1).drop_last() =~= all.take(i as int));
            assert(all.take(i as int + 1).last() == all[i as int]);
            assert(entry as int == jiffy_entry(all[i as int]));
            lemma_jiffies_total_nonneg(all.take(i as int));
        }
        time_total = time_total.saturating_add(entry);
        i = i + 1;
    }
    proof {
        assert(all.take(cpu_stats.len() as int) =~= all);
    }
    time_total
}

} // verus!
