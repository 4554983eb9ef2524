use vstd::prelude::*;

verus! {

use crate::proc::PID;
use crate::tree::{flatten_forest_pids, flatten_pids, TreeNode};

/// One row of a process-table snapshot, as platforms without a
/// children-of-pid kernel call report it: every live process with its
/// parent pid and CPU-time counters.  Children are found by scanning the
/// whole table for rows whose `ppid` matches.
#[derive(Debug, Clone, Copy, PartialEq, Eq, Structural)]
pub struct ProcEntry {
    pub pid: PID,
    pub ppid: PID,
    pub utime: u64,
    pub stime: u64,
}

/// The rows of `avail` whose parent is `parent`, in table order.
pub open spec fn kids_of(parent: PID, avail: Seq<ProcEntry>) -> Seq<ProcEntry>
    decreases avail,
{
    if avail.len() == 0 {
        Seq::empty()
    } else if avail[0].ppid == parent {
        seq![avail[0]] + kids_of(parent, avail.drop_first())
    } else {
        kids_of(parent, avail.drop_first())
    }
}

/// `out` is exactly the forest a parent-pid scan builds below `parent`:
/// one node per table row whose `ppid` is `parent`, in table order,
/// carrying the row's counters, each with its own scan-built forest below
/// it.  `fuel` bounds the depth defensively; one unit is spent per
/// generation.
pub open spec fn scan_forest_built(
    parent: PID,
    out: Seq<TreeNode>,
    avail: Seq<ProcEntry>,
    fuel: nat,
) -> bool
    decreases fuel, 1nat, 0nat,
{
    if fuel == 0 {
        out.len() == 0
    } else {
        scan_list_built(kids_of(parent, avail), out, avail, fuel)
    }
}

/// `out` matches the child rows `ks` one for one, each node's own forest
/// built by the same scan.
pub open spec fn scan_list_built(
    ks: Seq<ProcEntry>,
    out: Seq<TreeNode>,
    avail: Seq<ProcEntry>,
    fuel: nat,
) -> bool
    decreases fuel, 0nat, ks.len(),
{
    if ks.len() == 0 {
        out.len() == 0
    } else {
        out.len() > 0 && out[0].pid == ks[0].pid && out[0].utime == ks[0].utime && out[0].stime
            == ks[0].stime && (if fuel == 0 {
            out[0].children@.len() == 0
        } else {
            scan_forest_built(ks[0].pid, out[0].children@, avail, (fuel - 1) as nat)
        }) && scan_list_built(ks.drop_first(), out.drop_first(), avail, fuel)
    }
}

proof fn lemma_kids_of_take(parent: PID, avail: Seq<ProcEntry>, i: int)
    requires
        0 <= i < avail.len(),
    ensures
        kids_of(parent, avail.take(i + 1)) == kids_of(parent, avail.take(i)) + (
        if avail[i].ppid == parent {
            seq![avail[i]]
        } else {
            Seq::<ProcEntry>::empty()
        }),
    decreases avail,
{
    let pre = avail.take(i + 1);
    if i == 0 {
        reveal_with_fuel(kids_of, 2);
        assert(pre.len() == 1);
        assert(pre[0] == avail[0]);
        assert(pre.drop_first() =~= Seq::<ProcEntry>::empty());
        assert(avail.take(0) =~= Seq::<ProcEntry>::empty());
        if avail[0].ppid == parent {
            assert(kids_of(parent, pre) =~= seq![avail[0]]);
            assert(kids_of(parent, avail.take(0)) + seq![avail[0]] =~= seq![avail[0]]);
        } else {
            assert(kids_of(parent, pre) =~= Seq::<ProcEntry>::empty());
            assert(kids_of(parent, avail.take(0)) + Seq::<ProcEntry>::empty()
                =~= Seq::<ProcEntry>::empty());
        }
    } else {
        lemma_kids_of_take(parent, avail.drop_first(), i - 1);
        assert(pre.drop_first() =~= avail.drop_first().take(i));
        assert(avail.take(i).drop_first() =~= avail.drop_first().take(i - 1));
        assert(avail.drop_first()[i - 1] == avail[i]);
        assert(pre[0] == avail[0]);
        assert(avail.take(i)[0] == avail[0]);
        if avail[0].ppid == parent {
            assert(kids_of(parent, avail.take(i + 1)) =~= kids_of(parent, avail.take(i)) + (
            if avail[i].ppid == parent {
                seq![avail[i]]
            } else {
                Seq::<ProcEntry>::empty()
            }));
        } else {
            assert(kids_of(parent, avail.take(i + 1)) =~= kids_of(parent, avail.take(i)) + (
            if avail[i].ppid == parent {
                seq![avail[i]]
            } else {
                Seq::<ProcEntry>::empty()
            }));
        }
    }
}

/// Collects the table rows whose parent is `parent`, in table order.
fn collect_kids(parent: PID, avail: &Vec<ProcEntry>) -> (r: Vec<ProcEntry>)
    ensures
        r@ == kids_of(parent, avail@),
{
    let mut out: Vec<ProcEntry> = Vec::new();
    let mut i: usize = 0;
    proof {
        assert(avail@.take(0) =~= Seq::<ProcEntry>::empty());
        assert(out@ =~= kids_of(parent, avail@.take(0)));
    }
    while i < avail.len()
        invariant
            0 <= i <= avail@.len(),
            out@ == kids_of(parent, avail@.take(i as int)),
        decreases avail@.len() - i,
    {
        if avail[i].ppid == parent {
            out.push(avail[i]);
        }
        proof {
            lemma_kids_of_take(parent, avail@, i as int);
            if avail@[i as int].ppid != parent {
                assert(out@ =~= kids_of(parent, avail@.take(i as int + 1)));
            }
        }
        i = i + 1;
    }
    proof {
        assert(avail@.take(avail@.len() as int) =~= avail@);
    }
    out
}

/// Builds, by scanning the table for parent pids, the forest of every
/// process below `parent`.
fn scan_build_children(parent: PID, avail: &Vec<ProcEntry>, fuel: usize) -> (r: Vec<TreeNode>)
    ensures
        scan_forest_built(parent, r@, avail@, fuel as nat),
    decreases fuel,
{
    let mut out: Vec<TreeNode> = Vec::new();
    if fuel == 0 {
        return out;
    }
    let kids = collect_kids(parent, avail);
    let mut i: usize = 0;
    proof {
        assert(kids@.skip(0) =~= kids@);
        assert forall|rest: Seq<TreeNode>|
            scan_list_built(kids@.skip(0), rest, avail@, fuel as nat) implies scan_list_built(
            kids@,
            out@ + rest,
            avail@,
            fuel as nat,
        ) by {
            assert(out@ + rest =~= rest);
        }
    }
    while i < kids.len()
        invariant
            0 <= i <= kids@.len(),
            fuel > 0,
            forall|rest: Seq<TreeNode>|
                scan_list_built(kids@.skip(i as int), rest, avail@, fuel as nat)
                    ==> scan_list_built(kids@, out@ + rest, avail@, fuel as nat),
        decreases kids@.len() - i,
    {
        let ghost pre = out@;
        let entry = kids[i];
        let sub = scan_build_children(entry.pid, avail, fuel - 1);
        let node = TreeNode {
            pid: entry.pid,
            utime: entry.utime,
            stime: entry.stime,
            children: sub,
        };
        out.push(node);
        proof {
            let ki = kids@.skip(i as int);
            assert(ki[0] == kids@[i as int]);
            assert(ki.drop_first() =~= kids@.skip(i as int + 1));
            let node_g = out@[pre.len() as int];
            assert forall|rest: Seq<TreeNode>|
                scan_list_built(kids@.skip(i as int + 1), rest, avail@, fuel as nat)
                    implies scan_list_built(kids@, out@ + rest, avail@, fuel as nat) by {
                assert((seq![node_g] + rest).drop_first() =~= rest);
                assert((seq![node_g] + rest)[0] == node_g);
                assert(scan_list_built(ki, seq![node_g] + rest, avail@, fuel as nat));
                assert(out@ + rest =~= pre + (seq![node_g] + rest));
            }
        }
        i = i + 1;
    }
    proof {
        assert(kids@.skip(kids@.len() as int) =~= Seq::<ProcEntry>::empty());
        assert(scan_list_built(
            kids@.skip(kids@.len() as int),
            Seq::<TreeNode>::empty(),
            avail@,
            fuel as nat,
        ));
        assert(out@ + Seq::<TreeNode>::empty() =~= out@);
        assert(scan_list_built(kids@, out@, avail@, fuel as nat));
    }
    out
}

/// Builds the process tree rooted at `pid` from a whole-table snapshot, the
/// way platforms without a children-of-pid kernel call must: every row's
/// parent field is matched against the pid of the node being expanded.  The
/// root's own counters are handed in separately (`root_stats` is `None`
/// when the root's record could not be read; its counters then read as
/// zero, as for a record that has gone away).
pub fn scan_get_all_processes(
    pid: PID,
    root_stats: Option<(u64, u64)>,
    table: &Vec<ProcEntry>,
) -> (r: TreeNode)
    ensures
        r.pid == pid,
        match root_stats {
            Some(s) => r.utime == s.0 && r.stime == s.1,
            None => r.utime == 0 && r.stime == 0,
        },
        scan_forest_built(pid, r.children@, table@, table@.len()),
{
    let (utime, stime) = match root_stats {
        Some(s) => s,
        None => (0, 0),
    };
    let fuel = table.len();
    let children = scan_build_children(pid, table, fuel);
    TreeNode { pid, utime, stime, children }
}

/// The table rows a node's direct children contribute: one row per child,
/// in order, parented to the node.
pub open spec fn child_entries(t: TreeNode) -> Seq<ProcEntry> {
    Seq::new(
        t.children@.len(),
        |i: int|
            ProcEntry {
                pid: t.children@[i].pid,
                ppid: t.pid,
                utime: t.children@[i].utime,
                stime: t.children@[i].stime,
            },
    )
}

/// The table a scan of exactly this tree's descendants would report: each
/// node's children rows, level by level, nothing else.
pub open spec fn descendant_entries(t: TreeNode) -> Seq<ProcEntry>
    decreases t,
{
    child_entries(t) + forest_descendant_entries(t.children@)
}

pub open spec fn forest_descendant_entries(f: Seq<TreeNode>) -> Seq<ProcEntry>
    decreases f,
{
    if f.len() == 0 {
        Seq::empty()
    } else {
        descendant_entries(f[0]) + forest_descendant_entries(f.drop_first())
    }
}

/// The table names every process of `t`'s tree as someone's parent only
/// from within the tree.
proof fn lemma_desc_ppids(t: TreeNode)
    ensures
        forall|i: int|
            0 <= i < descendant_entries(t).len() ==> flatten_pids(t).contains(
                #[trigger] descendant_entries(t)[i].ppid,
            ),
    decreases t,
{
    let ce = child_entries(t);
    let fd = forest_descendant_entries(t.children@);
    lemma_forest_desc_ppids(t.children@);
    assert forall|i: int| 0 <= i < descendant_entries(t).len() implies flatten_pids(t).contains(
        #[trigger] descendant_entries(t)[i].ppid,
    ) by {
        if i < ce.len() {
            assert(descendant_entries(t)[i] == ce[i]);
            assert(flatten_pids(t)[0] == t.pid);
        } else {
            let j = i - ce.len();
            assert(descendant_entries(t)[i] == fd[j]);
            assert(flatten_forest_pids(t.children@).contains(fd[j].ppid));
            let k = choose|k: int|
                0 <= k < flatten_forest_pids(t.children@).len() && flatten_forest_pids(
                    t.children@,
                )[k] == fd[j].ppid;
            assert(flatten_pids(t)[1 + k] == fd[j].ppid);
        }
    }
}

proof fn lemma_forest_desc_ppids(f: Seq<TreeNode>)
    ensures
        forall|i: int|
            0 <= i < forest_descendant_entries(f).len() ==> flatten_forest_pids(f).contains(
                #[trigger] forest_descendant_entries(f)[i].ppid,
            ),
    decreases f,
{
    if f.len() > 0 {
        let d0 = descendant_entries(f[0]);
        let fr = forest_descendant_entries(f.drop_first());
        lemma_desc_ppids(f[0]);
        lemma_forest_desc_ppids(f.drop_first());
        assert forall|i: int|
            0 <= i < forest_descendant_entries(f).len() implies flatten_forest_pids(f).contains(
            #[trigger] forest_descendant_entries(f)[i].ppid,
        ) by {
            let fp0 = flatten_pids(f[0]);
            let fpr = flatten_forest_pids(f.drop_first());
            if i < d0.len() {
                assert(forest_descendant_entries(f)[i] == d0[i]);
                assert(fp0.contains(d0[i].ppid));
                let k = choose|k: int| 0 <= k < fp0.len() && fp0[k] == d0[i].ppid;
                assert(flatten_forest_pids(f)[k] == d0[i].ppid);
            } else {
                let j = i - d0.len();
                assert(forest_descendant_entries(f)[i] == fr[j]);
                assert(fpr.contains(fr[j].ppid));
                let k = choose|k: int| 0 <= k < fpr.len() && fpr[k] == fr[j].ppid;
                assert(flatten_forest_pids(f)[fp0.len() + k] == fr[j].ppid);
            }
        }
    }
}

proof fn lemma_concat_no_dup<A>(a: Seq<A>, b: Seq<A>)
    requires
        (a + b).no_duplicates(),
    ensures
        a.no_duplicates(),
        b.no_duplicates(),
        forall|x: A| !(a.contains(x) && #[trigger] b.contains(x)),
{
    assert forall|i: int, j: int| 0 <= i < a.len() && 0 <= j < a.len() && i != j implies a[i]
        != a[j] by {
        assert((a + b)[i] == a[i]);
        assert((a + b)[j] == a[j]);
    }
    assert forall|i: int, j: int| 0 <= i < b.len() && 0 <= j < b.len() && i != j implies b[i]
        != b[j] by {
        assert((a + b)[a.len() + i] == b[i]);
        assert((a + b)[a.len() + j] == b[j]);
    }
    assert forall|x: A| !(a.contains(x) && #[trigger] b.contains(x)) by {
        if a.contains(x) && b.contains(x) {
            let i = choose|i: int| 0 <= i < a.len() && a[i] == x;
            let j = choose|j: int| 0 <= j < b.len() && b[j] == x;
            assert((a + b)[i] == x);
            assert((a + b)[a.len() + j] == x);
        }
    }
}

proof fn lemma_kids_of_concat(q: PID, a: Seq<ProcEntry>, b: Seq<ProcEntry>)
    ensures
        kids_of(q, a + b) == kids_of(q, a) + kids_of(q, b),
    decreases a,
{
    if a.len() == 0 {
        assert(a + b =~= b);
        assert(kids_of(q, a) + kids_of(q, b) =~= kids_of(q, b));
    } else {
        lemma_kids_of_concat(q, a.drop_first(), b);
        assert((a + b).drop_first() =~= a.drop_first() + b);
        assert((a + b)[0] == a[0]);
        if a[0].ppid == q {
            assert(kids_of(q, a + b) =~= kids_of(q, a) + kids_of(q, b));
        } else {
            assert(kids_of(q, a + b) =~= kids_of(q, a) + kids_of(q, b));
        }
    }
}

proof fn lemma_kids_of_uniform(q: PID, s: Seq<ProcEntry>, p: PID)
    requires
        forall|i: int| 0 <= i < s.len() ==> (#[trigger] s[i]).ppid == p,
    ensures
        kids_of(q, s) == if q == p {
            s
        } else {
            Seq::<ProcEntry>::empty()
        },
    decreases s,
{
    if s.len() == 0 {
        assert(kids_of(q, s) =~= Seq::<ProcEntry>::empty());
        if q == p {
            assert(kids_of(q, s) =~= s);
        }
    } else {
        assert forall|i: int| 0 <= i < s.drop_first().len() implies (#[trigger] s.drop_first()[i]).ppid
            == p by {
            assert(s.drop_first()[i] == s[i + 1]);
        }
        lemma_kids_of_uniform(q, s.drop_first(), p);
        if q == p {
            assert(kids_of(q, s) =~= s);
        } else {
            assert(kids_of(q, s) =~= Seq::<ProcEntry>::empty());
        }
    }
}

proof fn lemma_kids_of_absent(q: PID, s: Seq<ProcEntry>)
    requires
        forall|i: int| 0 <= i < s.len() ==> (#[trigger] s[i]).ppid != q,
    ensures
        kids_of(q, s) == Seq::<ProcEntry>::empty(),
    decreases s,
{
    if s.len() > 0 {
        assert forall|i: int| 0 <= i < s.drop_first().len() implies (#[trigger] s.drop_first()[i]).ppid
            != q by {
            assert(s.drop_first()[i] == s[i + 1]);
        }
        lemma_kids_of_absent(q, s.drop_first());
    }
}

proof fn lemma_desc_kids_absent(t: TreeNode, q: PID)
    requires
        !flatten_pids(t).contains(q),
    ensures
        kids_of(q, descendant_entries(t)) == Seq::<ProcEntry>::empty(),
{
    lemma_desc_ppids(t);
    assert forall|i: int| 0 <= i < descendant_entries(t).len() implies (
    #[trigger] descendant_entries(t)[i]).ppid != q by {
        assert(flatten_pids(t).contains(descendant_entries(t)[i].ppid));
    }
    lemma_kids_of_absent(q, descendant_entries(t));
}

proof fn lemma_forest_desc_kids_absent(f: Seq<TreeNode>, q: PID)
    requires
        !flatten_forest_pids(f).contains(q),
    ensures
        kids_of(q, forest_descendant_entries(f)) == Seq::<ProcEntry>::empty(),
{
    lemma_forest_desc_ppids(f);
    assert forall|i: int| 0 <= i < forest_descendant_entries(f).len() implies (
    #[trigger] forest_descendant_entries(f)[i]).ppid != q by {
        assert(flatten_forest_pids(f).contains(forest_descendant_entries(f)[i].ppid));
    }
    lemma_kids_of_absent(q, forest_descendant_entries(f));
}

proof fn lemma_ff_contains(f: Seq<TreeNode>, i: int, q: PID)
    requires
        0 <= i < f.len(),
        flatten_pids(f[i]).contains(q),
    ensures
        flatten_forest_pids(f).contains(q),
    decreases f,
{
    let fp0 = flatten_pids(f[0]);
    if i == 0 {
        let k = choose|k: int| 0 <= k < fp0.len() && fp0[k] == q;
        assert(flatten_forest_pids(f)[k] == q);
    } else {
        lemma_ff_contains(f.drop_first(), i - 1, q);
        let fpr = flatten_forest_pids(f.drop_first());
        let k = choose|k: int| 0 <= k < fpr.len() && fpr[k] == q;
        assert(flatten_forest_pids(f)[fp0.len() + k] == q);
    }
}

proof fn lemma_forest_kids_select(f: Seq<TreeNode>, q: PID, i: int)
    requires
        flatten_forest_pids(f).no_duplicates(),
        0 <= i < f.len(),
        flatten_pids(f[i]).contains(q),
    ensures
        kids_of(q, forest_descendant_entries(f)) == kids_of(q, descendant_entries(f[i])),
    decreases f,
{
    let d0 = descendant_entries(f[0]);
    let fr = forest_descendant_entries(f.drop_first());
    lemma_kids_of_concat(q, d0, fr);
    lemma_concat_no_dup(flatten_pids(f[0]), flatten_forest_pids(f.drop_first()));
    if i == 0 {
        assert(!flatten_forest_pids(f.drop_first()).contains(q));
        lemma_forest_desc_kids_absent(f.drop_first(), q);
        assert(kids_of(q, d0) + kids_of(q, fr) =~= kids_of(q, d0));
    } else {
        lemma_ff_contains(f.drop_first(), i - 1, q);
        assert(!flatten_pids(f[0]).contains(q));
        lemma_desc_kids_absent(f[0], q);
        lemma_forest_kids_select(f.drop_first(), q, i - 1);
        assert(kids_of(q, d0) + kids_of(q, fr) =~= kids_of(q, fr));
        assert(f.drop_first()[i - 1] == f[i]);
    }
}

/// `avail` reports, for every process of the tree, exactly the node's
/// children as its scan children.
pub open spec fn scan_matches_node(t: TreeNode, avail: Seq<ProcEntry>) -> bool
    decreases t,
{
    kids_of(t.pid, avail) == child_entries(t) && scan_matches_forest(t.children@, avail)
}

pub open spec fn scan_matches_forest(f: Seq<TreeNode>, avail: Seq<ProcEntry>) -> bool
    decreases f,
{
    f.len() == 0 || (scan_matches_node(f[0], avail) && scan_matches_forest(
        f.drop_first(),
        avail,
    ))
}

proof fn lemma_table_matches_node(t: TreeNode, avail: Seq<ProcEntry>)
    requires
        flatten_pids(t).no_duplicates(),
        forall|q: PID|
            flatten_pids(t).contains(q) ==> #[trigger] kids_of(q, avail) == kids_of(
                q,
                descendant_entries(t),
            ),
    ensures
        scan_matches_node(t, avail),
    decreases t,
{
    let f = t.children@;
    let ce = child_entries(t);
    let ff = flatten_forest_pids(f);
    assert(flatten_pids(t) == seq![t.pid] + ff);
    lemma_concat_no_dup(seq![t.pid], ff);
    assert(seq![t.pid][0] == t.pid);
    assert(seq![t.pid].contains(t.pid));
    assert(!ff.contains(t.pid));
    assert(flatten_pids(t)[0] == t.pid);
    assert(flatten_pids(t).contains(t.pid));
    lemma_kids_of_concat(t.pid, ce, forest_descendant_entries(f));
    assert(forall|i: int| 0 <= i < ce.len() ==> (#[trigger] ce[i]).ppid == t.pid);
    lemma_kids_of_uniform(t.pid, ce, t.pid);
    lemma_forest_desc_kids_absent(f, t.pid);
    assert(ce + Seq::<ProcEntry>::empty() =~= ce);
    assert(kids_of(t.pid, avail) == ce);
    assert forall|q: PID|
        ff.contains(q) implies #[trigger] kids_of(q, avail) == kids_of(
        q,
        forest_descendant_entries(f),
    ) by {
        let k = choose|k: int| 0 <= k < ff.len() && ff[k] == q;
        assert(flatten_pids(t)[1 + k] == q);
        assert(flatten_pids(t).contains(q));
        assert(q != t.pid);
        lemma_kids_of_concat(q, ce, forest_descendant_entries(f));
        lemma_kids_of_uniform(q, ce, t.pid);
        assert(Seq::<ProcEntry>::empty() + kids_of(q, forest_descendant_entries(f)) =~= kids_of(
            q,
            forest_descendant_entries(f),
        ));
    }
    lemma_table_matches_forest(f, avail);
}

proof fn lemma_table_matches_forest(f: Seq<TreeNode>, avail: Seq<ProcEntry>)
    requires
        flatten_forest_pids(f).no_duplicates(),
        forall|q: PID|
            flatten_forest_pids(f).contains(q) ==> #[trigger] kids_of(q, avail) == kids_of(
                q,
                forest_descendant_entries(f),
            ),
    ensures
        scan_matches_forest(f, avail),
    decreases f,
{
    if f.len() > 0 {
        let fp0 = flatten_pids(f[0]);
        let fpr = flatten_forest_pids(f.drop_first());
        lemma_concat_no_dup(fp0, fpr);
        assert forall|q: PID|
            fp0.contains(q) implies #[trigger] kids_of(q, avail) == kids_of(
            q,
            descendant_entries(f[0]),
        ) by {
            lemma_ff_contains(f, 0, q);
            lemma_forest_kids_select(f, q, 0);
        }
        lemma_table_matches_node(f[0], avail);
        assert forall|q: PID|
            fpr.contains(q) implies #[trigger] kids_of(q, avail) == kids_of(
            q,
            forest_descendant_entries(f.drop_first()),
        ) by {
            let k = choose|k: int| 0 <= k < fpr.len() && fpr[k] == q;
            assert(flatten_forest_pids(f)[fp0.len() + k] == q);
            assert(flatten_forest_pids(f).contains(q));
            lemma_kids_of_concat(q, descendant_entries(f[0]), forest_descendant_entries(
                f.drop_first(),
            ));
            assert(!fp0.contains(q));
            lemma_desc_kids_absent(f[0], q);
            assert(Seq::<ProcEntry>::empty() + kids_of(
                q,
                forest_descendant_entries(f.drop_first()),
            ) =~= kids_of(q, forest_descendant_entries(f.drop_first())));
        }
        lemma_table_matches_forest(f.drop_first(), avail);
    }
}

/// How many generations the forest holds.
pub open spec fn forest_height(f: Seq<TreeNode>) -> nat
    decreases f,
{
    if f.len() == 0 {
        0
    } else {
        let h0 = 1 + forest_height(f[0].children@);
        let hr = forest_height(f.drop_first());
        if h0 >= hr {
            h0
        } else {
            hr
        }
    }
}

pub proof fn lemma_forest_height_at(f: Seq<TreeNode>, i: int)
    requires
        0 <= i < f.len(),
    ensures
        forest_height(f) >= 1 + forest_height(f[i].children@),
    decreases f,
{
    if i > 0 {
        lemma_forest_height_at(f.drop_first(), i - 1);
        assert(f.drop_first()[i - 1] == f[i]);
    }
}

/// Two trees hold the same processes with the same counters, node for node.
pub open spec fn same_tree(a: TreeNode, b: TreeNode) -> bool
    decreases a,
{
    a.pid == b.pid && a.utime == b.utime && a.stime == b.stime && same_forest(
        a.children@,
        b.children@,
    )
}

pub open spec fn same_forest(x: Seq<TreeNode>, y: Seq<TreeNode>) -> bool
    decreases x,
{
    x.len() == y.len() && (x.len() == 0 || (same_tree(x[0], y[0]) && same_forest(
        x.drop_first(),
        y.drop_first(),
    )))
}

/// Structurally equal trees flatten to the same pid and node sequences.
pub proof fn lemma_same_tree_flatten(a: TreeNode, b: TreeNode)
    requires
        same_tree(a, b),
    ensures
        flatten_pids(a) == flatten_pids(b),
        crate::tree::flatten_nodes(a) == crate::tree::flatten_nodes(b),
    decreases a,
{
    lemma_same_forest_flatten(a.children@, b.children@);
}

pub proof fn lemma_same_forest_flatten(x: Seq<TreeNode>, y: Seq<TreeNode>)
    requires
        same_forest(x, y),
    ensures
        flatten_forest_pids(x) == flatten_forest_pids(y),
        crate::tree::flatten_forest_nodes(x) == crate::tree::flatten_forest_nodes(y),
    decreases x,
{
    if x.len() > 0 {
        lemma_same_tree_flatten(x[0], y[0]);
        lemma_same_forest_flatten(x.drop_first(), y.drop_first());
    }
}

proof fn lemma_scan_build_node(t: TreeNode, out: Seq<TreeNode>, avail: Seq<ProcEntry>, fuel: nat)
    requires
        scan_matches_node(t, avail),
        scan_forest_built(t.pid, out, avail, fuel),
        fuel >= forest_height(t.children@),
    ensures
        same_forest(out, t.children@),
    decreases t,
{
    let f = t.children@;
    let ce = child_entries(t);
    if f.len() == 0 {
        if fuel != 0 {
            assert(ce.len() == 0);
            assert(scan_list_built(kids_of(t.pid, avail), out, avail, fuel));
            assert(kids_of(t.pid, avail).len() == 0);
        }
        assert(out.len() == 0);
    } else {
        lemma_forest_height_at(f, 0);
        assert(fuel >= 1);
        assert(scan_list_built(ce, out, avail, fuel));
        assert forall|i: int| 0 <= i < f.len() implies fuel >= 1 + forest_height(
            (#[trigger] f[i]).children@,
        ) by {
            lemma_forest_height_at(f, i);
        }
        lemma_scan_build_list(f, ce, out, avail, fuel);
    }
}

proof fn lemma_scan_build_list(
    f: Seq<TreeNode>,
    ks: Seq<ProcEntry>,
    out: Seq<TreeNode>,
    avail: Seq<ProcEntry>,
    fuel: nat,
)
    requires
        ks.len() == f.len(),
        forall|i: int|
            0 <= i < f.len() ==> (#[trigger] ks[i]).pid == f[i].pid && ks[i].utime == f[i].utime
                && ks[i].stime == f[i].stime,
        scan_matches_forest(f, avail),
        scan_list_built(ks, out, avail, fuel),
        forall|i: int| 0 <= i < f.len() ==> fuel >= 1 + forest_height((#[trigger] f[i]).children@),
    ensures
        same_forest(out, f),
    decreases f,
{
    if f.len() == 0 {
        assert(out.len() == 0);
    } else {
        assert(fuel >= 1);
        assert(scan_forest_built(ks[0].pid, out[0].children@, avail, (fuel - 1) as nat));
        lemma_scan_build_node(f[0], out[0].children@, avail, (fuel - 1) as nat);
        assert(same_forest(out[0].children@, f[0].children@));
        assert(ks[0].pid == f[0].pid && ks[0].utime == f[0].utime && ks[0].stime == f[0].stime);
        assert(out[0].pid == ks[0].pid && out[0].utime == ks[0].utime && out[0].stime
            == ks[0].stime);
        assert(same_tree(out[0], f[0]));
        assert forall|i: int| 0 <= i < f.drop_first().len() implies (#[trigger] ks.drop_first()[i]).pid
            == f.drop_first()[i].pid && ks.drop_first()[i].utime == f.drop_first()[i].utime
            && ks.drop_first()[i].stime == f.drop_first()[i].stime by {
            assert(ks.drop_first()[i] == ks[i + 1]);
            assert(f.drop_first()[i] == f[i + 1]);
        }
        assert forall|i: int| 0 <= i < f.drop_first().len() implies fuel >= 1 + forest_height(
            (#[trigger] f.drop_first()[i]).children@,
        ) by {
            assert(f.drop_first()[i] == f[i + 1]);
        }
        lemma_scan_build_list(f.drop_first(), ks.drop_first(), out.drop_first(), avail, fuel);
        assert(out.len() == f.len());
    }
}

/// Tree completeness: enumerate a snapshot that reports exactly the
/// processes of a tree with pairwise-distinct pids — whatever its depth or
/// branching — and the scan rebuilds that tree exactly: every descendant
/// appears, none is duplicated, none is missed, and the counters ride
/// along unchanged.
pub proof fn lemma_tree_completeness(t: TreeNode, out: Seq<TreeNode>, fuel: nat)
    requires
        flatten_pids(t).no_duplicates(),
        fuel >= forest_height(t.children@),
        scan_forest_built(t.pid, out, descendant_entries(t), fuel),
    ensures
        same_forest(out, t.children@),
        flatten_forest_pids(out) == flatten_forest_pids(t.children@),
        flatten_forest_pids(out).no_duplicates(),
{
    lemma_table_matches_node(t, descendant_entries(t));
    lemma_scan_build_node(t, out, descendant_entries(t), fuel);
    lemma_same_forest_flatten(out, t.children@);
    lemma_concat_no_dup(seq![t.pid], flatten_forest_pids(t.children@));
}

/// The end-to-end form of tree completeness: a whole rebuilt tree with
/// the right root, built the way [`scan_get_all_processes`] builds it —
/// with the table's own row count as the depth bound — carries exactly
/// the original tree below its root.
pub proof fn lemma_enumeration_rebuilds_tree(t: TreeNode, r: TreeNode)
    requires
        flatten_pids(t).no_duplicates(),
        r.pid == t.pid,
        scan_forest_built(
            t.pid,
            r.children@,
            descendant_entries(t),
            descendant_entries(t).len(),
        ),
    ensures
        same_forest(r.children@, t.children@),
        flatten_pids(r) == flatten_pids(t),
{
    lemma_table_fuel_suffices(t);
    lemma_tree_completeness(t, r.children@, descendant_entries(t).len());
    assert(flatten_pids(r) =~= flatten_pids(t));
}

/// A snapshot of the tree's own descendants always carries enough rows to
/// serve as the scan's depth bound: the tree's height never exceeds its
/// row count.
pub proof fn lemma_table_fuel_suffices(t: TreeNode)
    ensures
        forest_height(t.children@) <= descendant_entries(t).len(),
{
    lemma_height_le_size(t.children@);
}

proof fn lemma_height_le_size(f: Seq<TreeNode>)
    ensures
        forest_height(f) <= f.len() + forest_descendant_entries(f).len(),
    decreases f,
{
    if f.len() > 0 {
        lemma_height_le_size(f[0].children@);
        lemma_height_le_size(f.drop_first());
        assert(descendant_entries(f[0]).len() == f[0].children@.len()
            + forest_descendant_entries(f[0].children@).len());
        assert(forest_descendant_entries(f).len() == descendant_entries(f[0]).len()
            + forest_descendant_entries(f.drop_first()).len());
    }
}

} // verus!
