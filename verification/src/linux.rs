use vstd::prelude::*;

verus! {

use crate::kill::KillSweep;
use crate::proc::{proc_exists, PID};
use crate::text::{
    all_dec_digits, dec_value, parse_u64, starts_with, str_starts_with, ws_split, ws_tokens,
};
use crate::tree::{flatten_pids, TreeNode};

/// What the kernel's per-process interface reported about one pid at the
/// enumeration instant: whether its CPU-time counters could still be read
/// (`has_stat` is false for a process that vanished or whose record was
/// unreadable), the counters themselves, and the pid's direct children as
/// the kernel lists them.
#[derive(Debug)]
pub struct LinuxProcEntry {
    pub pid: PID,
    pub has_stat: bool,
    pub utime: u64,
    pub stime: u64,
    pub children: Vec<PID>,
}

/// The first entry of `avail` for `pid`, if any.
pub open spec fn lookup_spec(avail: Seq<LinuxProcEntry>, pid: PID) -> Option<LinuxProcEntry>
    decreases avail,
{
    if avail.len() == 0 {
        None
    } else if avail[0].pid == pid {
        Some(avail[0])
    } else {
        lookup_spec(avail.drop_first(), pid)
    }
}

/// `out` is exactly the forest that recursive enumeration yields for the
/// child list `kids` against the snapshot `avail`: each listed pid whose
/// record is still readable becomes one node carrying the recorded counters,
/// with its own children built the same way; a pid that has no record, or
/// whose counters could no longer be read, is passed over together with its
/// whole subtree.  `fuel` bounds the depth defensively; one unit is spent
/// per generation.
pub open spec fn linux_children_built(
    kids: Seq<PID>,
    out: Seq<TreeNode>,
    avail: Seq<LinuxProcEntry>,
    fuel: nat,
) -> bool
    decreases fuel, kids.len(),
{
    if fuel == 0 || kids.len() == 0 {
        out.len() == 0
    } else {
        match lookup_spec(avail, kids[0]) {
            None => linux_children_built(kids.drop_first(), out, avail, fuel),
            Some(e) => {
                if !e.has_stat {
                    linux_children_built(kids.drop_first(), out, avail, fuel)
                } else {
                    out.len() > 0 && out[0].pid == e.pid && out[0].utime == e.utime
                        && out[0].stime == e.stime && linux_children_built(
                        e.children@,
                        out[0].children@,
                        avail,
                        (fuel - 1) as nat,
                    ) && linux_children_built(kids.drop_first(), out.drop_first(), avail, fuel)
                }
            },
        }
    }
}

/// `r` is exactly the tree that enumeration rooted at `pid` yields against
/// the snapshot: the root carries its recorded counters (or zeroes when its
/// record is gone), and the forest below it is built per
/// [`linux_children_built`].
pub open spec fn linux_tree_built(pid: PID, r: TreeNode, avail: Seq<LinuxProcEntry>) -> bool {
    r.pid == pid && match lookup_spec(avail, pid) {
        None => r.utime == 0 && r.stime == 0 && r.children@.len() == 0,
        Some(e) => {
            (if e.has_stat {
                r.utime == e.utime && r.stime == e.stime
            } else {
                r.utime == 0 && r.stime == 0
            }) && linux_children_built(e.children@, r.children@, avail, avail.len())
        },
    }
}

fn lookup_entry<'a>(avail: &'a Vec<LinuxProcEntry>, pid: PID) -> (r: Option<&'a LinuxProcEntry>)
    ensures
        match r {
            Some(e) => lookup_spec(avail@, pid) == Some(*e),
            None => lookup_spec(avail@, pid) is None,
        },
{
    let mut i: usize = 0;
    proof {
        assert(avail@.skip(0) =~= avail@);
    }
    while i < avail.len()
        invariant
            0 <= i <= avail@.len(),
            lookup_spec(avail@, pid) == lookup_spec(avail@.skip(i as int), pid),
        decreases avail@.len() - i,
    {
        proof {
            assert(avail@.skip(i as int).drop_first() =~= avail@.skip(i as int + 1));
        }
        if avail[i].pid == pid {
            return Some(&avail[i]);
        }
        i = i + 1;
    }
    proof {
        assert(avail@.skip(avail@.len() as int) =~= Seq::<LinuxProcEntry>::empty());
    }
    None
}

fn linux_build_children(kids: &Vec<PID>, avail: &Vec<LinuxProcEntry>, fuel: usize) -> (r: Vec<
    TreeNode,
>)
    ensures
        linux_children_built(kids@, r@, avail@, fuel as nat),
    decreases fuel,
{
    let mut out: Vec<TreeNode> = Vec::new();
    if fuel == 0 {
        return out;
    }
    let mut i: usize = 0;
    proof {
        assert(kids@.skip(0) =~= kids@);
        assert forall|rest: Seq<TreeNode>|
            linux_children_built(kids@.skip(0), rest, avail@, fuel as nat) implies
            linux_children_built(kids@, out@ + rest, avail@, fuel as nat) by {
            assert(out@ + rest =~= rest);
        }
    }
    while i < kids.len()
        invariant
            0 <= i <= kids@.len(),
            fuel > 0,
            forall|rest: Seq<TreeNode>|
                linux_children_built(kids@.skip(i as int), rest, avail@, fuel as nat)
                    ==> linux_children_built(kids@, out@ + rest, avail@, fuel as nat),
        decreases kids@.len() - i,
    {
        let ghost pre = out@;
        match lookup_entry(avail, kids[i]) {
            None => {},
            Some(e) => {
                if e.has_stat {
                    let sub = linux_build_children(&e.children, avail, fuel - 1);
                    let node = TreeNode {
                        pid: e.pid,
                        utime: e.utime,
                        stime: e.stime,
                        children: sub,
                    };
                    out.push(node);
                }
            },
        }
        proof {
            let ki = kids@.skip(i as int);
            assert(ki[0] == kids@[i as int]);
            assert(ki.drop_first() =~= kids@.skip(i as int + 1));
            assert forall|rest: Seq<TreeNode>|
                linux_children_built(kids@.skip(i as int + 1), rest, avail@, fuel as nat)
                    implies linux_children_built(kids@, out@ + rest, avail@, fuel as nat) by {
                if out@.len() > pre.len() {
                    let node = out@[pre.len() as int];
                    assert((seq![node] + rest).drop_first() =~= rest);
                    assert((seq![node] + rest)[0] == node);
                    assert(linux_children_built(ki, seq![node] + rest, avail@, fuel as nat));
                    assert(out@ + rest =~= pre + (seq![node] + rest));
                } else {
                    assert(out@ == pre);
                    assert(linux_children_built(ki, rest, avail@, fuel as nat));
                }
            }
        }
        i = i + 1;
    }
    proof {
        assert(kids@.skip(kids@.len() as int) =~= Seq::<PID>::empty());
        assert(linux_children_built(
            kids@.skip(kids@.len() as int),
            Seq::<TreeNode>::empty(),
            avail@,
            fuel as nat,
        ));
        assert(out@ + Seq::<TreeNode>::empty() =~= out@);
    }
    out
}

/// Builds the process tree rooted at `pid` from a snapshot of the kernel's
/// per-process records.  A pid listed as a child whose record vanished
/// between listing and reading is omitted rather than failing the build.
pub fn linux_get_all_processes(pid: PID, table: &Vec<LinuxProcEntry>) -> (r: TreeNode)
    ensures
        linux_tree_built(pid, r, table@),
{
    match lookup_entry(table, pid) {
        None => TreeNode { pid, utime: 0, stime: 0, children: Vec::new() },
        Some(e) => {
            let utime = if e.has_stat {
                e.utime
            } else {
                0
            };
            let stime = if e.has_stat {
                e.stime
            } else {
                0
            };
            let children = linux_build_children(&e.children, table, table.len());
            TreeNode { pid, utime, stime, children }
        },
    }
}

/// Primes a best-effort terminate sweep over every process of the tree.
/// The caller delivers the signals and records each outcome; no failure
/// shortens the sweep.
pub fn linux_kill_all_processes(tree: &TreeNode) -> (s: KillSweep)
    ensures
        s.pids@ == flatten_pids(*tree),
        s.next == 0,
        s.first_error is None,
{
    KillSweep::new(tree)
}

/// Whether a process counts as alive, from its reported state (`"Z"` is a
/// zombie: terminated but unreaped, so dead for supervision) or, when no
/// state could be read, from a zero-signal probe.
pub fn linux_proc_exists(state: Option<&String>, probe_ok: bool) -> (r: bool)
    ensures
        r == crate::proc::proc_exists_spec(
            match state {
                Some(s) => Some(s@),
                None => None,
            },
            probe_ok,
        ),
{
    proc_exists(0, state, probe_ok)
}

/// Seconds a process has been running: the machine's uptime less the
/// process's start moment, which the kernel records in clock ticks since
/// boot.
pub fn linux_get_process_runtime(uptime_secs: u64, starttime_ticks: u64, ticks_per_sec: u64) -> (r:
    u64)
    requires
        ticks_per_sec > 0,
    ensures
        r == if uptime_secs >= starttime_ticks / ticks_per_sec {
            uptime_secs - starttime_ticks / ticks_per_sec
        } else {
            0
        },
{
    let started = starttime_ticks / ticks_per_sec;
    if uptime_secs >= started {
        uptime_secs - started
    } else {
        0
    }
}

/// The pid of each root of the forest, in order.
pub open spec fn top_pids(f: Seq<TreeNode>) -> Seq<PID> {
    Seq::new(f.len(), |i: int| f[i].pid)
}

/// `avail` reports, for every node of the tree, exactly that node: its
/// counters as recorded and its children list naming the node's children
/// in order.
pub open spec fn linux_matches_node(t: TreeNode, avail: Seq<LinuxProcEntry>) -> bool
    decreases t,
{
    match lookup_spec(avail, t.pid) {
        Some(e) => e.has_stat && e.utime == t.utime && e.stime == t.stime && e.children@
            == top_pids(t.children@) && linux_matches_forest(t.children@, avail),
        None => false,
    }
}

pub open spec fn linux_matches_forest(f: Seq<TreeNode>, avail: Seq<LinuxProcEntry>) -> bool
    decreases f,
{
    f.len() == 0 || (linux_matches_node(f[0], avail) && linux_matches_forest(
        f.drop_first(),
        avail,
    ))
}

proof fn lemma_lookup_pid(avail: Seq<LinuxProcEntry>, pid: PID)
    ensures
        lookup_spec(avail, pid) is Some ==> lookup_spec(avail, pid)->0.pid == pid,
    decreases avail,
{
    if avail.len() > 0 && avail[0].pid != pid {
        lemma_lookup_pid(avail.drop_first(), pid);
    }
}

proof fn lemma_linux_build_exact(
    f: Seq<TreeNode>,
    kids: Seq<PID>,
    out: Seq<TreeNode>,
    avail: Seq<LinuxProcEntry>,
    fuel: nat,
)
    requires
        kids == top_pids(f),
        linux_matches_forest(f, avail),
        linux_children_built(kids, out, avail, fuel),
        fuel >= crate::enumerate::forest_height(f),
    ensures
        crate::enumerate::same_forest(out, f),
    decreases f,
{
    if f.len() == 0 {
        assert(out.len() == 0);
    } else {
        crate::enumerate::lemma_forest_height_at(f, 0);
        assert(fuel >= 1);
        assert(kids[0] == f[0].pid);
        lemma_lookup_pid(avail, f[0].pid);
        assert(linux_matches_node(f[0], avail));
        assert(lookup_spec(avail, f[0].pid) is Some);
        let e = lookup_spec(avail, kids[0])->0;
        assert(e.has_stat);
        assert(out.len() > 0);
        assert(out[0].pid == e.pid && out[0].utime == e.utime && out[0].stime == e.stime);
        assert(linux_children_built(e.children@, out[0].children@, avail, (fuel - 1) as nat));
        lemma_linux_build_exact(
            f[0].children@,
            e.children@,
            out[0].children@,
            avail,
            (fuel - 1) as nat,
        );
        assert(crate::enumerate::same_tree(out[0], f[0]));
        assert(kids.drop_first() =~= top_pids(f.drop_first())) by {
            assert forall|j: int| 0 <= j < f.len() - 1 implies kids.drop_first()[j] == top_pids(
                f.drop_first(),
            )[j] by {
                assert(kids.drop_first()[j] == kids[j + 1]);
                assert(f.drop_first()[j] == f[j + 1]);
            }
        }
        assert forall|j: int|
            0 <= j < f.drop_first().len() implies fuel >= 1 + crate::enumerate::forest_height(
            (#[trigger] f.drop_first()[j]).children@,
        ) by {
            assert(f.drop_first()[j] == f[j + 1]);
            crate::enumerate::lemma_forest_height_at(f, j + 1);
        }
        lemma_linux_build_exact(f.drop_first(), kids.drop_first(), out.drop_first(), avail, fuel);
        assert(out.len() == f.len());
    }
}

/// Tree completeness for enumeration through the kernel's children lists:
/// whatever the tree's depth or branching, a snapshot that reports for
/// every node exactly its recorded counters and its children rebuilds
/// that tree exactly — every descendant once, none missed, in order.
pub proof fn lemma_linux_tree_completeness(
    t: TreeNode,
    r: TreeNode,
    avail: Seq<LinuxProcEntry>,
    fuel: nat,
)
    requires
        linux_matches_node(t, avail),
        fuel >= crate::enumerate::forest_height(t.children@),
        r.pid == t.pid,
        linux_children_built(top_pids(t.children@), r.children@, avail, fuel),
    ensures
        crate::enumerate::same_forest(r.children@, t.children@),
        flatten_pids(r).drop_first() == flatten_pids(t).drop_first(),
{
    lemma_linux_build_exact(t.children@, top_pids(t.children@), r.children@, avail, fuel);
    crate::enumerate::lemma_same_forest_flatten(r.children@, t.children@);
    assert(flatten_pids(r).drop_first() =~= crate::tree::flatten_forest_pids(r.children@));
    assert(flatten_pids(t).drop_first() =~= crate::tree::flatten_forest_pids(t.children@));
}

pub open spec fn starts_paren(t: Seq<char>) -> bool {
    t.len() > 0 && t[0] == '('
}

pub open spec fn ends_paren(t: Seq<char>) -> bool {
    t.len() > 0 && t.last() == ')'
}

/// The index of the first token that closes a parenthesized group.
pub open spec fn find_close(ts: Seq<Seq<char>>) -> Option<int>
    decreases ts,
{
    if ts.len() == 0 {
        None
    } else if ends_paren(ts[0]) {
        Some(0)
    } else {
        match find_close(ts.drop_first()) {
            Some(k) => Some(k + 1),
            None => None,
        }
    }
}

pub proof fn lemma_find_close(ts: Seq<Seq<char>>)
    ensures
        match find_close(ts) {
            Some(k) => 0 <= k < ts.len() && ends_paren(ts[k]) && forall|j: int|
                0 <= j < k ==> !ends_paren(#[trigger] ts[j]),
            None => forall|j: int| 0 <= j < ts.len() ==> !ends_paren(#[trigger] ts[j]),
        },
    decreases ts,
{
    if ts.len() > 0 && !ends_paren(ts[0]) {
        lemma_find_close(ts.drop_first());
        match find_close(ts.drop_first()) {
            Some(k) => {
                assert(ts.drop_first()[k] == ts[k + 1]);
                assert forall|j: int| 0 <= j < k + 1 implies !ends_paren(#[trigger] ts[j]) by {
                    if j > 0 {
                        assert(ts.drop_first()[j - 1] == ts[j]);
                    }
                }
            },
            None => {
                assert forall|j: int| 0 <= j < ts.len() implies !ends_paren(#[trigger] ts[j]) by {
                    if j > 0 {
                        assert(ts.drop_first()[j - 1] == ts[j]);
                    }
                }
            },
        }
    }
}

/// All the group's tokens run together, without separators.
pub open spec fn concat_tokens(ts: Seq<Seq<char>>) -> Seq<char>
    decreases ts,
{
    if ts.len() == 0 {
        Seq::empty()
    } else {
        ts[0] + concat_tokens(ts.drop_first())
    }
}

/// The whitespace tokens of a kernel per-process record with the
/// parenthesized command-name group run together into one token, so the
/// numbered fields after it keep their positions.  A group that never
/// closes is dropped.
pub open spec fn merge_brackets(ts: Seq<Seq<char>>) -> Seq<Seq<char>>
    decreases ts.len(),
{
    if ts.len() == 0 {
        Seq::empty()
    } else if !starts_paren(ts[0]) {
        seq![ts[0]] + merge_brackets(ts.drop_first())
    } else {
        proof {
            lemma_find_close(ts);
        }
        match find_close(ts) {
            None => Seq::empty(),
            Some(k) => seq![concat_tokens(ts.take(k + 1))] + merge_brackets(ts.skip(k + 1)),
        }
    }
}

proof fn lemma_concat_tokens_take(ts: Seq<Seq<char>>, i: int)
    requires
        0 <= i < ts.len(),
    ensures
        concat_tokens(ts.take(i + 1)) == concat_tokens(ts.take(i)) + ts[i],
    decreases ts,
{
    let pre = ts.take(i + 1);
    if i == 0 {
        reveal_with_fuel(concat_tokens, 2);
        assert(pre.len() == 1);
        assert(pre[0] == ts[0]);
        assert(pre.drop_first() =~= Seq::<Seq<char>>::empty());
        assert(ts.take(0) =~= Seq::<Seq<char>>::empty());
        assert(concat_tokens(pre) =~= concat_tokens(ts.take(0)) + ts[0]);
    } else {
        lemma_concat_tokens_take(ts.drop_first(), i - 1);
        assert(pre.drop_first() =~= ts.drop_first().take(i));
        assert(ts.take(i).drop_first() =~= ts.drop_first().take(i - 1));
        assert(ts.drop_first()[i - 1] == ts[i]);
        assert(pre[0] == ts[0]);
        assert(ts.take(i)[0] == ts[0]);
        assert(concat_tokens(ts.take(i + 1)) =~= concat_tokens(ts.take(i)) + ts[i]);
    }
}

fn merge_stat_tokens(tokens: &Vec<String>) -> (r: Vec<String>)
    ensures
        r.deep_view() == merge_brackets(tokens.deep_view()),
{
    let ghost tm = tokens.deep_view();
    let mut out: Vec<String> = Vec::new();
    let mut i: usize = 0;
    let n = tokens.len();
    proof {
        assert(tm.skip(0) =~= tm);
        assert(out.deep_view() =~= Seq::<Seq<char>>::empty());
    }
    while i < n
        invariant
            0 <= i <= n,
            n == tokens@.len(),
            tm == tokens.deep_view(),
            tm.len() == n,
            merge_brackets(tm) == out.deep_view() + merge_brackets(tm.skip(i as int)),
        decreases n - i,
    {
        let ghost rest = tm.skip(i as int);
        proof {
            assert(rest[0] == tm[i as int]);
            assert(rest.drop_first() =~= tm.skip(i as int + 1));
        }
        let tok = &tokens[i];
        let tn = tok.as_str().unicode_len();
        let opens = tn > 0 && tok.as_str().get_char(0) == '(';
        if !opens {
            out.push(tok.clone());
            proof {
                assert(out.deep_view() =~= out.deep_view().drop_last().push(tok@));
                assert(merge_brackets(rest) == seq![rest[0]] + merge_brackets(rest.drop_first()));
            }
            i = i + 1;
        } else {
            // scan for the token that closes the group
            let mut j = i;
            while j < n
                invariant
                    i <= j <= n,
                    n == tokens@.len(),
                    tm == tokens.deep_view(),
                    tm.len() == n,
                    forall|k: int| i <= k < j ==> !ends_paren(#[trigger] tm[k]),
                ensures
                    i <= j <= n,
                    forall|k: int| i <= k < j ==> !ends_paren(#[trigger] tm[k]),
                    j < n ==> ends_paren(tm[j as int]),
                decreases n - j,
            {
                let t = &tokens[j];
                let len_t = t.as_str().unicode_len();
                if len_t > 0 && t.as_str().get_char(len_t - 1) == ')' {
                    proof {
                        assert(tm[j as int].last() == t@[len_t - 1]);
                    }
                    break;
                }
                proof {
                    assert(tm[j as int] == tokens@[j as int]@);
                }
                j = j + 1;
            }
            proof {
                lemma_find_close(rest);
                if j < n {
                    assert(rest[j - i] == tm[j as int]);
                    assert(ends_paren(rest[j - i]));
                    assert forall|k: int| 0 <= k < j - i implies !ends_paren(
                        #[trigger] rest[k],
                    ) by {
                        assert(rest[k] == tm[i + k]);
                    }
                    assert(find_close(rest) == Some(j - i)) by {
                        match find_close(rest) {
                            Some(fc) => {
                                if fc < j - i {
                                    assert(!ends_paren(rest[fc]));
                                }
                                if fc > j - i {
                                    assert(!ends_paren(rest[j - i]));
                                }
                            },
                            None => {
                                assert(!ends_paren(rest[j - i]));
                            },
                        }
                    }
                } else {
                    assert forall|k: int| 0 <= k < rest.len() implies !ends_paren(
                        #[trigger] rest[k],
                    ) by {
                        assert(rest[k] == tm[i + k]);
                    }
                    assert(find_close(rest) is None) by {
                        match find_close(rest) {
                            Some(fc) => {
                                assert(!ends_paren(rest[fc]));
                            },
                            None => {},
                        }
                    }
                }
            }
            if j >= n {
                // the group never closes; everything left is dropped
                proof {
                    assert(merge_brackets(rest) =~= Seq::<Seq<char>>::empty());
                    assert(out.deep_view() + Seq::<Seq<char>>::empty() =~= out.deep_view());
                }
                return out;
            }
            let mut value = String::new();
            let mut k = i;
            proof {
                assert(rest.take(0) =~= Seq::<Seq<char>>::empty());
                assert(value@ =~= concat_tokens(rest.take(0)));
            }
            while k <= j
                invariant
                    i <= k <= j + 1,
                    j < n,
                    n == tokens@.len(),
                    tm == tokens.deep_view(),
                    tm.len() == n,
                    rest == tm.skip(i as int),
                    value@ == concat_tokens(rest.take(k - i)),
                decreases j + 1 - k,
            {
                value.append(tokens[k].as_str());
                proof {
                    lemma_concat_tokens_take(rest, k - i);
                    assert(rest[k - i] == tm[k as int]);
                }
                k = k + 1;
            }
            out.push(value);
            proof {
                assert(out.deep_view() =~= out.deep_view().drop_last().push(
                    concat_tokens(rest.take(j - i + 1)),
                ));
                assert(merge_brackets(rest) == seq![concat_tokens(rest.take(j - i + 1))]
                    + merge_brackets(rest.skip(j - i + 1)));
                assert(tm.skip(j as int + 1) =~= rest.skip(j - i + 1));
            }
            i = j + 1;
        }
    }
    proof {
        assert(tm.skip(n as int) =~= Seq::<Seq<char>>::empty());
        assert(merge_brackets(tm.skip(n as int)) =~= Seq::<Seq<char>>::empty());
        assert(out.deep_view() + Seq::<Seq<char>>::empty() =~= out.deep_view());
    }
    out
}

/// The fields of a kernel per-process record: its text split on
/// whitespace, with the parenthesized command name as one field.
pub open spec fn stat_fields(s: Seq<char>) -> Seq<Seq<char>> {
    merge_brackets(ws_tokens(s))
}

/// Splits the text of a kernel per-process record into its fields, the
/// parenthesized command name merged into one, so the CPU-time counters
/// and the start time keep their documented positions.
pub fn linux_get_process_stats(contents: &str) -> (r: Vec<String>)
    ensures
        r.deep_view() == stat_fields(contents@),
{
    let tokens = ws_split(contents);
    merge_stat_tokens(&tokens)
}

/// The index of the first newline of `s`, or its length.
pub open spec fn first_newline(s: Seq<char>) -> int
    decreases s,
{
    if s.len() == 0 {
        0
    } else if s[0] == '\n' {
        0
    } else {
        1 + first_newline(s.drop_first())
    }
}

pub proof fn lemma_first_newline(s: Seq<char>)
    ensures
        0 <= first_newline(s) <= s.len(),
        forall|j: int| 0 <= j < first_newline(s) ==> s[j] != '\n',
        first_newline(s) < s.len() ==> s[first_newline(s)] == '\n',
    decreases s,
{
    if s.len() > 0 && s[0] != '\n' {
        lemma_first_newline(s.drop_first());
        assert forall|j: int| 0 <= j < first_newline(s) implies s[j] != '\n' by {
            if j > 0 {
                assert(s.drop_first()[j - 1] == s[j]);
            }
        }
        if first_newline(s) < s.len() {
            assert(s.drop_first()[first_newline(s) - 1] == s[first_newline(s)]);
        }
    }
}

fn scan_newline(s: &str, from: usize) -> (r: usize)
    requires
        from <= s@.len(),
    ensures
        from <= r <= s@.len(),
        r - from == first_newline(s@.skip(from as int)),
{
    let n = s.unicode_len();
    let mut j = from;
    while j < n
        invariant
            from <= j <= n,
            n == s@.len(),
            forall|k: int| from <= k < j ==> s@[k] != '\n',
        ensures
            from <= j <= n,
            forall|k: int| from <= k < j ==> s@[k] != '\n',
            j < n ==> s@[j as int] == '\n',
        decreases n - j,
    {
        if s.get_char(j) == '\n' {
            break;
        }
        j = j + 1;
    }
    proof {
        let rest = s@.skip(from as int);
        lemma_first_newline(rest);
        assert forall|k: int| 0 <= k < j - from implies rest[k] != '\n' by {
            assert(rest[k] == s@[from + k]);
        }
        if (j as int) < s@.len() {
            assert(rest[j - from] == s@[j as int]);
        }
        assert(first_newline(rest) == j - from) by {
            if first_newline(rest) < j - from {
                assert(rest[first_newline(rest)] == '\n');
            }
            if j - from < first_newline(rest) {
                assert(rest[j - from] != '\n');
            }
        }
    }
    j
}

/// The second whitespace field of the first line that begins with
/// `prefix`, if such a line with such a field exists.
pub open spec fn status_field_spec(s: Seq<char>, prefix: Seq<char>) -> Option<Seq<char>>
    decreases s.len(),
{
    if s.len() == 0 {
        None
    } else {
        let nl = first_newline(s);
        let line = s.take(nl);
        if starts_with(line, prefix) {
            let toks = ws_tokens(line);
            if toks.len() >= 2 {
                Some(toks[1])
            } else {
                None
            }
        } else if nl >= s.len() {
            None
        } else {
            proof {
                lemma_first_newline(s);
            }
            status_field_spec(s.skip(nl + 1), prefix)
        }
    }
}

/// Finds, in a kernel status text, the value field of the first line that
/// begins with `prefix`.
pub fn status_field(contents: &str, prefix: &str) -> (r: Option<String>)
    ensures
        match r {
            Some(v) => status_field_spec(contents@, prefix@) == Some(v@),
            None => status_field_spec(contents@, prefix@) is None,
        },
{
    let n = contents.unicode_len();
    let mut p: usize = 0;
    proof {
        assert(contents@.skip(0) =~= contents@);
    }
    while p < n
        invariant
            0 <= p <= n,
            n == contents@.len(),
            status_field_spec(contents@, prefix@) == status_field_spec(
                contents@.skip(p as int),
                prefix@,
            ),
        decreases n - p,
    {
        let ghost rest = contents@.skip(p as int);
        let nl = scan_newline(contents, p);
        let line = contents.substring_char(p, nl);
        proof {
            assert(line@ =~= rest.take(first_newline(rest)));
        }
        if str_starts_with(line, prefix) {
            let toks = ws_split(line);
            if toks.len() >= 2 {
                let v = toks[1].clone();
                proof {
                    assert(toks.deep_view()[1] == toks@[1]@);
                }
                return Some(v);
            } else {
                return None;
            }
        }
        if nl >= n {
            proof {
                assert(first_newline(rest) >= rest.len());
            }
            return None;
        }
        proof {
            assert(contents@.skip(nl as int + 1) =~= rest.skip(first_newline(rest) + 1));
        }
        p = nl + 1;
    }
    proof {
        assert(contents@.skip(n as int) =~= Seq::<char>::empty());
    }
    None
}

/// The one-letter process state from a kernel status text, `"Z"` marking a
/// zombie.
pub fn linux_get_process_state(contents: &str) -> (r: Option<String>)
    ensures
        match r {
            Some(v) => status_field_spec(contents@, "State"@) == Some(v@),
            None => status_field_spec(contents@, "State"@) is None,
        },
{
    status_field(contents, "State")
}

/// The resident memory figure, in kilobytes, from a kernel status text.
pub fn linux_get_process_memory(contents: &str) -> (r: Option<u64>)
    ensures
        r is Some <==> (match status_field_spec(contents@, "VmRSS"@) {
            Some(v) => v.len() > 0 && all_dec_digits(v) && dec_value(v) <= u64::MAX,
            None => false,
        }),
        r is Some ==> r->0 == dec_value(status_field_spec(contents@, "VmRSS"@)->0),
{
    match status_field(contents, "VmRSS") {
        Some(v) => parse_u64(v.as_str()),
        None => None,
    }
}

/// The machine-wide cumulative CPU-time fields: the first line of the
/// kernel's counter text, split on whitespace.
pub fn linux_get_cpu_stats(contents: &str) -> (r: Vec<String>)
    ensures
        r.deep_view() == ws_tokens(contents@.take(first_newline(contents@))),
{
    let nl = scan_newline(contents, 0);
    let line = contents.substring_char(0, nl);
    proof {
        assert(contents@.skip(0) =~= contents@);
        assert(line@ =~= contents@.take(first_newline(contents@)));
    }
    ws_split(line)
}

} // verus!
