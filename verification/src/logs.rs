use vstd::prelude::*;

verus! {

use vstd::seq_lib::lemma_multiset_commutative;
use crate::args::ParsedArgs;
use crate::error::MultErrorTuple;
use vstd::multiset::Multiset;
use crate::text::{all_dec_digits, dec_seq, dec_value, is_dec_digit, parse_u64, u64_to_string};

/// One log line with the emission moment its writer stamped on it.
#[derive(Debug)]
pub struct Log {
    pub time_millis: u64,
    pub content: String,
}

/// The index of the first `'|'` of `s`, or its length when there is none.
pub open spec fn first_pipe(s: Seq<char>) -> int
    decreases s,
{
    if s.len() == 0 {
        0
    } else if s[0] == '|' {
        0
    } else {
        1 + first_pipe(s.drop_first())
    }
}

proof fn lemma_first_pipe(s: Seq<char>)
    ensures
        0 <= first_pipe(s) <= s.len(),
        forall|j: int| 0 <= j < first_pipe(s) ==> s[j] != '|',
        first_pipe(s) < s.len() ==> s[first_pipe(s)] == '|',
    decreases s,
{
    if s.len() > 0 && s[0] != '|' {
        lemma_first_pipe(s.drop_first());
        assert forall|j: int| 0 <= j < first_pipe(s) implies s[j] != '|' by {
            if j > 0 {
                assert(s.drop_first()[j - 1] == s[j]);
            }
        }
        if first_pipe(s) < s.len() {
            assert(s.drop_first()[first_pipe(s) - 1] == s[first_pipe(s)]);
        }
    }
}

/// Splits a log line at its first `'|'` into the timestamp text and the
/// content, or `None` for a line without the separator.
pub fn split_log_line(line: &str) -> (r: Option<(String, String)>)
    ensures
        r is Some <==> first_pipe(line@) < line@.len(),
        r is Some ==> (r->0).0@ == line@.take(first_pipe(line@)) && (r->0).1@ == line@.skip(
            first_pipe(line@) + 1,
        ),
{
    let n = line.unicode_len();
    let mut i: usize = 0;
    proof {
        lemma_first_pipe(line@);
    }
    while i < n
        invariant
            0 <= i <= n,
            n == line@.len(),
            forall|j: int| 0 <= j < i ==> line@[j] != '|',
        ensures
            0 <= i <= n,
            forall|j: int| 0 <= j < i ==> line@[j] != '|',
            i < n ==> line@[i as int] == '|',
        decreases n - i,
    {
        if line.get_char(i) == '|' {
            break;
        }
        i = i + 1;
    }
    proof {
        lemma_first_pipe(line@);
        assert(first_pipe(line@) == i) by {
            if first_pipe(line@) < i {
                assert(line@[first_pipe(line@)] == '|');
            }
            if (i as int) < first_pipe(line@) {
                assert(line@[i as int] != '|');
            }
        }
    }
    if i >= n {
        return None;
    }
    let time_part = line.substring_char(0, i);
    let content_part = line.substring_char(i + 1, n);
    Some((time_part.to_owned(), content_part.to_owned()))
}

/// One line of the log file format: the emission moment in milliseconds,
/// the separator, the content, a newline.
pub open spec fn log_line_spec(now_millis: nat, content: Seq<char>) -> Seq<char> {
    dec_seq(now_millis) + "|"@ + content + "\n"@
}

/// Writes a captured output line with its timestamp, ready for the log
/// file.
pub fn format_log_line(now_millis: u64, content: &str) -> (r: String)
    ensures
        r@ == log_line_spec(now_millis as nat, content@),
{
    let mut s = u64_to_string(now_millis);
    s.append("|");
    s.append(content);
    s.append("\n");
    s
}

/// A formatted log line always splits back into its own timestamp text
/// and its content (with the closing newline), and the timestamp text
/// reads back as the very moment that was written: the log framing loses
/// nothing.
pub proof fn lemma_log_line_round_trip(now_millis: u64, content: Seq<char>)
    ensures
        ({
            let line = log_line_spec(now_millis as nat, content);
            &&& first_pipe(line) == dec_seq(now_millis as nat).len()
            &&& first_pipe(line) < line.len()
            &&& line.take(first_pipe(line)) == dec_seq(now_millis as nat)
            &&& line.skip(first_pipe(line) + 1) == content + "\n"@
            &&& all_dec_digits(line.take(first_pipe(line)))
            &&& dec_value(line.take(first_pipe(line))) == now_millis
        }),
{
    crate::text::lemma_dec_seq_value(now_millis as nat);
    let d = dec_seq(now_millis as nat);
    let line = log_line_spec(now_millis as nat, content);
    reveal_strlit("|");
    reveal_strlit("\n");
    lemma_first_pipe(line);
    assert(line[d.len() as int] == '|');
    assert forall|j: int| 0 <= j < d.len() implies line[j] != '|' by {
        assert(line[j] == d[j]);
        assert(is_dec_digit(d[j]));
    }
    assert(first_pipe(line) == d.len()) by {
        lemma_first_pipe(line);
        if first_pipe(line) < d.len() {
            assert(line[first_pipe(line)] == '|');
        }
        if first_pipe(line) > d.len() {
            assert(line[d.len() as int] != '|');
        }
    }
    assert(line.take(first_pipe(line)) =~= d);
    assert(line.skip(first_pipe(line) + 1) =~= content + "\n"@);
}

/// The `(time, content)` pairs of the first `n` lines that carry a `'|'`
/// separator and a timestamp that reads as a number, in file order.
pub open spec fn parsed_logs_upto(lines: Seq<Seq<char>>, n: int) -> Seq<(u64, Seq<char>)>
    decreases n,
{
    if n <= 0 {
        Seq::empty()
    } else {
        parsed_logs_upto(lines, n - 1) + ({
            let l = lines[n - 1];
            let k = first_pipe(l);
            if k < l.len() && l.take(k).len() > 0 && all_dec_digits(l.take(k)) && dec_value(
                l.take(k),
            ) <= u64::MAX {
                seq![(dec_value(l.take(k)) as u64, l.skip(k + 1))]
            } else {
                Seq::<(u64, Seq<char>)>::empty()
            }
        })
    }
}

/// The scalar model of a list of logs.
pub open spec fn log_model(s: Seq<Log>) -> Seq<(u64, Seq<char>)> {
    Seq::new(s.len(), |i: int| (s[i].time_millis, s[i].content@))
}

/// True when the logs stand in emission order.
pub open spec fn logs_sorted(s: Seq<Log>) -> bool {
    forall|i: int, j: int|
        0 <= i < j < s.len() ==> (#[trigger] s[i]).time_millis <= (#[trigger] s[j]).time_millis
}

proof fn lemma_insert_multiset<A>(s: Seq<A>, i: int, e: A)
    requires
        0 <= i <= s.len(),
    ensures
        s.insert(i, e).to_multiset() == s.to_multiset().insert(e),
{
    broadcast use vstd::seq_lib::group_to_multiset_ensures;

    let left = s.take(i);
    let right = s.skip(i);
    assert(s.insert(i, e) =~= left + (seq![e] + right));
    lemma_multiset_commutative(left, seq![e] + right);
    lemma_multiset_commutative(seq![e], right);
    assert(s =~= left + right);
    lemma_multiset_commutative(left, right);
    assert(seq![e] =~= Seq::<A>::empty().push(e));
    assert(seq![e].to_multiset() =~= Multiset::<A>::empty().insert(e));
    assert(s.insert(i, e).to_multiset() =~= s.to_multiset().insert(e));
}

/// Orders the timestamped lines of the two captured streams by their true
/// emission moment.  A line without the separator, or whose timestamp does
/// not read as a number, is passed over; every other line is kept — the
/// result holds exactly the parseable lines, sorted by time.
pub fn sort_last_lines(lines: &Vec<String>) -> (r: Result<Vec<Log>, MultErrorTuple>)
    ensures
        r is Ok,
        logs_sorted(r->Ok_0@),
        log_model(r->Ok_0@).to_multiset() == parsed_logs_upto(
            lines.deep_view(),
            lines.deep_view().len() as int,
        ).to_multiset(),
{
    let ghost lm = lines.deep_view();
    let mut out: Vec<Log> = Vec::new();
    let mut i: usize = 0;
    proof {
        broadcast use vstd::seq_lib::group_to_multiset_ensures;

        assert(log_model(out@) =~= Seq::<(u64, Seq<char>)>::empty());
    }
    while i < lines.len()
        invariant
            0 <= i <= lines@.len(),
            lm == lines.deep_view(),
            lm.len() == lines@.len(),
            logs_sorted(out@),
            log_model(out@).to_multiset() == parsed_logs_upto(lm, i as int).to_multiset(),
        decreases lines@.len() - i,
    {
        let ghost pre_model = log_model(out@);
        let line = &lines[i];
        proof {
            assert(lm[i as int] == lines@[i as int]@);
        }
        match split_log_line(line.as_str()) {
            None => {
                proof {
                    assert(parsed_logs_upto(lm, i as int + 1) =~= parsed_logs_upto(lm, i as int));
                }
            },
            Some((time_str, content)) => {
                match parse_u64(time_str.as_str()) {
                    None => {
                        proof {
                            assert(parsed_logs_upto(lm, i as int + 1) =~= parsed_logs_upto(
                                lm,
                                i as int,
                            ));
                        }
                    },
                    Some(t) => {
                        let entry = Log { time_millis: t, content };
                        let mut pos: usize = 0;
                        while pos < out.len() && out[pos].time_millis <= t
                            invariant
                                0 <= pos <= out@.len(),
                                forall|k: int|
                                    0 <= k < pos ==> (#[trigger] out@[k]).time_millis <= t,
                            decreases out@.len() - pos,
                        {
                            pos = pos + 1;
                        }
                        let ghost pre = out@;
                        out.insert(pos, entry);
                        proof {
                            broadcast use vstd::seq_lib::group_to_multiset_ensures;

                            assert(out@ == pre.insert(pos as int, entry));
                            assert forall|a: int, b: int| 0 <= a < b < out@.len() implies (
                            #[trigger] out@[a]).time_millis <= (#[trigger] out@[b]).time_millis by {
                                if b < pos {
                                    assert(out@[a] == pre[a] && out@[b] == pre[b]);
                                } else if a > pos {
                                    assert(out@[a] == pre[a - 1] && out@[b] == pre[b - 1]);
                                } else if a == pos {
                                    assert(out@[b] == pre[b - 1]);
                                    assert(pre[b - 1].time_millis > t);
                                } else if b == pos {
                                    assert(out@[a] == pre[a]);
                                } else {
                                    assert(a < pos && b > pos);
                                    assert(out@[a] == pre[a] && out@[b] == pre[b - 1]);
                                    assert(pre[a].time_millis <= t);
                                    assert(pre[b - 1].time_millis > t);
                                }
                            }
                            assert(log_model(out@) =~= log_model(pre).insert(
                                pos as int,
                                (t, entry.content@),
                            ));
                            lemma_insert_multiset(log_model(pre), pos as int, (t, entry.content@));
                            assert(parsed_logs_upto(lm, i as int + 1) =~= parsed_logs_upto(
                                lm,
                                i as int,
                            ).push((t, entry.content@)));
                        }
                    },
                }
            },
        }
        i = i + 1;
    }
    proof {
        assert(lm.len() as int == lines@.len() as int);
    }
    Ok(out)
}

/// How many closing lines of the logs to print: the `-l` flag's value
/// where it reads as a number, else fifteen.
pub fn get_last_lines_to_print(parsed_args: &ParsedArgs) -> (r: Result<usize, MultErrorTuple>)
    ensures
        r is Ok,
        r->Ok_0 == last_lines_spec(parsed_args.value_flags.deep_view()),
{
    let mut last_lines: usize = 15;
    match crate::args::find_value_flag_ref(&parsed_args.value_flags, "-l") {
        None => {},
        Some(vf) => match &vf.1 {
            None => {},
            Some(v) => {
                match crate::text::parse_usize(v.as_str()) {
                    None => {},
                    Some(n) => {
                        last_lines = n;
                    },
                }
            },
        },
    }
    Ok(last_lines)
}

/// The line count the `-l` flag asks for, else the default of fifteen.
pub open spec fn last_lines_spec(vfs: Seq<(Seq<char>, Option<Seq<char>>)>) -> int {
    match crate::args::find_value_flag(vfs, "-l"@) {
        None => 15,
        Some(vf) => match vf.1 {
            None => 15,
            Some(v) => if v.len() > 0 && all_dec_digits(v) && dec_value(v) <= usize::MAX {
                dec_value(v) as int
            } else {
                15
            },
        },
    }
}

} // verus!
