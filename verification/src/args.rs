use vstd::prelude::*;

verus! {

use crate::error::{MultError, MultErrorTuple};
use crate::proc::ForkFlagTuple;
use crate::text::{
    dec_value, is_dec_digit, is_signed_dec, parse_i32, parse_u64, signed_value, str_eq,
};

/// The command line split into bare flags, flags that carry a value, and
/// plain values, in the order given.
#[derive(Debug)]
pub struct ParsedArgs {
    pub flags: Vec<String>,
    pub value_flags: Vec<(String, Option<String>)>,
    pub values: Vec<String>,
}

pub const MEMORY_LIMIT_FLAG: &'static str = "-m";

pub const CPU_LIMIT_FLAG: &'static str = "-c";

pub const INTERACTIVE_FLAG: &'static str = "-i";

/// The recognized flags as plain values: name and whether a value follows.
pub open spec fn flags_model(flags: Seq<(&str, bool)>) -> Seq<(Seq<char>, bool)> {
    Seq::new(flags.len(), |i: int| (flags[i].0@, flags[i].1))
}

/// The first recognized flag matching `arg`, with its takes-a-value mark.
pub open spec fn flag_lookup(flags: Seq<(Seq<char>, bool)>, arg: Seq<char>) -> Option<bool>
    decreases flags,
{
    if flags.len() == 0 {
        None
    } else if flags[0].0 == arg {
        Some(flags[0].1)
    } else {
        flag_lookup(flags.drop_first(), arg)
    }
}

/// The parse result as plain sequences.
pub struct ParsedModel {
    pub flags: Seq<Seq<char>>,
    pub value_flags: Seq<(Seq<char>, Option<Seq<char>>)>,
    pub values: Seq<Seq<char>>,
}

/// True when parsing from position `i` never looks for a value beyond the
/// end of the arguments — a flag that takes a value must not stand last.
pub open spec fn parse_ok(
    args: Seq<Seq<char>>,
    flags: Seq<(Seq<char>, bool)>,
    allow_values: bool,
    i: int,
) -> bool
    decreases args.len() - i,
{
    if i < 0 || i >= args.len() {
        true
    } else {
        match flag_lookup(flags, args[i]) {
            Some(true) => i + 1 < args.len() && parse_ok(args, flags, allow_values, i + 2),
            Some(false) => parse_ok(args, flags, allow_values, i + 1),
            None => !allow_values || parse_ok(args, flags, allow_values, i + 1),
        }
    }
}

/// What parsing from position `i` yields: the split argument lists, or the
/// first argument that is neither a recognized flag nor allowed as a
/// value.
pub open spec fn parse_result(
    args: Seq<Seq<char>>,
    flags: Seq<(Seq<char>, bool)>,
    allow_values: bool,
    i: int,
) -> Result<ParsedModel, Seq<char>>
    decreases args.len() - i,
{
    if i < 0 || i >= args.len() {
        Ok(ParsedModel { flags: Seq::empty(), value_flags: Seq::empty(), values: Seq::empty() })
    } else {
        match flag_lookup(flags, args[i]) {
            Some(true) => {
                if i + 1 < args.len() {
                    match parse_result(args, flags, allow_values, i + 2) {
                        Err(e) => Err(e),
                        Ok(m) => Ok(
                            ParsedModel {
                                flags: m.flags,
                                value_flags: seq![(args[i], Some(args[i + 1]))] + m.value_flags,
                                values: m.values,
                            },
                        ),
                    }
                } else {
                    Err(args[i])
                }
            },
            Some(false) => {
                match parse_result(args, flags, allow_values, i + 1) {
                    Err(e) => Err(e),
                    Ok(m) => Ok(
                        ParsedModel {
                            flags: seq![args[i]] + m.flags,
                            value_flags: m.value_flags,
                            values: m.values,
                        },
                    ),
                }
            },
            None => {
                if allow_values {
                    match parse_result(args, flags, allow_values, i + 1) {
                        Err(e) => Err(e),
                        Ok(m) => Ok(
                            ParsedModel {
                                flags: m.flags,
                                value_flags: m.value_flags,
                                values: seq![args[i]] + m.values,
                            },
                        ),
                    }
                } else {
                    Err(args[i])
                }
            },
        }
    }
}

fn find_flag(flags: &[(&str, bool)], arg: &String) -> (r: Option<bool>)
    ensures
        r == flag_lookup(flags_model(flags@), arg@),
{
    let ghost model = flags_model(flags@);
    let mut j: usize = 0;
    proof {
        assert(model.skip(0) =~= model);
    }
    while j < flags.len()
        invariant
            0 <= j <= flags@.len(),
            model == flags_model(flags@),
            model.len() == flags@.len(),
            flag_lookup(model, arg@) == flag_lookup(model.skip(j as int), arg@),
        decreases flags@.len() - j,
    {
        proof {
            assert(model.skip(j as int)[0] == model[j as int]);
            assert(model.skip(j as int).drop_first() =~= model.skip(j as int + 1));
        }
        if str_eq(flags[j].0, arg.as_str()) {
            return Some(flags[j].1);
        }
        j = j + 1;
    }
    proof {
        assert(model.skip(model.len() as int) =~= Seq::<(Seq<char>, bool)>::empty());
    }
    None
}

fn parse_args_from(args: &[String], flags: &[(&str, bool)], allow_values: bool, i: usize) -> (r:
    Result<ParsedArgs, MultErrorTuple>)
    requires
        parse_ok(args.deep_view(), flags_model(flags@), allow_values, i as int),
    ensures
        match parse_result(args.deep_view(), flags_model(flags@), allow_values, i as int) {
            Ok(m) => r is Ok && r->Ok_0.flags.deep_view() == m.flags
                && r->Ok_0.value_flags.deep_view() == m.value_flags && r->Ok_0.values.deep_view()
                == m.values,
            Err(e) => r is Err && r->Err_0.0 == MultError::InvalidArgument && r->Err_0.1 is Some
                && r->Err_0.1->0@ == e,
        },
    decreases args@.len() - i,
{
    let ghost am = args.deep_view();
    let ghost fm = flags_model(flags@);
    if i >= args.len() {
        let r = ParsedArgs { flags: Vec::new(), value_flags: Vec::new(), values: Vec::new() };
        proof {
            assert(r.flags.deep_view() =~= Seq::<Seq<char>>::empty());
            assert(r.value_flags.deep_view() =~= Seq::<(Seq<char>, Option<Seq<char>>)>::empty());
            assert(r.values.deep_view() =~= Seq::<Seq<char>>::empty());
        }
        return Ok(r);
    }
    let arg = &args[i];
    proof {
        assert(am[i as int] == args@[i as int]@);
    }
    match find_flag(flags, arg) {
        Some(true) => {
            let value = args[i + 1].clone();
            let mut rest = match parse_args_from(args, flags, allow_values, i + 2) {
                Ok(v) => v,
                Err(e) => {
                    return Err(e);
                },
            };
            let ghost pre = rest.value_flags.deep_view();
            rest.value_flags.insert(0, (arg.clone(), Some(value)));
            proof {
                assert(rest.value_flags.deep_view() =~= seq![
                    (am[i as int], Some(am[i as int + 1])),
                ] + pre);
            }
            Ok(rest)
        },
        Some(false) => {
            let mut rest = match parse_args_from(args, flags, allow_values, i + 1) {
                Ok(v) => v,
                Err(e) => {
                    return Err(e);
                },
            };
            let ghost pre = rest.flags.deep_view();
            rest.flags.insert(0, arg.clone());
            proof {
                assert(rest.flags.deep_view() =~= seq![am[i as int]] + pre);
            }
            Ok(rest)
        },
        None => {
            if !allow_values {
                return Err((MultError::InvalidArgument, Some(arg.clone())));
            }
            let mut rest = match parse_args_from(args, flags, allow_values, i + 1) {
                Ok(v) => v,
                Err(e) => {
                    return Err(e);
                },
            };
            let ghost pre = rest.values.deep_view();
            rest.values.insert(0, arg.clone());
            proof {
                assert(rest.values.deep_view() =~= seq![am[i as int]] + pre);
            }
            Ok(rest)
        },
    }
}

/// Splits a command line into recognized flags, flags carrying the value
/// that follows them, and (where allowed) plain values.  An argument that
/// is neither is rejected with itself as the descriptor.
pub fn parse_args(args: &[String], flags: &[(&str, bool)], allow_values: bool) -> (r: Result<
    ParsedArgs,
    MultErrorTuple,
>)
    requires
        parse_ok(args.deep_view(), flags_model(flags@), allow_values, 0),
    ensures
        match parse_result(args.deep_view(), flags_model(flags@), allow_values, 0) {
            Ok(m) => r is Ok && r->Ok_0.flags.deep_view() == m.flags
                && r->Ok_0.value_flags.deep_view() == m.value_flags && r->Ok_0.values.deep_view()
                == m.values,
            Err(e) => r is Err && r->Err_0.0 == MultError::InvalidArgument && r->Err_0.1 is Some
                && r->Err_0.1->0@ == e,
        },
{
    parse_args_from(args, flags, allow_values, 0)
}

/// The length of the run of ASCII digits at the front of `s`.
pub open spec fn digits_prefix_len(s: Seq<char>) -> nat
    decreases s,
{
    if s.len() == 0 || !is_dec_digit(s[0]) {
        0
    } else {
        1 + digits_prefix_len(s.drop_first())
    }
}

proof fn lemma_digits_prefix_len(s: Seq<char>)
    ensures
        digits_prefix_len(s) <= s.len(),
        forall|j: int| 0 <= j < digits_prefix_len(s) ==> is_dec_digit(#[trigger] s[j]),
        digits_prefix_len(s) < s.len() ==> !is_dec_digit(s[digits_prefix_len(s) as int]),
    decreases s,
{
    if s.len() > 0 && is_dec_digit(s[0]) {
        lemma_digits_prefix_len(s.drop_first());
        assert forall|j: int| 0 <= j < digits_prefix_len(s) implies is_dec_digit(
            #[trigger] s[j],
        ) by {
            if j > 0 {
                assert(s.drop_first()[j - 1] == s[j]);
            }
        }
        if digits_prefix_len(s) < s.len() {
            assert(s.drop_first()[digits_prefix_len(s) - 1] == s[digits_prefix_len(s) as int]);
        }
    }
}

/// The character with an ASCII upper-case letter folded to lower case.
pub open spec fn lower_char(c: char) -> char {
    if 65 <= c as u32 <= 90 {
        (c as u32 + 32) as char
    } else {
        c
    }
}

/// The byte count a human-readable size string denotes: a decimal number
/// followed by a unit.  A bare `B` counts bytes; a one- or two-letter unit
/// scales by `k`/`m`/`g`/`t` decimally, a trailing `B` keeps bytes and a
/// trailing `b` counts the scaled figure eight-fold as bits; a leading `b`
/// divides by eight.  Anything else — no digits, a longer unit, an unknown
/// letter, or a figure beyond `i64` — denotes nothing.
pub open spec fn bytes_of(s: Seq<char>) -> Option<int> {
    let k = digits_prefix_len(s) as int;
    let factor = s.skip(k);
    if k == 0 || dec_value(s.take(k)) > i64::MAX as int {
        None
    } else {
        let number = dec_value(s.take(k)) as int;
        if factor == "B"@ {
            Some(number)
        } else if factor.len() == 0 || factor.len() > 2 {
            None
        } else {
            let c0 = lower_char(factor[0]);
            if c0 == 'b' {
                Some(number / 8)
            } else {
                let m1: int = if c0 == 'k' {
                    1000
                } else if c0 == 'm' {
                    1000000
                } else if c0 == 'g' {
                    1000000000
                } else if c0 == 't' {
                    1000000000000
                } else {
                    0
                };
                if m1 == 0 {
                    None
                } else if factor.len() == 1 {
                    if number * m1 > i64::MAX as int {
                        None
                    } else {
                        Some(number * m1)
                    }
                } else {
                    let m2: int = if factor[1] == 'b' {
                        8
                    } else if factor[1] == 'B' {
                        1
                    } else {
                        0
                    };
                    if m2 == 0 {
                        None
                    } else if number * m1 * m2 > i64::MAX as int {
                        None
                    } else {
                        Some(number * m1 * m2)
                    }
                }
            }
        }
    }
}

/// Reads a human-readable size such as `"12GB"` into bytes, per
/// [`bytes_of`].
pub fn parse_string_to_bytes(val: String) -> (r: Option<i64>)
    ensures
        r is Some <==> bytes_of(val@) is Some,
        r is Some ==> r->0 == bytes_of(val@)->0,
{
    let s = val.as_str();
    let n = s.unicode_len();
    let mut k: usize = 0;
    proof {
        lemma_digits_prefix_len(s@);
    }
    while k < n
        invariant
            0 <= k <= n,
            n == s@.len(),
            forall|j: int| 0 <= j < k ==> is_dec_digit(#[trigger] s@[j]),
        ensures
            0 <= k <= n,
            forall|j: int| 0 <= j < k ==> is_dec_digit(#[trigger] s@[j]),
            k == n || !is_dec_digit(s@[k as int]),
        decreases n - k,
    {
        let c = s.get_char(k);
        let cv = c as u32;
        if cv < 48 || cv > 57 {
            break;
        }
        k = k + 1;
    }
    proof {
        lemma_digits_prefix_len(s@);
        assert(digits_prefix_len(s@) == k) by {
            if digits_prefix_len(s@) < k {
                assert(is_dec_digit(s@[digits_prefix_len(s@) as int]));
            }
            if k < digits_prefix_len(s@) {
                assert(is_dec_digit(s@[k as int]));
            }
        }
    }
    let number_str = s.substring_char(0, k);
    let factor = s.substring_char(k, n);
    proof {
        assert(number_str@ =~= s@.take(k as int));
        assert(factor@ =~= s@.skip(k as int));
    }
    let number: u64 = match parse_u64(number_str) {
        Some(v) => v,
        None => {
            return None;
        },
    };
    if number > i64::MAX as u64 {
        return None;
    }
    if str_eq(factor, "B") {
        return Some(number as i64);
    }
    let flen = n - k;
    if flen == 0 || flen > 2 {
        return None;
    }
    let c0 = factor.get_char(0);
    let cv0 = c0 as u32;
    let lv: u32 = if 65 <= cv0 && cv0 <= 90 {
        cv0 + 32
    } else {
        cv0
    };
    proof {
        assert(lv == lower_char(factor@[0]) as u32);
    }
    if lv == 98 {
        return Some((number / 8) as i64);
    }
    let m1: u64 = if lv == 107 {
        1000
    } else if lv == 109 {
        1000000
    } else if lv == 103 {
        1000000000
    } else if lv == 116 {
        1000000000000
    } else {
        return None;
    };
    if flen == 1 {
        match number.checked_mul(m1) {
            Some(p) => {
                if p > i64::MAX as u64 {
                    None
                } else {
                    Some(p as i64)
                }
            },
            None => None,
        }
    } else {
        let c1 = factor.get_char(1);
        let m2: u64 = if c1 == 'b' {
            8
        } else if c1 == 'B' {
            1
        } else {
            return None;
        };
        match number.checked_mul(m1) {
            Some(p1) => match p1.checked_mul(m2) {
                Some(p) => {
                    if p > i64::MAX as u64 {
                        None
                    } else {
                        Some(p as i64)
                    }
                },
                None => {
                    proof {
                        assert((number * m1) * m2 > u64::MAX as int);
                    }
                    None
                },
            },
            None => {
                proof {
                    assert(number * m1 > u64::MAX as int);
                    assert(number * m1 * m2 >= number * m1) by (nonlinear_arith)
                        requires
                            number * m1 >= 0,
                            m2 >= 1,
                    ;
                }
                None
            },
        }
    }
}

/// The first flag-with-value entry for `name`.
pub open spec fn find_value_flag(
    vfs: Seq<(Seq<char>, Option<Seq<char>>)>,
    name: Seq<char>,
) -> Option<(Seq<char>, Option<Seq<char>>)>
    decreases vfs,
{
    if vfs.len() == 0 {
        None
    } else if vfs[0].0 == name {
        Some(vfs[0])
    } else {
        find_value_flag(vfs.drop_first(), name)
    }
}

pub open spec fn mem_format_msg() -> Seq<char> {
    "-m"@ + " value must have a valid format (B, kB, mB, gB) at the end"@
}

pub open spec fn mem_over_msg() -> Seq<char> {
    "-c"@ + " value must be over 1"@
}

pub open spec fn cpu_range_msg() -> Seq<char> {
    "-c"@ + " valid values are between 1 and 100"@
}

/// The memory ceiling the parsed flags ask for: `-1` without a `-m` flag,
/// else its value read as bytes, which must be at least `1`.
pub open spec fn memory_limit_spec(vfs: Seq<(Seq<char>, Option<Seq<char>>)>) -> Result<
    int,
    Seq<char>,
> {
    match find_value_flag(vfs, "-m"@) {
        None => Ok(-1),
        Some(vf) => match vf.1 {
            None => Ok(-1),
            Some(v) => match bytes_of(v) {
                None => Err(mem_format_msg()),
                Some(b) => if b < 1 {
                    Err(mem_over_msg())
                } else {
                    Ok(b)
                },
            },
        },
    }
}

/// The CPU ceiling the parsed flags ask for: `-1` without a `-c` flag,
/// else its value read as a percentage in `1..=100`.
pub open spec fn cpu_limit_spec(vfs: Seq<(Seq<char>, Option<Seq<char>>)>) -> Result<
    int,
    Seq<char>,
> {
    match find_value_flag(vfs, "-c"@) {
        None => Ok(-1),
        Some(vf) => match vf.1 {
            None => Ok(-1),
            Some(v) => if !(is_signed_dec(v) && i32::MIN <= signed_value(v) <= i32::MAX) {
                Err("-c"@)
            } else if signed_value(v) > 100 || signed_value(v) < 1 {
                Err(cpu_range_msg())
            } else {
                Ok(signed_value(v))
            },
        },
    }
}

/// What the creation flags come to: the memory ceiling, the CPU ceiling,
/// and the interactive mark, or the descriptor of the first bad value.
pub open spec fn fork_flags_spec(
    flags: Seq<Seq<char>>,
    vfs: Seq<(Seq<char>, Option<Seq<char>>)>,
) -> Result<(int, int, bool), Seq<char>> {
    match memory_limit_spec(vfs) {
        Err(e) => Err(e),
        Ok(m) => match cpu_limit_spec(vfs) {
            Err(e) => Err(e),
            Ok(c) => Ok((m, c, flags.contains("-i"@))),
        },
    }
}

pub(crate) fn find_value_flag_ref<'a>(vfs: &'a Vec<(String, Option<String>)>, name: &str) -> (r: Option<
    &'a (String, Option<String>),
>)
    ensures
        match r {
            Some(vf) => find_value_flag(vfs.deep_view(), name@) == Some(
                (vf.0@, match vf.1 {
                    Some(ref s) => Some(s@),
                    None => None::<Seq<char>>,
                }),
            ),
            None => find_value_flag(vfs.deep_view(), name@) is None,
        },
{
    let ghost model = vfs.deep_view();
    let mut j: usize = 0;
    proof {
        assert(model.skip(0) =~= model);
    }
    while j < vfs.len()
        invariant
            0 <= j <= vfs@.len(),
            model == vfs.deep_view(),
            model.len() == vfs@.len(),
            find_value_flag(model, name@) == find_value_flag(model.skip(j as int), name@),
        decreases vfs@.len() - j,
    {
        proof {
            assert(model.skip(j as int)[0] == model[j as int]);
            assert(model.skip(j as int).drop_first() =~= model.skip(j as int + 1));
        }
        if str_eq(vfs[j].0.as_str(), name) {
            return Some(&vfs[j]);
        }
        j = j + 1;
    }
    proof {
        assert(model.skip(model.len() as int) =~= Seq::<(Seq<char>, Option<Seq<char>>)>::empty());
    }
    None
}

fn contains_flag(flags: &Vec<String>, name: &str) -> (r: bool)
    ensures
        r == flags.deep_view().contains(name@),
{
    let ghost model = flags.deep_view();
    let mut j: usize = 0;
    while j < flags.len()
        invariant
            0 <= j <= flags@.len(),
            model == flags.deep_view(),
            model.len() == flags@.len(),
            forall|i: int| 0 <= i < j ==> #[trigger] model[i] != name@,
        decreases flags@.len() - j,
    {
        if str_eq(flags[j].as_str(), name) {
            assert(model[j as int] == name@);
            return true;
        }
        j = j + 1;
    }
    false
}

/// Reads the task-creation flags out of a parsed command line: the memory
/// ceiling from `-m` (bytes, at least one), the CPU ceiling from `-c` (a
/// percentage in `1..=100`), each `-1` when absent, and whether `-i` asked
/// for an interactive shell.  A malformed or out-of-range value is
/// rejected with a descriptor saying so.
pub fn get_fork_flag_values(parsed_args: &ParsedArgs) -> (r: Result<ForkFlagTuple, MultErrorTuple>)
    ensures
        match fork_flags_spec(parsed_args.flags.deep_view(), parsed_args.value_flags.deep_view()) {
            Ok(t) => r is Ok && r->Ok_0.0 == t.0 && r->Ok_0.1 == t.1 && r->Ok_0.2 == t.2,
            Err(e) => r is Err && r->Err_0.0 == MultError::InvalidArgument && r->Err_0.1 is Some
                && r->Err_0.1->0@ == e,
        },
{
    let mut memory_limit: i64 = -1;
    match find_value_flag_ref(&parsed_args.value_flags, "-m") {
        None => {},
        Some(vf) => match &vf.1 {
            None => {},
            Some(v) => {
                match parse_string_to_bytes(v.clone()) {
                    None => {
                        let mut msg = String::from_str("-m");
                        msg.append(" value must have a valid format (B, kB, mB, gB) at the end");
                        return Err((MultError::InvalidArgument, Some(msg)));
                    },
                    Some(b) => {
                        if b < 1 {
                            let mut msg = String::from_str("-c");
                            msg.append(" value must be over 1");
                            return Err((MultError::InvalidArgument, Some(msg)));
                        }
                        memory_limit = b;
                    },
                }
            },
        },
    }
    let mut cpu_limit: i32 = -1;
    match find_value_flag_ref(&parsed_args.value_flags, "-c") {
        None => {},
        Some(vf) => match &vf.1 {
            None => {},
            Some(v) => {
                match parse_i32(v.as_str()) {
                    None => {
                        return Err((MultError::InvalidArgument, Some(String::from_str("-c"))));
                    },
                    Some(val) => {
                        if val > 100 || val < 1 {
                            let mut msg = String::from_str("-c");
                            msg.append(" valid values are between 1 and 100");
                            return Err((MultError::InvalidArgument, Some(msg)));
                        }
                        cpu_limit = val;
                    },
                }
            },
        },
    }
    let interactive = contains_flag(&parsed_args.flags, "-i");
    Ok((memory_limit, cpu_limit, interactive))
}

} // verus!
