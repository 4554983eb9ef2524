use vstd::prelude::*;

verus! {

use crate::text::{dec_seq, u64_to_string};

/// A platform process identifier, treated as an opaque integer handle.
pub type PID = i32;

/// The memory ceiling in bytes (`-1` = unlimited), the CPU ceiling as a
/// percentage in `1..=100` (`-1` = unlimited), and the interactive-shell flag,
/// as gathered from the task's creation flags.
pub type ForkFlagTuple = (i64, i32, bool);

/// The most recent CPU measurement for one pid.  The percentage is held in
/// hundredths of a percent, so `1234` stands for `12.34 %`.
#[derive(Debug, Clone, Copy, PartialEq, Eq, Structural)]
pub struct UsageStats {
    pub cpu_usage: u64,
}

/// Whether a process probe means "alive" for supervision.  A state string is
/// the one-letter process state the kernel reports (`"Z"` marks a zombie:
/// terminated but unreaped, which must not count as alive).  With no state
/// reading, `probe_ok` (a zero-signal delivery test) decides.
pub fn proc_exists(pid: PID, state: Option<&String>, probe_ok: bool) -> (r: bool)
    ensures
        r == proc_exists_spec(match state {
            Some(s) => Some(s@),
            None => None,
        }, probe_ok),
{
    match state {
        Some(s) => !is_zombie_state(s),
        None => probe_ok,
    }
}

/// What [`proc_exists`] returns: a read state decides (zombies are dead), and
/// only in its absence does the signal probe.
pub open spec fn proc_exists_spec(state: Option<Seq<char>>, probe_ok: bool) -> bool {
    match state {
        Some(s) => s != seq!['Z'],
        None => probe_ok,
    }
}

/// True when the state string is exactly `"Z"`, the kernel's zombie mark.
pub fn is_zombie_state(state: &String) -> (r: bool)
    ensures
        r == (state@ == seq!['Z']),
{
    proof {
        reveal_strlit("Z");
    }
    let r = state.as_str().unicode_len() == 1 && state.as_str().get_char(0) == 'Z';
    proof {
        if r {
            assert(state@ =~= seq!['Z']);
        }
        if state@ == seq!['Z'] {
            assert(state@.len() == 1);
            assert(state@[0] == 'Z');
        }
    }
    r
}

/// The runtime written as hours, minutes and seconds.
pub open spec fn readable_runtime_spec(secs: int) -> Seq<char> {
    dec_seq(((secs / 60) / 60) as nat) + "h "@ + dec_seq(((secs / 60) % 60) as nat) + "m "@
        + dec_seq((secs % 60) as nat) + "s"@
}

/// Writes a runtime in seconds as `"<h>h <m>m <s>s"`.
pub fn get_readable_runtime(secs: u64) -> (r: String)
    ensures
        r@ == readable_runtime_spec(secs as int),
{
    let seconds = secs % 60;
    let minutes = (secs / 60) % 60;
    let hours = (secs / 60) / 60;
    let mut s = u64_to_string(hours);
    s.append("h ");
    s.append(u64_to_string(minutes).as_str());
    s.append("m ");
    s.append(u64_to_string(seconds).as_str());
    s.append("s");
    s
}

} // verus!
