use vstd::prelude::*;

verus! {

use crate::error::{MultError, MultErrorTuple};
use crate::proc::{proc_exists, proc_exists_spec, PID};
use crate::text::{i32_to_string, signed_dec_seq};

/// Whether a process counts as alive on a unix platform: a read state
/// string decides (a `"Z"` zombie — terminated but unreaped — is dead),
/// and in its absence the zero-signal probe's outcome does.
pub fn unix_proc_exists(pid: PID, state: Option<&String>, probe_ok: bool) -> (r: bool)
    ensures
        r == proc_exists_spec(
            match state {
                Some(s) => Some(s@),
                None => None,
            },
            probe_ok,
        ),
{
    proc_exists(pid, state, probe_ok)
}

/// The verdict of one delivered terminate signal: the raw result of the
/// delivery (`0` on success) and the platform error number otherwise
/// become this library's unix error.
pub fn unix_kill_result(res: i32, errno: i32) -> (r: Result<(), MultErrorTuple>)
    ensures
        res == 0 <==> r is Ok,
        res != 0 ==> r is Err && r->Err_0.0 == MultError::UnixError && r->Err_0.1 is Some
            && r->Err_0.1->0@ == signed_dec_seq(errno as int),
{
    if res == 0 {
        Ok(())
    } else {
        Err((MultError::UnixError, Some(i32_to_string(errno))))
    }
}

} // verus!
