use vstd::prelude::*;

verus! {

use crate::error::{MultError, MultErrorTuple};
use crate::proc::PID;
use crate::text::{i32_to_string, signed_dec_seq};
use crate::tree::{flatten_pids, TreeNode};

/// What delivering a terminate signal to one pid came to: `Ok` on delivery,
/// or the platform error number when the pid was already gone.
pub type KillOutcome = Result<(), i32>;

/// A best-effort sweep over the flattened pids of a process tree.  The
/// caller asks for the next target, delivers the signal, and records the
/// outcome; a failed delivery never shortens the sweep — every pid of the
/// list is attempted exactly once.
#[derive(Debug)]
pub struct KillSweep {
    /// The pids to signal, in the tree's depth-first order.
    pub pids: Vec<PID>,
    /// How many of them have been attempted so far.
    pub next: usize,
    /// The error number of the first failed delivery, if any failed.
    pub first_error: Option<i32>,
}

/// The state after recording `outcome` for the current target.
pub open spec fn record_step(s: KillSweep, outcome: KillOutcome) -> KillSweep {
    KillSweep {
        pids: s.pids,
        next: (s.next + 1) as usize,
        first_error: match s.first_error {
            Some(e) => Some(e),
            None => match outcome {
                Ok(_) => None,
                Err(e) => Some(e),
            },
        },
    }
}

/// The state after recording a whole sequence of outcomes, first to last.
pub open spec fn sweep_after(s: KillSweep, outcomes: Seq<KillOutcome>) -> KillSweep
    decreases outcomes,
{
    if outcomes.len() == 0 {
        s
    } else {
        sweep_after(record_step(s, outcomes[0]), outcomes.drop_first())
    }
}

impl KillSweep {
    /// The pids attempted so far.
    pub open spec fn attempted(&self) -> Seq<PID> {
        self.pids@.take(self.next as int)
    }

    pub open spec fn wf(&self) -> bool {
        self.next <= self.pids@.len()
    }

    /// A sweep over every pid of the tree, in depth-first order.
    pub fn new(tree: &TreeNode) -> (s: KillSweep)
        ensures
            s.wf(),
            s.pids@ == flatten_pids(*tree),
            s.next == 0,
            s.first_error is None,
    {
        let mut pids: Vec<PID> = Vec::new();
        crate::tree::compress_tree(tree, &mut pids);
        KillSweep { pids, next: 0, first_error: None }
    }

    /// The pid to signal next, or `None` once every pid was attempted.
    pub fn next_target(&self) -> (r: Option<PID>)
        ensures
            r == if self.next < self.pids@.len() {
                Some(self.pids@[self.next as int])
            } else {
                None::<PID>
            },
    {
        if self.next < self.pids.len() {
            Some(self.pids[self.next])
        } else {
            None
        }
    }

    /// Records the outcome of signalling the current target.  The sweep
    /// advances whether or not the delivery failed.
    pub fn record(&mut self, outcome: KillOutcome)
        requires
            old(self).next < old(self).pids@.len(),
        ensures
            *final(self) == record_step(*old(self), outcome),
            final(self).attempted() == old(self).attempted().push(
                old(self).pids@[old(self).next as int],
            ),
    {
        let n = self.pids.len();
        self.next = self.next + 1;
        if self.first_error.is_none() {
            if let Err(e) = outcome {
                self.first_error = Some(e);
            }
        }
        proof {
            assert(final(self).attempted() =~= old(self).attempted().push(
                old(self).pids@[old(self).next as int],
            ));
        }
    }

    /// Whether every pid has been attempted.
    pub fn finished(&self) -> (r: bool)
        ensures
            r == (self.next >= self.pids@.len()),
    {
        self.next >= self.pids.len()
    }

    /// The sweep's verdict once it is finished: `Ok` when every delivery
    /// succeeded, otherwise the first failure's error number as a unix
    /// error.
    pub fn result(&self) -> (r: Result<(), MultErrorTuple>)
        ensures
            r is Ok <==> self.first_error is None,
            self.first_error is Some ==> r is Err && r->Err_0.0 == MultError::UnixError
                && r->Err_0.1 is Some && r->Err_0.1->0@ == signed_dec_seq(
                self.first_error->0 as int,
            ),
    {
        match self.first_error {
            None => Ok(()),
            Some(e) => Err((MultError::UnixError, Some(i32_to_string(e)))),
        }
    }
}

/// Kill completeness under partial failure: however the individual
/// deliveries come out — any of them may fail — a sweep that records one
/// outcome per pid attempts every pid of the list, in order, and stops
/// early after none of the failures.
pub proof fn lemma_kill_sweep_attempts_all(s0: KillSweep, outcomes: Seq<KillOutcome>)
    requires
        s0.next == 0,
        outcomes.len() == s0.pids@.len(),
        s0.pids@.len() <= usize::MAX,
    ensures
        sweep_after(s0, outcomes).attempted() == s0.pids@,
        sweep_after(s0, outcomes).next == s0.pids@.len(),
        sweep_after(s0, outcomes).pids == s0.pids,
{
    lemma_sweep_advances(s0, outcomes);
    assert(sweep_after(s0, outcomes).attempted() =~= s0.pids@);
}

proof fn lemma_sweep_advances(s: KillSweep, outcomes: Seq<KillOutcome>)
    requires
        s.next + outcomes.len() <= s.pids@.len(),
        s.pids@.len() <= usize::MAX,
    ensures
        sweep_after(s, outcomes).next == s.next + outcomes.len(),
        sweep_after(s, outcomes).pids == s.pids,
    decreases outcomes,
{
    if outcomes.len() > 0 {
        lemma_sweep_advances(record_step(s, outcomes[0]), outcomes.drop_first());
    }
}

} // verus!
