use vstd::prelude::*;

verus! {

/// The two signals the duty cycle broadcasts to a process tree.
#[derive(Debug, Clone, Copy, PartialEq, Eq, Structural)]
pub enum TaskSignal {
    Suspend,
    Resume,
}

/// One half-cycle of the duty cycle: re-enumerate the task's process tree,
/// deliver `signal` to every pid in it (a pid that exited meanwhile is
/// passed over), then hold for `hold_ms` milliseconds.
#[derive(Debug, Clone, Copy, PartialEq, Eq, Structural)]
pub struct LimiterAction {
    pub signal: TaskSignal,
    pub hold_ms: u64,
}

/// How long each second the tree runs, for a ceiling of `limit` percent.
pub open spec fn running_slice_ms(limit: int) -> int {
    10 * limit
}

/// How long each second the tree is held suspended.
pub open spec fn idle_slice_ms(limit: int) -> int {
    1000 - 10 * limit
}

/// For every ceiling in `1..=100`, the running and idle slices partition one
/// second exactly, and the running slice is `10 ms` per percent.
pub proof fn lemma_duty_cycle_conservation(limit: int)
    requires
        1 <= limit <= 100,
    ensures
        running_slice_ms(limit) + idle_slice_ms(limit) == 1000,
        running_slice_ms(limit) == 10 * limit,
{
}

/// The milliseconds of each second a tree limited to `limit` percent runs
/// and idles: `(running, idle)`.
pub fn split_limit_cpu(limit: u32) -> (r: (u64, u64))
    requires
        1 <= limit <= 100,
    ensures
        r.0 == running_slice_ms(limit as int),
        r.1 == idle_slice_ms(limit as int),
{
    let running: u64 = 10 * (limit as u64);
    (running, 1000 - running)
}

/// The duty-cycle state machine that throttles a process tree to an average
/// CPU ceiling without a scheduler hook.  While the tree is running it is
/// sent a suspend and held idle; while suspended it is sent a resume and
/// left running; the two holds alternate forever with period one second.
#[derive(Debug, Clone, Copy, PartialEq, Eq, Structural)]
pub struct CpuLimiter {
    /// The requested ceiling, a percentage in `1..=100`.
    pub limit: u32,
    /// Whether the tree is currently running (and so is due a suspend).
    pub running: bool,
}

/// What one transition of the limiter does: the action to perform and the
/// state after it.
pub open spec fn limiter_step(s: CpuLimiter) -> (LimiterAction, CpuLimiter) {
    if s.running {
        (
            LimiterAction { signal: TaskSignal::Suspend, hold_ms: idle_slice_ms(s.limit as int) as u64 },
            CpuLimiter { running: false, ..s },
        )
    } else {
        (
            LimiterAction { signal: TaskSignal::Resume, hold_ms: running_slice_ms(s.limit as int) as u64 },
            CpuLimiter { running: true, ..s },
        )
    }
}

impl CpuLimiter {
    pub open spec fn wf(&self) -> bool {
        1 <= self.limit <= 100
    }

    /// A limiter for a freshly started tree, which is running.
    pub fn new(limit: u32) -> (s: CpuLimiter)
        requires
            1 <= limit <= 100,
        ensures
            s.wf(),
            s.limit == limit,
            s.running,
    {
        CpuLimiter { limit, running: true }
    }

    /// Takes one transition and says what to do for the next half-cycle.
    pub fn next_action(&mut self) -> (r: LimiterAction)
        requires
            old(self).wf(),
        ensures
            final(self).wf(),
            (r, *final(self)) == limiter_step(*old(self)),
    {
        if self.running {
            self.running = false;
            LimiterAction {
                signal: TaskSignal::Suspend,
                hold_ms: 1000 - 10 * (self.limit as u64),
            }
        } else {
            self.running = true;
            LimiterAction { signal: TaskSignal::Resume, hold_ms: 10 * (self.limit as u64) }
        }
    }
}

/// Over one full duty cycle from a fresh limiter, the tree receives exactly
/// one suspend and one resume, and the two holds sum to one second; at a
/// ceiling of `50` each is held `500 ms`.
pub proof fn lemma_one_full_duty_cycle(limit: u32)
    requires
        1 <= limit <= 100,
    ensures
        ({
            let s0 = CpuLimiter { limit, running: true };
            let (a1, s1) = limiter_step(s0);
            let (a2, s2) = limiter_step(s1);
            &&& a1.signal == TaskSignal::Suspend
            &&& a2.signal == TaskSignal::Resume
            &&& a1.hold_ms + a2.hold_ms == 1000
            &&& a2.hold_ms == 10 * limit
            &&& s2 == s0
            &&& (limit == 50 ==> a1.hold_ms == 500 && a2.hold_ms == 500)
        }),
{
}

} // verus!
