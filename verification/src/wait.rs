use crate::rt::Runtime;
use vstd::prelude::*;

verus! {

/// A timer that becomes ready once the runtime clock reaches the deadline.
/// The deadline is fixed at the first poll: the clock at that moment plus `ms`.
pub struct Wait {
    pub deadline: Option<u64>,
    pub ms: u64,
}

/// Creates a timer of `ms` milliseconds; its deadline is not set yet.
pub fn wait(ms: u64) -> (w: Wait)
    ensures
        w.deadline is None,
        w.ms == ms,
{
    Wait { deadline: None, ms }
}

impl Wait {
    /// The deadline that a poll at clock `now` works with.
    pub open spec fn deadline_at(self, now: u64) -> int {
        match self.deadline {
            Some(d) => d as int,
            None => now + self.ms,
        }
    }

    /// Polls the timer against the runtime clock: fixes the deadline if this
    /// is the first poll, and reports whether the clock has reached it.
    pub fn poll<T>(&mut self, rt: &Runtime<T>) -> (ready: bool)
        requires
            old(self).deadline is None ==> rt@.clock + old(self).ms <= u64::MAX,
        ensures
            final(self).ms == old(self).ms,
            final(self).deadline == Some(old(self).deadline_at(rt@.clock) as u64),
            ready == (rt@.clock >= old(self).deadline_at(rt@.clock)),
    {
        let now = rt.now();
        let deadline = match self.deadline {
            Some(d) => d,
            None => {
                let d = now + self.ms;
                self.deadline = Some(d);
                d
            },
        };
        now >= deadline
    }
}

/// Once a timer is ready it stays ready: its deadline is fixed, and the
/// clock does not run backwards.
pub proof fn lemma_wait_stays_ready(w: Wait, now: u64, later: u64)
    requires
        w.deadline is Some,
        now <= later,
        now >= w.deadline_at(now),
    ensures
        later >= w.deadline_at(later),
{
}

/// A timer of `ms` milliseconds first polled at clock `start` is ready at
/// clock `now` exactly when `ms` milliseconds have passed since `start`; a
/// timer of 0 ms is ready at its first poll.
pub proof fn lemma_wait_fires_after(ms: u64, start: u64, now: u64)
    requires
        start + ms <= u64::MAX,
    ensures
        ({
            let first = Wait { deadline: None, ms };
            let armed = Wait { deadline: Some(first.deadline_at(start) as u64), ms };
            &&& (start >= first.deadline_at(start) <==> ms == 0)
            &&& (now >= armed.deadline_at(now) <==> now >= start + ms)
        }),
{
}

} // verus!
