use vstd::prelude::*;

verus! {

/// A task that does its work, sleeps for a fixed time and starts over. Time
/// is a count of ticks that its surroundings keep.
#[derive(Clone, Copy, Debug, PartialEq, Eq)]
pub struct Heartbeat {
    /// Ticks between two firings.
    pub period: u64,
    /// The tick at which the task is next due.
    pub deadline: u64,
}

impl Heartbeat {
    /// True when the task is due at `now`.
    pub open spec fn is_due(&self, now: u64) -> bool {
        now >= self.deadline
    }

    /// The task after it was resumed at `now`: a task that is due fires and
    /// sleeps for one period from then; another sleeps on.
    pub open spec fn after_poll(self, now: u64) -> Self {
        if self.is_due(now) {
            Heartbeat { period: self.period, deadline: (now + self.period) as u64 }
        } else {
            self
        }
    }

    /// A task that is due for the first time at `start`.
    pub fn new(period: u64, start: u64) -> (task: Self)
        ensures
            task.period == period,
            task.deadline == start,
    {
        Heartbeat { period, deadline: start }
    }

    /// Resumes the task at `now` and says whether it fired.
    pub fn poll(&mut self, now: u64) -> (fired: bool)
        requires
            old(self).is_due(now) ==> now + old(self).period <= u64::MAX,
        ensures
            fired == old(self).is_due(now),
            *final(self) == old(self).after_poll(now),
    {
        if now >= self.deadline {
            self.deadline = now + self.period;
            true
        } else {
            false
        }
    }

    /// A task resumed when it is due fires, is next due exactly one period
    /// later, and at no tick in between.
    pub proof fn lemma_firings_one_period_apart(self, now: u64)
        requires
            now == self.deadline,
            now + self.period <= u64::MAX,
        ensures
            self.is_due(now),
            self.after_poll(now).deadline == now + self.period,
            self.after_poll(now).period == self.period,
            forall|t: u64| now <= t < now + self.period ==> !self.after_poll(now).is_due(t),
            self.after_poll(now).is_due((now + self.period) as u64),
    {
    }
}

} // verus!
