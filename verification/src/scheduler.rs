use vstd::prelude::*;
use vstd::arithmetic::div_mod::{lemma_fundamental_div_mod, lemma_fundamental_div_mod_converse, lemma_mod_bound};
use crate::frame::{echo_of, frame_text};
use crate::heartbeat::Heartbeat;
use crate::receive::{calls_for_echo, frame_end, is_decode_failure, Action, Completion, ReceiveTask, ReceiveState, TransportError, WriteError};

verus! {

/// Number of firings of a task that is due at `deadline` and then once
/// every `period` ticks, counted up to and including the tick `target`.
pub open spec fn firings_until(deadline: int, period: int, target: int) -> int {
    if target < deadline {
        0
    } else {
        (target - deadline) / period + 1
    }
}

/// The firings up to `target` are those at the ticks `deadline`,
/// `deadline + period`, `deadline + 2 * period` and so on, as far as they do
/// not lie behind `target`: two firings in a row are one period apart, never
/// less and never more, however many went before.
pub proof fn lemma_firings_are_the_period_ticks(deadline: int, period: int, target: int, i: int)
    requires
        period > 0,
        i >= 0,
    ensures
        firings_until(deadline, period, target) >= 0,
        i < firings_until(deadline, period, target) <==> deadline + i * period <= target,
{
    if target < deadline {
        assert(i * period >= 0) by (nonlinear_arith)
            requires
                i >= 0,
                period > 0,
        ;
    } else {
        let x = target - deadline;
        let q = x / period;
        lemma_fundamental_div_mod(x, period);
        lemma_mod_bound(x, period);
        assert(x == period * q + x % period);
        assert(q >= 0) by (nonlinear_arith)
            requires
                x >= 0,
                period > 0,
                x == period * q + x % period,
                0 <= x % period < period,
        ;
        if i <= q {
            assert(i * period <= period * q) by (nonlinear_arith)
                requires
                    0 <= i <= q,
                    period > 0,
            ;
        } else {
            assert(i * period >= period * q + period) by (nonlinear_arith)
                requires
                    i >= q + 1,
                    period > 0,
            ;
        }
    }
}

/// Firings counted over a stretch of time are those of its first part and
/// those of the rest, the task being due for the rest where the first part
/// left it.
pub proof fn lemma_firings_add_up(deadline: int, period: int, middle: int, target: int)
    requires
        period > 0,
        middle <= target,
    ensures
        firings_until(deadline, period, target) == firings_until(deadline, period, middle)
            + firings_until(
            deadline + firings_until(deadline, period, middle) * period,
            period,
            target,
        ),
{
    let f1 = firings_until(deadline, period, middle);
    let d1 = deadline + f1 * period;
    let f2 = firings_until(d1, period, target);
    let all = firings_until(deadline, period, target);
    lemma_firings_are_the_period_ticks(deadline, period, middle, 0);
    lemma_firings_are_the_period_ticks(d1, period, target, f2);
    lemma_firings_are_the_period_ticks(deadline, period, target, f1 + f2);
    assert(d1 + f2 * period == deadline + (f1 + f2) * period) by (nonlinear_arith)
        requires
            d1 == deadline + f1 * period,
    ;
    assert(all <= f1 + f2);
    if f2 > 0 {
        lemma_firings_are_the_period_ticks(d1, period, target, f2 - 1);
        lemma_firings_are_the_period_ticks(deadline, period, target, f1 + f2 - 1);
        assert(d1 + (f2 - 1) * period == deadline + (f1 + f2 - 1) * period) by (nonlinear_arith)
            requires
                d1 == deadline + f1 * period,
        ;
    } else if f1 > 0 {
        lemma_firings_are_the_period_ticks(deadline, period, middle, f1 - 1);
        lemma_firings_are_the_period_ticks(deadline, period, target, f1 - 1);
    }
}

/// The time that a run of steps takes, a step being the ticks by which the
/// clock moves on and the read that completes then.
pub open spec fn ticks_of(steps: Seq<(u64, Seq<u8>, Result<usize, TransportError>)>) -> int
    decreases steps.len(),
{
    if steps.len() == 0 {
        0
    } else {
        steps.first().0 + ticks_of(steps.drop_first())
    }
}

/// A run of steps takes no time or some.
pub proof fn lemma_ticks_of_not_negative(
    steps: Seq<(u64, Seq<u8>, Result<usize, TransportError>)>,
)
    ensures
        ticks_of(steps) >= 0,
    decreases steps.len(),
{
    if steps.len() > 0 {
        lemma_ticks_of_not_negative(steps.drop_first());
    }
}

/// A cooperative scheduler over a clock that its user moves: it owns one
/// heartbeat task and one receive task, resumes the first whenever its timer
/// runs out and the second whenever a read or a write completes, and lets
/// each run to its next suspension point before it looks at the other.
#[derive(Clone, Copy, Debug, PartialEq, Eq)]
pub struct Scheduler {
    /// The current tick.
    pub now: u64,
    /// The task woken by the clock.
    pub heartbeat: Heartbeat,
    /// The task woken by the serial link.
    pub receiver: ReceiveTask,
}

impl Scheduler {
    /// Between two events every task is suspended: the heartbeat sleeps
    /// towards a deadline that lies ahead, by one period at most.
    pub open spec fn wf(&self) -> bool {
        &&& self.heartbeat.period > 0
        &&& self.now < self.heartbeat.deadline
        &&& self.heartbeat.deadline <= self.now + self.heartbeat.period
    }

    /// Starts both tasks at tick 0 and runs each to its first suspension
    /// point: the heartbeat fires once and goes to sleep, the receive task
    /// awaits data. Returns the scheduler and the ticks at which the
    /// heartbeat fired on the way, which is tick 0 alone.
    pub fn start(period: u64) -> (r: (Self, Vec<u64>))
        requires
            period > 0,
        ensures
            r.0.wf(),
            r.0.now == 0,
            r.0.heartbeat == (Heartbeat { period, deadline: period }),
            r.0.receiver.state == ReceiveState::AwaitingData,
            r.1@ == seq![0u64],
    {
        let mut heartbeat = Heartbeat::new(period, 0);
        let mut ticks: Vec<u64> = Vec::new();
        if heartbeat.poll(0) {
            ticks.push(0);
        }
        assert(ticks@ =~= seq![0u64]);
        (Scheduler { now: 0, heartbeat, receiver: ReceiveTask::new() }, ticks)
    }

    /// The scheduler after its clock has moved on by `dt` ticks.
    pub open spec fn after_advance(self, dt: u64) -> Self {
        let firings = firings_until(
            self.heartbeat.deadline as int,
            self.heartbeat.period as int,
            self.now + dt,
        );
        Scheduler {
            now: (self.now + dt) as u64,
            heartbeat: Heartbeat {
                period: self.heartbeat.period,
                deadline: (self.heartbeat.deadline + firings * self.heartbeat.period) as u64,
            },
            receiver: self.receiver,
        }
    }

    /// Moves the clock on by `dt` ticks, resuming the heartbeat at each of its
    /// deadlines on the way, and returns the ticks at which it fired, in the
    /// order of the firings. The receive task is not touched.
    pub fn advance(&mut self, dt: u64) -> (ticks: Vec<u64>)
        requires
            old(self).wf(),
            old(self).now + dt + old(self).heartbeat.period <= u64::MAX,
        ensures
            final(self).wf(),
            *final(self) == old(self).after_advance(dt),
            final(self).now == old(self).now + dt,
            final(self).heartbeat.deadline == old(self).heartbeat.deadline + ticks@.len() * old(
                self,
            ).heartbeat.period,
            ticks@.len() == firings_until(
                old(self).heartbeat.deadline as int,
                old(self).heartbeat.period as int,
                old(self).now + dt,
            ),
            forall|i: int|
                0 <= i < ticks@.len() ==> #[trigger] ticks@[i] == old(self).heartbeat.deadline + i
                    * old(self).heartbeat.period,
    {
        let ghost first = self.heartbeat.deadline as int;
        let ghost period = self.heartbeat.period as int;
        let ghost receiver = self.receiver;
        let target: u64 = self.now + dt;
        let mut ticks: Vec<u64> = Vec::new();
        while self.heartbeat.deadline <= target
            invariant
                period > 0,
                first >= 0,
                self.heartbeat.period == period,
                self.receiver == receiver,
                target + period <= u64::MAX,
                first > target ==> ticks@.len() == 0,
                self.heartbeat.deadline == first + ticks@.len() * period,
                self.heartbeat.deadline <= target + period,
                forall|i: int| 0 <= i < ticks@.len() ==> #[trigger] ticks@[i] == first + i * period,
            decreases target + period - self.heartbeat.deadline,
        {
            let due: u64 = self.heartbeat.deadline;
            self.now = due;
            let fired = self.heartbeat.poll(due);
            assert(fired);
            assert((ticks@.len() + 1) * period == ticks@.len() * period + period)
                by (nonlinear_arith);
            ticks.push(due);
        }
        self.now = target;
        proof {
            let firings = ticks@.len() as int;
            if firings > 0 {
                let r = target - first - (firings - 1) * period;
                assert((firings - 1) * period == firings * period - period) by (nonlinear_arith);
                lemma_fundamental_div_mod_converse(target - first, period, firings - 1, r);
            }
        }
        ticks
    }

    /// Resumes the receive task with the result of a read into `buf`, and
    /// hands on what it wants done. Clock and heartbeat are not touched.
    pub fn deliver<'a>(&mut self, buf: &'a [u8], read: Result<usize, TransportError>) -> (action:
        Action<'a>)
        requires
            old(self).receiver.state == ReceiveState::AwaitingData,
            read matches Ok(n) ==> n <= buf@.len(),
        ensures
            final(self).now == old(self).now,
            final(self).heartbeat == old(self).heartbeat,
            final(self).receiver == old(self).receiver.after_read(buf@, read),
            read matches Err(e) ==> action == Action::<'a>::ReportReadError(e),
            read matches Ok(n) && n == 0 ==> action == Action::<'a>::Skip,
            is_decode_failure(buf@, read) ==> action == Action::<'a>::ReportDecodeError,
            calls_for_echo(buf@, read) ==> (action matches Action::Echo { text, line } && text@
                == frame_text(buf@, frame_end(buf@, read->Ok_0 as int)) && line@ == echo_of(
                text@,
            )),
    {
        self.receiver.on_read(buf, read)
    }

    /// Resumes the receive task with the result of writing its reply. Clock
    /// and heartbeat are not touched.
    pub fn written(&mut self, result: Result<(), WriteError>) -> (done: Completion)
        requires
            old(self).receiver.state == ReceiveState::Processing,
        ensures
            final(self).now == old(self).now,
            final(self).heartbeat == old(self).heartbeat,
            final(self).receiver.state == ReceiveState::AwaitingData,
            result is Ok ==> done == Completion::Echoed,
            result matches Err(e) ==> done == Completion::ReportWriteError(e),
    {
        self.receiver.on_write(result)
    }

    /// With every task suspended, one period of time brings exactly one
    /// firing of the heartbeat.
    pub proof fn lemma_one_period_one_firing(self)
        requires
            self.wf(),
        ensures
            firings_until(
                self.heartbeat.deadline as int,
                self.heartbeat.period as int,
                self.now + self.heartbeat.period,
            ) == 1,
    {
        let p = self.heartbeat.period as int;
        let x = self.now + p - self.heartbeat.deadline;
        lemma_fundamental_div_mod_converse(x, p, 0, x);
    }

    /// Over any stretch of time that starts at a firing, the heartbeat fires
    /// once for every whole period in it: the firings are one period apart,
    /// whatever the serial link does meanwhile.
    pub proof fn lemma_firings_count_whole_periods(self, n: nat)
        requires
            self.wf(),
            self.heartbeat.deadline == self.now + self.heartbeat.period,
        ensures
            firings_until(
                self.heartbeat.deadline as int,
                self.heartbeat.period as int,
                self.now + n * self.heartbeat.period,
            ) == n,
    {
        let p = self.heartbeat.period as int;
        if n > 0 {
            assert(n * p - p == (n - 1) * p) by (nonlinear_arith);
            assert((n - 1) * p >= 0) by (nonlinear_arith)
                requires
                    n >= 1,
                    p > 0,
            ;
            lemma_fundamental_div_mod_converse((n - 1) * p, p, n - 1, 0);
        } else {
            assert(0 * p == 0) by (nonlinear_arith);
        }
    }

    /// The scheduler after each of `steps` in turn. In a step the clock moves
    /// on by so many ticks, and then a read completes, given by the buffer
    /// and by what the transport said of it.
    pub open spec fn after_steps(
        self,
        steps: Seq<(u64, Seq<u8>, Result<usize, TransportError>)>,
    ) -> Self
        decreases steps.len(),
    {
        if steps.len() == 0 {
            self
        } else {
            let moved = self.after_advance(steps.first().0);
            let read = Scheduler {
                receiver: moved.receiver.after_read(steps.first().1, steps.first().2),
                ..moved
            };
            read.after_steps(steps.drop_first())
        }
    }

    /// Moving the clock leaves every task suspended again, the heartbeat with
    /// its period and with a deadline that is one of its ticks.
    pub proof fn lemma_after_advance(self, dt: u64)
        requires
            self.wf(),
            self.now + dt + self.heartbeat.period <= u64::MAX,
        ensures
            self.after_advance(dt).wf(),
            self.after_advance(dt).now == self.now + dt,
            self.after_advance(dt).heartbeat.deadline == self.heartbeat.deadline + firings_until(
                self.heartbeat.deadline as int,
                self.heartbeat.period as int,
                self.now + dt,
            ) * self.heartbeat.period,
    {
        let d = self.heartbeat.deadline as int;
        let p = self.heartbeat.period as int;
        let f = firings_until(d, p, self.now + dt);
        lemma_firings_are_the_period_ticks(d, p, self.now + dt, f);
        if f > 0 {
            lemma_firings_are_the_period_ticks(d, p, self.now + dt, f - 1);
            assert(f * p == (f - 1) * p + p) by (nonlinear_arith);
        } else {
            assert(f * p == 0) by (nonlinear_arith)
                requires
                    f == 0,
            ;
        }
    }

    /// The heartbeat is blind to the serial link: after any run of steps the
    /// clock and the heartbeat are where the same time without any read
    /// would have brought them, so every firing comes at the same tick in
    /// both, none held up, left out or added.
    pub proof fn lemma_heartbeat_blind_to_serial_traffic(
        self,
        steps: Seq<(u64, Seq<u8>, Result<usize, TransportError>)>,
    )
        requires
            self.wf(),
            self.now + ticks_of(steps) + self.heartbeat.period <= u64::MAX,
        ensures
            ticks_of(steps) >= 0,
            self.after_steps(steps).now == self.now + ticks_of(steps),
            self.after_steps(steps).heartbeat == self.after_advance(
                ticks_of(steps) as u64,
            ).heartbeat,
        decreases steps.len(),
    {
        let d = self.heartbeat.deadline as int;
        let p = self.heartbeat.period as int;
        lemma_ticks_of_not_negative(steps);
        if steps.len() == 0 {
            self.lemma_after_advance(0);
            assert(0 * p == 0) by (nonlinear_arith);
        } else {
            let dt = steps.first().0;
            let rest = steps.drop_first();
            let later = ticks_of(rest);
            lemma_ticks_of_not_negative(rest);
            self.lemma_after_advance(dt);
            let moved = self.after_advance(dt);
            let read = Scheduler {
                receiver: moved.receiver.after_read(steps.first().1, steps.first().2),
                ..moved
            };
            read.lemma_heartbeat_blind_to_serial_traffic(rest);
            read.lemma_after_advance(later as u64);
            self.lemma_after_advance((dt + later) as u64);
            lemma_firings_add_up(d, p, self.now + dt, self.now + dt + later);
            let f1 = firings_until(d, p, self.now + dt);
            let f2 = firings_until(d + f1 * p, p, self.now + dt + later);
            assert(d + f1 * p + f2 * p == d + (f1 + f2) * p) by (nonlinear_arith);
        }
    }
}

} // verus!
