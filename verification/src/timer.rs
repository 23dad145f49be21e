use vstd::prelude::*;
use bevy::time::{Timer, TimerMode};
use std::time::Duration;

verus! {

/// A one-shot countdown, in nanoseconds. It runs until the time that has
/// elapsed reaches its duration, reports the tick on which that happened, and
/// then stays finished until it is replaced by a fresh one. It holds in whole
/// numbers the state of a `bevy::time::Timer` in `Once` mode that is never
/// paused, and leaves the ticking to that timer.
#[derive(Clone, Copy, Debug, PartialEq, Eq, Structural)]
pub struct Countdown {
    pub duration: u64,
    pub elapsed: u64,
    pub finished: bool,
    pub just_finished: bool,
}

/// The sum of two spans of time, held at the largest span there is.
pub open spec fn saturating_sum(a: u64, b: u64) -> u64 {
    if a + b > u64::MAX {
        u64::MAX
    } else {
        (a + b) as u64
    }
}

impl Countdown {
    /// The elapsed time never passes the duration; a finished countdown sits
    /// at its duration, and only a finished one can have just finished.
    pub open spec fn wf(self) -> bool {
        &&& self.elapsed <= self.duration
        &&& self.finished ==> self.elapsed == self.duration
        &&& self.just_finished ==> self.finished
    }

    /// A countdown of the given duration with no time elapsed.
    pub open spec fn fresh(duration: u64) -> Countdown {
        Countdown { duration, elapsed: 0, finished: false, just_finished: false }
    }

    /// The countdown after `delta` more nanoseconds. A finished countdown only
    /// forgets that it had just finished. A running one adds `delta`, stops at
    /// its duration, and has just finished if it got there.
    pub open spec fn ticked(self, delta: u64) -> Countdown {
        if self.finished {
            Countdown { just_finished: false, ..self }
        } else if self.elapsed + delta >= self.duration {
            Countdown { elapsed: self.duration, finished: true, just_finished: true, ..self }
        } else {
            Countdown { elapsed: (self.elapsed + delta) as u64, just_finished: false, ..self }
        }
    }

    pub fn new(duration: u64) -> (countdown: Countdown)
        ensures
            countdown == Countdown::fresh(duration),
            countdown.wf(),
    {
        Countdown { duration, elapsed: 0, finished: false, just_finished: false }
    }

    /// A fresh countdown of `base + jitter` nanoseconds, held at the largest
    /// duration there is.
    pub fn with_jitter(base: u64, jitter: u64) -> (countdown: Countdown)
        ensures
            countdown == Countdown::fresh(saturating_sum(base, jitter)),
            countdown.wf(),
    {
        Countdown::new(base.saturating_add(jitter))
    }

    /// Advances the countdown by `delta` nanoseconds and says whether it
    /// finished on this very tick. A running countdown is ticked by bevy's
    /// timer; a finished one is not ticked any more.
    pub fn tick(&mut self, delta: u64) -> (just_finished: bool)
        ensures
            *final(self) == old(self).ticked(delta),
            just_finished == final(self).just_finished,
            old(self).wf() ==> final(self).wf(),
    {
        if self.finished {
            self.just_finished = false;
        } else {
            let (elapsed, finished, just_finished) = tick_running_timer(
                self.duration,
                self.elapsed,
                delta,
            );
            self.elapsed = elapsed;
            self.finished = finished;
            self.just_finished = just_finished;
        }
        self.just_finished
    }
}

/// Ticks a `bevy::time::Timer` with `Timer::tick`: a timer in `Once` mode of
/// `duration` nanoseconds, not paused and not finished, on which `elapsed`
/// nanoseconds have passed, is ticked by `delta` nanoseconds. Hands back the
/// nanoseconds elapsed on it afterwards, and what `Timer::finished` and
/// `Timer::just_finished` then say.
///
/// `tick` adds `delta` to the time elapsed. Where the sum reaches the
/// duration it sets the timer to finished, counts one finish for this tick
/// and puts the time elapsed back to the duration; else the timer has not
/// finished. The sum of two spans of less than 2^64 nanoseconds is within what
/// a `Duration` holds, so the addition does not panic.
#[verifier::external_body]
fn tick_running_timer(duration: u64, elapsed: u64, delta: u64) -> (ticked: (u64, bool, bool))
    ensures
        ticked.0 == (if elapsed + delta >= duration {
            duration
        } else {
            (elapsed + delta) as u64
        }),
        ticked.1 == (elapsed + delta >= duration),
        ticked.2 == (elapsed + delta >= duration),
{
    let mut timer = Timer::new(Duration::from_nanos(duration), TimerMode::Once);
    timer.set_elapsed(Duration::from_nanos(elapsed));
    timer.tick(Duration::from_nanos(delta));
    (timer.elapsed().as_nanos() as u64, timer.finished(), timer.just_finished())
}

/// A countdown that has finished stays finished, whatever time passes.
pub proof fn lemma_finished_is_final(countdown: Countdown, delta: u64)
    requires
        countdown.finished,
    ensures
        countdown.ticked(delta).finished,
        !countdown.ticked(delta).just_finished,
        countdown.ticked(delta).elapsed == countdown.elapsed,
{
}

/// A fresh countdown finishes on the first tick that brings the time elapsed
/// up to its duration, and not before.
pub proof fn lemma_fresh_finishes_at_duration(duration: u64, delta: u64)
    ensures
        Countdown::fresh(duration).ticked(delta).just_finished <==> delta >= duration,
{
}

} // verus!
