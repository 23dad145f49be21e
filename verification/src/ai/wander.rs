use vstd::prelude::*;
use crate::ai::behavior::WanderBehavior;
use crate::timer::{saturating_sum, Countdown};
use crate::units::unit::Unit;
use crate::velocity::{Pace, Velocity};

verus! {

/// A wandering unit picks each coordinate of its heading among the whole
/// numbers from `-HEADING_SPREAD` to `HEADING_SPREAD`.
pub const HEADING_SPREAD: u64 = 1_000_000;

/// What a wandering unit draws when one of its countdowns runs out: how much
/// longer than its base the next countdown lasts, and, where it sets out on a
/// stroll, the heading of the stroll.
#[derive(Clone, Copy, Debug, PartialEq, Eq, Structural)]
pub struct WanderDraws {
    pub jitter: u64,
    pub heading_x: i32,
    pub heading_y: i32,
}

/// Whether `draws` could have been drawn for `wander`: a jitter of no more
/// than its time offset, and a heading within the spread.
pub open spec fn wander_draws_fit(wander: WanderBehavior, draws: WanderDraws) -> bool {
    &&& draws.jitter <= wander.random_time_offset
    &&& -HEADING_SPREAD <= draws.heading_x <= HEADING_SPREAD
    &&& -HEADING_SPREAD <= draws.heading_y <= HEADING_SPREAD
}

/// The state after `delta` has passed: the countdown of the phase that the
/// unit is in has run for `delta`, and the other one has not moved.
pub open spec fn wander_ticked(wander: WanderBehavior, delta: u64) -> WanderBehavior {
    if wander.is_wandering {
        WanderBehavior { wander_timer: wander.wander_timer.ticked(delta), ..wander }
    } else {
        WanderBehavior { wait_timer: wander.wait_timer.ticked(delta), ..wander }
    }
}

/// Whether the countdown of the current phase runs out on this tick.
pub open spec fn wander_expires(wander: WanderBehavior, delta: u64) -> bool {
    if wander.is_wandering {
        wander.wander_timer.ticked(delta).just_finished
    } else {
        wander.wait_timer.ticked(delta).just_finished
    }
}

/// The state after a change of phase. A unit that strolled now waits, for its
/// wait time and `jitter` more; a unit that waited now strolls, for its wander
/// time and `jitter` more.
pub open spec fn wander_turned(wander: WanderBehavior, jitter: u64) -> WanderBehavior {
    if wander.is_wandering {
        WanderBehavior {
            is_wandering: false,
            wait_timer: Countdown::fresh(saturating_sum(wander.wait_time, jitter)),
            ..wander
        }
    } else {
        WanderBehavior {
            is_wandering: true,
            wander_timer: Countdown::fresh(saturating_sum(wander.wander_time, jitter)),
            ..wander
        }
    }
}

/// The velocity after a change of phase. A unit that strolled stops; a unit
/// that waited sets out along the heading that was drawn, at half its speed.
pub open spec fn wander_velocity(wander: WanderBehavior, draws: WanderDraws) -> Velocity {
    if wander.is_wandering {
        Velocity::spec_zero()
    } else {
        Velocity { x: draws.heading_x as i128, y: draws.heading_y as i128, pace: Pace::Half }
    }
}

/// The state of a wandering unit after a tick of `delta` on which it draws
/// `draws`. The phase changes on the tick on which its countdown runs out, and
/// on no other.
pub open spec fn wander_stepped(wander: WanderBehavior, delta: u64, draws: WanderDraws) -> WanderBehavior {
    if wander_expires(wander, delta) {
        wander_turned(wander_ticked(wander, delta), draws.jitter)
    } else {
        wander_ticked(wander, delta)
    }
}

/// The velocity of a wandering unit after a tick of `delta` on which it draws
/// `draws`: a new one on the tick on which the phase changes, else the old.
pub open spec fn wander_stepped_velocity(
    wander: WanderBehavior,
    velocity: Velocity,
    delta: u64,
    draws: WanderDraws,
) -> Velocity {
    if wander_expires(wander, delta) {
        wander_velocity(wander, draws)
    } else {
        velocity
    }
}

/// Whether `unit` is under the wander behaviour and has what it needs for it.
pub open spec fn wanders(unit: Unit) -> bool {
    unit.current_behavior.0 is Wander && unit.wander is Some
}

/// The unit after a tick of `delta` on which it draws `draws`. A unit that
/// does not wander stays as it is, countdowns included.
pub open spec fn wandered(unit: Unit, delta: u64, draws: WanderDraws) -> Unit {
    if wanders(unit) {
        Unit {
            velocity: wander_stepped_velocity(unit.wander->0, unit.velocity, delta, draws),
            wander: Some(wander_stepped(unit.wander->0, delta, draws)),
            ..unit
        }
    } else {
        unit
    }
}

/// Whether `after` is what a tick of `delta` makes of `before` for some draws
/// that `before` allows.
pub open spec fn is_wandered(before: Unit, after: Unit, delta: u64) -> bool {
    exists|draws: WanderDraws|
        (before.wander is Some ==> wander_draws_fit(before.wander->0, draws)) && after
            == #[trigger] wandered(before, delta, draws)
}

/// Lets the countdown of the current phase run for `delta` and says whether
/// it has run out on this tick.
pub fn wander_tick(wander: &mut WanderBehavior, delta: u64) -> (expired: bool)
    ensures
        *final(wander) == wander_ticked(*old(wander), delta),
        expired == wander_expires(*old(wander), delta),
{
    if wander.is_wandering {
        wander.wander_timer.tick(delta)
    } else {
        wander.wait_timer.tick(delta)
    }
}

/// Changes the phase: from strolling to waiting and standing still, or from
/// waiting to strolling along the heading that was drawn.
pub fn wander_turn(wander: &mut WanderBehavior, velocity: &mut Velocity, draws: &WanderDraws)
    ensures
        *final(wander) == wander_turned(*old(wander), draws.jitter),
        *final(velocity) == wander_velocity(*old(wander), *draws),
{
    if wander.is_wandering {
        wander.is_wandering = false;
        wander.wait_timer = Countdown::with_jitter(wander.wait_time, draws.jitter);
        *velocity = Velocity::zero();
    } else {
        wander.is_wandering = true;
        wander.wander_timer = Countdown::with_jitter(wander.wander_time, draws.jitter);
        *velocity = Velocity {
            x: draws.heading_x as i128,
            y: draws.heading_y as i128,
            pace: Pace::Half,
        };
    }
}

/// One tick of a wandering unit with the draws given: the countdown of the
/// current phase runs for `delta`, and on the tick on which it runs out the
/// phase changes.
pub fn wander_step(
    wander: &mut WanderBehavior,
    velocity: &mut Velocity,
    delta: u64,
    draws: &WanderDraws,
)
    ensures
        *final(wander) == wander_stepped(*old(wander), delta, *draws),
        *final(velocity) == wander_stepped_velocity(*old(wander), *old(velocity), delta, *draws),
{
    if wander_tick(wander, delta) {
        wander_turn(wander, velocity, draws);
    }
}

/// A unit that waits sets out on the tick that completes its wait, at half
/// speed where the heading drawn is not the zero vector, and not before.
pub proof fn lemma_wait_ends_in_stroll(
    wander: WanderBehavior,
    velocity: Velocity,
    delta: u64,
    draws: WanderDraws,
)
    requires
        !wander.is_wandering,
        !wander.wait_timer.finished,
    ensures
        wander_stepped(wander, delta, draws).is_wandering <==> wander.wait_timer.elapsed + delta
            >= wander.wait_timer.duration,
        wander_stepped(wander, delta, draws).is_wandering ==> {
            &&& wander_stepped_velocity(wander, velocity, delta, draws).pace == Pace::Half
            &&& wander_stepped_velocity(wander, velocity, delta, draws).speed_in_halves() == (if draws.heading_x
                == 0 && draws.heading_y == 0 {
                0nat
            } else {
                1nat
            })
            &&& wander_stepped(wander, delta, draws).wander_timer == Countdown::fresh(
                saturating_sum(wander.wander_time, draws.jitter),
            )
        },
        !wander_stepped(wander, delta, draws).is_wandering ==> wander_stepped_velocity(
            wander,
            velocity,
            delta,
            draws,
        ) == velocity,
{
}

/// A unit that strolls stops on the tick that completes its stroll, and not
/// before.
pub proof fn lemma_stroll_ends_in_wait(
    wander: WanderBehavior,
    velocity: Velocity,
    delta: u64,
    draws: WanderDraws,
)
    requires
        wander.is_wandering,
        !wander.wander_timer.finished,
    ensures
        !wander_stepped(wander, delta, draws).is_wandering <==> wander.wander_timer.elapsed
            + delta >= wander.wander_timer.duration,
        !wander_stepped(wander, delta, draws).is_wandering ==> {
            &&& wander_stepped_velocity(wander, velocity, delta, draws).is_zero()
            &&& wander_stepped(wander, delta, draws).wait_timer == Countdown::fresh(
                saturating_sum(wander.wait_time, draws.jitter),
            )
        },
        wander_stepped(wander, delta, draws).is_wandering ==> wander_stepped_velocity(
            wander,
            velocity,
            delta,
            draws,
        ) == velocity,
{
}

} // verus!
