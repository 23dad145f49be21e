use bevy::time::{Timer, TimerMode};
use dark_arts_defense::timer::Countdown;
use std::time::Duration;

fn agree(countdown: &Countdown, timer: &Timer) {
    assert_eq!(Duration::from_nanos(countdown.duration), timer.duration());
    assert_eq!(Duration::from_nanos(countdown.elapsed), timer.elapsed());
    assert_eq!(countdown.finished, timer.finished());
    assert_eq!(countdown.just_finished, timer.just_finished());
}

#[test]
fn countdown_runs_as_a_one_shot_timer_of_bevy() {
    let durations = [0u64, 1, 7, 1_000, 1_500_000_000, 4_000_000_000];
    let deltas = [0u64, 1, 3, 6, 999, 1_000, 16_666_667, 1_499_999_999, 1_500_000_000, 5_000_000_000];
    for duration in durations {
        for first in deltas {
            for second in deltas {
                let mut countdown = Countdown::new(duration);
                let mut timer = Timer::new(Duration::from_nanos(duration), TimerMode::Once);
                agree(&countdown, &timer);
                for delta in [first, second, first, second, 0] {
                    let just_finished = countdown.tick(delta);
                    timer.tick(Duration::from_nanos(delta));
                    assert_eq!(just_finished, timer.just_finished());
                    agree(&countdown, &timer);
                }
            }
        }
    }
}

#[test]
fn countdown_with_jitter_is_a_timer_of_the_sum() {
    let countdown = Countdown::with_jitter(4_000_000_000, 250_000_000);
    let timer = Timer::new(Duration::from_nanos(4_250_000_000), TimerMode::Once);
    agree(&countdown, &timer);
}
