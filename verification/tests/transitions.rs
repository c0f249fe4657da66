use glissade::{
    followed_by, transition, Duration, EasingTransition, Factor, LinearTransition, NoneTransition,
    SequentialTransition, Transition,
};
use glissade::Easing;

fn ticks(t: u64) -> Duration {
    Duration::from_ticks(t)
}

#[test]
fn none_transition() {
    let transition = NoneTransition::new(0i64, Duration::from_ticks(1000));
    assert_eq!(transition.get(ticks(0)), 0);
    assert_eq!(transition.get(ticks(500)), 0);
    assert_eq!(transition.get(ticks(1000)), 0);
}

#[test]
fn linear_transition() {
    let transition = LinearTransition::new(0i64, 1000, ticks(1000));
    assert_eq!(transition.get(ticks(0)), 0);
    assert_eq!(transition.get(ticks(500)), 500);
    assert_eq!(transition.get(ticks(1000)), 1000);
}

#[test]
fn sequential_transition() {
    let transition = SequentialTransition::new(
        LinearTransition::new(0i64, 1000, ticks(1000)),
        LinearTransition::new(1000i64, 0, ticks(1000)),
    );
    assert_eq!(transition.get(ticks(0)), 0);
    assert_eq!(transition.get(ticks(500)), 500);
    assert_eq!(transition.get(ticks(1000)), 1000);
    assert_eq!(transition.get(ticks(1500)), 500);
    assert_eq!(transition.get(ticks(2000)), 0);
}

#[test]
fn easing_transition() {
    let transition = EasingTransition::new(0i64, 1000, ticks(1000), Easing::QuadraticIn);
    assert_eq!(transition.get(ticks(0)), 0);
    assert_eq!(transition.get(ticks(500)), 250);
    assert_eq!(transition.get(ticks(1000)), 1000);
}

#[test]
fn inverted_transition() {
    let transition = transition(0i64).go_to(1000, ticks(1000)).invert();
    assert_eq!(transition.get(ticks(0)), 1000);
    assert_eq!(transition.get(ticks(500)), 500);
    assert_eq!(transition.get(ticks(1000)), 0);
}

#[test]
fn keyframes_none_keyframes() {
    let keyframes = NoneTransition::new(0i64, ticks(1000));
    assert_eq!(keyframes.get(ticks(0)), 0);
    assert_eq!(keyframes.get(ticks(500)), 0);
    assert_eq!(keyframes.get(ticks(1000)), 0);
}

#[test]
fn keyframes_linear_keyframes() {
    let keyframes = LinearTransition::new(0i64, 1000, ticks(1000));
    assert_eq!(keyframes.get(ticks(0)), 0);
    assert_eq!(keyframes.get(ticks(500)), 500);
    assert_eq!(keyframes.get(ticks(1000)), 1000);
}

#[test]
fn keyframes_sequential_keyframes() {
    let keyframes = SequentialTransition::new(
        LinearTransition::new(0i64, 1000, ticks(1000)),
        LinearTransition::new(1000i64, 0, ticks(1000)),
    );
    assert_eq!(keyframes.get(ticks(0)), 0);
    assert_eq!(keyframes.get(ticks(500)), 500);
    assert_eq!(keyframes.get(ticks(1000)), 1000);
    assert_eq!(keyframes.get(ticks(1500)), 500);
    assert_eq!(keyframes.get(ticks(2000)), 0);
}

#[test]
fn keyframes_easing_keyframes() {
    let keyframes = EasingTransition::new(0i64, 1000, ticks(1000), Easing::QuadraticIn);
    assert_eq!(keyframes.get(ticks(0)), 0);
    assert_eq!(keyframes.get(ticks(500)), 250);
    assert_eq!(keyframes.get(ticks(1000)), 1000);
}

#[test]
fn keyframes_reversed_keyframes() {
    let keyframes = transition(0i64).go_to(1000, ticks(1000)).reverse();
    assert_eq!(keyframes.get(ticks(0)), 1000);
    assert_eq!(keyframes.get(ticks(500)), 500);
    assert_eq!(keyframes.get(ticks(1000)), 0);
}

#[test]
fn keyframes_repeat_test_repeat_keyframes() {
    let keyframes = transition(0i64).go_to(8000, ticks(1000)).repeat();
    assert_eq!(keyframes.get(ticks(0)), 0);
    assert_eq!(keyframes.get(ticks(500)), 4000);
    assert_eq!(keyframes.get(ticks(750)), 6000);
    assert_eq!(keyframes.get(ticks(1500)), 4000);
    assert_eq!(keyframes.get(ticks(2250)), 2000);
    assert_eq!(keyframes.get(ticks(2500)), 4000);
    assert_eq!(keyframes.get(ticks(8250)), 2000);
}

#[test]
fn keyframes_repeat_n_test_repeat_keyframes() {
    let keyframes = transition(0i64)
        .go_to(10000, ticks(1000))
        .repeat_n(Factor::new(2, 1));
    assert_eq!(keyframes.get(ticks(0)), 0);
    assert_eq!(keyframes.get(ticks(500)), 5000);
    assert_eq!(keyframes.get(ticks(750)), 7500);
    assert_eq!(keyframes.get(ticks(1500)), 5000);
    assert_eq!(keyframes.get(ticks(2000)), 10000);
    assert_eq!(keyframes.get(ticks(2100)), 10000);
    assert_eq!(keyframes.get(ticks(100000)), 10000);
}

#[test]
fn test_slice_keyframes() {
    let keyframes = LinearTransition::new(1000i64, 5000, ticks(4000));
    let keyframes = keyframes.slice(ticks(1000), ticks(3000));
    assert_eq!(keyframes.get(ticks(0)), 2000);
    assert_eq!(keyframes.get(ticks(1000)), 3000);
    assert_eq!(keyframes.get(ticks(2000)), 4000);
    assert_eq!(keyframes.get(ticks(3000)), 4000);
    assert_eq!(keyframes.get(ticks(4000)), 4000);
    assert_eq!(keyframes.get(ticks(5000)), 4000);
    assert_eq!(keyframes.duration(), ticks(2000));
}

#[test]
fn builder_chain_starts_where_previous_ended() {
    let t = transition(5000i64)
        .stay(ticks(1000))
        .go_to(9000, ticks(4000))
        .repeat_n(Factor::new(2, 1));
    assert_eq!(t.get(ticks(0)), 5000);
    assert_eq!(t.get(ticks(1000)), 5000);
    assert_eq!(t.get(ticks(2000)), 6000);
    assert_eq!(t.get(ticks(3000)), 7000);
    assert_eq!(t.get(ticks(4000)), 8000);
    assert_eq!(t.get(ticks(4500)), 8500);
    assert_eq!(t.get(ticks(6000)), 5000);
    assert_eq!(t.get(ticks(74000)), 9000);
}

#[test]
fn scale_stretches_time() {
    let t = transition(0i64).go_to(1000, ticks(1000)).scale(Factor::new(2, 1));
    assert_eq!(t.duration(), ticks(2000));
    assert_eq!(t.get(ticks(0)), 0);
    assert_eq!(t.get(ticks(1000)), 500);
    assert_eq!(t.get(ticks(2000)), 1000);
}

#[test]
fn scale_to_reaches_target_duration() {
    let t = transition(0i64).go_to(1000, ticks(1000)).scale_to(ticks(500));
    assert_eq!(t.duration(), ticks(500));
    assert_eq!(t.get(ticks(250)), 500);
    assert_eq!(t.get(ticks(500)), 1000);
}

#[test]
fn repeat_n_zero_rounds_stays_at_start() {
    let t = transition(0i64)
        .go_to(1000, ticks(1000))
        .repeat_n(Factor::new(0, 1));
    assert_eq!(t.duration(), ticks(0));
    assert_eq!(t.get(ticks(0)), 0);
    assert_eq!(t.get(ticks(500)), 0);
}

#[test]
fn zero_duration_transition_settles_instantly() {
    let t = LinearTransition::new(0i64, 1000, ticks(0));
    assert_eq!(t.get(ticks(0)), 1000);
    assert_eq!(t.get(ticks(5)), 1000);
}

#[test]
fn followed_by_concatenates() {
    let t = followed_by(
        transition(0i64).go_to(1000, ticks(1000)),
        LinearTransition::new(1000i64, 3000, ticks(500)),
    );
    assert_eq!(t.duration(), ticks(1500));
    assert_eq!(t.get(ticks(1250)), 2000);
}

#[test]
fn keyframes_trait_none_keyframes() {
    let keyframes = NoneTransition::new(0i64, ticks(1000));
    assert_eq!(keyframes.get(ticks(0)), 0);
    assert_eq!(keyframes.get(ticks(500)), 0);
    assert_eq!(keyframes.get(ticks(1000)), 0);
}

#[test]
fn keyframes_trait_linear_keyframes() {
    let keyframes = LinearTransition::new(0i64, 1000, ticks(1000));
    assert_eq!(keyframes.get(ticks(0)), 0);
    assert_eq!(keyframes.get(ticks(500)), 500);
    assert_eq!(keyframes.get(ticks(1000)), 1000);
}

#[test]
fn keyframes_trait_sequential_keyframes() {
    let keyframes = SequentialTransition::new(
        LinearTransition::new(0i64, 1000, ticks(1000)),
        LinearTransition::new(1000i64, 0, ticks(1000)),
    );
    assert_eq!(keyframes.get(ticks(0)), 0);
    assert_eq!(keyframes.get(ticks(500)), 500);
    assert_eq!(keyframes.get(ticks(1000)), 1000);
    assert_eq!(keyframes.get(ticks(1500)), 500);
    assert_eq!(keyframes.get(ticks(2000)), 0);
}

#[test]
fn keyframes_trait_easing_keyframes() {
    let keyframes = EasingTransition::new(0i64, 1000, ticks(1000), Easing::QuadraticIn);
    assert_eq!(keyframes.get(ticks(0)), 0);
    assert_eq!(keyframes.get(ticks(500)), 250);
    assert_eq!(keyframes.get(ticks(1000)), 1000);
}

#[test]
fn keyframes_trait_reversed_keyframes() {
    let keyframes = transition(0i64).go_to(1000, ticks(1000)).reverse();
    assert_eq!(keyframes.get(ticks(0)), 1000);
    assert_eq!(keyframes.get(ticks(500)), 500);
    assert_eq!(keyframes.get(ticks(1000)), 0);
}

#[test]
fn repeat_n_fractional_count_reaches_the_end_value() {
    let t = transition(0i64)
        .go_to(8000, ticks(1000))
        .repeat_n(Factor::new(1, 3));
    assert_eq!(t.duration(), ticks(334));
    assert_eq!(t.get(ticks(333)), 2664);
    assert_eq!(t.get(ticks(334)), 8000);
    assert_eq!(t.get(ticks(500)), 8000);
    assert_eq!(t.get(t.duration()), 8000);
}

#[test]
fn scale_to_zero_duration_holds_the_start_value() {
    let t = transition(0i64).go_to(1000, ticks(1000)).scale_to(ticks(0));
    assert_eq!(t.duration(), ticks(0));
    assert_eq!(t.get(ticks(0)), 0);
    assert_eq!(t.get(ticks(500)), 0);
}
