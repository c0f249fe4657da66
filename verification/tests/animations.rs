use glissade::{
    poly_to, transition, Animated, Animation, Duration, Easing, LinearTransition, Tick, Transition,
};

fn at(t: u64) -> Tick {
    Tick::from_ticks(t)
}

fn ticks(t: u64) -> Duration {
    Duration::from_ticks(t)
}

#[test]
fn animation_it_works() {
    let keyframes = LinearTransition::new(0i64, 10000, ticks(1000));
    let start_time = at(0);
    let animation = Animation::start(keyframes, start_time);
    let result = animation.get(at(500));
    assert_eq!(result, 5000);
}

#[test]
fn animation_struct_it_works() {
    let keyframes = LinearTransition::new(0i64, 10000, ticks(1000));
    let start_time = at(0);
    let animation = Animation::start(keyframes, start_time);
    let result = animation.get(at(500));
    assert_eq!(result, 5000);
}

#[test]
fn animation_run_and_finish() {
    let animation = transition(0i64).go_to(1000, ticks(1000)).run(at(100));
    assert_eq!(animation.start_time(), at(100));
    assert_eq!(animation.end_time(), at(1100));
    assert_eq!(animation.get(at(100)), 0);
    assert_eq!(animation.get(at(600)), 500);
    assert_eq!(animation.get(at(1100)), 1000);
    assert_eq!(animation.get(at(2000)), 1000);
    assert!(!animation.is_finished(at(600)));
    assert!(animation.is_finished(at(1100)));
}

#[test]
fn stationary_value_is_always_finished() {
    let value: i64 = 42;
    assert_eq!(value.get(at(0)), 42);
    assert_eq!(value.get(at(12345)), 42);
    assert!(value.is_finished(at(0)));
}

#[test]
fn poly_to_travels_through_points() {
    let t = poly_to(
        transition(0i64),
        vec![1000, 2000],
        ticks(1000),
        Easing::Linear,
    );
    assert_eq!(t.get(ticks(0)), 0);
    assert_eq!(t.get(ticks(250)), 500);
    assert_eq!(t.get(ticks(500)), 1000);
    assert_eq!(t.get(ticks(750)), 1500);
    assert_eq!(t.get(ticks(1000)), 2000);
}

#[test]
fn test_apply_easing_keyframes() {
    let keyframes = LinearTransition::new(0i64, 4000, ticks(1000))
        .go_to(12000, ticks(1000))
        .apply_easing(Easing::QuadraticInOut)
        .run(at(0));

    assert_eq!(keyframes.get(at(0)), 0);
    assert_eq!(keyframes.get(at(500)), 1000);
    assert_eq!(keyframes.get(at(1000)), 4000);
    assert_eq!(keyframes.get(at(1500)), 10000);
    assert_eq!(keyframes.get(at(2000)), 12000);
}
