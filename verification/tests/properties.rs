use glissade::{followed_by, transition, Duration, Inertial, LinearTransition, Tick, Transition};

fn at(t: u64) -> Tick {
    Tick::from_ticks(t)
}

fn ticks(t: u64) -> Duration {
    Duration::from_ticks(t)
}

#[test]
fn boundary_property() {
    // A finite template evaluated at its duration, and at anything larger,
    // yields the end value.
    let t = LinearTransition::new(0i64, 10000, ticks(1000));
    assert_eq!(t.get(ticks(1000)), 10000);
    assert_eq!(t.get(ticks(2000)), 10000);
    assert_eq!(t.end_value(), 10000);
    assert_eq!(t.get(t.duration()), t.end_value());
}

#[test]
fn continuity_at_retarget() {
    // Retargeting mid-flight departs from wherever the previous transition
    // currently is: no jump at the instant of retargeting.
    let v0 = Inertial::new(5000i64);
    let v1 = v0.go_to(10000, at(500), ticks(1000));
    let v2 = Inertial::new(5000i64)
        .go_to(10000, at(500), ticks(1000))
        .go_to(2000, at(1000), ticks(1000));
    assert_eq!(v1.get(at(1000)), 7500);
    assert_eq!(v2.get(at(1000)), 7500);
    assert_eq!(v2.get(at(1000)), v1.get(at(1000)));
}

#[test]
fn sequential_duration_additivity() {
    let a = transition(0i64).go_to(1000, ticks(1000));
    let b = LinearTransition::new(1000i64, 0, ticks(500));
    let b_copy = LinearTransition::new(1000i64, 0, ticks(500));
    let ab = followed_by(a, b);
    assert_eq!(
        ab.duration().ticks,
        ab.t1.duration().ticks + ab.t2.duration().ticks
    );
    for x in [0u64, 100, 250, 500] {
        assert_eq!(ab.get(ticks(1000 + x)), b_copy.get(ticks(x)));
    }
}

#[test]
fn repeat_periodicity() {
    let t = transition(0i64).go_to(8000, ticks(1000)).repeat();
    assert_eq!(t.get(ticks(250)), 2000);
    assert_eq!(t.get(ticks(1250)), 2000);
    assert_eq!(t.get(ticks(8250)), 2000);
}

#[test]
fn reverse_involution() {
    let a = transition(0i64).go_to(8000, ticks(1000));
    let rr = transition(0i64).go_to(8000, ticks(1000)).reverse().reverse();
    for x in [0u64, 125, 500, 900, 1000] {
        assert_eq!(rr.get(ticks(x)), a.get(ticks(x)));
    }
    let r = transition(0i64).go_to(8000, ticks(1000)).reverse();
    assert_eq!(r.get(ticks(0)), a.get(ticks(1000)));
}
