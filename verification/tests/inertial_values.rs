use glissade::{Duration, Easing, Inertial, Tick};

fn at(t: u64) -> Tick {
    Tick::from_ticks(t)
}

fn ticks(t: u64) -> Duration {
    Duration::from_ticks(t)
}

#[test]
fn inertial_new_at() {
    let start_time = at(0);
    let inertial = Inertial::new(5i64);
    assert_eq!(inertial.get(start_time), 5);
    assert_eq!(inertial.get(at(1000)), 5);
}

#[test]
fn inertial_go_to_at() {
    let inertial = Inertial::new(5000i64);

    let new_start_time = at(500);
    let new_duration = ticks(1000);
    let new_inertial = inertial.go_to(10000, new_start_time, new_duration);

    assert_eq!(new_inertial.get(at(0)), 5000);
    assert_eq!(new_inertial.get(new_start_time), 5000);
    assert_eq!(new_inertial.get(at(1000)), 7500);
    assert_eq!(new_inertial.get(at(1500)), 10000);
}

#[test]
fn inertial_value_new_at() {
    let start_time = at(0);
    let inertial = Inertial::new(5i64);
    assert_eq!(inertial.get(start_time), 5);
    assert_eq!(inertial.get(at(1000)), 5);
}

#[test]
fn inertial_value_go_to_at() {
    let inertial = Inertial::new(5000i64);

    let new_start_time = at(500);
    let new_duration = ticks(1000);
    let new_inertial = inertial.go_to(10000, new_start_time, new_duration);

    assert_eq!(new_inertial.get(at(0)), 5000);
    assert_eq!(new_inertial.get(new_start_time), 5000);
    assert_eq!(new_inertial.get(at(1000)), 7500);
    assert_eq!(new_inertial.get(at(1500)), 10000);
}

#[test]
fn retarget_to_same_target_is_a_noop() {
    let v = Inertial::new(5i64).go_to(7, at(100), ticks(1000));
    let w = v.go_to(7, at(200), ticks(1000));
    let same = Inertial::new(5i64).go_to(7, at(100), ticks(1000));
    assert_eq!(w.get(at(300)), same.get(at(300)));
    assert_eq!(w.target(), 7);
    assert!(w.end_time().is_some());
    assert_eq!(w.end_time().unwrap(), at(1100));
}

#[test]
fn inertial_is_finished() {
    let v = Inertial::new(0i64);
    assert!(v.is_finished(at(0)));
    let w = v.go_to(10, at(100), ticks(50));
    assert!(!w.is_finished(at(100)));
    assert!(!w.is_finished(at(150)));
    assert!(w.is_finished(at(151)));
}

#[test]
fn zero_duration_retarget_settles_instantly() {
    let v = Inertial::new(0i64).go_to(10, at(100), ticks(0));
    assert_eq!(v.get(at(100)), 10);
    assert_eq!(v.get(at(200)), 10);
}

#[test]
fn ease_to_uses_the_given_curve() {
    let v = Inertial::new(0i64).ease_to(1000, at(0), ticks(1000), Easing::Linear);
    assert_eq!(v.get(at(0)), 0);
    assert_eq!(v.get(at(250)), 250);
    assert_eq!(v.get(at(500)), 500);
    assert_eq!(v.get(at(1000)), 1000);
}
