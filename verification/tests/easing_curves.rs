use glissade::smooth_array::FIXED_ONE;
use glissade::{Easing, Fraction, SmoothArray};

fn frac(num: u64, den: u64) -> Fraction {
    Fraction::new(num, den)
}

#[test]
fn linear() {
    let easing = Easing::Linear;
    assert_eq!(easing.ease(frac(0, 1)), frac(0, 1));
    assert_eq!(easing.ease(frac(1, 2)), frac(1, 2));
    assert_eq!(easing.ease(frac(1, 1)), frac(1, 1));
}

#[test]
fn quadratic_in() {
    let easing = Easing::QuadraticIn;
    assert_eq!(easing.ease(frac(0, 1)).num, 0);
    assert_eq!(easing.ease(frac(1, 2)).num, FIXED_ONE / 4);
    let one = easing.ease(frac(1, 1));
    assert_eq!(one.num, one.den);
}

#[test]
fn quadratic_out() {
    let easing = Easing::QuadraticOut;
    assert_eq!(easing.ease(frac(0, 1)).num, 0);
    assert_eq!(easing.ease(frac(1, 2)).num, 3 * (FIXED_ONE / 4));
    let one = easing.ease(frac(1, 1));
    assert_eq!(one.num, one.den);
}

#[test]
fn quadratic_in_out() {
    let easing = Easing::QuadraticInOut;
    assert_eq!(easing.ease(frac(0, 1)).num, 0);
    assert_eq!(easing.ease(frac(1, 2)).num, FIXED_ONE / 2);
    let one = easing.ease(frac(1, 1));
    assert_eq!(one.num, one.den);
}

#[test]
fn cubic_in() {
    let easing = Easing::CubicIn;
    assert_eq!(easing.ease(frac(0, 1)).num, 0);
    assert_eq!(easing.ease(frac(1, 2)).num, FIXED_ONE / 8);
    let one = easing.ease(frac(1, 1));
    assert_eq!(one.num, one.den);
}

#[test]
fn cubic_out() {
    let easing = Easing::CubicOut;
    assert_eq!(easing.ease(frac(0, 1)).num, 0);
    assert_eq!(easing.ease(frac(1, 2)).num, 7 * (FIXED_ONE / 8));
    let one = easing.ease(frac(1, 1));
    assert_eq!(one.num, one.den);
}

#[test]
fn cubic_in_out() {
    let easing = Easing::CubicInOut;
    assert_eq!(easing.ease(frac(0, 1)).num, 0);
    assert_eq!(easing.ease(frac(1, 2)).num, FIXED_ONE / 2);
    let one = easing.ease(frac(1, 1));
    assert_eq!(one.num, one.den);
}

#[test]
fn bezier() {
    let easing = Easing::bezier(frac(0, 1), frac(0, 1), frac(1, 1), frac(1, 1));
    assert_eq!(easing.ease(frac(0, 1)).num, 0);
    assert_eq!(easing.ease(frac(1, 2)).num, FIXED_ONE / 2);
    let one = easing.ease(frac(1, 1));
    assert_eq!(one.num, one.den);
}

#[test]
fn bezier_non_linear() {
    let easing = Easing::bezier(frac(0, 1), frac(1, 2), frac(1, 1), frac(1, 2));
    assert_eq!(easing.ease(frac(0, 1)).num, 0);
    assert_eq!(easing.ease(frac(1, 2)).num, FIXED_ONE / 2);
    let one = easing.ease(frac(1, 1));
    assert_eq!(one.num, one.den);
}

#[test]
fn step_staircase() {
    let easing = Easing::Step(4);
    assert_eq!(easing.ease(frac(0, 1)), frac(0, 4));
    assert_eq!(easing.ease(frac(1, 8)), frac(0, 4));
    assert_eq!(easing.ease(frac(3, 8)), frac(1, 4));
    assert_eq!(easing.ease(frac(1, 2)), frac(2, 4));
    assert_eq!(easing.ease(frac(1, 1)), frac(4, 4));
}

#[test]
fn jump_is_always_at_the_end() {
    let easing = Easing::Jump;
    assert_eq!(easing.ease(frac(0, 1)), frac(1, 1));
    assert_eq!(easing.ease(frac(1, 2)), frac(1, 1));
}

#[test]
fn easing_input_is_clamped() {
    let t = Fraction::new(7, 4);
    assert_eq!(t, frac(4, 4));
    assert_eq!(Easing::Linear.ease(t).num, t.den);
}

#[test]
fn test_smooth_array() {
    let mut array = SmoothArray::new(10);
    array.line(0, 0, 1, FIXED_ONE, 1);

    assert_eq!(array.value_at(Fraction::new(0, 1)), 0);
    let quarter = array.value_at(Fraction::new(1, 4));
    assert!(quarter.abs_diff(FIXED_ONE / 4) <= 2);
    let half = array.value_at(Fraction::new(1, 2));
    assert!(half.abs_diff(FIXED_ONE / 2) <= 2);
    let three_quarters = array.value_at(Fraction::new(3, 4));
    assert!(three_quarters.abs_diff(3 * (FIXED_ONE / 4)) <= 2);
    assert_eq!(array.value_at(Fraction::new(1, 1)), FIXED_ONE);
}

#[test]
fn test_smooth_array_step() {
    let array = SmoothArray::from_values(vec![0, 0, FIXED_ONE, FIXED_ONE]);
    assert_eq!(array.value_at(Fraction::new(0, 1)), 0);
    assert_eq!(array.value_at(Fraction::new(1, 4)), 0);
    assert_eq!(array.value_at(Fraction::new(1, 2)), FIXED_ONE / 2);
    assert_eq!(array.value_at(Fraction::new(3, 4)), FIXED_ONE);
    assert_eq!(array.value_at(Fraction::new(1, 1)), FIXED_ONE);
}
