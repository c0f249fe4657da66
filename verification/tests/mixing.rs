use glissade::{Fraction, Mix, Pair};

fn half() -> Fraction {
    Fraction::new(1, 2)
}

#[test]
fn mix_it_works() {
    assert_eq!(1000i64.mix(2000, half()), 1500);
    assert_eq!(1000u64.mix(2000, half()), 1500);
    assert_eq!(
        Pair::new(1000i64, 2000i64).mix(Pair::new(2000, 3000), half()),
        Pair::new(1500, 2500)
    );
    assert_eq!(
        Pair::new(Pair::new(1000i64, 2000i64), 3000i64)
            .mix(Pair::new(Pair::new(2000, 3000), 4000), half()),
        Pair::new(Pair::new(1500, 2500), 3500)
    );
}

#[test]
fn test_mix_integer() {
    assert_eq!(1i8.mix(3, half()), 2);
    assert_eq!(1u8.mix(3, half()), 2);
    assert_eq!(1i16.mix(3, half()), 2);
    assert_eq!(1u16.mix(3, half()), 2);
    assert_eq!(1i32.mix(3, half()), 2);
    assert_eq!(1u32.mix(3, half()), 2);
    assert_eq!(1i64.mix(3, half()), 2);
    assert_eq!(1u64.mix(3, half()), 2);
}

#[test]
fn test_option_mix() {
    assert_eq!(Some(1i64).mix(Some(3), half()), Some(2));
    assert_eq!(Some(1i64).mix(None, Fraction::new(1, 4)), Some(1));
    assert_eq!(None.mix(Some(2i64), Fraction::new(1, 4)), None);
    assert_eq!(Some(1i64).mix(None, Fraction::new(3, 4)), None);
    assert_eq!(None.mix(Some(2i64), Fraction::new(3, 4)), Some(2));

    let v1: Option<i64> = None;
    let v2: Option<i64> = None;
    assert_eq!(v1.mix(v2, half()), None);
}

#[test]
fn mix_boundary_exactness() {
    let zero = Fraction::zero();
    let one = Fraction::one();
    assert_eq!((-37i64).mix(12345, zero), -37);
    assert_eq!((-37i64).mix(12345, one), 12345);
    assert_eq!(7u64.mix(3, zero), 7);
    assert_eq!(7u64.mix(3, one), 3);
    assert_eq!((-5i32).mix(11, zero), -5);
    assert_eq!((-5i32).mix(11, one), 11);
    assert_eq!(9u32.mix(2, zero), 9);
    assert_eq!(9u32.mix(2, one), 2);
    assert_eq!(true.mix(false, zero), true);
    assert_eq!(true.mix(false, one), false);
    assert_eq!(Some(4i64).mix(Some(9), zero), Some(4));
    assert_eq!(Some(4i64).mix(Some(9), one), Some(9));
    assert_eq!(Pair::new(1i64, -2i64).mix(Pair::new(5, 6), zero), Pair::new(1, -2));
    assert_eq!(Pair::new(1i64, -2i64).mix(Pair::new(5, 6), one), Pair::new(5, 6));
}

#[test]
fn mix_rounds_to_nearest() {
    assert_eq!(0i64.mix(3, half()), 2);
    assert_eq!(0i64.mix(-3, half()), -2);
    assert_eq!(0i64.mix(10, Fraction::new(1, 3)), 3);
}
