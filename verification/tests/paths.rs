use glissade::{
    Bezier0, Bezier1, Bezier2, Bezier3, Curve, Distance, Fraction, Pair, PathBuilder, Poly,
};

fn frac(num: u64, den: u64) -> Fraction {
    Fraction::new(num, den)
}

#[test]
fn test_bezier0() {
    let b = Bezier0::new(0i64);
    assert_eq!(b.value_at(frac(0, 1)), 0);
    assert_eq!(b.value_at(frac(1, 2)), 0);
    assert_eq!(b.value_at(frac(1, 1)), 0);
    assert_eq!(b.estimate_length(), 0);
}

#[test]
fn test_bezier1() {
    let b = Bezier1::new(0i64, 10000);
    assert_eq!(b.value_at(frac(0, 1)), 0);
    assert_eq!(b.value_at(frac(1, 2)), 5000);
    assert_eq!(b.value_at(frac(1, 1)), 10000);
    assert_eq!(b.estimate_length(), 10000);
}

#[test]
fn test_bezier2() {
    let b = Bezier2::new(0i64, 15000, 20000);
    assert_eq!(b.value_at(frac(0, 1)), 0);
    assert_eq!(b.value_at(frac(1, 2)), 12500);
    assert_eq!(b.value_at(frac(1, 1)), 20000);
    assert_eq!(b.estimate_length(), 20000);
}

#[test]
fn test_bezier3() {
    let b = Bezier3::new(0i64, 15000, 20000, 40000);
    assert_eq!(b.value_at(frac(0, 1)), 0);
    assert_eq!(b.value_at(frac(1, 2)), 18125);
    assert_eq!(b.value_at(frac(1, 1)), 40000);
    assert_eq!(b.estimate_length(), 40000);
}

fn close_to(v1: Pair<i64, i64>, v2: Pair<i64, i64>, tolerance: u64) -> bool {
    v1.distance(v2) <= tolerance
}

#[test]
fn test_path() {
    let path = PathBuilder::new(Pair::new(0i64, 0i64))
        .line_to(Pair::new(10000, 10000))
        .build(30, 30);

    assert_eq!(path.value_at(frac(0, 1)), Pair::new(0, 0));
    assert!(close_to(path.value_at(frac(1, 2)), Pair::new(5000, 5000), 2));
    assert_eq!(path.value_at(frac(1, 1)), Pair::new(10000, 10000));
}

#[test]
fn uneven_path_moves_at_constant_speed() {
    // Two straight legs of lengths 1000 and 9000: equal steps in the query
    // should advance the traced point by roughly equal arc lengths.
    let path = PathBuilder::new(Pair::new(0i64, 0i64))
        .line_to(Pair::new(1000, 0))
        .line_to(Pair::new(1000, 9000))
        .build(100, 200);

    assert_eq!(path.value_at(frac(0, 1)), Pair::new(0, 0));
    assert!(close_to(path.value_at(frac(1, 20)), Pair::new(500, 0), 2));
    assert!(close_to(path.value_at(frac(1, 2)), Pair::new(1000, 4000), 2));
    assert!(close_to(path.value_at(frac(3, 4)), Pair::new(1000, 6500), 2));
    assert_eq!(path.value_at(frac(1, 1)), Pair::new(1000, 9000));
}

#[test]
fn degenerate_path_collapses_to_its_point() {
    let path = PathBuilder::new(Pair::new(7i64, 7i64))
        .line_to(Pair::new(7, 7))
        .build(10, 10);
    assert_eq!(path.value_at(frac(0, 1)), Pair::new(7, 7));
    assert_eq!(path.value_at(frac(1, 2)), Pair::new(7, 7));
    assert_eq!(path.value_at(frac(1, 1)), Pair::new(7, 7));
}

#[test]
fn quad_and_cubic_segments_chain() {
    let path = PathBuilder::new(Pair::new(0i64, 0i64))
        .quad_to(Pair::new(5000, 0), Pair::new(10000, 0))
        .cubic_to(Pair::new(10000, 3000), Pair::new(10000, 7000), Pair::new(10000, 10000))
        .build(50, 50);
    assert_eq!(path.value_at(frac(0, 1)), Pair::new(0, 0));
    assert_eq!(path.value_at(frac(1, 1)), Pair::new(10000, 10000));
}

#[test]
fn poly_it_works() {
    let poly = Poly::new(vec![0i64, 1000, 2000]);
    assert_eq!(poly.value_at(frac(0, 1)), 0);
    assert_eq!(poly.value_at(frac(1, 4)), 500);
    assert_eq!(poly.value_at(frac(1, 2)), 1000);
    assert_eq!(poly.value_at(frac(3, 4)), 1500);
    assert_eq!(poly.value_at(frac(1, 1)), 2000);
}

#[test]
fn test_debug() {
    let poly = Poly::new(vec![
        Pair::new(0i64, 0i64),
        Pair::new(2000, 0),
        Pair::new(2000, 8000),
    ]);
    assert_eq!(poly.value_at(frac(1, 2)), Pair::new(2000, 3000));
    assert_eq!(poly.value_at(frac(3, 4)), Pair::new(2000, 5500));
}

#[test]
fn poly_with_coincident_points_returns_the_point() {
    let poly = Poly::new(vec![5i64, 5, 5]);
    assert_eq!(poly.value_at(frac(0, 1)), 5);
    assert_eq!(poly.value_at(frac(1, 2)), 5);
    assert_eq!(poly.value_at(frac(1, 1)), 5);
}
