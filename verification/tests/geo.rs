use liniverse::geo::ONE;
use liniverse::{Cardinal, Point, Rect};

/// The fixed-point representation of a number with at most three decimals.
fn fx(v: f64) -> i32 {
    (v * ONE as f64).round() as i32
}

#[test]
fn point_basics() {
    let first = Point::new(fx(1.0), fx(1.0));
    let second = Point::new(fx(2.0), fx(2.0));
    assert_eq!(first + second, Point { x: fx(3.0), y: fx(3.0) });
    assert_eq!(first - second, Point { x: fx(-1.0), y: fx(-1.0) });
    assert_eq!(first * fx(3.0), Point { x: fx(3.0), y: fx(3.0) });
    assert_eq!(first * 3usize, Point { x: fx(3.0), y: fx(3.0) });
    assert_eq!(first / fx(2.0), Point { x: fx(0.5), y: fx(0.5) });
    assert_eq!(first / 2usize, Point { x: fx(0.5), y: fx(0.5) });

    let third = Point::new(fx(3.0), fx(4.0));
    let third_mag = third.mag();
    let third_norm = third.norm();
    assert_eq!(third_mag, fx(5.0) as i64);
    assert_eq!(third_norm, Point { x: fx(0.6), y: fx(0.8) });
    assert_eq!(third_norm.mag(), fx(1.0) as i64);
}

#[test]
fn rect_basics() {
    let a = Rect::new(fx(5.0), fx(5.0), fx(10.0), fx(10.0));

    let first = Point::new(fx(1.0), fx(1.0));
    let second = Point::new(fx(11.0), fx(11.0));
    assert_eq!(a.contains(&first), true);
    assert_eq!(a.contains(&second), false);

    let nw = Rect::new(fx(2.5), fx(7.5), fx(5.0), fx(5.0));
    let ne = Rect::new(fx(7.5), fx(7.5), fx(5.0), fx(5.0));
    let se = Rect::new(fx(7.5), fx(2.5), fx(5.0), fx(5.0));
    let sw = Rect::new(fx(2.5), fx(2.5), fx(5.0), fx(5.0));
    assert_eq!(a.split_rect(Cardinal::NW), nw);
    assert_eq!(a.split_rect(Cardinal::NE), ne);
    assert_eq!(a.split_rect(Cardinal::SE), se);
    assert_eq!(a.split_rect(Cardinal::SW), sw);
}

#[test]
fn contains_is_strict_and_covers_is_half_open() {
    let a = Rect::new(fx(5.0), fx(5.0), fx(10.0), fx(10.0));
    let inside = Point::new(fx(0.001), fx(9.999));
    assert!(a.contains(&inside) && a.covers(&inside));
    for p in [Point::new(0, fx(5.0)), Point::new(fx(5.0), 0), Point::new(0, 0)] {
        assert!(!a.contains(&p));
        assert!(a.covers(&p));
    }
    for p in [Point::new(fx(10.0), fx(5.0)), Point::new(fx(5.0), fx(10.0)), Point::new(fx(-0.001), fx(5.0))] {
        assert!(!a.contains(&p));
        assert!(!a.covers(&p));
    }
}

#[test]
fn corners_and_center() {
    let a = Rect::new(fx(5.0), fx(6.0), fx(10.0), fx(4.0));
    assert_eq!(a.center(), Point::new(fx(5.0), fx(6.0)));
    assert_eq!(a.width(), fx(10.0));
    assert_eq!(a.height(), fx(4.0));
    assert_eq!(a.corner(Cardinal::NW), Point::new(0, fx(8.0)));
    assert_eq!(a.corner(Cardinal::NE), Point::new(fx(10.0), fx(8.0)));
    assert_eq!(a.corner(Cardinal::SE), Point::new(fx(10.0), fx(4.0)));
    assert_eq!(a.corner(Cardinal::SW), Point::new(0, fx(4.0)));
}

#[test]
fn every_covered_point_is_in_exactly_one_quadrant() {
    // Odd extents, so that the halves differ by one step.
    let a = Rect::new(3, 4, 7, 9);
    let quadrants = [
        a.split_rect(Cardinal::NW),
        a.split_rect(Cardinal::NE),
        a.split_rect(Cardinal::SE),
        a.split_rect(Cardinal::SW),
    ];
    assert_eq!(quadrants[0].width() + quadrants[1].width(), 7);
    assert_eq!(quadrants[0].height() + quadrants[3].height(), 9);
    for x in -3..12 {
        for y in -3..12 {
            let p = Point::new(x, y);
            let covering = quadrants.iter().filter(|q| q.covers(&p)).count();
            let containing = quadrants.iter().filter(|q| q.contains(&p)).count();
            assert_eq!(covering, if a.covers(&p) { 1 } else { 0 });
            let on_center_line = x == 3 || y == 4;
            assert_eq!(containing, if a.contains(&p) && !on_center_line { 1 } else { 0 });
        }
    }
}

#[test]
fn norm_of_the_zero_vector_is_the_zero_vector() {
    assert_eq!(Point::new(0, 0).norm(), Point::new(0, 0));
    assert_eq!(Point::new(0, 0).mag(), 0);
}

#[test]
fn distances_round_down() {
    let p = Point::new(fx(1.0), fx(1.0));
    assert_eq!(p.distance_to(Point::new(fx(4.0), fx(5.0))), fx(5.0) as i64);
    assert_eq!(p.distance_to(p), 0);
    // The square root of two is 1.41421...
    assert_eq!(p.distance_to(Point::new(fx(2.0), fx(2.0))), 1414);
    assert_eq!(Point::new(i32::MIN, i32::MIN).distance_to(Point::new(i32::MAX, i32::MAX)), 6_074_000_998);
    assert_eq!(Point::new(i32::MIN, i32::MIN).mag(), 3_037_000_499);
}

#[test]
fn scaling_rounds_towards_zero() {
    let p = Point::new(7, -7);
    assert_eq!(p / 2usize, Point::new(3, -3));
    assert_eq!(p * fx(0.5), Point::new(3, -3));
    assert_eq!(p / fx(2.0), Point::new(3, -3));
    assert_eq!(Point::new(fx(-3.0), fx(4.0)).norm(), Point::new(fx(-0.6), fx(0.8)));
}
