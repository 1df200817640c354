use liniverse::geo::ONE;
use liniverse::planet::{PLACED_DENSITY, PLANET_DENSITY, SUN_DENSITY, SUN_RADIUS};
use liniverse::{Newtonian, Planet, Point};

/// The fixed-point representation of a number with at most three decimals.
fn fx(v: f64) -> i32 {
    (v * ONE as f64).round() as i32
}

#[test]
fn planet_basics() {
    let v = Point::new(fx(1.0), fx(1.0));
    let mut first = Planet::new(fx(10.0), fx(10.0), 1000, fx(10.0), v);
    let _second = Planet::new(fx(20.0), fx(20.0), 1000, fx(10.0), v);
    let dimensions = (fx(800.0), fx(600.0));

    assert_eq!(4188790.204786391_f64.floor() as u32, first.mass());
    assert_eq!((4188.790204786391_f64 * ONE as f64).floor() as u128, first.volume());

    first.accelerate(Point::new(fx(1.0), fx(1.0)));
    first.update(dimensions);
    assert_eq!(Point::new(fx(12.0), fx(12.0)), first.pos());

    first.accelerate(Point::new(dimensions.0, dimensions.1));
    first.update(dimensions);
    assert_eq!(Point::new(fx(14.0), fx(14.0)), first.pos());
}

#[test]
fn planets_get_distinct_identities() {
    let a = Planet::new(0, 0, 1, 1, Point::new(0, 0));
    let b = Planet::new(0, 0, 1, 1, Point::new(0, 0));
    assert_ne!(a.id, b.id);
    assert_eq!((a.pos, a.density, a.radius, a.velocity, a.dead), (b.pos, 1, 1, b.velocity, false));
}

#[test]
fn with_id_keeps_what_it_is_given() {
    let p = Planet::with_id(42, 1, 2, 3, 4, Point::new(5, 6));
    assert_eq!(
        p,
        Planet { id: 42, pos: Point::new(1, 2), density: 3, radius: 4, velocity: Point::new(5, 6), dead: false }
    );
    assert_eq!(p.density(), 3);
    assert_eq!(p.radius(), 4);
    assert_eq!(p.velocity(), Point::new(5, 6));
    assert_eq!(Newtonian::id(&p), 42);
    assert_eq!(Newtonian::position(&p), Point::new(1, 2));
}

#[test]
fn random_planets_stay_in_their_ranges() {
    let dimensions = (fx(800.0), fx(600.0));
    let mut radii = vec![];
    for _ in 0..200 {
        let p = Planet::new_rng(dimensions);
        assert_eq!(p.density, PLANET_DENSITY);
        assert!(fx(5.0) <= p.radius && p.radius < fx(10.0));
        assert!(0 <= p.pos.x && p.pos.x < dimensions.0);
        assert!(0 <= p.pos.y && p.pos.y < dimensions.1);
        assert!(fx(-0.2) <= p.velocity.x && p.velocity.x < fx(1.5));
        assert!(fx(-0.2) <= p.velocity.y && p.velocity.y < fx(1.5));
        assert!(!p.dead());
        radii.push(p.radius);
    }
    // The numbers are drawn, not handed back: they do not all sit on the
    // lower bound.
    assert!(radii.iter().any(|r| *r != fx(5.0)));
    assert!(radii.iter().any(|r| *r != radii[0]));
}

#[test]
fn placed_planets_stay_in_their_ranges() {
    for _ in 0..200 {
        let p = Planet::new_semi_rng(fx(3.0), fx(-4.0));
        assert_eq!(p.pos(), Point::new(fx(3.0), fx(-4.0)));
        assert_eq!(p.density, PLACED_DENSITY);
        assert!(fx(10.0) <= p.radius && p.radius < fx(12.0));
        assert!(fx(-0.2) <= p.velocity.x && p.velocity.x < fx(1.5));
        assert!(fx(-0.2) <= p.velocity.y && p.velocity.y < fx(1.5));
    }
}

#[test]
fn sun_is_heavy_and_at_rest() {
    let s = Planet::new_sun(fx(400.0), fx(300.0));
    assert_eq!(s.pos(), Point::new(fx(400.0), fx(300.0)));
    assert_eq!(s.density, SUN_DENSITY);
    assert_eq!(s.radius, SUN_RADIUS);
    assert_eq!(s.velocity, Point::new(0, 0));
    // The volume 4/3 * pi * 20³ is 33510.321 to three decimals.
    assert_eq!(s.volume(), 33_510_321);
    assert_eq!(s.mass(), 201_061_926);
}

#[test]
fn wraps_around_the_right_edge() {
    let width = fx(800.0);
    let mut p = Planet::with_id(1, width - fx(0.5), fx(7.0), 1000, fx(1.0), Point::new(fx(1.0), 0));
    p.integrate((width, fx(600.0)), fx(1.0));
    assert_eq!(p.pos(), Point::new(fx(0.5), fx(7.0)));
}

#[test]
fn wraps_around_every_edge_however_far() {
    let dims = (fx(800.0), fx(600.0));
    let mut p = Planet::with_id(1, fx(1.0), fx(1.0), 1000, fx(1.0), Point::new(fx(-2.0), fx(-2.5)));
    p.update(dims);
    assert_eq!(p.pos(), Point::new(fx(799.0), fx(598.5)));

    // Three and a half widths to the right, two heights down.
    let mut p = Planet::with_id(1, fx(10.0), fx(10.0), 1000, fx(1.0), Point::new(fx(2800.0), fx(-1200.0)));
    p.update(dims);
    assert_eq!(p.pos(), Point::new(fx(410.0), fx(10.0)));

    // Landing on the edge itself is landing on the opposite one.
    let mut p = Planet::with_id(1, fx(790.0), fx(590.0), 1000, fx(1.0), Point::new(fx(10.0), fx(10.0)));
    p.update(dims);
    assert_eq!(p.pos(), Point::new(0, 0));
}

#[test]
fn integrate_scales_with_the_time_step() {
    let dims = (fx(800.0), fx(600.0));
    let mut p = Planet::with_id(1, fx(10.0), fx(10.0), 1000, fx(1.0), Point::new(fx(3.0), fx(-1.0)));
    p.integrate(dims, fx(0.5));
    assert_eq!(p.pos(), Point::new(fx(11.5), fx(9.5)));
    assert_eq!(p.velocity(), Point::new(fx(3.0), fx(-1.0)));
}

#[test]
fn eating_grows_the_radius() {
    let mut a = Planet::with_id(1, 0, 0, 1000, fx(10.0), Point::new(0, 0));
    let mut b = Planet::with_id(2, 0, 0, 1000, fx(10.0), Point::new(0, 0));
    let before = a.mass() as u64 + b.mass() as u64;
    a.eat(&mut b);
    // Twice the volume: the radius grows by the cube root of two.
    assert_eq!(a.radius(), 12_599);
    assert_eq!(a.density(), 1000);
    assert!(!a.dead());
    // The mass is that of both, but for what rounding the radius loses.
    let after = a.mass() as u64;
    assert!(after <= before && before - after < before / 1000);
}

#[test]
fn eating_at_the_mean_density() {
    let mut a = Planet::with_id(1, 0, 0, 3000, fx(10.0), Point::new(0, 0));
    let mut b = Planet::with_id(2, 0, 0, 1000, fx(10.0), Point::new(0, 0));
    // m = 4000 * V, D = 2000, so the volume doubles here too.
    a.eat(&mut b);
    assert_eq!(a.radius(), 12_599);
}

#[test]
fn eating_without_density_changes_nothing() {
    let mut a = Planet::with_id(1, 0, 0, 0, fx(10.0), Point::new(0, 0));
    let mut b = Planet::with_id(2, 0, 0, 0, fx(10.0), Point::new(0, 0));
    a.eat(&mut b);
    assert_eq!(a.radius(), fx(10.0));
    assert!(b.dead() && !a.dead());
}

#[test]
fn a_planet_without_radius_has_no_mass() {
    let p = Planet::with_id(1, 0, 0, 1000, 0, Point::new(0, 0));
    assert_eq!(p.volume(), 0);
    assert_eq!(p.mass(), 0);
    let p = Planet::with_id(1, 0, 0, 1000, -5, Point::new(0, 0));
    assert_eq!(p.mass(), 0);
}

#[test]
fn mass_saturates() {
    let p = Planet::with_id(1, 0, 0, u32::MAX, i32::MAX, Point::new(0, 0));
    assert_eq!(p.mass(), u32::MAX);
}

#[test]
fn velocity_saturates() {
    let mut p = Planet::with_id(1, 0, 0, 1, 1, Point::new(i32::MAX - 1, i32::MIN + 1));
    p.accelerate(Point::new(5, -5));
    assert_eq!(p.velocity(), Point::new(i32::MAX, i32::MIN));
}

#[test]
fn dying() {
    let mut p = Planet::with_id(1, 0, 0, 1, 1, Point::new(0, 0));
    assert!(!p.dead());
    p.die();
    assert!(p.dead());
}

#[test]
fn planet_is_newtonian() {
    let mut p = Planet::with_id(1, fx(1.0), fx(2.0), 1000, fx(10.0), Point::new(3, 4));
    assert_eq!(Newtonian::mass(&p), 4_188_790);
    assert_eq!(Newtonian::velocity(&p), Point::new(3, 4));
    p.set_position(Point::new(7, 8));
    p.set_velocity(Point::new(9, 10));
    assert_eq!(p.pos(), Point::new(7, 8));
    assert_eq!(p.velocity(), Point::new(9, 10));
}

#[test]
fn the_eaten_planet_is_dead() {
    let mut a = Planet::with_id(1, fx(1.0), fx(2.0), 1000, fx(10.0), Point::new(3, 4));
    let mut b = Planet::with_id(2, fx(5.0), fx(6.0), 2000, fx(7.0), Point::new(8, 9));
    let eaten = b;
    assert!(!a.dead() && !b.dead());
    a.eat(&mut b);
    assert!(b.dead());
    assert!(!a.dead());
    // Nothing else of the eaten planet has changed, and of the other one
    // only the radius.
    assert_eq!(b, Planet { dead: true, ..eaten });
    assert_eq!(a, Planet { radius: a.radius(), ..Planet::with_id(1, fx(1.0), fx(2.0), 1000, fx(10.0), Point::new(3, 4)) });
    assert!(a.radius() > fx(10.0));
}

#[test]
fn setters_change_one_field() {
    let start = Planet::with_id(1, fx(1.0), fx(2.0), 1000, fx(10.0), Point::new(3, 4));
    let mut p = start;
    p.set_position(Point::new(7, 8));
    assert_eq!(p, Planet { pos: Point::new(7, 8), ..start });
    p.set_velocity(Point::new(9, 10));
    assert_eq!(p, Planet { pos: Point::new(7, 8), velocity: Point::new(9, 10), ..start });
}
