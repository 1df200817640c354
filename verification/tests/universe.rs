use liniverse::geo::ONE;
use liniverse::universe::{CAPACITY, EATING_FORCE, NO_OF_PLANETS, SCALE_F, THETA};
use liniverse::{Planet, Point, Universe};

/// The fixed-point representation of a number with at most three decimals.
fn fx(v: f64) -> i32 {
    (v * ONE as f64).round() as i32
}

fn at_rest(id: u128, x: f64, y: f64, density: u32, radius: f64) -> Planet {
    Planet::with_id(id, fx(x), fx(y), density, fx(radius), Point::new(0, 0))
}

#[test]
fn new_universe_is_empty() {
    let u = Universe::new((fx(800.0), fx(600.0)));
    assert_eq!(u.dimensions(), (fx(800.0), fx(600.0)));
    assert_eq!(u.planets().len(), 0);
    assert_eq!(u.snapshot().len(), 0);
    assert_eq!((CAPACITY, THETA, SCALE_F, EATING_FORCE), (1, 500, 10, 400_000_000_000));
}

#[test]
fn init_random_seeds_a_sun_and_its_planets() {
    let dims = (fx(800.0), fx(600.0));
    let mut u = Universe::new(dims);
    u.init_random();
    assert_eq!(u.planets().len(), NO_OF_PLANETS + 1);
    let sun = u.planets()[0];
    assert_eq!(sun.pos(), Point::new(fx(400.0), fx(300.0)));
    assert_eq!(sun.radius(), fx(20.0));
    for p in &u.planets()[1..] {
        assert!(0 <= p.pos().x && p.pos().x < dims.0);
        assert!(0 <= p.pos().y && p.pos().y < dims.1);
        assert!(fx(5.0) <= p.radius() && p.radius() < fx(10.0));
        assert!(!p.dead());
    }
}

#[test]
fn configure_seeds_as_many_planets_as_asked() {
    let u = Universe::configure(fx(640.0), fx(480.0), 17, 4, fx(0.75));
    assert_eq!(u.dimensions(), (fx(640.0), fx(480.0)));
    assert_eq!(u.planets().len(), 17);
    for p in u.planets() {
        assert!(0 <= p.pos().x && p.pos().x < fx(640.0));
        assert!(0 <= p.pos().y && p.pos().y < fx(480.0));
    }
    let none = Universe::configure(fx(640.0), fx(480.0), 0, 1, 0);
    assert_eq!(none.planets().len(), 0);
}

#[test]
fn add_planet_puts_it_where_asked() {
    let mut u = Universe::new((fx(800.0), fx(600.0)));
    u.add_planet(fx(12.5), fx(99.0));
    assert_eq!(u.planets().len(), 1);
    let p = u.planets()[0];
    assert_eq!(p.pos(), Point::new(fx(12.5), fx(99.0)));
    assert!(fx(10.0) <= p.radius() && p.radius() < fx(12.0));
    assert_eq!(u.snapshot(), vec![(p.pos(), p.radius())]);
}

#[test]
fn snapshot_lists_positions_and_radii() {
    let mut u = Universe::new((fx(800.0), fx(600.0)));
    u.insert_planet(at_rest(1, 10.0, 20.0, 1000, 3.0));
    u.insert_planet(at_rest(2, 30.0, 40.0, 1000, 4.0));
    assert_eq!(
        u.snapshot(),
        vec![(Point::new(fx(10.0), fx(20.0)), fx(3.0)), (Point::new(fx(30.0), fx(40.0)), fx(4.0))]
    );
}

#[test]
fn tick_of_an_empty_universe() {
    let mut u = Universe::new((fx(800.0), fx(600.0)));
    u.tick(fx(1.0));
    assert_eq!(u.planets().len(), 0);
}

#[test]
fn a_lone_planet_moves_in_a_straight_line_and_wraps() {
    let width = fx(800.0);
    let mut u = Universe::new((width, fx(600.0)));
    u.insert_planet(Planet::with_id(1, width - fx(0.5), fx(7.0), 1000, fx(1.0), Point::new(fx(1.0), 0)));
    u.tick(fx(1.0));
    assert_eq!(u.planets()[0].pos(), Point::new(fx(0.5), fx(7.0)));
    assert_eq!(u.planets()[0].velocity(), Point::new(fx(1.0), 0));
    u.tick(fx(2.0));
    assert_eq!(u.planets()[0].pos(), Point::new(fx(2.5), fx(7.0)));
}

#[test]
fn two_planets_attract_each_other() {
    let mut u = Universe::new((fx(800.0), fx(600.0)));
    // Mass 20943950 each, 50 apart on the x axis: a force of
    // 66700 * m * m / (50 * ONE)² in billionths, a pull of force / m, and a
    // change of velocity of a hundredth of that.
    u.insert_planet(at_rest(1, 100.0, 100.0, 5000, 10.0));
    u.insert_planet(at_rest(2, 150.0, 100.0, 5000, 10.0));
    let m = u.planets()[0].mass() as i128;
    assert_eq!(m, 20_943_950);
    let force = 66_700 * m * m * 50_000 / (2_500_000_000 * 50_000);
    assert_eq!(force, 11_703_156_429);
    let pull = 1000 * force / (m * 1000);
    assert_eq!(pull, 558);
    let dv = (pull * 10 / 1000) as i32;
    assert_eq!(dv, 5);
    u.tick(fx(1.0));
    let a = u.planets()[0];
    let b = u.planets()[1];
    assert_eq!(a.velocity(), Point::new(dv, 0));
    assert_eq!(b.velocity(), Point::new(-dv, 0));
    assert_eq!(a.pos(), Point::new(fx(100.0) + dv, fx(100.0)));
    assert_eq!(b.pos(), Point::new(fx(150.0) - dv, fx(100.0)));
    // Half the time, half the change.
    u.tick(fx(0.5));
    assert_eq!(u.planets()[0].velocity(), Point::new(dv + 2, 0));
}

#[test]
fn touching_planets_merge() {
    let mut u = Universe::new((fx(800.0), fx(600.0)));
    let big = at_rest(1, 100.0, 100.0, 5000, 10.0);
    let small = at_rest(2, 105.0, 101.0, 5000, 8.0);
    let combined = big.mass() as u64 + small.mass() as u64;
    u.insert_planet(small);
    u.insert_planet(big);
    u.tick(fx(1.0));

    // Exactly one of the two is left: the heavier one.
    assert_eq!(u.planets().len(), 1);
    assert_eq!(u.snapshot().len(), 1);
    let left = u.planets()[0];
    assert_eq!(left.id, 1);
    assert!(!left.dead());

    // Its radius is that of a sphere with the mass of both.
    let mut expected = big;
    let mut eaten = small;
    expected.eat(&mut eaten);
    assert_eq!(left.radius(), expected.radius());
    assert!(left.radius() > big.radius());
    let after = left.mass() as u64;
    assert!(after <= combined && combined - after < combined / 1000);
}

#[test]
fn distant_planets_do_not_merge() {
    let mut u = Universe::new((fx(800.0), fx(600.0)));
    // The force between them is far above the eating force, but they are
    // further apart than the radius of the larger one.
    u.insert_planet(at_rest(1, 100.0, 100.0, 5000, 10.0));
    u.insert_planet(at_rest(2, 110.001, 100.0, 5000, 8.0));
    u.tick(fx(1.0));
    assert_eq!(u.planets().len(), 2);
    assert_eq!(u.planets()[0].radius(), fx(10.0));
    assert_eq!(u.planets()[1].radius(), fx(8.0));
}

#[test]
fn light_planets_do_not_merge() {
    let mut u = Universe::new((fx(800.0), fx(600.0)));
    // Close enough, but the force between them stays below the eating force.
    u.insert_planet(at_rest(1, 100.0, 100.0, 50, 10.0));
    u.insert_planet(at_rest(2, 105.0, 101.0, 50, 8.0));
    u.tick(fx(1.0));
    assert_eq!(u.planets().len(), 2);
}

#[test]
fn the_sun_stays_where_it_is() {
    let dims = (fx(800.0), fx(600.0));
    let mut u = Universe::new(dims);
    u.init_random();
    let sun = u.planets()[0];
    for _ in 0..3 {
        let before = u.planets().len();
        u.tick(fx(1.0));
        assert!(u.planets().len() <= before);
        assert_eq!(u.planets()[0].id, sun.id);
        assert_eq!(u.planets()[0].pos(), sun.pos());
        for p in u.planets() {
            assert!(!p.dead());
            assert!(0 <= p.pos().x && p.pos().x < dims.0);
            assert!(0 <= p.pos().y && p.pos().y < dims.1);
        }
    }
}

#[test]
fn planets_in_one_place_merge() {
    let mut u = Universe::new((fx(800.0), fx(600.0)));
    u.insert_planet(at_rest(1, 100.0, 100.0, 5000, 10.0));
    u.insert_planet(at_rest(2, 100.0, 100.0, 5000, 10.0));
    u.tick(fx(1.0));
    assert_eq!(u.planets().len(), 1);
    assert_eq!(u.planets()[0].id, 1);
    assert_eq!(u.planets()[0].radius(), 12_599);
    assert_eq!(u.planets()[0].pos(), Point::new(fx(100.0), fx(100.0)));
}

#[test]
fn the_sun_eats_a_planet_that_touches_it() {
    let mut u = Universe::new((fx(800.0), fx(600.0)));
    let sun = Planet::with_id(1, fx(400.0), fx(300.0), 6000, fx(20.0), Point::new(0, 0));
    let planet = Planet::with_id(2, fx(410.0), fx(300.0), 5000, fx(10.0), Point::new(0, 0));
    u.insert_planet(sun);
    u.insert_planet(planet);
    u.tick(fx(1.0));
    assert_eq!(u.snapshot().len(), 1);
    let left = u.planets()[0];
    assert_eq!(left.id, 1);
    assert!(!left.dead());
    let mut expected = sun;
    let mut eaten = planet;
    expected.eat(&mut eaten);
    assert_eq!(left.radius(), expected.radius());
    assert_eq!(left.density(), 6000);
}

#[test]
fn two_planets_one_step_apart_on_a_tiny_plane() {
    let mut u = Universe::configure(2, 1, 0, 1, fx(0.5));
    u.insert_planet(Planet::with_id(1, 0, 0, 5000, fx(10.0), Point::new(0, 0)));
    u.insert_planet(Planet::with_id(2, 1, 0, 5000, fx(10.0), Point::new(0, 0)));
    u.tick(fx(1.0));
    assert_eq!(u.planets().len(), 1);
    assert_eq!(u.planets()[0].id, 1);
    u.tick(fx(1.0));
    assert_eq!(u.planets().len(), 1);
}

#[test]
fn a_planet_off_the_plane_is_wrapped_onto_it() {
    let dims = (fx(800.0), fx(600.0));
    let mut u = Universe::new(dims);
    u.add_planet(fx(-1.0), fx(601.5));
    assert_eq!(u.planets()[0].pos(), Point::new(fx(799.0), fx(1.5)));
    u.insert_planet(at_rest(7, 1700.0, -1300.0, 5000, 10.0));
    assert_eq!(u.planets()[1].pos(), Point::new(fx(100.0), fx(500.0)));
    u.insert_planet(at_rest(8, 800.0, 600.0, 5000, 10.0));
    assert_eq!(u.planets()[2].pos(), Point::new(0, 0));
    // A planet on the plane is taken as it is.
    let p = at_rest(9, 799.999, 0.0, 5000, 10.0);
    u.insert_planet(p);
    assert_eq!(u.planets()[3], p);
    u.tick(fx(1.0));
    for p in u.planets() {
        assert!(0 <= p.pos().x && p.pos().x < dims.0);
        assert!(0 <= p.pos().y && p.pos().y < dims.1);
    }
}

#[test]
fn without_a_threshold_the_tree_gives_what_the_nested_loop_gives() {
    let spots = [(100.0, 100.0), (150.0, 100.0), (400.0, 300.0), (390.0, 310.0), (700.0, 50.0), (50.0, 550.0)];
    let mut with_tree = Universe::configure(fx(800.0), fx(600.0), 0, 1, 0);
    let mut without = Universe::configure(fx(800.0), fx(600.0), 0, 1, 0);
    for (k, s) in spots.iter().enumerate() {
        let p = Planet::with_id(k as u128, fx(s.0), fx(s.1), 5000, fx(6.0 + k as f64), Point::new(k as i32, -3));
        with_tree.insert_planet(p);
        without.insert_planet(p);
    }
    for _ in 0..5 {
        with_tree.tick(fx(1.0));
        without.tick_brute(fx(1.0));
        assert_eq!(with_tree.planets(), without.planets());
    }
    assert!(with_tree.planets().iter().any(|p| p.velocity() != Point::new(0, -3)));
}

#[test]
fn tick_brute_merges_and_moves() {
    let mut u = Universe::new((fx(800.0), fx(600.0)));
    u.insert_planet(at_rest(1, 100.0, 100.0, 5000, 10.0));
    // In the same place: no tree could tell them apart.
    u.insert_planet(at_rest(2, 100.0, 100.0, 5000, 10.0));
    u.insert_planet(Planet::with_id(3, fx(799.5), fx(7.0), 0, fx(1.0), Point::new(fx(1.0), 0)));
    u.tick_brute(fx(1.0));
    assert_eq!(u.planets().len(), 2);
    assert_eq!(u.planets()[0].id, 1);
    assert_eq!(u.planets()[0].radius(), 12_599);
    assert_eq!(u.planets()[1].pos(), Point::new(fx(0.5), fx(7.0)));
}
