use liniverse::geo::ONE;
use liniverse::quad::gravity::Gravity;
use liniverse::quad::tree::QuadConfig;
use liniverse::{Body, Cardinal, InsertError, Newtonian, Point, QuadNode, Rect};
use uuid::Uuid;

/// The fixed-point representation of a number with at most three decimals.
fn fx(v: f64) -> i32 {
    (v * ONE as f64).round() as i32
}

/// The gravitational constant `6.6726e-11` for lengths in fixed-point
/// metres and forces in units of `1e-13` newton.
fn newton() -> Gravity {
    Gravity { num: 667_260_000, den: 1 }
}

fn fresh() -> u128 {
    Uuid::new_v4().as_u128()
}

fn setupdate_body() -> (QuadNode, Vec<Body>) {
    let width = 10.00;
    let height = 10.0;
    let bounds = Rect::new(fx(width / 2.0), fx(height / 2.0), fx(width), fx(height));

    let cfg = QuadConfig { capacity: 1, theta: fx(0.5), gravity: newton() };

    let mut bodies = vec![];
    let mass = 100;
    let positions = vec![
        Point::new(fx(4.0), fx(6.0)),
        Point::new(fx(6.0), fx(6.0)),
        Point::new(fx(8.0), fx(8.0)),
        Point::new(fx(4.0), fx(4.0)),
    ];
    for pos in positions {
        bodies.push(Body::new(fresh(), pos, mass));
    }

    (QuadNode::new(cfg, bounds), bodies)
}

fn setup() -> (QuadNode, Vec<Body>) {
    let width = 10.00;
    let height = 10.0;
    let bounds = Rect::new(fx(width / 2.0), fx(height / 2.0), fx(width), fx(height));

    let cfg = QuadConfig { capacity: 1, theta: fx(0.5), gravity: newton() };
    let bodies = vec![
        // Spawn in NW quadrant.
        Body::new(fresh(), Point::new(fx(4.0), fx(6.0)), 10),
        // Spawn in NE quadrant.
        Body::new(fresh(), Point::new(fx(6.0), fx(6.0)), 10),
        // Spawn another point in NE quadrant.
        Body::new(fresh(), Point::new(fx(7.0), fx(7.0)), 10),
        // Spawn in SW quadrant.
        Body::new(fresh(), Point::new(fx(4.0), fx(4.0)), 10),
    ];

    (QuadNode::new(cfg, bounds), bodies)
}

#[test]
fn subdivide_and_aggregate() {
    let (mut qnode, bodies) = setupdate_body();
    let b1 = &bodies[0];
    let b2 = &bodies[1];
    let b3 = &bodies[2];

    qnode.insert(b1).unwrap();
    // Node should be external and have agg. mass of the inserted body.
    assert_eq!(qnode.bodies().len(), 1);
    assert_eq!(qnode.mass(), Some(b1.mass() as u64));

    qnode.insert(b2).unwrap();
    // Node should have subdivide (be internal) and have agg. mass of both bodies.
    let agg_m = b1.mass() + b2.mass();
    assert_eq!(qnode.bodies().len(), 0);
    assert_eq!(qnode.mass(), Some(agg_m as u64));
    assert!(qnode.is_internal());

    qnode.insert(b3).unwrap();
    // NE quadrant should have further subdivided.
    let l1_ne = qnode.quadrant(Cardinal::NE).unwrap();
    assert_eq!(l1_ne.bodies().len(), 0);
    assert_eq!(l1_ne.is_internal(), true);

    // b2 & b3 should have been moved to NE and SW quadrants respectively.
    let l2_ne = l1_ne.quadrant(Cardinal::NE).unwrap();
    let l2_sw = l1_ne.quadrant(Cardinal::SW).unwrap();
    assert_eq!(l2_ne.bodies().len(), 1);
    assert_eq!(l2_sw.bodies().len(), 1);
}

#[test]
fn rule_of_laws() {
    // Newton's first law states that:
    // F = Gm₁m₂ / r²
    // Let's say we have two bodies with a mass of 100kg, 1m apart from each other.
    // Following the above formula, we expect a force of 0.00000066726N to be exerted on b1.
    let res_f = (6.6726 * 10_f64.powf(-11.0) * 100.0 * 100.0) / 1.0;
    // Forces are counted in units of 1e-13 N.
    let res_f = (res_f * 1e13).round() as i64;
    assert_eq!(res_f, 6_672_600);

    let delta = fx(1.0);
    let mass = 100;
    let positions = vec![Point::new(fx(1.0), fx(1.0)), Point::new(fx(1.0), fx(2.0))];
    let mut bodies = vec![];
    for pos in positions {
        bodies.push(Body::new(fresh(), pos, mass));
    }
    let b1 = &bodies[0];
    let b2 = &bodies[1];

    let f = QuadNode::calc_force(b1, b2, newton());
    // It's only exerted on y since both bodies are on the same x plane.
    assert_eq!(f.y, res_f);
    assert_eq!(f.x, 0);

    // With Newton's second law stating that:
    // a = F / m
    // the velocity v₁ of our body at time t₁ can be calculated as
    // v₁ = v₀ + a * dt
    // Since in our example, v₀ = 0 and dt = t₁ - t₀ = 1, we expect
    let res_v = 0 + f.y / mass as i64 * (delta / ONE) as i64;
    let v = QuadNode::calc_velocity(b1, f, delta);
    assert_eq!(v.y as i64, res_v);
    assert_eq!(v.y, 66_726);
    assert_eq!(v.x, 0);
}

#[test]
fn update_body() {
    let (mut qnode, mut bodies) = setupdate_body();
    for b in &bodies {
        qnode.insert(b).unwrap();
    }

    for body in bodies.iter_mut() {
        let before = *body;
        qnode.update_body(body, fx(1.0));
        let net_v = qnode.sum_up_force(&before, fx(1.0), before.velocity());
        assert_eq!(body.velocity(), net_v);
        assert_eq!(body.id(), before.id());
        assert_eq!(body.mass(), before.mass());
        assert!(0 <= body.position().x && body.position().x < fx(10.0));
        assert!(0 <= body.position().y && body.position().y < fx(10.0));
    }
}

#[test]
fn insert() {
    let (mut qnode, bodies) = setup();
    qnode.insert(&bodies[0]).unwrap();
    assert_eq!(qnode.bodies().len(), 1);
    assert_eq!(qnode.mass(), Some(10));
}

#[test]
fn insert_and_subdivide() {
    let (mut qnode, bodies) = setup();
    qnode.insert(&bodies[0]).unwrap();
    qnode.insert(&bodies[1]).unwrap();
    assert_eq!(qnode.bodies().len(), 0);
    assert_eq!(qnode.mass(), Some(20));
    assert!(qnode.is_internal());
}

#[test]
fn update_forces() {
    let (mut qnode, bodies) = setup();
    let b1 = &bodies[0];
    let b2 = &bodies[1];
    let b3 = &bodies[2];
    let b4 = &bodies[3];
    qnode.insert(b1).unwrap();
    qnode.insert(b2).unwrap();
    qnode.insert(b3).unwrap();
    qnode.insert(b4).unwrap();

    let mut moved = *b1;
    qnode.update_body(&mut moved, fx(0.5));

    println!("b1: {:?}", moved.position());
    println!("b2: {:?}", b2.position());
    assert_eq!(qnode.count(), 4);
}

#[test]
fn new_tree_is_empty() {
    let (qnode, _) = setup();
    assert_eq!(qnode.mass(), None);
    assert_eq!(qnode.count(), 0);
    assert_eq!(qnode.bodies().len(), 0);
    assert!(!qnode.is_internal());
    assert!(qnode.quadrant(Cardinal::NW).is_none());
    assert_eq!(qnode.com(), Point::new(fx(5.0), fx(5.0)));
    assert_eq!(qnode.rect(), Rect::new(fx(5.0), fx(5.0), fx(10.0), fx(10.0)));
}

#[test]
fn center_of_mass_of_two_equal_bodies() {
    let (mut qnode, bodies) = setupdate_body();
    qnode.insert(&bodies[0]).unwrap();
    assert_eq!(qnode.com(), Point::new(fx(4.0), fx(6.0)));
    qnode.insert(&bodies[1]).unwrap();
    assert_eq!(qnode.com(), Point::new(fx(5.0), fx(6.0)));
}

#[test]
fn center_of_mass_is_weighted() {
    let (mut qnode, _) = setup();
    qnode.insert(&Body::new(1, Point::new(fx(1.0), fx(1.0)), 30)).unwrap();
    qnode.insert(&Body::new(2, Point::new(fx(9.0), fx(3.0)), 10)).unwrap();
    // (30 * 1 + 10 * 9) / 40 = 3, (30 * 1 + 10 * 3) / 40 = 1.5
    assert_eq!(qnode.com(), Point::new(fx(3.0), fx(1.5)));
    assert_eq!(qnode.mass(), Some(40));
}

#[test]
fn mass_is_conserved_in_any_order() {
    let masses = [3u32, 500, 70, 11, 1234];
    let spots = [(1.0, 1.0), (9.0, 1.5), (2.5, 8.0), (7.0, 7.25), (6.0, 3.0)];
    let orders = [[0usize, 1, 2, 3, 4], [4, 3, 2, 1, 0], [2, 0, 4, 1, 3]];
    let mut coms = vec![];
    for order in orders {
        let (mut qnode, _) = setup();
        for k in order {
            let b = Body::new(k as u128, Point::new(fx(spots[k].0), fx(spots[k].1)), masses[k]);
            qnode.insert(&b).unwrap();
        }
        assert_eq!(qnode.mass(), Some(1818));
        assert_eq!(qnode.count(), 5);
        coms.push(qnode.com());
    }
    assert_eq!(coms[0], coms[1]);
    assert_eq!(coms[0], coms[2]);
}

#[test]
fn body_on_a_center_line_goes_east_or_north() {
    let (mut qnode, bodies) = setup();
    qnode.insert(&bodies[0]).unwrap();
    // The second body forces a split, and lies on the vertical center line.
    let on_line = Body::new(7, Point::new(fx(5.0), fx(2.0)), 10);
    assert_eq!(qnode.insert(&on_line), Ok(()));
    assert_eq!(qnode.quadrant(Cardinal::SE).unwrap().bodies(), &vec![on_line]);
    // The third lies in the very center.
    let centered = Body::new(8, Point::new(fx(5.0), fx(5.0)), 10);
    assert_eq!(qnode.insert(&centered), Ok(()));
    assert_eq!(qnode.quadrant(Cardinal::NE).unwrap().bodies(), &vec![centered]);
    assert_eq!(qnode.quadrant(Cardinal::NW).unwrap().bodies(), &vec![bodies[0]]);
    assert_eq!(qnode.quadrant(Cardinal::SW).unwrap().bodies().len(), 0);
}

#[test]
fn body_outside_the_region_finds_no_quadrant() {
    let (mut qnode, bodies) = setup();
    // An external node under capacity takes whatever it is given.
    let outside = Body::new(7, Point::new(fx(12.0), fx(2.0)), 10);
    assert_eq!(qnode.insert(&outside), Ok(()));
    // When the node splits, the body is covered by no quadrant and is lost.
    assert_eq!(qnode.insert(&bodies[0]), Err(InsertError::NoQuadrant));
    // The aggregates keep it all the same, and the other body found its place.
    assert_eq!(qnode.mass(), Some(20));
    assert_eq!(qnode.count(), 2);
    assert!(qnode.is_internal());
    assert_eq!(qnode.quadrant(Cardinal::NW).unwrap().bodies(), &vec![bodies[0]]);
    // Neither does a body on the eastern edge find one.
    let on_edge = Body::new(8, Point::new(fx(10.0), fx(2.0)), 10);
    assert_eq!(qnode.insert(&on_edge), Err(InsertError::NoQuadrant));
    // The western edge is covered.
    let on_west = Body::new(9, Point::new(0, 0), 10);
    assert_eq!(qnode.insert(&on_west), Ok(()));
}

#[test]
fn bodies_in_one_place_share_the_smallest_node() {
    let (mut qnode, _) = setup();
    let first = Body::new(1, Point::new(fx(3.0), fx(3.0)), 10);
    let twin = Body::new(2, Point::new(fx(3.0), fx(3.0)), 10);
    qnode.insert(&first).unwrap();
    assert_eq!(qnode.insert(&twin), Ok(()));
    assert_eq!(qnode.mass(), Some(20));
    // The tree splits until a node is too small to be split; that node
    // holds both, beyond its capacity.
    let mut node = &qnode;
    let mut depth = 0;
    while node.is_internal() {
        let mut next = None;
        for c in [Cardinal::NW, Cardinal::NE, Cardinal::SE, Cardinal::SW] {
            let q = node.quadrant(c).unwrap();
            if q.count() > 0 {
                assert!(next.is_none());
                assert_eq!(q.count(), 2);
                next = Some(q);
            }
        }
        node = next.unwrap();
        depth += 1;
    }
    assert!(depth > 10);
    assert!(node.rect().width() < 2 || node.rect().height() < 2);
    let mut held = node.bodies().clone();
    held.sort_by_key(|b| b.id());
    assert_eq!(held, vec![first, twin]);
    assert_eq!(qnode.pull(&first, fx(1.0)), (0, 0));
}

#[test]
fn a_node_too_small_to_split_holds_what_it_is_given() {
    let cfg = QuadConfig { capacity: 1, theta: fx(0.5), gravity: newton() };
    let mut qnode = QuadNode::new(cfg, Rect::new(0, 0, 2, 1));
    for k in 0..3 {
        assert_eq!(qnode.insert(&Body::new(k, Point::new(k as i32 % 2 - 1, 0), 10)), Ok(()));
        assert!(!qnode.is_internal());
        assert_eq!(qnode.bodies().len(), k as usize + 1);
    }
    assert_eq!(qnode.mass(), Some(30));
}

#[test]
fn capacity_is_honoured() {
    let bounds = Rect::new(fx(5.0), fx(5.0), fx(10.0), fx(10.0));
    let cfg = QuadConfig { capacity: 3, theta: fx(0.5), gravity: newton() };
    let mut qnode = QuadNode::new(cfg, bounds);
    let spots = [(1.0, 1.0), (9.0, 1.5), (2.5, 8.0), (7.0, 7.25)];
    for (k, s) in spots.iter().enumerate() {
        assert!(!qnode.is_internal());
        assert_eq!(qnode.bodies().len(), k);
        qnode.insert(&Body::new(k as u128, Point::new(fx(s.0), fx(s.1)), 10)).unwrap();
    }
    assert!(qnode.is_internal());
    assert_eq!(qnode.bodies().len(), 0);
    for c in [Cardinal::NW, Cardinal::NE, Cardinal::SE, Cardinal::SW] {
        assert_eq!(qnode.quadrant(c).unwrap().bodies().len(), 1);
    }
}

#[test]
fn force_is_symmetric() {
    let a = Body::new(1, Point::new(fx(1.0), fx(1.0)), 123_456);
    let b = Body::new(2, Point::new(fx(4.5), fx(-2.25)), 7_890);
    let ab = QuadNode::calc_force(&a, &b, newton());
    let ba = QuadNode::calc_force(&b, &a, newton());
    assert_eq!(ab.x, -ba.x);
    assert_eq!(ab.y, -ba.y);
    assert!(ab.x > 0 && ab.y < 0);
}

#[test]
fn bodies_in_one_place_exert_no_force() {
    let a = Body::new(1, Point::new(fx(1.0), fx(1.0)), 100);
    let b = Body::new(2, Point::new(fx(1.0), fx(1.0)), 100);
    let f = QuadNode::calc_force(&a, &b, newton());
    assert_eq!((f.x, f.y), (0, 0));
    assert_eq!(QuadNode::calc_velocity(&a, f, fx(1.0)), Point::new(0, 0));
}

#[test]
fn massless_body_is_not_accelerated() {
    let a = Body::new(1, Point::new(fx(1.0), fx(1.0)), 0);
    let b = Body::new(2, Point::new(fx(1.0), fx(2.0)), 100);
    let f = QuadNode::calc_force(&a, &b, newton());
    assert_eq!(QuadNode::calc_velocity(&a, f, fx(1.0)), Point::new(0, 0));
}

#[test]
fn force_follows_the_inverse_square_law() {
    let a = Body::new(1, Point::new(0, 0), 100);
    let near = Body::new(2, Point::new(fx(1.0), 0), 100);
    let far = Body::new(3, Point::new(fx(2.0), 0), 100);
    let f_near = QuadNode::calc_force(&a, &near, newton());
    let f_far = QuadNode::calc_force(&a, &far, newton());
    assert_eq!(f_near.x, 6_672_600);
    assert_eq!(f_far.x, 1_668_150);
    assert_eq!(f_near.y, 0);
}

/// The pull of the bodies on `target`, each taken by itself.
fn direct_sum(bodies: &[Body], target: &Body, delta: i32) -> (i128, i128) {
    let mut sum = (0i128, 0i128);
    for b in bodies {
        if b.id() != target.id() {
            let f = QuadNode::calc_force(target, b, newton());
            let at_rest = Body::new(target.id(), target.position(), target.mass());
            let v = QuadNode::calc_velocity(&at_rest, f, delta);
            sum = (sum.0 + v.x as i128, sum.1 + v.y as i128);
        }
    }
    sum
}

#[test]
fn zero_theta_gives_the_direct_sum() {
    let bounds = Rect::new(fx(50.0), fx(50.0), fx(100.0), fx(100.0));
    let cfg = QuadConfig { capacity: 1, theta: 0, gravity: newton() };
    let mut qnode = QuadNode::new(cfg, bounds);
    let spots = [(10.0, 10.0), (90.0, 15.0), (25.0, 80.0), (70.0, 72.5), (60.0, 30.0), (61.0, 31.0)];
    let mut bodies = vec![];
    for (k, s) in spots.iter().enumerate() {
        bodies.push(Body::new(k as u128, Point::new(fx(s.0), fx(s.1)), 1_000_000 + k as u32));
    }
    for b in &bodies {
        qnode.insert(b).unwrap();
    }
    for b in &bodies {
        let expected = direct_sum(&bodies, b, fx(1.0));
        assert_eq!(qnode.pull(b, fx(1.0)), expected);
        let v = qnode.sum_up_force(b, fx(1.0), Point::new(0, 0));
        assert_eq!((v.x as i128, v.y as i128), expected);
    }
}

#[test]
fn far_nodes_pull_as_one_body() {
    let bounds = Rect::new(fx(500.0), fx(500.0), fx(1000.0), fx(1000.0));
    let cfg = QuadConfig { capacity: 1, theta: fx(0.5), gravity: newton() };
    let mut qnode = QuadNode::new(cfg, bounds);
    // Two bodies close together in the far north-east, a target in the
    // south-west.
    let b1 = Body::new(1, Point::new(fx(990.0), fx(990.0)), 4_000_000);
    let b2 = Body::new(2, Point::new(fx(992.0), fx(992.0)), 4_000_000);
    let target = Body::new(3, Point::new(fx(10.0), fx(10.0)), 1_000);
    qnode.insert(&b1).unwrap();
    qnode.insert(&b2).unwrap();
    qnode.insert(&target).unwrap();

    let ne = qnode.quadrant(Cardinal::NE).unwrap();
    assert!(ne.is_internal());
    let proxy = Body::new(0, ne.com(), 8_000_000);
    assert_eq!(ne.com(), Point::new(fx(991.0), fx(991.0)));
    let f = QuadNode::calc_force(&target, &proxy, newton());
    let v = QuadNode::calc_velocity(&target, f, fx(1.0));
    assert_eq!(ne.pull(&target, fx(1.0)), (v.x as i128, v.y as i128));
    // The root is too close to stand for its bodies: it asks its quadrants.
    assert_eq!(qnode.pull(&target, fx(1.0)), (v.x as i128, v.y as i128));
}

#[test]
fn target_does_not_pull_itself() {
    let (mut qnode, bodies) = setup();
    qnode.insert(&bodies[0]).unwrap();
    assert_eq!(qnode.pull(&bodies[0], fx(1.0)), (0, 0));
    let v = qnode.sum_up_force(&bodies[0], fx(1.0), Point::new(5, -7));
    assert_eq!(v, Point::new(5, -7));
}

#[test]
fn body_accessors_and_setters() {
    let mut b = Body::new(9, Point::new(1, 2), 3);
    assert_eq!(b.id(), 9);
    assert_eq!(b.mass(), 3);
    assert_eq!(b.position(), Point::new(1, 2));
    assert_eq!(b.velocity(), Point::new(0, 0));
    b.set_position(Point::new(4, 5));
    b.set_velocity(Point::new(6, 7));
    assert_eq!(b.position(), Point::new(4, 5));
    assert_eq!(b.velocity(), Point::new(6, 7));
}

#[test]
fn update_body_wraps_around() {
    let bounds = Rect::new(fx(5.0), fx(5.0), fx(10.0), fx(10.0));
    let cfg = QuadConfig { capacity: 1, theta: fx(0.5), gravity: newton() };
    let qnode = QuadNode::new(cfg, bounds);
    let mut b = Body::new(1, Point::new(fx(9.5), fx(0.5)), 10);
    b.set_velocity(Point::new(fx(1.0), fx(-1.0)));
    qnode.update_body(&mut b, fx(1.0));
    assert_eq!(b.position(), Point::new(fx(0.5), fx(9.5)));
    assert_eq!(b.velocity(), Point::new(fx(1.0), fx(-1.0)));
}

#[test]
fn a_larger_theta_opens_no_more_nodes() {
    let spots = [(10.0, 10.0), (90.0, 15.0), (25.0, 80.0), (70.0, 72.5), (60.0, 30.0), (61.0, 31.0), (62.0, 30.5)];
    let target = Point::new(fx(12.0), fx(11.0));
    let mut counts = vec![];
    for theta in [0.0, 0.1, 0.5, 1.0, 2.0, 100.0] {
        let bounds = Rect::new(fx(50.0), fx(50.0), fx(100.0), fx(100.0));
        let cfg = QuadConfig { capacity: 1, theta: fx(theta), gravity: newton() };
        let mut qnode = QuadNode::new(cfg, bounds);
        for (k, s) in spots.iter().enumerate() {
            qnode.insert(&Body::new(k as u128, Point::new(fx(s.0), fx(s.1)), 1_000)).unwrap();
        }
        counts.push(qnode.opened(&target));
    }
    for pair in counts.windows(2) {
        assert!(pair[0] >= pair[1]);
    }
    // Without a threshold every internal node is opened; under a huge one
    // not even the root.
    assert!(counts[0] > counts[2]);
    assert_eq!(counts[5], 0);
}

#[test]
fn an_external_node_opens_nothing() {
    let (mut qnode, bodies) = setup();
    assert_eq!(qnode.opened(&Point::new(0, 0)), 0);
    qnode.insert(&bodies[0]).unwrap();
    assert_eq!(qnode.opened(&Point::new(0, 0)), 0);
}
