use vstd::prelude::*;
use crate::geo::point::ONE;
use crate::geo::point::Point;
use crate::geo::rect::Rect;
use crate::num::clamp_i32;
use crate::num::div_trunc;
use crate::num::wrap_into;
use crate::planet::Planet;
use crate::quad::body::Body;
use crate::quad::body::Newtonian;
use crate::quad::gravity::Gravity;
use crate::quad::gravity::pull_limit;
use crate::quad::gravity::seq_pull;
use crate::quad::gravity::sum_pulls;
use crate::quad::laws::lemma_empty_wf;
use crate::quad::laws::lemma_insert_wf;
use crate::quad::quadnode::QuadNode;
use crate::quad::tree::QuadConfig;
use crate::quad::tree::Tree;
use crate::world::World;
use crate::world::bodies_of;
use crate::world::lemma_living;
use crate::world::lemma_resolve_keeps;
use crate::world::lemma_sweep_keeps;
use crate::world::lemma_tick;
use crate::world::lemma_tree_ok;
use crate::world::living;
use crate::world::resolve;
use crate::world::resolve_from;
use crate::world::should_merge;
use crate::world::sweep;

verus! {

/// How many planets `init_random` adds around the sun.
pub const NO_OF_PLANETS: usize = 100;

/// How many bodies a node of the tree holds, unless configured otherwise.
pub const CAPACITY: usize = 1;

/// The threshold of the tree, unless configured otherwise: one half.
pub const THETA: i32 = 500;

/// The numerator of the gravitational constant for masses in kg and lengths
/// in m that gives forces in billionths of a newton:
/// `6.67e-11 * ONE * ONE * 1e9`.
pub const GRAVITY_NUM: u32 = 66_700;

/// The denominator of that gravitational constant.
pub const GRAVITY_DEN: u32 = 1;

/// The fixed-point factor that turns the pull of a force in billionths of a
/// newton into a change of velocity, and makes that ten thousand times as
/// large as it is, to have something actually happening on the screen:
/// `1e4 * ONE / 1e9`.
pub const SCALE_F: i32 = 10;

/// The force, in billionths of a newton, above which a planet eats another.
pub const EATING_FORCE: i64 = 400_000_000_000;

/// The universe: a plane that wraps around at its edges, and the planets
/// that live on it.
pub struct Universe {
    dimensions: (i32, i32),
    planets: Vec<Planet>,
    cfg: QuadConfig,
    scale: i32,
    eating_force: i64,
    anchor: Option<u128>,
}

impl View for Universe {
    type V = World;

    closed spec fn view(&self) -> World {
        World {
            dimensions: self.dimensions,
            planets: self.planets@,
            cfg: self.cfg,
            scale: self.scale,
            eating_force: self.eating_force,
            anchor: self.anchor,
        }
    }
}

impl Universe {
    /// The gravitational constant of every universe.
    pub open spec fn gravity() -> Gravity {
        Gravity { num: GRAVITY_NUM, den: GRAVITY_DEN }
    }

    /// The config of the tree that a new universe builds on every tick.
    pub open spec fn default_cfg() -> QuadConfig {
        QuadConfig { capacity: CAPACITY, theta: THETA, gravity: Self::gravity() }
    }

    /// An empty universe of the given dimensions.
    pub fn new(dimensions: (i32, i32)) -> (u: Self)
        ensures
            u@ == (World {
                dimensions,
                planets: Seq::empty(),
                cfg: Self::default_cfg(),
                scale: SCALE_F,
                eating_force: EATING_FORCE,
                anchor: None,
            }),
            dimensions.0 > 0 && dimensions.1 > 0 ==> u@.wf(),
    {
        Self {
            dimensions,
            planets: Vec::new(),
            cfg: QuadConfig {
                capacity: CAPACITY,
                theta: THETA,
                gravity: Gravity { num: GRAVITY_NUM, den: GRAVITY_DEN },
            },
            scale: SCALE_F,
            eating_force: EATING_FORCE,
            anchor: None,
        }
    }

    /// A universe of the given dimensions with `body_count` random planets,
    /// whose tree holds `capacity` bodies in a node and approximates below
    /// the threshold `theta`.
    pub fn configure(
        domain_width: i32,
        domain_height: i32,
        body_count: usize,
        capacity: usize,
        theta: i32,
    ) -> (u: Self)
        requires
            domain_width > 0,
            domain_height > 0,
            body_count < u32::MAX,
            capacity >= 1,
            theta >= 0,
        ensures
            u@.wf(),
            u@.dimensions == (domain_width, domain_height),
            u@.cfg == (QuadConfig { capacity, theta, gravity: Self::gravity() }),
            u@.scale == SCALE_F,
            u@.eating_force == EATING_FORCE,
            u@.anchor is None,
            u@.planets.len() == body_count,
            forall|i: int|
                0 <= i < body_count ==> u@.bounds_hold(#[trigger] u@.planets[i]),
    {
        let mut u = Self::new((domain_width, domain_height));
        u.cfg = QuadConfig { capacity, theta, gravity: Gravity { num: GRAVITY_NUM, den: GRAVITY_DEN } };
        let mut i: usize = 0;
        while i < body_count
            invariant
                0 <= i <= body_count < u32::MAX,
                u@.wf(),
                u@.dimensions == (domain_width, domain_height),
                u@.cfg == (QuadConfig { capacity, theta, gravity: Self::gravity() }),
                u@.scale == SCALE_F,
                u@.eating_force == EATING_FORCE,
                u@.anchor is None,
                u@.planets.len() == i,
                forall|k: int| 0 <= k < i ==> u@.bounds_hold(#[trigger] u@.planets[k]),
            decreases body_count - i,
        {
            let p = Planet::new_rng(u.dimensions);
            u.planets.push(p);
            i += 1;
        }
        u
    }

    /// Adds a sun in the middle of the plane, which from now on stays where
    /// it is, and `NO_OF_PLANETS` random planets.
    pub fn init_random(&mut self)
        requires
            old(self)@.wf(),
            old(self)@.planets.len() + NO_OF_PLANETS + 1 < u32::MAX,
        ensures
            final(self)@.wf(),
            final(self)@.planets.len() == old(self)@.planets.len() + NO_OF_PLANETS + 1,
            final(self)@.planets.take(old(self)@.planets.len() as int) == old(self)@.planets,
            final(self)@.planets[old(self)@.planets.len() as int] == (Planet {
                id: final(self)@.planets[old(self)@.planets.len() as int].id,
                ..Planet::sun_at(old(self)@.bounds().center_spec())
            }),
            final(self)@.anchor == Some(
                final(self)@.planets[old(self)@.planets.len() as int].id,
            ),
            forall|i: int|
                old(self)@.planets.len() < i < final(self)@.planets.len()
                    ==> final(self)@.bounds_hold(#[trigger] final(self)@.planets[i]),
            final(self)@ == (World {
                planets: final(self)@.planets,
                anchor: final(self)@.anchor,
                ..old(self)@
            }),
    {
        let ghost before = self.planets@;
        let sun = Planet::new_sun(self.dimensions.0 / 2, self.dimensions.1 / 2);
        self.anchor = Some(sun.id);
        self.planets.push(sun);
        let mut i: usize = 0;
        while i < NO_OF_PLANETS
            invariant
                0 <= i <= NO_OF_PLANETS,
                before.len() + NO_OF_PLANETS + 1 < u32::MAX,
                self@.wf(),
                self@.planets.len() == before.len() + 1 + i,
                self@.planets.take(before.len() as int) == before,
                self@.planets[before.len() as int] == sun,
                forall|k: int|
                    before.len() < k < self@.planets.len() ==> self@.bounds_hold(
                        #[trigger] self@.planets[k],
                    ),
                self@ == (World { planets: self@.planets, anchor: Some(sun.id), ..old(self)@ }),
            decreases NO_OF_PLANETS - i,
        {
            let planet = Planet::new_rng(self.dimensions);
            self.planets.push(planet);
            assert(self@.planets.take(before.len() as int) =~= before);
            i += 1;
        }
    }

    /// Adds a random planet at the given position. A position off the plane
    /// is taken modulo the width and the height, as if the planet had
    /// moved there.
    pub fn add_planet(&mut self, x: i32, y: i32)
        requires
            old(self)@.wf(),
            old(self)@.planets.len() + 1 < u32::MAX,
        ensures
            final(self)@.wf(),
            final(self)@ == (World {
                planets: old(self)@.planets.push(final(self)@.planets.last()),
                ..old(self)@
            }),
            final(self)@.planets.last().pos == old(self)@.wrapped(Point { x, y }),
            old(self)@.on_plane(Point { x, y }) ==> final(self)@.planets.last().pos == (Point {
                x,
                y,
            }),
            final(self)@.planets.last().density == crate::planet::PLACED_DENSITY,
            10 * ONE <= final(self)@.planets.last().radius < 12 * ONE,
            -200 <= final(self)@.planets.last().velocity.x < 1500,
            -200 <= final(self)@.planets.last().velocity.y < 1500,
            !final(self)@.planets.last().dead,
    {
        let p = Planet::new_semi_rng(x, y);
        self.insert_planet(p);
    }

    /// Adds the given planet, which must be alive. A position off the plane
    /// is taken modulo the width and the height.
    pub fn insert_planet(&mut self, p: Planet)
        requires
            old(self)@.wf(),
            old(self)@.planets.len() + 1 < u32::MAX,
            !p.dead,
        ensures
            final(self)@.wf(),
            final(self)@ == (World {
                planets: old(self)@.planets.push(
                    Planet { pos: old(self)@.wrapped(p.pos), ..p },
                ),
                ..old(self)@
            }),
            old(self)@.on_plane(p.pos) ==> final(self)@.planets.last() == p,
    {
        let mut p = p;
        proof {
            if 0 <= p.pos.x < self.dimensions.0 {
                vstd::arithmetic::div_mod::lemma_small_mod(
                    p.pos.x as nat,
                    self.dimensions.0 as nat,
                );
            }
            if 0 <= p.pos.y < self.dimensions.1 {
                vstd::arithmetic::div_mod::lemma_small_mod(
                    p.pos.y as nat,
                    self.dimensions.1 as nat,
                );
            }
        }
        p.pos = Point {
            x: wrap_into(p.pos.x as i128, self.dimensions.0),
            y: wrap_into(p.pos.y as i128, self.dimensions.1),
        };
        self.planets.push(p);
    }

    /// The planets, all of which are alive between two ticks.
    pub fn planets(&self) -> (planets: &Vec<Planet>)
        ensures
            planets@ == self@.planets,
    {
        &self.planets
    }

    /// Width and height of the plane.
    pub fn dimensions(&self) -> (d: (i32, i32))
        ensures
            d == self@.dimensions,
    {
        self.dimensions
    }

    /// Position and radius of every living planet, in the order of the
    /// collection.
    pub fn snapshot(&self) -> (shot: Vec<(Point, i32)>)
        ensures
            shot@.len() == living(self@.planets).len(),
            forall|i: int|
                0 <= i < shot@.len() ==> #[trigger] shot@[i] == (
                    living(self@.planets)[i].pos,
                    living(self@.planets)[i].radius,
                ),
            self@.wf() ==> shot@.len() == self@.planets.len(),
    {
        let mut shot: Vec<(Point, i32)> = Vec::new();
        let mut i: usize = 0;
        proof {
            assert(self.planets@.take(0) =~= Seq::<Planet>::empty());
            lemma_living(self.planets@);
        }
        while i < self.planets.len()
            invariant
                0 <= i <= self.planets.len(),
                shot@.len() == living(self.planets@.take(i as int)).len(),
                forall|k: int|
                    0 <= k < shot@.len() ==> #[trigger] shot@[k] == (
                        living(self.planets@.take(i as int))[k].pos,
                        living(self.planets@.take(i as int))[k].radius,
                    ),
            decreases self.planets.len() - i,
        {
            proof {
                let next = self.planets@.take(i + 1);
                assert(next.drop_last() =~= self.planets@.take(i as int));
                assert(next.last() == self.planets@[i as int]);
            }
            if !self.planets[i].dead {
                shot.push((self.planets[i].pos, self.planets[i].radius));
            }
            i += 1;
        }
        proof {
            assert(self.planets@.take(i as int) =~= self.planets@);
        }
        shot
    }

    /// Builds the tree over the plane and inserts every planet. Each finds
    /// its place, since the plane covers it.
    fn build_tree(&self) -> (tree: QuadNode)
        requires
            self@.wf(),
        ensures
            tree@ == self@.tree(),
            tree@.wf(),
    {
        let bounds = Rect::new(
            self.dimensions.0 / 2,
            self.dimensions.1 / 2,
            self.dimensions.0,
            self.dimensions.1,
        );
        let mut tree = QuadNode::new(self.cfg, bounds);
        let ghost empty = Tree::empty(self.cfg, bounds);
        let ghost bodies = bodies_of(self.planets@);
        proof {
            lemma_empty_wf(self.cfg, bounds);
            assert(bodies.take(0) =~= Seq::<Body>::empty());
        }
        let mut i: usize = 0;
        while i < self.planets.len()
            invariant
                0 <= i <= self.planets.len() < u32::MAX,
                bodies == bodies_of(self.planets@),
                empty == Tree::empty(self.cfg, bounds),
                tree@ == empty.insert_all(bodies.take(i as int)),
                tree@.wf(),
                tree@.count == i,
            decreases self.planets.len() - i,
        {
            proof {
                let next = bodies.take(i + 1);
                assert(next.drop_last() =~= bodies.take(i as int));
                assert(next.last() == self.planets@[i as int].as_body());
                lemma_insert_wf(tree@, next.last());
            }
            let _placed = tree.insert(&self.planets[i]);
            i += 1;
        }
        proof {
            assert(bodies.take(i as int) =~= bodies);
        }
        tree
    }

    /// One component of the pull on a planet, scaled.
    fn scaled(&self, pull: i128) -> (v: i128)
        ensures
            v == self@.scaled(pull as int),
            -0x8000_0000_0000_0000_0000_0000 <= v <= 0x8000_0000_0000_0000_0000_0000,
    {
        let p: i128 = if pull < -0x7fff_ffff_ffff_ffff {
            -0x7fff_ffff_ffff_ffff
        } else if pull > 0x7fff_ffff_ffff_ffff {
            0x7fff_ffff_ffff_ffff
        } else {
            pull
        };
        let s: i128 = self.scale as i128;
        assert(-0x8000_0000_0000_0000_0000_0000 <= p * s <= 0x8000_0000_0000_0000_0000_0000)
            by (nonlinear_arith)
            requires
                -0x8000_0000_0000_0000 <= p <= 0x8000_0000_0000_0000,
                -0x8000_0000 <= s <= 0x8000_0000,
        ;
        let one: i128 = ONE as i128;
        proof {
            crate::num::lemma_trunc_div_bounds(p * s, one as int);
        }
        div_trunc(p * s, one)
    }

    /// Lets every planet take the pull of the tree into its velocity.
    fn apply_forces(&mut self, tree: &QuadNode, delta: i32)
        requires
            old(self)@.wf(),
            tree@ == old(self)@.tree(),
            tree@.wf(),
        ensures
            final(self)@ == (World { planets: old(self)@.after_forces(delta), ..old(self)@ }),
    {
        let ghost start = self@;
        let mut i: usize = 0;
        while i < self.planets.len()
            invariant
                0 <= i <= self.planets.len(),
                self@ == (World { planets: self@.planets, ..start }),
                self@.planets.len() == start.planets.len(),
                tree@ == start.tree(),
                tree@.wf(),
                forall|k: int|
                    0 <= k < i ==> #[trigger] self@.planets[k] == start.kicked(
                        start.planets[k],
                        start.tree().pull(start.planets[k].as_body(), delta),
                    ),
                forall|k: int|
                    i <= k < self@.planets.len() ==> #[trigger] self@.planets[k]
                        == start.planets[k],
            decreases self.planets.len() - i,
        {
            let mut p = self.planets[i];
            let body = Body { id: p.id, center: p.pos, mass: p.mass(), velocity: p.velocity };
            let pull = tree.pull(&body, delta);
            let dx = self.scaled(pull.0);
            let dy = self.scaled(pull.1);
            p.velocity = Point {
                x: clamp_i32(p.velocity.x as i128 + dx),
                y: clamp_i32(p.velocity.y as i128 + dy),
            };
            self.planets[i] = p;
            i += 1;
        }
        assert(self@.planets =~= start.after_forces(delta));
    }

    /// Whether one of two planets eats the other.
    fn should_merge(&self, a: &Planet, b: &Planet) -> (yes: bool)
        ensures
            yes == should_merge(*a, *b, self@.cfg.gravity, self@.eating_force),
    {
        if a.dead || b.dead {
            return false;
        }
        let reach: i128 = if a.radius >= b.radius {
            a.radius as i128
        } else {
            b.radius as i128
        };
        if reach < 0 {
            return false;
        }
        let dx: i128 = b.pos.x as i128 - a.pos.x as i128;
        let dy: i128 = b.pos.y as i128 - a.pos.y as i128;
        assert(0 <= dx * dx <= 0x1_0000_0000_0000_0000 && 0 <= dy * dy <= 0x1_0000_0000_0000_0000
            && 0 <= reach * reach <= 0x1_0000_0000_0000_0000) by (nonlinear_arith)
            requires
                -0x1_0000_0000 <= dx <= 0x1_0000_0000,
                -0x1_0000_0000 <= dy <= 0x1_0000_0000,
                0 <= reach <= 0x1_0000_0000,
        ;
        let r2: i128 = dx * dx + dy * dy;
        if r2 > reach * reach {
            return false;
        }
        if r2 == 0 {
            return true;
        }
        if self.cfg.gravity.den == 0 {
            return 0 > self.eating_force;
        }
        let gn: i128 = self.cfg.gravity.num as i128;
        let gd: i128 = self.cfg.gravity.den as i128;
        let m1: i128 = a.mass() as i128;
        let m2: i128 = b.mass() as i128;
        assert(0 <= gn * m1 <= 0xffff_ffff * 0xffff_ffff && 0 <= gn * m1 * m2 <= 0xffff_ffff
            * 0xffff_ffff * 0xffff_ffff && 0 < gd * r2 <= 0xffff_ffff * 0x2_0000_0000_0000_0000)
            by (nonlinear_arith)
            requires
                0 <= gn <= 0xffff_ffff,
                0 <= m1 <= 0xffff_ffff,
                0 <= m2 <= 0xffff_ffff,
                0 < gd <= 0xffff_ffff,
                0 < r2 <= 0x2_0000_0000_0000_0000,
        ;
        (gn * m1 * m2) / (gd * r2) > self.eating_force as i128
    }

    /// Lets touching planets merge, pair by pair.
    fn resolve_merges(&mut self)
        ensures
            final(self)@ == (World {
                planets: resolve(
                    old(self)@.planets,
                    old(self)@.cfg.gravity,
                    old(self)@.eating_force,
                ),
                ..old(self)@
            }),
    {
        let ghost start = self@;
        let ghost g = self@.cfg.gravity;
        let ghost eating = self@.eating_force;
        let ghost goal = resolve(start.planets, g, eating);
        let n = self.planets.len();
        let mut i: usize = 0;
        while i < n
            invariant
                0 <= i <= n,
                n == self.planets.len(),
                self@ == (World { planets: self@.planets, ..start }),
                g == start.cfg.gravity,
                eating == start.eating_force,
                resolve_from(self@.planets, i as int, (n - i) as nat, g, eating) == goal,
            decreases n - i,
        {
            let ghost row = self@.planets;
            let mut j: usize = i + 1;
            while j < n && !self.planets[i].dead
                invariant
                    i < j <= n,
                    n == self.planets.len(),
                    self@ == (World { planets: self@.planets, ..start }),
                    g == start.cfg.gravity,
                    eating == start.eating_force,
                    sweep(self@.planets, i as int, j as int, g, eating) == sweep(
                        row,
                        i as int,
                        i + 1,
                        g,
                        eating,
                    ),
                decreases n - j,
            {
                let a = self.planets[i];
                let b = self.planets[j];
                if self.should_merge(&a, &b) {
                    let mut a = a;
                    let mut b = b;
                    if a.mass() >= b.mass() {
                        a.eat(&mut b);
                    } else {
                        b.eat(&mut a);
                    }
                    self.planets[i] = a;
                    self.planets[j] = b;
                }
                j += 1;
            }
            proof {
                lemma_sweep_keeps(row, i as int, i + 1, g, eating);
            }
            i += 1;
        }
    }

    /// Lets every living planet but the anchor move for the time `delta`.
    fn move_planets(&mut self, delta: i32)
        requires
            old(self)@.dimensions.0 > 0,
            old(self)@.dimensions.1 > 0,
        ensures
            final(self)@.planets.len() == old(self)@.planets.len(),
            forall|k: int|
                0 <= k < old(self)@.planets.len() ==> #[trigger] final(self)@.planets[k] == old(
                    self,
                )@.moved(old(self)@.planets[k], delta),
            final(self)@ == (World { planets: final(self)@.planets, ..old(self)@ }),
    {
        let ghost start = self@;
        let mut i: usize = 0;
        while i < self.planets.len()
            invariant
                0 <= i <= self.planets.len(),
                self@ == (World { planets: self@.planets, ..start }),
                self@.planets.len() == start.planets.len(),
                start.dimensions.0 > 0,
                start.dimensions.1 > 0,
                forall|k: int|
                    0 <= k < i ==> #[trigger] self@.planets[k] == start.moved(
                        start.planets[k],
                        delta,
                    ),
                forall|k: int|
                    i <= k < self@.planets.len() ==> #[trigger] self@.planets[k]
                        == start.planets[k],
            decreases self.planets.len() - i,
        {
            let mut p = self.planets[i];
            let anchored = match self.anchor {
                Some(id) => id == p.id,
                None => false,
            };
            if !p.dead && !anchored {
                p.integrate(self.dimensions, delta);
                self.planets[i] = p;
            }
            i += 1;
        }
    }

    /// Drops the dead planets.
    fn compact(&mut self)
        ensures
            final(self)@ == (World { planets: living(old(self)@.planets), ..old(self)@ }),
    {
        let mut alive: Vec<Planet> = Vec::new();
        let mut i: usize = 0;
        proof {
            assert(self.planets@.take(0) =~= Seq::<Planet>::empty());
        }
        while i < self.planets.len()
            invariant
                0 <= i <= self.planets.len(),
                alive@ == living(self.planets@.take(i as int)),
            decreases self.planets.len() - i,
        {
            proof {
                let next = self.planets@.take(i + 1);
                assert(next.drop_last() =~= self.planets@.take(i as int));
                assert(next.last() == self.planets@[i as int]);
            }
            if !self.planets[i].dead {
                alive.push(self.planets[i]);
            }
            i += 1;
        }
        proof {
            assert(self.planets@.take(i as int) =~= self.planets@);
        }
        self.planets = alive;
    }

    /// Lets every planet take the pull of every other planet by itself.
    fn apply_direct_forces(&mut self, delta: i32)
        requires
            old(self)@.wf(),
        ensures
            final(self)@ == (World {
                planets: old(self)@.after_direct_forces(delta),
                ..old(self)@
            }),
    {
        let ghost start = self@;
        let mut bodies: Vec<Body> = Vec::new();
        let mut k: usize = 0;
        while k < self.planets.len()
            invariant
                0 <= k <= self.planets.len(),
                bodies@.len() == k,
                forall|i: int| 0 <= i < k ==> #[trigger] bodies@[i] == self.planets@[i].as_body(),
            decreases self.planets.len() - k,
        {
            let p = self.planets[k];
            bodies.push(Body { id: p.id, center: p.pos, mass: p.mass(), velocity: p.velocity });
            k += 1;
        }
        assert(bodies@ =~= bodies_of(start.planets));
        let mut i: usize = 0;
        while i < self.planets.len()
            invariant
                0 <= i <= self.planets.len(),
                self@ == (World { planets: self@.planets, ..start }),
                self@.planets.len() == start.planets.len(),
                start.planets.len() < u32::MAX,
                bodies@ == bodies_of(start.planets),
                forall|k: int|
                    0 <= k < i ==> #[trigger] self@.planets[k] == start.kicked(
                        start.planets[k],
                        seq_pull(
                            bodies_of(start.planets),
                            start.planets[k].as_body(),
                            start.cfg.gravity,
                            delta,
                        ),
                    ),
                forall|k: int|
                    i <= k < self@.planets.len() ==> #[trigger] self@.planets[k]
                        == start.planets[k],
            decreases self.planets.len() - i,
        {
            let mut p = self.planets[i];
            let body = bodies[i];
            let pull = sum_pulls(&bodies, &body, self.cfg.gravity, delta);
            proof {
                let lim = pull_limit();
                let n = bodies.len() as int;
                assert(0 <= lim * n <= 0x4000_0000_0000_0000_0000_0000 * 0xffff_ffff)
                    by (nonlinear_arith)
                    requires
                        0 <= n <= 0xffff_ffff,
                        lim == 0x4000_0000_0000_0000_0000_0000,
                ;
            }
            let dx = self.scaled(pull.0);
            let dy = self.scaled(pull.1);
            p.velocity = Point {
                x: clamp_i32(p.velocity.x as i128 + dx),
                y: clamp_i32(p.velocity.y as i128 + dy),
            };
            self.planets[i] = p;
            i += 1;
        }
        assert(self@.planets =~= start.after_direct_forces(delta));
    }

    /// Lets touching planets merge and the living ones move, and drops the
    /// dead ones.
    fn settle(&mut self, delta: i32, Ghost(start): Ghost<World>)
        requires
            start.wf(),
            old(self)@ == (World { planets: old(self)@.planets, ..start }),
            old(self)@.planets.len() == start.planets.len(),
        ensures
            final(self)@ == start.settle(old(self)@.planets, delta),
    {
        let ghost forced = self@.planets;
        self.resolve_merges();
        self.move_planets(delta);
        proof {
            assert(self@.planets =~= start.after_motion(forced, delta)) by {
                lemma_resolve_keeps(
                    forced,
                    0,
                    forced.len(),
                    start.cfg.gravity,
                    start.eating_force,
                );
            }
        }
        self.compact();
    }

    /// The main computation of the universe. A tree is built over the plane
    /// and takes every planet; each planet takes the pull of the tree,
    /// scaled, into its velocity; touching planets merge; the living planets
    /// move; the dead ones are removed.
    ///
    /// Every planet finds its place in the tree (`lemma_tree_ok`), so the
    /// tick cannot fail.
    pub fn tick(&mut self, delta: i32)
        requires
            old(self)@.wf(),
        ensures
            final(self)@ == old(self)@.tick(delta),
            final(self)@.wf(),
            final(self)@.planets.len() <= old(self)@.planets.len(),
            old(self)@.tree_ok(),
    {
        let ghost start = self@;
        proof {
            lemma_tick(start, delta);
            lemma_tree_ok(start);
        }
        let tree = self.build_tree();
        self.apply_forces(&tree, delta);
        self.settle(delta, Ghost(start));
    }

    /// The main computation of the universe without the tree: in a nested
    /// loop, each planet takes the pull of every other planet, scaled, into
    /// its velocity; touching planets merge; the living planets move; the
    /// dead ones are removed.
    pub fn tick_brute(&mut self, delta: i32)
        requires
            old(self)@.wf(),
        ensures
            final(self)@ == old(self)@.tick_brute(delta),
            final(self)@.wf(),
            final(self)@.planets.len() <= old(self)@.planets.len(),
    {
        let ghost start = self@;
        proof {
            lemma_tick(start, delta);
        }
        self.apply_direct_forces(delta);
        self.settle(delta, Ghost(start));
    }
}

} // verus!
