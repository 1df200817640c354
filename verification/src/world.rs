//! The mathematical model of a universe: what a
//! [`Universe`](crate::Universe) is, and what a tick makes of it.
use vstd::prelude::*;
use crate::geo::point::ONE;
use crate::geo::point::Point;
use crate::geo::rect::Rect;
use crate::num::saturate;
use crate::num::trunc_div;
use crate::num::wrap;
use crate::planet::Planet;
use crate::planet::lemma_eat_keeps_mass;
use crate::planet::raw_mass;
use crate::quad::body::Body;
use crate::quad::body::Newtonian;
use crate::quad::gravity::Gravity;
use crate::quad::gravity::advance_spec;
use crate::quad::gravity::saturate_force;
use crate::quad::gravity::seq_pull;
use crate::quad::tree::QuadConfig;
use crate::quad::tree::Tree;

verus! {

/// A universe: its planets and the rules that move them.
pub ghost struct World {
    /// Width and height of the plane, which wraps around at its edges.
    pub dimensions: (i32, i32),
    pub planets: Seq<Planet>,
    /// The config of the tree that is built on every tick.
    pub cfg: QuadConfig,
    /// The fixed-point factor by which the pull on a planet is scaled before
    /// it enters the planet's velocity.
    pub scale: i32,
    /// The force above which the heavier of two touching planets eats the
    /// other.
    pub eating_force: i64,
    /// The identity of the planet that stays where it is, if there is one.
    pub anchor: Option<u128>,
}

/// What the tree reads of each planet.
pub open spec fn bodies_of(planets: Seq<Planet>) -> Seq<Body> {
    Seq::new(planets.len(), |i: int| planets[i].as_body())
}

/// The magnitude `G * m1 * m2 / r²` of the force between two masses whose
/// squared distance is the positive `r2`, rounded down. Without a
/// gravitational constant there is no force.
pub open spec fn attraction(g: Gravity, m1: int, m2: int, r2: int) -> int {
    if g.den == 0 {
        0
    } else {
        (g.num * m1 * m2) / (g.den * r2)
    }
}

/// The larger of two radii.
pub open spec fn reach(a: Planet, b: Planet) -> int {
    if a.radius >= b.radius {
        a.radius as int
    } else {
        b.radius as int
    }
}

/// Whether one of two planets eats the other: both are alive, they are no
/// further apart than the radius of the larger one, and the force between
/// them exceeds the eating force. Planets in the same place attract each
/// other without limit.
pub open spec fn should_merge(a: Planet, b: Planet, g: Gravity, eating_force: i64) -> bool {
    let r2 = a.pos.dist2(b.pos);
    &&& !a.dead
    &&& !b.dead
    &&& reach(a, b) >= 0
    &&& r2 <= reach(a, b) * reach(a, b)
    &&& (r2 == 0 || attraction(g, a.mass_spec(), b.mass_spec(), r2) > eating_force)
}

/// Two planets after one has eaten the other: the heavier one, or the first
/// where both are equally heavy, grows by the other, which dies.
pub open spec fn merged(a: Planet, b: Planet) -> (Planet, Planet) {
    if a.mass_spec() >= b.mass_spec() {
        (a.eat_spec(b.mass_spec(), b.density as int), Planet { dead: true, ..b })
    } else {
        (Planet { dead: true, ..a }, b.eat_spec(a.mass_spec(), a.density as int))
    }
}

/// The planets after planet `i`, while it lives, has been held against each
/// planet from `j` on, and has merged with those that `should_merge` names.
pub open spec fn sweep(
    planets: Seq<Planet>,
    i: int,
    j: int,
    g: Gravity,
    eating_force: i64,
) -> Seq<Planet>
    decreases planets.len() - j,
{
    if i < 0 || i >= j || j >= planets.len() || planets[i].dead {
        planets
    } else if should_merge(planets[i], planets[j], g, eating_force) {
        let (a, b) = merged(planets[i], planets[j]);
        sweep(planets.update(i, a).update(j, b), i, j + 1, g, eating_force)
    } else {
        sweep(planets, i, j + 1, g, eating_force)
    }
}

/// The planets after each of the `rest` planets from planet `i` on has been
/// held against every planet behind it, in the order of the collection.
pub open spec fn resolve_from(
    planets: Seq<Planet>,
    i: int,
    rest: nat,
    g: Gravity,
    eating_force: i64,
) -> Seq<Planet>
    decreases rest,
{
    if rest == 0 {
        planets
    } else {
        resolve_from(
            sweep(planets, i, i + 1, g, eating_force),
            i + 1,
            (rest - 1) as nat,
            g,
            eating_force,
        )
    }
}

/// The planets after every pair of them has been held against each other
/// once, in the order of the collection.
pub open spec fn resolve(planets: Seq<Planet>, g: Gravity, eating_force: i64) -> Seq<Planet> {
    resolve_from(planets, 0, planets.len(), g, eating_force)
}

/// The living planets of `planets`, in their order.
pub open spec fn living(planets: Seq<Planet>) -> Seq<Planet>
    decreases planets.len(),
{
    if planets.len() == 0 {
        planets
    } else if planets.last().dead {
        living(planets.drop_last())
    } else {
        living(planets.drop_last()).push(planets.last())
    }
}

impl World {
    /// The region that the plane covers.
    pub open spec fn bounds(self) -> Rect {
        Rect {
            x: (self.dimensions.0 / 2) as i32,
            y: (self.dimensions.1 / 2) as i32,
            width: self.dimensions.0,
            height: self.dimensions.1,
        }
    }

    /// Whether `p` lies on the plane.
    pub open spec fn on_plane(self, p: Point) -> bool {
        0 <= p.x < self.dimensions.0 && 0 <= p.y < self.dimensions.1
    }

    /// The point on the plane that stands for `p`: each co-ordinate modulo
    /// the extent of its axis.
    pub open spec fn wrapped(self, p: Point) -> Point {
        Point {
            x: wrap(p.x as int, self.dimensions.0 as int) as i32,
            y: wrap(p.y as int, self.dimensions.1 as int) as i32,
        }
    }

    /// Whether `p` is a living planet on the plane.
    pub open spec fn at_home(self, p: Planet) -> bool {
        !p.dead && self.on_plane(p.pos)
    }

    /// The invariant of a universe: the plane has an extent, the config is
    /// usable, every planet is alive and on the plane, and there are no more
    /// planets than a tree can count.
    pub open spec fn wf(self) -> bool {
        &&& self.dimensions.0 > 0
        &&& self.dimensions.1 > 0
        &&& self.cfg.wf()
        &&& self.planets.len() < u32::MAX
        &&& forall|i: int| 0 <= i < self.planets.len() ==> self.at_home(#[trigger] self.planets[i])
    }

    /// Whether `p` is a living planet inside the plane with the density, the
    /// radius and the velocity that a randomly generated planet has.
    pub open spec fn bounds_hold(self, p: Planet) -> bool {
        &&& !p.dead
        &&& p.density == crate::planet::PLANET_DENSITY
        &&& 5 * ONE <= p.radius < 10 * ONE
        &&& 0 <= p.pos.x < self.dimensions.0
        &&& 0 <= p.pos.y < self.dimensions.1
        &&& -200 <= p.velocity.x < 1500
        &&& -200 <= p.velocity.y < 1500
    }

    /// Of a universe of two planets that merge, the one that is left: the
    /// heavier one, or the first where both are equally heavy, grown by the
    /// other.
    pub open spec fn survivor(self) -> Planet {
        let a = self.planets[0];
        let b = self.planets[1];
        if a.mass_spec() >= b.mass_spec() {
            a.eat_spec(b.mass_spec(), b.density as int)
        } else {
            b.eat_spec(a.mass_spec(), a.density as int)
        }
    }

    /// The tree over the plane that holds every planet.
    pub open spec fn tree(self) -> Tree {
        Tree::empty(self.cfg, self.bounds()).insert_all(bodies_of(self.planets))
    }

    /// Whether every planet finds its place in the tree.
    pub open spec fn tree_ok(self) -> bool {
        Tree::empty(self.cfg, self.bounds()).insert_all_ok(bodies_of(self.planets))
    }

    /// One component of the pull on a planet, scaled.
    pub open spec fn scaled(self, pull: int) -> int {
        trunc_div(saturate_force(pull) * self.scale, ONE as int)
    }

    /// The planet after the given pull, scaled, has entered its velocity.
    pub open spec fn kicked(self, p: Planet, pull: (int, int)) -> Planet {
        Planet {
            velocity: Point {
                x: saturate(p.velocity.x + self.scaled(pull.0)) as i32,
                y: saturate(p.velocity.y + self.scaled(pull.1)) as i32,
            },
            ..p
        }
    }

    /// The planet after it has moved with its velocity for the time `delta`.
    /// A dead planet and the anchor do not move.
    pub open spec fn moved(self, p: Planet, delta: i32) -> Planet {
        if p.dead || self.anchor == Some(p.id) {
            p
        } else {
            Planet {
                pos: advance_spec(p.pos, p.velocity, delta, self.dimensions.0, self.dimensions.1),
                ..p
            }
        }
    }

    /// The planets after each has taken the pull of the tree over the time
    /// `delta` into its velocity.
    pub open spec fn after_forces(self, delta: i32) -> Seq<Planet> {
        Seq::new(
            self.planets.len(),
            |i: int| self.kicked(self.planets[i], self.tree().pull(self.planets[i].as_body(), delta)),
        )
    }

    /// The planets after each has taken the pull of every other planet, one
    /// by one, into its velocity.
    pub open spec fn after_direct_forces(self, delta: i32) -> Seq<Planet> {
        Seq::new(
            self.planets.len(),
            |i: int|
                self.kicked(
                    self.planets[i],
                    seq_pull(
                        bodies_of(self.planets),
                        self.planets[i].as_body(),
                        self.cfg.gravity,
                        delta,
                    ),
                ),
        )
    }

    /// The planets `forced`, which have taken their pull, after the merges.
    pub open spec fn after_merges(self, forced: Seq<Planet>) -> Seq<Planet> {
        resolve(forced, self.cfg.gravity, self.eating_force)
    }

    /// The planets `forced` after the merges and the movement.
    pub open spec fn after_motion(self, forced: Seq<Planet>, delta: i32) -> Seq<Planet> {
        Seq::new(forced.len(), |i: int| self.moved(self.after_merges(forced)[i], delta))
    }

    /// The universe with the planets `forced`, which have taken their pull,
    /// one tick later: touching planets have merged, the living ones have
    /// moved, and the dead ones are gone.
    pub open spec fn settle(self, forced: Seq<Planet>, delta: i32) -> World {
        World { planets: living(self.after_motion(forced, delta)), ..self }
    }

    /// The universe one tick of the length `delta` later: every planet has
    /// taken the pull of the tree into its velocity, touching planets have
    /// merged, the living ones have moved, and the dead ones are gone.
    pub open spec fn tick(self, delta: i32) -> World {
        self.settle(self.after_forces(delta), delta)
    }

    /// The universe one tick later where every planet has taken the pull of
    /// every other planet by itself, with no tree in between.
    pub open spec fn tick_brute(self, delta: i32) -> World {
        self.settle(self.after_direct_forces(delta), delta)
    }
}

/// A sweep neither adds nor removes a planet, keeps every identity, and
/// revives no planet.
pub proof fn lemma_sweep_keeps(
    planets: Seq<Planet>,
    i: int,
    j: int,
    g: Gravity,
    eating_force: i64,
)
    ensures
        sweep(planets, i, j, g, eating_force).len() == planets.len(),
        forall|k: int|
            0 <= k < planets.len() ==> (#[trigger] sweep(planets, i, j, g, eating_force)[k]).id
                == planets[k].id && sweep(planets, i, j, g, eating_force)[k].pos
                == planets[k].pos,
        forall|k: int|
            0 <= k < planets.len() && planets[k].dead ==> (#[trigger] sweep(
                planets,
                i,
                j,
                g,
                eating_force,
            )[k]).dead,
    decreases planets.len() - j,
{
    if i < 0 || i >= j || j >= planets.len() || planets[i].dead {
    } else if should_merge(planets[i], planets[j], g, eating_force) {
        let (a, b) = merged(planets[i], planets[j]);
        lemma_sweep_keeps(planets.update(i, a).update(j, b), i, j + 1, g, eating_force);
    } else {
        lemma_sweep_keeps(planets, i, j + 1, g, eating_force);
    }
}

/// Resolving the merges neither adds nor removes a planet, keeps every
/// identity, and revives no planet.
pub proof fn lemma_resolve_keeps(
    planets: Seq<Planet>,
    i: int,
    rest: nat,
    g: Gravity,
    eating_force: i64,
)
    ensures
        resolve_from(planets, i, rest, g, eating_force).len() == planets.len(),
        forall|k: int|
            0 <= k < planets.len() ==> (#[trigger] resolve_from(
                planets,
                i,
                rest,
                g,
                eating_force,
            )[k]).id == planets[k].id && resolve_from(planets, i, rest, g, eating_force)[k].pos
                == planets[k].pos,
        forall|k: int|
            0 <= k < planets.len() && planets[k].dead ==> (#[trigger] resolve_from(
                planets,
                i,
                rest,
                g,
                eating_force,
            )[k]).dead,
    decreases rest,
{
    if rest > 0 {
        lemma_sweep_keeps(planets, i, i + 1, g, eating_force);
        lemma_resolve_keeps(
            sweep(planets, i, i + 1, g, eating_force),
            i + 1,
            (rest - 1) as nat,
            g,
            eating_force,
        );
    }
}

/// The living planets are alive, no more than there were planets, and all
/// of them where none was dead.
pub proof fn lemma_living(planets: Seq<Planet>)
    ensures
        living(planets).len() <= planets.len(),
        forall|i: int| 0 <= i < living(planets).len() ==> !(#[trigger] living(planets)[i]).dead,
        forall|i: int|
            0 <= i < living(planets).len() ==> planets.contains(#[trigger] living(planets)[i]),
        (forall|i: int| 0 <= i < planets.len() ==> !(#[trigger] planets[i]).dead) ==> living(
            planets,
        ) == planets,
    decreases planets.len(),
{
    if planets.len() > 0 {
        let front = planets.drop_last();
        lemma_living(front);
        assert forall|i: int| 0 <= i < living(planets).len() implies planets.contains(
            #[trigger] living(planets)[i],
        ) by {
            if i < living(front).len() {
                let x = living(front)[i];
                assert(front.contains(x));
                let k = choose|k: int| 0 <= k < front.len() && front[k] == x;
                assert(planets[k] == x);
            } else {
                assert(planets[planets.len() - 1] == planets.last());
            }
        }
        if forall|i: int| 0 <= i < planets.len() ==> !(#[trigger] planets[i]).dead {
            assert forall|i: int| 0 <= i < front.len() implies !(#[trigger] front[i]).dead by {
                assert(front[i] == planets[i]);
            }
            assert(!planets[planets.len() - 1].dead);
            assert(front.push(planets.last()) =~= planets);
        }
    }
}

/// Two planets that should merge become one: after the merges exactly one
/// of them is alive, the heavier one (the first where both are equally
/// heavy), with the radius of a sphere that has the mass of both.
pub proof fn lemma_two_planets_merge(a: Planet, b: Planet, g: Gravity, eating_force: i64)
    requires
        should_merge(a, b, g, eating_force),
    ensures
        resolve(seq![a, b], g, eating_force) == seq![merged(a, b).0, merged(a, b).1],
        merged(a, b).0.dead != merged(a, b).1.dead,
        living(resolve(seq![a, b], g, eating_force)).len() == 1,
        a.mass_spec() >= b.mass_spec() ==> living(resolve(seq![a, b], g, eating_force))[0]
            == a.eat_spec(b.mass_spec(), b.density as int),
        a.mass_spec() < b.mass_spec() ==> living(resolve(seq![a, b], g, eating_force))[0]
            == b.eat_spec(a.mass_spec(), a.density as int),
{
    let ps = seq![a, b];
    let (x, y) = merged(a, b);
    let qs = ps.update(0, x).update(1, y);
    assert(qs =~= seq![x, y]);
    assert(sweep(ps, 0, 1, g, eating_force) == sweep(qs, 0, 2, g, eating_force));
    assert(sweep(qs, 0, 2, g, eating_force) == qs);
    assert(sweep(qs, 1, 2, g, eating_force) == qs);
    assert(resolve_from(qs, 2, 0, g, eating_force) == qs);
    assert(resolve_from(qs, 1, 1, g, eating_force) == qs);
    assert(resolve_from(ps, 0, 2, g, eating_force) == qs);
    let one = qs.drop_last();
    assert(one =~= seq![x]);
    assert(one.drop_last() =~= Seq::<Planet>::empty());
    assert(living(one.drop_last()) =~= Seq::<Planet>::empty());
    if x.dead {
        assert(living(one) =~= Seq::<Planet>::empty());
        assert(living(qs) =~= seq![y]);
    } else {
        assert(living(one) =~= seq![x]);
        assert(living(qs) =~= seq![x]);
    }
}

/// A body on a wrapping plane stays on the plane, however far it moves.
pub proof fn lemma_advance_stays(
    position: Point,
    velocity: Point,
    delta: i32,
    width: i32,
    height: i32,
)
    requires
        width > 0,
        height > 0,
    ensures
        0 <= advance_spec(position, velocity, delta, width, height).x < width,
        0 <= advance_spec(position, velocity, delta, width, height).y < height,
{
    vstd::arithmetic::div_mod::lemma_mod_bound(
        position.x + trunc_div(delta * velocity.x, ONE as int),
        width as int,
    );
    vstd::arithmetic::div_mod::lemma_mod_bound(
        position.y + trunc_div(delta * velocity.y, ONE as int),
        height as int,
    );
}

/// Every planet of a universe finds its place in the tree: the plane covers
/// each of them.
pub proof fn lemma_tree_ok(w: World)
    requires
        w.wf(),
    ensures
        w.tree_ok(),
        w.tree().wf(),
        w.tree().exact(),
        w.tree().sorted(),
        w.tree().all_bodies() =~= bodies_of(w.planets).to_multiset(),
{
    broadcast use vstd::multiset::group_multiset_axioms;

    let empty = Tree::empty(w.cfg, w.bounds());
    let bodies = bodies_of(w.planets);
    assert(w.bounds().wf());
    crate::quad::laws::lemma_empty_wf(w.cfg, w.bounds());
    assert(empty.within());
    assert forall|k: int| 0 <= k < bodies.len() implies empty.rect.covers_spec(
        (#[trigger] bodies[k]).center,
    ) by {
        assert(w.at_home(w.planets[k]));
    }
    crate::quad::laws::lemma_insert_all(empty, bodies);
    crate::quad::laws::lemma_insert_all_covered(empty, bodies);
}

/// What settling keeps: the universe stays well formed, no planet appears,
/// and every planet that is left was there before.
pub proof fn lemma_settle(w: World, forced: Seq<Planet>, delta: i32)
    requires
        w.wf(),
        forced.len() == w.planets.len(),
        forall|k: int|
            0 <= k < forced.len() ==> (#[trigger] forced[k]).id == w.planets[k].id && forced[k].pos
                == w.planets[k].pos,
    ensures
        w.settle(forced, delta).wf(),
        w.settle(forced, delta).planets.len() <= w.planets.len(),
        forall|i: int|
            0 <= i < w.settle(forced, delta).planets.len() ==> exists|k: int|
                0 <= k < w.planets.len() && w.planets[k].id == (#[trigger] w.settle(
                    forced,
                    delta,
                ).planets[i]).id,
{
    let moved = w.after_motion(forced, delta);
    let merged = w.after_merges(forced);
    let left = w.settle(forced, delta).planets;
    lemma_resolve_keeps(forced, 0, forced.len(), w.cfg.gravity, w.eating_force);
    lemma_living(moved);
    assert forall|i: int| 0 <= i < left.len() implies (exists|k: int|
        0 <= k < w.planets.len() && w.planets[k].id == (#[trigger] left[i]).id)
        && w.settle(forced, delta).at_home(left[i]) by {
        let p = left[i];
        assert(moved.contains(p));
        let k = choose|k: int| 0 <= k < moved.len() && moved[k] == p;
        assert(p == w.moved(merged[k], delta));
        assert(merged[k].id == forced[k].id && merged[k].pos == forced[k].pos);
        assert(w.planets[k].id == p.id);
        assert(w.at_home(w.planets[k]));
        lemma_advance_stays(
            merged[k].pos,
            merged[k].velocity,
            delta,
            w.dimensions.0,
            w.dimensions.1,
        );
    }
}

/// What a tick keeps: the universe stays well formed, so that every planet
/// is alive and on the plane, no planet appears, and every planet that is
/// left was there before. The same holds of a tick without the tree.
pub proof fn lemma_tick(w: World, delta: i32)
    requires
        w.wf(),
    ensures
        w.tick(delta).wf(),
        w.tick(delta).planets.len() <= w.planets.len(),
        forall|i: int|
            0 <= i < w.tick(delta).planets.len() ==> exists|k: int|
                0 <= k < w.planets.len() && w.planets[k].id == (#[trigger] w.tick(
                    delta,
                ).planets[i]).id,
        w.tick_brute(delta).wf(),
        w.tick_brute(delta).planets.len() <= w.planets.len(),
        forall|i: int|
            0 <= i < w.tick_brute(delta).planets.len() ==> exists|k: int|
                0 <= k < w.planets.len() && w.planets[k].id == (#[trigger] w.tick_brute(
                    delta,
                ).planets[i]).id,
{
    lemma_settle(w, w.after_forces(delta), delta);
    lemma_settle(w, w.after_direct_forces(delta), delta);
}

/// Under a threshold of zero the tree approximates nothing: a tick gives
/// what a tick without the tree gives.
pub proof fn lemma_tick_matches_brute(w: World, delta: i32)
    requires
        w.wf(),
        w.cfg.theta == 0,
    ensures
        w.tick(delta) == w.tick_brute(delta),
{
    let bodies = bodies_of(w.planets);
    assert(w.bounds().wf());
    lemma_tree_ok(w);
    assert forall|i: int| 0 <= i < w.planets.len() implies w.tree().pull(
        w.planets[i].as_body(),
        delta,
    ) == seq_pull(bodies, w.planets[i].as_body(), w.cfg.gravity, delta) by {
        crate::quad::laws::lemma_tree_matches_direct_sum(
            w.cfg,
            w.bounds(),
            bodies,
            w.planets[i].as_body(),
            delta,
        );
    }
    assert(w.after_forces(delta) =~= w.after_direct_forces(delta));
}

/// Two touching planets become one at a tick: of a universe of two planets
/// that should merge, a tick leaves exactly one, alive, the heavier one (the
/// first where both are equally heavy), with the radius of a sphere that has
/// the mass of both at the mean of their densities. The same holds of a tick
/// without the tree.
pub proof fn lemma_tick_merges_two(w: World, delta: i32)
    requires
        w.wf(),
        w.planets.len() == 2,
        should_merge(w.planets[0], w.planets[1], w.cfg.gravity, w.eating_force),
    ensures
        w.tick(delta).planets.len() == 1,
        !w.tick(delta).planets[0].dead,
        w.tick(delta).planets[0].id == w.survivor().id,
        w.tick(delta).planets[0].density == w.survivor().density,
        w.tick(delta).planets[0].radius == w.survivor().radius,
        w.tick_brute(delta).planets.len() == 1,
        !w.tick_brute(delta).planets[0].dead,
        w.tick_brute(delta).planets[0].id == w.survivor().id,
        w.tick_brute(delta).planets[0].density == w.survivor().density,
        w.tick_brute(delta).planets[0].radius == w.survivor().radius,
{
    lemma_settle_merges_two(w, w.after_forces(delta), delta);
    lemma_settle_merges_two(w, w.after_direct_forces(delta), delta);
}

/// What `lemma_tick_merges_two` states, of the planets after they have
/// taken their pull.
pub proof fn lemma_settle_merges_two(w: World, forced: Seq<Planet>, delta: i32)
    requires
        w.planets.len() == 2,
        should_merge(w.planets[0], w.planets[1], w.cfg.gravity, w.eating_force),
        forced.len() == 2,
        forall|k: int|
            0 <= k < 2 ==> (#[trigger] forced[k]) == (Planet {
                velocity: forced[k].velocity,
                ..w.planets[k]
            }),
    ensures
        w.settle(forced, delta).planets.len() == 1,
        !w.settle(forced, delta).planets[0].dead,
        w.settle(forced, delta).planets[0].id == w.survivor().id,
        w.settle(forced, delta).planets[0].density == w.survivor().density,
        w.settle(forced, delta).planets[0].radius == w.survivor().radius,
{
    let a = forced[0];
    let b = forced[1];
    assert(a == (Planet { velocity: a.velocity, ..w.planets[0] }));
    assert(b == (Planet { velocity: b.velocity, ..w.planets[1] }));
    assert(forced =~= seq![a, b]);
    assert(should_merge(a, b, w.cfg.gravity, w.eating_force));
    lemma_two_planets_merge(a, b, w.cfg.gravity, w.eating_force);
    let (x, y) = merged(a, b);
    let moved = w.after_motion(forced, delta);
    assert(moved =~= seq![w.moved(x, delta), w.moved(y, delta)]);
    let one = moved.drop_last();
    assert(one =~= seq![w.moved(x, delta)]);
    assert(one.drop_last() =~= Seq::<Planet>::empty());
    assert(living(one.drop_last()) =~= Seq::<Planet>::empty());
    if x.dead {
        assert(living(one) =~= Seq::<Planet>::empty());
        assert(living(moved) =~= seq![w.moved(y, delta)]);
    } else {
        assert(living(one) =~= seq![w.moved(x, delta)]);
        assert(living(moved) =~= seq![w.moved(x, delta)]);
    }
}

/// Two touching planets of one density keep their mass at a tick, as far as
/// a radius in whole steps can hold it: the one planet that is left is no
/// heavier than the two were together, and with a radius one step longer it
/// would be heavier, but for what rounding down takes away.
pub proof fn lemma_tick_keeps_mass_of_two(w: World, delta: i32)
    requires
        w.wf(),
        w.planets.len() == 2,
        should_merge(w.planets[0], w.planets[1], w.cfg.gravity, w.eating_force),
        w.planets[0].density == w.planets[1].density,
        w.planets[0].density > 0,
    ensures
        w.tick(delta).planets.len() == 1,
        w.tick(delta).planets[0].mass_spec() <= w.planets[0].mass_spec()
            + w.planets[1].mass_spec(),
        w.planets[0].mass_spec() + w.planets[1].mass_spec() <= raw_mass(
            w.tick(delta).planets[0].density as int,
            w.tick(delta).planets[0].radius + 1,
        ) + (w.planets[0].density as int) / (ONE as int) + 1,
{
    lemma_tick_merges_two(w, delta);
    lemma_eat_keeps_mass(w.planets[0], w.planets[1]);
    lemma_eat_keeps_mass(w.planets[1], w.planets[0]);
}

} // verus!
