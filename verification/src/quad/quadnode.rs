use vstd::prelude::*;
use crate::geo::point::ONE;
use crate::geo::point::Point;
use crate::geo::rect::Cardinal;
use crate::geo::rect::Rect;
use crate::geo::rect::lemma_split_edges;
use crate::num::clamp_i32;
use crate::num::div_trunc;
use crate::num::saturate;
use crate::quad::body::Body;
use crate::quad::body::Newtonian;
use crate::quad::gravity::Force;
use crate::quad::gravity::Gravity;
use crate::quad::gravity::advance;
use crate::quad::gravity::advance_spec;
use crate::quad::gravity::force_spec;
use crate::quad::gravity::kick;
use crate::quad::gravity::kick_delta;
use crate::quad::gravity::pair_force;
use crate::quad::gravity::pull_limit;
use crate::quad::gravity::sum_pulls;
use crate::quad::gravity::velocity_spec;
use crate::quad::laws::lemma_aggregate_wf;
use crate::quad::laws::lemma_average_fits;
use crate::quad::laws::lemma_empty_wf;
use crate::quad::laws::lemma_insert_covered;
use crate::quad::laws::lemma_insert_keeps;
use crate::quad::laws::lemma_insert_sorted;
use crate::quad::laws::lemma_insert_wf;
use crate::quad::laws::lemma_place_wf;
use crate::quad::laws::lemma_singleton;
use crate::quad::laws::lemma_subdivide_wf;
use crate::quad::tree::Kids;
use crate::quad::tree::QuadConfig;
use crate::quad::tree::Tree;
use crate::quad::tree::extent;

verus! {

/// What went wrong when a body was inserted into a tree.
#[derive(Copy, Clone, Debug, PartialEq, Eq, Structural)]
pub enum InsertError {
    /// A body that had to be handed on to the quadrants of a node was
    /// covered by none of them: it lay outside the node's region.
    NoQuadrant,
}

/// The four quadrants of an internal node.
pub struct Quadrants {
    nw: QuadNode,
    ne: QuadNode,
    se: QuadNode,
    sw: QuadNode,
}

/// Used to construct a quad tree. Either holds a vector of bodies up until
/// its capacity or aggregates the mass and center of mass of all the bodies
/// that may be held by nodes further down the tree.
///
/// Any struct implementing [`Newtonian`] may be inserted into the tree. When
/// passed to [`sum_up_force`](QuadNode::sum_up_force), gravitational forces
/// of all the bodies in the tree will be applied.
///
/// The [`QuadConfig`]'s `theta` value sets the threshold at which a node's
/// aggregated values will be applied instead of an individual body's ones.
pub struct QuadNode {
    /// Config shared across nodes.
    cfg: QuadConfig,
    /// The center of mass of the node, aggregated across all contained bodies.
    com: Point,
    /// All the bodies currently held by the node. Empty if node is internal.
    bodies: Vec<Body>,
    /// How many bodies were inserted into the node.
    count: u32,
    /// Aggregated mass of all contained bodies.
    mass: u64,
    /// Aggregated positions of all contained bodies, weighted by their mass.
    moment: (i128, i128),
    /// The four sub-nodes, splitting this node into its quadrants. `None` if
    /// node is external.
    nodes: Option<Box<Quadrants>>,
    /// A [`Rect`] representing the Cartesian plane this node covers.
    rect: Rect,
}

impl Quadrants {
    /// The four quadrants as trees.
    closed spec fn model(&self) -> Kids
        decreases self,
    {
        Kids { nw: self.nw.model(), ne: self.ne.model(), se: self.se.model(), sw: self.sw.model() }
    }
}

impl View for QuadNode {
    type V = Tree;

    closed spec fn view(&self) -> Tree {
        self.model()
    }
}

impl QuadNode {
    /// The node and everything below it as a tree.
    closed spec fn model(&self) -> Tree
        decreases self,
    {
        Tree {
            cfg: self.cfg,
            rect: self.rect,
            count: self.count as nat,
            mass: self.mass as nat,
            moment: (self.moment.0 as int, self.moment.1 as int),
            com: self.com,
            bodies: self.bodies@,
            kids: match self.nodes {
                None => None,
                Some(q) => Some(Box::new(q.model())),
            },
        }
    }
}

impl QuadNode {
    /// An empty tree over `rect`.
    pub fn new(cfg: QuadConfig, rect: Rect) -> (node: Self)
        ensures
            node@ == Tree::empty(cfg, rect),
            cfg.wf() && rect.wf() ==> node@.wf() && node@.exact() && node@.sorted()
                && node@.within(),
    {
        proof {
            if cfg.wf() && rect.wf() {
                lemma_empty_wf(cfg, rect);
            }
        }
        let com = rect.center();
        Self { cfg, com, rect, bodies: Vec::new(), count: 0, mass: 0, moment: (0, 0), nodes: None }
    }

    /// The region that the node covers.
    pub fn rect(&self) -> (rect: Rect)
        ensures
            rect == self@.rect,
    {
        self.rect
    }

    /// The center of mass of all the bodies that were inserted, or the
    /// center of the region where they have no mass.
    pub fn com(&self) -> (com: Point)
        ensures
            com == self@.com,
    {
        self.com
    }

    /// The aggregated mass of all the bodies that were inserted; `None`
    /// before the first.
    pub fn mass(&self) -> (mass: Option<u64>)
        ensures
            mass == (if self@.count == 0 {
                None
            } else {
                Some(self@.mass as u64)
            }),
    {
        if self.count == 0 {
            None
        } else {
            Some(self.mass)
        }
    }

    /// How many bodies were inserted.
    pub fn count(&self) -> (count: u32)
        ensures
            count == self@.count,
    {
        self.count
    }

    /// The bodies that the node holds itself.
    pub fn bodies(&self) -> (bodies: &Vec<Body>)
        ensures
            bodies@ == self@.bodies,
    {
        &self.bodies
    }

    /// Whether the node has split into quadrants.
    pub fn is_internal(&self) -> (b: bool)
        ensures
            b == self@.internal(),
    {
        self.nodes.is_some()
    }

    /// The quadrant in the given direction, if the node has split.
    pub fn quadrant(&self, c: Cardinal) -> (node: Option<&QuadNode>)
        ensures
            match node {
                Some(n) => self@.kids is Some && n@ == self@.kids.unwrap().get(c),
                None => self@.kids is None,
            },
    {
        match &self.nodes {
            None => None,
            Some(q) => Some(
                match c {
                    Cardinal::NW => &q.nw,
                    Cardinal::NE => &q.ne,
                    Cardinal::SE => &q.se,
                    Cardinal::SW => &q.sw,
                },
            ),
        }
    }

    fn subdivide(&mut self)
        requires
            old(self)@.wf(),
            old(self)@.kids is None,
            old(self)@.rect.splittable(),
        ensures
            final(self)@ == (Tree { bodies: old(self)@.bodies, ..old(self)@.subdivide() }),
    {
        self.nodes = Some(
            Box::new(
                Quadrants {
                    nw: Self::new(self.cfg, self.rect.split_rect(Cardinal::NW)),
                    ne: Self::new(self.cfg, self.rect.split_rect(Cardinal::NE)),
                    se: Self::new(self.cfg, self.rect.split_rect(Cardinal::SE)),
                    sw: Self::new(self.cfg, self.rect.split_rect(Cardinal::SW)),
                },
            ),
        );
    }

    fn aggregate(&mut self, body: &Body)
        requires
            old(self)@.wf(),
            old(self)@.count < u32::MAX,
        ensures
            final(self)@ == old(self)@.aggregate(*body),
            final(self)@.wf(),
    {
        proof {
            lemma_aggregate_wf(self@, *body);
        }
        let m: i128 = body.mass as i128;
        let x: i128 = body.center.x as i128;
        let y: i128 = body.center.y as i128;
        assert(-0x8000_0000_0000_0000 <= m * x <= 0x8000_0000_0000_0000 && -0x8000_0000_0000_0000
            <= m * y <= 0x8000_0000_0000_0000) by (nonlinear_arith)
            requires
                0 <= m <= 0xffff_ffff,
                -0x8000_0000 <= x <= 0x7fff_ffff,
                -0x8000_0000 <= y <= 0x7fff_ffff,
        ;
        let ghost t = self@;
        assert(t.mass <= 0xffff_ffff * 0xffff_ffff) by (nonlinear_arith)
            requires
                t.mass <= t.count * 0xffff_ffff,
                t.count <= 0xffff_ffff,
        ;
        assert(-0x8000_0000 * 0xffff_ffff * 0xffff_ffff <= t.moment.0 <= 0x7fff_ffff * 0xffff_ffff
            * 0xffff_ffff && -0x8000_0000 * 0xffff_ffff * 0xffff_ffff <= t.moment.1 <= 0x7fff_ffff
            * 0xffff_ffff * 0xffff_ffff) by (nonlinear_arith)
            requires
                t.mass <= 0xffff_ffff * 0xffff_ffff,
                i32::MIN * t.mass <= t.moment.0 <= i32::MAX * t.mass,
                i32::MIN * t.mass <= t.moment.1 <= i32::MAX * t.mass,
        ;
        self.count = self.count + 1;
        self.mass = self.mass + body.mass as u64;
        self.moment = (self.moment.0 + m * x, self.moment.1 + m * y);
        if self.mass == 0 {
            self.com = self.rect.center();
        } else {
            proof {
                let a = t.aggregate(*body);
                lemma_average_fits(a.moment.0, a.mass as int);
                lemma_average_fits(a.moment.1, a.mass as int);
            }
            self.com = Point {
                x: div_trunc(self.moment.0, self.mass as i128) as i32,
                y: div_trunc(self.moment.1, self.mass as i128) as i32,
            };
        }
    }

    /// Insert a [`Newtonian`] body into the tree.
    ///
    /// The tree becomes what [`Tree::insert`] makes of it. The call fails
    /// exactly when a body that had to be handed on to the quadrants of a
    /// node, the new one or one held before, was covered by none of them.
    pub fn insert<B: Newtonian>(&mut self, body: &B) -> (res: Result<(), InsertError>)
        requires
            old(self)@.wf(),
            old(self)@.count < u32::MAX,
        ensures
            final(self)@ == old(self)@.insert(body.as_body()).0,
            res is Ok <==> old(self)@.insert(body.as_body()).1,
            final(self)@.wf(),
            final(self)@.rect == old(self)@.rect,
            final(self)@.cfg == old(self)@.cfg,
            final(self)@.count == old(self)@.count + 1,
            final(self)@.mass == old(self)@.mass + body.as_body().mass,
            final(self)@.moment == old(self)@.aggregate(body.as_body()).moment,
            final(self)@.com == old(self)@.aggregate(body.as_body()).com,
            old(self)@.takes() ==> res is Ok && final(self)@.bodies == old(self)@.bodies.push(
                body.as_body(),
            ),
            old(self)@.sorted() && old(self)@.within() && old(self)@.rect.covers_spec(
                body.as_body().center,
            ) ==> res is Ok && final(self)@.within(),
            res is Ok ==> final(self)@.all_bodies() =~= old(self)@.all_bodies().insert(
                body.as_body(),
            ),
            res is Ok && old(self)@.exact() ==> final(self)@.exact(),
            final(self)@.all_bodies().subset_of(old(self)@.all_bodies().insert(body.as_body())),
            old(self)@.sorted() ==> final(self)@.sorted(),
    {
        proof {
            lemma_insert_wf(self@, body.as_body());
            lemma_insert_keeps(self@, body.as_body());
            lemma_singleton(body.as_body());
            if self@.sorted() {
                lemma_insert_sorted(self@, body.as_body());
                if self@.within() && self@.rect.covers_spec(body.as_body().center) {
                    lemma_insert_covered(self@, body.as_body());
                }
            }
        }
        let b = Body {
            id: body.id(),
            center: body.position(),
            mass: body.mass(),
            velocity: body.velocity(),
        };
        self.insert_body(b)
    }

    fn insert_body(&mut self, b: Body) -> (res: Result<(), InsertError>)
        requires
            old(self)@.wf(),
            old(self)@.count < u32::MAX,
        ensures
            final(self)@ == old(self)@.insert(b).0,
            res is Ok <==> old(self)@.insert(b).1,
            final(self)@.wf(),
        decreases extent(old(self)@.rect), 1nat,
    {
        proof {
            lemma_insert_wf(self@, b);
        }
        let ghost start = self@;
        let ghost bound = extent(self@.rect);
        self.aggregate(&b);
        let ghost a = self@;
        if self.nodes.is_none() && (self.bodies.len() < self.cfg.capacity || !(self.rect.width
            >= 2 && self.rect.height >= 2)) {
            self.bodies.push(b);
            return Ok(());
        }
        if self.nodes.is_none() {
            proof {
                lemma_subdivide_wf(a);
            }
            self.subdivide();
        }
        let mut pending: Vec<Body> = Vec::new();
        pending.push(b);
        pending.append(&mut self.bodies);
        let ghost goal = start.insert(b);
        proof {
            assert(self@.bodies =~= Seq::<Body>::empty());
            if a.kids is None {
                assert(pending@ =~= seq![b] + a.bodies);
                assert(self@ == a.subdivide());
            } else {
                assert(a.bodies =~= Seq::<Body>::empty());
                assert(pending@ =~= seq![b]);
                assert(self@ == a);
            }
            assert(pending@.skip(0) =~= pending@);
        }
        let mut ok = true;
        let mut i: usize = 0;
        while i < pending.len()
            invariant
                0 <= i <= pending.len(),
                self@.wf(),
                self@.kids is Some,
                self@.kids.unwrap().count() + (pending.len() - i) <= self@.count,
                bound == extent(self@.rect),
                bound == extent(old(self)@.rect),
                self@.distribute(pending@.skip(i as int), bound).0 == goal.0,
                (ok && self@.distribute(pending@.skip(i as int), bound).1) == goal.1,
            decreases pending.len() - i,
        {
            let ghost rest = pending@.skip(i as int);
            assert(rest.first() == pending@[i as int]);
            assert(rest.drop_first() =~= pending@.skip(i + 1));
            proof {
                lemma_place_wf(self@, pending@[i as int], bound);
            }
            let placed = self.place(pending[i]);
            ok = ok && placed;
            i += 1;
        }
        assert(pending@.skip(i as int) =~= Seq::<Body>::empty());
        if ok {
            Ok(())
        } else {
            Err(InsertError::NoQuadrant)
        }
    }

    /// Hands `b` on to the quadrant that covers it.
    fn place(&mut self, b: Body) -> (placed: bool)
        requires
            old(self)@.wf(),
            old(self)@.kids is Some,
            old(self)@.kids.unwrap().count() < old(self)@.count,
        ensures
            final(self)@ == old(self)@.place(b, extent(old(self)@.rect)).0,
            placed == old(self)@.place(b, extent(old(self)@.rect)).1,
        decreases extent(old(self)@.rect), 0nat,
    {
        let ghost t = self@;
        let ghost kids = t.kids.unwrap();
        proof {
            lemma_split_edges(t.rect, Cardinal::NW);
            lemma_split_edges(t.rect, Cardinal::NE);
            lemma_split_edges(t.rect, Cardinal::SE);
            lemma_split_edges(t.rect, Cardinal::SW);
        }
        let mut q = self.nodes.take().unwrap();
        let placed = if q.nw.rect.covers(&b.center) {
            let r = q.nw.insert_body(b);
            assert(q.model() == kids.set(Cardinal::NW, kids.nw.insert(b).0));
            r.is_ok()
        } else if q.ne.rect.covers(&b.center) {
            let r = q.ne.insert_body(b);
            assert(q.model() == kids.set(Cardinal::NE, kids.ne.insert(b).0));
            r.is_ok()
        } else if q.se.rect.covers(&b.center) {
            let r = q.se.insert_body(b);
            assert(q.model() == kids.set(Cardinal::SE, kids.se.insert(b).0));
            r.is_ok()
        } else if q.sw.rect.covers(&b.center) {
            let r = q.sw.insert_body(b);
            assert(q.model() == kids.set(Cardinal::SW, kids.sw.insert(b).0));
            r.is_ok()
        } else {
            assert(q.model() == kids);
            false
        };
        self.nodes = Some(q);
        placed
    }

    /// Whether the node is far enough from `p` to stand for its bodies.
    fn far_from(&self, p: &Point) -> (far: bool)
        requires
            self@.wf(),
        ensures
            far == self@.far_from(*p),
    {
        let dx: i128 = p.x as i128 - self.com.x as i128;
        let dy: i128 = p.y as i128 - self.com.y as i128;
        assert(0 <= dx * dx <= 0x1_0000_0000_0000_0000 && 0 <= dy * dy <= 0x1_0000_0000_0000_0000)
            by (nonlinear_arith)
            requires
                -0x1_0000_0000 <= dx <= 0x1_0000_0000,
                -0x1_0000_0000 <= dy <= 0x1_0000_0000,
        ;
        let d2: u128 = (dx * dx + dy * dy) as u128;
        if d2 == 0 {
            return false;
        }
        let s: u128 = (self.rect.width as i64 + self.rect.height as i64) as u128;
        let one: u128 = ONE as u128;
        let theta: u128 = self.cfg.theta as u128;
        assert(s * s <= 0x1_0000_0000_0000_0000 && s * s * (one * one)
            <= 0x1_0000_0000_0000_0000 * 1_000_000 && theta * theta <= 0x4000_0000_0000_0000)
            by (nonlinear_arith)
            requires
                0 <= s <= 0x1_0000_0000,
                one == 1000,
                0 <= theta <= 0x8000_0000,
        ;
        let lhs: u128 = s * s * (one * one);
        let t: u128 = 4 * (theta * theta);
        match t.checked_mul(d2) {
            Some(rhs) => lhs < rhs,
            None => true,
        }
    }

    /// The change of velocity that the bodies of the tree cause on `target`
    /// over the time `delta`, before it is saturated.
    pub fn pull(&self, target: &Body, delta: i32) -> (d: (i128, i128))
        requires
            self@.wf(),
        ensures
            (d.0 as int, d.1 as int) == self@.pull(*target, delta),
            -(pull_limit() * self@.count) <= d.0 <= pull_limit() * self@.count,
            -(pull_limit() * self@.count) <= d.1 <= pull_limit() * self@.count,
        decreases self,
    {
        let ghost lim = pull_limit();
        let ghost n = self@.count as int;
        proof {
            assert(0 <= lim * n <= 0x4000_0000_0000_0000_0000_0000 * 0xffff_ffff)
                by (nonlinear_arith)
                requires
                    0 <= n <= 0xffff_ffff,
                    lim == 0x4000_0000_0000_0000_0000_0000,
            ;
        }
        match &self.nodes {
            Some(q) => {
                if self.far_from(&target.center) {
                    let mass: u32 = if self.mass > 0xffff_ffff {
                        u32::MAX
                    } else {
                        self.mass as u32
                    };
                    let proxy = Body::new(0, self.com, mass);
                    let f = pair_force(target, &proxy, self.cfg.gravity);
                    let d = kick_delta(target, f, delta);
                    proof {
                        assert(lim * 1 <= lim * n) by (nonlinear_arith)
                            requires
                                1 <= n,
                                lim >= 0,
                        ;
                    }
                    d
                } else {
                    let ghost k = self@.kids.unwrap();
                    proof {
                        let a = k.nw.count as int;
                        let b = k.ne.count as int;
                        let c = k.se.count as int;
                        let e = k.sw.count as int;
                        assert(lim * a + lim * b + lim * c + lim * e <= lim * n && lim * a >= 0
                            && lim * b >= 0 && lim * c >= 0 && lim * e >= 0) by (nonlinear_arith)
                            requires
                                a + b + c + e <= n,
                                a >= 0,
                                b >= 0,
                                c >= 0,
                                e >= 0,
                                lim >= 0,
                        ;
                    }
                    let nw = q.nw.pull(target, delta);
                    let ne = q.ne.pull(target, delta);
                    let se = q.se.pull(target, delta);
                    let sw = q.sw.pull(target, delta);
                    (nw.0 + ne.0 + se.0 + sw.0, nw.1 + ne.1 + se.1 + sw.1)
                }
            },
            None => {
                let d = sum_pulls(&self.bodies, target, self.cfg.gravity, delta);
                proof {
                    let len = self.bodies.len() as int;
                    assert(lim * len <= lim * n) by (nonlinear_arith)
                        requires
                            len <= n,
                            lim >= 0,
                    ;
                }
                d
            },
        }
    }

    /// How many internal nodes the traversal for a target at `p` opens up,
    /// rather than taking them as one body. The count saturates.
    pub fn opened(&self, p: &Point) -> (n: u64)
        requires
            self@.wf(),
        ensures
            n == self@.opened_count(*p),
        decreases self,
    {
        match &self.nodes {
            Some(q) => {
                if self.far_from(p) {
                    0
                } else {
                    let nw = q.nw.opened(p);
                    let ne = q.ne.opened(p);
                    let se = q.se.opened(p);
                    let sw = q.sw.opened(p);
                    nw.saturating_add(ne).saturating_add(se).saturating_add(sw).saturating_add(1)
                }
            },
            None => 0,
        }
    }

    /// Sum up the net change of velocity that the gravitation of all the
    /// bodies in the tree causes on `target_body` over the time `delta`,
    /// starting from `net_v`. The result saturates at the limits of a
    /// co-ordinate.
    pub fn sum_up_force<B: Newtonian>(&self, target_body: &B, delta: i32, net_v: Point) -> (v:
        Point)
        requires
            self@.wf(),
        ensures
            v.x == saturate(net_v.x + self@.pull(target_body.as_body(), delta).0),
            v.y == saturate(net_v.y + self@.pull(target_body.as_body(), delta).1),
    {
        let target = Body {
            id: target_body.id(),
            center: target_body.position(),
            mass: target_body.mass(),
            velocity: target_body.velocity(),
        };
        let d = self.pull(&target, delta);
        proof {
            let lim = pull_limit();
            let n = self@.count as int;
            assert(0 <= lim * n <= 0x4000_0000_0000_0000_0000_0000 * 0xffff_ffff)
                by (nonlinear_arith)
                requires
                    0 <= n <= 0xffff_ffff,
                    lim == 0x4000_0000_0000_0000_0000_0000,
            ;
        }
        Point { x: clamp_i32(net_v.x as i128 + d.0), y: clamp_i32(net_v.y as i128 + d.1) }
    }

    /// Update a [`Newtonian`] body with the net gravitational force being
    /// exerted on it by calling `set_velocity` and `set_position` with the
    /// updated values: the velocity takes the pull of the tree, and the body
    /// then moves with it for the time `delta` on a plane of the width and
    /// the height of the root, which wraps around at its edges.
    pub fn update_body<B: Newtonian>(&self, target_body: &mut B, delta: i32)
        requires
            self@.wf(),
        ensures
            final(target_body).rest() == old(target_body).rest(),
            final(target_body).as_body().id == old(target_body).as_body().id,
            final(target_body).as_body().mass == old(target_body).as_body().mass,
            final(target_body).as_body().velocity.x == saturate(
                old(target_body).as_body().velocity.x + self@.pull(
                    old(target_body).as_body(),
                    delta,
                ).0,
            ),
            final(target_body).as_body().velocity.y == saturate(
                old(target_body).as_body().velocity.y + self@.pull(
                    old(target_body).as_body(),
                    delta,
                ).1,
            ),
            final(target_body).as_body().center == advance_spec(
                old(target_body).as_body().center,
                final(target_body).as_body().velocity,
                delta,
                self@.rect.width,
                self@.rect.height,
            ),
    {
        let net_v = self.sum_up_force(&*target_body, delta, target_body.velocity());
        target_body.set_velocity(net_v);
        let moved = advance(
            target_body.position(),
            net_v,
            delta,
            self.rect.width,
            self.rect.height,
        );
        target_body.set_position(moved);
    }

    /// Compute the force that `b` exerts on `a`.
    pub fn calc_force<A: Newtonian, B: Newtonian>(a: &A, b: &B, g: Gravity) -> (f: Force)
        ensures
            f == force_spec(a.as_body(), b.as_body(), g),
    {
        let a = Body { id: a.id(), center: a.position(), mass: a.mass(), velocity: a.velocity() };
        let b = Body { id: b.id(), center: b.position(), mass: b.mass(), velocity: b.velocity() };
        pair_force(&a, &b, g)
    }

    /// Compute the velocity of `a` after the force `f` has acted on it for
    /// the time `delta`.
    pub fn calc_velocity<A: Newtonian>(a: &A, f: Force, delta: i32) -> (v: Point)
        ensures
            v == velocity_spec(a.as_body(), f, delta),
    {
        let a = Body { id: a.id(), center: a.position(), mass: a.mass(), velocity: a.velocity() };
        kick(&a, f, delta)
    }
}

} // verus!
