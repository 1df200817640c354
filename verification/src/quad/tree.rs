//! The mathematical model of a quad tree: what a
//! [`QuadNode`](crate::quad::QuadNode) is, and what inserting a body makes
//! of it.
use vstd::prelude::*;
use vstd::multiset::Multiset;
use crate::geo::point::ONE;
use crate::geo::point::Point;
use crate::geo::rect::Cardinal;
use crate::geo::rect::Rect;
use crate::num::trunc_div;
use crate::quad::body::Body;
use crate::quad::gravity::Gravity;
use crate::quad::gravity::pull_spec;
use crate::quad::gravity::seq_pull;

verus! {

/// Shared config that applies to all nodes in the tree.
#[derive(Copy, Clone, Debug, PartialEq, Eq, Structural)]
pub struct QuadConfig {
    /// How many bodies a node holds before it splits into quadrants.
    pub capacity: usize,
    /// The fixed-point threshold below which the ratio of a node's size to
    /// its distance lets the node stand for all the bodies inside it.
    pub theta: i32,
    /// The gravitational constant.
    pub gravity: Gravity,
}

impl QuadConfig {
    /// A config is usable when a node can hold a body, the threshold is not
    /// negative and the gravitational constant is a fraction. With a
    /// threshold of zero no node ever stands for the bodies inside it.
    pub open spec fn wf(self) -> bool {
        &&& self.capacity >= 1
        &&& self.theta >= 0
        &&& self.gravity.den > 0
    }
}

impl QuadConfig {
    /// Whether the config is usable.
    pub fn is_wf(&self) -> (b: bool)
        ensures
            b == self.wf(),
    {
        self.capacity >= 1 && self.theta >= 0 && self.gravity.den > 0
    }
}

/// The four quadrants of an internal node.
pub ghost struct Kids {
    pub nw: Tree,
    pub ne: Tree,
    pub se: Tree,
    pub sw: Tree,
}

/// A node of a quad tree, with everything below it.
pub ghost struct Tree {
    pub cfg: QuadConfig,
    pub rect: Rect,
    /// How many bodies were ever inserted into this node.
    pub count: nat,
    /// The sum of their masses.
    pub mass: nat,
    /// The sum of their positions, each weighted by the body's mass.
    pub moment: (int, int),
    /// The center of mass.
    pub com: Point,
    /// The bodies that the node holds itself. Empty if the node is internal.
    pub bodies: Seq<Body>,
    /// The quadrants. `None` if the node is external.
    pub kids: Option<Box<Kids>>,
}

/// The sum of the masses of `bodies`.
pub open spec fn seq_mass(bodies: Seq<Body>) -> nat
    decreases bodies.len(),
{
    if bodies.len() == 0 {
        0
    } else {
        seq_mass(bodies.drop_last()) + bodies.last().mass as nat
    }
}

/// The sum of the positions of `bodies`, each weighted by the body's mass.
pub open spec fn seq_moment(bodies: Seq<Body>) -> (int, int)
    decreases bodies.len(),
{
    if bodies.len() == 0 {
        (0, 0)
    } else {
        let rest = seq_moment(bodies.drop_last());
        let b = bodies.last();
        (rest.0 + b.mass * b.center.x, rest.1 + b.mass * b.center.y)
    }
}

/// The mass-weighted average of positions whose weighted sum is `moment` and
/// whose masses add up to `mass`; where there is no mass, `origin`.
pub open spec fn center_of_mass(mass: nat, moment: (int, int), origin: Point) -> Point {
    if mass == 0 {
        origin
    } else {
        Point {
            x: trunc_div(moment.0, mass as int) as i32,
            y: trunc_div(moment.1, mass as int) as i32,
        }
    }
}

/// The extent of a rectangle, by which the depth of a tree is bounded.
pub open spec fn extent(rect: Rect) -> nat {
    if rect.width > 0 && rect.height > 0 {
        (rect.width + rect.height) as nat
    } else {
        0
    }
}

impl Kids {
    /// The quadrant in the given direction.
    pub open spec fn get(self, c: Cardinal) -> Tree {
        match c {
            Cardinal::NW => self.nw,
            Cardinal::NE => self.ne,
            Cardinal::SE => self.se,
            Cardinal::SW => self.sw,
        }
    }

    /// These quadrants with the one in the given direction replaced.
    pub open spec fn set(self, c: Cardinal, t: Tree) -> Kids {
        match c {
            Cardinal::NW => Kids { nw: t, ..self },
            Cardinal::NE => Kids { ne: t, ..self },
            Cardinal::SE => Kids { se: t, ..self },
            Cardinal::SW => Kids { sw: t, ..self },
        }
    }

    /// How many bodies were ever inserted into the four quadrants.
    pub open spec fn count(self) -> nat {
        self.nw.count + self.ne.count + self.se.count + self.sw.count
    }
}

impl Tree {
    /// The empty tree over `rect`.
    pub open spec fn empty(cfg: QuadConfig, rect: Rect) -> Tree {
        Tree {
            cfg,
            rect,
            count: 0,
            mass: 0,
            moment: (0, 0),
            com: Point { x: rect.x, y: rect.y },
            bodies: Seq::empty(),
            kids: None,
        }
    }

    /// Whether the node has split into quadrants.
    pub open spec fn internal(self) -> bool {
        self.kids is Some
    }

    /// The invariant of a tree: a node either holds up to `capacity` bodies
    /// or has split into its four quadrants and holds none; the aggregates
    /// are within the bounds that the number of inserted bodies sets, and the
    /// center of mass is their average. Only a node whose region is too
    /// small to be split holds more than `capacity` bodies.
    pub open spec fn wf(self) -> bool
        decreases self,
    {
        &&& self.cfg.wf()
        &&& self.rect.wf()
        &&& self.count <= u32::MAX
        &&& self.mass <= self.count * u32::MAX
        &&& i32::MIN * self.mass <= self.moment.0 <= i32::MAX * self.mass
        &&& i32::MIN * self.mass <= self.moment.1 <= i32::MAX * self.mass
        &&& self.com == center_of_mass(self.mass, self.moment, self.rect.center_spec())
        &&& match self.kids {
            None => {
                &&& self.bodies.len() <= self.cfg.capacity || !self.rect.splittable()
                &&& self.bodies.len() <= self.count
            },
            Some(kids) => {
                &&& self.bodies.len() == 0
                &&& self.count >= 1
                &&& self.rect.splittable()
                &&& kids.count() <= self.count
                &&& kids.nw.sits(self.cfg, self.rect.split_spec(Cardinal::NW))
                &&& kids.ne.sits(self.cfg, self.rect.split_spec(Cardinal::NE))
                &&& kids.se.sits(self.cfg, self.rect.split_spec(Cardinal::SE))
                &&& kids.sw.sits(self.cfg, self.rect.split_spec(Cardinal::SW))
                &&& kids.nw.wf()
                &&& kids.ne.wf()
                &&& kids.se.wf()
                &&& kids.sw.wf()
            },
        }
    }

    /// Whether the node covers `rect` under the config `cfg`.
    pub open spec fn sits(self, cfg: QuadConfig, rect: Rect) -> bool {
        self.cfg == cfg && self.rect == rect
    }

    /// The bodies held anywhere in the tree.
    pub open spec fn all_bodies(self) -> Multiset<Body>
        decreases self,
    {
        match self.kids {
            None => self.bodies.to_multiset(),
            Some(kids) => kids.nw.all_bodies().add(kids.ne.all_bodies()).add(
                kids.se.all_bodies(),
            ).add(kids.sw.all_bodies()),
        }
    }

    /// The sum of the masses of the bodies held anywhere in the tree.
    pub open spec fn held_mass(self) -> nat
        decreases self,
    {
        match self.kids {
            None => seq_mass(self.bodies),
            Some(kids) => kids.nw.held_mass() + kids.ne.held_mass() + kids.se.held_mass()
                + kids.sw.held_mass(),
        }
    }

    /// The sum of the positions of the bodies held anywhere in the tree, each
    /// weighted by the body's mass.
    pub open spec fn held_moment(self) -> (int, int)
        decreases self,
    {
        match self.kids {
            None => seq_moment(self.bodies),
            Some(kids) => (
                kids.nw.held_moment().0 + kids.ne.held_moment().0 + kids.se.held_moment().0
                    + kids.sw.held_moment().0,
                kids.nw.held_moment().1 + kids.ne.held_moment().1 + kids.se.held_moment().1
                    + kids.sw.held_moment().1,
            ),
        }
    }

    /// Whether the aggregates of every node are those of the bodies that the
    /// node and its quadrants hold: nothing that was inserted has been lost.
    pub open spec fn exact(self) -> bool
        decreases self,
    {
        &&& self.mass == self.held_mass()
        &&& self.moment == self.held_moment()
        &&& match self.kids {
            None => true,
            Some(kids) => kids.nw.exact() && kids.ne.exact() && kids.se.exact() && kids.sw.exact(),
        }
    }

    /// Whether the region of the node covers every body held anywhere in the
    /// tree.
    pub open spec fn within(self) -> bool {
        forall|b: Body| self.all_bodies().count(b) > 0 ==> self.rect.covers_spec(b.center)
    }

    /// Whether every body below the root is held where it belongs: the
    /// region of each quadrant covers all that the quadrant holds, and so
    /// all the way down.
    pub open spec fn sorted(self) -> bool
        decreases self,
    {
        match self.kids {
            None => true,
            Some(kids) => {
                &&& kids.nw.within() && kids.nw.sorted()
                &&& kids.ne.within() && kids.ne.sorted()
                &&& kids.se.within() && kids.se.sorted()
                &&& kids.sw.within() && kids.sw.sorted()
            },
        }
    }

    /// Whether the quadrants, if there are any, are exact.
    pub open spec fn kids_exact(self) -> bool {
        match self.kids {
            None => true,
            Some(kids) => kids.nw.exact() && kids.ne.exact() && kids.se.exact() && kids.sw.exact(),
        }
    }

    /// The tree after the bodies of `bodies` have been inserted in turn.
    pub open spec fn insert_all(self, bodies: Seq<Body>) -> Tree
        decreases bodies.len(),
    {
        if bodies.len() == 0 {
            self
        } else {
            self.insert_all(bodies.drop_last()).insert(bodies.last()).0
        }
    }

    /// Whether each insertion of `insert_all` found a place for every body.
    pub open spec fn insert_all_ok(self, bodies: Seq<Body>) -> bool
        decreases bodies.len(),
    {
        if bodies.len() == 0 {
            true
        } else {
            self.insert_all_ok(bodies.drop_last()) && self.insert_all(bodies.drop_last()).insert(
                bodies.last(),
            ).1
        }
    }

    /// The node after the mass and the position of `b` have entered its
    /// aggregates.
    pub open spec fn aggregate(self, b: Body) -> Tree {
        let mass = self.mass + b.mass as nat;
        let moment = (self.moment.0 + b.mass * b.center.x, self.moment.1 + b.mass * b.center.y);
        Tree {
            count: self.count + 1,
            mass,
            moment,
            com: center_of_mass(mass, moment, self.rect.center_spec()),
            ..self
        }
    }

    /// The node split into four empty quadrants.
    pub open spec fn subdivide(self) -> Tree {
        Tree {
            bodies: Seq::empty(),
            kids: Some(
                Box::new(
                    Kids {
                        nw: Tree::empty(self.cfg, self.rect.split_spec(Cardinal::NW)),
                        ne: Tree::empty(self.cfg, self.rect.split_spec(Cardinal::NE)),
                        se: Tree::empty(self.cfg, self.rect.split_spec(Cardinal::SE)),
                        sw: Tree::empty(self.cfg, self.rect.split_spec(Cardinal::SW)),
                    },
                ),
            ),
            ..self
        }
    }

    /// The quadrant whose region covers `p`, if there is one.
    pub open spec fn quadrant_for(self, p: Point) -> Option<Cardinal> {
        match self.kids {
            None => None,
            Some(kids) => if kids.nw.rect.covers_spec(p) {
                Some(Cardinal::NW)
            } else if kids.ne.rect.covers_spec(p) {
                Some(Cardinal::NE)
            } else if kids.se.rect.covers_spec(p) {
                Some(Cardinal::SE)
            } else if kids.sw.rect.covers_spec(p) {
                Some(Cardinal::SW)
            } else {
                None
            },
        }
    }

    /// Whether an external node takes one more body itself: it is under
    /// capacity, or its region is too small to be split.
    pub open spec fn takes(self) -> bool {
        self.kids is None && (self.bodies.len() < self.cfg.capacity || !self.rect.splittable())
    }

    /// The tree after `b` has been inserted, and whether every body that had
    /// to be placed found its quadrant.
    ///
    /// The aggregates take `b` in every case. An external node that is
    /// under capacity, or too small to be split, then holds `b`. Any other
    /// node passes `b` and, when it has to split for it, the bodies it held
    /// on to its quadrants. A body whose position none of them covers is
    /// lost.
    pub open spec fn insert(self, b: Body) -> (Tree, bool)
        decreases extent(self.rect), 1nat, 0nat,
    {
        let a = self.aggregate(b);
        if a.takes() {
            (Tree { bodies: a.bodies.push(b), ..a }, true)
        } else if a.kids is None {
            a.subdivide().distribute(seq![b] + a.bodies, extent(self.rect))
        } else {
            a.distribute(seq![b], extent(self.rect))
        }
    }

    /// The internal node after `b` has been inserted into the quadrant that
    /// contains it, and whether it had one. `bound` is the extent of the
    /// node's region, which the quadrants fall short of.
    pub open spec fn place(self, b: Body, bound: nat) -> (Tree, bool)
        decreases bound, 0nat, 0nat,
    {
        match (self.kids, self.quadrant_for(b.center)) {
            (Some(kids), Some(c)) => if extent(kids.get(c).rect) < bound {
                let (kid, ok) = kids.get(c).insert(b);
                (Tree { kids: Some(Box::new(kids.set(c, kid))), ..self }, ok)
            } else {
                (self, false)
            },
            _ => (self, false),
        }
    }

    /// The internal node after each of `pending` has been placed in turn,
    /// and whether each of them found its quadrant.
    pub open spec fn distribute(self, pending: Seq<Body>, bound: nat) -> (Tree, bool)
        decreases bound, 0nat, 1 + pending.len(),
    {
        if pending.len() == 0 {
            (self, true)
        } else {
            let (next, placed) = self.place(pending.first(), bound);
            let (last, ok) = next.distribute(pending.drop_first(), bound);
            (last, placed && ok)
        }
    }

    /// Whether the node is far enough from `p` to stand for the bodies
    /// inside it: the ratio of its size, the mean of width and height, to
    /// the distance between its center of mass and `p` is below `theta`.
    /// A node whose center of mass is at `p` is never far.
    pub open spec fn far_from(self, p: Point) -> bool {
        self.far_under(p, self.cfg.theta as int)
    }

    /// `far_from` under the threshold `theta` in place of the configured one.
    pub open spec fn far_under(self, p: Point, theta: int) -> bool {
        let s = self.rect.width + self.rect.height;
        let d2 = self.com.dist2(p);
        d2 > 0 && s * s * (ONE * ONE) < 4 * (theta * theta) * d2
    }

    /// How many internal nodes a traversal for a target at `p` opens up
    /// under the threshold `theta`, rather than taking them as one body.
    pub open spec fn opened(self, p: Point, theta: int) -> nat
        decreases self,
    {
        match self.kids {
            Some(kids) => if self.far_under(p, theta) {
                0
            } else {
                1 + kids.nw.opened(p, theta) + kids.ne.opened(p, theta) + kids.se.opened(p, theta)
                    + kids.sw.opened(p, theta)
            },
            None => 0,
        }
    }

    /// `opened` under the configured threshold, saturated at the largest
    /// number that a counter holds.
    pub open spec fn opened_count(self, p: Point) -> int {
        if self.opened(p, self.cfg.theta as int) > u64::MAX {
            u64::MAX as int
        } else {
            self.opened(p, self.cfg.theta as int) as int
        }
    }

    /// The change of velocity that the bodies held anywhere in the tree
    /// cause on `target`, each body taken by itself.
    pub open spec fn direct_pull(self, target: Body, delta: i32) -> (int, int)
        decreases self,
    {
        match self.kids {
            Some(kids) => (
                kids.nw.direct_pull(target, delta).0 + kids.ne.direct_pull(target, delta).0
                    + kids.se.direct_pull(target, delta).0 + kids.sw.direct_pull(target, delta).0,
                kids.nw.direct_pull(target, delta).1 + kids.ne.direct_pull(target, delta).1
                    + kids.se.direct_pull(target, delta).1 + kids.sw.direct_pull(target, delta).1,
            ),
            None => seq_pull(self.bodies, target, self.cfg.gravity, delta),
        }
    }

    /// The bodies held anywhere in the tree, quadrant by quadrant.
    pub open spec fn listing(self) -> Seq<Body>
        decreases self,
    {
        match self.kids {
            Some(kids) => kids.nw.listing() + kids.ne.listing() + kids.se.listing()
                + kids.sw.listing(),
            None => self.bodies,
        }
    }

    /// The single body that stands for the node: all the aggregated mass,
    /// as far as a body can have it, at the center of mass.
    pub open spec fn proxy(self) -> Body {
        Body {
            id: 0,
            center: self.com,
            mass: (if self.mass > u32::MAX {
                u32::MAX as int
            } else {
                self.mass as int
            }) as u32,
            velocity: Point { x: 0, y: 0 },
        }
    }

    /// The change of velocity that the bodies of the tree cause on `target`
    /// over the time `delta`. An internal node that is far from the target
    /// pulls as one body; any other internal node pulls as its quadrants do;
    /// an external node pulls with each body it holds but the target itself.
    pub open spec fn pull(self, target: Body, delta: i32) -> (int, int)
        decreases self,
    {
        match self.kids {
            Some(kids) => if self.far_from(target.center) {
                pull_spec(target, self.proxy(), self.cfg.gravity, delta)
            } else {
                (
                    kids.nw.pull(target, delta).0 + kids.ne.pull(target, delta).0 + kids.se.pull(
                        target,
                        delta,
                    ).0 + kids.sw.pull(target, delta).0,
                    kids.nw.pull(target, delta).1 + kids.ne.pull(target, delta).1 + kids.se.pull(
                        target,
                        delta,
                    ).1 + kids.sw.pull(target, delta).1,
                )
            },
            None => seq_pull(self.bodies, target, self.cfg.gravity, delta),
        }
    }
}

} // verus!
