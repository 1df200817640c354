//! What holds of every tree, proved of the model.
use vstd::prelude::*;
use crate::geo::point::ONE;
use crate::geo::point::Point;
use crate::geo::rect::Cardinal;
use crate::geo::rect::Rect;
use crate::geo::rect::lemma_quadrants_cover;
use crate::geo::rect::lemma_split_edges;
use crate::num::lemma_trunc_div_monotonic;
use crate::num::trunc_div;
use crate::quad::body::Body;
use crate::quad::gravity::Gravity;
use crate::quad::gravity::seq_pull;
use crate::quad::tree::QuadConfig;
use crate::quad::tree::Tree;
use crate::quad::tree::center_of_mass;
use crate::quad::tree::extent;
use crate::quad::tree::seq_mass;
use crate::quad::tree::seq_moment;

verus! {

/// A mass-weighted average of co-ordinates is a co-ordinate.
pub proof fn lemma_average_fits(moment: int, mass: int)
    requires
        mass > 0,
        i32::MIN * mass <= moment <= i32::MAX * mass,
    ensures
        i32::MIN <= trunc_div(moment, mass) <= i32::MAX,
{
    let hi = i32::MAX * mass;
    let lo = i32::MIN * mass;
    assert(hi >= 0 && lo <= 0 && -lo == 0x8000_0000 * mass) by (nonlinear_arith)
        requires
            mass > 0,
            hi == i32::MAX * mass,
            lo == i32::MIN * mass,
    ;
    vstd::arithmetic::div_mod::lemma_div_multiples_vanish(i32::MAX as int, mass);
    vstd::arithmetic::div_mod::lemma_div_multiples_vanish(0x8000_0000, mass);
    assert(trunc_div(hi, mass) == i32::MAX);
    assert(trunc_div(lo, mass) == i32::MIN) by {
        if lo == 0 {
            assert(false) by (nonlinear_arith)
                requires
                    lo == i32::MIN * mass,
                    mass > 0,
                    lo == 0,
            ;
        }
    }
    lemma_trunc_div_monotonic(moment, hi, mass);
    lemma_trunc_div_monotonic(lo, moment, mass);
}

/// The empty tree over a well-formed region is well formed.
pub proof fn lemma_empty_wf(cfg: QuadConfig, rect: Rect)
    requires
        cfg.wf(),
        rect.wf(),
    ensures
        Tree::empty(cfg, rect).wf(),
        Tree::empty(cfg, rect).exact(),
        Tree::empty(cfg, rect).all_bodies() =~= vstd::multiset::Multiset::empty(),
{
    let t = Tree::empty(cfg, rect);
    assert(t.bodies.to_multiset() =~= vstd::multiset::Multiset::empty()) by {
        vstd::seq_lib::to_multiset_len(t.bodies);
        vstd::multiset::lemma_multiset_empty_len(t.bodies.to_multiset());
    }
}

/// Taking a body into the aggregates keeps a tree well formed.
pub proof fn lemma_aggregate_wf(t: Tree, b: Body)
    requires
        t.wf(),
        t.count < u32::MAX,
    ensures
        t.aggregate(b).wf(),
{
    let a = t.aggregate(b);
    let m = b.mass as int;
    let x = b.center.x as int;
    let y = b.center.y as int;
    assert(i32::MIN * m <= m * x <= i32::MAX * m && i32::MIN * m <= m * y <= i32::MAX * m)
        by (nonlinear_arith)
        requires
            m >= 0,
            i32::MIN <= x <= i32::MAX,
            i32::MIN <= y <= i32::MAX,
    ;
    assert(i32::MIN * (t.mass + m) == i32::MIN * t.mass + i32::MIN * m && i32::MAX * (t.mass + m)
        == i32::MAX * t.mass + i32::MAX * m) by (nonlinear_arith);
    assert(a.mass <= a.count * u32::MAX) by (nonlinear_arith)
        requires
            a.mass == t.mass + m,
            a.count == t.count + 1,
            t.mass <= t.count * u32::MAX,
            m <= u32::MAX,
    ;
}

/// Inserting a body keeps a tree well formed, takes the body into the
/// aggregates of the root, and leaves region and config as they were.
pub proof fn lemma_insert_wf(t: Tree, b: Body)
    requires
        t.wf(),
        t.count < u32::MAX,
    ensures
        t.insert(b).0.wf(),
        t.insert(b).0.rect == t.rect,
        t.insert(b).0.cfg == t.cfg,
        t.insert(b).0.count == t.count + 1,
        t.insert(b).0.mass == t.mass + b.mass,
        t.insert(b).0.moment == t.aggregate(b).moment,
        t.insert(b).0.com == t.aggregate(b).com,
    decreases extent(t.rect), 1nat, 0nat,
{
    lemma_aggregate_wf(t, b);
    let a = t.aggregate(b);
    if a.takes() {
    } else if a.kids is None {
        lemma_subdivide_wf(a);
        lemma_distribute_wf(a.subdivide(), seq![b] + a.bodies, extent(t.rect));
    } else {
        lemma_distribute_wf(a, seq![b], extent(t.rect));
    }
}

/// Splitting a full external node gives a well-formed internal node with
/// four empty quadrants.
pub proof fn lemma_subdivide_wf(a: Tree)
    requires
        a.wf(),
        a.kids is None,
        a.rect.splittable(),
        a.count >= 1,
    ensures
        a.subdivide().wf(),
        a.subdivide().kids is Some,
        a.subdivide().kids.unwrap().count() == 0,
{
    lemma_split_edges(a.rect, Cardinal::NW);
    lemma_split_edges(a.rect, Cardinal::NE);
    lemma_split_edges(a.rect, Cardinal::SE);
    lemma_split_edges(a.rect, Cardinal::SW);
    lemma_empty_wf(a.cfg, a.rect.split_spec(Cardinal::NW));
    lemma_empty_wf(a.cfg, a.rect.split_spec(Cardinal::NE));
    lemma_empty_wf(a.cfg, a.rect.split_spec(Cardinal::SE));
    lemma_empty_wf(a.cfg, a.rect.split_spec(Cardinal::SW));
}

/// Handing a body on to its quadrant keeps an internal node well formed and
/// changes nothing of the node itself.
pub proof fn lemma_place_wf(t: Tree, b: Body, bound: nat)
    requires
        t.wf(),
        t.kids is Some,
        t.kids.unwrap().count() < t.count,
        bound == extent(t.rect),
    ensures
        t.place(b, bound).0.wf(),
        t.place(b, bound).0.kids is Some,
        t.place(b, bound).0.kids.unwrap().count() <= t.kids.unwrap().count() + 1,
        t.place(b, bound).0 == (Tree { kids: t.place(b, bound).0.kids, ..t }),
    decreases bound, 0nat, 0nat,
{
    let kids = t.kids.unwrap();
    match t.quadrant_for(b.center) {
        Some(c) => {
            lemma_split_edges(t.rect, c);
            assert(extent(kids.get(c).rect) < bound);
            lemma_insert_wf(kids.get(c), b);
        },
        None => {},
    }
}

/// Handing bodies on to the quadrants keeps an internal node well formed
/// and changes nothing of the node itself.
pub proof fn lemma_distribute_wf(t: Tree, pending: Seq<Body>, bound: nat)
    requires
        t.wf(),
        t.kids is Some,
        t.kids.unwrap().count() + pending.len() <= t.count,
        bound == extent(t.rect),
    ensures
        t.distribute(pending, bound).0.wf(),
        t.distribute(pending, bound).0.kids is Some,
        t.distribute(pending, bound).0.kids.unwrap().count() <= t.kids.unwrap().count()
            + pending.len(),
        t.distribute(pending, bound).0 == (Tree {
            kids: t.distribute(pending, bound).0.kids,
            ..t
        }),
    decreases bound, 0nat, 1 + pending.len(),
{
    if pending.len() > 0 {
        lemma_place_wf(t, pending.first(), bound);
        lemma_distribute_wf(t.place(pending.first(), bound).0, pending.drop_first(), bound);
    }
}

/// The mass of a sequence of bodies is that of its first body and of the
/// rest, and so is its moment.
pub proof fn lemma_seq_sums_first(s: Seq<Body>)
    requires
        s.len() > 0,
    ensures
        seq_mass(s) == s.first().mass + seq_mass(s.drop_first()),
        seq_moment(s).0 == s.first().mass * s.first().center.x + seq_moment(s.drop_first()).0,
        seq_moment(s).1 == s.first().mass * s.first().center.y + seq_moment(s.drop_first()).1,
    decreases s.len(),
{
    if s.len() == 1 {
        assert(s.drop_last() =~= Seq::<Body>::empty());
        assert(s.drop_first() =~= Seq::<Body>::empty());
        assert(seq_mass(s.drop_last()) == 0);
        assert(seq_moment(s.drop_last()) == (0int, 0int));
    } else {
        lemma_seq_sums_first(s.drop_last());
        assert(s.drop_last().drop_first() =~= s.drop_first().drop_last());
        assert(s.drop_last().first() == s.first());
        assert(s.drop_first().last() == s.last());
    }
}

/// What `keeps` says of a tree `r` that came from `t` by taking in the
/// bodies `added`: they are all held now, and the sums over the held bodies
/// grew by theirs.
pub open spec fn took(t: Tree, r: Tree, added: Seq<Body>) -> bool {
    &&& r.all_bodies() =~= t.all_bodies().add(added.to_multiset())
    &&& r.held_mass() == t.held_mass() + seq_mass(added)
    &&& r.held_moment().0 == t.held_moment().0 + seq_moment(added).0
    &&& r.held_moment().1 == t.held_moment().1 + seq_moment(added).1
    &&& t.kids_exact() ==> r.kids_exact()
}

/// A successful insertion adds exactly the new body to the bodies that the
/// tree holds, and keeps the aggregates exact. A failed one adds no body
/// that was not there or given.
pub proof fn lemma_insert_keeps(t: Tree, b: Body)
    requires
        t.wf(),
        t.count < u32::MAX,
    ensures
        t.insert(b).1 ==> took(t, t.insert(b).0, seq![b]),
        t.insert(b).1 && t.exact() ==> t.insert(b).0.exact(),
        t.insert(b).0.all_bodies().subset_of(t.all_bodies().insert(b)),
    decreases extent(t.rect), 1nat, 0nat,
{
    broadcast use vstd::multiset::group_multiset_axioms;

    lemma_aggregate_wf(t, b);
    lemma_insert_wf(t, b);
    let a = t.aggregate(b);
    let one = seq![b];
    lemma_singleton(b);
    if a.takes() {
        let r = t.insert(b).0;
        vstd::seq_lib::to_multiset_build(a.bodies, b);
        assert(r.bodies.drop_last() =~= a.bodies);
    } else if a.kids is None {
        lemma_subdivide_wf(a);
        let s = a.subdivide();
        let pending = seq![b] + a.bodies;
        lemma_empty_wf(a.cfg, a.rect.split_spec(Cardinal::NW));
        lemma_empty_wf(a.cfg, a.rect.split_spec(Cardinal::NE));
        lemma_empty_wf(a.cfg, a.rect.split_spec(Cardinal::SE));
        lemma_empty_wf(a.cfg, a.rect.split_spec(Cardinal::SW));
        assert(s.all_bodies() =~= vstd::multiset::Multiset::empty());
        lemma_empty_sums();
        assert(s.held_mass() == 0 && s.held_moment() == (0int, 0int));
        lemma_distribute_keeps(s, pending, extent(t.rect));
        vstd::seq_lib::lemma_multiset_commutative(one, a.bodies);
        lemma_seq_sums_first(pending);
        assert(pending.drop_first() =~= a.bodies);
    } else {
        lemma_distribute_keeps(a, one, extent(t.rect));
    }
}

/// A single body is its own bag, mass and moment.
pub proof fn lemma_singleton(b: Body)
    ensures
        seq![b].to_multiset() =~= vstd::multiset::Multiset::empty().insert(b),
        seq_mass(seq![b]) == b.mass,
        seq_moment(seq![b]) == (b.mass * b.center.x, b.mass * b.center.y),
{
    let one = seq![b];
    vstd::seq_lib::to_multiset_build(Seq::<Body>::empty(), b);
    assert(Seq::<Body>::empty().push(b) =~= one);
    lemma_empty_bag();
    assert(one.drop_last() =~= Seq::<Body>::empty());
    assert(seq_mass(one.drop_last()) == 0);
    assert(seq_moment(one.drop_last()) == (0int, 0int));
    assert(one.last() == b);
}

/// The empty sequence of bodies is the empty bag.
pub proof fn lemma_empty_bag()
    ensures
        Seq::<Body>::empty().to_multiset() =~= vstd::multiset::Multiset::empty(),
{
    vstd::seq_lib::to_multiset_len(Seq::<Body>::empty());
    vstd::multiset::lemma_multiset_empty_len(Seq::<Body>::empty().to_multiset());
}

/// The empty sequence of bodies has neither mass nor moment.
pub proof fn lemma_empty_sums()
    ensures
        seq_mass(Seq::<Body>::empty()) == 0,
        seq_moment(Seq::<Body>::empty()) == (0int, 0int),
{
}

/// Handing a body on to its quadrant, where it succeeds, adds exactly that
/// body to the bodies that the node holds.
pub proof fn lemma_place_keeps(t: Tree, b: Body, bound: nat)
    requires
        t.wf(),
        t.kids is Some,
        t.kids.unwrap().count() < t.count,
        bound == extent(t.rect),
    ensures
        t.place(b, bound).1 ==> took(t, t.place(b, bound).0, seq![b]),
        t.place(b, bound).0.all_bodies().subset_of(t.all_bodies().insert(b)),
    decreases bound, 0nat, 0nat,
{
    broadcast use vstd::multiset::group_multiset_axioms;

    let kids = t.kids.unwrap();
    match t.quadrant_for(b.center) {
        Some(c) => {
            lemma_split_edges(t.rect, c);
            assert(extent(kids.get(c).rect) < bound);
            lemma_insert_keeps(kids.get(c), b);
        },
        None => {},
    }
}

/// Handing bodies on to the quadrants, where it succeeds for each, adds
/// exactly those bodies to the bodies that the node holds.
pub proof fn lemma_distribute_keeps(t: Tree, pending: Seq<Body>, bound: nat)
    requires
        t.wf(),
        t.kids is Some,
        t.kids.unwrap().count() + pending.len() <= t.count,
        bound == extent(t.rect),
    ensures
        t.distribute(pending, bound).1 ==> took(t, t.distribute(pending, bound).0, pending),
        t.distribute(pending, bound).0.all_bodies().subset_of(
            t.all_bodies().add(pending.to_multiset()),
        ),
    decreases bound, 0nat, 1 + pending.len(),
{
    broadcast use vstd::multiset::group_multiset_axioms;

    if pending.len() == 0 {
        lemma_empty_bag();
        assert(pending =~= Seq::<Body>::empty());
    } else {
        let b = pending.first();
        let next = t.place(b, bound).0;
        lemma_place_wf(t, b, bound);
        lemma_place_keeps(t, b, bound);
        lemma_distribute_keeps(next, pending.drop_first(), bound);
        lemma_seq_sums_first(pending);
        let one = seq![b];
        lemma_singleton(b);
        assert(one + pending.drop_first() =~= pending);
        vstd::seq_lib::lemma_multiset_commutative(one, pending.drop_first());
    }
}

/// Taking one body out of a sequence takes its mass and its moment out of
/// the sums.
pub proof fn lemma_seq_sums_remove(s: Seq<Body>, i: int)
    requires
        0 <= i < s.len(),
    ensures
        seq_mass(s) == seq_mass(s.remove(i)) + s[i].mass,
        seq_moment(s).0 == seq_moment(s.remove(i)).0 + s[i].mass * s[i].center.x,
        seq_moment(s).1 == seq_moment(s.remove(i)).1 + s[i].mass * s[i].center.y,
    decreases s.len(),
{
    if i == s.len() - 1 {
        assert(s.remove(i) =~= s.drop_last());
    } else {
        lemma_seq_sums_remove(s.drop_last(), i);
        assert(s.remove(i).drop_last() =~= s.drop_last().remove(i));
        assert(s.remove(i).last() == s.last());
    }
}

/// The mass and the moment of a sequence of bodies do not depend on the
/// order of the bodies.
pub proof fn lemma_seq_sums_unordered(s1: Seq<Body>, s2: Seq<Body>)
    requires
        s1.to_multiset() =~= s2.to_multiset(),
    ensures
        seq_mass(s1) == seq_mass(s2),
        seq_moment(s1) == seq_moment(s2),
    decreases s1.len(),
{
    broadcast use vstd::multiset::group_multiset_axioms;

    vstd::seq_lib::to_multiset_len(s1);
    vstd::seq_lib::to_multiset_len(s2);
    if s1.len() == 0 {
        assert(s1 =~= Seq::<Body>::empty());
        assert(s2 =~= Seq::<Body>::empty());
    } else {
        let x = s1.last();
        vstd::seq_lib::to_multiset_contains(s1, x);
        vstd::seq_lib::to_multiset_contains(s2, x);
        assert(s1.contains(x)) by {
            assert(s1[s1.len() - 1] == x);
        }
        let i = choose|i: int| 0 <= i < s2.len() && s2[i] == x;
        vstd::seq_lib::to_multiset_remove(s1, s1.len() - 1);
        vstd::seq_lib::to_multiset_remove(s2, i);
        assert(s1.remove(s1.len() - 1) =~= s1.drop_last());
        lemma_seq_sums_unordered(s1.drop_last(), s2.remove(i));
        lemma_seq_sums_remove(s2, i);
    }
}

/// Inserting bodies one after another keeps a tree well formed and adds
/// the mass and the moment of each to the aggregates of the root, whether
/// or not the body found a place. Where each found one, the tree holds them
/// all, and its aggregates stay exact.
pub proof fn lemma_insert_all(t: Tree, bodies: Seq<Body>)
    requires
        t.wf(),
        t.count + bodies.len() <= u32::MAX,
    ensures
        t.insert_all(bodies).wf(),
        t.insert_all(bodies).rect == t.rect,
        t.insert_all(bodies).cfg == t.cfg,
        t.insert_all(bodies).count == t.count + bodies.len(),
        t.insert_all(bodies).mass == t.mass + seq_mass(bodies),
        t.insert_all(bodies).moment.0 == t.moment.0 + seq_moment(bodies).0,
        t.insert_all(bodies).moment.1 == t.moment.1 + seq_moment(bodies).1,
        t.insert_all_ok(bodies) ==> t.insert_all(bodies).all_bodies() =~= t.all_bodies().add(
            bodies.to_multiset(),
        ),
        t.insert_all_ok(bodies) && t.exact() ==> t.insert_all(bodies).exact(),
    decreases bodies.len(),
{
    broadcast use vstd::multiset::group_multiset_axioms;

    if bodies.len() == 0 {
        lemma_empty_bag();
        assert(bodies =~= Seq::<Body>::empty());
    } else {
        let front = bodies.drop_last();
        let b = bodies.last();
        lemma_insert_all(t, front);
        let mid = t.insert_all(front);
        lemma_insert_wf(mid, b);
        lemma_insert_keeps(mid, b);
        lemma_singleton(b);
        vstd::seq_lib::to_multiset_build(front, b);
        assert(front.push(b) =~= bodies);
    }
}

/// Mass conservation: after any sequence of insertions into an empty tree
/// the aggregated mass of the root is the sum of the masses of the inserted
/// bodies, and two sequences that hold the same bodies in another order
/// give the same mass and the same center of mass.
pub proof fn lemma_mass_conservation(
    cfg: QuadConfig,
    rect: Rect,
    bodies: Seq<Body>,
    reordered: Seq<Body>,
)
    requires
        cfg.wf(),
        rect.wf(),
        bodies.len() <= u32::MAX,
        bodies.to_multiset() =~= reordered.to_multiset(),
    ensures
        Tree::empty(cfg, rect).insert_all(bodies).mass == seq_mass(bodies),
        Tree::empty(cfg, rect).insert_all(reordered).mass == seq_mass(bodies),
        Tree::empty(cfg, rect).insert_all(reordered).moment == seq_moment(bodies),
        Tree::empty(cfg, rect).insert_all(reordered).com == Tree::empty(cfg, rect).insert_all(
            bodies,
        ).com,
{
    let t = Tree::empty(cfg, rect);
    lemma_empty_wf(cfg, rect);
    vstd::seq_lib::to_multiset_len(bodies);
    vstd::seq_lib::to_multiset_len(reordered);
    lemma_insert_all(t, bodies);
    lemma_insert_all(t, reordered);
    lemma_seq_sums_unordered(bodies, reordered);
}

/// The pull of a sequence of bodies is that of its two parts.
pub proof fn lemma_seq_pull_concat(
    s1: Seq<Body>,
    s2: Seq<Body>,
    target: Body,
    g: Gravity,
    delta: i32,
)
    ensures
        seq_pull(s1 + s2, target, g, delta).0 == seq_pull(s1, target, g, delta).0 + seq_pull(
            s2,
            target,
            g,
            delta,
        ).0,
        seq_pull(s1 + s2, target, g, delta).1 == seq_pull(s1, target, g, delta).1 + seq_pull(
            s2,
            target,
            g,
            delta,
        ).1,
    decreases s2.len(),
{
    if s2.len() == 0 {
        assert(s1 + s2 =~= s1);
    } else {
        lemma_seq_pull_concat(s1, s2.drop_last(), target, g, delta);
        assert((s1 + s2).drop_last() =~= s1 + s2.drop_last());
        assert((s1 + s2).last() == s2.last());
    }
}

/// Taking one body out of a sequence takes its pull out of the sum.
pub proof fn lemma_seq_pull_remove(s: Seq<Body>, i: int, target: Body, g: Gravity, delta: i32)
    requires
        0 <= i < s.len(),
    ensures
        seq_pull(s, target, g, delta).0 == seq_pull(s.remove(i), target, g, delta).0 + seq_pull(
            seq![s[i]],
            target,
            g,
            delta,
        ).0,
        seq_pull(s, target, g, delta).1 == seq_pull(s.remove(i), target, g, delta).1 + seq_pull(
            seq![s[i]],
            target,
            g,
            delta,
        ).1,
{
    let front = s.take(i);
    let back = s.skip(i + 1);
    let one = seq![s[i]];
    assert(s =~= front + one + back);
    assert(s.remove(i) =~= front + back);
    lemma_seq_pull_concat(front, one, target, g, delta);
    lemma_seq_pull_concat(front + one, back, target, g, delta);
    lemma_seq_pull_concat(front, back, target, g, delta);
}

/// The pull of a sequence of bodies does not depend on the order of the
/// bodies.
pub proof fn lemma_seq_pull_unordered(
    s1: Seq<Body>,
    s2: Seq<Body>,
    target: Body,
    g: Gravity,
    delta: i32,
)
    requires
        s1.to_multiset() =~= s2.to_multiset(),
    ensures
        seq_pull(s1, target, g, delta) == seq_pull(s2, target, g, delta),
    decreases s1.len(),
{
    broadcast use vstd::multiset::group_multiset_axioms;

    vstd::seq_lib::to_multiset_len(s1);
    vstd::seq_lib::to_multiset_len(s2);
    if s1.len() == 0 {
        assert(s1 =~= Seq::<Body>::empty());
        assert(s2 =~= Seq::<Body>::empty());
    } else {
        let x = s1.last();
        let last = s1.len() - 1;
        vstd::seq_lib::to_multiset_contains(s1, x);
        vstd::seq_lib::to_multiset_contains(s2, x);
        assert(s1.contains(x)) by {
            assert(s1[last] == x);
        }
        let i = choose|i: int| 0 <= i < s2.len() && s2[i] == x;
        vstd::seq_lib::to_multiset_remove(s1, last);
        vstd::seq_lib::to_multiset_remove(s2, i);
        lemma_seq_pull_unordered(s1.remove(last), s2.remove(i), target, g, delta);
        lemma_seq_pull_remove(s1, last, target, g, delta);
        lemma_seq_pull_remove(s2, i, target, g, delta);
    }
}

/// The listing of a tree holds exactly the bodies that the tree holds, and
/// pulls as they do one by one.
pub proof fn lemma_listing(t: Tree, target: Body, delta: i32)
    requires
        t.wf(),
    ensures
        t.listing().to_multiset() =~= t.all_bodies(),
        seq_pull(t.listing(), target, t.cfg.gravity, delta) == t.direct_pull(target, delta),
    decreases t,
{
    broadcast use vstd::multiset::group_multiset_axioms;

    match t.kids {
        Some(kids) => {
            lemma_listing(kids.nw, target, delta);
            lemma_listing(kids.ne, target, delta);
            lemma_listing(kids.se, target, delta);
            lemma_listing(kids.sw, target, delta);
            let a = kids.nw.listing();
            let b = kids.ne.listing();
            let c = kids.se.listing();
            let d = kids.sw.listing();
            let g = t.cfg.gravity;
            vstd::seq_lib::lemma_multiset_commutative(a, b);
            vstd::seq_lib::lemma_multiset_commutative(a + b, c);
            vstd::seq_lib::lemma_multiset_commutative(a + b + c, d);
            lemma_seq_pull_concat(a, b, target, g, delta);
            lemma_seq_pull_concat(a + b, c, target, g, delta);
            lemma_seq_pull_concat(a + b + c, d, target, g, delta);
        },
        None => {},
    }
}

/// With a threshold of zero the tree approximates nothing: its pull on a
/// target is the sum of the pulls of the bodies it holds, each taken by
/// itself, in whatever order they are listed.
pub proof fn lemma_exact_at_zero_theta(t: Tree, bodies: Seq<Body>, target: Body, delta: i32)
    requires
        t.wf(),
        t.cfg.theta == 0,
        bodies.to_multiset() =~= t.all_bodies(),
    ensures
        t.pull(target, delta) == seq_pull(bodies, target, t.cfg.gravity, delta),
{
    lemma_pull_unopened(t, target, delta);
    lemma_listing(t, target, delta);
    lemma_seq_pull_unordered(t.listing(), bodies, target, t.cfg.gravity, delta);
}

/// With a threshold of zero no node is far from any point, so the pull of
/// the tree is the direct one.
pub proof fn lemma_pull_unopened(t: Tree, target: Body, delta: i32)
    requires
        t.wf(),
        t.cfg.theta == 0,
    ensures
        t.pull(target, delta) == t.direct_pull(target, delta),
    decreases t,
{
    match t.kids {
        Some(kids) => {
            let s = t.rect.width + t.rect.height;
            let theta = t.cfg.theta as int;
            let d2 = t.com.dist2(target.center);
            assert(s * s * (ONE * ONE) >= 0) by (nonlinear_arith);
            assert(4 * (theta * theta) * d2 == 0) by (nonlinear_arith)
                requires
                    theta == 0,
            ;
            assert(!t.far_from(target.center));
            lemma_pull_unopened(kids.nw, target, delta);
            lemma_pull_unopened(kids.ne, target, delta);
            lemma_pull_unopened(kids.se, target, delta);
            lemma_pull_unopened(kids.sw, target, delta);
        },
        None => {},
    }
}

/// The pull on a target of a tree that was built from an empty one by
/// inserting `bodies`, each of which found its place, is under a threshold
/// of zero the sum of the pulls of these bodies: the tree then gives what
/// the direct sum over all pairs gives.
pub proof fn lemma_tree_matches_direct_sum(
    cfg: QuadConfig,
    rect: Rect,
    bodies: Seq<Body>,
    target: Body,
    delta: i32,
)
    requires
        cfg.wf(),
        cfg.theta == 0,
        rect.wf(),
        bodies.len() <= u32::MAX,
        Tree::empty(cfg, rect).insert_all_ok(bodies),
    ensures
        Tree::empty(cfg, rect).insert_all(bodies).pull(target, delta) == seq_pull(
            bodies,
            target,
            cfg.gravity,
            delta,
        ),
{
    broadcast use vstd::multiset::group_multiset_axioms;

    let t = Tree::empty(cfg, rect);
    lemma_empty_wf(cfg, rect);
    lemma_insert_all(t, bodies);
    lemma_exact_at_zero_theta(t.insert_all(bodies), bodies, target, delta);
}

/// A node that is far from a point under one threshold is far from it
/// under every larger one.
pub proof fn lemma_far_monotonic(t: Tree, p: Point, theta: int, larger: int)
    requires
        0 <= theta <= larger,
        t.far_under(p, theta),
    ensures
        t.far_under(p, larger),
{
    let d2 = t.com.dist2(p);
    assert(4 * (theta * theta) * d2 <= 4 * (larger * larger) * d2) by (nonlinear_arith)
        requires
            0 <= theta <= larger,
            d2 > 0,
    ;
}

/// The larger the threshold, the fewer internal nodes a traversal opens.
pub proof fn lemma_opened_monotonic(t: Tree, p: Point, theta: int, larger: int)
    requires
        0 <= theta <= larger,
    ensures
        t.opened(p, larger) <= t.opened(p, theta),
    decreases t,
{
    match t.kids {
        Some(kids) => {
            if t.far_under(p, theta) {
                lemma_far_monotonic(t, p, theta, larger);
            } else {
                lemma_opened_monotonic(kids.nw, p, theta, larger);
                lemma_opened_monotonic(kids.ne, p, theta, larger);
                lemma_opened_monotonic(kids.se, p, theta, larger);
                lemma_opened_monotonic(kids.sw, p, theta, larger);
            }
        },
        None => {},
    }
}

/// Every body below the root is held where it belongs, whatever is
/// inserted: a body enters a quadrant only if the region of the quadrant
/// covers it.
pub proof fn lemma_insert_sorted(t: Tree, b: Body)
    requires
        t.wf(),
        t.count < u32::MAX,
        t.sorted(),
    ensures
        t.insert(b).0.sorted(),
    decreases extent(t.rect), 1nat, 0nat,
{
    lemma_aggregate_wf(t, b);
    let a = t.aggregate(b);
    if a.takes() {
    } else if a.kids is None {
        lemma_subdivide_wf(a);
        let s = a.subdivide();
        lemma_empty_wf(a.cfg, a.rect.split_spec(Cardinal::NW));
        lemma_empty_wf(a.cfg, a.rect.split_spec(Cardinal::NE));
        lemma_empty_wf(a.cfg, a.rect.split_spec(Cardinal::SE));
        lemma_empty_wf(a.cfg, a.rect.split_spec(Cardinal::SW));
        assert(s.sorted()) by {
            broadcast use vstd::multiset::group_multiset_axioms;

            let kids = s.kids.unwrap();
            assert(kids.nw.within() && kids.nw.sorted());
            assert(kids.ne.within() && kids.ne.sorted());
            assert(kids.se.within() && kids.se.sorted());
            assert(kids.sw.within() && kids.sw.sorted());
        }
        lemma_distribute_sorted(s, seq![b] + a.bodies, extent(t.rect));
    } else {
        lemma_distribute_sorted(a, seq![b], extent(t.rect));
    }
}

/// Handing a body on to the quadrant that covers it leaves every body where
/// it belongs.
pub proof fn lemma_place_sorted(t: Tree, b: Body, bound: nat)
    requires
        t.wf(),
        t.kids is Some,
        t.kids.unwrap().count() < t.count,
        bound == extent(t.rect),
        t.sorted(),
    ensures
        t.place(b, bound).0.sorted(),
    decreases bound, 0nat, 0nat,
{
    broadcast use vstd::multiset::group_multiset_axioms;

    let kids = t.kids.unwrap();
    match t.quadrant_for(b.center) {
        Some(c) => {
            lemma_split_edges(t.rect, c);
            assert(extent(kids.get(c).rect) < bound);
            let kid = kids.get(c);
            lemma_insert_wf(kid, b);
            lemma_insert_keeps(kid, b);
            lemma_insert_sorted(kid, b);
            let next = kid.insert(b).0;
            assert(next.within()) by {
                assert forall|x: Body| next.all_bodies().count(x) > 0 implies next.rect.covers_spec(
                    x.center,
                ) by {
                    assert(kid.all_bodies().insert(b).count(x) > 0);
                    if x != b {
                        assert(kid.all_bodies().count(x) > 0);
                    }
                }
            }
        },
        None => {},
    }
}

/// Handing bodies on to the quadrants that cover them leaves every body
/// where it belongs.
pub proof fn lemma_distribute_sorted(t: Tree, pending: Seq<Body>, bound: nat)
    requires
        t.wf(),
        t.kids is Some,
        t.kids.unwrap().count() + pending.len() <= t.count,
        bound == extent(t.rect),
        t.sorted(),
    ensures
        t.distribute(pending, bound).0.sorted(),
    decreases bound, 0nat, 1 + pending.len(),
{
    if pending.len() > 0 {
        lemma_place_wf(t, pending.first(), bound);
        lemma_place_sorted(t, pending.first(), bound);
        lemma_distribute_sorted(t.place(pending.first(), bound).0, pending.drop_first(), bound);
    }
}

/// A tree that was built from an empty one holds every body below the root
/// where it belongs.
pub proof fn lemma_insert_all_sorted(t: Tree, bodies: Seq<Body>)
    requires
        t.wf(),
        t.count + bodies.len() <= u32::MAX,
        t.sorted(),
    ensures
        t.insert_all(bodies).sorted(),
    decreases bodies.len(),
{
    if bodies.len() > 0 {
        lemma_insert_all(t, bodies.drop_last());
        lemma_insert_all_sorted(t, bodies.drop_last());
        lemma_insert_sorted(t.insert_all(bodies.drop_last()), bodies.last());
    }
}

/// Center-of-mass correctness: in a tree that has lost no body, the center
/// of mass of every node is the average of the positions of the bodies held
/// in and below the node, each weighted by the body's mass.
pub proof fn lemma_center_of_mass(t: Tree)
    requires
        t.wf(),
        t.exact(),
    ensures
        t.com == center_of_mass(t.held_mass(), t.held_moment(), t.rect.center_spec()),
        t.mass == t.held_mass(),
{
}

/// Success is owed: a tree that holds every body where it belongs takes a
/// body that its region covers, and finds a place for every body that it
/// has to hand on.
pub proof fn lemma_insert_covered(t: Tree, b: Body)
    requires
        t.wf(),
        t.count < u32::MAX,
        t.sorted(),
        t.within(),
        t.rect.covers_spec(b.center),
    ensures
        t.insert(b).1,
        t.insert(b).0.within(),
        t.insert(b).0.sorted(),
    decreases extent(t.rect), 1nat, 0nat,
{
    broadcast use vstd::multiset::group_multiset_axioms;

    lemma_aggregate_wf(t, b);
    lemma_insert_wf(t, b);
    lemma_insert_keeps(t, b);
    lemma_insert_sorted(t, b);
    let a = t.aggregate(b);
    let r = t.insert(b).0;
    assert(r.within()) by {
        assert forall|x: Body| r.all_bodies().count(x) > 0 implies r.rect.covers_spec(
            x.center,
        ) by {
            assert(t.all_bodies().insert(b).count(x) > 0);
            if x != b {
                assert(t.all_bodies().count(x) > 0);
            }
        }
    }
    if a.takes() {
    } else if a.kids is None {
        lemma_subdivide_wf(a);
        let s = a.subdivide();
        let pending = seq![b] + a.bodies;
        lemma_empty_wf(a.cfg, a.rect.split_spec(Cardinal::NW));
        lemma_empty_wf(a.cfg, a.rect.split_spec(Cardinal::NE));
        lemma_empty_wf(a.cfg, a.rect.split_spec(Cardinal::SE));
        lemma_empty_wf(a.cfg, a.rect.split_spec(Cardinal::SW));
        assert(s.sorted()) by {
            let kids = s.kids.unwrap();
            assert(kids.nw.within() && kids.nw.sorted());
            assert(kids.ne.within() && kids.ne.sorted());
            assert(kids.se.within() && kids.se.sorted());
            assert(kids.sw.within() && kids.sw.sorted());
        }
        assert forall|k: int| 0 <= k < pending.len() implies s.rect.covers_spec(
            (#[trigger] pending[k]).center,
        ) by {
            if k > 0 {
                let x = a.bodies[k - 1];
                assert(pending[k] == x);
                vstd::seq_lib::to_multiset_contains(a.bodies, x);
                assert(a.bodies.contains(x));
                assert(t.all_bodies().count(x) > 0);
            }
        }
        lemma_distribute_covered(s, pending, extent(t.rect));
    } else {
        lemma_distribute_covered(a, seq![b], extent(t.rect));
    }
}

/// A node that holds every body where it belongs finds the quadrant of a
/// body that its region covers.
pub proof fn lemma_place_covered(t: Tree, b: Body, bound: nat)
    requires
        t.wf(),
        t.kids is Some,
        t.kids.unwrap().count() < t.count,
        bound == extent(t.rect),
        t.sorted(),
        t.rect.covers_spec(b.center),
    ensures
        t.place(b, bound).1,
    decreases bound, 0nat, 0nat,
{
    let kids = t.kids.unwrap();
    lemma_quadrants_cover(t.rect, b.center);
    let q = t.rect.quadrant_of(b.center);
    assert(kids.get(q).rect.covers_spec(b.center));
    match t.quadrant_for(b.center) {
        Some(c) => {
            lemma_split_edges(t.rect, c);
            assert(extent(kids.get(c).rect) < bound);
            lemma_insert_covered(kids.get(c), b);
        },
        None => {},
    }
}

/// A node that holds every body where it belongs finds the quadrant of
/// each body that its region covers.
pub proof fn lemma_distribute_covered(t: Tree, pending: Seq<Body>, bound: nat)
    requires
        t.wf(),
        t.kids is Some,
        t.kids.unwrap().count() + pending.len() <= t.count,
        bound == extent(t.rect),
        t.sorted(),
        forall|k: int| 0 <= k < pending.len() ==> t.rect.covers_spec((#[trigger] pending[k]).center),
    ensures
        t.distribute(pending, bound).1,
    decreases bound, 0nat, 1 + pending.len(),
{
    if pending.len() > 0 {
        let b = pending.first();
        assert(b == pending[0]);
        lemma_place_wf(t, b, bound);
        lemma_place_sorted(t, b, bound);
        lemma_place_covered(t, b, bound);
        let next = t.place(b, bound).0;
        let rest = pending.drop_first();
        assert forall|k: int| 0 <= k < rest.len() implies next.rect.covers_spec(
            (#[trigger] rest[k]).center,
        ) by {
            assert(rest[k] == pending[k + 1]);
        }
        lemma_distribute_covered(next, rest, bound);
    }
}

/// A tree that is built from an empty one out of bodies that its region
/// covers finds a place for each of them.
pub proof fn lemma_insert_all_covered(t: Tree, bodies: Seq<Body>)
    requires
        t.wf(),
        t.count + bodies.len() <= u32::MAX,
        t.sorted(),
        t.within(),
        forall|k: int| 0 <= k < bodies.len() ==> t.rect.covers_spec((#[trigger] bodies[k]).center),
    ensures
        t.insert_all_ok(bodies),
        t.insert_all(bodies).within(),
        t.insert_all(bodies).sorted(),
    decreases bodies.len(),
{
    if bodies.len() > 0 {
        let front = bodies.drop_last();
        assert forall|k: int| 0 <= k < front.len() implies t.rect.covers_spec(
            (#[trigger] front[k]).center,
        ) by {
            assert(front[k] == bodies[k]);
        }
        lemma_insert_all(t, front);
        lemma_insert_all_covered(t, front);
        assert(bodies.last() == bodies[bodies.len() - 1]);
        lemma_insert_covered(t.insert_all(front), bodies.last());
    }
}

} // verus!
