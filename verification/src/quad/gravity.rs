//! Newton's law of gravitation on whole numbers.
//!
//! A force is `G * m1 * m2 / r²`, directed from the attracted body to the
//! attracting one. Every division rounds towards zero, so that the force of
//! `a` on `b` is exactly the opposite of the force of `b` on `a`.
use vstd::prelude::*;
use crate::geo::point::ONE;
use crate::geo::point::Point;
use crate::num::clamp_i32;
use crate::num::div_trunc;
use crate::num::isqrt;
use crate::num::lemma_sqrt_floor;
use crate::num::lemma_trunc_div_bounds;
use crate::num::saturate;
use crate::num::sqrt_floor;
use crate::num::trunc_div;
use crate::num::wrap;
use crate::num::wrap_into;
use crate::quad::body::Body;

verus! {

/// The gravitational constant, as the fraction `num / den` in the units that
/// the caller has chosen for masses, lengths and forces.
#[derive(Copy, Clone, Debug, PartialEq, Eq, Structural)]
pub struct Gravity {
    pub num: u32,
    pub den: u32,
}

/// A force vector. Its components saturate at the limits of `i64`.
#[derive(Copy, Clone, Debug, PartialEq, Eq, Structural)]
pub struct Force {
    pub x: i64,
    pub y: i64,
}

/// `v` brought into `[-i64::MAX, i64::MAX]` by saturation.
pub open spec fn saturate_force(v: int) -> int {
    if v < -i64::MAX {
        -i64::MAX
    } else if v > i64::MAX {
        i64::MAX as int
    } else {
        v
    }
}

/// One component of the force between two masses: `d` is the separation
/// along the component's axis, `r2` the squared distance. Bodies in the same
/// place exert no force on each other.
pub open spec fn force_component(g: Gravity, m1: int, m2: int, d: int, r2: int) -> int {
    if r2 <= 0 || g.den == 0 {
        0
    } else {
        saturate_force(trunc_div(g.num * m1 * m2 * d, g.den * r2 * sqrt_floor(r2)))
    }
}

/// The force that `b` exerts on `a`.
pub open spec fn force_spec(a: Body, b: Body, g: Gravity) -> Force {
    let r2 = a.center.dist2(b.center);
    Force {
        x: force_component(g, a.mass as int, b.mass as int, b.center.x - a.center.x, r2) as i64,
        y: force_component(g, a.mass as int, b.mass as int, b.center.y - a.center.y, r2) as i64,
    }
}

/// The change of one velocity component that the force component `f` causes
/// on a body of the given mass over the time `delta` (a fixed-point number).
/// A body without mass is not accelerated.
pub open spec fn velocity_delta(mass: int, f: int, delta: int) -> int {
    if mass <= 0 {
        0
    } else {
        trunc_div(delta * f, mass * ONE)
    }
}

/// The change of velocity that the force `f` causes on `a` over `delta`.
pub open spec fn delta_spec(a: Body, f: Force, delta: i32) -> (int, int) {
    (
        velocity_delta(a.mass as int, f.x as int, delta as int),
        velocity_delta(a.mass as int, f.y as int, delta as int),
    )
}

/// The velocity of `a` after the force `f` has acted on it for `delta`,
/// saturated at the limits of a co-ordinate.
pub open spec fn velocity_spec(a: Body, f: Force, delta: i32) -> Point {
    Point {
        x: saturate(a.velocity.x + delta_spec(a, f, delta).0) as i32,
        y: saturate(a.velocity.y + delta_spec(a, f, delta).1) as i32,
    }
}

/// The change of velocity that the attraction of `b` causes on `a` over
/// `delta`.
pub open spec fn pull_spec(a: Body, b: Body, g: Gravity, delta: i32) -> (int, int) {
    delta_spec(a, force_spec(a, b, g), delta)
}

/// The magnitude of a force component before the sign of the separation is
/// applied.
fn force_magnitude(g: Gravity, m1: u32, m2: u32, d: u64, r2: u128, r: u64) -> (f: u128)
    requires
        g.den > 0,
        d <= 0xffff_ffff,
        0 < r2 <= 0x2_0000_0000_0000_0000,
        r == sqrt_floor(r2 as int),
        0 < r,
    ensures
        f == (g.num * m1 * m2 * d) / (g.den * r2 * r),
{
    let gn: u128 = g.num as u128;
    let a: u128 = m1 as u128;
    let b: u128 = m2 as u128;
    let dd: u128 = d as u128;
    assert(gn * a <= 0xffff_ffff * 0xffff_ffff && gn * a * b <= 0xffff_ffff * 0xffff_ffff
        * 0xffff_ffff && gn * a * b * dd <= 0xffff_ffff * 0xffff_ffff * 0xffff_ffff * 0xffff_ffff)
        by (nonlinear_arith)
        requires
            0 <= gn <= 0xffff_ffff,
            0 <= a <= 0xffff_ffff,
            0 <= b <= 0xffff_ffff,
            0 <= dd <= 0xffff_ffff,
    ;
    let n: u128 = gn * a * b * dd;
    let gd: u128 = g.den as u128;
    assert(0 < gd * r2 <= 0xffff_ffff * 0x2_0000_0000_0000_0000) by (nonlinear_arith)
        requires
            0 < gd <= 0xffff_ffff,
            0 < r2 <= 0x2_0000_0000_0000_0000,
    ;
    let first: u128 = n / (gd * r2);
    proof {
        vstd::arithmetic::div_mod::lemma_div_denominator(n as int, (gd * r2) as int, r as int);
        assert(g.den * r2 * r == (gd * r2) * r);
    }
    first / (r as u128)
}

/// The magnitude `f` of a force component, signed like the separation and
/// saturated.
fn signed_force(f: u128, negative: bool) -> (v: i64)
    ensures
        v == saturate_force(
            if negative {
                -(f as int)
            } else {
                f as int
            },
        ),
{
    let m: i64 = if f > 0x7fff_ffff_ffff_ffff {
        i64::MAX
    } else {
        f as i64
    };
    if negative {
        -m
    } else {
        m
    }
}

/// Computes the force that `b` exerts on `a`.
pub fn pair_force(a: &Body, b: &Body, g: Gravity) -> (f: Force)
    ensures
        f == force_spec(*a, *b, g),
{
    let dx: i64 = b.center.x as i64 - a.center.x as i64;
    let dy: i64 = b.center.y as i64 - a.center.y as i64;
    let ax: u64 = if dx < 0 {
        (-dx) as u64
    } else {
        dx as u64
    };
    let ay: u64 = if dy < 0 {
        (-dy) as u64
    } else {
        dy as u64
    };
    assert(ax * ax == dx * dx && ay * ay == dy * dy && ax * ax <= 0xffff_ffff * 0xffff_ffff && ay
        * ay <= 0xffff_ffff * 0xffff_ffff) by (nonlinear_arith)
        requires
            ax == dx || ax == -dx,
            ay == dy || ay == -dy,
            0 <= ax <= 0xffff_ffff,
            0 <= ay <= 0xffff_ffff,
    ;
    let r2: u128 = (ax as u128) * (ax as u128) + (ay as u128) * (ay as u128);
    if r2 == 0 || g.den == 0 {
        return Force { x: 0, y: 0 };
    }
    let r: u64 = isqrt(r2);
    proof {
        lemma_sqrt_floor(r2 as int);
    }
    let fx = force_magnitude(g, a.mass, b.mass, ax, r2, r);
    let fy = force_magnitude(g, a.mass, b.mass, ay, r2, r);
    proof {
        assert(g.num * a.mass * b.mass >= 0 && g.den * r2 * r > 0) by (nonlinear_arith)
            requires
                g.den > 0,
                r2 > 0,
                r > 0,
        ;
        lemma_signed_quotient(g.num * a.mass * b.mass, dx as int, g.den * r2 * r);
        lemma_signed_quotient(g.num * a.mass * b.mass, dy as int, g.den * r2 * r);
    }
    Force { x: signed_force(fx, dx < 0), y: signed_force(fy, dy < 0) }
}

/// A quotient rounded towards zero takes the sign of the one factor of the
/// dividend that can be negative.
pub proof fn lemma_signed_quotient(k: int, d: int, q: int)
    requires
        k >= 0,
        q > 0,
    ensures
        d >= 0 ==> trunc_div(k * d, q) == (k * d) / q,
        d < 0 ==> trunc_div(k * d, q) == -((k * (-d)) / q),
{
    if d >= 0 {
        assert(k * d >= 0) by (nonlinear_arith)
            requires
                k >= 0,
                d >= 0,
        ;
    } else {
        assert(k * d <= 0 && -(k * d) == k * (-d)) by (nonlinear_arith)
            requires
                k >= 0,
                d < 0,
        ;
        if k * d == 0 {
            assert(0int / q == 0) by (nonlinear_arith)
                requires
                    q > 0,
            ;
        }
    }
}

/// Computes the velocity of `a` after the force `f` has acted on it for
/// `delta`.
pub fn kick(a: &Body, f: Force, delta: i32) -> (v: Point)
    ensures
        v == velocity_spec(*a, f, delta),
{
    let (dx, dy) = kick_delta(a, f, delta);
    Point {
        x: clamp_i32(a.velocity.x as i128 + dx),
        y: clamp_i32(a.velocity.y as i128 + dy),
    }
}

/// Computes the change of velocity that the force `f` causes on `a` over
/// `delta`.
pub fn kick_delta(a: &Body, f: Force, delta: i32) -> (d: (i128, i128))
    ensures
        (d.0 as int, d.1 as int) == delta_spec(*a, f, delta),
        -0x4000_0000_0000_0000_0000_0000 <= d.0 <= 0x4000_0000_0000_0000_0000_0000,
        -0x4000_0000_0000_0000_0000_0000 <= d.1 <= 0x4000_0000_0000_0000_0000_0000,
{
    if a.mass == 0 {
        return (0, 0);
    }
    let one: i128 = ONE as i128;
    let m: i128 = a.mass as i128 * one;
    let t: i128 = delta as i128;
    let fx: i128 = f.x as i128;
    let fy: i128 = f.y as i128;
    assert(-0x4000_0000_0000_0000_0000_0000 <= t * fx <= 0x4000_0000_0000_0000_0000_0000
        && -0x4000_0000_0000_0000_0000_0000 <= t * fy <= 0x4000_0000_0000_0000_0000_0000)
        by (nonlinear_arith)
        requires
            -0x8000_0000 <= t <= 0x8000_0000,
            -0x8000_0000_0000_0000 <= fx <= 0x8000_0000_0000_0000,
            -0x8000_0000_0000_0000 <= fy <= 0x8000_0000_0000_0000,
    ;
    proof {
        lemma_trunc_div_bounds(t * fx, m as int);
        lemma_trunc_div_bounds(t * fy, m as int);
    }
    (div_trunc(t * fx, m), div_trunc(t * fy, m))
}

/// The squared magnitude of a force.
pub open spec fn magnitude2(f: Force) -> int {
    f.x * f.x + f.y * f.y
}

/// Newton's third law: the force of `b` on `a` is the opposite of the force
/// of `a` on `b`, so both have the same magnitude.
pub proof fn lemma_force_symmetry(a: Body, b: Body, g: Gravity)
    ensures
        force_spec(a, b, g).x == -force_spec(b, a, g).x,
        force_spec(a, b, g).y == -force_spec(b, a, g).y,
        magnitude2(force_spec(a, b, g)) == magnitude2(force_spec(b, a, g)),
{
    let r2 = a.center.dist2(b.center);
    assert(b.center.dist2(a.center) == r2) by (nonlinear_arith)
        requires
            r2 == (b.center.x - a.center.x) * (b.center.x - a.center.x) + (b.center.y
                - a.center.y) * (b.center.y - a.center.y),
            b.center.dist2(a.center) == (a.center.x - b.center.x) * (a.center.x - b.center.x) + (
            a.center.y - b.center.y) * (a.center.y - b.center.y),
    ;
    lemma_component_symmetry(g, a.mass as int, b.mass as int, b.center.x - a.center.x, r2);
    lemma_component_symmetry(g, a.mass as int, b.mass as int, b.center.y - a.center.y, r2);
    let f = force_spec(a, b, g);
    let h = force_spec(b, a, g);
    assert(f.x * f.x + f.y * f.y == h.x * h.x + h.y * h.y) by (nonlinear_arith)
        requires
            f.x == -h.x,
            f.y == -h.y,
    ;
}

/// Swapping the masses and reversing the separation negates a force
/// component.
pub proof fn lemma_component_symmetry(g: Gravity, m1: int, m2: int, d: int, r2: int)
    ensures
        force_component(g, m2, m1, -d, r2) == -force_component(g, m1, m2, d, r2),
{
    if r2 > 0 && g.den != 0 {
        let q = g.den * r2 * sqrt_floor(r2);
        lemma_sqrt_floor(r2);
        assert(q > 0) by (nonlinear_arith)
            requires
                q == g.den * r2 * sqrt_floor(r2),
                g.den > 0,
                r2 > 0,
                sqrt_floor(r2) > 0,
        ;
        assert(g.num * m2 * m1 * (-d) == -(g.num * m1 * m2 * d)) by (nonlinear_arith);
        lemma_trunc_div_bounds(g.num * m1 * m2 * d, q);
    }
}

/// Where a body at `position` is after moving with `velocity` for the time
/// `delta` (a fixed-point number) on a plane of the given positive width
/// and height that wraps around at its edges: each co-ordinate is taken
/// modulo the extent of its axis, however far the body has moved.
pub open spec fn advance_spec(
    position: Point,
    velocity: Point,
    delta: i32,
    width: i32,
    height: i32,
) -> Point {
    Point {
        x: wrap(position.x + trunc_div(delta * velocity.x, ONE as int), width as int) as i32,
        y: wrap(position.y + trunc_div(delta * velocity.y, ONE as int), height as int) as i32,
    }
}

/// Moves a body for the time `delta` on a plane that wraps around.
pub fn advance(position: Point, velocity: Point, delta: i32, width: i32, height: i32) -> (p: Point)
    requires
        width > 0,
        height > 0,
    ensures
        p == advance_spec(position, velocity, delta, width, height),
        0 <= p.x < width,
        0 <= p.y < height,
{
    let t: i128 = delta as i128;
    let vx: i128 = velocity.x as i128;
    let vy: i128 = velocity.y as i128;
    assert(-0x4000_0000_0000_0000 <= t * vx <= 0x4000_0000_0000_0000 && -0x4000_0000_0000_0000 <= t
        * vy <= 0x4000_0000_0000_0000) by (nonlinear_arith)
        requires
            -0x8000_0000 <= t <= 0x7fff_ffff,
            -0x8000_0000 <= vx <= 0x7fff_ffff,
            -0x8000_0000 <= vy <= 0x7fff_ffff,
    ;
    let one: i128 = ONE as i128;
    proof {
        lemma_trunc_div_bounds(t * vx, one as int);
        lemma_trunc_div_bounds(t * vy, one as int);
    }
    let x = position.x as i128 + div_trunc(t * vx, one);
    let y = position.y as i128 + div_trunc(t * vy, one);
    Point { x: wrap_into(x, width), y: wrap_into(y, height) }
}

/// The change of velocity that the bodies of `bodies` cause on `target`
/// over the time `delta`, the target itself, which is known by its id, left
/// out.
pub open spec fn seq_pull(bodies: Seq<Body>, target: Body, g: Gravity, delta: i32) -> (int, int)
    decreases bodies.len(),
{
    if bodies.len() == 0 {
        (0, 0)
    } else {
        let rest = seq_pull(bodies.drop_last(), target, g, delta);
        if bodies.last().id == target.id {
            rest
        } else {
            let one = pull_spec(target, bodies.last(), g, delta);
            (rest.0 + one.0, rest.1 + one.1)
        }
    }
}

/// The largest change of a velocity component that one body can cause.
pub open spec fn pull_limit() -> int {
    0x4000_0000_0000_0000_0000_0000
}

/// Sums up the change of velocity that the bodies of `bodies` cause on
/// `target` over the time `delta`, the target itself left out.
pub fn sum_pulls(bodies: &Vec<Body>, target: &Body, g: Gravity, delta: i32) -> (d: (i128, i128))
    requires
        bodies.len() <= u32::MAX,
    ensures
        (d.0 as int, d.1 as int) == seq_pull(bodies@, *target, g, delta),
        -(pull_limit() * bodies.len()) <= d.0 <= pull_limit() * bodies.len(),
        -(pull_limit() * bodies.len()) <= d.1 <= pull_limit() * bodies.len(),
{
    let ghost lim = pull_limit();
    let mut sum: (i128, i128) = (0, 0);
    let mut i: usize = 0;
    while i < bodies.len()
        invariant
            0 <= i <= bodies.len() <= u32::MAX,
            lim == pull_limit(),
            (sum.0 as int, sum.1 as int) == seq_pull(bodies@.take(i as int), *target, g, delta),
            -(lim * i) <= sum.0 <= lim * i,
            -(lim * i) <= sum.1 <= lim * i,
        decreases bodies.len() - i,
    {
        let b = bodies[i];
        proof {
            let next = bodies@.take(i + 1);
            assert(next.drop_last() =~= bodies@.take(i as int));
            assert(next.last() == b);
            assert(lim * (i + 1) == lim * i + lim && 0 <= lim * i && lim * (i + 1)
                <= 0x4000_0000_0000_0000_0000_0000 * 0xffff_ffff) by (nonlinear_arith)
                requires
                    0 <= i,
                    i + 1 <= 0xffff_ffff,
                    lim == 0x4000_0000_0000_0000_0000_0000,
            ;
        }
        if b.id != target.id {
            let f = pair_force(target, &b, g);
            let d = kick_delta(target, f, delta);
            sum = (sum.0 + d.0, sum.1 + d.1);
        }
        i += 1;
    }
    proof {
        assert(bodies@.take(i as int) =~= bodies@);
    }
    sum
}

} // verus!
