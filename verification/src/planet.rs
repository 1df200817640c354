use vstd::prelude::*;
use crate::geo::point::ONE;
use crate::geo::point::Point;
use crate::num::cbrt_floor;
use crate::num::clamp_i32;
use crate::num::icbrt;
use crate::num::lemma_cbrt_floor;
use crate::num::saturate;
use crate::quad::body::Body;
use crate::quad::body::Newtonian;
use crate::quad::gravity::advance;
use crate::quad::gravity::advance_spec;
use crate::random::fresh_id;
use crate::random::gen_range;

verus! {

/// The numerator of the fraction that stands for π.
pub const PI_NUM: u64 = 3_141_592_654;

/// The denominator of the fraction that stands for π.
pub const PI_DEN: u64 = 1_000_000_000;

/// The density of a randomly generated planet.
pub const PLANET_DENSITY: u32 = 5513;

/// The density of a planet that was placed by hand.
pub const PLACED_DENSITY: u32 = 5000;

/// The density of a sun.
pub const SUN_DENSITY: u32 = 6000;

/// The radius of a sun.
pub const SUN_RADIUS: i32 = 20_000;

/// The volume `4/3 * π * radius³` of a sphere, as a fixed-point number,
/// rounded down. A sphere without a positive radius has no volume.
pub open spec fn volume_spec(radius: int) -> int {
    if radius <= 0 {
        0
    } else {
        (4 * PI_NUM * (radius * radius * radius)) / (3 * PI_DEN * (ONE * ONE))
    }
}

/// The mass `density * volume` of a sphere, rounded down.
pub open spec fn raw_mass(density: int, radius: int) -> int {
    (density * volume_spec(radius)) / (ONE as int)
}

/// The mass of a sphere, saturated at the largest mass that a body can
/// have.
pub open spec fn mass_spec(density: int, radius: int) -> int {
    let mass = raw_mass(density, radius);
    if mass > u32::MAX {
        u32::MAX as int
    } else {
        mass
    }
}

/// The radius of the sphere that has the given mass at the given density:
/// the cube root of `volume / (4/3 * π)`, where `volume = mass / density`,
/// rounded down.
pub open spec fn radius_spec(mass: int, density: int) -> int {
    cbrt_floor((3 * mass * PI_DEN * (ONE * ONE * ONE)) / (4 * PI_NUM * density))
}

/// A full blown planet living inside our [`Universe`](crate::Universe).
#[derive(Copy, Clone, Debug, PartialEq, Eq, Structural)]
pub struct Planet {
    pub id: u128,
    /// Vector of the planet's current coordinates.
    pub pos: Point,
    /// Density D in kg/m³.
    pub density: u32,
    /// Radius r in m, as a fixed-point number.
    pub radius: i32,
    /// The vector at which the planet will travel on the next
    /// [`update`](Planet::update).
    pub velocity: Point,
    /// Marks the planet to be removed from the planets of the universe.
    pub dead: bool,
}

impl Planet {
    /// The planet with the given identity and parameters.
    pub fn with_id(id: u128, x: i32, y: i32, density: u32, radius: i32, velocity: Point) -> (p:
        Self)
        ensures
            p == (Planet { id, pos: Point { x, y }, density, radius, velocity, dead: false }),
    {
        Planet { id, density, radius, pos: Point { x, y }, velocity, dead: false }
    }

    /// Create a `Planet` with given parameters and a fresh identity.
    pub fn new(x: i32, y: i32, density: u32, radius: i32, velocity: Point) -> (p: Self)
        ensures
            p == (Planet { id: p.id, pos: Point { x, y }, density, radius, velocity, dead: false }),
    {
        Self::with_id(fresh_id(), x, y, density, radius, velocity)
    }

    /// A sun at the given position, but for its identity.
    pub open spec fn sun_at(p: Point) -> Planet {
        Planet {
            id: 0,
            pos: p,
            density: SUN_DENSITY,
            radius: SUN_RADIUS,
            velocity: Point { x: 0, y: 0 },
            dead: false,
        }
    }

    /// Create a sun at the given position: a heavy planet at rest.
    pub fn new_sun(x: i32, y: i32) -> (p: Self)
        ensures
            p == (Planet { id: p.id, ..Self::sun_at(Point { x, y }) }),
    {
        Self::new(x, y, SUN_DENSITY, SUN_RADIUS, Point::new(0, 0))
    }

    /// Create a `Planet` with randomly generated parameters: a radius from
    /// 5 up to 10, a position inside the given dimensions and a velocity
    /// from -0.2 up to 1.5 on each axis.
    pub fn new_rng(dimensions: (i32, i32)) -> (p: Self)
        requires
            dimensions.0 > 0,
            dimensions.1 > 0,
        ensures
            p.density == PLANET_DENSITY,
            5 * ONE <= p.radius < 10 * ONE,
            0 <= p.pos.x < dimensions.0,
            0 <= p.pos.y < dimensions.1,
            -200 <= p.velocity.x < 1500,
            -200 <= p.velocity.y < 1500,
            !p.dead,
    {
        let mut rng = rand::thread_rng();
        let radius = gen_range(&mut rng, 5 * ONE, 10 * ONE);
        let x = gen_range(&mut rng, 0, dimensions.0);
        let y = gen_range(&mut rng, 0, dimensions.1);
        let vx = gen_range(&mut rng, -200, 1500);
        let vy = gen_range(&mut rng, -200, 1500);
        Self::new(x, y, PLANET_DENSITY, radius, Point { x: vx, y: vy })
    }

    /// Create a `Planet` with randomly generated parameters at a specified
    /// position: a radius from 10 up to 12 and a velocity from -0.2 up to
    /// 1.5 on each axis.
    pub fn new_semi_rng(x: i32, y: i32) -> (p: Self)
        ensures
            p.density == PLACED_DENSITY,
            10 * ONE <= p.radius < 12 * ONE,
            p.pos == (Point { x, y }),
            -200 <= p.velocity.x < 1500,
            -200 <= p.velocity.y < 1500,
            !p.dead,
    {
        let mut rng = rand::thread_rng();
        let radius = gen_range(&mut rng, 10 * ONE, 12 * ONE);
        let vx = gen_range(&mut rng, -200, 1500);
        let vy = gen_range(&mut rng, -200, 1500);
        Self::new(x, y, PLACED_DENSITY, radius, Point { x: vx, y: vy })
    }

    /// Update the planet's position by adding its velocity to its current position.
    /// If it moves out of the universe's dimensions, it's inserted back in on the other side.
    pub fn update(&mut self, dimensions: (i32, i32))
        requires
            dimensions.0 > 0,
            dimensions.1 > 0,
        ensures
            *final(self) == (Planet {
                pos: advance_spec(
                    old(self).pos,
                    old(self).velocity,
                    ONE,
                    dimensions.0,
                    dimensions.1,
                ),
                ..*old(self)
            }),
            0 <= final(self).pos.x < dimensions.0,
            0 <= final(self).pos.y < dimensions.1,
    {
        self.integrate(dimensions, ONE);
    }

    /// Move the planet with its velocity for the time `delta` (a fixed-point
    /// number) inside dimensions that wrap around at their edges.
    pub fn integrate(&mut self, dimensions: (i32, i32), delta: i32)
        requires
            dimensions.0 > 0,
            dimensions.1 > 0,
        ensures
            *final(self) == (Planet {
                pos: advance_spec(
                    old(self).pos,
                    old(self).velocity,
                    delta,
                    dimensions.0,
                    dimensions.1,
                ),
                ..*old(self)
            }),
            0 <= final(self).pos.x < dimensions.0,
            0 <= final(self).pos.y < dimensions.1,
    {
        self.pos = advance(self.pos, self.velocity, delta, dimensions.0, dimensions.1);
    }

    /// The planet after it has eaten a planet of the given mass and
    /// density: its radius is that of a sphere with the mass of both at the
    /// mean of the two densities. Where that mean is zero the radius stays.
    pub open spec fn eat_spec(self, mass: int, density: int) -> Planet {
        let d = (self.density + density) / 2;
        if d == 0 {
            self
        } else {
            Planet { radius: radius_spec(self.mass_spec() + mass, d) as i32, ..self }
        }
    }

    /// Add two masses together, calculate the new volume and derive a new radius.
    /// V = m/D
    /// V = 4 / 3 * π * radius³
    /// r³ = V / (4 / 3 * π)
    ///
    /// The planet that was eaten is dead afterwards.
    pub fn eat(&mut self, other_p: &mut Planet)
        ensures
            *final(self) == old(self).eat_spec(
                old(other_p).mass_spec(),
                old(other_p).density as int,
            ),
            *final(other_p) == (Planet { dead: true, ..*old(other_p) }),
    {
        let m: u128 = self.mass() as u128 + other_p.mass() as u128;
        let d: u128 = (self.density as u128 + other_p.density as u128) / 2;
        other_p.die();
        if d == 0 {
            return ;
        }
        let one: u128 = ONE as u128;
        let pi_num: u128 = PI_NUM as u128;
        let pi_den: u128 = PI_DEN as u128;
        assert(3 * m * pi_den * (one * one * one) <= 3 * 0x2_0000_0000 * 1_000_000_000
            * 1_000_000_000 && 0 < 4 * pi_num * d <= 4 * 3_141_592_654 * 0xffff_ffff)
            by (nonlinear_arith)
            requires
                0 <= m <= 0x2_0000_0000,
                pi_den == 1_000_000_000,
                pi_num == 3_141_592_654,
                one == 1000,
                0 < d <= 0xffff_ffff,
        ;
        let num: u128 = 3 * m * pi_den * (one * one * one);
        let den: u128 = 4 * pi_num * d;
        proof {
            vstd::arithmetic::div_mod::lemma_div_is_ordered_by_denominator(
                num as int,
                12_566_370_616int,
                den as int,
            );
            vstd::arithmetic::div_mod::lemma_div_is_ordered(
                num as int,
                3int * 0x2_0000_0000 * 1_000_000_000 * 1_000_000_000,
                12_566_370_616int,
            );
        }
        let r = icbrt((num / den) as u64);
        self.radius = r as i32;
    }

    /// Add a given acceleration to the planet's velocity. The acceleration vector
    /// should represent the single net force to be applied each tick. The
    /// velocity saturates at the limits of a co-ordinate.
    pub fn accelerate(&mut self, acc: Point)
        ensures
            *final(self) == (Planet {
                velocity: Point {
                    x: saturate(old(self).velocity.x + acc.x) as i32,
                    y: saturate(old(self).velocity.y + acc.y) as i32,
                },
                ..*old(self)
            }),
    {
        self.velocity = Point {
            x: clamp_i32(self.velocity.x as i128 + acc.x as i128),
            y: clamp_i32(self.velocity.y as i128 + acc.y as i128),
        };
    }

    pub fn pos(&self) -> (p: Point)
        ensures
            p == self.pos,
    {
        self.pos
    }

    pub fn dead(&self) -> (d: bool)
        ensures
            d == self.dead,
    {
        self.dead
    }

    pub fn die(&mut self)
        ensures
            *final(self) == (Planet { dead: true, ..*old(self) }),
    {
        self.dead = true;
    }

    pub fn radius(&self) -> (r: i32)
        ensures
            r == self.radius,
    {
        self.radius
    }

    /// The mass of the planet.
    pub open spec fn mass_spec(self) -> int {
        mass_spec(self.density as int, self.radius as int)
    }

    pub fn mass(&self) -> (m: u32)
        ensures
            m == self.mass_spec(),
    {
        let v = self.volume();
        assert(self.density * v <= 0xffff_ffff * 0xffff_ffff_ffff_ffff_ffff) by (nonlinear_arith)
            requires
                0 <= self.density <= 0xffff_ffff,
                0 <= v <= 0xffff_ffff_ffff_ffff_ffff,
        ;
        let m: u128 = (self.density as u128 * v) / (ONE as u128);
        if m > 0xffff_ffff {
            u32::MAX
        } else {
            m as u32
        }
    }

    pub fn density(&self) -> (d: u32)
        ensures
            d == self.density,
    {
        self.density
    }

    pub fn velocity(&self) -> (v: Point)
        ensures
            v == self.velocity,
    {
        self.velocity
    }

    /// The volume of the planet, as a fixed-point number.
    pub fn volume(&self) -> (v: u128)
        ensures
            v == volume_spec(self.radius as int),
            v <= 0xffff_ffff_ffff_ffff_ffff,
    {
        if self.radius <= 0 {
            return 0;
        }
        let r: u128 = self.radius as u128;
        assert(r * r <= 0x8000_0000 * 0x8000_0000 && r * r * r <= 0x8000_0000 * 0x8000_0000
            * 0x8000_0000) by (nonlinear_arith)
            requires
                0 <= r <= 0x8000_0000,
        ;
        let one: u128 = ONE as u128;
        let pi_num: u128 = PI_NUM as u128;
        let pi_den: u128 = PI_DEN as u128;
        assert(4 * pi_num * (r * r * r) <= 4 * 3_141_592_654 * (0x8000_0000 * 0x8000_0000
            * 0x8000_0000)) by (nonlinear_arith)
            requires
                pi_num == 3_141_592_654,
                0 <= r * r * r <= 0x8000_0000 * 0x8000_0000 * 0x8000_0000,
        ;
        let num: u128 = 4 * pi_num * (r * r * r);
        let den: u128 = 3 * pi_den * (one * one);
        proof {
            vstd::arithmetic::div_mod::lemma_div_is_ordered(
                num as int,
                12_566_370_616int * (0x8000_0000int * 0x8000_0000 * 0x8000_0000),
                3_000_000_000_000_000int,
            );
        }
        num / den
    }
}

impl Newtonian for Planet {
    /// Density, radius and whether the planet is dead.
    type Rest = (u32, i32, bool);

    open spec fn as_body(&self) -> Body {
        Body { id: self.id, center: self.pos, mass: self.mass_spec() as u32, velocity: self.velocity }
    }

    open spec fn rest(&self) -> (u32, i32, bool) {
        (self.density, self.radius, self.dead)
    }

    fn id(&self) -> (id: u128) {
        self.id
    }

    fn mass(&self) -> (mass: u32) {
        Planet::mass(self)
    }

    fn position(&self) -> (position: Point) {
        self.pos
    }

    fn velocity(&self) -> (velocity: Point) {
        self.velocity
    }

    fn set_position(&mut self, new_position: Point)
        ensures
            *final(self) == (Planet { pos: new_position, ..*old(self) }),
    {
        self.pos = new_position;
    }

    fn set_velocity(&mut self, new_velocity: Point)
        ensures
            *final(self) == (Planet { velocity: new_velocity, ..*old(self) }),
    {
        self.velocity = new_velocity;
    }
}

/// A planet is what the tree reads of it together with the rest: two
/// planets that agree in both are the same.
pub proof fn lemma_planet_is_body_and_rest(p: Planet, q: Planet)
    requires
        p.as_body() == q.as_body(),
        p.rest() == q.rest(),
    ensures
        p == q,
{
}

/// A merge keeps the mass, as far as a radius in whole steps can hold it:
/// the sphere of the radius that `radius_spec` gives for a mass at a
/// positive density is no heavier than that mass, and the sphere whose
/// radius is one step longer would be heavier, but for what rounding the
/// volume and the mass down takes away.
pub proof fn lemma_radius_holds_mass(mass: int, density: int)
    requires
        0 <= mass <= 2 * u32::MAX,
        0 < density <= u32::MAX,
    ensures
        0 <= radius_spec(mass, density) < 0x40_0000,
        raw_mass(density, radius_spec(mass, density)) <= mass,
        mass <= raw_mass(density, radius_spec(mass, density) + 1) + density / (ONE as int) + 1,
{
    let a: int = 12_566_370_616;
    let b: int = 3_000_000_000_000_000;
    let one: int = 1000;
    let n = 3 * mass * PI_DEN * (ONE * ONE * ONE);
    let q = 4 * PI_NUM * density;
    assert(n == b * one * mass && q == a * density && q > 0 && n >= 0) by (nonlinear_arith)
        requires
            n == 3 * mass * 1_000_000_000 * (1000 * 1000 * 1000),
            q == 4 * 3_141_592_654 * density,
            a == 12_566_370_616,
            b == 3_000_000_000_000_000,
            one == 1000,
            mass >= 0,
            density > 0,
    ;
    let x = n / q;
    vstd::arithmetic::div_mod::lemma_fundamental_div_mod(n, q);
    vstd::arithmetic::div_mod::lemma_mod_bound(n, q);
    vstd::arithmetic::div_mod::lemma_div_pos_is_pos(n, q);
    assert(q * x <= n < q * (x + 1)) by (nonlinear_arith)
        requires
            n == q * x + n % q,
            0 <= n % q < q,
    ;
    lemma_cbrt_floor(x);
    let r = radius_spec(mass, density);
    assert(r == cbrt_floor(x));
    let r3 = r * r * r;
    let s3 = (r + 1) * (r + 1) * (r + 1);
    assert(0 <= r3 <= x < s3);
    // The radius is small.
    assert(r < 0x40_0000) by {
        if r >= 0x40_0000 {
            crate::num::lemma_cube_monotonic(0x3f_ffff, r);
            assert(x <= n) by (nonlinear_arith)
                requires
                    q * x <= n,
                    q >= 1,
                    x >= 0,
            ;
            assert(n <= 3 * (2 * 0xffff_ffff) * 1_000_000_000 * 1_000_000_000) by (nonlinear_arith)
                requires
                    n == b * one * mass,
                    b == 3_000_000_000_000_000,
                    one == 1000,
                    0 <= mass <= 2 * 0xffff_ffff,
            ;
            assert(x * a <= n) by (nonlinear_arith)
                requires
                    q * x <= n,
                    q == a * density,
                    density >= 1,
                    x >= 0,
                    a >= 0,
            ;
            assert(false) by (nonlinear_arith)
                requires
                    x >= 0x40_0000 * 0x40_0000 * 0x40_0000,
                    x * a <= n,
                    a == 12_566_370_616,
                    n <= 3 * (2 * 0xffff_ffff) * 1_000_000_000 * 1_000_000_000,
            ;
        }
    }
    // No heavier than the mass.
    let v = volume_spec(r);
    assert(v * b <= a * r3 && v >= 0) by {
        if r > 0 {
            vstd::arithmetic::div_mod::lemma_fundamental_div_mod(a * r3, b);
            vstd::arithmetic::div_mod::lemma_mod_bound(a * r3, b);
            assert(a * r3 >= 0) by (nonlinear_arith)
                requires
                    a >= 0,
                    r3 >= 0,
            ;
            vstd::arithmetic::div_mod::lemma_div_pos_is_pos(a * r3, b);
            assert(v == (a * r3) / b);
            assert(v * b <= a * r3) by (nonlinear_arith)
                requires
                    a * r3 == b * v + (a * r3) % b,
                    0 <= (a * r3) % b,
            ;
        } else {
            assert(a * r3 >= 0) by (nonlinear_arith)
                requires
                    a >= 0,
                    r3 >= 0,
            ;
        }
    }
    assert(density * v <= one * mass) by (nonlinear_arith)
        requires
            v * b <= a * r3,
            r3 <= x,
            q * x <= n,
            q == a * density,
            n == b * one * mass,
            b > 0,
            a > 0,
            density > 0,
            v >= 0,
            x >= 0,
            r3 >= 0,
    ;
    vstd::arithmetic::div_mod::lemma_div_is_ordered(density * v, one * mass, one);
    vstd::arithmetic::div_mod::lemma_div_multiples_vanish(mass, one);
    assert(one * mass == mass * one) by (nonlinear_arith);
    assert(raw_mass(density, r) <= mass);
    // One step longer would be heavier.
    let w = volume_spec(r + 1);
    assert(a * s3 >= 0) by (nonlinear_arith)
        requires
            a >= 0,
            s3 >= 0,
    ;
    vstd::arithmetic::div_mod::lemma_fundamental_div_mod(a * s3, b);
    vstd::arithmetic::div_mod::lemma_mod_bound(a * s3, b);
    assert(w == (a * s3) / b);
    assert(a * s3 < (w + 1) * b) by (nonlinear_arith)
        requires
            a * s3 == b * w + (a * s3) % b,
            (a * s3) % b < b,
    ;
    assert(one * mass < density * w + density) by (nonlinear_arith)
        requires
            a * s3 < (w + 1) * b,
            x + 1 <= s3,
            n < q * (x + 1),
            q == a * density,
            n == b * one * mass,
            b > 0,
            a > 0,
            density > 0,
    ;
    let dw = density * w;
    assert(dw >= 0) by (nonlinear_arith)
        requires
            dw == density * w,
            density > 0,
            a * s3 < (w + 1) * b,
            a * s3 >= 0,
            b > 0,
    ;
    vstd::arithmetic::div_mod::lemma_fundamental_div_mod(dw, one);
    vstd::arithmetic::div_mod::lemma_mod_bound(dw, one);
    vstd::arithmetic::div_mod::lemma_fundamental_div_mod(density, one);
    vstd::arithmetic::div_mod::lemma_mod_bound(density, one);
    let k = dw / one;
    let e = density / one;
    assert(mass <= k + e + 1) by (nonlinear_arith)
        requires
            one * mass < dw + density,
            dw == one * k + dw % one,
            dw % one < one,
            density == one * e + density % one,
            density % one < one,
            one == 1000,
    ;
    assert(raw_mass(density, r + 1) == k);
}

/// A planet that eats another of its own density keeps the mass of both, as
/// far as a radius in whole steps can hold it: it is no heavier afterwards
/// than the two were together, and with a radius one step longer it would
/// be heavier, but for what rounding down takes away.
pub proof fn lemma_eat_keeps_mass(a: Planet, b: Planet)
    requires
        a.density == b.density,
        a.density > 0,
    ensures
        a.eat_spec(b.mass_spec(), b.density as int).mass_spec() <= a.mass_spec() + b.mass_spec(),
        a.mass_spec() + b.mass_spec() <= raw_mass(
            a.density as int,
            a.eat_spec(b.mass_spec(), b.density as int).radius + 1,
        ) + (a.density as int) / (ONE as int) + 1,
        a.eat_spec(b.mass_spec(), b.density as int).density == a.density,
        !a.dead ==> !a.eat_spec(b.mass_spec(), b.density as int).dead,
{
    let m = a.mass_spec() + b.mass_spec();
    let d = (a.density + b.density) / 2;
    assert(d == a.density);
    lemma_mass_nonnegative(a.density as int, a.radius as int);
    lemma_mass_nonnegative(b.density as int, b.radius as int);
    lemma_radius_holds_mass(m, d);
}

/// A mass is not negative.
pub proof fn lemma_mass_nonnegative(density: int, radius: int)
    requires
        density >= 0,
    ensures
        0 <= mass_spec(density, radius) <= u32::MAX,
        0 <= volume_spec(radius),
{
    let v = volume_spec(radius);
    if radius > 0 {
        let r3 = radius * radius * radius;
        assert(r3 >= 0) by (nonlinear_arith)
            requires
                r3 == radius * radius * radius,
                radius > 0,
        ;
        let a: int = 12_566_370_616;
        let b: int = 3_000_000_000_000_000;
        assert(a * r3 >= 0) by (nonlinear_arith)
            requires
                a >= 0,
                r3 >= 0,
        ;
        vstd::arithmetic::div_mod::lemma_div_pos_is_pos(a * r3, b);
        assert(3 * PI_DEN * (ONE * ONE) == b && 4 * PI_NUM * r3 == a * r3) by (nonlinear_arith)
            requires
                PI_NUM == 3_141_592_654,
                PI_DEN == 1_000_000_000,
                ONE == 1000,
                a == 12_566_370_616,
                b == 3_000_000_000_000_000,
        ;
        assert(v == (a * r3) / b);
    }
    assert(density * v >= 0) by (nonlinear_arith)
        requires
            density >= 0,
            v >= 0,
    ;
    vstd::arithmetic::div_mod::lemma_div_pos_is_pos(density * v, ONE as int);
}

} // verus!
