use vstd::prelude::*;
use vstd::std_specs::ops::AddSpecImpl;
use vstd::std_specs::ops::DivSpecImpl;
use vstd::std_specs::ops::MulSpecImpl;
use vstd::std_specs::ops::SubSpecImpl;
use crate::num::div_signed;
use crate::num::div_trunc;
use crate::num::is_sqrt;
use crate::num::isqrt;
use crate::num::lemma_square_monotonic;
use crate::num::lemma_trunc_div_bounds;
use crate::num::lemma_trunc_div_monotonic;
use crate::num::quotient;
use crate::num::sqrt_floor;
use crate::num::trunc_div;

verus! {

/// The fixed-point representation of the number one: a coordinate `c` stands
/// for the real number `c / ONE`.
pub const ONE: i32 = 1000;

/// Whether `v` can be stored in a coordinate.
pub open spec fn fits(v: int) -> bool {
    i32::MIN <= v <= i32::MAX
}

/// A vector into 2-dimensional space, in fixed-point coordinates.
#[derive(Copy, Clone, Debug, PartialEq, Eq, Structural)]
pub struct Point {
    pub x: i32,
    pub y: i32,
}

impl Point {
    pub fn new(x: i32, y: i32) -> (p: Self)
        ensures
            p == (Point { x, y }),
    {
        Point { x, y }
    }

    /// The squared length of the vector.
    pub open spec fn mag2(self) -> int {
        self.x * self.x + self.y * self.y
    }

    /// The length of the vector, rounded down to a whole coordinate step.
    pub open spec fn mag_spec(self) -> int {
        sqrt_floor(self.mag2())
    }

    /// The squared distance between two points.
    pub open spec fn dist2(self, other: Point) -> int {
        (other.x - self.x) * (other.x - self.x) + (other.y - self.y) * (other.y - self.y)
    }

    /// The vector scaled to length `ONE`; the zero vector has no direction
    /// and is left as it is.
    pub open spec fn norm_spec(self) -> Point {
        if self.mag_spec() == 0 {
            self
        } else {
            Point {
                x: trunc_div(self.x * ONE, self.mag_spec()) as i32,
                y: trunc_div(self.y * ONE, self.mag_spec()) as i32,
            }
        }
    }

    /// Return the magnitude of the vector.
    pub fn mag(&self) -> (m: i64)
        ensures
            m == self.mag_spec(),
            is_sqrt(self.mag2(), m as int),
            m >= self.x,
            m >= -self.x,
            m >= self.y,
            m >= -self.y,
    {
        let x: i128 = self.x as i128;
        let y: i128 = self.y as i128;
        assert(0 <= x * x <= 0x4000_0000_0000_0000 && 0 <= y * y <= 0x4000_0000_0000_0000)
            by (nonlinear_arith)
            requires
                -0x8000_0000 <= x <= 0x7fff_ffff,
                -0x8000_0000 <= y <= 0x7fff_ffff,
        ;
        let m = isqrt((x * x + y * y) as u128);
        proof {
            lemma_root_dominates(x as int, y as int, m as int);
            lemma_root_dominates(y as int, x as int, m as int);
            if m >= 0x1_0000_0000 {
                lemma_square_monotonic(0xffff_ffff, m as int);
            }
        }
        m as i64
    }

    /// Return the normalised vector.
    pub fn norm(&self) -> (r: Self)
        ensures
            r == self.norm_spec(),
            -ONE <= r.x <= ONE,
            -ONE <= r.y <= ONE,
    {
        let m = self.mag();
        if m == 0 {
            return *self;
        }
        let x = div_trunc(self.x as i128 * ONE as i128, m as i128);
        let y = div_trunc(self.y as i128 * ONE as i128, m as i128);
        proof {
            lemma_unit_component(self.x as int, m as int);
            lemma_unit_component(self.y as int, m as int);
        }
        Point { x: x as i32, y: y as i32 }
    }

    /// Calculate the distance to another point, rounded down to a whole
    /// coordinate step.
    pub fn distance_to(&self, other_p: Point) -> (d: i64)
        ensures
            d == sqrt_floor(self.dist2(other_p)),
            is_sqrt(self.dist2(other_p), d as int),
    {
        let dx: i128 = other_p.x as i128 - self.x as i128;
        let dy: i128 = other_p.y as i128 - self.y as i128;
        assert(0 <= dx * dx <= 0x1_0000_0000_0000_0000 && 0 <= dy * dy <= 0x1_0000_0000_0000_0000)
            by (nonlinear_arith)
            requires
                -0x1_0000_0000 <= dx <= 0x1_0000_0000,
                -0x1_0000_0000 <= dy <= 0x1_0000_0000,
        ;
        let d = isqrt((dx * dx + dy * dy) as u128);
        proof {
            if d >= 0x2_0000_0000 {
                lemma_square_monotonic(0x1_ffff_ffff, d as int);
            }
        }
        d as i64
    }
}

/// The rounded-down root of `a * a + b * b` is at least `|a|`.
pub proof fn lemma_root_dominates(a: int, b: int, r: int)
    requires
        is_sqrt(a * a + b * b, r),
    ensures
        r >= a,
        r >= -a,
{
    assert(b * b >= 0) by (nonlinear_arith);
    if r < a {
        lemma_square_monotonic(r, a);
    }
    if r < -a {
        lemma_square_monotonic(r, -a);
        assert((-a) * (-a) == a * a) by (nonlinear_arith);
    }
}

/// A component scaled by `ONE` and divided by a length that dominates it
/// stays within `[-ONE, ONE]`.
pub proof fn lemma_unit_component(c: int, m: int)
    requires
        m > 0,
        -m <= c <= m,
    ensures
        -ONE <= trunc_div(c * ONE, m) <= ONE,
{
    assert(trunc_div(ONE * m, m) == ONE) by {
        vstd::arithmetic::div_mod::lemma_div_multiples_vanish(ONE as int, m);
        assert(ONE * m >= 0) by (nonlinear_arith)
            requires
                m > 0,
        ;
    }
    assert(c * ONE <= ONE * m && -(ONE * m) <= c * ONE) by (nonlinear_arith)
        requires
            -m <= c <= m,
    ;
    lemma_trunc_div_monotonic(c * ONE, ONE * m, m);
    lemma_trunc_div_monotonic(-(ONE * m), c * ONE, m);
    lemma_trunc_div_bounds(ONE * m, m);
}

impl core::ops::Add for Point {
    type Output = Point;

    fn add(self, other: Point) -> (r: Point) {
        Point { x: self.x + other.x, y: self.y + other.y }
    }
}

impl AddSpecImpl for Point {
    open spec fn obeys_add_spec() -> bool {
        true
    }

    open spec fn add_req(self, other: Point) -> bool {
        fits(self.x + other.x) && fits(self.y + other.y)
    }

    open spec fn add_spec(self, other: Point) -> Point {
        Point { x: (self.x + other.x) as i32, y: (self.y + other.y) as i32 }
    }
}

impl core::ops::Sub for Point {
    type Output = Point;

    fn sub(self, other: Point) -> (r: Point) {
        Point { x: self.x - other.x, y: self.y - other.y }
    }
}

impl SubSpecImpl for Point {
    open spec fn obeys_sub_spec() -> bool {
        true
    }

    open spec fn sub_req(self, other: Point) -> bool {
        fits(self.x - other.x) && fits(self.y - other.y)
    }

    open spec fn sub_spec(self, other: Point) -> Point {
        Point { x: (self.x - other.x) as i32, y: (self.y - other.y) as i32 }
    }
}

/// Scaling by a fixed-point factor: `scalar` stands for `scalar / ONE`.
impl core::ops::Mul<i32> for Point {
    type Output = Point;

    fn mul(self, scalar: i32) -> (r: Point) {
        let x = div_trunc(self.x as i128 * scalar as i128, ONE as i128);
        let y = div_trunc(self.y as i128 * scalar as i128, ONE as i128);
        Point { x: x as i32, y: y as i32 }
    }
}

impl MulSpecImpl<i32> for Point {
    open spec fn obeys_mul_spec() -> bool {
        true
    }

    open spec fn mul_req(self, scalar: i32) -> bool {
        fits(trunc_div(self.x * scalar, ONE as int)) && fits(trunc_div(self.y * scalar, ONE as int))
    }

    open spec fn mul_spec(self, scalar: i32) -> Point {
        Point {
            x: trunc_div(self.x * scalar, ONE as int) as i32,
            y: trunc_div(self.y * scalar, ONE as int) as i32,
        }
    }
}

/// Scaling by a whole number.
impl core::ops::Mul<usize> for Point {
    type Output = Point;

    fn mul(self, scalar: usize) -> (r: Point) {
        let x = self.x as i128 * scalar as i128;
        let y = self.y as i128 * scalar as i128;
        Point { x: x as i32, y: y as i32 }
    }
}

impl MulSpecImpl<usize> for Point {
    open spec fn obeys_mul_spec() -> bool {
        true
    }

    open spec fn mul_req(self, scalar: usize) -> bool {
        fits(self.x * scalar) && fits(self.y * scalar)
    }

    open spec fn mul_spec(self, scalar: usize) -> Point {
        Point { x: (self.x * scalar) as i32, y: (self.y * scalar) as i32 }
    }
}

/// Division by a fixed-point number other than zero: `scalar` stands for
/// `scalar / ONE`.
impl core::ops::Div<i32> for Point {
    type Output = Point;

    fn div(self, scalar: i32) -> (r: Point) {
        let x = div_signed(self.x as i128 * ONE as i128, scalar as i128);
        let y = div_signed(self.y as i128 * ONE as i128, scalar as i128);
        Point { x: x as i32, y: y as i32 }
    }
}

impl DivSpecImpl<i32> for Point {
    open spec fn obeys_div_spec() -> bool {
        true
    }

    open spec fn div_req(self, scalar: i32) -> bool {
        &&& scalar != 0
        &&& fits(quotient(self.x * ONE, scalar as int))
        &&& fits(quotient(self.y * ONE, scalar as int))
    }

    open spec fn div_spec(self, scalar: i32) -> Point {
        Point {
            x: quotient(self.x * ONE, scalar as int) as i32,
            y: quotient(self.y * ONE, scalar as int) as i32,
        }
    }
}

/// Division by a positive whole number.
impl core::ops::Div<usize> for Point {
    type Output = Point;

    fn div(self, scalar: usize) -> (r: Point) {
        proof {
            lemma_trunc_div_bounds(self.x as int, scalar as int);
            lemma_trunc_div_bounds(self.y as int, scalar as int);
        }
        let x = div_trunc(self.x as i128, scalar as i128);
        let y = div_trunc(self.y as i128, scalar as i128);
        Point { x: x as i32, y: y as i32 }
    }
}

impl DivSpecImpl<usize> for Point {
    open spec fn obeys_div_spec() -> bool {
        true
    }

    open spec fn div_req(self, scalar: usize) -> bool {
        scalar > 0
    }

    open spec fn div_spec(self, scalar: usize) -> Point {
        Point {
            x: trunc_div(self.x as int, scalar as int) as i32,
            y: trunc_div(self.y as int, scalar as int) as i32,
        }
    }
}

} // verus!
