//! Whole-number arithmetic shared by the geometry and the physics: integer
//! roots, Euclidean remainders and saturation.
use vstd::prelude::*;

verus! {

/// `r` is the square root of `n`, rounded down.
pub open spec fn is_sqrt(n: int, r: int) -> bool {
    &&& 0 <= r
    &&& r * r <= n
    &&& n < (r + 1) * (r + 1)
}

/// The square root of `n`, rounded down (0 for a negative `n`).
pub open spec fn sqrt_floor(n: int) -> int {
    if n < 0 {
        0
    } else {
        choose|r: int| is_sqrt(n, r)
    }
}

/// Squaring is strictly monotonic on the natural numbers.
pub proof fn lemma_square_monotonic(a: int, b: int)
    requires
        0 <= a < b,
    ensures
        (a + 1) * (a + 1) <= b * b,
{
    assert((a + 1) * (a + 1) <= b * b) by (nonlinear_arith)
        requires
            0 <= a,
            a + 1 <= b,
    ;
}

/// A number has at most one rounded-down square root, so any witness is
/// `sqrt_floor`.
pub proof fn lemma_sqrt_unique(n: int, r: int)
    requires
        is_sqrt(n, r),
    ensures
        sqrt_floor(n) == r,
{
    assert(0 <= r * r) by (nonlinear_arith);
    let s = sqrt_floor(n);
    assert(is_sqrt(n, s));
    if s < r {
        lemma_square_monotonic(s, r);
    } else if r < s {
        lemma_square_monotonic(r, s);
    }
}

/// Every natural number has a rounded-down square root.
pub proof fn lemma_sqrt_floor(n: int)
    requires
        n >= 0,
    ensures
        is_sqrt(n, sqrt_floor(n)),
        n > 0 ==> sqrt_floor(n) > 0,
    decreases n,
{
    if n == 0 {
        assert(is_sqrt(0, 0));
    } else {
        lemma_sqrt_floor(n - 1);
        let r = sqrt_floor(n - 1);
        if (r + 1) * (r + 1) <= n {
            assert(n < (r + 2) * (r + 2)) by (nonlinear_arith)
                requires
                    n - 1 < (r + 1) * (r + 1),
                    r >= 0,
            ;
            assert(is_sqrt(n, r + 1));
        } else {
            assert(is_sqrt(n, r));
        }
    }
    let s = sqrt_floor(n);
    assert(is_sqrt(n, s));
    if s == 0 {
        assert((s + 1) * (s + 1) == 1) by (nonlinear_arith)
            requires
                s == 0,
        ;
    }
}

/// The square root of `n`, rounded down.
pub fn isqrt(n: u128) -> (r: u64)
    ensures
        is_sqrt(n as int, r as int),
        r == sqrt_floor(n as int),
{
    let mut lo: u128 = 0;
    let mut hi: u128 = 0x1_0000_0000_0000_0000;
    assert(0x1_0000_0000_0000_0000int * 0x1_0000_0000_0000_0000int > u128::MAX) by (nonlinear_arith);
    while hi - lo > 1
        invariant
            lo < hi <= 0x1_0000_0000_0000_0000,
            lo * lo <= n,
            n < hi * hi,
        decreases hi - lo,
    {
        let mid: u128 = lo + (hi - lo) / 2;
        assert(mid * mid <= u128::MAX) by (nonlinear_arith)
            requires
                0 <= mid < 0x1_0000_0000_0000_0000,
        ;
        if mid * mid <= n {
            lo = mid;
        } else {
            hi = mid;
        }
    }
    proof {
        lemma_sqrt_unique(n as int, lo as int);
    }
    lo as u64
}

/// `r` is the cube root of `n`, rounded down.
pub open spec fn is_cbrt(n: int, r: int) -> bool {
    &&& 0 <= r
    &&& r * r * r <= n
    &&& n < (r + 1) * (r + 1) * (r + 1)
}

/// The cube root of `n`, rounded down (0 for a negative `n`).
pub open spec fn cbrt_floor(n: int) -> int {
    if n < 0 {
        0
    } else {
        choose|r: int| is_cbrt(n, r)
    }
}

/// Cubing is strictly monotonic on the natural numbers.
pub proof fn lemma_cube_monotonic(a: int, b: int)
    requires
        0 <= a < b,
    ensures
        (a + 1) * (a + 1) * (a + 1) <= b * b * b,
{
    lemma_square_monotonic(a, b);
    assert((a + 1) * (a + 1) * (a + 1) <= b * b * b) by (nonlinear_arith)
        requires
            0 <= a,
            a + 1 <= b,
            (a + 1) * (a + 1) <= b * b,
    ;
}

/// A number has at most one rounded-down cube root, so any witness is
/// `cbrt_floor`.
pub proof fn lemma_cbrt_unique(n: int, r: int)
    requires
        is_cbrt(n, r),
    ensures
        cbrt_floor(n) == r,
{
    assert(0 <= r * r * r) by (nonlinear_arith)
        requires
            0 <= r,
    ;
    let s = cbrt_floor(n);
    assert(is_cbrt(n, s));
    if s < r {
        lemma_cube_monotonic(s, r);
    } else if r < s {
        lemma_cube_monotonic(r, s);
    }
}

/// Every natural number has a rounded-down cube root.
pub proof fn lemma_cbrt_floor(n: int)
    requires
        n >= 0,
    ensures
        is_cbrt(n, cbrt_floor(n)),
    decreases n,
{
    if n == 0 {
        assert(is_cbrt(0, 0));
    } else {
        lemma_cbrt_floor(n - 1);
        let r = cbrt_floor(n - 1);
        if (r + 1) * (r + 1) * (r + 1) <= n {
            assert(n < (r + 2) * (r + 2) * (r + 2)) by (nonlinear_arith)
                requires
                    n - 1 < (r + 1) * (r + 1) * (r + 1),
                    r >= 0,
            ;
            assert(is_cbrt(n, r + 1));
        } else {
            assert(is_cbrt(n, r));
        }
    }
    let s = cbrt_floor(n);
    assert(is_cbrt(n, s));
}

/// The cube root of `n`, rounded down.
pub fn icbrt(n: u64) -> (r: u32)
    ensures
        is_cbrt(n as int, r as int),
        r == cbrt_floor(n as int),
        r < 0x40_0000,
{
    let mut lo: u128 = 0;
    let mut hi: u128 = 0x40_0000;
    assert(0x40_0000int * 0x40_0000int * 0x40_0000int > u64::MAX) by (nonlinear_arith);
    while hi - lo > 1
        invariant
            lo < hi <= 0x40_0000,
            lo * lo * lo <= n,
            n < hi * hi * hi,
        decreases hi - lo,
    {
        let mid: u128 = lo + (hi - lo) / 2;
        assert(mid * mid <= 0x40_0000int * 0x40_0000int && mid * mid * mid <= u128::MAX)
            by (nonlinear_arith)
            requires
                0 <= mid < 0x40_0000,
        ;
        if mid * mid * mid <= n as u128 {
            lo = mid;
        } else {
            hi = mid;
        }
    }
    proof {
        lemma_cbrt_unique(n as int, lo as int);
    }
    lo as u32
}

/// The quotient of `a` by a non-zero `b`, rounded towards zero, so that
/// `trunc_div(-a, b) == -trunc_div(a, b)`.
pub open spec fn trunc_div(a: int, b: int) -> int {
    if a >= 0 {
        a / b
    } else {
        -((-a) / b)
    }
}

/// Rounding towards zero never moves a quotient by a positive number away
/// from zero, nor beyond the dividend, and commutes with negation.
pub proof fn lemma_trunc_div_bounds(a: int, b: int)
    requires
        b > 0,
    ensures
        a >= 0 ==> 0 <= trunc_div(a, b) <= a,
        a <= 0 ==> a <= trunc_div(a, b) <= 0,
        trunc_div(-a, b) == -trunc_div(a, b),
{
    if a >= 0 {
        assert(0 <= a / b <= a) by (nonlinear_arith)
            requires
                a >= 0,
                b > 0,
        ;
    } else {
        assert(0 <= (-a) / b <= -a) by (nonlinear_arith)
            requires
                -a >= 0,
                b > 0,
        ;
    }
}

/// A quotient rounded towards zero is monotonic in the dividend.
pub proof fn lemma_trunc_div_monotonic(a: int, c: int, b: int)
    requires
        b > 0,
        a <= c,
    ensures
        trunc_div(a, b) <= trunc_div(c, b),
{
    lemma_trunc_div_bounds(a, b);
    lemma_trunc_div_bounds(c, b);
    if a >= 0 {
        vstd::arithmetic::div_mod::lemma_div_is_ordered(a, c, b);
    } else if c < 0 {
        vstd::arithmetic::div_mod::lemma_div_is_ordered(-c, -a, b);
    }
}

/// Divides `a` by a positive `b`, rounding towards zero.
pub fn div_trunc(a: i128, b: i128) -> (r: i128)
    requires
        b > 0,
    ensures
        r == trunc_div(a as int, b as int),
{
    proof {
        lemma_trunc_div_bounds(a as int, b as int);
    }
    a / b
}

/// The quotient of `a` by a non-zero `b` of either sign, rounded towards
/// zero.
pub open spec fn quotient(a: int, b: int) -> int {
    if b > 0 {
        trunc_div(a, b)
    } else {
        trunc_div(-a, -b)
    }
}

/// Divides `a` by a non-zero `b`, rounding towards zero.
pub fn div_signed(a: i128, b: i128) -> (r: i128)
    requires
        b != 0,
        i128::MIN < a,
        i128::MIN < b,
    ensures
        r == quotient(a as int, b as int),
{
    if b > 0 {
        div_trunc(a, b)
    } else {
        div_trunc(-a, -b)
    }
}

/// `v` brought into the range of `i32` by saturation.
pub open spec fn saturate(v: int) -> int {
    if v < i32::MIN {
        i32::MIN as int
    } else if v > i32::MAX {
        i32::MAX as int
    } else {
        v
    }
}

/// Saturates `v` at the limits of `i32`.
pub fn clamp_i32(v: i128) -> (r: i32)
    ensures
        r == saturate(v as int),
{
    if v < -0x8000_0000 {
        i32::MIN
    } else if v > 0x7fff_ffff {
        i32::MAX
    } else {
        v as i32
    }
}

/// The representative of `v` modulo a positive `m` that lies in `[0, m)`.
pub open spec fn wrap(v: int, m: int) -> int {
    v % m
}

/// Wraps `v` into `[0, m)`, however many multiples of `m` it is away.
pub fn wrap_into(v: i128, m: i32) -> (r: i32)
    requires
        m > 0,
    ensures
        r == wrap(v as int, m as int),
        0 <= r < m,
{
    let m: i128 = m as i128;
    let t: i128 = v % m;
    proof {
        let vi = v as int;
        let mi = m as int;
        if vi < 0 {
            // The exec remainder is -((-v) % m); the Euclidean remainder of v
            // is the complement of (-v) % m unless that is zero.
            let q = (-vi) / mi;
            let s = (-vi) % mi;
            vstd::arithmetic::div_mod::lemma_fundamental_div_mod(-vi, mi);
            vstd::arithmetic::div_mod::lemma_mod_bound(-vi, mi);
            if s == 0 {
                assert(vi == (-q) * mi + 0) by (nonlinear_arith)
                    requires
                        -vi == mi * q + s,
                        s == 0,
                ;
                vstd::arithmetic::div_mod::lemma_fundamental_div_mod_converse(vi, mi, -q, 0);
            } else {
                assert(vi == (-q - 1) * mi + (mi - s)) by (nonlinear_arith)
                    requires
                        -vi == mi * q + s,
                ;
                vstd::arithmetic::div_mod::lemma_fundamental_div_mod_converse(
                    vi,
                    mi,
                    -q - 1,
                    mi - s,
                );
            }
        } else {
            vstd::arithmetic::div_mod::lemma_mod_bound(vi, mi);
        }
    }
    if t < 0 {
        (t + m) as i32
    } else {
        t as i32
    }
}

} // verus!
