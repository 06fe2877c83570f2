//! Integer 2D vectors, exact rational numbers, and the integer floor square
//! root — the arithmetic foundation of the tracer.

use vstd::prelude::*;
use vstd::arithmetic::div_mod::{
    lemma_div_is_ordered, lemma_div_multiples_vanish, lemma_fundamental_div_mod,
    lemma_fundamental_div_mod_converse_div,
};

verus! {

/// Bound on the coordinates of shape data (centers, radii, endpoints) and of
/// query points. Chosen so that every intermediate product in the
/// intersection formulas fits comfortably in `i128`.
pub const COORD_MAX: i64 = 1048576;

/// Bound on the coordinates of ray origins and directions. Rays produced by
/// the library (surface emissions and bounces) stay within it whenever the
/// scene respects [`COORD_MAX`].
pub const RAY_MAX: i64 = 8388608;

/// Bound on the numerator and denominator of a rational; products of two
/// such components fit in `i128`.
pub const RAT_MAX: i128 = 0x4000_0000_0000_0000;

/// A 2D point or direction on the integer grid.
///
/// Directions are carried unnormalized: a surface normal is a vector that
/// points the right way, not a unit vector, and every test that reads one is
/// scale-free.
#[derive(Clone, Copy, Debug, PartialEq, Eq, Structural)]
pub struct Vec2 {
    pub x: i64,
    pub y: i64,
}

/// The coordinates of `v` lie within the shape-data bound.
pub open spec fn vec_in_coord_range(v: Vec2) -> bool {
    -COORD_MAX <= v.x <= COORD_MAX && -COORD_MAX <= v.y <= COORD_MAX
}

/// The coordinates of `v` lie within the ray bound.
pub open spec fn vec_in_ray_range(v: Vec2) -> bool {
    -RAY_MAX <= v.x <= RAY_MAX && -RAY_MAX <= v.y <= RAY_MAX
}

/// Dot product of `a` and `b` as a mathematical integer.
pub open spec fn spec_dot(a: Vec2, b: Vec2) -> int {
    a.x * b.x + a.y * b.y
}

/// 2D cross product (the scalar `a.x * b.y - a.y * b.x`) of `a` and `b`.
pub open spec fn spec_cross(a: Vec2, b: Vec2) -> int {
    a.x * b.y - a.y * b.x
}

impl Vec2 {
    pub fn new(x: i64, y: i64) -> (v: Vec2)
        ensures
            v.x == x,
            v.y == y,
    {
        Vec2 { x, y }
    }

    /// Componentwise sum.
    pub fn add(self, other: Vec2) -> (v: Vec2)
        requires
            i64::MIN <= self.x + other.x <= i64::MAX,
            i64::MIN <= self.y + other.y <= i64::MAX,
        ensures
            v.x == self.x + other.x,
            v.y == self.y + other.y,
    {
        Vec2 { x: self.x + other.x, y: self.y + other.y }
    }

    /// Componentwise difference.
    pub fn sub(self, other: Vec2) -> (v: Vec2)
        requires
            i64::MIN <= self.x - other.x <= i64::MAX,
            i64::MIN <= self.y - other.y <= i64::MAX,
        ensures
            v.x == self.x - other.x,
            v.y == self.y - other.y,
    {
        Vec2 { x: self.x - other.x, y: self.y - other.y }
    }

    /// Scalar multiple.
    pub fn mul(self, num: i64) -> (v: Vec2)
        requires
            i64::MIN <= self.x * num <= i64::MAX,
            i64::MIN <= self.y * num <= i64::MAX,
        ensures
            v.x == self.x * num,
            v.y == self.y * num,
    {
        Vec2 { x: self.x * num, y: self.y * num }
    }

    /// The counterclockwise perpendicular `(-y, x)`.
    pub fn perp(self) -> (v: Vec2)
        requires
            self.y != i64::MIN,
        ensures
            v.x == -self.y,
            v.y == self.x,
    {
        Vec2 { x: -self.y, y: self.x }
    }

    /// Dot product.
    pub fn dot(self, other: Vec2) -> (d: i64)
        requires
            vec_in_ray_range(self),
            vec_in_ray_range(other),
        ensures
            d == spec_dot(self, other),
    {
        proof {
            lemma_product_bound(self.x as int, other.x as int, RAY_MAX as int);
            lemma_product_bound(self.y as int, other.y as int, RAY_MAX as int);
        }
        self.x * other.x + self.y * other.y
    }

    /// 2D cross product (a scalar).
    pub fn cross2(self, other: Vec2) -> (c: i64)
        requires
            vec_in_ray_range(self),
            vec_in_ray_range(other),
        ensures
            c == spec_cross(self, other),
    {
        proof {
            lemma_product_bound(self.x as int, other.y as int, RAY_MAX as int);
            lemma_product_bound(self.y as int, other.x as int, RAY_MAX as int);
        }
        self.x * other.y - self.y * other.x
    }

    /// Squared Euclidean length.
    pub fn length2(self) -> (d: i64)
        requires
            vec_in_ray_range(self),
        ensures
            d == spec_dot(self, self),
            d >= 0,
    {
        proof {
            lemma_product_bound(self.x as int, self.x as int, RAY_MAX as int);
            lemma_product_bound(self.y as int, self.y as int, RAY_MAX as int);
            lemma_square_nonneg(self.x as int);
            lemma_square_nonneg(self.y as int);
        }
        self.x * self.x + self.y * self.y
    }

    /// Euclidean length, rounded down to the integer grid.
    pub fn length(self) -> (d: i64)
        requires
            vec_in_ray_range(self),
        ensures
            d as nat == sqrt_floor(spec_dot(self, self) as nat),
            d >= 0,
    {
        let l2: i64 = self.length2();
        let r: u128 = isqrt(l2 as u128);
        proof {
            lemma_sqrt_floor(l2 as nat);
            assert(sqrt_floor(l2 as nat) <= l2 as nat) by (nonlinear_arith)
                requires
                    sqrt_floor(l2 as nat) * sqrt_floor(l2 as nat) <= l2 as nat,
            ;
        }
        r as i64
    }
}

/// `|a| <= m` and `|b| <= m` bound the product by `m * m`.
pub proof fn lemma_product_bound(a: int, b: int, m: int) by (nonlinear_arith)
    requires
        -m <= a <= m,
        -m <= b <= m,
        m >= 0,
    ensures
        -(m * m) <= a * b <= m * m,
{
}

/// A square is never negative.
pub proof fn lemma_square_nonneg(a: int) by (nonlinear_arith)
    ensures
        a * a >= 0,
{
}

/// The floor of the square root: the unique `s` with `s * s <= n` and
/// `n < (s + 1) * (s + 1)` (see [`lemma_sqrt_floor`]).
pub open spec fn sqrt_floor(n: nat) -> nat
    decreases n,
{
    if n == 0 {
        0
    } else {
        let s = sqrt_floor((n - 1) as nat);
        if (s + 1) * (s + 1) <= n {
            s + 1
        } else {
            s
        }
    }
}

/// `sqrt_floor(n)` is a floor square root of `n`.
pub proof fn lemma_sqrt_floor(n: nat)
    ensures
        sqrt_floor(n) * sqrt_floor(n) <= n,
        n < (sqrt_floor(n) + 1) * (sqrt_floor(n) + 1),
    decreases n,
{
    if n == 0 {
        assert(sqrt_floor(n) == 0);
        assert(n < (sqrt_floor(n) + 1) * (sqrt_floor(n) + 1)) by (nonlinear_arith)
            requires
                n == 0,
                sqrt_floor(n) == 0,
        ;
    } else {
        lemma_sqrt_floor((n - 1) as nat);
        let s = sqrt_floor((n - 1) as nat);
        if (s + 1) * (s + 1) <= n {
            assert(sqrt_floor(n) == s + 1);
            assert(sqrt_floor(n) * sqrt_floor(n) <= n);
            assert((s + 1) * (s + 1) < (s + 2) * (s + 2)) by (nonlinear_arith);
            assert(n < (sqrt_floor(n) + 1) * (sqrt_floor(n) + 1));
        } else {
            assert(sqrt_floor(n) == s);
            assert(sqrt_floor(n) * sqrt_floor(n) <= n);
            assert(n < (sqrt_floor(n) + 1) * (sqrt_floor(n) + 1));
        }
    }
}

/// Any `s` with `s * s <= n < (s + 1) * (s + 1)` equals `sqrt_floor(n)`.
pub proof fn lemma_sqrt_floor_unique(n: nat, s: nat)
    requires
        s * s <= n,
        n < (s + 1) * (s + 1),
    ensures
        s == sqrt_floor(n),
{
    lemma_sqrt_floor(n);
    let t = sqrt_floor(n);
    if s < t {
        assert((s + 1) * (s + 1) <= t * t) by (nonlinear_arith)
            requires
                s + 1 <= t,
        ;
    }
    if t < s {
        assert((t + 1) * (t + 1) <= s * s) by (nonlinear_arith)
            requires
                t + 1 <= s,
        ;
    }
}

/// The floor square root of a perfect square is its root.
pub proof fn lemma_sqrt_floor_of_square(a: int)
    requires
        a >= 0,
    ensures
        sqrt_floor((a * a) as nat) == a as nat,
{
    let n = (a * a) as nat;
    let s = a as nat;
    assert(s * s <= n && n < (s + 1) * (s + 1)) by (nonlinear_arith)
        requires
            a >= 0,
            n == (a * a) as nat,
            s == a as nat,
    ;
    lemma_sqrt_floor_unique(n, s);
}

/// Integer floor square root, by binary search.
pub fn isqrt(n: u128) -> (r: u128)
    ensures
        r as nat == sqrt_floor(n as nat),
        r * r <= n,
        r <= 0xffff_ffff_ffff_ffff,
{
    let mut lo: u128 = 0;
    let mut hi: u128 = if n < 0x1_0000_0000_0000_0000 { n } else { 0xffff_ffff_ffff_ffff };
    proof {
        if n < 0x1_0000_0000_0000_0000 {
            assert(n < (n + 1) * (n + 1)) by (nonlinear_arith);
        } else {
            assert(n < (0xffff_ffff_ffff_ffffu128 + 1) * (0xffff_ffff_ffff_ffffu128 + 1))
                by (nonlinear_arith)
                requires
                    n <= u128::MAX,
            ;
        }
    }
    while lo < hi
        invariant
            lo <= hi,
            hi <= 0xffff_ffff_ffff_ffff,
            lo * lo <= n,
            n < (hi + 1) * (hi + 1),
        decreases hi - lo,
    {
        let mid: u128 = lo + (hi - lo + 1) / 2;
        assert(lo < mid <= hi);
        assert(mid * mid <= 0xffff_ffff_ffff_ffffu128 * 0xffff_ffff_ffff_ffffu128)
            by (nonlinear_arith)
            requires
                mid <= 0xffff_ffff_ffff_ffffu128,
        ;
        if mid * mid <= n {
            lo = mid;
        } else {
            hi = mid - 1;
        }
    }
    proof {
        lemma_sqrt_floor_unique(n as nat, lo as nat);
    }
    lo
}

/// Floor division for a positive divisor, matching mathematical integer
/// division (quotient rounded toward negative infinity).
pub fn floor_div(a: i128, b: i128) -> (q: i128)
    requires
        1 <= b <= RAT_MAX,
        -(RAT_MAX * RAT_MAX) <= a <= RAT_MAX * RAT_MAX,
    ensures
        q == a as int / b as int,
{
    if a >= 0 {
        let qa: u128 = (a as u128) / (b as u128);
        proof {
            assert(qa as int <= a as int) by (nonlinear_arith)
                requires
                    qa as int == a as int / b as int,
                    b as int >= 1,
                    a as int >= 0,
            ;
        }
        qa as i128
    } else {
        let na: u128 = (-a) as u128;
        let bu: u128 = b as u128;
        let qc: u128 = (na + bu - 1) / bu;
        proof {
            let nn: int = na as int;
            let bb: int = bu as int;
            let q: int = (nn + bb - 1) / bb;
            let r: int = (nn + bb - 1) % bb;
            lemma_fundamental_div_mod(nn + bb - 1, bb);
            // a = (-q) * b + (b - 1 - r) with the remainder in [0, b)
            assert(a as int == (-q) * bb + (bb - 1 - r)) by (nonlinear_arith)
                requires
                    a as int == -nn,
                    nn + bb - 1 == bb * q + r,
            ;
            lemma_fundamental_div_mod_converse_div(a as int, bb, -q, bb - 1 - r);
            assert(qc as int <= na as int) by (nonlinear_arith)
                requires
                    qc as int == (na as int + bu as int - 1) / (bu as int),
                    bu as int >= 1,
                    na as int >= 1,
            ;
        }
        -(qc as i128)
    }
}

/// A quotient between two multiples of the divisor lies between the factors.
pub proof fn lemma_div_bounds(a: int, d: int, lo: int, hi: int)
    requires
        d >= 1,
        lo * d <= a,
        a <= hi * d,
    ensures
        lo <= a / d,
        a / d <= hi,
{
    lemma_div_is_ordered(lo * d, a, d);
    lemma_div_is_ordered(a, hi * d, d);
    lemma_div_multiples_vanish(lo, d);
    lemma_div_multiples_vanish(hi, d);
    assert(lo * d == d * lo) by (nonlinear_arith);
    assert(hi * d == d * hi) by (nonlinear_arith);
}

/// An exact rational number. The denominator is positive, and both
/// components are bounded by [`RAT_MAX`] so that the cross-products used to
/// compare two rationals fit in `i128`.
#[derive(Clone, Copy, Debug, PartialEq, Eq, Structural)]
pub struct Rat {
    pub num: i128,
    pub den: i128,
}

/// Well-formedness of a rational: positive bounded denominator, bounded
/// numerator.
pub open spec fn rat_wf(r: Rat) -> bool {
    1 <= r.den <= RAT_MAX && -RAT_MAX <= r.num <= RAT_MAX
}

/// `a <= b` on rationals with positive denominators.
pub open spec fn rat_le(a: Rat, b: Rat) -> bool {
    a.num * b.den <= b.num * a.den
}

/// `a < b` on rationals with positive denominators.
pub open spec fn rat_lt(a: Rat, b: Rat) -> bool {
    a.num * b.den < b.num * a.den
}

impl Rat {
    pub fn new(num: i128, den: i128) -> (r: Rat)
        requires
            1 <= den <= RAT_MAX,
            -RAT_MAX <= num <= RAT_MAX,
        ensures
            r.num == num,
            r.den == den,
            rat_wf(r),
    {
        Rat { num, den }
    }

    /// Exact comparison `self <= other`.
    pub fn le(&self, other: &Rat) -> (b: bool)
        requires
            rat_wf(*self),
            rat_wf(*other),
        ensures
            b == rat_le(*self, *other),
    {
        proof {
            lemma_product_bound(self.num as int, other.den as int, RAT_MAX as int);
            lemma_product_bound(other.num as int, self.den as int, RAT_MAX as int);
        }
        self.num * other.den <= other.num * self.den
    }

    /// Exact comparison `self < other`.
    pub fn lt(&self, other: &Rat) -> (b: bool)
        requires
            rat_wf(*self),
            rat_wf(*other),
        ensures
            b == rat_lt(*self, *other),
    {
        proof {
            lemma_product_bound(self.num as int, other.den as int, RAT_MAX as int);
            lemma_product_bound(other.num as int, self.den as int, RAT_MAX as int);
        }
        self.num * other.den < other.num * self.den
    }
}

} // verus!
