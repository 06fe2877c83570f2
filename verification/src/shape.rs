//! The shape variants — circles and line segments — with their containment,
//! surface-membership and ray-intersection tests, all exact.

use vstd::prelude::*;
use crate::math::{
    Vec2, Rat, rat_wf, sqrt_floor, isqrt, floor_div, vec_in_coord_range, vec_in_ray_range,
    lemma_product_bound, lemma_div_bounds, COORD_MAX, RAY_MAX, RAT_MAX,
};
use crate::ray::{Ray, ray_wf};
use crate::hit::{Hit, hit_in_range};

verus! {

/// A circle, given by its center and radius.
#[derive(Clone, Copy, Debug, PartialEq, Eq, Structural)]
pub struct Circle {
    pub center: Vec2,
    pub radius: i64,
}

/// A line segment between two endpoints.
#[derive(Clone, Copy, Debug, PartialEq, Eq, Structural)]
pub struct Line {
    pub a: Vec2,
    pub b: Vec2,
}

/// The closed set of shape variants.
#[derive(Clone, Copy, Debug, PartialEq, Eq, Structural)]
pub enum Shape {
    Circle(Circle),
    Line(Line),
}

/// Well-formed circle: center within the shape bound, radius nonnegative and
/// bounded.
pub open spec fn circle_wf(c: Circle) -> bool {
    vec_in_coord_range(c.center) && 0 <= c.radius <= COORD_MAX
}

/// Well-formed segment: both endpoints within the shape bound.
pub open spec fn line_wf(l: Line) -> bool {
    vec_in_coord_range(l.a) && vec_in_coord_range(l.b)
}

/// Well-formed shape.
pub open spec fn shape_wf(s: Shape) -> bool {
    match s {
        Shape::Circle(c) => circle_wf(c),
        Shape::Line(l) => line_wf(l),
    }
}

/// `p` lies strictly inside the circle: `|p - center|^2 < radius^2`.
pub open spec fn circle_contains(c: Circle, p: Vec2) -> bool {
    let dx = p.x - c.center.x;
    let dy = p.y - c.center.y;
    dx * dx + dy * dy < c.radius * c.radius
}

/// `p` lies in the circle's surface band: `radius^2` falls within a relative
/// one-percent tolerance around `d2 = |p - center|^2`, that is
/// `d2 - d2/100 < radius^2 < d2 + d2/100`, written here without division as
/// `99 * d2 < 100 * radius^2 < 101 * d2`. The band is relative, so surface
/// membership is scale-dependent by design.
pub open spec fn circle_on_surface(c: Circle, p: Vec2) -> bool {
    let dx = p.x - c.center.x;
    let dy = p.y - c.center.y;
    let d2 = dx * dx + dy * dy;
    let r2 = c.radius * c.radius;
    99 * d2 < 100 * r2 && 100 * r2 < 101 * d2
}

/// The emission ray of a circle at a surface point: origin `p`, direction
/// the outward radial vector `p - center` (unnormalized).
pub open spec fn circle_surface_ray_spec(c: Circle, p: Vec2) -> Option<Ray> {
    if circle_on_surface(c, p) {
        Some(
            Ray {
                o: p,
                d: Vec2 { x: (p.x - c.center.x) as i64, y: (p.y - c.center.y) as i64 },
            },
        )
    } else {
        None
    }
}

/// Circle/ray intersection. With `u = center - o`, `l2 = |d|^2`,
/// `s = d . u` and `cr = d x u`, the ray's line meets the circle exactly when
/// `cr^2 <= radius^2 * l2` (the perpendicular distance from the center to the
/// line is at most the radius; equality is the tangent case). The nearer
/// root of the quadratic has parameter `(s - sqrt(D)) / l2` with
/// `D = radius^2 * l2 - cr^2`; the square root is taken as the integer floor
/// square root, the parameter is recorded absolutely (a distance along the
/// line, in units of `|d|`), and the hit point is rounded down to the grid.
/// The normal is the outward radial vector at the rounded hit point.
///
/// The parametric validity interval is deliberately not consulted here: the
/// scene enforces it on every candidate (see `render::hit_world`). A ray
/// with a zero direction meets nothing.
pub open spec fn circle_hit_spec(c: Circle, ray: Ray) -> Option<Hit> {
    let dx = ray.d.x as int;
    let dy = ray.d.y as int;
    let ux = c.center.x - ray.o.x;
    let uy = c.center.y - ray.o.y;
    let l2 = dx * dx + dy * dy;
    let s = dx * ux + dy * uy;
    let cr = dx * uy - dy * ux;
    let r2 = c.radius * c.radius;
    if l2 == 0 {
        None
    } else if cr * cr <= r2 * l2 {
        let m = sqrt_floor((r2 * l2 - cr * cr) as nat) as int;
        let tn = if s - m >= 0 { s - m } else { m - s };
        let px = ray.o.x + (dx * (s - m)) / l2;
        let py = ray.o.y + (dy * (s - m)) / l2;
        Some(
            Hit {
                t: Rat { num: tn as i128, den: l2 as i128 },
                pos: Vec2 { x: px as i64, y: py as i64 },
                normal: Vec2 { x: (px - c.center.x) as i64, y: (py - c.center.y) as i64 },
            },
        )
    } else {
        None
    }
}

/// `p` lies on the segment: the exact form of the triangle equality
/// `|p - a| + |p - b| == |a - b|`, which holds precisely when `p` is
/// collinear with `a` and `b` and between them. On the integer grid that is
/// `(p - a) x (b - a) == 0` together with `0 <= (p - a) . (b - a) <= |b - a|^2`.
pub open spec fn line_on_surface(l: Line, p: Vec2) -> bool {
    let rx = l.b.x - l.a.x;
    let ry = l.b.y - l.a.y;
    let wx = p.x - l.a.x;
    let wy = p.y - l.a.y;
    if rx == 0 && ry == 0 {
        p.x == l.a.x && p.y == l.a.y
    } else {
        wx * ry - wy * rx == 0 && 0 <= wx * rx + wy * ry <= rx * rx + ry * ry
    }
}

/// The emission ray of a segment at a surface point: origin `p`, direction
/// the fixed perpendicular `perp(a - b)` of the two candidates (the other is
/// `perp(b - a)`); the choice is arbitrary and documented here.
pub open spec fn line_surface_ray_spec(l: Line, p: Vec2) -> Option<Ray> {
    if line_on_surface(l, p) {
        Some(
            Ray {
                o: p,
                d: Vec2 { x: (l.b.y - l.a.y) as i64, y: (l.a.x - l.b.x) as i64 },
            },
        )
    } else {
        None
    }
}

/// Segment/ray intersection by cross products. With `r = b - a`,
/// `s = ray.d`, `q = ray.o` and `rxs = r x s`: parallel lines (`rxs == 0`,
/// the collinear-overlapping case included) never intersect. Otherwise
/// `t = (q - a) x s / rxs` is the fractional position along the segment and
/// `u = (q - a) x r / rxs` the parameter along the ray; both are handled as
/// exact rationals over a positive denominator `dd`. When the ray direction
/// opposes the segment direction (`s . r < 0`) the two validity intervals
/// are taken with their endpoints swapped — `[1, 0)` and `[t_max, t_min)` —
/// which are empty, so such a ray never hits. Otherwise the hit needs
/// `0 <= t < 1` and `t_min <= u < t_max`. The normal is whichever of the two
/// perpendiculars points against the incoming ray.
pub open spec fn line_hit_spec(l: Line, ray: Ray, t_min: Rat, t_max: Rat) -> Option<Hit> {
    let rx = l.b.x - l.a.x;
    let ry = l.b.y - l.a.y;
    let sx = ray.d.x as int;
    let sy = ray.d.y as int;
    let rxs = rx * sy - ry * sx;
    if rxs == 0 {
        None
    } else {
        let qpx = ray.o.x - l.a.x;
        let qpy = ray.o.y - l.a.y;
        let tn0 = qpx * sy - qpy * sx;
        let un0 = qpx * ry - qpy * rx;
        let tn = if rxs < 0 { -tn0 } else { tn0 };
        let un = if rxs < 0 { -un0 } else { un0 };
        let dd = if rxs < 0 { -rxs } else { rxs };
        let opposite = rx * sx + ry * sy < 0;
        let t_ok = if opposite { dd <= tn && tn < 0 } else { 0 <= tn && tn < dd };
        let u_ok = if opposite {
            t_max.num * dd <= un * t_max.den && un * t_min.den < t_min.num * dd
        } else {
            t_min.num * dd <= un * t_min.den && un * t_max.den < t_max.num * dd
        };
        if t_ok && u_ok {
            let px = ray.o.x + (sx * un) / dd;
            let py = ray.o.y + (sy * un) / dd;
            // The candidate normal `perp(a - b) == (ry, -rx)` has dot product
            // `-rxs` with the ray direction, so the one that opposes the ray
            // is picked by the sign of `rxs` alone.
            let nx = if rxs > 0 { ry } else { -ry };
            let ny = if rxs > 0 { -rx } else { rx };
            Some(
                Hit {
                    t: Rat { num: un as i128, den: dd as i128 },
                    pos: Vec2 { x: px as i64, y: py as i64 },
                    normal: Vec2 { x: nx as i64, y: ny as i64 },
                },
            )
        } else {
            None
        }
    }
}

/// Dispatch over the shape variants: does `pos` lie inside (circle) or on
/// (segment) the shape?
pub open spec fn shape_contains(s: Shape, p: Vec2) -> bool {
    match s {
        Shape::Circle(c) => circle_contains(c, p),
        Shape::Line(l) => line_on_surface(l, p),
    }
}

/// Dispatch: does `pos` lie on the shape's surface?
pub open spec fn shape_on_surface(s: Shape, p: Vec2) -> bool {
    match s {
        Shape::Circle(c) => circle_on_surface(c, p),
        Shape::Line(l) => line_on_surface(l, p),
    }
}

/// Dispatch: the emission ray at a surface point, if any.
pub open spec fn shape_surface_ray_spec(s: Shape, p: Vec2) -> Option<Ray> {
    match s {
        Shape::Circle(c) => circle_surface_ray_spec(c, p),
        Shape::Line(l) => line_surface_ray_spec(l, p),
    }
}

/// Dispatch: the shape's candidate hit. The circle test ignores the
/// parametric interval (the scene enforces it); the segment test checks it
/// itself.
pub open spec fn shape_hit_spec(s: Shape, ray: Ray, t_min: Rat, t_max: Rat) -> Option<Hit> {
    match s {
        Shape::Circle(c) => circle_hit_spec(c, ray),
        Shape::Line(l) => line_hit_spec(l, ray, t_min, t_max),
    }
}

/// A value whose square is bounded by a square of a nonnegative bound lies
/// between that bound and its negation.
proof fn lemma_sq_le(w: int, c: int)
    by (nonlinear_arith)
    requires
        w * w <= c * c,
        c >= 0,
    ensures
        -c <= w,
        w <= c,
{
}

/// A product of two factors whose squares are bounded has its square
/// bounded by the product of the bounds.
proof fn lemma_prod_sq_le(u: int, v: int, a: int, b: int)
    by (nonlinear_arith)
    requires
        u * u <= a,
        v * v <= b,
        a >= 0,
        b >= 0,
    ensures
        (u * v) * (u * v) <= a * b,
{
}

/// Bound for the rounded circle hit point: the numerator of either
/// coordinate offset stays within twice the radius (in denominators) of the
/// center's offset. Both cross-terms `dy * cr` and `dx * m` are bounded by
/// `l2 * r` separately, since `cr^2 <= r^2 * l2` and `m^2 <= r^2 * l2`.
proof fn lemma_circle_axis_bound(dx: int, dy: int, ux: int, uy: int, r: int, m: int)
    requires
        r >= 0,
        m >= 0,
        (dx * uy - dy * ux) * (dx * uy - dy * ux) <= r * r * (dx * dx + dy * dy),
        m * m <= r * r * (dx * dx + dy * dy),
    ensures
        (ux - 2 * r) * (dx * dx + dy * dy) <= dx * (dx * ux + dy * uy - m),
        dx * (dx * ux + dy * uy - m) <= (ux + 2 * r) * (dx * dx + dy * dy),
{
    let l2 = dx * dx + dy * dy;
    let cr = dx * uy - dy * ux;
    crate::math::lemma_square_nonneg(dx);
    crate::math::lemma_square_nonneg(dy);
    assert(dx * (dx * ux + dy * uy - m) - ux * (dx * dx + dy * dy)
        == dy * (dx * uy - dy * ux) - dx * m) by (nonlinear_arith);
    assert(r * r * l2 >= 0) by (nonlinear_arith)
        requires
            (dx * uy - dy * ux) * (dx * uy - dy * ux) <= r * r * l2,
    ;
    lemma_prod_sq_le(dy, cr, l2, r * r * l2);
    lemma_prod_sq_le(dx, m, l2, r * r * l2);
    assert(l2 * (r * r * l2) == (l2 * r) * (l2 * r)) by (nonlinear_arith);
    assert(l2 * r >= 0) by (nonlinear_arith)
        requires
            l2 >= 0,
            r >= 0,
    ;
    lemma_sq_le(dy * cr, l2 * r);
    lemma_sq_le(dx * m, l2 * r);
    assert((ux - 2 * r) * l2 == ux * l2 - l2 * r - l2 * r
        && (ux + 2 * r) * l2 == ux * l2 + l2 * r + l2 * r) by (nonlinear_arith);
}

/// The solved segment/ray meeting point along the x axis, as a polynomial
/// identity: the sampled ray coordinate numerator equals the same point
/// measured from the segment's endpoint `a`.
#[verifier::rlimit(50)]
proof fn lemma_segment_point_identity_x(rx: int, ry: int, sx: int, sy: int, qpx: int, qpy: int)
    by (nonlinear_arith)
    ensures
        sx * (qpx * ry - qpy * rx) == (rx * sy - ry * sx) * (-qpx) + rx * (qpx * sy - qpy * sx),
{
}

/// The same identity along the y axis.
#[verifier::rlimit(50)]
proof fn lemma_segment_point_identity_y(rx: int, ry: int, sx: int, sy: int, qpx: int, qpy: int)
    by (nonlinear_arith)
    ensures
        sy * (qpx * ry - qpy * rx) == (rx * sy - ry * sx) * (-qpy) + ry * (qpx * sy - qpy * sx),
{
}

impl Circle {
    pub fn new(pos: Vec2, rad: i64) -> (c: Circle)
        ensures
            c.center == pos,
            c.radius == rad,
    {
        Circle { center: pos, radius: rad }
    }

    /// Strict interior test; the boundary is excluded.
    pub fn intersects(&self, pos: Vec2) -> (r: bool)
        requires
            circle_wf(*self),
            vec_in_ray_range(pos),
        ensures
            r == circle_contains(*self, pos),
    {
        let dx: i128 = pos.x as i128 - self.center.x as i128;
        let dy: i128 = pos.y as i128 - self.center.y as i128;
        let rr: i128 = self.radius as i128;
        proof {
            lemma_product_bound(dx as int, dx as int, 0x2000000);
            lemma_product_bound(dy as int, dy as int, 0x2000000);
            lemma_product_bound(rr as int, rr as int, 0x2000000);
        }
        dx * dx + dy * dy < rr * rr
    }

    /// Relative-tolerance surface band (see [`circle_on_surface`]).
    pub fn is_on_surface(&self, pos: Vec2) -> (r: bool)
        requires
            circle_wf(*self),
            vec_in_ray_range(pos),
        ensures
            r == circle_on_surface(*self, pos),
    {
        let dx: i128 = pos.x as i128 - self.center.x as i128;
        let dy: i128 = pos.y as i128 - self.center.y as i128;
        let rr: i128 = self.radius as i128;
        proof {
            lemma_product_bound(dx as int, dx as int, 0x2000000);
            lemma_product_bound(dy as int, dy as int, 0x2000000);
            lemma_product_bound(rr as int, rr as int, 0x2000000);
        }
        let d2: i128 = dx * dx + dy * dy;
        let r2: i128 = rr * rr;
        99 * d2 < 100 * r2 && 100 * r2 < 101 * d2
    }

    /// The outward radial emission ray at a surface point, if `pos` is in
    /// the surface band.
    pub fn surface_ray(&self, pos: Vec2) -> (res: Option<Ray>)
        requires
            circle_wf(*self),
            vec_in_coord_range(pos),
        ensures
            res == circle_surface_ray_spec(*self, pos),
            res is Some ==> ray_wf(res.unwrap()),
    {
        if !self.is_on_surface(pos) {
            return None;
        }
        let n = Vec2 { x: pos.x - self.center.x, y: pos.y - self.center.y };
        Some(Ray { o: pos, d: n })
    }

    /// Closed-form circle/ray intersection (see [`circle_hit_spec`]).
    pub fn hit(&self, ray: &Ray) -> (res: Option<Hit>)
        requires
            circle_wf(*self),
            ray_wf(*ray),
        ensures
            res == circle_hit_spec(*self, *ray),
            res is Some ==> hit_in_range(res.unwrap()),
    {
        let dx: i128 = ray.d.x as i128;
        let dy: i128 = ray.d.y as i128;
        let ux: i128 = self.center.x as i128 - ray.o.x as i128;
        let uy: i128 = self.center.y as i128 - ray.o.y as i128;
        let rr: i128 = self.radius as i128;
        proof {
            lemma_product_bound(dx as int, dx as int, 0x2000000);
            lemma_product_bound(dy as int, dy as int, 0x2000000);
            lemma_product_bound(dx as int, ux as int, 0x2000000);
            lemma_product_bound(dy as int, uy as int, 0x2000000);
            lemma_product_bound(dx as int, uy as int, 0x2000000);
            lemma_product_bound(dy as int, ux as int, 0x2000000);
            lemma_product_bound(rr as int, rr as int, 0x2000000);
            crate::math::lemma_square_nonneg(dx as int);
            crate::math::lemma_square_nonneg(dy as int);
        }
        let l2: i128 = dx * dx + dy * dy;
        let s: i128 = dx * ux + dy * uy;
        let cr: i128 = dx * uy - dy * ux;
        let r2: i128 = rr * rr;
        if l2 == 0 {
            return None;
        }
        proof {
            lemma_product_bound(cr as int, cr as int, 0x8000000000000);
            lemma_product_bound(r2 as int, l2 as int, 0x8000000000000);
        }
        if cr * cr <= r2 * l2 {
            let d: i128 = r2 * l2 - cr * cr;
            let mu: u128 = isqrt(d as u128);
            let m: i128 = mu as i128;
            proof {
                assert(d >= 0);
                assert((d as u128) as nat == d as nat);
                assert(m as int == mu as int);
                assert(m as int * (m as int) <= d as int);
                assert(m as nat == sqrt_floor(d as nat));
                assert(m < 0x20000000000000) by (nonlinear_arith)
                    requires
                        m as int * (m as int) <= 0x100000000000000000000000000,
                        m >= 0,
                ;
            }
            let sm: i128 = s - m;
            let tn: i128 = if sm >= 0 { sm } else { -sm };
            proof {
                assert((dy as int * (ux as int) - dx as int * (uy as int))
                    * (dy as int * (ux as int) - dx as int * (uy as int))
                    == (dx as int * (uy as int) - dy as int * (ux as int))
                    * (dx as int * (uy as int) - dy as int * (ux as int))) by (nonlinear_arith);
                crate::math::lemma_square_nonneg(cr as int);
                lemma_circle_axis_bound(dx as int, dy as int, ux as int, uy as int, rr as int, m as int);
                lemma_circle_axis_bound(dy as int, dx as int, uy as int, ux as int, rr as int, m as int);
                lemma_product_bound(dx as int, sm as int, 0x100000000000000);
                lemma_product_bound(dy as int, sm as int, 0x100000000000000);
            }
            let px_off: i128 = floor_div(dx * sm, l2);
            let py_off: i128 = floor_div(dy * sm, l2);
            proof {
                lemma_div_bounds(
                    (dx * sm) as int, l2 as int,
                    ux as int - 2 * (rr as int), ux as int + 2 * (rr as int));
                lemma_div_bounds(
                    (dy * sm) as int, l2 as int,
                    uy as int - 2 * (rr as int), uy as int + 2 * (rr as int));
            }
            let px: i128 = ray.o.x as i128 + px_off;
            let py: i128 = ray.o.y as i128 + py_off;
            let nx: i128 = px - self.center.x as i128;
            let ny: i128 = py - self.center.y as i128;
            let h = Hit {
                t: Rat { num: tn, den: l2 },
                pos: Vec2 { x: px as i64, y: py as i64 },
                normal: Vec2 { x: nx as i64, y: ny as i64 },
            };
            Some(h)
        } else {
            None
        }
    }
}

impl Line {
    pub fn new(p1: Vec2, p2: Vec2) -> (l: Line)
        ensures
            l.a == p1,
            l.b == p2,
    {
        Line { a: p1, b: p2 }
    }

    /// Exact betweenness test: the integer form of the triangle equality
    /// `|p - a| + |p - b| == |a - b|` (see [`line_on_surface`]).
    pub fn intersects(&self, pos: Vec2) -> (r: bool)
        requires
            line_wf(*self),
            vec_in_ray_range(pos),
        ensures
            r == line_on_surface(*self, pos),
    {
        let rx: i128 = self.b.x as i128 - self.a.x as i128;
        let ry: i128 = self.b.y as i128 - self.a.y as i128;
        let wx: i128 = pos.x as i128 - self.a.x as i128;
        let wy: i128 = pos.y as i128 - self.a.y as i128;
        proof {
            lemma_product_bound(wx as int, ry as int, 0x2000000);
            lemma_product_bound(wy as int, rx as int, 0x2000000);
            lemma_product_bound(wx as int, rx as int, 0x2000000);
            lemma_product_bound(wy as int, ry as int, 0x2000000);
            lemma_product_bound(rx as int, rx as int, 0x2000000);
            lemma_product_bound(ry as int, ry as int, 0x2000000);
        }
        if rx == 0 && ry == 0 {
            pos.x == self.a.x && pos.y == self.a.y
        } else {
            let dt: i128 = wx * rx + wy * ry;
            wx * ry - wy * rx == 0 && 0 <= dt && dt <= rx * rx + ry * ry
        }
    }

    /// A segment's surface is the segment itself.
    pub fn is_on_surface(&self, pos: Vec2) -> (r: bool)
        requires
            line_wf(*self),
            vec_in_ray_range(pos),
        ensures
            r == line_on_surface(*self, pos),
    {
        self.intersects(pos)
    }

    /// The emission ray at a surface point: the fixed perpendicular
    /// `perp(a - b)` (see [`line_surface_ray_spec`]).
    pub fn surface_ray(&self, pos: Vec2) -> (res: Option<Ray>)
        requires
            line_wf(*self),
            vec_in_coord_range(pos),
        ensures
            res == line_surface_ray_spec(*self, pos),
            res is Some ==> ray_wf(res.unwrap()),
    {
        if !self.is_on_surface(pos) {
            return None;
        }
        let n = Vec2 { x: self.b.y - self.a.y, y: self.a.x - self.b.x };
        Some(Ray { o: pos, d: n })
    }

    /// Segment/ray intersection (see [`line_hit_spec`]).
    pub fn hit(&self, ray: &Ray, t_min: &Rat, t_max: &Rat) -> (res: Option<Hit>)
        requires
            line_wf(*self),
            ray_wf(*ray),
            rat_wf(*t_min),
            rat_wf(*t_max),
        ensures
            res == line_hit_spec(*self, *ray, *t_min, *t_max),
            res is Some ==> hit_in_range(res.unwrap()),
    {
        let rx: i128 = self.b.x as i128 - self.a.x as i128;
        let ry: i128 = self.b.y as i128 - self.a.y as i128;
        let sx: i128 = ray.d.x as i128;
        let sy: i128 = ray.d.y as i128;
        proof {
            lemma_product_bound(rx as int, sy as int, 0x2000000);
            lemma_product_bound(ry as int, sx as int, 0x2000000);
            lemma_product_bound(rx as int, sx as int, 0x2000000);
            lemma_product_bound(ry as int, sy as int, 0x2000000);
        }
        let rxs: i128 = rx * sy - ry * sx;
        if rxs == 0 {
            return None;
        }
        let qpx: i128 = ray.o.x as i128 - self.a.x as i128;
        let qpy: i128 = ray.o.y as i128 - self.a.y as i128;
        proof {
            lemma_product_bound(qpx as int, sy as int, 0x2000000);
            lemma_product_bound(qpy as int, sx as int, 0x2000000);
            lemma_product_bound(qpx as int, ry as int, 0x2000000);
            lemma_product_bound(qpy as int, rx as int, 0x2000000);
        }
        let tn0: i128 = qpx * sy - qpy * sx;
        let un0: i128 = qpx * ry - qpy * rx;
        let (tn, un, dd): (i128, i128, i128) = if rxs < 0 {
            (-tn0, -un0, -rxs)
        } else {
            (tn0, un0, rxs)
        };
        let opposite: bool = rx * sx + ry * sy < 0;
        let t_ok: bool = if opposite {
            dd <= tn && tn < 0
        } else {
            0 <= tn && tn < dd
        };
        proof {
            lemma_product_bound(t_max.num as int, dd as int, RAT_MAX as int);
            lemma_product_bound(un as int, t_max.den as int, RAT_MAX as int);
            lemma_product_bound(t_min.num as int, dd as int, RAT_MAX as int);
            lemma_product_bound(un as int, t_min.den as int, RAT_MAX as int);
        }
        let u_ok: bool = if opposite {
            t_max.num * dd <= un * t_max.den && un * t_min.den < t_min.num * dd
        } else {
            t_min.num * dd <= un * t_min.den && un * t_max.den < t_max.num * dd
        };
        if t_ok && u_ok {
            let ax: i128 = self.a.x as i128;
            let ay: i128 = self.a.y as i128;
            let ox: i128 = ray.o.x as i128;
            let oy: i128 = ray.o.y as i128;
            let rxa: i128 = if rx < 0 { -rx } else { rx };
            let rya: i128 = if ry < 0 { -ry } else { ry };
            proof {
                lemma_segment_point_identity_x(
                    rx as int, ry as int, sx as int, sy as int, qpx as int, qpy as int);
                lemma_segment_point_identity_y(
                    rx as int, ry as int, sx as int, sy as int, qpx as int, qpy as int);
                if rxs < 0 {
                    assert(sx as int * (un as int) == dd as int * (-(qpx as int))
                        + rx as int * (tn as int)) by (nonlinear_arith)
                        requires
                            un as int == -(un0 as int),
                            dd as int == -(rxs as int),
                            tn as int == -(tn0 as int),
                            sx as int * (un0 as int) == rxs as int * (-(qpx as int))
                                + rx as int * (tn0 as int),
                    ;
                    assert(sy as int * (un as int) == dd as int * (-(qpy as int))
                        + ry as int * (tn as int)) by (nonlinear_arith)
                        requires
                            un as int == -(un0 as int),
                            dd as int == -(rxs as int),
                            tn as int == -(tn0 as int),
                            sy as int * (un0 as int) == rxs as int * (-(qpy as int))
                                + ry as int * (tn0 as int),
                    ;
                }
                assert((ax - ox - rxa) * dd <= sx * un && sx * un <= (ax - ox + rxa) * dd)
                    by (nonlinear_arith)
                    requires
                        sx as int * (un as int) == dd as int * (-(qpx as int))
                            + rx as int * (tn as int),
                        qpx as int == ox as int - ax as int,
                        0 <= tn as int,
                        tn as int <= dd as int,
                        -(rxa as int) <= rx as int <= rxa as int,
                        dd as int >= 1,
                ;
                assert((ay - oy - rya) * dd <= sy * un && sy * un <= (ay - oy + rya) * dd)
                    by (nonlinear_arith)
                    requires
                        sy as int * (un as int) == dd as int * (-(qpy as int))
                            + ry as int * (tn as int),
                        qpy as int == oy as int - ay as int,
                        0 <= tn as int,
                        tn as int <= dd as int,
                        -(rya as int) <= ry as int <= rya as int,
                        dd as int >= 1,
                ;
                lemma_product_bound(sx as int, un as int, 0x100000000000000);
                lemma_product_bound(sy as int, un as int, 0x100000000000000);
            }
            let px_off: i128 = floor_div(sx * un, dd);
            let py_off: i128 = floor_div(sy * un, dd);
            proof {
                lemma_div_bounds((sx * un) as int, dd as int, (ax - ox - rxa) as int, (ax - ox + rxa) as int);
                lemma_div_bounds((sy * un) as int, dd as int, (ay - oy - rya) as int, (ay - oy + rya) as int);
            }
            let px: i128 = ox + px_off;
            let py: i128 = oy + py_off;
            let (nx, ny): (i128, i128) = if rxs > 0 {
                (ry, -rx)
            } else {
                (-ry, rx)
            };
            let h = Hit {
                t: Rat { num: un, den: dd },
                pos: Vec2 { x: px as i64, y: py as i64 },
                normal: Vec2 { x: nx as i64, y: ny as i64 },
            };
            Some(h)
        } else {
            None
        }
    }
}

impl Shape {
    /// Containment dispatch over the variants.
    pub fn intersects(&self, pos: Vec2) -> (r: bool)
        requires
            shape_wf(*self),
            vec_in_ray_range(pos),
        ensures
            r == shape_contains(*self, pos),
    {
        match self {
            Shape::Circle(c) => c.intersects(pos),
            Shape::Line(l) => l.intersects(pos),
        }
    }

    /// Surface-membership dispatch.
    pub fn is_on_surface(&self, pos: Vec2) -> (r: bool)
        requires
            shape_wf(*self),
            vec_in_ray_range(pos),
        ensures
            r == shape_on_surface(*self, pos),
    {
        match self {
            Shape::Circle(c) => c.is_on_surface(pos),
            Shape::Line(l) => l.is_on_surface(pos),
        }
    }

    /// Emission-ray dispatch.
    pub fn surface_ray(&self, pos: Vec2) -> (res: Option<Ray>)
        requires
            shape_wf(*self),
            vec_in_coord_range(pos),
        ensures
            res == shape_surface_ray_spec(*self, pos),
            res is Some ==> ray_wf(res.unwrap()),
    {
        match self {
            Shape::Circle(c) => c.surface_ray(pos),
            Shape::Line(l) => l.surface_ray(pos),
        }
    }

    /// Hit-test dispatch. The circle ignores the parametric interval — the
    /// scene enforces it on every candidate — while the segment checks it
    /// itself.
    pub fn hit(&self, ray: &Ray, t_min: &Rat, t_max: &Rat) -> (res: Option<Hit>)
        requires
            shape_wf(*self),
            ray_wf(*ray),
            rat_wf(*t_min),
            rat_wf(*t_max),
        ensures
            res == shape_hit_spec(*self, *ray, *t_min, *t_max),
            res is Some ==> hit_in_range(res.unwrap()),
    {
        match self {
            Shape::Circle(c) => c.hit(ray),
            Shape::Line(l) => l.hit(ray, t_min, t_max),
        }
    }
}

} // verus!
