//! Proved statements that relate the library's pieces to one another.

use vstd::prelude::*;
use crate::math::{Vec2, Rat, rat_wf, rat_le, rat_lt, vec_in_coord_range};
use crate::ray::Ray;
use crate::shape::{Shape, Circle, Line, circle_contains, circle_on_surface, circle_hit_spec,
    line_hit_spec, circle_wf, line_wf};
use crate::render::{ray_color_spec, black};

verus! {

/// A point strictly inside a circle — with the relative margin
/// `101 * |p - center|^2 <= 100 * radius^2`, the exact-form counterpart of a
/// distance strictly below the radius by a fixed fraction — is contained,
/// and is not in the surface band.
pub proof fn lemma_interior_point(c: Circle, p: Vec2)
    requires
        c.radius >= 1,
        101 * ((p.x - c.center.x) * (p.x - c.center.x) + (p.y - c.center.y) * (p.y
            - c.center.y)) <= 100 * (c.radius * c.radius),
    ensures
        circle_contains(c, p),
        !circle_on_surface(c, p),
{
    let d2 = (p.x - c.center.x) * (p.x - c.center.x) + (p.y - c.center.y) * (p.y - c.center.y);
    let r2 = c.radius * c.radius;
    assert(c.radius * c.radius >= 1) by (nonlinear_arith)
        requires
            c.radius >= 1,
    ;
    crate::math::lemma_square_nonneg(p.x - c.center.x);
    crate::math::lemma_square_nonneg(p.y - c.center.y);
    assert(101 * d2 <= 100 * r2);
    assert(d2 < r2);
}

/// A point whose squared distance from the center equals the squared radius
/// exactly lies in the surface band.
pub proof fn lemma_boundary_point_on_surface(c: Circle, p: Vec2)
    requires
        c.radius >= 1,
        (p.x - c.center.x) * (p.x - c.center.x) + (p.y - c.center.y) * (p.y - c.center.y)
            == c.radius * c.radius,
    ensures
        circle_on_surface(c, p),
{
    assert(c.radius * c.radius >= 1) by (nonlinear_arith)
        requires
            c.radius >= 1,
    ;
    let d2 = (p.x - c.center.x) * (p.x - c.center.x) + (p.y - c.center.y) * (p.y - c.center.y);
    let r2 = c.radius * c.radius;
    assert(99 * d2 < 100 * r2 && 100 * r2 < 101 * d2);
}

/// A ray fired from `o` straight at the center of a circle, from outside it
/// (its distance `k` to the center exceeds the radius), registers a hit
/// whose parameter is exactly `(k - radius) / k`: the distance to the
/// center minus the radius, measured in units of the direction's length
/// `k`. Its normal is the outward radial vector at the hit point by the
/// construction recorded in [`circle_hit_spec`].
pub proof fn lemma_circle_hit_aimed_at_center(c: Circle, o: Vec2, k: int)
    requires
        circle_wf(c),
        vec_in_coord_range(o),
        1 <= k,
        c.radius < k,
        (c.center.x - o.x) * (c.center.x - o.x) + (c.center.y - o.y) * (c.center.y - o.y)
            == k * k,
    ensures
        ({
            let ray = (Ray {
                o,
                d: Vec2 { x: (c.center.x - o.x) as i64, y: (c.center.y - o.y) as i64 },
            });
            let res = circle_hit_spec(c, ray);
            &&& res is Some
            &&& res.unwrap().t.num == k * (k - c.radius)
            &&& res.unwrap().t.den == k * k
        }),
{
    let ray = (Ray {
        o,
        d: Vec2 { x: (c.center.x - o.x) as i64, y: (c.center.y - o.y) as i64 },
    });
    assert(ray.d.x as int == c.center.x - ray.o.x);
    assert(ray.d.y as int == c.center.y - ray.o.y);
    // the cross product of direction and center offset vanishes
    assert((ray.d.x as int) * (c.center.y - ray.o.y) - (ray.d.y as int) * (c.center.x
        - ray.o.x) == 0) by (nonlinear_arith)
        requires
            ray.d.x as int == c.center.x - ray.o.x,
            ray.d.y as int == c.center.y - ray.o.y,
    ;
    // the squared direction length and the projection both equal k^2
    assert((ray.d.x as int) * (ray.d.x as int) + (ray.d.y as int) * (ray.d.y as int) == k * k
        && (ray.d.x as int) * (c.center.x - ray.o.x) + (ray.d.y as int) * (c.center.y
        - ray.o.y) == k * k) by (nonlinear_arith)
        requires
            ray.d.x as int == c.center.x - ray.o.x,
            ray.d.y as int == c.center.y - ray.o.y,
            c.center.x - ray.o.x == c.center.x - o.x,
            c.center.y - ray.o.y == c.center.y - o.y,
            (c.center.x - o.x) * (c.center.x - o.x) + (c.center.y - o.y) * (c.center.y - o.y)
                == k * k,
    ;
    assert(((ray.d.x as int) * (c.center.y - ray.o.y) - (ray.d.y as int) * (c.center.x
        - ray.o.x)) * ((ray.d.x as int) * (c.center.y - ray.o.y) - (ray.d.y as int)
        * (c.center.x - ray.o.x)) == 0) by (nonlinear_arith)
        requires
            (ray.d.x as int) * (c.center.y - ray.o.y) - (ray.d.y as int) * (c.center.x
                - ray.o.x) == 0,
    ;
    assert(k * k >= 1) by (nonlinear_arith)
        requires
            k >= 1,
    ;
    assert(c.radius * k >= 0) by (nonlinear_arith)
        requires
            c.radius >= 0,
            k >= 1,
    ;
    crate::math::lemma_square_nonneg(c.radius * k);
    // the discriminant is the perfect square (radius * k)^2
    assert(c.radius * c.radius * ((ray.d.x as int) * (ray.d.x as int) + (ray.d.y as int)
        * (ray.d.y as int)) == (c.radius * k) * (c.radius * k)) by (nonlinear_arith)
        requires
            (ray.d.x as int) * (ray.d.x as int) + (ray.d.y as int) * (ray.d.y as int) == k * k,
    ;
    crate::math::lemma_sqrt_floor_of_square(c.radius * k);
    let res = circle_hit_spec(c, ray);
    assert(res is Some);
    // the parameter numerator is k^2 - radius * k == k * (k - radius) >= 1,
    // and everything fits the rational's fields
    assert(k * k - c.radius * k == k * (k - c.radius) && 1 <= k * (k - c.radius)
        && k * (k - c.radius) <= k * k) by (nonlinear_arith)
        requires
            1 <= k,
            0 <= c.radius < k,
    ;
    crate::math::lemma_product_bound(c.center.x - o.x, c.center.x - o.x,
        2 * crate::math::COORD_MAX);
    crate::math::lemma_product_bound(c.center.y - o.y, c.center.y - o.y,
        2 * crate::math::COORD_MAX);
    assert(k * k <= 8 * crate::math::COORD_MAX * crate::math::COORD_MAX);
    assert(res.unwrap().t.num == k * (k - c.radius));
    assert(res.unwrap().t.den == k * k);
}

/// A ray whose line passes the circle farther than the radius — the strict
/// form `cr^2 > radius^2 * |d|^2` of `d > radius` — yields no hit.
pub proof fn lemma_circle_miss(c: Circle, ray: Ray)
    requires
        ({
            let dx = ray.d.x as int;
            let dy = ray.d.y as int;
            let ux = c.center.x - ray.o.x;
            let uy = c.center.y - ray.o.y;
            (dx * uy - dy * ux) * (dx * uy - dy * ux) > c.radius * c.radius * (dx * dx + dy * dy)
        }),
    ensures
        circle_hit_spec(c, ray) is None,
{
}

/// A ray parallel to a segment — `r x s == 0`, the collinear-overlapping
/// case included — never intersects it, whatever the parametric interval.
pub proof fn lemma_parallel_no_hit(l: Line, ray: Ray, t_min: Rat, t_max: Rat)
    requires
        (l.b.x - l.a.x) * (ray.d.y as int) - (l.b.y - l.a.y) * (ray.d.x as int) == 0,
    ensures
        line_hit_spec(l, ray, t_min, t_max) is None,
{
}

/// Any segment hit carries a normal that opposes the incoming ray
/// direction: their dot product is strictly negative.
pub proof fn lemma_segment_normal_opposes_ray(l: Line, ray: Ray, t_min: Rat, t_max: Rat)
    requires
        line_wf(l),
        crate::ray::ray_wf(ray),
        line_hit_spec(l, ray, t_min, t_max) is Some,
    ensures
        ({
            let n = line_hit_spec(l, ray, t_min, t_max).unwrap().normal;
            (n.x as int) * (ray.d.x as int) + (n.y as int) * (ray.d.y as int) < 0
        }),
{
    let rx = l.b.x - l.a.x;
    let ry = l.b.y - l.a.y;
    let sx = ray.d.x as int;
    let sy = ray.d.y as int;
    let rxs = rx * sy - ry * sx;
    let n = line_hit_spec(l, ray, t_min, t_max).unwrap().normal;
    if rxs > 0 {
        assert(n.x as int == ry && n.y as int == -rx);
        assert(ry * sx + (-rx) * sy == -rxs) by (nonlinear_arith)
            requires
                rxs == rx * sy - ry * sx,
        ;
    } else {
        assert(n.x as int == -ry && n.y as int == rx);
        assert((-ry) * sx + rx * sy == rxs) by (nonlinear_arith)
            requires
                rxs == rx * sy - ry * sx,
        ;
    }
}

/// A ray that crosses a segment at its exact midpoint, perpendicular to it
/// and starting one direction-length before the crossing, hits it: the
/// parameter is exactly one direction-length (the perpendicular distance in
/// units of `|d|`), and the returned normal opposes the ray.
pub proof fn lemma_perpendicular_midpoint_hit(l: Line, ray: Ray, t_min: Rat, t_max: Rat)
    requires
        line_wf(l),
        crate::ray::ray_wf(ray),
        rat_wf(t_min),
        rat_wf(t_max),
        // perpendicular to the segment
        (l.b.x - l.a.x) * (ray.d.x as int) + (l.b.y - l.a.y) * (ray.d.y as int) == 0,
        // not parallel (holds for any nonzero perpendicular pair)
        (l.b.x - l.a.x) * (ray.d.y as int) - (l.b.y - l.a.y) * (ray.d.x as int) != 0,
        // the origin sits one direction-length before the segment's midpoint
        2 * (ray.o.x as int) == l.a.x + l.b.x - 2 * (ray.d.x as int),
        2 * (ray.o.y as int) == l.a.y + l.b.y - 2 * (ray.d.y as int),
        // the parametric interval admits the crossing
        rat_le(t_min, Rat { num: 1, den: 1 }),
        rat_lt(Rat { num: 1, den: 1 }, t_max),
    ensures
        line_hit_spec(l, ray, t_min, t_max) is Some,
        line_hit_spec(l, ray, t_min, t_max).unwrap().t.num
            == line_hit_spec(l, ray, t_min, t_max).unwrap().t.den,
        ({
            let n = line_hit_spec(l, ray, t_min, t_max).unwrap().normal;
            (n.x as int) * (ray.d.x as int) + (n.y as int) * (ray.d.y as int) < 0
        }),
{
    let rx = l.b.x - l.a.x;
    let ry = l.b.y - l.a.y;
    let sx = ray.d.x as int;
    let sy = ray.d.y as int;
    let rxs = rx * sy - ry * sx;
    let qpx = ray.o.x - l.a.x;
    let qpy = ray.o.y - l.a.y;
    let tn0 = qpx * sy - qpy * sx;
    let un0 = qpx * ry - qpy * rx;
    assert(2 * qpx == rx - 2 * sx && 2 * qpy == ry - 2 * sy);
    assert(2 * tn0 == rxs && un0 == rxs) by (nonlinear_arith)
        requires
            2 * qpx == rx - 2 * sx,
            2 * qpy == ry - 2 * sy,
            tn0 == qpx * sy - qpy * sx,
            un0 == qpx * ry - qpy * rx,
            rxs == rx * sy - ry * sx,
    ;
    let tn = if rxs < 0 { -tn0 } else { tn0 };
    let un = if rxs < 0 { -un0 } else { un0 };
    let dd = if rxs < 0 { -rxs } else { rxs };
    assert(2 * tn == dd && un == dd && dd >= 1);
    assert(tn >= 1 && tn < dd);
    // the interval check multiplies the unit bound through by dd > 0
    assert(t_min.num * dd <= un * t_min.den) by (nonlinear_arith)
        requires
            t_min.num <= t_min.den,
            un == dd,
            dd >= 1,
    ;
    assert(un * t_max.den < t_max.num * dd) by (nonlinear_arith)
        requires
            t_max.den < t_max.num,
            un == dd,
            dd >= 1,
    ;
    lemma_segment_normal_opposes_ray(l, ray, t_min, t_max);
}

/// The integrator contributes nothing once the bounce budget is exhausted:
/// at depth zero (or below) the color is black, whatever the scene holds.
pub proof fn lemma_trace_depth_zero(ray: Ray, shapes: Seq<Shape>, depth: int)
    requires
        depth <= 0,
    ensures
        ray_color_spec(ray, shapes, depth) == black(),
{
}

} // verus!
