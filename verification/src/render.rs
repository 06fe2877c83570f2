//! Scene resolution (closest hit), the bounce integrator, and the
//! rasterizer.

use vstd::prelude::*;
use crate::math::{Vec2, Rat, rat_wf, rat_le, rat_lt, vec_in_coord_range, RAT_MAX};
use crate::ray::{Ray, ray_wf};
use crate::hit::{Hit, hit_in_range};
use crate::shape::{
    Shape, Circle, Line, shape_wf, shape_hit_spec, shape_surface_ray_spec,
};

verus! {

/// Output raster width in pixels.
pub const WIDTH: usize = 800;

/// Output raster height in pixels.
pub const HEIGHT: usize = 600;

/// Bounce budget handed to the integrator for each probe ray.
pub const BOUNCES: i32 = 2;

/// An 8-bit RGB color, the unit the rasterizer writes.
#[derive(Clone, Copy, Debug, PartialEq, Eq, Structural)]
pub struct Color {
    pub r: u8,
    pub g: u8,
    pub b: u8,
}

/// The color of a pixel that receives no light.
pub open spec fn black() -> Color {
    Color { r: 0, g: 0, b: 0 }
}

/// The fixed color recorded for any surviving hit.
pub open spec fn hit_color() -> Color {
    Color { r: 255, g: 0, b: 0 }
}

/// Every shape of the scene is well-formed.
pub open spec fn scene_wf(shapes: Seq<Shape>) -> bool {
    forall|i: int| 0 <= i < shapes.len() ==> shape_wf(#[trigger] shapes[i])
}

/// The lower parametric bound used by the integrator: a small positive
/// epsilon that keeps a spawned ray from re-hitting its own spawn point.
pub open spec fn trace_t_min() -> Rat {
    Rat { num: 1, den: 1000 }
}

/// The upper parametric bound used by the integrator: beyond any parameter
/// a well-formed hit can carry, so it never rejects one.
pub open spec fn trace_t_max() -> Rat {
    Rat { num: RAT_MAX, den: 1 }
}

/// Closest-hit resolution across the scene, in shape order. Each shape is
/// probed with an upper bound that tightens to the best parameter found so
/// far, and a candidate is accepted only when its parameter lies in
/// `[t_min, bound)` — the scene enforces the interval on every candidate,
/// including the circles, which do not check it themselves. The strict
/// upper bound resolves ties in favor of the earlier shape.
pub open spec fn hit_world_spec(shapes: Seq<Shape>, ray: Ray, t_min: Rat, t_max: Rat) -> Option<
    Hit,
>
    decreases shapes.len(),
{
    if shapes.len() == 0 {
        None
    } else {
        let prev = hit_world_spec(shapes.drop_last(), ray, t_min, t_max);
        let bound = match prev {
            Some(h) => h.t,
            None => t_max,
        };
        match shape_hit_spec(shapes.last(), ray, t_min, bound) {
            Some(h) => if rat_le(t_min, h.t) && rat_lt(h.t, bound) {
                Some(h)
            } else {
                prev
            },
            None => prev,
        }
    }
}

/// What the bounce integrator returns: black when the depth budget is
/// exhausted or nothing is hit, and the fixed hit color otherwise. The
/// recursive bounce is computed by the executable integrator but its value
/// is deliberately not blended into the result, so the color of a ray is a
/// function of its first hit alone.
pub open spec fn ray_color_spec(ray: Ray, shapes: Seq<Shape>, depth: int) -> Color {
    if depth <= 0 {
        black()
    } else {
        match hit_world_spec(shapes, ray, trace_t_min(), trace_t_max()) {
            Some(h) => hit_color(),
            None => black(),
        }
    }
}

/// The color of the probe at `p`, scanning shapes from index `i` on: the
/// first shape whose surface holds `p` emits a ray that is traced with the
/// fixed bounce budget; if no surface holds `p` the pixel is black.
pub open spec fn ray_query_from(shapes: Seq<Shape>, i: int, p: Vec2) -> Color
    decreases shapes.len() - i,
{
    if i < 0 || i >= shapes.len() {
        black()
    } else {
        match shape_surface_ray_spec(shapes[i], p) {
            Some(r) => ray_color_spec(r, shapes, BOUNCES as int),
            None => ray_query_from(shapes, i + 1, p),
        }
    }
}

/// The color of the probe at `p` over the whole scene.
pub open spec fn ray_query_spec(shapes: Seq<Shape>, p: Vec2) -> Color {
    ray_query_from(shapes, 0, p)
}

/// The reference scene: one circle and four axis-aligned wall segments
/// forming a frame just inside the raster.
pub open spec fn reference_scene() -> Seq<Shape> {
    seq![
        Shape::Circle(Circle { center: Vec2 { x: 400, y: 300 }, radius: 100 }),
        Shape::Line(Line { a: Vec2 { x: 10, y: 10 }, b: Vec2 { x: 10, y: 590 } }),
        Shape::Line(Line { a: Vec2 { x: 10, y: 10 }, b: Vec2 { x: 790, y: 10 } }),
        Shape::Line(Line { a: Vec2 { x: 790, y: 590 }, b: Vec2 { x: 790, y: 10 } }),
        Shape::Line(Line { a: Vec2 { x: 790, y: 590 }, b: Vec2 { x: 10, y: 590 } }),
    ]
}

/// The bytes of the raster hold the probe color of pixel `(qx, qy)`.
pub open spec fn pixel_ok(pixels: Seq<u8>, shapes: Seq<Shape>, qx: int, qy: int) -> bool {
    let idx = (qy * 800 + qx) * 3;
    let c = ray_query_spec(shapes, Vec2 { x: qx as i64, y: qy as i64 });
    pixels[idx] == c.r && pixels[idx + 1] == c.g && pixels[idx + 2] == c.b
}

/// Build the reference scene.
pub fn world() -> (w: Vec<Shape>)
    ensures
        w@ == reference_scene(),
        scene_wf(w@),
        w@.len() == 5,
{
    let mut w: Vec<Shape> = Vec::new();
    w.push(Shape::Circle(Circle::new(Vec2::new(400, 300), 100)));

    let w0: i64 = 10;
    let h0: i64 = 10;
    let w1: i64 = 800 - w0;
    let h1: i64 = 600 - h0;

    // add walls
    w.push(Shape::Line(Line::new(Vec2::new(w0, h0), Vec2::new(w0, h1))));  //   Left wall
    w.push(Shape::Line(Line::new(Vec2::new(w0, h0), Vec2::new(w1, h0))));  //    Top wall
    w.push(Shape::Line(Line::new(Vec2::new(w1, h1), Vec2::new(w1, h0))));  //  Right wall
    w.push(Shape::Line(Line::new(Vec2::new(w1, h1), Vec2::new(w0, h1))));  // Bottom wall

    proof {
        assert(w@ =~= reference_scene());
        assert forall|i: int| 0 <= i < w@.len() implies shape_wf(#[trigger] w@[i]) by {
            assert(shape_wf(reference_scene()[0]));
            assert(shape_wf(reference_scene()[1]));
            assert(shape_wf(reference_scene()[2]));
            assert(shape_wf(reference_scene()[3]));
            assert(shape_wf(reference_scene()[4]));
        }
    }
    w
}

/// Resolve the closest accepted hit across the scene (see
/// [`hit_world_spec`]).
pub fn hit_world(world: &Vec<Shape>, r: &Ray, t_min: Rat, t_max: Rat) -> (res: Option<Hit>)
    requires
        scene_wf(world@),
        ray_wf(*r),
        rat_wf(t_min),
        rat_wf(t_max),
    ensures
        res == hit_world_spec(world@, *r, t_min, t_max),
        res is Some ==> hit_in_range(res.unwrap()),
{
    let mut closest: Rat = t_max;
    let mut ret: Option<Hit> = None;
    let mut i: usize = 0;
    while i < world.len()
        invariant
            0 <= i <= world@.len(),
            scene_wf(world@),
            ray_wf(*r),
            rat_wf(t_min),
            rat_wf(t_max),
            rat_wf(closest),
            ret == hit_world_spec(world@.take(i as int), *r, t_min, t_max),
            closest == match ret {
                Some(h) => h.t,
                None => t_max,
            },
            ret is Some ==> hit_in_range(ret.unwrap()),
        decreases world@.len() - i,
    {
        let shape = world[i];
        let cand = shape.hit(r, &t_min, &closest);
        proof {
            assert(world@.take(i as int + 1).drop_last() =~= world@.take(i as int));
            assert(world@.take(i as int + 1).last() == world@[i as int]);
        }
        match cand {
            Some(h) => {
                if t_min.le(&h.t) && h.t.lt(&closest) {
                    closest = h.t;
                    ret = Some(h);
                }
            },
            None => {},
        }
        i = i + 1;
    }
    proof {
        assert(world@.take(world@.len() as int) =~= world@);
    }
    ret
}

/// The bounce integrator. A zero or negative depth yields black. Otherwise
/// the scene is probed within `[1/1000, RAT_MAX)`; a hit spawns a new ray
/// from the hit position along the hit normal and recurses with one less
/// bounce, and — as the specification records — the recursive color is
/// computed but not blended: any hit yields the fixed hit color.
pub fn ray_color(ray: &Ray, world: &Vec<Shape>, depth: i32) -> (c: Color)
    requires
        ray_wf(*ray),
        scene_wf(world@),
    ensures
        c == ray_color_spec(*ray, world@, depth as int),
    decreases depth,
{
    if depth <= 0 {
        return Color { r: 0, g: 0, b: 0 };
    }
    let t_min = Rat::new(1, 1000);
    let t_max = Rat::new(RAT_MAX, 1);
    let hit = hit_world(world, ray, t_min, t_max);
    match hit {
        Some(hit) => {
            let scattered_ray = Ray::new(hit.pos, hit.normal);
            let _target_col = ray_color(&scattered_ray, world, depth - 1);
            Color { r: 255, g: 0, b: 0 }
        },
        None => Color { r: 0, g: 0, b: 0 },
    }
}

/// The probe for one pixel: the first shape in scene order whose surface
/// holds the pixel's point emits its surface ray, which is traced with the
/// fixed bounce budget; a pixel on no surface is black.
pub fn ray_query(xy: (i64, i64), world: &Vec<Shape>) -> (c: Color)
    requires
        scene_wf(world@),
        vec_in_coord_range(Vec2 { x: xy.0, y: xy.1 }),
    ensures
        c == ray_query_spec(world@, Vec2 { x: xy.0, y: xy.1 }),
{
    let p = Vec2 { x: xy.0, y: xy.1 };
    let mut i: usize = 0;
    while i < world.len()
        invariant
            0 <= i <= world@.len(),
            scene_wf(world@),
            vec_in_coord_range(p),
            p == (Vec2 { x: xy.0, y: xy.1 }),
            ray_query_spec(world@, p) == ray_query_from(world@, i as int, p),
        decreases world@.len() - i,
    {
        let r_opt = world[i].surface_ray(p);
        if r_opt.is_some() {
            let r = r_opt.unwrap();
            return ray_color(&r, world, BOUNCES);
        }
        i = i + 1;
    }
    Color { r: 0, g: 0, b: 0 }
}

/// Rasterize the reference scene: for every pixel of the fixed 800 x 600
/// raster, write the probe color into the flat row-major RGB byte buffer at
/// `(y * 800 + x) * 3`. The colors are bytes already, so no conversion or
/// clamping step is involved.
pub fn render(pixels: &mut Vec<u8>)
    requires
        old(pixels)@.len() == 800 * 600 * 3,
    ensures
        final(pixels)@.len() == 800 * 600 * 3,
        forall|qx: int, qy: int|
            0 <= qx < 800 && 0 <= qy < 600 ==> pixel_ok(final(pixels)@, reference_scene(), qx, qy),
{
    let w = world();
    let mut y: usize = 0;
    while y < HEIGHT
        invariant
            0 <= y <= 600,
            pixels@.len() == 800 * 600 * 3,
            w@ == reference_scene(),
            scene_wf(w@),
            forall|qx: int, qy: int|
                0 <= qx < 800 && 0 <= qy < y ==> pixel_ok(pixels@, reference_scene(), qx, qy),
        decreases 600 - y,
    {
        let mut x: usize = 0;
        while x < WIDTH
            invariant
                0 <= x <= 800,
                0 <= y < 600,
                pixels@.len() == 800 * 600 * 3,
                w@ == reference_scene(),
                scene_wf(w@),
                forall|qx: int, qy: int|
                    0 <= qx < 800 && 0 <= qy < y ==> pixel_ok(pixels@, reference_scene(), qx, qy),
                forall|qx: int|
                    0 <= qx < x ==> pixel_ok(pixels@, reference_scene(), qx, y as int),
            decreases 800 - x,
        {
            let rgb = ray_query((x as i64, y as i64), &w);

            let i: usize = y * WIDTH + x;
            let ghost pre: Seq<u8> = pixels@;
            pixels.set(i * 3, rgb.r);
            pixels.set(i * 3 + 1, rgb.g);
            pixels.set(i * 3 + 2, rgb.b);
            proof {
                assert(i as int == (y as int) * 800 + (x as int));
                assert(pixels@ == pre.update(i * 3, rgb.r).update(i * 3 + 1, rgb.g).update(
                    i * 3 + 2,
                    rgb.b,
                ));
                assert forall|qx: int, qy: int|
                    0 <= qx < 800 && 0 <= qy < (y as int) implies pixel_ok(
                    pixels@,
                    reference_scene(),
                    qx,
                    qy,
                ) by {
                    assert(pixel_ok(pre, reference_scene(), qx, qy));
                    assert((qy * 800 + qx) * 3 + 2 < (i as int) * 3);
                }
                assert forall|qx: int| 0 <= qx < (x as int) implies pixel_ok(
                    pixels@,
                    reference_scene(),
                    qx,
                    y as int,
                ) by {
                    assert(pixel_ok(pre, reference_scene(), qx, y as int));
                    assert(((y as int) * 800 + qx) * 3 + 2 < (i as int) * 3);
                }
                assert(pixel_ok(pixels@, reference_scene(), x as int, y as int));
            }
            x = x + 1;
        }
        y = y + 1;
    }
}

} // verus!
