use tracer::math::{Rat, Vec2};
use tracer::ray::Ray;
use tracer::render::{ray_color, render, world, Color, BOUNCES};
use tracer::shape::{Circle, Line};

fn black() -> Color {
    Color { r: 0, g: 0, b: 0 }
}

fn hit_red() -> Color {
    Color { r: 255, g: 0, b: 0 }
}

#[test]
fn circle_contains_interior_not_boundary() {
    let c = Circle::new(Vec2::new(400, 300), 100);
    assert!(c.intersects(Vec2::new(400, 300)));
    assert!(c.intersects(Vec2::new(410, 310)));
    // the boundary is excluded from the strict interior
    assert!(!c.intersects(Vec2::new(400, 200)));
    assert!(!c.intersects(Vec2::new(500, 300)));
}

#[test]
fn circle_surface_band() {
    let c = Circle::new(Vec2::new(400, 300), 100);
    // exactly on the boundary: in the band
    assert!(c.is_on_surface(Vec2::new(400, 200)));
    assert!(c.is_on_surface(Vec2::new(300, 300)));
    // deep interior and the center: outside the band
    assert!(!c.is_on_surface(Vec2::new(400, 300)));
    assert!(!c.is_on_surface(Vec2::new(400, 250)));
    // well outside: outside the band
    assert!(!c.is_on_surface(Vec2::new(400, 150)));
}

#[test]
fn circle_hit_aimed_at_center() {
    // from (100, 300) toward the center (400, 300): distance 300, radius 100
    let c = Circle::new(Vec2::new(400, 300), 100);
    let ray = Ray::new(Vec2::new(100, 300), Vec2::new(300, 0));
    let hit = c.hit(&ray).expect("ray at center must hit");
    // parameter (k - r) / k = 200 / 300 in direction units, scaled by l2
    assert_eq!(hit.t.num, 300 * 200);
    assert_eq!(hit.t.den, 300 * 300);
    assert_eq!(hit.pos, Vec2::new(300, 300));
    assert_eq!(hit.normal, Vec2::new(-100, 0));
}

#[test]
fn circle_hit_tangent() {
    // horizontal ray grazing the top of the circle: exactly one touch point
    let c = Circle::new(Vec2::new(400, 300), 100);
    let ray = Ray::new(Vec2::new(200, 200), Vec2::new(1, 0));
    let hit = c.hit(&ray).expect("tangent ray must hit");
    assert_eq!(hit.t.num, 200);
    assert_eq!(hit.t.den, 1);
    assert_eq!(hit.pos, Vec2::new(400, 200));
    assert_eq!(hit.normal, Vec2::new(0, -100));
    // the normal is perpendicular to the ray direction
    assert_eq!(hit.normal.dot(ray.d), 0);
}

#[test]
fn circle_hit_miss() {
    // the line passes above the circle: no hit at all
    let c = Circle::new(Vec2::new(400, 300), 100);
    let ray = Ray::new(Vec2::new(200, 150), Vec2::new(1, 0));
    assert!(c.hit(&ray).is_none());
}

#[test]
fn segment_hit_perpendicular_midpoint() {
    // the left wall, crossed at its midpoint from one direction-length away
    let l = Line::new(Vec2::new(10, 10), Vec2::new(10, 590));
    let ray = Ray::new(Vec2::new(9, 300), Vec2::new(1, 0));
    let t_min = Rat::new(1, 1000);
    let t_max = Rat::new(1 << 30, 1);
    let hit = l.hit(&ray, &t_min, &t_max).expect("perpendicular ray must hit");
    // the ray parameter is exactly one direction-length
    assert_eq!(hit.t.num, hit.t.den);
    assert_eq!(hit.pos, Vec2::new(10, 300));
    // the normal opposes the incoming direction
    assert!(hit.normal.dot(ray.d) < 0);
}

#[test]
fn segment_parallel_no_hit() {
    let l = Line::new(Vec2::new(10, 10), Vec2::new(10, 590));
    // parallel, offset: never intersects
    let ray = Ray::new(Vec2::new(20, 0), Vec2::new(0, 1));
    let t_min = Rat::new(1, 1000);
    let t_max = Rat::new(1 << 30, 1);
    assert!(l.hit(&ray, &t_min, &t_max).is_none());
    // collinear-overlapping counts as parallel too
    let ray2 = Ray::new(Vec2::new(10, 0), Vec2::new(0, 1));
    assert!(l.hit(&ray2, &t_min, &t_max).is_none());
}

#[test]
fn segment_opposing_direction_never_hits() {
    // a ray whose direction opposes the segment direction gets the swapped,
    // empty validity intervals
    let l = Line::new(Vec2::new(10, 10), Vec2::new(10, 590));
    let ray = Ray::new(Vec2::new(9, 300), Vec2::new(1, -2));
    let t_min = Rat::new(1, 1000);
    let t_max = Rat::new(1 << 30, 1);
    assert!(l.hit(&ray, &t_min, &t_max).is_none());
}

#[test]
fn trace_depth_zero_is_black() {
    let w = world();
    // fired straight at the circle, but with no bounce budget
    let ray = Ray::new(Vec2::new(100, 300), Vec2::new(300, 0));
    assert_eq!(ray_color(&ray, &w, 0), black());
    assert_eq!(ray_color(&ray, &w, -1), black());
    // with budget, the same ray yields the fixed hit color
    assert_eq!(ray_color(&ray, &w, BOUNCES), hit_red());
}

#[test]
fn render_reference_scene_pixels() {
    let mut pixels = vec![0u8; 800 * 600 * 3];
    render(&mut pixels);
    let at = |x: usize, y: usize| {
        let i = (y * 800 + x) * 3;
        (pixels[i], pixels[i + 1], pixels[i + 2])
    };
    // the circle's center lies on no surface: black
    assert_eq!(at(400, 300), (0, 0, 0));
    // the circle's top edge is on-surface; its outward ray still meets the
    // circle's own far intersection, so the pixel takes the hit color
    assert_eq!(at(400, 200), (255, 0, 0));
    // a corner outside the walls and the circle: black
    assert_eq!(at(5, 5), (0, 0, 0));
}
