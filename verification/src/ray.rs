//! A ray: an origin and an unnormalized direction on the integer grid,
//! sampled by a scalar parameter.

use vstd::prelude::*;
use crate::math::{Vec2, RAY_MAX};

verus! {

/// Origin plus direction. The direction need not be a unit vector: every
/// consumer in this crate is scale-free, and a ray's parameter is measured
/// in units of the direction's length.
#[derive(Clone, Copy, Debug, PartialEq, Eq, Structural)]
pub struct Ray {
    pub o: Vec2,
    pub d: Vec2,
}

/// Well-formedness of a ray: all four coordinates lie within the ray bound.
/// A zero direction is allowed; such a ray hits nothing.
pub open spec fn ray_wf(r: Ray) -> bool {
    crate::math::vec_in_ray_range(r.o) && crate::math::vec_in_ray_range(r.d)
}

impl Ray {
    pub fn new(origin: Vec2, dir: Vec2) -> (r: Ray)
        ensures
            r.o == origin,
            r.d == dir,
    {
        Ray { o: origin, d: dir }
    }

    /// Sample the ray at an integer parameter: `o + d * t`.
    pub fn at(&self, t: i64) -> (p: Vec2)
        requires
            ray_wf(*self),
            -RAY_MAX <= t <= RAY_MAX,
        ensures
            p.x == self.o.x + self.d.x * t,
            p.y == self.o.y + self.d.y * t,
    {
        proof {
            crate::math::lemma_product_bound(self.d.x as int, t as int, RAY_MAX as int);
            crate::math::lemma_product_bound(self.d.y as int, t as int, RAY_MAX as int);
        }
        Vec2 { x: self.o.x + self.d.x * t, y: self.o.y + self.d.y * t }
    }
}

} // verus!
