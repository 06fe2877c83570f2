//! An intersection record: where along a ray a surface was met, the grid
//! point of the meeting, and the surface normal there.

use vstd::prelude::*;
use crate::math::{Vec2, Rat, rat_wf, vec_in_ray_range};

verus! {

/// The result of a successful ray/shape intersection.
///
/// `t` is the exact rational ray parameter of the intersection (for a circle,
/// of its floor-square-root approximation), measured in units of the ray
/// direction's length and taken absolutely, so it is a distance along the
/// ray's line. `pos` is the intersection point rounded down to the integer
/// grid. `normal` is an unnormalized vector along the surface normal at
/// `pos`, pointing away from the surface on the side the ray approached from.
#[derive(Clone, Copy, Debug, PartialEq, Eq, Structural)]
pub struct Hit {
    pub t: Rat,
    pub pos: Vec2,
    pub normal: Vec2,
}

/// Every hit the library produces satisfies this: a well-formed parameter
/// and in-range position and normal, so the bounce ray built from the hit is
/// itself well-formed.
pub open spec fn hit_in_range(h: Hit) -> bool {
    rat_wf(h.t) && vec_in_ray_range(h.pos) && vec_in_ray_range(h.normal)
}

impl Hit {
    pub fn new(t: Rat, pt: Vec2, norm: Vec2) -> (h: Hit)
        ensures
            h.t == t,
            h.pos == pt,
            h.normal == norm,
    {
        Hit { t, pos: pt, normal: norm }
    }
}

} // verus!
