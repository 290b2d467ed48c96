//! Rays and hit records.

use vstd::prelude::*;

use crate::fx::FX_ONE;
use crate::fx::MAX_COORD;
use crate::vec3::t_in;
use crate::vec3::t_norm;
use crate::vec3::Point3;
use crate::vec3::Vec3;
use crate::WorldSpace;

verus! {

/// A ray: a point in space and a direction towards which the ray continues
/// without bound.
#[derive(Clone, Copy)]
pub struct Ray {
    /// The point in space from which the ray originates.
    pub point: Point3<WorldSpace>,
    /// The direction towards which the ray extends. Must be normalized.
    pub dir: Vec3<WorldSpace>,
}

/// A well-formed ray: the direction came out of a normalization (componentwise
/// within one unit, not the zero vector) and the origin lies in the supported
/// coordinate range.
pub open spec fn ray_wf(r: Ray) -> bool {
    &&& t_in(r.dir@, FX_ONE as int)
    &&& r.dir@ != (0int, 0int, 0int)
    &&& t_in(r.point@, 4 * MAX_COORD as int)
}

impl Ray {
    /// A ray from an origin and an already normalized direction.
    pub fn new(point: Point3<WorldSpace>, dir: Vec3<WorldSpace>) -> (r: Ray)
        requires
            t_in(dir@, FX_ONE as int),
            dir@ != (0int, 0int, 0int),
            t_in(point@, 4 * MAX_COORD as int),
        ensures
            r.point == point,
            r.dir == dir,
            ray_wf(r),
    {
        Ray { point, dir }
    }

    /// A ray from an origin and an arbitrary nonzero direction, which is
    /// normalized first.
    pub fn normalize_new(point: Point3<WorldSpace>, dir: Vec3<WorldSpace>) -> (r: Ray)
        requires
            t_in(dir@, 0x1000_0000_0000_0000),
            dir@ != (0int, 0int, 0int),
            t_in(point@, 4 * MAX_COORD as int),
        ensures
            r.point == point,
            r.dir@ == t_norm(dir@),
            ray_wf(r),
    {
        let d: Vec3<WorldSpace> = dir.normalize();
        Ray { point, dir: d }
    }
}

/// A record of the shape location that a ray has struck.
#[derive(Clone, Copy)]
pub struct HitData {
    /// The point in space at which the shape was hit.
    pub hit_point: Point3<WorldSpace>,
    /// The distance the ray travelled to hit the shape, in ray-parameter
    /// units (the direction is normalized).
    pub dist_to: i64,
}

impl HitData {
    /// A hit record from its parts.
    pub fn new(hit_point: Point3<WorldSpace>, dist_to: i64) -> (r: HitData)
        ensures
            r.hit_point == hit_point,
            r.dist_to == dist_to,
    {
        HitData { hit_point, dist_to }
    }
}

/// The mathematical model of a hit record: the hit point's coordinate triple
/// and the distance.
pub open spec fn hit_model(h: HitData) -> ((int, int, int), int) {
    (h.hit_point@, h.dist_to as int)
}

/// The model of an optional hit record.
pub open spec fn opt_hit_model(o: Option<HitData>) -> Option<((int, int, int), int)> {
    match o {
        Some(h) => Some(hit_model(h)),
        None => None,
    }
}

} // verus!
