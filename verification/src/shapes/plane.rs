//! An infinite plane.

use vstd::prelude::*;

use crate::fx::fx_div_clamp;
use crate::fx::fxd;
use crate::fx::iclamp;
use crate::fx::sabs;
use crate::fx::FX_ONE;
use crate::fx::FX_TBIG;
use crate::fx::MAX_COORD;
use crate::ray::hit_model;
use crate::ray::opt_hit_model;
use crate::ray::ray_wf;
use crate::ray::HitData;
use crate::ray::Ray;
use crate::segment::LineSegment;
use crate::vec3::lemma_dot_fits;
use crate::vec3::lemma_scale_fits;
use crate::vec3::t_add;
use crate::vec3::t_dot;
use crate::vec3::t_in;
use crate::vec3::t_scale;
use crate::vec3::t_sub;
use crate::vec3::Point3;
use crate::vec3::Vec3;
use crate::WorldSpace;

verus! {

/// An infinite plane in 3D space.
#[derive(Clone, Copy)]
pub struct Plane {
    /// An arbitrary point in space which lies on the plane.
    pub point: Point3<WorldSpace>,
    /// A normal vector to the plane.
    pub normal: Vec3<WorldSpace>,
}

/// A well-formed plane: its anchor point lies in the supported coordinate
/// range and its normal is normalized.
pub open spec fn plane_wf(p: Plane) -> bool {
    &&& t_in(p.point@, MAX_COORD as int)
    &&& t_in(p.normal@, FX_ONE as int)
}

/// The closest hit of a ray against a plane: the ray parameter solving the
/// plane equation, rejected when negative or when the ray runs parallel to
/// the plane.
pub open spec fn plane_hit(pp: (int, int, int), nn: (int, int, int), o: (int, int, int), d: (
    int,
    int,
    int,
)) -> Option<((int, int, int), int)> {
    let rdn = t_dot(d, nn);
    if rdn == 0 {
        None
    } else {
        let t = iclamp(fxd(t_dot(t_sub(pp, o), nn), rdn), -FX_TBIG as int, FX_TBIG as int);
        if t < 0 {
            None
        } else {
            Some((t_add(o, t_scale(d, t)), t))
        }
    }
}

impl Plane {
    /// A plane from a point on it and a normal to it.
    pub fn new(point: Point3<WorldSpace>, normal: Vec3<WorldSpace>) -> (r: Plane)
        requires
            t_in(point@, MAX_COORD as int),
            t_in(normal@, FX_ONE as int),
        ensures
            r.point == point,
            r.normal == normal,
            plane_wf(r),
    {
        Plane { point, normal }
    }

    /// The closest intersection of a ray with the plane, if any.
    pub fn hit_by(&self, ray: &Ray) -> (r: Option<HitData>)
        requires
            plane_wf(*self),
            ray_wf(*ray),
        ensures
            opt_hit_model(r) == plane_hit(self.point@, self.normal@, ray.point@, ray.dir@),
    {
        proof {
            lemma_dot_fits(ray.dir@, self.normal@, FX_ONE as int, FX_ONE as int);
        }
        let rdn: i64 = ray.dir.dot(&self.normal);
        if rdn == 0 {
            return None;
        }
        let diff: Vec3<WorldSpace> = self.point.sub_p(&ray.point);
        proof {
            lemma_dot_fits(diff@, self.normal@, 6 * MAX_COORD as int, FX_ONE as int);
        }
        let num: i64 = diff.dot(&self.normal);
        let t: i64 = fx_div_clamp(num, rdn);
        if t < 0 {
            return None;
        }
        proof {
            lemma_scale_fits(ray.dir@, t as int, FX_ONE as int, FX_TBIG as int);
        }
        let step: Vec3<WorldSpace> = ray.dir.scale(t);
        let hit_point: Point3<WorldSpace> = ray.point.add_v(&step);
        Some(HitData::new(hit_point, t))
    }

    /// A plane is unbounded and draws no edge lines of its own.
    pub fn paths(&self) -> (r: Vec<LineSegment<WorldSpace>>)
        ensures
            r@ =~= Seq::<LineSegment<WorldSpace>>::empty(),
    {
        Vec::new()
    }

    /// A plane has no bounding box.
    pub fn bounding_box(&self) -> (r: Option<crate::aabb::Aabb<WorldSpace>>)
        ensures
            r is None,
    {
        None
    }
}

} // verus!
