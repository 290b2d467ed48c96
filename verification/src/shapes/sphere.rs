//! A sphere.

use vstd::prelude::*;

use crate::fx::fx_mul;
use crate::fx::fx_sqrt;
use crate::fx::fxm;
use crate::fx::isqrt_i;
use crate::fx::lemma_mul_abs_bound;
use crate::fx::lemma_tdiv_bound;
use crate::fx::sabs;
use crate::fx::FX_ONE;
use crate::fx::MAX_COORD;
use crate::ray::opt_hit_model;
use crate::ray::ray_wf;
use crate::ray::HitData;
use crate::ray::Ray;
use crate::segment::LineSegment;
use crate::vec3::lemma_dot_fits;
use crate::vec3::lemma_scale_fits;
use crate::vec3::t_add;
use crate::vec3::t_dot;
use crate::vec3::t_in;
use crate::vec3::t_scale;
use crate::vec3::t_sub;
use crate::vec3::Point3;
use crate::vec3::Vec3;
use crate::WorldSpace;

verus! {

/// A sphere at an arbitrary location in 3D space.
#[derive(Clone, Copy)]
pub struct Sphere {
    /// The location of the center of the sphere.
    pub center: Point3<WorldSpace>,
    /// The radius of the sphere.
    pub radius: i64,
    /// Precomputed radius squared.
    pub radius2: i64,
}

/// A well-formed sphere: center and radius in the supported coordinate range,
/// and the squared radius derived from the radius.
pub open spec fn sphere_wf(s: Sphere) -> bool {
    &&& t_in(s.center@, MAX_COORD as int)
    &&& 0 <= s.radius <= MAX_COORD
    &&& s.radius2 as int == fxm(s.radius as int, s.radius as int)
}

/// The closest hit of a ray against a sphere, by the classical geometric
/// construction: project the center onto the ray, reject when the squared
/// distance from the center to the ray reaches the squared radius, and take
/// the nearer nonnegative root otherwise.
pub open spec fn sphere_hit(c: (int, int, int), r2: int, o: (int, int, int), d: (
    int,
    int,
    int,
)) -> Option<((int, int, int), int)> {
    let l = t_sub(c, o);
    let t_ca = t_dot(l, d);
    let d2 = t_dot(l, l) - fxm(t_ca, t_ca);
    if d2 >= r2 {
        None
    } else {
        let t_hc = isqrt_i((r2 - d2) * FX_ONE);
        let t0 = t_ca - t_hc;
        let t1 = t_ca + t_hc;
        if t0 < 0 && t1 < 0 {
            None
        } else {
            let t = if t0 < 0 {
                t1
            } else {
                t0
            };
            Some((t_add(o, t_scale(d, t)), t))
        }
    }
}

impl Sphere {
    /// A sphere from its center and radius.
    pub fn new(center: Point3<WorldSpace>, radius: i64) -> (r: Sphere)
        requires
            t_in(center@, MAX_COORD as int),
            0 <= radius <= MAX_COORD,
        ensures
            r.center == center,
            r.radius == radius,
            sphere_wf(r),
    {
        proof {
            lemma_mul_abs_bound(radius as int, radius as int, MAX_COORD as int, MAX_COORD as int);
        }
        let radius2: i64 = fx_mul(radius, radius);
        Sphere { center, radius, radius2 }
    }

    /// The closest intersection of a ray with the sphere, if any.
    pub fn hit_by(&self, ray: &Ray) -> (r: Option<HitData>)
        requires
            sphere_wf(*self),
            ray_wf(*ray),
        ensures
            opt_hit_model(r) == sphere_hit(self.center@, self.radius2 as int, ray.point@, ray.dir@),
    {
        let l_vec: Vec3<WorldSpace> = self.center.sub_p(&ray.point);
        proof {
            lemma_dot_fits(l_vec@, ray.dir@, 6 * MAX_COORD as int, FX_ONE as int);
            lemma_dot_fits(l_vec@, l_vec@, 6 * MAX_COORD as int, 6 * MAX_COORD as int);
        }
        let t_ca: i64 = l_vec.dot(&ray.dir);
        proof {
            lemma_mul_abs_bound(
                t_ca as int,
                t_ca as int,
                18 * MAX_COORD as int,
                18 * MAX_COORD as int,
            );
            lemma_tdiv_bound(
                t_ca as int * t_ca as int,
                FX_ONE as int,
                (18 * MAX_COORD as int) * (18 * MAX_COORD as int),
            );
        }
        proof {
            lemma_mul_abs_bound(
                self.radius as int,
                self.radius as int,
                MAX_COORD as int,
                MAX_COORD as int,
            );
            lemma_tdiv_bound(
                self.radius as int * self.radius as int,
                FX_ONE as int,
                MAX_COORD as int * MAX_COORD as int,
            );
        }
        let d2: i64 = l_vec.dot(&l_vec) - fx_mul(t_ca, t_ca);
        if d2 >= self.radius2 {
            return None;
        }
        let t_hc: i64 = fx_sqrt(self.radius2 - d2);
        proof {
            crate::fx::lemma_isqrt_le(
                t_hc as int,
                (self.radius2 - d2) as int * FX_ONE as int,
                0x2000_0000_0000,
            );
        }
        let t_0: i64 = t_ca - t_hc;
        let t_1: i64 = t_ca + t_hc;
        if t_0 < 0 && t_1 < 0 {
            return None;
        }
        let t: i64 = if t_0 < 0 {
            t_1
        } else {
            t_0
        };
        proof {
            lemma_scale_fits(ray.dir@, t as int, FX_ONE as int, 0x4000_0000_0000);
        }
        let step: Vec3<WorldSpace> = ray.dir.scale(t);
        let hit_point: Point3<WorldSpace> = ray.point.add_v(&step);
        Some(HitData::new(hit_point, t))
    }

    /// A sphere has no straight edge lines to draw.
    pub fn paths(&self) -> (r: Vec<LineSegment<WorldSpace>>)
        ensures
            r@ =~= Seq::<LineSegment<WorldSpace>>::empty(),
    {
        Vec::new()
    }

    /// The box enclosing the sphere: the center displaced by the radius along
    /// every axis.
    pub fn bounding_box(&self) -> (r: Option<crate::aabb::Aabb<WorldSpace>>)
        requires
            sphere_wf(*self),
        ensures
            r is Some,
            r->Some_0.min@ == t_sub(
                self.center@,
                (self.radius as int, self.radius as int, self.radius as int),
            ),
            r->Some_0.max@ == t_add(
                self.center@,
                (self.radius as int, self.radius as int, self.radius as int),
            ),
    {
        let rv: Vec3<WorldSpace> = Vec3::new(self.radius, self.radius, self.radius);
        let min: Point3<WorldSpace> = self.center.to_vector().minus(&rv).to_point();
        let max: Point3<WorldSpace> = self.center.to_vector().plus(&rv).to_point();
        Some(crate::aabb::Aabb::new(min, max))
    }
}

} // verus!
