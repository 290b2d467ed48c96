//! A rectangular prism (an axis-aligned box shape).

use vstd::prelude::*;

use crate::aabb::slab_t;
use crate::aabb::Aabb;
use crate::aabb::HIT_EPS;
use crate::fx::sabs;
use crate::fx::FX_ONE;
use crate::fx::FX_TBIG;
use crate::fx::MAX_COORD;
use crate::ray::opt_hit_model;
use crate::ray::ray_wf;
use crate::ray::HitData;
use crate::ray::Ray;
use crate::segment::seg_bounded_tagged;
use crate::segment::LineSegment;
use crate::vec3::lemma_scale_fits;
use crate::vec3::t_add;
use crate::vec3::t_in;
use crate::vec3::t_le;
use crate::vec3::t_len;
use crate::vec3::t_norm;
use crate::vec3::t_scale;
use crate::vec3::t_sub;
use crate::vec3::Point3;
use crate::vec3::Vec3;
use crate::WorldSpace;

verus! {

/// How far the drawn edge lines of a prism are pushed outward along its
/// diagonal, so they are not swallowed by the prism's own faces: about 0.0015
/// in fixed-point units.
pub const PATH_EXPAND: i64 = 25166;

/// A rectangular prism between two opposite corners.
#[derive(Clone, Copy)]
pub struct RectPrism {
    /// The componentwise-least corner.
    pub min: Vec3<WorldSpace>,
    /// The componentwise-greatest corner.
    pub max: Vec3<WorldSpace>,
    /// The identifier its edge lines carry.
    pub tag: u64,
}

/// A well-formed prism: both corners in the supported coordinate range, the
/// least corner at or below the greatest on every axis.
pub open spec fn prism_wf(p: RectPrism) -> bool {
    &&& t_in(p.min@, MAX_COORD as int)
    &&& t_in(p.max@, MAX_COORD as int)
    &&& t_le(p.min@, p.max@)
}

/// The closest hit of a ray against a prism, by the slab parameters: an
/// origin inside the box (entry before the tolerance) hits the leaving face,
/// an origin outside hits the entering face, and an exit before the entry is
/// a miss. The distance is measured from the ray origin to the hit point.
pub open spec fn prism_hit(mn: (int, int, int), mx: (int, int, int), o: (int, int, int), d: (
    int,
    int,
    int,
)) -> Option<((int, int, int), int)> {
    let iv = slab_t((mn, mx), o, d);
    if iv.0 < HIT_EPS && iv.1 > HIT_EPS {
        let hp = t_add(o, t_scale(d, iv.1));
        Some((hp, t_len(t_sub(hp, o))))
    } else if iv.0 > HIT_EPS && iv.0 < iv.1 {
        let hp = t_add(o, t_scale(d, iv.0));
        Some((hp, t_len(t_sub(hp, o))))
    } else {
        None
    }
}

/// The expansion applied to a prism's edge lines: its diagonal direction,
/// scaled. A degenerate prism with equal corners is left unexpanded.
pub open spec fn prism_expand(p: RectPrism) -> (int, int, int) {
    if t_sub(p.max@, p.min@) == (0int, 0int, 0int) {
        (0int, 0int, 0int)
    } else {
        t_scale(t_norm(t_sub(p.max@, p.min@)), PATH_EXPAND as int)
    }
}

/// One corner of the expanded prism, numbered as the edge list pairs them.
pub open spec fn prism_corner(a: (int, int, int), b: (int, int, int), k: int) -> (int, int, int) {
    if k == 1 {
        (a.0, a.1, a.2)
    } else if k == 2 {
        (b.0, a.1, a.2)
    } else if k == 3 {
        (b.0, a.1, b.2)
    } else if k == 4 {
        (a.0, a.1, b.2)
    } else if k == 5 {
        (a.0, b.1, a.2)
    } else if k == 6 {
        (b.0, b.1, a.2)
    } else if k == 7 {
        (b.0, b.1, b.2)
    } else {
        (a.0, b.1, b.2)
    }
}

/// The corner pair of the `i`-th drawn edge: four edges around the low face,
/// four around the high face, four connecting them.
pub open spec fn prism_edge_corners(i: int) -> (int, int) {
    if i == 0 {
        (1, 2)
    } else if i == 1 {
        (2, 3)
    } else if i == 2 {
        (3, 4)
    } else if i == 3 {
        (4, 1)
    } else if i == 4 {
        (5, 6)
    } else if i == 5 {
        (6, 7)
    } else if i == 6 {
        (7, 8)
    } else if i == 7 {
        (8, 5)
    } else if i == 8 {
        (1, 5)
    } else if i == 9 {
        (2, 6)
    } else if i == 10 {
        (3, 7)
    } else {
        (4, 8)
    }
}

/// The model of the `i`-th drawn edge of a prism.
pub open spec fn prism_edge(p: RectPrism, i: int) -> ((int, int, int), (int, int, int), int) {
    let a = t_sub(p.min@, prism_expand(p));
    let b = t_add(p.max@, prism_expand(p));
    let ks = prism_edge_corners(i);
    (prism_corner(a, b, ks.0), prism_corner(a, b, ks.1), p.tag as int)
}

impl RectPrism {
    /// A prism from its two corners, carrying the default tag.
    pub fn new(min: Vec3<WorldSpace>, max: Vec3<WorldSpace>) -> (r: RectPrism)
        requires
            t_in(min@, MAX_COORD as int),
            t_in(max@, MAX_COORD as int),
            t_le(min@, max@),
        ensures
            r.min == min,
            r.max == max,
            r.tag == 0,
            prism_wf(r),
    {
        Self::tagged(min, max, 0)
    }

    /// A prism from its two corners and the tag its edge lines carry.
    pub fn tagged(min: Vec3<WorldSpace>, max: Vec3<WorldSpace>, tag: u64) -> (r: RectPrism)
        requires
            t_in(min@, MAX_COORD as int),
            t_in(max@, MAX_COORD as int),
            t_le(min@, max@),
        ensures
            r.min == min,
            r.max == max,
            r.tag == tag,
            prism_wf(r),
    {
        RectPrism { min, max, tag }
    }

    /// The closest intersection of a ray with the prism, if any.
    pub fn hit_by(&self, ray: &Ray) -> (r: Option<HitData>)
        requires
            prism_wf(*self),
            ray_wf(*ray),
        ensures
            opt_hit_model(r) == prism_hit(self.min@, self.max@, ray.point@, ray.dir@),
    {
        let bb: Aabb<WorldSpace> = Aabb::new(self.min.to_point(), self.max.to_point());
        let (t0, t1): (i64, i64) = bb.slab(ray);
        let t: i64 = if t0 < HIT_EPS && t1 > HIT_EPS {
            t1
        } else if t0 > HIT_EPS && t0 < t1 {
            t0
        } else {
            return None;
        };
        proof {
            lemma_scale_fits(ray.dir@, t as int, FX_ONE as int, FX_TBIG as int);
        }
        let step: Vec3<WorldSpace> = ray.dir.scale(t);
        let hit_point: Point3<WorldSpace> = ray.point.add_v(&step);
        let dist: i64 = hit_point.sub_p(&ray.point).length();
        Some(HitData::new(hit_point, dist))
    }

    /// The twelve edge lines of the prism, pushed slightly outward so the
    /// prism's own faces do not swallow them.
    #[verifier::rlimit(60)]
    pub fn paths(&self) -> (r: Vec<LineSegment<WorldSpace>>)
        requires
            prism_wf(*self),
        ensures
            r@.len() == 12,
            forall|i: int| 0 <= i < 12 ==> (#[trigger] r@[i])@ == prism_edge(*self, i),
            forall|i: int|
                0 <= i < r@.len() ==> seg_bounded_tagged((#[trigger] r@[i])@, self.tag as int),
    {
        let diff: Vec3<WorldSpace> = self.max.minus(&self.min);
        let expand: Vec3<WorldSpace> = if diff.x == 0 && diff.y == 0 && diff.z == 0 {
            Vec3::new(0, 0, 0)
        } else {
            diff.normalize().scale(PATH_EXPAND)
        };
        let pathmin: Vec3<WorldSpace> = self.min.minus(&expand);
        let pathmax: Vec3<WorldSpace> = self.max.plus(&expand);

        let (x1, y1, z1): (i64, i64, i64) = (pathmin.x, pathmin.y, pathmin.z);
        let (x2, y2, z2): (i64, i64, i64) = (pathmax.x, pathmax.y, pathmax.z);

        let p1: Point3<WorldSpace> = Point3::new(x1, y1, z1);
        let p2: Point3<WorldSpace> = Point3::new(x2, y1, z1);
        let p3: Point3<WorldSpace> = Point3::new(x2, y1, z2);
        let p4: Point3<WorldSpace> = Point3::new(x1, y1, z2);

        let p5: Point3<WorldSpace> = Point3::new(x1, y2, z1);
        let p6: Point3<WorldSpace> = Point3::new(x2, y2, z1);
        let p7: Point3<WorldSpace> = Point3::new(x2, y2, z2);
        let p8: Point3<WorldSpace> = Point3::new(x1, y2, z2);

        let mut out: Vec<LineSegment<WorldSpace>> = Vec::new();
        out.push(LineSegment::tagged(p1, p2, self.tag));
        out.push(LineSegment::tagged(p2, p3, self.tag));
        out.push(LineSegment::tagged(p3, p4, self.tag));
        out.push(LineSegment::tagged(p4, p1, self.tag));
        out.push(LineSegment::tagged(p5, p6, self.tag));
        out.push(LineSegment::tagged(p6, p7, self.tag));
        out.push(LineSegment::tagged(p7, p8, self.tag));
        out.push(LineSegment::tagged(p8, p5, self.tag));
        out.push(LineSegment::tagged(p1, p5, self.tag));
        out.push(LineSegment::tagged(p2, p6, self.tag));
        out.push(LineSegment::tagged(p3, p7, self.tag));
        out.push(LineSegment::tagged(p4, p8, self.tag));
        proof {
            let a = t_sub(self.min@, prism_expand(*self));
            let b = t_add(self.max@, prism_expand(*self));
            assert(t_in(a, 2 * MAX_COORD as int) && t_in(b, 2 * MAX_COORD as int));
            assert forall|i: int| 0 <= i < out@.len() implies seg_bounded_tagged(
                (#[trigger] out@[i])@,
                self.tag as int,
            ) by {
                assert(out@[i]@ == prism_edge(*self, i));
                let ks = prism_edge_corners(i);
                assert(t_in(prism_corner(a, b, ks.0), 2 * MAX_COORD as int));
                assert(t_in(prism_corner(a, b, ks.1), 2 * MAX_COORD as int));
            }
        }
        out
    }

    /// The box between the prism's corners.
    pub fn bounding_box(&self) -> (r: Option<Aabb<WorldSpace>>)
        ensures
            r is Some,
            r->Some_0.min@ == self.min@,
            r->Some_0.max@ == self.max@,
    {
        Some(Aabb::new(self.min.to_point(), self.max.to_point()))
    }
}

impl From<Aabb<WorldSpace>> for RectPrism {
    /// The untagged prism spanning a box.
    fn from(value: Aabb<WorldSpace>) -> (r: RectPrism) {
        RectPrism { min: value.min.to_vector(), max: value.max.to_vector(), tag: 0 }
    }
}

impl vstd::std_specs::convert::FromSpecImpl<Aabb<WorldSpace>> for RectPrism {
    open spec fn obeys_from_spec() -> bool {
        true
    }

    open spec fn from_spec(value: Aabb<WorldSpace>) -> RectPrism {
        RectPrism {
            min: Vec3 { x: value.min.x, y: value.min.y, z: value.min.z, space: value.min.space },
            max: Vec3 { x: value.max.x, y: value.max.y, z: value.max.z, space: value.max.space },
            tag: 0,
        }
    }
}

} // verus!
