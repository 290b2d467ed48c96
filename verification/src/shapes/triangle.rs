//! A triangle.

use vstd::prelude::*;

use crate::fx::fx_div_pos;
use crate::fx::tdiv;
use crate::fx::FX_ONE;
use crate::fx::MAX_COORD;
use crate::ray::opt_hit_model;
use crate::ray::ray_wf;
use crate::ray::HitData;
use crate::ray::Ray;
use crate::segment::seg_bounded_tagged;
use crate::segment::LineSegment;
use crate::shapes::plane::plane_hit;
use crate::shapes::plane::plane_wf;
use crate::shapes::plane::Plane;
use crate::vec3::lemma_cross_fits;
use crate::vec3::lemma_dot_fits;
use crate::vec3::lemma_scale_fits;
use crate::vec3::t_add;
use crate::vec3::t_cross;
use crate::vec3::t_dot;
use crate::vec3::t_in;
use crate::vec3::t_max;
use crate::vec3::t_min;
use crate::vec3::t_norm;
use crate::vec3::t_scale;
use crate::vec3::t_sub;
use crate::vec3::Point3;
use crate::vec3::Vec3;
use crate::WorldSpace;

verus! {

/// How far the drawn edge lines of a triangle are pushed outward from its
/// centroid, so they are not swallowed by the triangle's own face: about
/// 0.015 in fixed-point units.
pub const TRI_EXPAND: i64 = 251658;

/// A triangle, with its edges and supporting plane precomputed.
#[derive(Clone, Copy)]
pub struct Triangle {
    /// The three corners.
    pub v0: Point3<WorldSpace>,
    pub v1: Point3<WorldSpace>,
    pub v2: Point3<WorldSpace>,
    /// The displacement along each side, corner to corner around the
    /// triangle.
    pub e0: Vec3<WorldSpace>,
    pub e1: Vec3<WorldSpace>,
    pub e2: Vec3<WorldSpace>,
    /// The supporting plane through the first corner.
    pub plane: Plane,
    /// The identifier its edge lines carry.
    pub tag: u64,
}

/// The normal of the triangle's supporting plane: the normalized cross
/// product of two sides. A degenerate triangle whose sides are parallel keeps
/// the zero normal, and its plane then rejects every ray.
pub open spec fn tri_normal(v0: (int, int, int), v1: (int, int, int), v2: (int, int, int)) -> (
    int,
    int,
    int,
) {
    let c = t_cross(t_sub(v1, v0), t_sub(v2, v0));
    if c == (0int, 0int, 0int) {
        (0int, 0int, 0int)
    } else {
        t_norm(c)
    }
}

/// A well-formed triangle: corners in the supported coordinate range, edges
/// and plane derived from the corners.
pub open spec fn tri_wf(t: Triangle) -> bool {
    &&& t_in(t.v0@, MAX_COORD as int)
    &&& t_in(t.v1@, MAX_COORD as int)
    &&& t_in(t.v2@, MAX_COORD as int)
    &&& t.e0@ == t_sub(t.v1@, t.v0@)
    &&& t.e1@ == t_sub(t.v2@, t.v1@)
    &&& t.e2@ == t_sub(t.v0@, t.v2@)
    &&& t.plane.point@ == t.v0@
    &&& t.plane.normal@ == tri_normal(t.v0@, t.v1@, t.v2@)
    &&& plane_wf(t.plane)
}

/// The edge test of one corner: the signed alignment of the plane normal
/// with the cross product of the side at that corner and the displacement of
/// the hit point from the corner.
pub open spec fn tri_edge_sign(
    nn: (int, int, int),
    edge: (int, int, int),
    vert: (int, int, int),
    hp: (int, int, int),
) -> int {
    t_dot(nn, t_cross(edge, t_sub(hp, vert)))
}

/// The closest hit of a ray against a triangle: the hit of its supporting
/// plane, kept only when it lies strictly on one side of all three edges. A
/// plane hit outside twice the supported coordinate range counts as a miss.
pub open spec fn tri_hit(t: Triangle, o: (int, int, int), d: (int, int, int)) -> Option<
    ((int, int, int), int),
> {
    match plane_hit(t.plane.point@, t.plane.normal@, o, d) {
        None => None,
        Some(h) => {
            let hp = h.0;
            if !t_in(hp, 2 * MAX_COORD as int) {
                None
            } else {
                let s0 = tri_edge_sign(t.plane.normal@, t.e0@, t.v0@, hp);
                let s1 = tri_edge_sign(t.plane.normal@, t.e1@, t.v1@, hp);
                let s2 = tri_edge_sign(t.plane.normal@, t.e2@, t.v2@, hp);
                if (s0 > 0 && s1 > 0 && s2 > 0) || (s0 < 0 && s1 < 0 && s2 < 0) {
                    Some(h)
                } else {
                    None
                }
            }
        },
    }
}

/// The centroid of the three corners.
pub open spec fn tri_centroid(v0: (int, int, int), v1: (int, int, int), v2: (int, int, int)) -> (
    int,
    int,
    int,
) {
    (tdiv(v0.0 + v1.0 + v2.0, 3), tdiv(v0.1 + v1.1 + v2.1, 3), tdiv(v0.2 + v1.2 + v2.2, 3))
}

/// A corner pushed outward from the centroid for drawing. A corner that
/// coincides with the centroid stays in place.
pub open spec fn tri_path_vert(v: (int, int, int), c: (int, int, int)) -> (int, int, int) {
    if t_sub(v, c) == (0int, 0int, 0int) {
        v
    } else {
        t_add(v, t_scale(t_norm(t_sub(v, c)), TRI_EXPAND as int))
    }
}

impl Triangle {
    /// A triangle from its corners, carrying the default tag.
    pub fn new(v0: Point3<WorldSpace>, v1: Point3<WorldSpace>, v2: Point3<WorldSpace>) -> (r:
        Triangle)
        requires
            t_in(v0@, MAX_COORD as int),
            t_in(v1@, MAX_COORD as int),
            t_in(v2@, MAX_COORD as int),
        ensures
            r.v0 == v0 && r.v1 == v1 && r.v2 == v2,
            r.tag == 0,
            tri_wf(r),
    {
        Self::tagged(v0, v1, v2, 0)
    }

    /// A triangle from its corners and the tag its edge lines carry.
    pub fn tagged(v0: Point3<WorldSpace>, v1: Point3<WorldSpace>, v2: Point3<WorldSpace>, tag: u64) -> (r: Triangle)
        requires
            t_in(v0@, MAX_COORD as int),
            t_in(v1@, MAX_COORD as int),
            t_in(v2@, MAX_COORD as int),
        ensures
            r.v0 == v0 && r.v1 == v1 && r.v2 == v2,
            r.tag == tag,
            tri_wf(r),
    {
        let e0: Vec3<WorldSpace> = v1.sub_p(&v0);
        let e1: Vec3<WorldSpace> = v2.sub_p(&v1);
        let e2: Vec3<WorldSpace> = v0.sub_p(&v2);
        let s01: Vec3<WorldSpace> = v1.sub_p(&v0);
        let s02: Vec3<WorldSpace> = v2.sub_p(&v0);
        proof {
            lemma_cross_fits(s01@, s02@, 2 * MAX_COORD as int, 2 * MAX_COORD as int);
        }
        let c: Vec3<WorldSpace> = s01.cross(&s02);
        let normal: Vec3<WorldSpace> = if c.x == 0 && c.y == 0 && c.z == 0 {
            Vec3::new(0, 0, 0)
        } else {
            c.normalize()
        };
        let plane: Plane = Plane::new(v0, normal);
        Triangle { v0, v1, v2, e0, e1, e2, plane, tag }
    }

    /// The closest intersection of a ray with the triangle, if any.
    pub fn hit_by(&self, ray: &Ray) -> (r: Option<HitData>)
        requires
            tri_wf(*self),
            ray_wf(*ray),
        ensures
            opt_hit_model(r) == tri_hit(*self, ray.point@, ray.dir@),
    {
        let p_hit: Option<HitData> = self.plane.hit_by(ray);
        let hitdata: HitData = match p_hit {
            Some(h) => h,
            None => {
                return None;
            },
        };
        let hp: Point3<WorldSpace> = hitdata.hit_point;
        let far: i64 = 2 * MAX_COORD;
        if hp.x > far || hp.x < -far || hp.y > far || hp.y < -far || hp.z > far || hp.z < -far {
            return None;
        }
        let s0: i64 = self.edge_sign(&self.e0, &self.v0, &hp);
        let s1: i64 = self.edge_sign(&self.e1, &self.v1, &hp);
        let s2: i64 = self.edge_sign(&self.e2, &self.v2, &hp);
        if (s0 > 0 && s1 > 0 && s2 > 0) || (s0 < 0 && s1 < 0 && s2 < 0) {
            Some(hitdata)
        } else {
            None
        }
    }

    /// The edge test of one corner against a candidate hit point.
    fn edge_sign(&self, edge: &Vec3<WorldSpace>, vert: &Point3<WorldSpace>, hp: &Point3<WorldSpace>) -> (r: i64)
        requires
            tri_wf(*self),
            t_in(edge@, 2 * MAX_COORD as int),
            t_in(vert@, MAX_COORD as int),
            t_in(hp@, 2 * MAX_COORD as int),
        ensures
            r as int == tri_edge_sign(self.plane.normal@, edge@, vert@, hp@),
    {
        let vp: Vec3<WorldSpace> = hp.sub_p(vert);
        proof {
            lemma_cross_fits(edge@, vp@, 2 * MAX_COORD as int, 3 * MAX_COORD as int);
            lemma_dot_fits(
                self.plane.normal@,
                t_cross(edge@, vp@),
                FX_ONE as int,
                (2 * ((2 * MAX_COORD as int) * (3 * MAX_COORD as int))) / FX_ONE as int,
            );
        }
        let c: Vec3<WorldSpace> = edge.cross(&vp);
        self.plane.normal.dot(&c)
    }

    /// The three edge lines of the triangle, each corner pushed slightly
    /// outward from the centroid so the triangle's own face does not swallow
    /// them.
    pub fn paths(&self) -> (r: Vec<LineSegment<WorldSpace>>)
        requires
            tri_wf(*self),
        ensures
            r@.len() == 3,
            r@[0]@ == (
                tri_path_vert(self.v0@, tri_centroid(self.v0@, self.v1@, self.v2@)),
                tri_path_vert(self.v1@, tri_centroid(self.v0@, self.v1@, self.v2@)),
                self.tag as int,
            ),
            r@[1]@ == (
                tri_path_vert(self.v1@, tri_centroid(self.v0@, self.v1@, self.v2@)),
                tri_path_vert(self.v2@, tri_centroid(self.v0@, self.v1@, self.v2@)),
                self.tag as int,
            ),
            r@[2]@ == (
                tri_path_vert(self.v2@, tri_centroid(self.v0@, self.v1@, self.v2@)),
                tri_path_vert(self.v0@, tri_centroid(self.v0@, self.v1@, self.v2@)),
                self.tag as int,
            ),
            forall|i: int|
                0 <= i < r@.len() ==> seg_bounded_tagged((#[trigger] r@[i])@, self.tag as int),
    {
        let cx: i64 = fx_div_pos(self.v0.x + self.v1.x + self.v2.x, 3);
        let cy: i64 = fx_div_pos(self.v0.y + self.v1.y + self.v2.y, 3);
        let cz: i64 = fx_div_pos(self.v0.z + self.v1.z + self.v2.z, 3);
        let centroid: Point3<WorldSpace> = Point3::new(cx, cy, cz);
        let p0: Point3<WorldSpace> = Self::path_vert(&self.v0, &centroid);
        let p1: Point3<WorldSpace> = Self::path_vert(&self.v1, &centroid);
        let p2: Point3<WorldSpace> = Self::path_vert(&self.v2, &centroid);
        let mut out: Vec<LineSegment<WorldSpace>> = Vec::new();
        out.push(LineSegment::tagged(p0, p1, self.tag));
        out.push(LineSegment::tagged(p1, p2, self.tag));
        out.push(LineSegment::tagged(p2, p0, self.tag));
        out
    }

    /// One corner pushed outward from the centroid.
    fn path_vert(v: &Point3<WorldSpace>, c: &Point3<WorldSpace>) -> (r: Point3<WorldSpace>)
        requires
            t_in(v@, MAX_COORD as int),
            t_in(c@, 3 * MAX_COORD as int),
        ensures
            r@ == tri_path_vert(v@, c@),
            t_in(r@, MAX_COORD as int + TRI_EXPAND as int),
    {
        let d: Vec3<WorldSpace> = v.sub_p(&c.to_vector().to_point());
        if d.x == 0 && d.y == 0 && d.z == 0 {
            Point3::new(v.x, v.y, v.z)
        } else {
            let dn: Vec3<WorldSpace> = d.normalize();
            proof {
                lemma_scale_fits(dn@, TRI_EXPAND as int, FX_ONE as int, TRI_EXPAND as int);
            }
            let step: Vec3<WorldSpace> = dn.scale(TRI_EXPAND);
            v.add_v(&step)
        }
    }

    /// The box enclosing the three corners.
    pub fn bounding_box(&self) -> (r: Option<crate::aabb::Aabb<WorldSpace>>)
        ensures
            r is Some,
            r->Some_0.min@ == t_min(t_min(self.v0@, self.v1@), self.v2@),
            r->Some_0.max@ == t_max(t_max(self.v0@, self.v1@), self.v2@),
    {
        let min: Point3<WorldSpace> = self.v0.to_vector().comp_min(&self.v1.to_vector()).comp_min(
            &self.v2.to_vector(),
        ).to_point();
        let max: Point3<WorldSpace> = self.v0.to_vector().comp_max(&self.v1.to_vector()).comp_max(
            &self.v2.to_vector(),
        ).to_point();
        Some(crate::aabb::Aabb::new(min, max))
    }
}

} // verus!
