//! The primitive shapes a scene can hold, and the closed capability they all
//! honour: a ray hit test, a list of edge lines to draw, and an optional
//! bounding box.

use vstd::prelude::*;

pub mod plane;
pub mod rectprism;
pub mod sphere;
pub mod triangle;

pub use self::plane::Plane;
pub use self::rectprism::RectPrism;
pub use self::sphere::Sphere;
pub use self::triangle::Triangle;

use crate::aabb::Aabb;
use crate::fx::MAX_COORD;
use crate::ray::opt_hit_model;
use crate::ray::ray_wf;
use crate::ray::HitData;
use crate::ray::Ray;
use crate::path::segs_model;
use crate::segment::seg_bounded_tagged;
use crate::segment::LineSegment;
use crate::shapes::plane::plane_hit;
use crate::shapes::plane::plane_wf;
use crate::shapes::rectprism::prism_edge;
use crate::shapes::rectprism::prism_hit;
use crate::shapes::rectprism::prism_wf;
use crate::shapes::sphere::sphere_hit;
use crate::shapes::sphere::sphere_wf;
use crate::shapes::triangle::tri_centroid;
use crate::shapes::triangle::tri_hit;
use crate::shapes::triangle::tri_path_vert;
use crate::shapes::triangle::tri_wf;
use crate::vec3::t_add;
use crate::vec3::t_in;
use crate::vec3::t_le;
use crate::vec3::t_max;
use crate::vec3::t_min;
use crate::vec3::t_sub;
use crate::WorldSpace;

verus! {

/// A primitive shape: one of the closed set of kinds the renderer draws.
#[derive(Clone, Copy)]
pub enum Shape {
    Prism(RectPrism),
    Tri(Triangle),
    Flat(Plane),
    Ball(Sphere),
}

/// A well-formed shape, by its kind.
pub open spec fn shape_wf(s: Shape) -> bool {
    match s {
        Shape::Prism(p) => prism_wf(p),
        Shape::Tri(t) => tri_wf(t),
        Shape::Flat(p) => plane_wf(p),
        Shape::Ball(b) => sphere_wf(b),
    }
}

/// The identifier a shape's edge lines carry. Planes and spheres draw no
/// edge lines and carry the default.
pub open spec fn shape_tag(s: Shape) -> int {
    match s {
        Shape::Prism(p) => p.tag as int,
        Shape::Tri(t) => t.tag as int,
        Shape::Flat(_) => 0,
        Shape::Ball(_) => 0,
    }
}

/// The closest hit of a ray against a shape, by its kind.
pub open spec fn shape_hit(s: Shape, o: (int, int, int), d: (int, int, int)) -> Option<
    ((int, int, int), int),
> {
    match s {
        Shape::Prism(p) => prism_hit(p.min@, p.max@, o, d),
        Shape::Tri(t) => tri_hit(t, o, d),
        Shape::Flat(p) => plane_hit(p.point@, p.normal@, o, d),
        Shape::Ball(b) => sphere_hit(b.center@, b.radius2 as int, o, d),
    }
}

/// The edge lines a shape draws, by its kind: the twelve expanded edges of a
/// prism, the three expanded sides of a triangle, nothing for a plane or a
/// sphere.
pub open spec fn shape_paths_model(s: Shape) -> Seq<((int, int, int), (int, int, int), int)> {
    match s {
        Shape::Prism(p) => Seq::new(12, |i: int| prism_edge(p, i)),
        Shape::Tri(t) => seq![
            (
                tri_path_vert(t.v0@, tri_centroid(t.v0@, t.v1@, t.v2@)),
                tri_path_vert(t.v1@, tri_centroid(t.v0@, t.v1@, t.v2@)),
                t.tag as int,
            ),
            (
                tri_path_vert(t.v1@, tri_centroid(t.v0@, t.v1@, t.v2@)),
                tri_path_vert(t.v2@, tri_centroid(t.v0@, t.v1@, t.v2@)),
                t.tag as int,
            ),
            (
                tri_path_vert(t.v2@, tri_centroid(t.v0@, t.v1@, t.v2@)),
                tri_path_vert(t.v0@, tri_centroid(t.v0@, t.v1@, t.v2@)),
                t.tag as int,
            ),
        ],
        Shape::Flat(_) => Seq::empty(),
        Shape::Ball(_) => Seq::empty(),
    }
}

/// The bounding box of a shape, by its kind; a plane has none.
pub open spec fn shape_bbox(s: Shape) -> Option<((int, int, int), (int, int, int))> {
    match s {
        Shape::Prism(p) => Some((p.min@, p.max@)),
        Shape::Tri(t) => Some(
            (t_min(t_min(t.v0@, t.v1@), t.v2@), t_max(t_max(t.v0@, t.v1@), t.v2@)),
        ),
        Shape::Flat(_) => None,
        Shape::Ball(b) => Some(
            (
                t_sub(b.center@, (b.radius as int, b.radius as int, b.radius as int)),
                t_add(b.center@, (b.radius as int, b.radius as int, b.radius as int)),
            ),
        ),
    }
}

impl Shape {
    /// The closest intersection of a ray with the shape, if any.
    pub fn hit_by(&self, ray: &Ray) -> (r: Option<HitData>)
        requires
            shape_wf(*self),
            ray_wf(*ray),
        ensures
            opt_hit_model(r) == shape_hit(*self, ray.point@, ray.dir@),
    {
        match self {
            Shape::Prism(p) => p.hit_by(ray),
            Shape::Tri(t) => t.hit_by(ray),
            Shape::Flat(p) => p.hit_by(ray),
            Shape::Ball(b) => b.hit_by(ray),
        }
    }

    /// The edge lines to draw for this shape, all carrying its tag and lying
    /// within twice the supported coordinate range.
    pub fn paths(&self) -> (r: Vec<LineSegment<WorldSpace>>)
        requires
            shape_wf(*self),
        ensures
            segs_model(r@) == shape_paths_model(*self),
            forall|i: int|
                0 <= i < r@.len() ==> seg_bounded_tagged((#[trigger] r@[i])@, shape_tag(*self)),
    {
        match self {
            Shape::Prism(p) => {
                let r = p.paths();
                proof {
                    assert forall|i: int| 0 <= i < 12 implies segs_model(r@)[i] == prism_edge(
                        *p,
                        i,
                    ) by {
                        assert(segs_model(r@)[i] == r@[i]@);
                    }
                    assert(segs_model(r@) =~= shape_paths_model(*self));
                }
                r
            },
            Shape::Tri(t) => {
                let r = t.paths();
                proof {
                    assert(segs_model(r@)[0] == r@[0]@);
                    assert(segs_model(r@)[1] == r@[1]@);
                    assert(segs_model(r@)[2] == r@[2]@);
                    assert(segs_model(r@) =~= shape_paths_model(*self));
                }
                r
            },
            Shape::Flat(p) => {
                let r = p.paths();
                proof {
                    assert(segs_model(r@) =~= shape_paths_model(*self));
                }
                r
            },
            Shape::Ball(b) => {
                let r = b.paths();
                proof {
                    assert(segs_model(r@) =~= shape_paths_model(*self));
                }
                r
            },
        }
    }

    /// The box enclosing the shape, or nothing for an unbounded shape.
    pub fn bounding_box(&self) -> (r: Option<Aabb<WorldSpace>>)
        requires
            shape_wf(*self),
        ensures
            match r {
                Some(bb) => {
                    &&& shape_bbox(*self) == Some((bb.min@, bb.max@))
                    &&& t_in(bb.min@, 2 * MAX_COORD as int)
                    &&& t_in(bb.max@, 2 * MAX_COORD as int)
                    &&& t_le(bb.min@, bb.max@)
                },
                None => shape_bbox(*self) is None,
            },
    {
        match self {
            Shape::Prism(p) => p.bounding_box(),
            Shape::Tri(t) => t.bounding_box(),
            Shape::Flat(p) => p.bounding_box(),
            Shape::Ball(b) => b.bounding_box(),
        }
    }
}

} // verus!
