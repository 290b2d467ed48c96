//! Axis-aligned bounding boxes and the slab ray test.

use vstd::prelude::*;

use crate::fx::fx_div_clamp128;
use crate::fx::fxd;
use crate::fx::iclamp;
use crate::fx::imax;
use crate::fx::imin;
use crate::fx::sabs;
use crate::fx::tdiv;
use crate::fx::FX_ONE;
use crate::fx::FX_TBIG;
use crate::fx::MAX_COORD;
use crate::ray::ray_wf;
use crate::ray::Ray;
use crate::vec3::t_in;
use crate::vec3::t_max;
use crate::vec3::t_min;
use crate::vec3::Point3;
use crate::WorldSpace;

verus! {

/// Tolerance on slab parameters when a box hit decides between entering and
/// leaving faces: about 1e-3 in fixed-point units.
pub const HIT_EPS: i64 = 16777;

/// An axis-aligned box in space `S`: the componentwise-least and
/// componentwise-greatest corners. The empty box carries the largest scalar
/// as its least corner and the smallest as its greatest, so that a union with
/// any real box yields the real box.
#[derive(Clone, Copy)]
pub struct Aabb<S> {
    pub min: Point3<S>,
    pub max: Point3<S>,
}

impl<S> View for Aabb<S> {
    type V = ((int, int, int), (int, int, int));

    open spec fn view(&self) -> ((int, int, int), (int, int, int)) {
        (self.min@, self.max@)
    }
}

/// The slab interval of one axis: the parameter range in which a ray with
/// origin coordinate `o` and direction coordinate `d` stays between `mn` and
/// `mx` on that axis. A ray running parallel to the axis pair is
/// unconstrained when its origin lies within the slab, boundaries included,
/// and excluded otherwise; `FX_TBIG` stands in for an unbounded parameter.
pub open spec fn axis_interval(mn: int, mx: int, o: int, d: int) -> (int, int) {
    if d == 0 {
        if mn <= o && o <= mx {
            (-FX_TBIG as int, FX_TBIG as int)
        } else {
            (FX_TBIG as int, -FX_TBIG as int)
        }
    } else {
        let a = iclamp(fxd(mn - o, d), -FX_TBIG as int, FX_TBIG as int);
        let b = iclamp(fxd(mx - o, d), -FX_TBIG as int, FX_TBIG as int);
        (imin(a, b), imax(a, b))
    }
}

/// The slab parameters of a ray against a box: the largest per-axis entry
/// parameter and the smallest per-axis exit parameter. The box misses the ray
/// exactly when the exit precedes the entry.
pub open spec fn slab_t(bb: ((int, int, int), (int, int, int)), o: (int, int, int), d: (
    int,
    int,
    int,
)) -> (int, int) {
    let ix = axis_interval(bb.0.0, bb.1.0, o.0, d.0);
    let iy = axis_interval(bb.0.1, bb.1.1, o.1, d.1);
    let iz = axis_interval(bb.0.2, bb.1.2, o.2, d.2);
    (imax(imax(ix.0, iy.0), iz.0), imin(imin(ix.1, iy.1), iz.1))
}

/// The slab interval of one axis, executable.
fn axis_interval_x(mn: i64, mx: i64, o: i64, d: i64) -> (r: (i64, i64))
    requires
        sabs(o as int) <= 4 * MAX_COORD as int,
    ensures
        (r.0 as int, r.1 as int) == axis_interval(mn as int, mx as int, o as int, d as int),
{
    if d == 0 {
        if mn <= o && o <= mx {
            (-FX_TBIG, FX_TBIG)
        } else {
            (FX_TBIG, -FX_TBIG)
        }
    } else {
        let n1: i128 = (mn as i128) - (o as i128);
        let n2: i128 = (mx as i128) - (o as i128);
        let a: i64 = fx_div_clamp128(n1, d);
        let b: i64 = fx_div_clamp128(n2, d);
        if a <= b {
            (a, b)
        } else {
            (b, a)
        }
    }
}

impl<S> Aabb<S> {
    /// A box from its two corners.
    pub fn new(min: Point3<S>, max: Point3<S>) -> (r: Aabb<S>)
        ensures
            r.min == min,
            r.max == max,
    {
        Aabb { min, max }
    }

    /// The empty box: unioning it with any box yields that box.
    pub fn empty() -> (r: Aabb<S>)
        ensures
            r@ == (
                (i64::MAX as int, i64::MAX as int, i64::MAX as int),
                (i64::MIN as int, i64::MIN as int, i64::MIN as int),
            ),
    {
        Aabb {
            min: Point3::new(i64::MAX, i64::MAX, i64::MAX),
            max: Point3::new(i64::MIN, i64::MIN, i64::MIN),
        }
    }

    /// The smallest box containing both boxes.
    pub fn union(&self, o: &Aabb<S>) -> (r: Aabb<S>)
        ensures
            r@ == (t_min(self.min@, o.min@), t_max(self.max@, o.max@)),
    {
        let min = self.min.to_vector().comp_min(&o.min.to_vector()).to_point();
        let max = self.max.to_vector().comp_max(&o.max.to_vector()).to_point();
        Aabb { min, max }
    }
}

impl Aabb<WorldSpace> {
    /// The slab parameters of a ray against this box.
    pub fn slab(&self, ray: &Ray) -> (r: (i64, i64))
        requires
            ray_wf(*ray),
        ensures
            (r.0 as int, r.1 as int) == slab_t(self@, ray.point@, ray.dir@),
    {
        let ix = axis_interval_x(self.min.x, self.max.x, ray.point.x, ray.dir.x);
        let iy = axis_interval_x(self.min.y, self.max.y, ray.point.y, ray.dir.y);
        let iz = axis_interval_x(self.min.z, self.max.z, ray.point.z, ray.dir.z);
        let tmin: i64 = if ix.0 >= iy.0 {
            if ix.0 >= iz.0 {
                ix.0
            } else {
                iz.0
            }
        } else {
            if iy.0 >= iz.0 {
                iy.0
            } else {
                iz.0
            }
        };
        let tmax: i64 = if ix.1 <= iy.1 {
            if ix.1 <= iz.1 {
                ix.1
            } else {
                iz.1
            }
        } else {
            if iy.1 <= iz.1 {
                iy.1
            } else {
                iz.1
            }
        };
        (tmin, tmax)
    }
}

} // verus!
