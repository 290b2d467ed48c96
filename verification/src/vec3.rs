//! Points and vectors in a tagged coordinate space.
//!
//! Both are triples of fixed-point scalars; the phantom space parameter keeps
//! world, camera and canvas coordinates apart at the type level. The
//! mathematical model of either is the triple of its components as integers,
//! and every operation's contract states the resulting triple exactly.

use core::marker::PhantomData;
use vstd::prelude::*;

use crate::fx::fits_fxm;
use crate::fx::fx_mul;
use crate::fx::fxd;
use crate::fx::fxm;
use crate::fx::imax;
use crate::fx::imin;
use crate::fx::is_isqrt;
use crate::fx::isqrt128;
use crate::fx::isqrt_i;
use crate::fx::sabs;
use crate::fx::tdiv;
use crate::fx::FX_ONE;

verus! {

/// Relies on `core::marker::PhantomData`'s `Clone`: the type has a single
/// value, and cloning returns it. Needed by the derived `Clone` of the tagged
/// point and vector types below.
pub assume_specification<T: core::marker::PointeeSized>[ <PhantomData<T> as Clone>::clone ](
    v: &PhantomData<T>,
) -> (r: PhantomData<T>)
    ensures
        r == *v,
;

/// A direction or displacement in space `S`.
#[derive(Clone, Copy)]
pub struct Vec3<S> {
    pub x: i64,
    pub y: i64,
    pub z: i64,
    pub space: PhantomData<S>,
}

/// A location in space `S`.
#[derive(Clone, Copy)]
pub struct Point3<S> {
    pub x: i64,
    pub y: i64,
    pub z: i64,
    pub space: PhantomData<S>,
}

impl<S> View for Vec3<S> {
    type V = (int, int, int);

    open spec fn view(&self) -> (int, int, int) {
        (self.x as int, self.y as int, self.z as int)
    }
}

impl<S> View for Point3<S> {
    type V = (int, int, int);

    open spec fn view(&self) -> (int, int, int) {
        (self.x as int, self.y as int, self.z as int)
    }
}

/// Every component of `a` has magnitude at most `b`.
pub open spec fn t_in(a: (int, int, int), b: int) -> bool {
    &&& sabs(a.0) <= b
    &&& sabs(a.1) <= b
    &&& sabs(a.2) <= b
}

/// Componentwise order: `a` at or below `b` on every axis.
pub open spec fn t_le(a: (int, int, int), b: (int, int, int)) -> bool {
    &&& a.0 <= b.0
    &&& a.1 <= b.1
    &&& a.2 <= b.2
}

/// The triples agree componentwise within a threshold.
pub open spec fn t_aeq(a: (int, int, int), b: (int, int, int), e: int) -> bool {
    &&& sabs(a.0 - b.0) < e
    &&& sabs(a.1 - b.1) < e
    &&& sabs(a.2 - b.2) < e
}

/// The vector scaled by an exact integer factor, without descaling.
pub open spec fn t_smul(a: (int, int, int), k: int) -> (int, int, int) {
    (a.0 * k, a.1 * k, a.2 * k)
}

/// Componentwise sum.
pub open spec fn t_add(a: (int, int, int), b: (int, int, int)) -> (int, int, int) {
    (a.0 + b.0, a.1 + b.1, a.2 + b.2)
}

/// Componentwise difference.
pub open spec fn t_sub(a: (int, int, int), b: (int, int, int)) -> (int, int, int) {
    (a.0 - b.0, a.1 - b.1, a.2 - b.2)
}

/// Componentwise negation.
pub open spec fn t_neg(a: (int, int, int)) -> (int, int, int) {
    (-a.0, -a.1, -a.2)
}

/// Componentwise minimum.
pub open spec fn t_min(a: (int, int, int), b: (int, int, int)) -> (int, int, int) {
    (imin(a.0, b.0), imin(a.1, b.1), imin(a.2, b.2))
}

/// Componentwise maximum.
pub open spec fn t_max(a: (int, int, int), b: (int, int, int)) -> (int, int, int) {
    (imax(a.0, b.0), imax(a.1, b.1), imax(a.2, b.2))
}

/// The vector scaled by a fixed-point factor.
pub open spec fn t_scale(a: (int, int, int), k: int) -> (int, int, int) {
    (fxm(a.0, k), fxm(a.1, k), fxm(a.2, k))
}

/// The fixed-point dot product.
pub open spec fn t_dot(a: (int, int, int), b: (int, int, int)) -> int {
    tdiv(a.0 * b.0 + a.1 * b.1 + a.2 * b.2, FX_ONE as int)
}

/// The fixed-point cross product.
pub open spec fn t_cross(a: (int, int, int), b: (int, int, int)) -> (int, int, int) {
    (
        tdiv(a.1 * b.2 - a.2 * b.1, FX_ONE as int),
        tdiv(a.2 * b.0 - a.0 * b.2, FX_ONE as int),
        tdiv(a.0 * b.1 - a.1 * b.0, FX_ONE as int),
    )
}

/// Squared length, at raw (doubled) fixed-point scale.
pub open spec fn t_len2(a: (int, int, int)) -> int {
    a.0 * a.0 + a.1 * a.1 + a.2 * a.2
}

/// Fixed-point length: the integer square root of the raw squared length.
pub open spec fn t_len(a: (int, int, int)) -> int {
    isqrt_i(t_len2(a))
}

/// The unit vector along `a`, each component rounded toward zero.
pub open spec fn t_norm(a: (int, int, int)) -> (int, int, int) {
    (fxd(a.0, t_len(a)), fxd(a.1, t_len(a)), fxd(a.2, t_len(a)))
}

/// The dot-product intermediates stay within the 128-bit descaling range.
pub open spec fn fits_dot(a: (int, int, int), b: (int, int, int)) -> bool {
    sabs(a.0 * b.0) + sabs(a.1 * b.1) + sabs(a.2 * b.2) < 0x8000_0000_0000_0000_0000_00
}

/// The cross-product intermediates stay within the 128-bit descaling range.
pub open spec fn fits_cross(a: (int, int, int), b: (int, int, int)) -> bool {
    &&& sabs(a.1 * b.2) + sabs(a.2 * b.1) < 0x8000_0000_0000_0000_0000_00
    &&& sabs(a.2 * b.0) + sabs(a.0 * b.2) < 0x8000_0000_0000_0000_0000_00
    &&& sabs(a.0 * b.1) + sabs(a.1 * b.0) < 0x8000_0000_0000_0000_0000_00
}

/// Componentwise bounds on the factors discharge the dot product's range
/// requirement and bound its result.
pub proof fn lemma_dot_fits(a: (int, int, int), b: (int, int, int), ca: int, cb: int)
    requires
        t_in(a, ca),
        t_in(b, cb),
        0 <= ca,
        0 <= cb,
        3 * (ca * cb) < 0x8000_0000_0000_0000_0000_00,
    ensures
        fits_dot(a, b),
        sabs(t_dot(a, b)) <= (3 * (ca * cb)) / FX_ONE as int,
{
    crate::fx::lemma_mul_abs_bound(a.0, b.0, ca, cb);
    crate::fx::lemma_mul_abs_bound(a.1, b.1, ca, cb);
    crate::fx::lemma_mul_abs_bound(a.2, b.2, ca, cb);
    crate::fx::lemma_tdiv_bound(a.0 * b.0 + a.1 * b.1 + a.2 * b.2, FX_ONE as int, 3 * (ca * cb));
}

/// Componentwise bounds on the factors discharge the cross product's range
/// requirement and bound its components.
pub proof fn lemma_cross_fits(a: (int, int, int), b: (int, int, int), ca: int, cb: int)
    requires
        t_in(a, ca),
        t_in(b, cb),
        0 <= ca,
        0 <= cb,
        2 * (ca * cb) < 0x8000_0000_0000_0000_0000_00,
    ensures
        fits_cross(a, b),
        t_in(t_cross(a, b), (2 * (ca * cb)) / FX_ONE as int),
{
    crate::fx::lemma_mul_abs_bound(a.0, b.0, ca, cb);
    crate::fx::lemma_mul_abs_bound(a.0, b.1, ca, cb);
    crate::fx::lemma_mul_abs_bound(a.0, b.2, ca, cb);
    crate::fx::lemma_mul_abs_bound(a.1, b.0, ca, cb);
    crate::fx::lemma_mul_abs_bound(a.1, b.1, ca, cb);
    crate::fx::lemma_mul_abs_bound(a.1, b.2, ca, cb);
    crate::fx::lemma_mul_abs_bound(a.2, b.0, ca, cb);
    crate::fx::lemma_mul_abs_bound(a.2, b.1, ca, cb);
    crate::fx::lemma_mul_abs_bound(a.2, b.2, ca, cb);
    crate::fx::lemma_tdiv_bound(a.1 * b.2 - a.2 * b.1, FX_ONE as int, 2 * (ca * cb));
    crate::fx::lemma_tdiv_bound(a.2 * b.0 - a.0 * b.2, FX_ONE as int, 2 * (ca * cb));
    crate::fx::lemma_tdiv_bound(a.0 * b.1 - a.1 * b.0, FX_ONE as int, 2 * (ca * cb));
}

/// Componentwise bounds on the vector and the factor discharge the scaling's
/// range requirement and bound its components.
pub proof fn lemma_scale_fits(a: (int, int, int), k: int, ca: int, ck: int)
    requires
        t_in(a, ca),
        sabs(k) <= ck,
        0 <= ca,
        0 <= ck,
        ca * ck < 0x8000_0000_0000_0000_0000_00,
    ensures
        fits_fxm(a.0, k),
        fits_fxm(a.1, k),
        fits_fxm(a.2, k),
        t_in(t_scale(a, k), (ca * ck) / FX_ONE as int),
{
    crate::fx::lemma_mul_abs_bound(a.0, k, ca, ck);
    crate::fx::lemma_mul_abs_bound(a.1, k, ca, ck);
    crate::fx::lemma_mul_abs_bound(a.2, k, ca, ck);
    crate::fx::lemma_tdiv_bound(a.0 * k, FX_ONE as int, ca * ck);
    crate::fx::lemma_tdiv_bound(a.1 * k, FX_ONE as int, ca * ck);
    crate::fx::lemma_tdiv_bound(a.2 * k, FX_ONE as int, ca * ck);
}

/// Descale a raw 128-bit product by one fixed-point unit, rounding toward
/// zero.
fn descale(p: i128) -> (r: i64)
    requires
        sabs(p as int) < 0x8000_0000_0000_0000_0000_00,
    ensures
        r as int == tdiv(p as int, FX_ONE as int),
{
    let neg: bool = p < 0;
    let mag: u128 = if neg {
        (-p) as u128
    } else {
        p as u128
    };
    let q: u128 = mag / (FX_ONE as u128);
    proof {
        assert(q as int <= mag as int) by (nonlinear_arith)
            requires
                q as int == mag as int / (FX_ONE as int),
                mag as int >= 0,
                FX_ONE as int >= 1,
        ;
    }
    if neg {
        -((q as i128) as i64)
    } else {
        (q as i128) as i64
    }
}

impl<S> Vec3<S> {
    /// A vector from its three components.
    pub fn new(x: i64, y: i64, z: i64) -> (r: Vec3<S>)
        ensures
            r@ == (x as int, y as int, z as int),
    {
        Vec3 { x, y, z, space: PhantomData }
    }

    /// The location reached by following this vector from the origin.
    pub fn to_point(&self) -> (r: Point3<S>)
        ensures
            r@ == self@,
    {
        Point3 { x: self.x, y: self.y, z: self.z, space: PhantomData }
    }

    /// Componentwise sum.
    pub fn plus(&self, o: &Vec3<S>) -> (r: Vec3<S>)
        requires
            t_in(self@, 0x2000_0000_0000_0000),
            t_in(o@, 0x2000_0000_0000_0000),
        ensures
            r@ == t_add(self@, o@),
    {
        Vec3 { x: self.x + o.x, y: self.y + o.y, z: self.z + o.z, space: PhantomData }
    }

    /// Componentwise difference.
    pub fn minus(&self, o: &Vec3<S>) -> (r: Vec3<S>)
        requires
            t_in(self@, 0x2000_0000_0000_0000),
            t_in(o@, 0x2000_0000_0000_0000),
        ensures
            r@ == t_sub(self@, o@),
    {
        Vec3 { x: self.x - o.x, y: self.y - o.y, z: self.z - o.z, space: PhantomData }
    }

    /// The opposite vector.
    pub fn neg(&self) -> (r: Vec3<S>)
        requires
            t_in(self@, 0x4000_0000_0000_0000),
        ensures
            r@ == t_neg(self@),
    {
        Vec3 { x: -self.x, y: -self.y, z: -self.z, space: PhantomData }
    }

    /// Componentwise minimum.
    pub fn comp_min(&self, o: &Vec3<S>) -> (r: Vec3<S>)
        ensures
            r@ == t_min(self@, o@),
    {
        Vec3 {
            x: if self.x <= o.x {
                self.x
            } else {
                o.x
            },
            y: if self.y <= o.y {
                self.y
            } else {
                o.y
            },
            z: if self.z <= o.z {
                self.z
            } else {
                o.z
            },
            space: PhantomData,
        }
    }

    /// Componentwise maximum.
    pub fn comp_max(&self, o: &Vec3<S>) -> (r: Vec3<S>)
        ensures
            r@ == t_max(self@, o@),
    {
        Vec3 {
            x: if self.x >= o.x {
                self.x
            } else {
                o.x
            },
            y: if self.y >= o.y {
                self.y
            } else {
                o.y
            },
            z: if self.z >= o.z {
                self.z
            } else {
                o.z
            },
            space: PhantomData,
        }
    }

    /// The vector scaled by a fixed-point factor.
    pub fn scale(&self, k: i64) -> (r: Vec3<S>)
        requires
            fits_fxm(self@.0, k as int),
            fits_fxm(self@.1, k as int),
            fits_fxm(self@.2, k as int),
        ensures
            r@ == t_scale(self@, k as int),
    {
        Vec3 {
            x: fx_mul(self.x, k),
            y: fx_mul(self.y, k),
            z: fx_mul(self.z, k),
            space: PhantomData,
        }
    }

    /// The fixed-point dot product.
    pub fn dot(&self, o: &Vec3<S>) -> (r: i64)
        requires
            fits_dot(self@, o@),
        ensures
            r as int == t_dot(self@, o@),
    {
        let p: i128 = (self.x as i128) * (o.x as i128) + (self.y as i128) * (o.y as i128) + (
        self.z as i128) * (o.z as i128);
        descale(p)
    }

    /// The fixed-point cross product.
    pub fn cross(&self, o: &Vec3<S>) -> (r: Vec3<S>)
        requires
            fits_cross(self@, o@),
        ensures
            r@ == t_cross(self@, o@),
    {
        let cx: i128 = (self.y as i128) * (o.z as i128) - (self.z as i128) * (o.y as i128);
        let cy: i128 = (self.z as i128) * (o.x as i128) - (self.x as i128) * (o.z as i128);
        let cz: i128 = (self.x as i128) * (o.y as i128) - (self.y as i128) * (o.x as i128);
        Vec3 { x: descale(cx), y: descale(cy), z: descale(cz), space: PhantomData }
    }

    /// The fixed-point length of the vector.
    pub fn length(&self) -> (r: i64)
        requires
            t_in(self@, 0x4000_0000_0000_0000),
        ensures
            r as int == t_len(self@),
            is_isqrt(r as int, t_len2(self@)),
            sabs(self@.0) <= r as int,
            sabs(self@.1) <= r as int,
            sabs(self@.2) <= r as int,
    {
        proof {
            lemma_square_box(self.x as int, 0x4000_0000_0000_0000);
            lemma_square_box(self.y as int, 0x4000_0000_0000_0000);
            lemma_square_box(self.z as int, 0x4000_0000_0000_0000);
        }
        let xx: i128 = (self.x as i128) * (self.x as i128);
        let yy: i128 = (self.y as i128) * (self.y as i128);
        let zz: i128 = (self.z as i128) * (self.z as i128);
        let n: u128 = (xx + yy + zz) as u128;
        let r: u64 = isqrt128(n);
        proof {
            assert((r as int) < 0x8000_0000_0000_0000) by (nonlinear_arith)
                requires
                    (r as int) * (r as int) <= n as int,
                    n as int <= 0x3000_0000_0000_0000_0000_0000_0000_0000,
                    r as int >= 0,
            ;
            lemma_component_le_len(self.x as int, n as int, r as int);
            lemma_component_le_len(self.y as int, n as int, r as int);
            lemma_component_le_len(self.z as int, n as int, r as int);
        }
        r as i64
    }

    /// The unit vector along this vector, componentwise within one
    /// fixed-point unit.
    pub fn normalize(&self) -> (r: Vec3<S>)
        requires
            t_in(self@, 0x1000_0000_0000_0000),
            self@ != (0int, 0int, 0int),
        ensures
            r@ == t_norm(self@),
            t_in(r@, FX_ONE as int),
            r@ != (0int, 0int, 0int),
    {
        let l: i64 = self.length();
        proof {
            lemma_square_nonneg(self.x as int);
            lemma_square_nonneg(self.y as int);
            lemma_square_nonneg(self.z as int);
            if self.x as int != 0 {
                lemma_square_pos(self.x as int);
            } else if self.y as int != 0 {
                lemma_square_pos(self.y as int);
            } else {
                lemma_square_pos(self.z as int);
            }
            assert(t_len2(self@) >= 1);
            assert(l >= 1);
        }
        let nx: i64 = norm_div(self.x, l);
        let ny: i64 = norm_div(self.y, l);
        let nz: i64 = norm_div(self.z, l);
        proof {
            let gm = if sabs(self.x as int) >= sabs(self.y as int) && sabs(self.x as int) >= sabs(
                self.z as int,
            ) {
                self.x as int
            } else if sabs(self.y as int) >= sabs(self.z as int) {
                self.y as int
            } else {
                self.z as int
            };
            lemma_square_monotone(self.x as int, gm);
            lemma_square_monotone(self.y as int, gm);
            lemma_square_monotone(self.z as int, gm);
            lemma_norm_comp_nonzero(gm, t_len2(self@), l as int);
        }
        Vec3 { x: nx, y: ny, z: nz, space: PhantomData }
    }
}

/// A magnitude bound on the root bounds the square.
proof fn lemma_square_monotone(c: int, m: int)
    requires
        sabs(c) <= sabs(m),
    ensures
        c * c <= m * m,
{
    assert(c * c <= m * m) by (nonlinear_arith)
        requires
            sabs(c) <= sabs(m),
    ;
}

/// The component of largest magnitude survives normalization: its quotient by
/// the length is nonzero.
proof fn lemma_norm_comp_nonzero(c: int, len2: int, l: int)
    requires
        c != 0,
        len2 <= 3 * (c * c),
        is_isqrt(l, len2),
        l >= 1,
    ensures
        fxd(c, l) != 0,
{
    if l > 2 * sabs(c) {
        assert(l * l > 3 * (c * c)) by (nonlinear_arith)
            requires
                l >= 2 * sabs(c) + 1,
                c != 0,
        ;
        assert(l * l <= len2) by (nonlinear_arith)
            requires
                is_isqrt(l, len2),
        ;
    }
    assert(sabs(c * FX_ONE) >= l) by (nonlinear_arith)
        requires
            l <= 2 * sabs(c),
            c != 0,
            FX_ONE as int >= 2,
    ;
    assert(sabs(c * FX_ONE) / sabs(l) >= 1) by (nonlinear_arith)
        requires
            sabs(c * FX_ONE) >= l,
            l >= 1,
    ;
}

/// Squares are nonnegative.
proof fn lemma_square_nonneg(c: int)
    ensures
        c * c >= 0,
{
    assert(c * c >= 0) by (nonlinear_arith);
}

/// A square lies between zero and the square of a bound on its root.
pub proof fn lemma_square_box(c: int, b: int)
    requires
        sabs(c) <= b,
    ensures
        0 <= c * c <= b * b,
{
    assert(0 <= c * c <= b * b) by (nonlinear_arith)
        requires
            sabs(c) <= b,
    ;
}

/// Squares of nonzero integers are at least one.
proof fn lemma_square_pos(c: int)
    requires
        c != 0,
    ensures
        c * c >= 1,
{
    assert(c * c >= 1) by (nonlinear_arith)
        requires
            c != 0,
    ;
}

/// A component is never larger in magnitude than the vector's length.
proof fn lemma_component_le_len(c: int, n: int, r: int)
    requires
        is_isqrt(r, n),
        c * c <= n,
    ensures
        sabs(c) <= r,
{
    if sabs(c) > r {
        assert((r + 1) * (r + 1) <= sabs(c) * sabs(c)) by (nonlinear_arith)
            requires
                0 <= r,
                r + 1 <= sabs(c),
        ;
        assert(sabs(c) * sabs(c) == c * c) by (nonlinear_arith);
    }
}

/// One component of a normalization: `(c * FX_ONE) / l`, rounded toward zero.
fn norm_div(c: i64, l: i64) -> (r: i64)
    requires
        l >= 1,
        sabs(c as int) <= l as int,
    ensures
        r as int == fxd(c as int, l as int),
        sabs(r as int) <= FX_ONE as int,
{
    let neg: bool = c < 0;
    let mag: u128 = if neg {
        (-(c as i128)) as u128
    } else {
        c as u128
    };
    let q: u128 = (mag * (FX_ONE as u128)) / (l as u128);
    proof {
        assert(mag as int * FX_ONE as int == sabs(c as int * FX_ONE as int)) by (nonlinear_arith)
            requires
                mag as int == sabs(c as int),
                FX_ONE as int > 0,
        ;
        assert(q as int <= FX_ONE as int) by (nonlinear_arith)
            requires
                q as int == (mag as int * FX_ONE as int) / (l as int),
                mag as int <= l as int,
                l as int >= 1,
                FX_ONE as int > 0,
        ;
    }
    if neg {
        -(q as i64)
    } else {
        q as i64
    }
}

impl<S> Point3<S> {
    /// A point from its three coordinates.
    pub fn new(x: i64, y: i64, z: i64) -> (r: Point3<S>)
        ensures
            r@ == (x as int, y as int, z as int),
    {
        Point3 { x, y, z, space: PhantomData }
    }

    /// The displacement of this point from the origin.
    pub fn to_vector(&self) -> (r: Vec3<S>)
        ensures
            r@ == self@,
    {
        Vec3 { x: self.x, y: self.y, z: self.z, space: PhantomData }
    }

    /// The point displaced by a vector.
    pub fn add_v(&self, o: &Vec3<S>) -> (r: Point3<S>)
        requires
            t_in(self@, 0x2000_0000_0000_0000),
            t_in(o@, 0x2000_0000_0000_0000),
        ensures
            r@ == t_add(self@, o@),
    {
        Point3 { x: self.x + o.x, y: self.y + o.y, z: self.z + o.z, space: PhantomData }
    }

    /// The displacement from `o` to this point.
    pub fn sub_p(&self, o: &Point3<S>) -> (r: Vec3<S>)
        requires
            t_in(self@, 0x2000_0000_0000_0000),
            t_in(o@, 0x2000_0000_0000_0000),
        ensures
            r@ == t_sub(self@, o@),
    {
        Vec3 { x: self.x - o.x, y: self.y - o.y, z: self.z - o.z, space: PhantomData }
    }
}

} // verus!
