//! Homogeneous 4-by-4 transforms between tagged coordinate spaces.
//!
//! A transform carries sixteen fixed-point entries, row major; applying it to
//! a point builds the four homogeneous row sums at raw scale and divides by
//! the fourth. The exact (undescaled) matrix product is the reference for
//! the composition law.

use core::marker::PhantomData;
use vstd::prelude::*;

use crate::fx::sabs;
use crate::fx::tdiv;
use crate::fx::FX_ONE;
use crate::vec3::Point3;

verus! {

/// A transform from space `Src` to space `Dst`: sixteen fixed-point entries,
/// row major.
#[derive(Clone, Copy)]
pub struct Transform<Src, Dst> {
    pub m: [i64; 16],
    pub spaces: PhantomData<(Src, Dst)>,
}

/// The entries of a sixteen-entry array, as integers.
pub open spec fn arr_seq(m: [i64; 16]) -> Seq<int> {
    Seq::new(16, |i: int| m[i] as int)
}

/// The model of a transform: its entries as integers, row major.
pub open spec fn mat_of<Src, Dst>(t: Transform<Src, Dst>) -> Seq<int> {
    arr_seq(t.m)
}

/// Every entry has magnitude at most `b`.
pub open spec fn mat_in(m: Seq<int>, b: int) -> bool {
    forall|i: int| 0 <= i < 16 ==> sabs(#[trigger] m[i]) <= b
}

/// One homogeneous row sum of a matrix applied to a point, at raw (doubled)
/// fixed-point scale: the point is taken with a fourth coordinate of one.
pub open spec fn row_apply(m: Seq<int>, r: int, p: (int, int, int)) -> int {
    m[4 * r] * p.0 + m[4 * r + 1] * p.1 + m[4 * r + 2] * p.2 + m[4 * r + 3] * (FX_ONE as int)
}

/// The exact product of two matrices, at raw (doubled) fixed-point scale:
/// entry `(r, c)` of `b * a`, the transform applying `a` first.
pub open spec fn mat_mul_exact(b: Seq<int>, a: Seq<int>, r: int, c: int) -> int {
    b[4 * r] * a[c] + b[4 * r + 1] * a[4 + c] + b[4 * r + 2] * a[8 + c] + b[4 * r + 3] * a[12 + c]
}

/// The perspective division of a transformed point: each raw row sum scaled
/// back up and divided by the fourth row sum. Meaningful when that sum is
/// positive.
pub open spec fn persp_point(xr: int, yr: int, zr: int, wr: int) -> (int, int, int) {
    (
        tdiv(xr * (FX_ONE as int), wr),
        tdiv(yr * (FX_ONE as int), wr),
        tdiv(zr * (FX_ONE as int), wr),
    )
}

/// The result of transforming a point: nothing when the homogeneous weight
/// is not positive or a coordinate leaves the representable range, else the
/// perspective-divided point.
pub open spec fn transform_point_spec(m: Seq<int>, p: (int, int, int)) -> Option<(int, int, int)> {
    let xr = row_apply(m, 0, p);
    let yr = row_apply(m, 1, p);
    let zr = row_apply(m, 2, p);
    let wr = row_apply(m, 3, p);
    if wr <= 0 {
        None
    } else {
        let q = persp_point(xr, yr, zr, wr);
        if sabs(q.0) <= i64::MAX as int && sabs(q.1) <= i64::MAX as int && sabs(q.2) <= i64::MAX
            as int {
            Some(q)
        } else {
            None
        }
    }
}

/// One homogeneous row sum, executable, in 128-bit arithmetic.
fn row_apply_x(m: &[i64; 16], r: usize, p: &(i64, i64, i64)) -> (s: i128)
    requires
        r < 4,
        forall|i: int| 0 <= i < 16 ==> sabs(#[trigger] m[i] as int) <= 0x400_0000_0000_0000,
        sabs(p.0 as int) <= 0x400_0000_0000,
        sabs(p.1 as int) <= 0x400_0000_0000,
        sabs(p.2 as int) <= 0x400_0000_0000,
    ensures
        s as int == row_apply(
            Seq::new(16, |i: int| m[i] as int),
            r as int,
            (p.0 as int, p.1 as int, p.2 as int),
        ),
        sabs(s as int) < 0x40_0000_0000_0000_0000_0000_0000,
{
    proof {
        crate::fx::lemma_mul_abs_bound(
            m[4 * r as int] as int,
            p.0 as int,
            0x400_0000_0000_0000,
            0x400_0000_0000,
        );
        crate::fx::lemma_mul_abs_bound(
            m[4 * r as int + 1] as int,
            p.1 as int,
            0x400_0000_0000_0000,
            0x400_0000_0000,
        );
        crate::fx::lemma_mul_abs_bound(
            m[4 * r as int + 2] as int,
            p.2 as int,
            0x400_0000_0000_0000,
            0x400_0000_0000,
        );
        crate::fx::lemma_mul_abs_bound(
            m[4 * r as int + 3] as int,
            FX_ONE as int,
            0x400_0000_0000_0000,
            FX_ONE as int,
        );
    }
    let s: i128 = (m[4 * r] as i128) * (p.0 as i128) + (m[4 * r + 1] as i128) * (p.1 as i128) + (
    m[4 * r + 2] as i128) * (p.2 as i128) + (m[4 * r + 3] as i128) * (FX_ONE as i128);
    s
}

/// Divide a raw row sum, scaled up, by the positive weight, rounding toward
/// zero; nothing when the quotient leaves the representable range.
fn persp_div(num: i128, wr: i128) -> (r: Option<i64>)
    requires
        wr > 0,
        sabs(num as int) < 0x40_0000_0000_0000_0000_0000_0000,
    ensures
        match r {
            Some(q) => q as int == tdiv(num as int * FX_ONE, wr as int) && sabs(
                tdiv(num as int * FX_ONE, wr as int),
            ) <= i64::MAX as int,
            None => sabs(tdiv(num as int * FX_ONE, wr as int)) > i64::MAX as int,
        },
{
    let neg: bool = num < 0;
    let mag: u128 = if neg {
        (-num) as u128
    } else {
        num as u128
    };
    proof {
        assert(mag as int == sabs(num as int));
        assert((mag as int) * (FX_ONE as int) < 0x4000_0000_0000_0000_0000_0000_0000_0000)
            by (nonlinear_arith)
            requires
                (mag as int) < 0x40_0000_0000_0000_0000_0000_0000,
                FX_ONE as int == 16777216,
                mag as int >= 0,
        ;
    }
    let q: u128 = (mag * (FX_ONE as u128)) / (wr as u128);
    proof {
        assert(mag as int * FX_ONE as int == sabs(num as int * FX_ONE as int)) by (nonlinear_arith)
            requires
                mag as int == sabs(num as int),
                FX_ONE as int > 0,
        ;
    }
    if q > i64::MAX as u128 {
        None
    } else {
        if neg {
            Some(-(q as i64))
        } else {
            Some(q as i64)
        }
    }
}

impl<Src, Dst> Transform<Src, Dst> {
    /// A transform from its sixteen entries, row major.
    pub fn new(m: [i64; 16]) -> (r: Transform<Src, Dst>)
        ensures
            r.m == m,
    {
        Transform { m, spaces: PhantomData }
    }

    /// Transform a point and divide by the homogeneous weight; nothing when
    /// the weight is not positive or the result leaves the representable
    /// range.
    pub fn transform_point(&self, p: &Point3<Src>) -> (r: Option<Point3<Dst>>)
        requires
            mat_in(mat_of(*self), 0x400_0000_0000_0000),
            sabs(p@.0) <= 0x400_0000_0000,
            sabs(p@.1) <= 0x400_0000_0000,
            sabs(p@.2) <= 0x400_0000_0000,
        ensures
            match r {
                Some(q) => transform_point_spec(mat_of(*self), p@) == Some(q@),
                None => transform_point_spec(mat_of(*self), p@) is None,
            },
    {
        let pt: (i64, i64, i64) = (p.x, p.y, p.z);
        let xr: i128 = row_apply_x(&self.m, 0, &pt);
        let yr: i128 = row_apply_x(&self.m, 1, &pt);
        let zr: i128 = row_apply_x(&self.m, 2, &pt);
        let wr: i128 = row_apply_x(&self.m, 3, &pt);
        if wr <= 0 {
            return None;
        }
        let qx: Option<i64> = persp_div(xr, wr);
        let qy: Option<i64> = persp_div(yr, wr);
        let qz: Option<i64> = persp_div(zr, wr);
        match (qx, qy, qz) {
            (Some(x), Some(y), Some(z)) => Some(Point3::new(x, y, z)),
            _ => None,
        }
    }
}

/// The descaled product of two matrices: each entry of the exact product
/// brought back to fixed-point scale, rounded toward zero.
pub open spec fn compose_mat(b: Seq<int>, a: Seq<int>) -> Seq<int> {
    Seq::new(16, |i: int| tdiv(mat_mul_exact(b, a, i / 4, i % 4), FX_ONE as int))
}

/// One entry of the descaled matrix product.
fn compose_entry(b: &[i64; 16], a: &[i64; 16], r: usize, c: usize) -> (e: i64)
    requires
        r < 4,
        c < 4,
        forall|i: int| 0 <= i < 16 ==> sabs(#[trigger] b[i] as int) <= 0x80_0000_0000_0000,
        forall|i: int| 0 <= i < 16 ==> sabs(#[trigger] a[i] as int) <= 0x80_0000_0000_0000,
        sabs(tdiv(mat_mul_exact(arr_seq(*b), arr_seq(*a), r as int, c as int), FX_ONE as int))
            <= i64::MAX as int,
    ensures
        e as int == tdiv(
            mat_mul_exact(arr_seq(*b), arr_seq(*a), r as int, c as int),
            FX_ONE as int,
        ),
{
    proof {
        crate::fx::lemma_mul_abs_bound(
            b[4 * r as int] as int,
            a[c as int] as int,
            0x80_0000_0000_0000,
            0x80_0000_0000_0000,
        );
        crate::fx::lemma_mul_abs_bound(
            b[4 * r as int + 1] as int,
            a[4 + c as int] as int,
            0x80_0000_0000_0000,
            0x80_0000_0000_0000,
        );
        crate::fx::lemma_mul_abs_bound(
            b[4 * r as int + 2] as int,
            a[8 + c as int] as int,
            0x80_0000_0000_0000,
            0x80_0000_0000_0000,
        );
        crate::fx::lemma_mul_abs_bound(
            b[4 * r as int + 3] as int,
            a[12 + c as int] as int,
            0x80_0000_0000_0000,
            0x80_0000_0000_0000,
        );
    }
    let p: i128 = (b[4 * r] as i128) * (a[c] as i128) + (b[4 * r + 1] as i128) * (a[4 + c] as i128)
        + (b[4 * r + 2] as i128) * (a[8 + c] as i128) + (b[4 * r + 3] as i128) * (a[12 + c]
        as i128);
    let neg: bool = p < 0;
    let mag: u128 = if neg {
        (-p) as u128
    } else {
        p as u128
    };
    let q: u128 = mag / (FX_ONE as u128);
    proof {
        assert(q as int <= mag as int) by (nonlinear_arith)
            requires
                q as int == mag as int / (FX_ONE as int),
                mag as int >= 0,
                FX_ONE as int >= 1,
        ;
    }
    if neg {
        (-(q as i128)) as i64
    } else {
        q as i64
    }
}

/// The composition of two transforms: first `a`, then `b`, each entry of the
/// product descaled.
pub fn mat_compose<A, B, C>(b: &Transform<B, C>, a: &Transform<A, B>) -> (r: Transform<A, C>)
    requires
        mat_in(mat_of(*b), 0x80_0000_0000_0000),
        mat_in(mat_of(*a), 0x80_0000_0000_0000),
        mat_in(compose_mat(mat_of(*b), mat_of(*a)), i64::MAX as int),
    ensures
        mat_of(r) == compose_mat(mat_of(*b), mat_of(*a)),
{
    proof {
        assert forall|i: int| 0 <= i < 16 implies sabs(#[trigger] b.m[i] as int)
            <= 0x80_0000_0000_0000 by {
            assert(mat_of(*b)[i] == b.m[i] as int);
        }
        assert forall|i: int| 0 <= i < 16 implies sabs(#[trigger] a.m[i] as int)
            <= 0x80_0000_0000_0000 by {
            assert(mat_of(*a)[i] == a.m[i] as int);
        }
        assert forall|rr: int, cc: int| 0 <= rr < 4 && 0 <= cc < 4 implies sabs(
            tdiv(#[trigger] mat_mul_exact(mat_of(*b), mat_of(*a), rr, cc), FX_ONE as int),
        ) <= i64::MAX as int by {
            let i = 4 * rr + cc;
            assert(i / 4 == rr && i % 4 == cc) by (nonlinear_arith)
                requires
                    0 <= rr < 4,
                    0 <= cc < 4,
                    i == 4 * rr + cc,
            ;
            assert(compose_mat(mat_of(*b), mat_of(*a))[i] == tdiv(
                mat_mul_exact(mat_of(*b), mat_of(*a), i / 4, i % 4),
                FX_ONE as int,
            ));
        }
    }
    let m: [i64; 16] = [
        compose_entry(&b.m, &a.m, 0, 0),
        compose_entry(&b.m, &a.m, 0, 1),
        compose_entry(&b.m, &a.m, 0, 2),
        compose_entry(&b.m, &a.m, 0, 3),
        compose_entry(&b.m, &a.m, 1, 0),
        compose_entry(&b.m, &a.m, 1, 1),
        compose_entry(&b.m, &a.m, 1, 2),
        compose_entry(&b.m, &a.m, 1, 3),
        compose_entry(&b.m, &a.m, 2, 0),
        compose_entry(&b.m, &a.m, 2, 1),
        compose_entry(&b.m, &a.m, 2, 2),
        compose_entry(&b.m, &a.m, 2, 3),
        compose_entry(&b.m, &a.m, 3, 0),
        compose_entry(&b.m, &a.m, 3, 1),
        compose_entry(&b.m, &a.m, 3, 2),
        compose_entry(&b.m, &a.m, 3, 3),
    ];
    let t: Transform<A, C> = Transform::new(m);
    proof {
        assert(mat_of(t) =~= compose_mat(mat_of(*b), mat_of(*a)));
    }
    t
}

/// Multiplication distributes over a four-term sum on the right.
proof fn lemma_dist4(k: int, w: int, x: int, y: int, z: int)
    ensures
        k * (w + x + y + z) == k * w + k * x + k * y + k * z,
{
    assert(k * (w + x + y + z) == k * w + k * x + k * y + k * z) by (nonlinear_arith);
}

/// Multiplication distributes over a four-term sum on the left.
proof fn lemma_dist4_r(pc: int, w: int, x: int, y: int, z: int)
    ensures
        (w + x + y + z) * pc == w * pc + x * pc + y * pc + z * pc,
{
    assert((w + x + y + z) * pc == w * pc + x * pc + y * pc + z * pc) by (nonlinear_arith);
}

/// Multiplication associates.
proof fn lemma_assoc(x: int, y: int, z: int)
    ensures
        (x * y) * z == x * (y * z),
{
    assert((x * y) * z == x * (y * z)) by (nonlinear_arith);
}

/// Applying the exact product of two matrices agrees with applying them one
/// after the other: for every point, the homogeneous row sums of `b * a` at
/// the point equal the row sums of `b` at the (undivided, raw) image of the
/// point under `a`. The executable composition additionally descales each
/// entry, which rounds; this law is exact because nothing here is descaled.
pub proof fn lemma_compose_exact(b: Seq<int>, a: Seq<int>, p: (int, int, int), r: int)
    requires
        0 <= r < 4,
    ensures
        mat_mul_exact(b, a, r, 0) * p.0 + mat_mul_exact(b, a, r, 1) * p.1 + mat_mul_exact(
            b,
            a,
            r,
            2,
        ) * p.2 + mat_mul_exact(b, a, r, 3) * (FX_ONE as int) == b[4 * r] * row_apply(a, 0, p) + b[4
            * r + 1] * row_apply(a, 1, p) + b[4 * r + 2] * row_apply(a, 2, p) + b[4 * r + 3]
            * row_apply(a, 3, p),
{
    let b0 = b[4 * r];
    let b1 = b[4 * r + 1];
    let b2 = b[4 * r + 2];
    let b3 = b[4 * r + 3];
    let one = FX_ONE as int;
    lemma_dist4_r(p.0, b0 * a[0], b1 * a[4], b2 * a[8], b3 * a[12]);
    lemma_dist4_r(p.1, b0 * a[1], b1 * a[5], b2 * a[9], b3 * a[13]);
    lemma_dist4_r(p.2, b0 * a[2], b1 * a[6], b2 * a[10], b3 * a[14]);
    lemma_dist4_r(one, b0 * a[3], b1 * a[7], b2 * a[11], b3 * a[15]);
    lemma_dist4(b0, a[0] * p.0, a[1] * p.1, a[2] * p.2, a[3] * one);
    lemma_dist4(b1, a[4] * p.0, a[5] * p.1, a[6] * p.2, a[7] * one);
    lemma_dist4(b2, a[8] * p.0, a[9] * p.1, a[10] * p.2, a[11] * one);
    lemma_dist4(b3, a[12] * p.0, a[13] * p.1, a[14] * p.2, a[15] * one);
    lemma_assoc(b0, a[0], p.0);
    lemma_assoc(b0, a[1], p.1);
    lemma_assoc(b0, a[2], p.2);
    lemma_assoc(b0, a[3], one);
    lemma_assoc(b1, a[4], p.0);
    lemma_assoc(b1, a[5], p.1);
    lemma_assoc(b1, a[6], p.2);
    lemma_assoc(b1, a[7], one);
    lemma_assoc(b2, a[8], p.0);
    lemma_assoc(b2, a[9], p.1);
    lemma_assoc(b2, a[10], p.2);
    lemma_assoc(b2, a[11], one);
    lemma_assoc(b3, a[12], p.0);
    lemma_assoc(b3, a[13], p.1);
    lemma_assoc(b3, a[14], p.2);
    lemma_assoc(b3, a[15], one);
}

} // verus!
