//! The perspective camera: look-at construction, frustum matrix, and the
//! adaptive segment chopper.

use vstd::prelude::*;

use crate::fx::fx_div_clamp;
use crate::fx::fx_div_pos;
use crate::fx::fx_max;
use crate::fx::fx_min;
use crate::fx::fx_mul;
use crate::fx::fxd;
use crate::fx::fxm;
use crate::fx::iclamp;
use crate::fx::imax;
use crate::fx::imin;
use crate::fx::lemma_mul_abs_bound;
use crate::fx::lemma_tdiv_bound;
use crate::fx::sabs;
use crate::fx::tdiv;
use crate::fx::FX_ONE;
use crate::fx::FX_TBIG;
use crate::fx::MAX_COORD;
use crate::mat4::mat_in;
use crate::mat4::mat_of;
use crate::mat4::Transform;
use crate::path::segs_model;
use crate::segment::LineSegment;
use crate::vec3::lemma_dot_fits;
use crate::vec3::t_add;
use crate::vec3::t_cross;
use crate::vec3::t_dot;
use crate::vec3::t_in;
use crate::vec3::t_len;
use crate::vec3::t_norm;
use crate::vec3::t_sub;
use crate::vec3::Point3;
use crate::vec3::Vec3;
use crate::CameraSpace;
use crate::CanvasSpace;
use crate::WorldSpace;

verus! {

/// The half circle at fixed-point scale: pi times 2^24, rounded.
pub const FX_PI: i64 = 52707179;

/// A camera that knows where it looks but not yet how it projects.
pub struct LookingCamera {
    pub eye: Point3<WorldSpace>,
    pub center: Vec3<WorldSpace>,
    pub up: Vec3<WorldSpace>,
    pub matrix: Transform<WorldSpace, CameraSpace>,
}

/// A camera ready to project world points onto the canvas.
pub struct Camera {
    pub eye: Point3<WorldSpace>,
    pub width: i64,
    pub height: i64,
    pub znear: i64,
    pub zfar: i64,
    /// The world-space width of one pixel at the near plane.
    pub min_step_size: i64,
    /// The world-space width of one pixel at the far plane.
    pub max_step_size: i64,
    pub matrix: Transform<WorldSpace, CanvasSpace>,
}

/// The forward direction of a look-at frame.
pub open spec fn look_f(eye: (int, int, int), center: (int, int, int)) -> (int, int, int) {
    t_norm(t_sub(center, eye))
}

/// The sideways direction of a look-at frame, before normalization.
pub open spec fn look_s_raw(eye: (int, int, int), center: (int, int, int), up: (int, int, int)) -> (
    int,
    int,
    int,
) {
    t_cross(look_f(eye, center), t_norm(up))
}

/// The upward direction of a look-at frame, before normalization.
pub open spec fn look_u_raw(eye: (int, int, int), center: (int, int, int), up: (int, int, int)) -> (
    int,
    int,
    int,
) {
    t_cross(t_norm(look_s_raw(eye, center, up)), look_f(eye, center))
}

/// The world-to-camera matrix of a look-at frame: the orthonormal basis rows
/// with the eye carried to the origin — the inverse of the rigid
/// camera-to-world frame, taken analytically.
pub open spec fn look_at_mat(eye: (int, int, int), center: (int, int, int), up: (int, int, int)) -> Seq<int> {
    let f = look_f(eye, center);
    let s = t_norm(look_s_raw(eye, center, up));
    let u = t_norm(look_u_raw(eye, center, up));
    seq![
        s.0,
        s.1,
        s.2,
        -t_dot(s, eye),
        u.0,
        u.1,
        u.2,
        -t_dot(u, eye),
        -f.0,
        -f.1,
        -f.2,
        t_dot(f, eye),
        0int,
        0int,
        0int,
        FX_ONE as int,
    ]
}

/// The frustum matrix of a perspective camera, camera space to canvas space.
/// Quotients are clamped as every fixed-point quotient is.
pub open spec fn frustum_mat(l: int, r: int, b: int, t: int, n: int, f: int) -> Seq<int> {
    let t1 = 2 * n;
    let t2 = r - l;
    let t3 = t - b;
    let t4 = f - n;
    let big = FX_TBIG as int;
    seq![
        iclamp(fxd(t1, t2), -big, big),
        0int,
        iclamp(fxd(r + l, t2), -big, big),
        0int,
        0int,
        iclamp(fxd(t1, t3), -big, big),
        iclamp(fxd(t + b, t3), -big, big),
        0int,
        0int,
        0int,
        iclamp(fxd(-f - n, t4), -big, big),
        iclamp(fxd(-fxm(t1, f), t4), -big, big),
        0int,
        0int,
        -FX_ONE as int,
        0int,
    ]
}

/// The sine polynomial, at fixed-point scale: five alternating terms of the
/// series, each power descaled as it is formed.
pub open spec fn sin_poly(x: int) -> int {
    let x2 = fxm(x, x);
    let x3 = fxm(x2, x);
    let x5 = fxm(x3, x2);
    let x7 = fxm(x5, x2);
    let x9 = fxm(x7, x2);
    x - tdiv(x3, 6) + tdiv(x5, 120) - tdiv(x7, 5040) + tdiv(x9, 362880)
}

/// The cosine polynomial, at fixed-point scale: six alternating terms of the
/// series.
pub open spec fn cos_poly(x: int) -> int {
    let x2 = fxm(x, x);
    let x4 = fxm(x2, x2);
    let x6 = fxm(x4, x2);
    let x8 = fxm(x6, x2);
    let x10 = fxm(x8, x2);
    FX_ONE - tdiv(x2, 2) + tdiv(x4, 24) - tdiv(x6, 720) + tdiv(x8, 40320) - tdiv(x10, 3628800)
}

/// The tangent of half the field of view, from degrees: the angle carried to
/// radians and the sine divided by the cosine, the cosine floored at one unit
/// so the quotient stays defined for every angle, the quotient saturated at
/// 65536 where the angle approaches the half turn.
pub open spec fn tan_half_spec(fovy: int) -> int {
    let x = tdiv(fxm(fovy, FX_PI as int), 360);
    iclamp(fxd(sin_poly(x), imax(1, cos_poly(x))), -0x100_0000_0000, 0x100_0000_0000)
}

/// The tangent of half the field of view, executable.
fn tan_half_deg(fovy: i64) -> (r: i64)
    requires
        0 < fovy < 180 * FX_ONE,
    ensures
        r as int == tan_half_spec(fovy as int),
{
    proof {
        lemma_mul_abs_bound(fovy as int, FX_PI as int, 180 * FX_ONE as int, FX_PI as int);
        lemma_tdiv_bound(fovy as int * FX_PI as int, FX_ONE as int, 0x400_0000_0000_0000);
    }
    let t: i64 = fx_mul(fovy, FX_PI);
    proof {
        lemma_tdiv_bound(t as int, 360, 0x4_0000_0000);
    }
    let x: i64 = fx_div_pos(t, 360);
    proof {
        assert(sabs(x as int) <= 0x400_0000);
        lemma_mul_abs_bound(x as int, x as int, 0x400_0000, 0x400_0000);
        lemma_tdiv_bound(x as int * x as int, FX_ONE as int, 0x10_0000_0000_0000);
    }
    let x2: i64 = fx_mul(x, x);
    proof {
        assert(sabs(x2 as int) <= 0x1000_0000);
        lemma_mul_abs_bound(x2 as int, x as int, 0x1000_0000, 0x400_0000);
        lemma_tdiv_bound(x2 as int * x as int, FX_ONE as int, 0x40_0000_0000_0000);
    }
    let x3: i64 = fx_mul(x2, x);
    proof {
        assert(sabs(x3 as int) <= 0x40_0000_0000);
        lemma_mul_abs_bound(x3 as int, x2 as int, 0x40_0000_0000, 0x1000_0000);
        lemma_tdiv_bound(x3 as int * x2 as int, FX_ONE as int, 0x400_0000_0000_0000_00);
    }
    let x5: i64 = fx_mul(x3, x2);
    proof {
        assert(sabs(x5 as int) <= 0x400_0000_0000);
        lemma_mul_abs_bound(x5 as int, x2 as int, 0x400_0000_0000, 0x1000_0000);
        lemma_tdiv_bound(x5 as int * x2 as int, FX_ONE as int, 0x4000_0000_0000_0000_00);
    }
    let x7: i64 = fx_mul(x5, x2);
    proof {
        assert(sabs(x7 as int) <= 0x4_0000_0000_0000);
        lemma_mul_abs_bound(x7 as int, x2 as int, 0x4_0000_0000_0000, 0x1000_0000);
    }
    let x9: i64 = fx_mul(x7, x2);
    let s3: i64 = fx_div_pos(x3, 6);
    let s5: i64 = fx_div_pos(x5, 120);
    let s7: i64 = fx_div_pos(x7, 5040);
    let s9: i64 = fx_div_pos(x9, 362880);
    proof {
        lemma_tdiv_bound(x7 as int * x2 as int, FX_ONE as int, 0x4000_0000_0000_0000_0000);
    }
    let sinv: i64 = x - s3 + s5 - s7 + s9;
    proof {
        lemma_mul_abs_bound(x2 as int, x2 as int, 0x1000_0000, 0x1000_0000);
        lemma_tdiv_bound(x2 as int * x2 as int, FX_ONE as int, 0x100_0000_0000_0000);
    }
    let x4: i64 = fx_mul(x2, x2);
    proof {
        assert(sabs(x4 as int) <= 0x100_0000_0000);
        lemma_mul_abs_bound(x4 as int, x2 as int, 0x100_0000_0000, 0x1000_0000);
        lemma_tdiv_bound(x4 as int * x2 as int, FX_ONE as int, 0x10_0000_0000_0000_0000);
    }
    let x6: i64 = fx_mul(x4, x2);
    proof {
        assert(sabs(x6 as int) <= 0x1000_0000_0000);
        lemma_mul_abs_bound(x6 as int, x2 as int, 0x1000_0000_0000, 0x1000_0000);
        lemma_tdiv_bound(x6 as int * x2 as int, FX_ONE as int, 0x1000_0000_0000_0000_000);
    }
    let x8: i64 = fx_mul(x6, x2);
    proof {
        assert(sabs(x8 as int) <= 0x10_0000_0000_0000);
        lemma_mul_abs_bound(x8 as int, x2 as int, 0x10_0000_0000_0000, 0x1000_0000);
        lemma_tdiv_bound(x8 as int * x2 as int, FX_ONE as int, 0x1_0000_0000_0000_0000_0000);
    }
    let x10: i64 = fx_mul(x8, x2);
    let c2: i64 = fx_div_pos(x2, 2);
    let c4: i64 = fx_div_pos(x4, 24);
    let c6: i64 = fx_div_pos(x6, 720);
    let c8: i64 = fx_div_pos(x8, 40320);
    let c10: i64 = fx_div_pos(x10, 3628800);
    let cosv: i64 = FX_ONE - c2 + c4 - c6 + c8 - c10;
    let cosc: i64 = fx_max(1, cosv);
    let q: i64 = fx_div_clamp(sinv, cosc);
    clamp_range(q, -0x100_0000_0000, 0x100_0000_0000)
}


/// The width-to-height ratio, saturated into the supported range.
pub open spec fn persp_aspect(width: int, height: int) -> int {
    iclamp(fxd(width, height), 1, MAX_COORD as int)
}

/// Half the height of the viewing window at a given depth, saturated into the
/// supported range.
pub open spec fn persp_ymax(fovy: int, depth: int) -> int {
    iclamp(fxm(depth, tan_half_spec(fovy)), 1, MAX_COORD as int)
}

/// Half the width of the viewing window at a given depth, saturated into the
/// supported range.
pub open spec fn persp_xmax(fovy: int, depth: int, width: int, height: int) -> int {
    iclamp(fxm(persp_ymax(fovy, depth), persp_aspect(width, height)), 1, MAX_COORD as int)
}

/// The world-space width of one pixel at a given depth: the smaller of the
/// window height per pixel row and the window width per pixel column,
/// saturated into the supported range.
pub open spec fn persp_step(fovy: int, depth: int, width: int, height: int) -> int {
    let h = iclamp(
        fxd(2 * persp_ymax(fovy, depth), height),
        -FX_TBIG as int,
        FX_TBIG as int,
    );
    let w = iclamp(
        fxd(2 * persp_xmax(fovy, depth, width, height), width),
        -FX_TBIG as int,
        FX_TBIG as int,
    );
    iclamp(imin(h, w), 0, MAX_COORD as int)
}

/// The full projection matrix of a perspective camera: the frustum built on
/// the near window, composed after the world-to-camera matrix.
pub open spec fn persp_mat(
    look: Seq<int>,
    fovy: int,
    width: int,
    height: int,
    znear: int,
    zfar: int,
) -> Seq<int> {
    let ymax = persp_ymax(fovy, znear);
    let xmax = persp_xmax(fovy, znear, width, height);
    crate::mat4::compose_mat(frustum_mat(-xmax, xmax, -ymax, ymax, znear, zfar), look)
}

/// A camera whose parameters lie in the supported ranges.
pub open spec fn camera_wf(c: Camera) -> bool {
    &&& t_in(c.eye@, MAX_COORD as int)
    &&& FX_ONE <= c.width <= 0x40_0000_0000
    &&& FX_ONE <= c.height <= 0x40_0000_0000
    &&& 0 < c.znear < c.zfar <= MAX_COORD
    &&& 0 <= c.min_step_size <= MAX_COORD
    &&& 0 <= c.max_step_size <= MAX_COORD
    &&& mat_in(mat_of(c.matrix), 0x1000_0000_0000)
}

/// The frustum matrix, executable.
fn frustum(l: i64, r: i64, b: i64, t: i64, n: i64, f: i64) -> (m: Transform<
    CameraSpace,
    CanvasSpace,
>)
    requires
        sabs(l as int) <= MAX_COORD as int,
        sabs(r as int) <= MAX_COORD as int,
        sabs(b as int) <= MAX_COORD as int,
        sabs(t as int) <= MAX_COORD as int,
        0 < n <= MAX_COORD,
        0 < f <= MAX_COORD,
        r - l >= 1,
        t - b >= 1,
        f - n >= 1,
    ensures
        mat_of(m) == frustum_mat(l as int, r as int, b as int, t as int, n as int, f as int),
        mat_in(mat_of(m), FX_TBIG as int),
{
    let t1: i64 = 2 * n;
    let t2: i64 = r - l;
    let t3: i64 = t - b;
    let t4: i64 = f - n;
    proof {
        lemma_mul_abs_bound(t1 as int, f as int, 2 * MAX_COORD as int, MAX_COORD as int);
    }
    let m23n: i64 = fx_mul(t1, f);
    proof {
        lemma_tdiv_bound(
            t1 as int * f as int,
            FX_ONE as int,
            (2 * MAX_COORD as int) * (MAX_COORD as int),
        );
    }
    let mm: [i64; 16] = [
        fx_div_clamp(t1, t2),
        0,
        fx_div_clamp(r + l, t2),
        0,
        0,
        fx_div_clamp(t1, t3),
        fx_div_clamp(t + b, t3),
        0,
        0,
        0,
        fx_div_clamp(-f - n, t4),
        fx_div_clamp(-m23n, t4),
        0,
        0,
        -FX_ONE,
        0,
    ];
    let m: Transform<CameraSpace, CanvasSpace> = Transform::new(mm);
    proof {
        assert(mat_of(m) =~= frustum_mat(
            l as int,
            r as int,
            b as int,
            t as int,
            n as int,
            f as int,
        ));
        assert forall|i: int| 0 <= i < 16 implies sabs(#[trigger] mat_of(m)[i]) <= FX_TBIG
            as int by {
            assert(mat_of(m)[i] == mm[i] as int);
        }
    }
    m
}

impl Camera {
    /// An orthonormal viewing frame at the eye, looking at the center with
    /// the given rough upward direction. The three frame directions must not
    /// degenerate: the eye must not sit on the center, and the viewing
    /// direction must not run along the upward direction.
    pub fn look_at(eye: Point3<WorldSpace>, center: Vec3<WorldSpace>, up: Vec3<WorldSpace>) -> (r:
        LookingCamera)
        requires
            t_in(eye@, MAX_COORD as int),
            t_in(center@, MAX_COORD as int),
            t_in(up@, MAX_COORD as int),
            up@ != (0int, 0int, 0int),
            t_sub(center@, eye@) != (0int, 0int, 0int),
            look_s_raw(eye@, center@, up@) != (0int, 0int, 0int),
            look_u_raw(eye@, center@, up@) != (0int, 0int, 0int),
        ensures
            r.eye == eye,
            r.center == center,
            r.up == up,
            mat_of(r.matrix) == look_at_mat(eye@, center@, up@),
            mat_in(mat_of(r.matrix), 4 * MAX_COORD as int),
    {
        let upn: Vec3<WorldSpace> = up.normalize();
        let f: Vec3<WorldSpace> = center.minus(&eye.to_vector()).normalize();
        proof {
            crate::vec3::lemma_cross_fits(f@, upn@, FX_ONE as int, FX_ONE as int);
        }
        let sraw: Vec3<WorldSpace> = f.cross(&upn);
        let sv: Vec3<WorldSpace> = sraw.normalize();
        proof {
            crate::vec3::lemma_cross_fits(sv@, f@, FX_ONE as int, FX_ONE as int);
        }
        let uraw: Vec3<WorldSpace> = sv.cross(&f);
        let uv: Vec3<WorldSpace> = uraw.normalize();
        proof {
            lemma_dot_fits(sv@, eye@, FX_ONE as int, MAX_COORD as int);
            lemma_dot_fits(uv@, eye@, FX_ONE as int, MAX_COORD as int);
            lemma_dot_fits(f@, eye@, FX_ONE as int, MAX_COORD as int);
        }
        let ds: i64 = sv.dot(&eye.to_vector());
        let du: i64 = uv.dot(&eye.to_vector());
        let df: i64 = f.dot(&eye.to_vector());
        let mm: [i64; 16] = [
            sv.x,
            sv.y,
            sv.z,
            -ds,
            uv.x,
            uv.y,
            uv.z,
            -du,
            -f.x,
            -f.y,
            -f.z,
            df,
            0,
            0,
            0,
            FX_ONE,
        ];
        let matrix: Transform<WorldSpace, CameraSpace> = Transform::new(mm);
        proof {
            assert(mat_of(matrix) =~= look_at_mat(eye@, center@, up@));
            assert forall|i: int| 0 <= i < 16 implies sabs(#[trigger] mat_of(matrix)[i]) <= 4
                * MAX_COORD as int by {
                assert(mat_of(matrix)[i] == mm[i] as int);
            }
        }
        LookingCamera { eye, center, up, matrix }
    }
}

impl LookingCamera {
    /// A perspective camera over this viewing frame: the given vertical field
    /// of view in fixed-point degrees, canvas size in fixed-point pixels, and
    /// near and far clipping depths. The composed projection matrix must stay
    /// within the entry range the projection supports.
    pub fn perspective(self, fovy: i64, width: i64, height: i64, znear: i64, zfar: i64) -> (r:
        Camera)
        requires
            0 < fovy < 180 * FX_ONE,
            FX_ONE <= width <= 0x40_0000_0000,
            FX_ONE <= height <= 0x40_0000_0000,
            0 < znear < zfar <= MAX_COORD,
            t_in(self.eye@, MAX_COORD as int),
            mat_in(mat_of(self.matrix), 4 * MAX_COORD as int),
            mat_in(
                persp_mat(
                    mat_of(self.matrix),
                    fovy as int,
                    width as int,
                    height as int,
                    znear as int,
                    zfar as int,
                ),
                0x1000_0000_0000,
            ),
        ensures
            r.eye == self.eye,
            r.width == width,
            r.height == height,
            r.znear == znear,
            r.zfar == zfar,
            r.min_step_size as int == persp_step(
                fovy as int,
                znear as int,
                width as int,
                height as int,
            ),
            r.max_step_size as int == persp_step(
                fovy as int,
                zfar as int,
                width as int,
                height as int,
            ),
            mat_of(r.matrix) == persp_mat(
                mat_of(self.matrix),
                fovy as int,
                width as int,
                height as int,
                znear as int,
                zfar as int,
            ),
            camera_wf(r),
    {
        let tanh: i64 = tan_half_deg(fovy);
        let aspect: i64 = clamp_range(fx_div_clamp(width, height), 1, MAX_COORD);
        proof {
            lemma_mul_abs_bound(znear as int, tanh as int, MAX_COORD as int, 0x100_0000_0000);
            lemma_mul_abs_bound(zfar as int, tanh as int, MAX_COORD as int, 0x100_0000_0000);
        }
        let ymax: i64 = clamp_range(fx_mul(znear, tanh), 1, MAX_COORD);
        proof {
            lemma_mul_abs_bound(ymax as int, aspect as int, MAX_COORD as int, MAX_COORD as int);
        }
        let xmax: i64 = clamp_range(fx_mul(ymax, aspect), 1, MAX_COORD);

        let fr: Transform<CameraSpace, CanvasSpace> = frustum(-xmax, xmax, -ymax, ymax, znear, zfar);
        let matrix: Transform<WorldSpace, CanvasSpace> = crate::mat4::mat_compose(&fr, &self.matrix);

        let min_step_size: i64 = clamp_range(
            fx_min(fx_div_clamp(2 * ymax, height), fx_div_clamp(2 * xmax, width)),
            0,
            MAX_COORD,
        );

        let zf_ymax: i64 = clamp_range(fx_mul(zfar, tanh), 1, MAX_COORD);
        proof {
            lemma_mul_abs_bound(zf_ymax as int, aspect as int, MAX_COORD as int, MAX_COORD as int);
        }
        let zf_xmax: i64 = clamp_range(fx_mul(zf_ymax, aspect), 1, MAX_COORD);
        let max_step_size: i64 = clamp_range(
            fx_min(fx_div_clamp(2 * zf_ymax, height), fx_div_clamp(2 * zf_xmax, width)),
            0,
            MAX_COORD,
        );

        Camera {
            eye: self.eye,
            width,
            height,
            znear,
            zfar,
            min_step_size,
            max_step_size,
            matrix,
        }
    }
}

/// A scalar saturated into a range.
fn clamp_range(v: i64, lo: i64, hi: i64) -> (r: i64)
    requires
        lo <= hi,
    ensures
        r as int == iclamp(v as int, lo as int, hi as int),
{
    if v < lo {
        lo
    } else if v > hi {
        hi
    } else {
        v
    }
}


/// A quotient rounded half to even: the nearest integer to `a / b`, ties
/// going to the even neighbour. Meaningful for `a >= 0`, `b >= 1`.
pub open spec fn round_half_even(a: int, b: int) -> int {
    let q = a / b;
    let rem = a % b;
    if 2 * rem > b {
        q + 1
    } else if 2 * rem < b {
        q
    } else if q % 2 == 0 {
        q
    } else {
        q + 1
    }
}

/// The point a fraction `i / n` of the way along a displacement from `p`,
/// each coordinate rounded toward zero.
pub open spec fn lerp3(p: (int, int, int), d: (int, int, int), i: int, n: int) -> (int, int, int) {
    (p.0 + tdiv(d.0 * i, n), p.1 + tdiv(d.1 * i, n), p.2 + tdiv(d.2 * i, n))
}

/// The step length at which a segment is chopped: the pixel size interpolated
/// between the near and far planes by the depth of the segment's closest
/// point, floored at one unit. The interpolation factor saturates at 64 far
/// beyond the planes.
pub open spec fn chop_rough(
    eye: (int, int, int),
    znear: int,
    zfar: int,
    mins: int,
    maxs: int,
    seg: ((int, int, int), (int, int, int), int),
) -> int {
    let diff = t_sub(seg.1, seg.0);
    let mid = t_add(seg.0, (tdiv(diff.0, 2), tdiv(diff.1, 2), tdiv(diff.2, 2)));
    let t1 = t_len(t_sub(seg.0, eye));
    let t2 = t_len(t_sub(seg.1, eye));
    let t3 = t_len(t_sub(mid, eye));
    let closest = imin(imin(t1, t2), t3);
    let sc = iclamp(fxd(closest - znear, zfar - znear), -0x4000_0000, 0x4000_0000);
    imax(1, mins + fxm(sc, maxs - mins))
}

/// A segment chopped adaptively: nothing when it is shorter than the step,
/// else the segment divided into equally many equal chunks, their count the
/// length over the step rounded half to even.
pub open spec fn chop_seg_spec(
    eye: (int, int, int),
    znear: int,
    zfar: int,
    mins: int,
    maxs: int,
    seg: ((int, int, int), (int, int, int), int),
) -> Seq<((int, int, int), (int, int, int), int)> {
    let rough = chop_rough(eye, znear, zfar, mins, maxs, seg);
    let diff = t_sub(seg.1, seg.0);
    let len = t_len(diff);
    if len < rough {
        Seq::empty()
    } else {
        let n = imax(1, round_half_even(len, rough));
        Seq::new(n as nat, |i: int| (lerp3(seg.0, diff, i, n), lerp3(seg.0, diff, i + 1, n), seg.2))
    }
}

/// The ends of the interpolation: no steps is the start, all steps is the
/// far end.
proof fn lemma_lerp_ends(p: (int, int, int), d: (int, int, int), n: int)
    requires
        n >= 1,
    ensures
        lerp3(p, d, 0, n) == p,
        lerp3(p, d, n, n) == t_add(p, d),
{
    assert(d.0 * 0 == 0 && d.1 * 0 == 0 && d.2 * 0 == 0) by (nonlinear_arith);
    assert(tdiv(0, n) == 0);
    assert(tdiv(d.0 * n, n) == d.0) by (nonlinear_arith)
        requires
            n >= 1,
    ;
    assert(tdiv(d.1 * n, n) == d.1) by (nonlinear_arith)
        requires
            n >= 1,
    ;
    assert(tdiv(d.2 * n, n) == d.2) by (nonlinear_arith)
        requires
            n >= 1,
    ;
}

/// One coordinate of the interpolation, in 128-bit arithmetic.
fn lerp_coord(a: i64, d: i64, i: i64, n: i64) -> (r: i64)
    requires
        1 <= n,
        0 <= i <= n,
        sabs(d as int) <= 0x4000_0000_0000,
        sabs(a as int) <= 0x2000_0000_0000,
    ensures
        r as int == a + tdiv(d as int * i, n as int),
        sabs(r as int) <= 0x8000_0000_0000,
        d >= 0 ==> a <= r as int <= a + d,
        d < 0 ==> a + d <= r as int <= a,
{
    proof {
        assert(sabs(d as int) * (i as int) <= 0x2000_0000_0000_0000_0000_0000_0000)
            by (nonlinear_arith)
            requires
                sabs(d as int) <= 0x4000_0000_0000,
                0 <= i as int <= 0x8000_0000_0000_0000,
        ;
    }
    let neg: bool = d < 0;
    let mag: u128 = if neg {
        ((-(d as i128)) as u128) * (i as u128)
    } else {
        (d as u128) * (i as u128)
    };
    let q: u128 = mag / (n as u128);
    proof {
        assert(mag as int == sabs(d as int * i)) by (nonlinear_arith)
            requires
                mag as int == sabs(d as int) * i,
                i >= 0,
        ;
        assert(q as int <= sabs(d as int)) by (nonlinear_arith)
            requires
                q as int == (sabs(d as int) * i) / (n as int),
                mag as int == sabs(d as int) * i,
                0 <= i <= n as int,
                n >= 1,
                sabs(d as int) >= 0,
        ;
        assert(d < 0 ==> (d as int) * i <= 0) by (nonlinear_arith)
            requires
                i >= 0,
        ;
        assert(d >= 0 ==> (d as int) * i >= 0) by (nonlinear_arith)
            requires
                i >= 0,
        ;
    }
    if neg {
        a - (q as i64)
    } else {
        a + (q as i64)
    }
}

impl Camera {
    /// A segment divided into roughly pixel-sized chunks by the camera's step
    /// sizes: a segment shorter than the step at its depth is dropped, and
    /// any other becomes a run of equal chunks. The chunks concatenate back
    /// to the segment exactly: the first starts at its start, consecutive
    /// chunks share their endpoint, the last ends at its end, and every chunk
    /// carries its tag.
    pub fn chop_segment(&self, segment: &LineSegment<WorldSpace>) -> (r: Vec<
        LineSegment<WorldSpace>,
    >)
        requires
            camera_wf(*self),
            t_in(segment.p1@, 2 * MAX_COORD as int),
            t_in(segment.p2@, 2 * MAX_COORD as int),
        ensures
            segs_model(r@) == chop_seg_spec(
                self.eye@,
                self.znear as int,
                self.zfar as int,
                self.min_step_size as int,
                self.max_step_size as int,
                segment@,
            ),
            r@.len() > 0 ==> (r@[0])@.0 == segment@.0,
            r@.len() > 0 ==> (r@[r@.len() - 1])@.1 == segment@.1,
            forall|i: int| 0 <= i < r@.len() - 1 ==> (#[trigger] r@[i])@.1 == r@[i + 1]@.0,
            forall|i: int| 0 <= i < r@.len() ==> (#[trigger] r@[i])@.2 == segment@.2,
            forall|i: int|
                0 <= i < r@.len() ==> t_in((#[trigger] r@[i])@.0, 2 * MAX_COORD as int) && t_in(
                    r@[i]@.1,
                    2 * MAX_COORD as int,
                ),
    {
        let p1: Point3<WorldSpace> = segment.p1;
        let p2: Point3<WorldSpace> = segment.p2;
        let diff: Vec3<WorldSpace> = p2.sub_p(&p1);
        let half: Vec3<WorldSpace> = Vec3::new(
            crate::fx::fx_div_pos(diff.x, 2),
            crate::fx::fx_div_pos(diff.y, 2),
            crate::fx::fx_div_pos(diff.z, 2),
        );
        let mid: Point3<WorldSpace> = p1.add_v(&half);
        let t1: i64 = p1.sub_p(&self.eye).length();
        let t2: i64 = p2.sub_p(&self.eye).length();
        let t3: i64 = mid.sub_p(&self.eye).length();
        let closest: i64 = fx_min(fx_min(t1, t2), t3);
        proof {
            crate::vec3::lemma_square_box(p1@.0 - self.eye@.0, 0x4000_0000_0000);
            crate::vec3::lemma_square_box(p1@.1 - self.eye@.1, 0x4000_0000_0000);
            crate::vec3::lemma_square_box(p1@.2 - self.eye@.2, 0x4000_0000_0000);
            crate::fx::lemma_isqrt_le(
                t1 as int,
                crate::vec3::t_len2(t_sub(p1@, self.eye@)),
                0x8000_0000_0000,
            );
        }
        let sc: i64 = clamp_range(
            fx_div_clamp(closest - self.znear, self.zfar - self.znear),
            -0x4000_0000,
            0x4000_0000,
        );
        proof {
            lemma_mul_abs_bound(
                sc as int,
                self.max_step_size as int - self.min_step_size as int,
                0x4000_0000,
                MAX_COORD as int,
            );
            lemma_tdiv_bound(
                sc as int * (self.max_step_size as int - self.min_step_size as int),
                FX_ONE as int,
                0x4000_0000 * MAX_COORD as int,
            );
        }
        let rough: i64 = fx_max(
            1,
            self.min_step_size + fx_mul(sc, self.max_step_size - self.min_step_size),
        );
        let seg_len: i64 = diff.length();
        proof {
            crate::vec3::lemma_square_box(diff@.0, 0x4000_0000_0000);
            crate::vec3::lemma_square_box(diff@.1, 0x4000_0000_0000);
            crate::vec3::lemma_square_box(diff@.2, 0x4000_0000_0000);
            crate::fx::lemma_isqrt_le(
                seg_len as int,
                crate::vec3::t_len2(diff@),
                0x8000_0000_0000,
            );
        }
        if seg_len < rough {
            let r: Vec<LineSegment<WorldSpace>> = Vec::new();
            proof {
                assert(segs_model(r@) =~= chop_seg_spec(
                    self.eye@,
                    self.znear as int,
                    self.zfar as int,
                    self.min_step_size as int,
                    self.max_step_size as int,
                    segment@,
                ));
            }
            return r;
        }
        let q: i64 = crate::fx::fx_div_pos(seg_len, rough);
        proof {
            assert((q as int) * (rough as int) <= seg_len as int && (seg_len as int) - (q as int)
                * (rough as int) < (rough as int) && q as int == (seg_len as int) / (rough as int)
                && (seg_len as int) - (q as int) * (rough as int) == (seg_len as int) % (
            rough as int)) by (nonlinear_arith)
                requires
                    q as int == tdiv(seg_len as int, rough as int),
                    seg_len >= 0,
                    rough >= 1,
            ;
        }
        let rem: i64 = seg_len - q * rough;
        let hq: i64 = crate::fx::fx_div_pos(q, 2);
        proof {
            assert((q as int % 2 == 0) == (q as int == 2 * (q as int / 2))) by (nonlinear_arith)
                requires
                    q >= 0,
            ;
        }
        let even: bool = q == 2 * hq;
        let n0: i64 = if 2 * rem > rough {
            q + 1
        } else if 2 * rem < rough {
            q
        } else if even {
            q
        } else {
            q + 1
        };
        let count: i64 = fx_max(1, n0);
        let ghost cspec = chop_seg_spec(
            self.eye@,
            self.znear as int,
            self.zfar as int,
            self.min_step_size as int,
            self.max_step_size as int,
            segment@,
        );
        proof {
            assert(cspec.len() == count as int);
        }
        let mut out: Vec<LineSegment<WorldSpace>> = Vec::new();
        let mut i: i64 = 0;
        proof {
            assert(segs_model(out@) =~= cspec.take(0));
        }
        while i < count
            invariant
                0 <= i <= count,
                1 <= count,
                t_in(p1@, 0x2000_0000_0000),
                t_in(diff@, 0x4000_0000_0000),
                t_in(segment.p1@, 2 * MAX_COORD as int),
                t_in(segment.p2@, 2 * MAX_COORD as int),
                p1@ == segment@.0,
                diff@ == t_sub(segment@.1, segment@.0),
                forall|k: int|
                    0 <= k < out@.len() ==> t_in((#[trigger] out@[k])@.0, 2 * MAX_COORD as int)
                        && t_in(out@[k]@.1, 2 * MAX_COORD as int),
                cspec == chop_seg_spec(
                    self.eye@,
                    self.znear as int,
                    self.zfar as int,
                    self.min_step_size as int,
                    self.max_step_size as int,
                    segment@,
                ),
                cspec.len() == count as int,
                forall|k: int|
                    0 <= k < count ==> #[trigger] cspec[k] == (
                        lerp3(segment@.0, t_sub(segment@.1, segment@.0), k, count as int),
                        lerp3(segment@.0, t_sub(segment@.1, segment@.0), k + 1, count as int),
                        segment@.2,
                    ),
                segs_model(out@) == cspec.take(i as int),
            decreases count - i,
        {
            let a: Point3<WorldSpace> = Point3::new(
                lerp_coord(p1.x, diff.x, i, count),
                lerp_coord(p1.y, diff.y, i, count),
                lerp_coord(p1.z, diff.z, i, count),
            );
            let b: Point3<WorldSpace> = Point3::new(
                lerp_coord(p1.x, diff.x, i + 1, count),
                lerp_coord(p1.y, diff.y, i + 1, count),
                lerp_coord(p1.z, diff.z, i + 1, count),
            );
            let newseg: LineSegment<WorldSpace> = LineSegment::tagged(a, b, segment.tag);
            let ghost old_n = out@;
            out.push(newseg);
            proof {
                crate::path::lemma_segs_model_push(old_n, newseg);
                assert(cspec.take(i + 1) =~= cspec.take(i as int).push(cspec[i as int]));
                assert(segs_model(out@) =~= cspec.take(i + 1));
            }
            i += 1;
        }
        proof {
            assert(cspec.take(count as int) =~= cspec);
            lemma_lerp_ends(segment@.0, t_sub(segment@.1, segment@.0), count as int);
            assert(segs_model(out@).len() == out@.len());
            assert forall|k: int| 0 <= k < out@.len() implies (#[trigger] out@[k])@ == cspec[k] by {
                assert(segs_model(out@)[k] == out@[k]@);
            }
        }
        out
    }
}


/// The canvas-fitting matrix of a camera: its projection matrix translated by
/// one unit in the window plane and scaled to pixels, so normalized window
/// coordinates become canvas coordinates. The depth row is zeroed; the
/// homogeneous row stays.
pub open spec fn viewport_spec(m: Seq<int>, halfw: int, halfh: int) -> Seq<int> {
    seq![
        fxm(m[0] + m[12], halfw),
        fxm(m[1] + m[13], halfw),
        fxm(m[2] + m[14], halfw),
        fxm(m[3] + m[15], halfw),
        fxm(m[4] + m[12], halfh),
        fxm(m[5] + m[13], halfh),
        fxm(m[6] + m[14], halfh),
        fxm(m[7] + m[15], halfh),
        0int,
        0int,
        0int,
        0int,
        m[12],
        m[13],
        m[14],
        m[15],
    ]
}

/// One scaled viewport entry.
fn viewport_entry(a: i64, b: i64, h: i64) -> (r: i64)
    requires
        sabs(a as int) <= 0x1000_0000_0000,
        sabs(b as int) <= 0x1000_0000_0000,
        0 <= h <= 0x20_0000_0000,
    ensures
        r as int == fxm(a as int + b as int, h as int),
        sabs(r as int) <= 0x400_0000_0000_0000,
{
    proof {
        lemma_mul_abs_bound(a as int + b as int, h as int, 0x2000_0000_0000, 0x20_0000_0000);
        lemma_tdiv_bound(
            (a as int + b as int) * (h as int),
            FX_ONE as int,
            0x4_0000_0000_0000_0000_0000,
        );
    }
    fx_mul(a + b, h)
}

/// The canvas-fitting matrix, executable.
pub fn viewport(m: &Transform<WorldSpace, CanvasSpace>, halfw: i64, halfh: i64) -> (r: Transform<
    WorldSpace,
    CameraSpace,
>)
    requires
        mat_in(mat_of(*m), 0x1000_0000_0000),
        0 <= halfw <= 0x20_0000_0000,
        0 <= halfh <= 0x20_0000_0000,
    ensures
        mat_of(r) == viewport_spec(mat_of(*m), halfw as int, halfh as int),
        mat_in(mat_of(r), 0x400_0000_0000_0000),
{
    proof {
        assert forall|i: int| 0 <= i < 16 implies sabs(#[trigger] m.m[i] as int)
            <= 0x1000_0000_0000 by {
            assert(mat_of(*m)[i] == m.m[i] as int);
        }
    }
    let mm: [i64; 16] = [
        viewport_entry(m.m[0], m.m[12], halfw),
        viewport_entry(m.m[1], m.m[13], halfw),
        viewport_entry(m.m[2], m.m[14], halfw),
        viewport_entry(m.m[3], m.m[15], halfw),
        viewport_entry(m.m[4], m.m[12], halfh),
        viewport_entry(m.m[5], m.m[13], halfh),
        viewport_entry(m.m[6], m.m[14], halfh),
        viewport_entry(m.m[7], m.m[15], halfh),
        0,
        0,
        0,
        0,
        m.m[12],
        m.m[13],
        m.m[14],
        m.m[15],
    ];
    let t: Transform<WorldSpace, CameraSpace> = Transform::new(mm);
    proof {
        assert(mat_of(t) =~= viewport_spec(mat_of(*m), halfw as int, halfh as int));
        assert forall|i: int| 0 <= i < 16 implies sabs(#[trigger] mat_of(t)[i])
            <= 0x400_0000_0000_0000 by {
            assert(mat_of(t)[i] == mm[i] as int);
        }
    }
    t
}


/// Every segment of a list chopped adaptively, the chunks in segment order.
pub open spec fn chop_all(
    eye: (int, int, int),
    znear: int,
    zfar: int,
    mins: int,
    maxs: int,
    segs: Seq<((int, int, int), (int, int, int), int)>,
) -> Seq<((int, int, int), (int, int, int), int)>
    decreases segs.len(),
{
    if segs.len() == 0 {
        Seq::empty()
    } else {
        chop_all(eye, znear, zfar, mins, maxs, segs.drop_last()) + chop_seg_spec(
            eye,
            znear,
            zfar,
            mins,
            maxs,
            segs.last(),
        )
    }
}

} // verus!
