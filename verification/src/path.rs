//! Collections of line segments: joining, transforming, chopping into
//! fixed-length chunks, and merging collinear runs.
//!
//! The simplifier is a single pass: it keeps a current segment and absorbs
//! each incoming segment that runs the same way, carries the same tag, and
//! touches an endpoint; anything else flushes the current segment. Its model
//! is the `simp_run` state machine below, and the laws about it are stated
//! over that model.

use vstd::prelude::*;

use crate::fx::fx_abs;
use crate::fx::sabs;
use crate::fx::FX_ONE;
use crate::mat4::mat_in;
use crate::mat4::mat_of;
use crate::mat4::transform_point_spec;
use crate::mat4::Transform;
use crate::segment::LineSegment;
use crate::vec3::t_aeq;
use crate::vec3::t_add;
use crate::vec3::t_in;
use crate::vec3::t_neg;
use crate::vec3::t_norm;
use crate::vec3::t_smul;
use crate::vec3::t_sub;
use crate::vec3::Point3;
use crate::vec3::Vec3;

verus! {

/// The model of a segment: its two endpoints and its tag.
pub open spec fn seg_model<S>(l: LineSegment<S>) -> ((int, int, int), (int, int, int), int) {
    l@
}

/// The model of a segment list.
pub open spec fn segs_model<S>(s: Seq<LineSegment<S>>) -> Seq<
    ((int, int, int), (int, int, int), int),
> {
    s.map_values(|l: LineSegment<S>| l@)
}

/// Every endpoint of every segment stays within `b`.
pub open spec fn segs_in(s: Seq<((int, int, int), (int, int, int), int)>, b: int) -> bool {
    forall|i: int| 0 <= i < s.len() ==> t_in((#[trigger] s[i]).0, b) && t_in(s[i].1, b)
}

/// Two segments run the same way: neither is degenerate, and their unit
/// directions agree componentwise within the threshold, in either
/// orientation.
pub open spec fn same_dir(
    c: ((int, int, int), (int, int, int), int),
    l: ((int, int, int), (int, int, int), int),
    e: int,
) -> bool {
    let dc = t_sub(c.1, c.0);
    let dl = t_sub(l.1, l.0);
    if dc == (0int, 0int, 0int) || dl == (0int, 0int, 0int) {
        false
    } else {
        t_aeq(t_norm(dc), t_norm(dl), e) || t_aeq(t_norm(dc), t_neg(t_norm(dl)), e)
    }
}

/// One step of the simplifier: the accumulated output, the current segment,
/// and whether the current segment has already been flushed.
pub open spec fn simp_step(
    st: (
        Seq<((int, int, int), (int, int, int), int)>,
        Option<((int, int, int), (int, int, int), int)>,
        bool,
    ),
    v: ((int, int, int), (int, int, int), int),
    e: int,
) -> (
    Seq<((int, int, int), (int, int, int), int)>,
    Option<((int, int, int), (int, int, int), int)>,
    bool,
) {
    match st.1 {
        None => (st.0, Some(v), false),
        Some(c) => {
            if same_dir(c, v, e) && c.2 == v.2 {
                if t_aeq(c.0, v.0, e) {
                    (st.0, Some((v.1, c.1, c.2)), false)
                } else if t_aeq(c.0, v.1, e) {
                    (st.0, Some((v.0, c.1, c.2)), false)
                } else if t_aeq(c.1, v.0, e) {
                    (st.0, Some((v.1, c.0, c.2)), false)
                } else if t_aeq(c.1, v.1, e) {
                    (st.0, Some((v.0, c.0, c.2)), false)
                } else {
                    (st.0.push(c), Some(v), true)
                }
            } else {
                (st.0.push(c), Some(v), false)
            }
        },
    }
}

/// The simplifier state after consuming a segment list.
pub open spec fn simp_run(s: Seq<((int, int, int), (int, int, int), int)>, e: int) -> (
    Seq<((int, int, int), (int, int, int), int)>,
    Option<((int, int, int), (int, int, int), int)>,
    bool,
)
    decreases s.len(),
{
    if s.len() == 0 {
        (Seq::empty(), None, true)
    } else {
        simp_step(simp_run(s.drop_last(), e), s.last(), e)
    }
}

/// The simplified list: the accumulated output, with the current segment
/// appended when it has not been flushed.
pub open spec fn simplify_spec(s: Seq<((int, int, int), (int, int, int), int)>, e: int) -> Seq<
    ((int, int, int), (int, int, int), int),
> {
    let st = simp_run(s, e);
    match st.1 {
        Some(c) => if !st.2 {
            st.0.push(c)
        } else {
            st.0
        },
        None => st.0,
    }
}

/// The image of a segment list under a transform, segments whose projection
/// fails dropped.
pub open spec fn transform_segs_spec(
    s: Seq<((int, int, int), (int, int, int), int)>,
    m: Seq<int>,
) -> Seq<((int, int, int), (int, int, int), int)>
    decreases s.len(),
{
    if s.len() == 0 {
        Seq::empty()
    } else {
        let pre = transform_segs_spec(s.drop_last(), m);
        let l = s.last();
        match (transform_point_spec(m, l.0), transform_point_spec(m, l.1)) {
            (Some(q1), Some(q2)) => pre.push((q1, q2, l.2)),
            _ => pre,
        }
    }
}

/// How many full steps of the given length fit strictly inside a length.
pub open spec fn chop_steps(l: int, step: int) -> int {
    if l >= 1 {
        (l - 1) / step
    } else {
        0
    }
}

/// The chunks of one segment chopped at a fixed step: full chunks along the
/// unit direction, then the remainder up to the far endpoint.
pub open spec fn chop_line_spec(
    l: ((int, int, int), (int, int, int), int),
    step: int,
) -> Seq<((int, int, int), (int, int, int), int)> {
    let d = t_sub(l.1, l.0);
    let stepv = if d == (0int, 0int, 0int) {
        (0int, 0int, 0int)
    } else {
        crate::vec3::t_scale(t_norm(d), step)
    };
    let k = chop_steps(crate::vec3::t_len(d), step);
    Seq::new((k + 1) as nat, |i: int|
        if i < k {
            (t_add(l.0, t_smul(stepv, i)), t_add(l.0, t_smul(stepv, i + 1)), l.2)
        } else {
            (t_add(l.0, t_smul(stepv, k)), l.1, l.2)
        }
    )
}

/// The chunks of a segment list chopped at a fixed step, in order.
pub open spec fn chop_segs_spec(s: Seq<((int, int, int), (int, int, int), int)>, step: int) -> Seq<
    ((int, int, int), (int, int, int), int),
>
    decreases s.len(),
{
    if s.len() == 0 {
        Seq::empty()
    } else {
        chop_segs_spec(s.drop_last(), step) + chop_line_spec(s.last(), step)
    }
}

/// Two points agree componentwise within the threshold.
fn approx_eq_pt<S>(a: &Point3<S>, b: &Point3<S>, e: i64) -> (r: bool)
    requires
        t_in(a@, 0x2000_0000_0000_0000),
        t_in(b@, 0x2000_0000_0000_0000),
    ensures
        r == t_aeq(a@, b@, e as int),
{
    let dx: i64 = fx_abs(a.x - b.x);
    let dy: i64 = fx_abs(a.y - b.y);
    let dz: i64 = fx_abs(a.z - b.z);
    dx < e && dy < e && dz < e
}

/// Two vectors agree componentwise within the threshold.
fn approx_eq_v3<S>(a: &Vec3<S>, b: &Vec3<S>, e: i64) -> (r: bool)
    requires
        t_in(a@, 0x2000_0000_0000_0000),
        t_in(b@, 0x2000_0000_0000_0000),
    ensures
        r == t_aeq(a@, b@, e as int),
{
    let dx: i64 = fx_abs(a.x - b.x);
    let dy: i64 = fx_abs(a.y - b.y);
    let dz: i64 = fx_abs(a.z - b.z);
    dx < e && dy < e && dz < e
}

/// The two segments run the same way, executable.
fn same_dir_x<S>(c: &LineSegment<S>, l: &LineSegment<S>, e: i64) -> (r: bool)
    requires
        t_in(c.p1@, 0x1000_0000_0000),
        t_in(c.p2@, 0x1000_0000_0000),
        t_in(l.p1@, 0x1000_0000_0000),
        t_in(l.p2@, 0x1000_0000_0000),
    ensures
        r == same_dir(c@, l@, e as int),
{
    let dc: Vec3<S> = c.p2.sub_p(&c.p1);
    let dl: Vec3<S> = l.p2.sub_p(&l.p1);
    if (dc.x == 0 && dc.y == 0 && dc.z == 0) || (dl.x == 0 && dl.y == 0 && dl.z == 0) {
        return false;
    }
    let nc: Vec3<S> = dc.normalize();
    let nl: Vec3<S> = dl.normalize();
    let nln: Vec3<S> = nl.neg();
    approx_eq_v3(&nc, &nl, e) || approx_eq_v3(&nc, &nln, e)
}

/// An ordered collection of segments in one space.
pub struct Paths<S> {
    pub lines: Vec<LineSegment<S>>,
}

/// The model of a list with one more segment is the model of the list with
/// that segment's model appended.
pub proof fn lemma_segs_model_push<S>(s: Seq<LineSegment<S>>, l: LineSegment<S>)
    ensures
        segs_model(s.push(l)) =~= segs_model(s).push(l@),
{
    assert forall|i: int| 0 <= i < s.len() + 1 implies segs_model(s.push(l))[i] == segs_model(
        s,
    ).push(l@)[i] by {
        if i < s.len() {
            assert(segs_model(s.push(l))[i] == s.push(l)[i]@);
            assert(segs_model(s)[i] == s[i]@);
        } else {
            assert(segs_model(s.push(l))[i] == s.push(l)[i]@);
        }
    }
}

/// The integer scaling of a vector by one more step extends it by the vector.
proof fn lemma_smul_step(v: (int, int, int), j: int)
    ensures
        t_smul(v, j + 1) == t_add(t_smul(v, j), v),
{
    assert(v.0 * (j + 1) == v.0 * j + v.0) by (nonlinear_arith);
    assert(v.1 * (j + 1) == v.1 * j + v.1) by (nonlinear_arith);
    assert(v.2 * (j + 1) == v.2 * j + v.2) by (nonlinear_arith);
}

/// A scaled vector's components are bounded by the scale times the vector's
/// component bound.
proof fn lemma_smul_bound(v: (int, int, int), j: int, cv: int)
    requires
        t_in(v, cv),
        0 <= j,
        0 <= cv,
    ensures
        t_in(t_smul(v, j), cv * j),
{
    crate::fx::lemma_mul_abs_bound(v.0, j, cv, j);
    crate::fx::lemma_mul_abs_bound(v.1, j, cv, j);
    crate::fx::lemma_mul_abs_bound(v.2, j, cv, j);
}

/// Chop one segment into fixed-step chunks.
fn chop_one<S: Copy>(seg: &LineSegment<S>, step: i64) -> (r: Vec<LineSegment<S>>)
    requires
        1 <= step <= 0x1000_0000_0000,
        t_in(seg.p1@, 0x1000_0000_0000),
        t_in(seg.p2@, 0x1000_0000_0000),
    ensures
        segs_model(r@) == chop_line_spec(seg@, step as int),
{
    let p1: Point3<S> = seg.p1;
    let p2: Point3<S> = seg.p2;
    let v: Vec3<S> = p2.sub_p(&p1);
    let l: i64 = v.length();
    let stepv: Vec3<S> = if v.x == 0 && v.y == 0 && v.z == 0 {
        Vec3::new(0, 0, 0)
    } else {
        let nv: Vec3<S> = v.normalize();
        proof {
            crate::vec3::lemma_scale_fits(nv@, step as int, FX_ONE as int, step as int);
            assert((FX_ONE as int * step as int) / (FX_ONE as int) == step as int)
                by (nonlinear_arith)
                requires
                    step >= 0,
                    FX_ONE as int == 16777216,
            ;
        }
        nv.scale(step)
    };
    proof {
        assert(t_in(stepv@, step as int));
        assert(sabs(v@.0) <= l as int && sabs(v@.1) <= l as int && sabs(v@.2) <= l as int);
        crate::vec3::lemma_square_box(v@.0, 0x2000_0000_0000);
        crate::vec3::lemma_square_box(v@.1, 0x2000_0000_0000);
        crate::vec3::lemma_square_box(v@.2, 0x2000_0000_0000);
        crate::fx::lemma_isqrt_le(l as int, crate::vec3::t_len2(v@), 0x4000_0000_0000);
    }
    let ghost k = chop_steps(l as int, step as int);
    let ghost lspec = chop_line_spec(seg@, step as int);
    proof {
        assert(lspec.len() == k + 1);
        assert(k >= 0);
    }
    let mut nlines: Vec<LineSegment<S>> = Vec::new();
    let mut curr: Point3<S> = p1;
    let mut d: i64 = step;
    let ghost mut j: int = 0;
    proof {
        assert(segs_model(nlines@) =~= lspec.take(0));
        assert(t_smul(stepv@, 0) == (0int, 0int, 0int)) by {
            assert(stepv@.0 * 0 == 0) by (nonlinear_arith);
            assert(stepv@.1 * 0 == 0) by (nonlinear_arith);
            assert(stepv@.2 * 0 == 0) by (nonlinear_arith);
        }
    }
    while d < l
        invariant
            1 <= step <= 0x1000_0000_0000,
            t_in(p1@, 0x1000_0000_0000),
            t_in(p2@, 0x1000_0000_0000),
            t_in(stepv@, step as int),
            0 <= l <= 0x4000_0000_0000,
            d == step * (j + 1),
            d - step <= l,
            0 <= j <= chop_steps(l as int, step as int),
            curr@ == t_add(p1@, t_smul(stepv@, j)),
            sabs(curr@.0 - p1@.0) <= d - step,
            sabs(curr@.1 - p1@.1) <= d - step,
            sabs(curr@.2 - p1@.2) <= d - step,
            p1@ == seg@.0 && p2@ == seg@.1,
            l as int == crate::vec3::t_len(t_sub(seg@.1, seg@.0)),
            stepv@ == (if t_sub(seg@.1, seg@.0) == (0int, 0int, 0int) {
                (0int, 0int, 0int)
            } else {
                crate::vec3::t_scale(t_norm(t_sub(seg@.1, seg@.0)), step as int)
            }),
            lspec == chop_line_spec(seg@, step as int),
            k == chop_steps(l as int, step as int),
            segs_model(nlines@) == lspec.take(j),
        decreases l + step - d,
    {
        proof {
            assert(step as int * (j + 1) == step as int * j + step as int) by (nonlinear_arith);
            assert(j < k) by {
                assert(step as int * (j + 1) <= l - 1);
                assert(j + 1 <= (l - 1) / (step as int)) by (nonlinear_arith)
                    requires
                        (step as int) * (j + 1) <= l - 1,
                        step >= 1,
                ;
            }
            lemma_smul_step(stepv@, j);
        }
        let next: Point3<S> = curr.add_v(&stepv);
        let newseg: LineSegment<S> = LineSegment::tagged(curr, next, seg.tag);
        let ghost old_n = nlines@;
        nlines.push(newseg);
        proof {
            lemma_segs_model_push(old_n, newseg);
            assert(lspec[j] == (
                t_add(p1@, t_smul(stepv@, j)),
                t_add(p1@, t_smul(stepv@, j + 1)),
                seg.tag as int,
            ));
            assert(lspec.take(j + 1) =~= lspec.take(j).push(lspec[j]));
            assert(segs_model(nlines@) =~= lspec.take(j + 1));
            j = j + 1;
        }
        curr = next;
        d = d + step;
        proof {
            assert(step as int * (j + 1) == step as int * j + step as int) by (nonlinear_arith);
        }
    }
    proof {
        assert(j == k) by {
            assert(step as int * (j + 1) >= l);
            if j < k {
                assert(l >= 1);
                assert(k == (l - 1) / (step as int));
                assert(step as int * k <= l - 1) by (nonlinear_arith)
                    requires
                        k == (l - 1) / (step as int),
                        step >= 1,
                        l >= 1,
                ;
                assert(step as int * (j + 1) <= step as int * k) by (nonlinear_arith)
                    requires
                        j + 1 <= k,
                        step >= 1,
                ;
            }
        }
    }
    let lastseg: LineSegment<S> = LineSegment::tagged(curr, p2, seg.tag);
    let ghost old_n = nlines@;
    nlines.push(lastseg);
    proof {
        lemma_segs_model_push(old_n, lastseg);
        assert(lspec[k] == (t_add(p1@, t_smul(stepv@, k)), p2@, seg.tag as int));
        assert(lspec =~= lspec.take(k).push(lspec[k]));
        assert(segs_model(nlines@) =~= lspec);
    }
    nlines
}

impl<S: Copy> Paths<S> {
    /// A collection from its segments.
    pub fn new(lines: Vec<LineSegment<S>>) -> (r: Paths<S>)
        ensures
            r.lines@ == lines@,
    {
        Paths { lines }
    }

    /// Append another collection's segments after this one's.
    pub fn join(&mut self, other: Paths<S>)
        ensures
            final(self).lines@ == old(self).lines@ + other.lines@,
    {
        let mut o = other;
        self.lines.append(&mut o.lines);
    }

    /// Every segment transformed to another space; a segment either of whose
    /// endpoints fails to project is dropped.
    pub fn transform<Dst>(&self, transformation: &Transform<S, Dst>) -> (r: Paths<Dst>)
        requires
            mat_in(mat_of(*transformation), 0x400_0000_0000_0000),
            segs_in(segs_model(self.lines@), 0x400_0000_0000),
        ensures
            segs_model(r.lines@) == transform_segs_spec(
                segs_model(self.lines@),
                mat_of(*transformation),
            ),
    {
        let mut new_lines: Vec<LineSegment<Dst>> = Vec::new();
        let mut i: usize = 0;
        while i < self.lines.len()
            invariant
                0 <= i <= self.lines@.len(),
                mat_in(mat_of(*transformation), 0x400_0000_0000_0000),
                segs_in(segs_model(self.lines@), 0x400_0000_0000),
                segs_model(new_lines@) == transform_segs_spec(
                    segs_model(self.lines@.take(i as int)),
                    mat_of(*transformation),
                ),
            decreases self.lines@.len() - i,
        {
            proof {
                assert(segs_model(self.lines@)[i as int] == self.lines@[i as int]@);
                assert(segs_model(self.lines@.take(i + 1)).drop_last() =~= segs_model(
                    self.lines@.take(i as int),
                ));
                assert(segs_model(self.lines@.take(i + 1)).last() == self.lines@[i as int]@);
            }
            let seg: &LineSegment<S> = &self.lines[i];
            proof {
                assert(t_in(segs_model(self.lines@)[i as int].0, 0x400_0000_0000));
                assert(t_in(segs_model(self.lines@)[i as int].1, 0x400_0000_0000));
            }
            let p1t: Option<Point3<Dst>> = transformation.transform_point(&seg.p1);
            let p2t: Option<Point3<Dst>> = transformation.transform_point(&seg.p2);
            match (p1t, p2t) {
                (Some(q1), Some(q2)) => {
                    let newseg: LineSegment<Dst> = LineSegment::tagged(q1, q2, seg.tag);
                    let ghost old_n = new_lines@;
                    new_lines.push(newseg);
                    proof {
                        lemma_segs_model_push(old_n, newseg);
                        assert(segs_model(new_lines@) =~= transform_segs_spec(
                            segs_model(self.lines@.take(i + 1)),
                            mat_of(*transformation),
                        ));
                    }
                },
                _ => {
                    proof {
                        assert(segs_model(new_lines@) =~= transform_segs_spec(
                            segs_model(self.lines@.take(i + 1)),
                            mat_of(*transformation),
                        ));
                    }
                },
            }
            i += 1;
        }
        proof {
            assert(self.lines@.take(self.lines@.len() as int) =~= self.lines@);
        }
        Paths { lines: new_lines }
    }

    /// Every segment divided into chunks of the given fixed step length: a
    /// run of full chunks along the segment's unit direction, then the
    /// remainder up to the far endpoint.
    pub fn chop(&self, step: i64) -> (r: Paths<S>)
        requires
            1 <= step <= 0x1000_0000_0000,
            segs_in(segs_model(self.lines@), 0x1000_0000_0000),
        ensures
            segs_model(r.lines@) == chop_segs_spec(segs_model(self.lines@), step as int),
    {
        let mut nlines: Vec<LineSegment<S>> = Vec::new();
        let mut i: usize = 0;
        while i < self.lines.len()
            invariant
                0 <= i <= self.lines@.len(),
                1 <= step <= 0x1000_0000_0000,
                segs_in(segs_model(self.lines@), 0x1000_0000_0000),
                segs_model(nlines@) == chop_segs_spec(
                    segs_model(self.lines@.take(i as int)),
                    step as int,
                ),
            decreases self.lines@.len() - i,
        {
            proof {
                assert(segs_model(self.lines@)[i as int] == self.lines@[i as int]@);
                assert(segs_model(self.lines@.take(i + 1)).drop_last() =~= segs_model(
                    self.lines@.take(i as int),
                ));
                assert(segs_model(self.lines@.take(i + 1)).last() == self.lines@[i as int]@);
            }
            let seg: LineSegment<S> = self.lines[i];
            let ghost pre = segs_model(nlines@);
            let chunks: Vec<LineSegment<S>> = chop_one(&seg, step);
            let mut c: usize = 0;
            while c < chunks.len()
                invariant
                    0 <= c <= chunks@.len(),
                    segs_model(nlines@) == pre + segs_model(chunks@).take(c as int),
                decreases chunks@.len() - c,
            {
                let ch: LineSegment<S> = chunks[c];
                let ghost old_n = nlines@;
                nlines.push(ch);
                proof {
                    lemma_segs_model_push(old_n, ch);
                    assert(segs_model(chunks@)[c as int] == chunks@[c as int]@);
                    assert(segs_model(chunks@).take(c + 1) =~= segs_model(chunks@).take(
                        c as int,
                    ).push(segs_model(chunks@)[c as int]));
                    assert(segs_model(nlines@) =~= pre + segs_model(chunks@).take(c + 1));
                }
                c += 1;
            }
            proof {
                assert(segs_model(chunks@).take(chunks@.len() as int) =~= segs_model(chunks@));
                assert(segs_model(nlines@) =~= chop_segs_spec(
                    segs_model(self.lines@.take(i + 1)),
                    step as int,
                ));
            }
            i += 1;
        }
        proof {
            assert(self.lines@.take(self.lines@.len() as int) =~= self.lines@);
        }
        Paths { lines: nlines }
    }

    /// Merge maximal runs of same-direction, same-tag, endpoint-touching
    /// segments into single segments, with the given threshold on direction
    /// and endpoint agreement.
    pub fn simplify(self, threshold: i64) -> (r: Paths<S>)
        requires
            segs_in(segs_model(self.lines@), 0x1000_0000_0000),
        ensures
            segs_model(r.lines@) == simplify_spec(segs_model(self.lines@), threshold as int),
    {
        let mut npaths: Vec<LineSegment<S>> = Vec::new();
        let mut curr_line: Option<LineSegment<S>> = None;
        let mut curr_pushed: bool = true;
        let lines = self.lines;
        let mut i: usize = 0;
        while i < lines.len()
            invariant
                0 <= i <= lines@.len(),
                segs_in(segs_model(lines@), 0x1000_0000_0000),
                match curr_line {
                    Some(c) => t_in(c.p1@, 0x1000_0000_0000) && t_in(c.p2@, 0x1000_0000_0000),
                    None => true,
                },
                (
                    segs_model(npaths@),
                    match curr_line {
                        Some(c) => Some(c@),
                        None => None,
                    },
                    curr_pushed,
                ) == simp_run(segs_model(lines@.take(i as int)), threshold as int),
            decreases lines@.len() - i,
        {
            proof {
                assert(segs_model(lines@)[i as int] == lines@[i as int]@);
                assert(segs_model(lines@.take(i + 1)).drop_last() =~= segs_model(
                    lines@.take(i as int),
                ));
                assert(segs_model(lines@.take(i + 1)).last() == lines@[i as int]@);
            }
            let v: LineSegment<S> = lines[i];
            match curr_line {
                None => {
                    curr_line = Some(v);
                    curr_pushed = false;
                },
                Some(c) => {
                    proof {
                        assert(segs_model(lines@)[i as int] == lines@[i as int]@);
                        assert(t_in(segs_model(lines@)[i as int].0, 0x1000_0000_0000));
                        assert(t_in(segs_model(lines@)[i as int].1, 0x1000_0000_0000));
                    }
                    let sd: bool = same_dir_x(&c, &v, threshold);
                    if sd && c.tag == v.tag {
                        if approx_eq_pt(&c.p1, &v.p1, threshold) {
                            curr_line = Some(LineSegment::tagged(v.p2, c.p2, c.tag));
                            curr_pushed = false;
                        } else if approx_eq_pt(&c.p1, &v.p2, threshold) {
                            curr_line = Some(LineSegment::tagged(v.p1, c.p2, c.tag));
                            curr_pushed = false;
                        } else if approx_eq_pt(&c.p2, &v.p1, threshold) {
                            curr_line = Some(LineSegment::tagged(v.p2, c.p1, c.tag));
                            curr_pushed = false;
                        } else if approx_eq_pt(&c.p2, &v.p2, threshold) {
                            curr_line = Some(LineSegment::tagged(v.p1, c.p1, c.tag));
                            curr_pushed = false;
                        } else {
                            let ghost old_n = npaths@;
                            npaths.push(c);
                            curr_line = Some(v);
                            curr_pushed = true;
                            proof {
                                lemma_segs_model_push(old_n, c);
                            }
                        }
                    } else {
                        let ghost old_n = npaths@;
                        npaths.push(c);
                        curr_line = Some(v);
                        curr_pushed = false;
                        proof {
                            lemma_segs_model_push(old_n, c);
                        }
                    }
                },
            }
            i += 1;
        }
        proof {
            assert(lines@.take(lines@.len() as int) =~= lines@);
        }
        match curr_line {
            Some(c) => {
                if !curr_pushed {
                    let ghost old_n = npaths@;
                    npaths.push(c);
                    proof {
                        lemma_segs_model_push(old_n, c);
                    }
                }
            },
            None => {},
        }
        Paths { lines: npaths }
    }
}


/// The point is an endpoint of some listed segment carrying the tag.
pub open spec fn pt_from(
    s: Seq<((int, int, int), (int, int, int), int)>,
    tag: int,
    p: (int, int, int),
) -> bool {
    exists|i: int| 0 <= i < s.len() && (#[trigger] s[i]).2 == tag && (s[i].0 == p || s[i].1 == p)
}

/// Both endpoints of the segment derive from listed segments of its own tag.
pub open spec fn seg_from(
    s: Seq<((int, int, int), (int, int, int), int)>,
    m: ((int, int, int), (int, int, int), int),
) -> bool {
    pt_from(s, m.2, m.0) && pt_from(s, m.2, m.1)
}

/// Membership of an endpoint survives extending the list.
proof fn lemma_pt_from_extend(
    s: Seq<((int, int, int), (int, int, int), int)>,
    tag: int,
    p: (int, int, int),
)
    requires
        s.len() > 0,
        pt_from(s.drop_last(), tag, p),
    ensures
        pt_from(s, tag, p),
{
    let i = choose|i: int|
        0 <= i < s.drop_last().len() && (#[trigger] s.drop_last()[i]).2 == tag && (s.drop_last()[
        i].0 == p || s.drop_last()[i].1 == p);
    assert(s[i] == s.drop_last()[i]);
}

/// The simplifier state draws every endpoint from its input: each emitted
/// segment and the current segment carry a tag some input segment carries,
/// and their endpoints are endpoints of input segments of that tag.
proof fn lemma_simp_run_from(s: Seq<((int, int, int), (int, int, int), int)>, e: int)
    ensures
        forall|j: int|
            0 <= j < simp_run(s, e).0.len() ==> seg_from(s, #[trigger] simp_run(s, e).0[j]),
        match simp_run(s, e).1 {
            Some(c) => seg_from(s, c),
            None => true,
        },
    decreases s.len(),
{
    if s.len() > 0 {
        lemma_simp_run_from(s.drop_last(), e);
        let st = simp_run(s.drop_last(), e);
        let v = s.last();
        assert(s[s.len() - 1] == v);
        assert(pt_from(s, v.2, v.0));
        assert(pt_from(s, v.2, v.1));
        assert forall|j: int| 0 <= j < st.0.len() implies seg_from(s, #[trigger] st.0[j]) by {
            lemma_pt_from_extend(s, st.0[j].2, st.0[j].0);
            lemma_pt_from_extend(s, st.0[j].2, st.0[j].1);
        }
        match st.1 {
            Some(c) => {
                lemma_pt_from_extend(s, c.2, c.0);
                lemma_pt_from_extend(s, c.2, c.1);
                assert(simp_run(s, e) == simp_step(st, v, e));
            },
            None => {},
        }
    }
}

/// Tag isolation: every simplified segment's endpoints derive from input
/// segments carrying that segment's own tag — no merge ever mixes points of
/// different shapes.
pub proof fn lemma_simplify_tags(s: Seq<((int, int, int), (int, int, int), int)>, e: int)
    ensures
        forall|j: int|
            0 <= j < simplify_spec(s, e).len() ==> seg_from(s, #[trigger] simplify_spec(s, e)[j]),
{
    lemma_simp_run_from(s, e);
}

/// Simplification never enlarges the coordinate range: every output endpoint
/// is an input endpoint.
pub proof fn lemma_simplify_bounded(s: Seq<((int, int, int), (int, int, int), int)>, e: int, b: int)
    requires
        segs_in(s, b),
    ensures
        segs_in(simplify_spec(s, e), b),
{
    lemma_simplify_tags(s, e);
    assert forall|j: int| 0 <= j < simplify_spec(s, e).len() implies t_in(
        (#[trigger] simplify_spec(s, e)[j]).0,
        b,
    ) && t_in(simplify_spec(s, e)[j].1, b) by {
        let m = simplify_spec(s, e)[j];
        assert(seg_from(s, m));
        let i0 = choose|i: int|
            0 <= i < s.len() && (#[trigger] s[i]).2 == m.2 && (s[i].0 == m.0 || s[i].1 == m.0);
        let i1 = choose|i: int|
            0 <= i < s.len() && (#[trigger] s[i]).2 == m.2 && (s[i].0 == m.1 || s[i].1 == m.1);
        assert(t_in(s[i0].0, b) && t_in(s[i0].1, b));
        assert(t_in(s[i1].0, b) && t_in(s[i1].1, b));
    }
}

/// Two segments can interact in the simplifier: they run the same way and
/// carry the same tag.
pub open spec fn mergeable(
    c: ((int, int, int), (int, int, int), int),
    v: ((int, int, int), (int, int, int), int),
    e: int,
) -> bool {
    same_dir(c, v, e) && c.2 == v.2
}

/// The simplifier state over a list with no mergeable neighbours: everything
/// but the last segment has been emitted unchanged, and the last is current.
proof fn lemma_simp_run_fixed(s: Seq<((int, int, int), (int, int, int), int)>, e: int)
    requires
        forall|i: int| 0 <= i < s.len() - 1 ==> !mergeable(#[trigger] s[i], s[i + 1], e),
    ensures
        s.len() == 0 ==> simp_run(s, e) == (
            Seq::<((int, int, int), (int, int, int), int)>::empty(),
            Option::<((int, int, int), (int, int, int), int)>::None,
            true,
        ),
        s.len() > 0 ==> simp_run(s, e) == (s.drop_last(), Some(s.last()), false),
    decreases s.len(),
{
    if s.len() > 0 {
        assert(forall|i: int|
            0 <= i < s.drop_last().len() - 1 ==> !mergeable(
                #[trigger] s.drop_last()[i],
                s.drop_last()[i + 1],
                e,
            ));
        lemma_simp_run_fixed(s.drop_last(), e);
        if s.len() == 1 {
            assert(simp_run(s, e) == simp_step(simp_run(s.drop_last(), e), s.last(), e));
            assert(s.drop_last() =~= Seq::<((int, int, int), (int, int, int), int)>::empty());
        } else {
            let c = s.drop_last().last();
            let v = s.last();
            assert(c == s[s.len() - 2] && v == s[s.len() - 1]);
            assert(!mergeable(s[s.len() - 2], s[s.len() - 2 + 1], e));
            assert(simp_run(s, e) == simp_step(
                (s.drop_last().drop_last(), Some(c), false),
                v,
                e,
            ));
            assert(s.drop_last().drop_last().push(c) =~= s.drop_last());
        }
    }
}

/// A list with no mergeable neighbours is already simplified: the simplifier
/// returns it unchanged.
pub proof fn lemma_simplify_fixed(s: Seq<((int, int, int), (int, int, int), int)>, e: int)
    requires
        forall|i: int| 0 <= i < s.len() - 1 ==> !mergeable(#[trigger] s[i], s[i + 1], e),
    ensures
        simplify_spec(s, e) == s,
{
    lemma_simp_run_fixed(s, e);
    if s.len() == 0 {
        assert(simplify_spec(s, e) =~= s);
    } else {
        assert(simplify_spec(s, e) =~= s.drop_last().push(s.last()));
        assert(s.drop_last().push(s.last()) =~= s);
    }
}

/// Simplification is idempotent on any input whose simplified form has no
/// mergeable neighbours left. The threshold comparisons are not transitive,
/// so a simplified list can in rare cases still hold a mergeable pair — there
/// a second pass merges further, and this law does not apply.
pub proof fn lemma_simplify_idempotent(s: Seq<((int, int, int), (int, int, int), int)>, e: int)
    requires
        forall|i: int|
            0 <= i < simplify_spec(s, e).len() - 1 ==> !mergeable(
                #[trigger] simplify_spec(s, e)[i],
                simplify_spec(s, e)[i + 1],
                e,
            ),
    ensures
        simplify_spec(simplify_spec(s, e), e) == simplify_spec(s, e),
{
    lemma_simplify_fixed(simplify_spec(s, e), e);
}

} // verus!
