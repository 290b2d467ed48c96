//! The bounded volume hierarchy: a binary tree of axis-aligned boxes over the
//! bounded shapes of a scene, with a separate bucket for unbounded shapes.
//!
//! Construction recursively splits a leaf along the axis whose median best
//! balances the two sides; a shape straddling the split plane goes to both
//! children. Traversal walks the tree front to back along the ray and prunes
//! subtrees whose slab interval cannot contain a closer hit.

use vstd::prelude::*;

use crate::aabb::slab_t;
use crate::aabb::Aabb;
use crate::fx::fx_div_clamp128;
use crate::fx::fxd;
use crate::fx::iclamp;
use crate::fx::imax;
use crate::fx::imin;
use crate::fx::FX_TBIG;
use crate::fx::MAX_COORD;
use crate::ray::opt_hit_model;
use crate::ray::ray_wf;
use crate::ray::HitData;
use crate::ray::Ray;
use crate::shapes::shape_bbox;
use crate::shapes::shape_hit;
use crate::shapes::shape_wf;
use crate::shapes::Shape;
use crate::vec3::t_in;
use crate::vec3::t_le;
use crate::vec3::t_max;
use crate::vec3::t_min;
use crate::WorldSpace;

verus! {

/// A coordinate axis, naming the split plane of an inner node.
#[derive(Clone, Copy)]
pub enum Axis {
    X,
    Y,
    Z,
}

/// The component of a triple along an axis.
pub open spec fn axis_of(t: (int, int, int), a: Axis) -> int {
    match a {
        Axis::X => t.0,
        Axis::Y => t.1,
        Axis::Z => t.2,
    }
}

/// A bounded shape paired with its bounding box.
#[derive(Clone, Copy)]
pub struct BoundedShape {
    pub shape: Shape,
    pub aabb: Aabb<WorldSpace>,
}

/// A well-formed entry: the box is the shape's own bounding box, ordered and
/// within the supported coordinate range.
pub open spec fn bs_wf(b: BoundedShape) -> bool {
    &&& shape_wf(b.shape)
    &&& shape_bbox(b.shape) == Some((b.aabb.min@, b.aabb.max@))
    &&& t_le(b.aabb.min@, b.aabb.max@)
    &&& t_in(b.aabb.min@, 2 * MAX_COORD as int)
    &&& t_in(b.aabb.max@, 2 * MAX_COORD as int)
}

/// A node of the hierarchy: an inner node split by an axis-aligned plane, or
/// a leaf holding shapes.
pub enum Node {
    Parent { axis: Axis, point: i64, left: Box<Node>, right: Box<Node> },
    Leaf { shapes: Vec<BoundedShape> },
}

/// All entries held in the subtree, leaves left to right.
pub open spec fn node_bshapes(n: Node) -> Seq<BoundedShape>
    decreases n,
{
    match n {
        Node::Leaf { shapes } => shapes@,
        Node::Parent { left, right, .. } => node_bshapes(*left) + node_bshapes(*right),
    }
}

/// Every entry of the subtree is well formed.
pub open spec fn node_wf(n: Node) -> bool
    decreases n,
{
    match n {
        Node::Leaf { shapes } => forall|i: int|
            0 <= i < shapes@.len() ==> bs_wf(#[trigger] shapes@[i]),
        Node::Parent { left, right, .. } => node_wf(*left) && node_wf(*right),
    }
}

/// An entry belongs to the split's left side: its box begins at or before the
/// split plane.
pub open spec fn bs_left(b: BoundedShape, axis: Axis, p: int) -> bool {
    axis_of(b.aabb.min@, axis) <= p
}

/// An entry belongs to the split's right side: its box ends at or after the
/// split plane. A straddling entry belongs to both sides.
pub open spec fn bs_right(b: BoundedShape, axis: Axis, p: int) -> bool {
    axis_of(b.aabb.max@, axis) >= p
}

/// The left side of a split, in input order.
pub open spec fn part_left(s: Seq<BoundedShape>, axis: Axis, p: int) -> Seq<BoundedShape>
    decreases s.len(),
{
    if s.len() == 0 {
        Seq::empty()
    } else {
        let pre = part_left(s.drop_last(), axis, p);
        if bs_left(s.last(), axis, p) {
            pre.push(s.last())
        } else {
            pre
        }
    }
}

/// The right side of a split, in input order.
pub open spec fn part_right(s: Seq<BoundedShape>, axis: Axis, p: int) -> Seq<BoundedShape>
    decreases s.len(),
{
    if s.len() == 0 {
        Seq::empty()
    } else {
        let pre = part_right(s.drop_last(), axis, p);
        if bs_right(s.last(), axis, p) {
            pre.push(s.last())
        } else {
            pre
        }
    }
}

/// The score of a candidate split: the size of its larger side.
pub open spec fn pscore(s: Seq<BoundedShape>, axis: Axis, p: int) -> int {
    imax(part_left(s, axis, p).len() as int, part_right(s, axis, p).len() as int)
}

/// Both sides of a split draw from the split entries, and a well-formed entry
/// lands on at least one side.
pub proof fn lemma_part_contains(s: Seq<BoundedShape>, axis: Axis, p: int)
    ensures
        forall|b: BoundedShape| part_left(s, axis, p).contains(b) ==> s.contains(b),
        forall|b: BoundedShape| part_right(s, axis, p).contains(b) ==> s.contains(b),
        forall|b: BoundedShape|
            s.contains(b) && bs_left(b, axis, p) ==> part_left(s, axis, p).contains(b),
        forall|b: BoundedShape|
            s.contains(b) && bs_right(b, axis, p) ==> part_right(s, axis, p).contains(b),
    decreases s.len(),
{
    if s.len() > 0 {
        lemma_part_contains(s.drop_last(), axis, p);
        let pre_l = part_left(s.drop_last(), axis, p);
        let pre_r = part_right(s.drop_last(), axis, p);
        assert forall|b: BoundedShape| s.contains(b) && bs_left(b, axis, p) implies part_left(
            s,
            axis,
            p,
        ).contains(b) by {
            if b == s.last() {
                assert(part_left(s, axis, p) == pre_l.push(b));
                assert(part_left(s, axis, p)[pre_l.len() as int] == b);
            } else {
                let i = choose|i: int| 0 <= i < s.len() && s[i] == b;
                assert(s.drop_last()[i] == b);
                assert(s.drop_last().contains(b));
                assert(pre_l.contains(b));
                let j = choose|j: int| 0 <= j < pre_l.len() && pre_l[j] == b;
                if bs_left(s.last(), axis, p) {
                    assert(part_left(s, axis, p)[j] == b);
                } else {
                    assert(part_left(s, axis, p)[j] == b);
                }
            }
        }
        assert forall|b: BoundedShape| s.contains(b) && bs_right(b, axis, p) implies part_right(
            s,
            axis,
            p,
        ).contains(b) by {
            if b == s.last() {
                assert(part_right(s, axis, p) == pre_r.push(b));
                assert(part_right(s, axis, p)[pre_r.len() as int] == b);
            } else {
                let i = choose|i: int| 0 <= i < s.len() && s[i] == b;
                assert(s.drop_last()[i] == b);
                assert(s.drop_last().contains(b));
                assert(pre_r.contains(b));
                let j = choose|j: int| 0 <= j < pre_r.len() && pre_r[j] == b;
                if bs_right(s.last(), axis, p) {
                    assert(part_right(s, axis, p)[j] == b);
                } else {
                    assert(part_right(s, axis, p)[j] == b);
                }
            }
        }
        assert forall|b: BoundedShape| part_left(s, axis, p).contains(b) implies s.contains(b) by {
            let j = choose|j: int|
                0 <= j < part_left(s, axis, p).len() && part_left(s, axis, p)[j] == b;
            if j < pre_l.len() {
                assert(pre_l[j] == b);
                assert(pre_l.contains(b));
                assert(s.drop_last().contains(b));
                let i = choose|i: int| 0 <= i < s.drop_last().len() && s.drop_last()[i] == b;
                assert(s[i] == b);
            } else {
                assert(b == s.last());
                assert(s[s.len() - 1] == b);
            }
        }
        assert forall|b: BoundedShape| part_right(s, axis, p).contains(b) implies s.contains(b) by {
            let j = choose|j: int|
                0 <= j < part_right(s, axis, p).len() && part_right(s, axis, p)[j] == b;
            if j < pre_r.len() {
                assert(pre_r[j] == b);
                assert(pre_r.contains(b));
                assert(s.drop_last().contains(b));
                let i = choose|i: int| 0 <= i < s.drop_last().len() && s.drop_last()[i] == b;
                assert(s[i] == b);
            } else {
                assert(b == s.last());
                assert(s[s.len() - 1] == b);
            }
        }
    }
}

/// A well-formed entry lands on at least one side of any split: a box wholly
/// past the plane on its low end reaches past it on its high end too.
pub proof fn lemma_split_covers(b: BoundedShape, axis: Axis, p: int)
    requires
        bs_wf(b),
    ensures
        bs_left(b, axis, p) || bs_right(b, axis, p),
{
}

/// The coordinates are sorted in increasing order.
pub open spec fn sorted64(s: Seq<i64>) -> bool {
    forall|i: int, j: int| 0 <= i < j < s.len() ==> s[i] <= s[j]
}

/// Sort coordinates by repeatedly extracting the least remaining one.
fn sort64(v: Vec<i64>) -> (r: Vec<i64>)
    ensures
        sorted64(r@),
        r@.to_multiset() == v@.to_multiset(),
        r@.len() == v@.len(),
{
    broadcast use vstd::seq_lib::group_to_multiset_ensures;

    let mut rem = v;
    let mut out: Vec<i64> = Vec::new();
    proof {
        assert(out@.to_multiset().add(rem@.to_multiset()) =~= v@.to_multiset());
    }
    while rem.len() > 0
        invariant
            sorted64(out@),
            out@.to_multiset().add(rem@.to_multiset()) == v@.to_multiset(),
            out@.len() + rem@.len() == v@.len(),
            forall|i: int, j: int|
                0 <= i < out@.len() && 0 <= j < rem@.len() ==> out@[i] <= rem@[j],
        decreases rem.len(),
    {
        let mut k: usize = 0;
        let mut i: usize = 1;
        while i < rem.len()
            invariant
                0 <= k < i <= rem@.len(),
                forall|j: int| 0 <= j < i ==> rem@[k as int] <= rem@[j],
            decreases rem.len() - i,
        {
            if rem[i] < rem[k] {
                k = i;
            }
            i += 1;
        }
        let ghost old_out = out@;
        let ghost old_rem = rem@;
        let m: i64 = rem.remove(k);
        out.push(m);
        proof {
            old_rem.to_multiset_ensures();
            old_out.to_multiset_ensures();
            assert(old_rem.remove(k as int).to_multiset() =~= old_rem.to_multiset().remove(m));
            assert(out@.to_multiset() =~= old_out.to_multiset().insert(m));
            assert(old_rem.to_multiset().count(m) > 0);
            assert(out@.to_multiset().add(rem@.to_multiset()) =~= v@.to_multiset());
        }
    }
    proof {
        assert(rem@.to_multiset().len() == 0);
        assert(out@.to_multiset().add(rem@.to_multiset()) =~= out@.to_multiset());
    }
    out
}

/// Two sorted lists of the same multiset are the same list.
pub proof fn lemma_sorted_unique(a: Seq<i64>, b: Seq<i64>)
    requires
        sorted64(a),
        sorted64(b),
        a.to_multiset() == b.to_multiset(),
    ensures
        a == b,
    decreases a.len(),
{
    broadcast use vstd::seq_lib::group_to_multiset_ensures;

    a.to_multiset_ensures();
    b.to_multiset_ensures();
    if a.len() == 0 {
        assert(a =~= b);
    } else {
        assert(a.contains(a[0]));
        assert(a.to_multiset().count(a[0]) > 0);
        assert(b.contains(a[0]));
        let j = choose|j: int| 0 <= j < b.len() && b[j] == a[0];
        assert(b[0] <= a[0]);
        assert(b.contains(b[0]));
        assert(b.to_multiset().count(b[0]) > 0);
        assert(a.contains(b[0]));
        let i = choose|i: int| 0 <= i < a.len() && a[i] == b[0];
        assert(a[0] <= b[0]);
        assert(a[0] == b[0]);
        let ta = a.remove(0);
        let tb = b.remove(0);
        assert(ta.to_multiset() =~= a.to_multiset().remove(a[0]));
        assert(tb.to_multiset() =~= b.to_multiset().remove(b[0]));
        assert(sorted64(ta)) by {
            assert(forall|k: int| 0 <= k < ta.len() ==> #[trigger] ta[k] == a[k + 1]);
        }
        assert(sorted64(tb)) by {
            assert(forall|k: int| 0 <= k < tb.len() ==> #[trigger] tb[k] == b[k + 1]);
        }
        lemma_sorted_unique(ta, tb);
        assert(a =~= b) by {
            assert(forall|k: int| 1 <= k < a.len() ==> #[trigger] a[k] == ta[k - 1]);
            assert(forall|k: int| 1 <= k < b.len() ==> #[trigger] b[k] == tb[k - 1]);
        }
    }
}

/// The sorted arrangement of a coordinate list: the one sorted list carrying
/// the same multiset.
pub open spec fn sort_of(q: Seq<i64>) -> Seq<i64> {
    choose|r: Seq<i64>| sorted64(r) && r.to_multiset() == q.to_multiset()
}

/// A sorted list with the multiset of `q` pins `sort_of(q)` down.
pub proof fn lemma_sort_of_is(q: Seq<i64>, r: Seq<i64>)
    requires
        sorted64(r),
        r.to_multiset() == q.to_multiset(),
    ensures
        sort_of(q) == r,
{
    assert(exists|x: Seq<i64>| sorted64(x) && x.to_multiset() == q.to_multiset());
    lemma_sorted_unique(sort_of(q), r);
}

/// The low corner coordinate of an entry's box along an axis.
pub open spec fn axis_lo(b: BoundedShape, a: Axis) -> i64 {
    match a {
        Axis::X => b.aabb.min.x,
        Axis::Y => b.aabb.min.y,
        Axis::Z => b.aabb.min.z,
    }
}

/// The high corner coordinate of an entry's box along an axis.
pub open spec fn axis_hi(b: BoundedShape, a: Axis) -> i64 {
    match a {
        Axis::X => b.aabb.max.x,
        Axis::Y => b.aabb.max.y,
        Axis::Z => b.aabb.max.z,
    }
}

/// The coordinate list a split examines: both corners of every entry's box
/// along the axis, in entry order.
pub open spec fn coords(s: Seq<BoundedShape>, a: Axis) -> Seq<i64>
    decreases s.len(),
{
    if s.len() == 0 {
        Seq::empty()
    } else {
        coords(s.drop_last(), a).push(axis_lo(s.last(), a)).push(axis_hi(s.last(), a))
    }
}

/// The median coordinate of the entries along an axis: the median entry of
/// the sorted coordinate list.
pub open spec fn axis_median(s: Seq<BoundedShape>, a: Axis) -> i64 {
    median_spec(sort_of(coords(s, a)))
}

/// The median entry of a sorted coordinate list, or zero of an empty one. An
/// even list yields its lower-middle entry.
pub open spec fn median_spec(s: Seq<i64>) -> i64 {
    if s.len() == 0 {
        0
    } else if s.len() % 2 == 1 {
        s[s.len() as int / 2]
    } else {
        s[s.len() as int / 2 - 1]
    }
}

/// The median entry of a coordinate list.
fn median(nums: &Vec<i64>) -> (r: i64)
    ensures
        r == median_spec(nums@),
{
    let len = nums.len();
    if len == 0 {
        0
    } else if len % 2 == 1 {
        nums[len / 2]
    } else {
        nums[len / 2 - 1]
    }
}

/// Whether a box lies on the left and on the right side of a split plane.
fn partition_bounding_box(axis: &Axis, aabb: &Aabb<WorldSpace>, point: i64) -> (r: (bool, bool))
    ensures
        r.0 == (axis_of(aabb.min@, *axis) <= point as int),
        r.1 == (axis_of(aabb.max@, *axis) >= point as int),
{
    match axis {
        Axis::X => (aabb.min.x <= point, aabb.max.x >= point),
        Axis::Y => (aabb.min.y <= point, aabb.max.y >= point),
        Axis::Z => (aabb.min.z <= point, aabb.max.z >= point),
    }
}

/// The size of the larger side of a candidate split.
fn partition_score(shapes: &Vec<BoundedShape>, axis: &Axis, axis_median: i64) -> (r: u64)
    ensures
        r as int == pscore(shapes@, *axis, axis_median as int),
{
    let mut left: u64 = 0;
    let mut right: u64 = 0;
    let mut i: usize = 0;
    while i < shapes.len()
        invariant
            0 <= i <= shapes@.len(),
            left as int == part_left(shapes@.take(i as int), *axis, axis_median as int).len(),
            right as int == part_right(shapes@.take(i as int), *axis, axis_median as int).len(),
            left <= i && right <= i,
        decreases shapes@.len() - i,
    {
        let (l, r) = partition_bounding_box(axis, &shapes[i].aabb, axis_median);
        proof {
            assert(shapes@.take(i + 1).drop_last() =~= shapes@.take(i as int));
            assert(shapes@.take(i + 1).last() == shapes@[i as int]);
        }
        if l {
            left += 1;
        }
        if r {
            right += 1;
        }
        i += 1;
    }
    proof {
        assert(shapes@.take(shapes@.len() as int) =~= shapes@);
    }
    if left >= right {
        left
    } else {
        right
    }
}

/// Split the entries into the two sides of a plane; a straddling entry goes
/// to both.
fn partition(shapes: &Vec<BoundedShape>, axis: &Axis, point: i64) -> (r: (
    Vec<BoundedShape>,
    Vec<BoundedShape>,
))
    ensures
        r.0@ == part_left(shapes@, *axis, point as int),
        r.1@ == part_right(shapes@, *axis, point as int),
{
    let mut left: Vec<BoundedShape> = Vec::new();
    let mut right: Vec<BoundedShape> = Vec::new();
    let mut i: usize = 0;
    while i < shapes.len()
        invariant
            0 <= i <= shapes@.len(),
            left@ == part_left(shapes@.take(i as int), *axis, point as int),
            right@ == part_right(shapes@.take(i as int), *axis, point as int),
        decreases shapes@.len() - i,
    {
        let (l, r) = partition_bounding_box(axis, &shapes[i].aabb, point);
        proof {
            assert(shapes@.take(i + 1).drop_last() =~= shapes@.take(i as int));
            assert(shapes@.take(i + 1).last() == shapes@[i as int]);
        }
        if l {
            left.push(shapes[i]);
        }
        if r {
            right.push(shapes[i]);
        }
        i += 1;
    }
    proof {
        assert(shapes@.take(shapes@.len() as int) =~= shapes@);
    }
    (left, right)
}

/// The split a list of entries accepts, if any: the scoring starts at 85
/// percent of the list, and each axis median in turn is taken when it scores
/// strictly below the best so far.
pub open spec fn split_candidate(s: Seq<BoundedShape>) -> Option<(Axis, i64)> {
    let best0 = (s.len() * 85) as int / 100;
    let mx = axis_median(s, Axis::X);
    let my = axis_median(s, Axis::Y);
    let mz = axis_median(s, Axis::Z);
    let sx = pscore(s, Axis::X, mx as int);
    let sy = pscore(s, Axis::Y, my as int);
    let sz = pscore(s, Axis::Z, mz as int);
    let b1 = if sx < best0 {
        sx
    } else {
        best0
    };
    let c1: Option<(Axis, i64)> = if sx < best0 {
        Some((Axis::X, mx))
    } else {
        None
    };
    let b2 = if sy < b1 {
        sy
    } else {
        b1
    };
    let c2 = if sy < b1 {
        Some((Axis::Y, my))
    } else {
        c1
    };
    if sz < b2 {
        Some((Axis::Z, mz))
    } else {
        c2
    }
}

/// The tree a list of entries builds: a list of fewer than eight entries, or
/// one accepting no split, stays a leaf holding exactly that list; any other
/// becomes an inner node at the accepted axis and median whose children are
/// built from the two sides of that split.
pub open spec fn node_built_from(n: Node, s: Seq<BoundedShape>) -> bool
    decreases n,
{
    match n {
        Node::Leaf { shapes } => shapes@ == s && (s.len() < 8 || split_candidate(s) is None),
        Node::Parent { axis, point, left, right } => {
            &&& s.len() >= 8
            &&& split_candidate(s) == Some((axis, point))
            &&& node_built_from(*left, part_left(s, axis, point as int))
            &&& node_built_from(*right, part_right(s, axis, point as int))
        },
    }
}

/// The sides of a split are never larger than its score.
proof fn lemma_score_bounds(s: Seq<BoundedShape>, axis: Axis, p: int)
    ensures
        part_left(s, axis, p).len() <= pscore(s, axis, p),
        part_right(s, axis, p).len() <= pscore(s, axis, p),
{
}

/// Build the subtree over the given entries: a list of fewer than eight stays
/// a leaf, and a split is accepted only when its larger side is strictly
/// smaller than 85 percent of the list. Returns the tree and its depth.
pub fn build_node(shapes: Vec<BoundedShape>) -> (r: (Node, usize))
    requires
        forall|i: int| 0 <= i < shapes@.len() ==> bs_wf(#[trigger] shapes@[i]),
    ensures
        node_wf(r.0),
        node_built_from(r.0, shapes@),
        forall|b: BoundedShape| node_bshapes(r.0).contains(b) <==> shapes@.contains(b),
        r.1 <= shapes@.len() + 1,
    decreases shapes@.len(),
{
    if shapes.len() < 8 {
        let n = Node::Leaf { shapes };
        return (n, 1);
    }
    let mut xs: Vec<i64> = Vec::new();
    let mut ys: Vec<i64> = Vec::new();
    let mut zs: Vec<i64> = Vec::new();
    let mut i: usize = 0;
    proof {
        assert(xs@ =~= coords(shapes@.take(0), Axis::X));
        assert(ys@ =~= coords(shapes@.take(0), Axis::Y));
        assert(zs@ =~= coords(shapes@.take(0), Axis::Z));
    }
    while i < shapes.len()
        invariant
            0 <= i <= shapes@.len(),
            xs@ == coords(shapes@.take(i as int), Axis::X),
            ys@ == coords(shapes@.take(i as int), Axis::Y),
            zs@ == coords(shapes@.take(i as int), Axis::Z),
        decreases shapes@.len() - i,
    {
        proof {
            assert(shapes@.take(i + 1).drop_last() =~= shapes@.take(i as int));
            assert(shapes@.take(i + 1).last() == shapes@[i as int]);
        }
        xs.push(shapes[i].aabb.min.x);
        xs.push(shapes[i].aabb.max.x);
        ys.push(shapes[i].aabb.min.y);
        ys.push(shapes[i].aabb.max.y);
        zs.push(shapes[i].aabb.min.z);
        zs.push(shapes[i].aabb.max.z);
        i += 1;
    }
    proof {
        assert(shapes@.take(shapes@.len() as int) =~= shapes@);
    }
    let ghost cx = xs@;
    let ghost cy = ys@;
    let ghost cz = zs@;
    let xs = sort64(xs);
    let ys = sort64(ys);
    let zs = sort64(zs);
    proof {
        lemma_sort_of_is(cx, xs@);
        lemma_sort_of_is(cy, ys@);
        lemma_sort_of_is(cz, zs@);
    }
    let mx: i64 = median(&xs);
    let my: i64 = median(&ys);
    let mz: i64 = median(&zs);
    proof {
        assert(mx == axis_median(shapes@, Axis::X));
        assert(my == axis_median(shapes@, Axis::Y));
        assert(mz == axis_median(shapes@, Axis::Z));
    }

    let mut best: u64 = (((shapes.len() as u128) * 85) / 100) as u64;
    proof {
        assert((shapes@.len() * 85) / 100 < shapes@.len()) by (nonlinear_arith)
            requires
                shapes@.len() >= 8,
        ;
    }
    let ghost best0 = best;
    let mut best_axis: Option<Axis> = None;
    let mut best_point: i64 = 0;

    let sx: u64 = partition_score(&shapes, &Axis::X, mx);
    if sx < best {
        best = sx;
        best_axis = Some(Axis::X);
        best_point = mx;
    }
    let sy: u64 = partition_score(&shapes, &Axis::Y, my);
    if sy < best {
        best = sy;
        best_axis = Some(Axis::Y);
        best_point = my;
    }
    let sz: u64 = partition_score(&shapes, &Axis::Z, mz);
    if sz < best {
        best = sz;
        best_axis = Some(Axis::Z);
        best_point = mz;
    }
    proof {
        assert(split_candidate(shapes@) == (match best_axis {
            None => None::<(Axis, i64)>,
            Some(a) => Some((a, best_point)),
        }));
    }
    let axis: Axis = match best_axis {
        None => {
            let n = Node::Leaf { shapes };
            return (n, 1);
        },
        Some(a) => a,
    };
    proof {
        lemma_score_bounds(shapes@, axis, best_point as int);
        lemma_part_contains(shapes@, axis, best_point as int);
        assert forall|b: BoundedShape| shapes@.contains(b) implies part_left(
            shapes@,
            axis,
            best_point as int,
        ).contains(b) || part_right(shapes@, axis, best_point as int).contains(b) by {
            let i = choose|i: int| 0 <= i < shapes@.len() && shapes@[i] == b;
            lemma_split_covers(b, axis, best_point as int);
        }
    }
    let (l, r) = partition(&shapes, &axis, best_point);
    proof {
        assert forall|j: int| 0 <= j < l@.len() implies bs_wf(#[trigger] l@[j]) by {
            assert(part_left(shapes@, axis, best_point as int).contains(l@[j]));
            assert(shapes@.contains(l@[j]));
            let i = choose|i: int| 0 <= i < shapes@.len() && shapes@[i] == l@[j];
        }
        assert forall|j: int| 0 <= j < r@.len() implies bs_wf(#[trigger] r@[j]) by {
            assert(part_right(shapes@, axis, best_point as int).contains(r@[j]));
            assert(shapes@.contains(r@[j]));
            let i = choose|i: int| 0 <= i < shapes@.len() && shapes@[i] == r@[j];
        }
    }
    let (lnode, depth) = build_node(l);
    let (rnode, _) = build_node(r);
    let ghost lsn = node_bshapes(lnode);
    let ghost rsn = node_bshapes(rnode);
    let n = Node::Parent {
        axis,
        point: best_point,
        left: Box::new(lnode),
        right: Box::new(rnode),
    };
    proof {
        assert(node_bshapes(n) == lsn + rsn);
        assert forall|b: BoundedShape| node_bshapes(n).contains(b) implies shapes@.contains(b) by {
            let i = choose|i: int| 0 <= i < (lsn + rsn).len() && (lsn + rsn)[i] == b;
            if i < lsn.len() {
                assert(lsn[i] == b);
                assert(lsn.contains(b));
            } else {
                assert(rsn[i - lsn.len()] == b);
                assert(rsn.contains(b));
            }
        }
        assert forall|b: BoundedShape| shapes@.contains(b) implies node_bshapes(n).contains(b) by {
            if lsn.contains(b) {
                let i = choose|i: int| 0 <= i < lsn.len() && lsn[i] == b;
                assert((lsn + rsn)[i] == b);
            } else {
                assert(rsn.contains(b));
                let i = choose|i: int| 0 <= i < rsn.len() && rsn[i] == b;
                assert((lsn + rsn)[lsn.len() + i] == b);
            }
        }
    }
    (n, depth + 1)
}


/// Keep the earlier hit unless the later one is strictly closer.
pub open spec fn omin(a: Option<((int, int, int), int)>, b: Option<((int, int, int), int)>) -> Option<
    ((int, int, int), int),
> {
    match (a, b) {
        (None, _) => b,
        (Some(x), None) => a,
        (Some(x), Some(y)) => if y.1 < x.1 {
            b
        } else {
            a
        },
    }
}

/// The closest hit over a list of bounded entries, earlier entries winning
/// ties.
pub open spec fn bmin_hit(s: Seq<BoundedShape>, o: (int, int, int), d: (int, int, int)) -> Option<
    ((int, int, int), int),
>
    decreases s.len(),
{
    if s.len() == 0 {
        None
    } else {
        omin(bmin_hit(s.drop_last(), o, d), shape_hit(s.last().shape, o, d))
    }
}

/// The closest hit over a list of shapes, earlier shapes winning ties.
pub open spec fn smin_hit(s: Seq<Shape>, o: (int, int, int), d: (int, int, int)) -> Option<
    ((int, int, int), int),
>
    decreases s.len(),
{
    if s.len() == 0 {
        None
    } else {
        omin(smin_hit(s.drop_last(), o, d), shape_hit(s.last(), o, d))
    }
}

/// The ray parameter at which the ray crosses a split plane. A ray running
/// parallel to the plane never crosses it: the parameter is unbounded, in the
/// direction that sends the traversal to the child holding the origin.
pub open spec fn split_t(point: int, rp: int, rd: int) -> int {
    if rd == 0 {
        if point > rp {
            FX_TBIG as int
        } else {
            -FX_TBIG as int
        }
    } else {
        iclamp(fxd(point - rp, rd), -FX_TBIG as int, FX_TBIG as int)
    }
}

/// The result of traversing a subtree: at a leaf, the closest hit over its
/// entries; at an inner node, the closest hit found by walking the child
/// holding the ray origin first, skipping whichever child the ray cannot
/// reach within `[tmin, tmax]`, and cutting the second visit short when the
/// first already found a hit in front of the split plane.
pub open spec fn node_hit(
    n: Node,
    o: (int, int, int),
    d: (int, int, int),
    tmin: int,
    tmax: int,
) -> Option<((int, int, int), int)>
    decreases n,
{
    match n {
        Node::Leaf { shapes } => bmin_hit(shapes@, o, d),
        Node::Parent { axis, point, left, right } => {
            let rp = axis_of(o, axis);
            let rd = axis_of(d, axis);
            let ts = split_t(point as int, rp, rd);
            let lf = rp < point || (rp == point && rd <= 0);
            let first = if lf {
                *left
            } else {
                *right
            };
            let second = if lf {
                *right
            } else {
                *left
            };
            if ts > tmax || ts <= 0 {
                node_hit(first, o, d, tmin, tmax)
            } else if ts < tmin {
                node_hit(second, o, d, tmin, tmax)
            } else {
                let h1 = node_hit(first, o, d, tmin, ts);
                if match h1 {
                    Some(h) => h.1 <= ts,
                    None => false,
                } {
                    h1
                } else {
                    let h1t = match h1 {
                        Some(h) => h.1,
                        None => i64::MAX as int,
                    };
                    let h2 = node_hit(second, o, d, ts, imin(tmax, h1t));
                    let h2t = match h2 {
                        Some(h) => h.1,
                        None => i64::MAX as int,
                    };
                    if h1t < h2t {
                        h1
                    } else {
                        h2
                    }
                }
            }
        },
    }
}

/// The closest hit over a leaf's entries.
fn leaf_intersects(shapes: &Vec<BoundedShape>, ray: &Ray) -> (r: Option<HitData>)
    requires
        forall|i: int| 0 <= i < shapes@.len() ==> bs_wf(#[trigger] shapes@[i]),
        ray_wf(*ray),
    ensures
        opt_hit_model(r) == bmin_hit(shapes@, ray.point@, ray.dir@),
{
    let mut best: Option<HitData> = None;
    let mut i: usize = 0;
    while i < shapes.len()
        invariant
            0 <= i <= shapes@.len(),
            forall|j: int| 0 <= j < shapes@.len() ==> bs_wf(#[trigger] shapes@[j]),
            ray_wf(*ray),
            opt_hit_model(best) == bmin_hit(shapes@.take(i as int), ray.point@, ray.dir@),
        decreases shapes@.len() - i,
    {
        proof {
            assert(shapes@.take(i + 1).drop_last() =~= shapes@.take(i as int));
            assert(shapes@.take(i + 1).last() == shapes@[i as int]);
        }
        let h: Option<HitData> = shapes[i].shape.hit_by(ray);
        best = match (best, h) {
            (None, nh) => nh,
            (Some(b), None) => Some(b),
            (Some(b), Some(nh)) => if nh.dist_to < b.dist_to {
                Some(nh)
            } else {
                Some(b)
            },
        };
        i += 1;
    }
    proof {
        assert(shapes@.take(shapes@.len() as int) =~= shapes@);
    }
    best
}

impl Node {
    /// The closest hit in this subtree within the slab interval, front to
    /// back along the ray.
    pub fn intersects(&self, ray: &Ray, tmin: i64, tmax: i64) -> (r: Option<HitData>)
        requires
            node_wf(*self),
            ray_wf(*ray),
        ensures
            opt_hit_model(r) == node_hit(*self, ray.point@, ray.dir@, tmin as int, tmax as int),
        decreases *self,
    {
        match self {
            Node::Leaf { shapes } => leaf_intersects(shapes, ray),
            Node::Parent { axis, point, left, right } => {
                let rp: i64;
                let rd: i64;
                match axis {
                    Axis::X => {
                        rp = ray.point.x;
                        rd = ray.dir.x;
                    },
                    Axis::Y => {
                        rp = ray.point.y;
                        rd = ray.dir.y;
                    },
                    Axis::Z => {
                        rp = ray.point.z;
                        rd = ray.dir.z;
                    },
                }
                let ts: i64 = if rd == 0 {
                    if *point > rp {
                        FX_TBIG
                    } else {
                        -FX_TBIG
                    }
                } else {
                    fx_div_clamp128((*point as i128) - (rp as i128), rd)
                };
                let left_first: bool = rp < *point || (rp == *point && rd <= 0);
                let (first, second): (&Node, &Node) = if left_first {
                    (left, right)
                } else {
                    (right, left)
                };
                if ts > tmax || ts <= 0 {
                    first.intersects(ray, tmin, tmax)
                } else if ts < tmin {
                    second.intersects(ray, tmin, tmax)
                } else {
                    let h1: Option<HitData> = first.intersects(ray, tmin, ts);
                    let keep_first: bool = match h1 {
                        Some(h) => h.dist_to <= ts,
                        None => false,
                    };
                    if keep_first {
                        h1
                    } else {
                        let h1t: i64 = match h1 {
                            Some(h) => h.dist_to,
                            None => i64::MAX,
                        };
                        let cap: i64 = if tmax <= h1t {
                            tmax
                        } else {
                            h1t
                        };
                        let h2: Option<HitData> = second.intersects(ray, ts, cap);
                        let h2t: i64 = match h2 {
                            Some(h) => h.dist_to,
                            None => i64::MAX,
                        };
                        if h1t < h2t {
                            h1
                        } else {
                            h2
                        }
                    }
                }
            },
        }
    }
}

/// The bounded volume hierarchy of a scene: the union box of its bounded
/// shapes, a tree over them, and the bucket of unbounded shapes tested
/// linearly.
pub struct BVHTree {
    pub aabb: Aabb<WorldSpace>,
    pub root: Option<Node>,
    pub unbounded: Vec<Shape>,
}

/// All entries held in the tree.
pub open spec fn tree_bshapes(t: BVHTree) -> Seq<BoundedShape> {
    match t.root {
        Some(n) => node_bshapes(n),
        None => Seq::empty(),
    }
}

/// A well-formed tree: every entry and every unbounded shape is well formed,
/// and the root box encloses every entry's box.
pub open spec fn tree_wf(t: BVHTree) -> bool {
    &&& match t.root {
        Some(n) => node_wf(n),
        None => true,
    }
    &&& forall|i: int| 0 <= i < t.unbounded@.len() ==> shape_wf(#[trigger] t.unbounded@[i])
    &&& forall|b: BoundedShape|
        #[trigger] tree_bshapes(t).contains(b) ==> t_le(t.aabb.min@, b.aabb.min@) && t_le(
            b.aabb.max@,
            t.aabb.max@,
        )
}

/// The hit of the bounded subtree: nothing when the ray misses the root box
/// or the box lies wholly behind the ray.
pub open spec fn bvh_bounded_hit(t: BVHTree, o: (int, int, int), d: (int, int, int)) -> Option<
    ((int, int, int), int),
> {
    let iv = slab_t(t.aabb@, o, d);
    if iv.1 < iv.0 || iv.1 <= 0 {
        None
    } else {
        match t.root {
            Some(n) => node_hit(n, o, d, iv.0, iv.1),
            None => None,
        }
    }
}

/// The hit of the whole hierarchy: the closer of the bounded subtree's hit
/// and the linear scan over unbounded shapes, the bounded one winning ties.
pub open spec fn bvh_hit(t: BVHTree, o: (int, int, int), d: (int, int, int)) -> Option<
    ((int, int, int), int),
> {
    omin(bvh_bounded_hit(t, o, d), smin_hit(t.unbounded@, o, d))
}

/// The unbounded shapes of a list: those without a bounding box, in input
/// order.
pub open spec fn unbounded_of(s: Seq<Shape>) -> Seq<Shape>
    decreases s.len(),
{
    if s.len() == 0 {
        Seq::empty()
    } else {
        let pre = unbounded_of(s.drop_last());
        if shape_bbox(s.last()) is None {
            pre.push(s.last())
        } else {
            pre
        }
    }
}

/// The componentwise union of the bounded shapes' boxes, folded in input
/// order from the empty box — the largest scalar as least corner and the
/// smallest as greatest, the identity of union.
pub open spec fn boxes_union_of(s: Seq<Shape>) -> ((int, int, int), (int, int, int))
    decreases s.len(),
{
    if s.len() == 0 {
        (
            (i64::MAX as int, i64::MAX as int, i64::MAX as int),
            (i64::MIN as int, i64::MIN as int, i64::MIN as int),
        )
    } else {
        let pre = boxes_union_of(s.drop_last());
        match shape_bbox(s.last()) {
            Some(bb) => (t_min(pre.0, bb.0), t_max(pre.1, bb.1)),
            None => pre,
        }
    }
}

/// A shape is present in the tree, in a leaf or in the unbounded bucket.
pub open spec fn tree_has_shape(t: BVHTree, s: Shape) -> bool {
    ||| exists|b: BoundedShape| #[trigger] tree_bshapes(t).contains(b) && b.shape == s
    ||| t.unbounded@.contains(s)
}

/// Sort a scene's shapes into the bounded entries (paired with their boxes),
/// the unbounded bucket in input order, and the union of the bounded boxes.
#[verifier::rlimit(100)]
fn split_bounded(shapes: &Vec<Shape>) -> (r: (Vec<BoundedShape>, Vec<Shape>, Aabb<WorldSpace>))
    requires
        forall|i: int| 0 <= i < shapes@.len() ==> shape_wf(#[trigger] shapes@[i]),
    ensures
        forall|j: int|
            0 <= j < r.0@.len() ==> bs_wf(#[trigger] r.0@[j]) && shapes@.contains(r.0@[j].shape),
        forall|k: int|
            0 <= k < shapes@.len() && #[trigger] shape_bbox(shapes@[k]) is Some ==> exists|
                b: BoundedShape,
            |
                #[trigger] r.0@.contains(b) && b.shape == shapes@[k],
        forall|k: int|
            0 <= k < shapes@.len() && #[trigger] shape_bbox(shapes@[k]) is None
                ==> r.1@.contains(shapes@[k]),
        forall|j: int|
            0 <= j < r.1@.len() ==> shapes@.contains(#[trigger] r.1@[j]) && shape_bbox(r.1@[j])
                is None,
        r.1@ == unbounded_of(shapes@),
        r.2@ == boxes_union_of(shapes@),
        forall|k: int|
            0 <= k < r.0@.len() ==> t_le(r.2.min@, (#[trigger] r.0@[k]).aabb.min@) && t_le(
                r.0@[k].aabb.max@,
                r.2.max@,
            ),
{
    let mut bounded: Vec<BoundedShape> = Vec::new();
    let mut unbounded: Vec<Shape> = Vec::new();
    let mut aabb: Aabb<WorldSpace> = Aabb::empty();
    let mut i: usize = 0;
    proof {
        assert(unbounded@ =~= unbounded_of(shapes@.take(0)));
        assert(aabb@ == boxes_union_of(shapes@.take(0)));
    }
    while i < shapes.len()
        invariant
            0 <= i <= shapes@.len(),
            forall|k: int| 0 <= k < shapes@.len() ==> shape_wf(#[trigger] shapes@[k]),
            forall|j: int|
                0 <= j < bounded@.len() ==> bs_wf(#[trigger] bounded@[j]) && shapes@.contains(
                    bounded@[j].shape,
                ),
            forall|k: int|
                0 <= k < i && #[trigger] shape_bbox(shapes@[k]) is Some ==> exists|
                    b: BoundedShape,
                |
                    #[trigger] bounded@.contains(b) && b.shape == shapes@[k],
            forall|k: int|
                0 <= k < i && #[trigger] shape_bbox(shapes@[k]) is None ==> unbounded@.contains(
                    shapes@[k],
                ),
            forall|j: int|
                0 <= j < unbounded@.len() ==> shapes@.contains(#[trigger] unbounded@[j])
                    && shape_bbox(unbounded@[j]) is None,
            unbounded@ == unbounded_of(shapes@.take(i as int)),
            aabb@ == boxes_union_of(shapes@.take(i as int)),
            forall|k: int|
                0 <= k < bounded@.len() ==> t_le(aabb.min@, (#[trigger] bounded@[k]).aabb.min@)
                    && t_le(bounded@[k].aabb.max@, aabb.max@),
        decreases shapes@.len() - i,
    {
        let ghost old_bounded = bounded@;
        let ghost old_unbounded = unbounded@;
        let ghost old_box = aabb@;
        proof {
            assert(shapes@.take(i + 1).drop_last() =~= shapes@.take(i as int));
            assert(shapes@.take(i + 1).last() == shapes@[i as int]);
        }
        let shape: Shape = shapes[i];
        match shape.bounding_box() {
            Some(bb) => {
                aabb = aabb.union(&bb);
                bounded.push(BoundedShape { shape, aabb: bb });
                proof {
                    assert(aabb@ == boxes_union_of(shapes@.take(i + 1)));
                    assert forall|k: int| 0 <= k < bounded@.len() implies t_le(
                        aabb.min@,
                        (#[trigger] bounded@[k]).aabb.min@,
                    ) && t_le(bounded@[k].aabb.max@, aabb.max@) by {
                        if k < bounded@.len() - 1 {
                            assert(bounded@[k] == old_bounded[k]);
                            assert(t_le(old_box.0, old_bounded[k].aabb.min@));
                            assert(t_le(old_bounded[k].aabb.max@, old_box.1));
                        }
                    }
                }
            },
            None => {
                unbounded.push(shape);
                proof {
                    assert(unbounded@ =~= unbounded_of(shapes@.take(i + 1)));
                }
            },
        }
        proof {
            assert(shapes@.contains(shapes@[i as int]));
            assert forall|k: int|
                0 <= k < i + 1 && #[trigger] shape_bbox(shapes@[k]) is Some implies exists|
                b: BoundedShape,
            |
                #[trigger] bounded@.contains(b) && b.shape == shapes@[k] by {
                if k < i {
                    let b = choose|b: BoundedShape|
                        #[trigger] old_bounded.contains(b) && b.shape == shapes@[k];
                    let j = choose|j: int| 0 <= j < old_bounded.len() && old_bounded[j] == b;
                    assert(bounded@[j] == b);
                    assert(bounded@.contains(b));
                } else {
                    assert(bounded@[bounded@.len() - 1].shape == shapes@[k]);
                    assert(bounded@.contains(bounded@[bounded@.len() - 1]));
                }
            }
            assert forall|k: int|
                0 <= k < i + 1 && #[trigger] shape_bbox(shapes@[k]) is None implies unbounded@
                .contains(shapes@[k]) by {
                if k < i {
                    let j = choose|j: int|
                        0 <= j < old_unbounded.len() && old_unbounded[j] == shapes@[k];
                    assert(unbounded@[j] == shapes@[k]);
                } else {
                    assert(unbounded@[unbounded@.len() - 1] == shapes@[k]);
                }
            }
        }
        i += 1;
    }
    proof {
        assert(shapes@.take(shapes@.len() as int) =~= shapes@);
    }
    (bounded, unbounded, aabb)
}

impl BVHTree {
    /// Build the hierarchy over a scene's shapes: bounded shapes go to the
    /// tree, unbounded ones to the linear bucket, and the root box is the
    /// union of the bounded shapes' boxes.
    pub fn new(shapes: &Vec<Shape>) -> (t: BVHTree)
        requires
            forall|i: int| 0 <= i < shapes@.len() ==> shape_wf(#[trigger] shapes@[i]),
        ensures
            tree_wf(t),
            (t.root is Some) == (shapes@.len() > 0),
            t.unbounded@ == unbounded_of(shapes@),
            t.aabb@ == boxes_union_of(shapes@),
            forall|b: BoundedShape|
                #[trigger] tree_bshapes(t).contains(b) ==> shapes@.contains(b.shape) && bs_wf(b),
            forall|i: int|
                0 <= i < shapes@.len() && #[trigger] shape_bbox(shapes@[i]) is Some ==> exists|
                    b: BoundedShape,
                |
                    #[trigger] tree_bshapes(t).contains(b) && b.shape == shapes@[i],
            forall|i: int|
                0 <= i < shapes@.len() && #[trigger] shape_bbox(shapes@[i]) is None
                    ==> t.unbounded@.contains(shapes@[i]),
            forall|j: int|
                0 <= j < t.unbounded@.len() ==> shapes@.contains(#[trigger] t.unbounded@[j])
                    && shape_bbox(t.unbounded@[j]) is None,
    {
        let (bounded, unbounded, aabb) = split_bounded(shapes);
        let ghost bseq = bounded@;
        let root: Option<Node> = if shapes.len() > 0 {
            let (n, _depth) = build_node(bounded);
            Some(n)
        } else {
            None
        };
        let t = BVHTree { aabb, root, unbounded };
        proof {
            assert forall|b: BoundedShape| #[trigger]
                tree_bshapes(t).contains(b) implies shapes@.contains(b.shape) && bs_wf(b) && t_le(
                t.aabb.min@,
                b.aabb.min@,
            ) && t_le(b.aabb.max@, t.aabb.max@) by {
                assert(bseq.contains(b));
                let j = choose|j: int| 0 <= j < bseq.len() && bseq[j] == b;
            }
            assert forall|i: int|
                0 <= i < shapes@.len() && #[trigger] shape_bbox(shapes@[i]) is Some implies exists|
                b: BoundedShape,
            |
                #[trigger] tree_bshapes(t).contains(b) && b.shape == shapes@[i] by {
                let b = choose|b: BoundedShape|
                    #[trigger] bseq.contains(b) && b.shape == shapes@[i];
                assert(tree_bshapes(t).contains(b));
            }
        }
        t
    }

    /// The closest hit within the bounded subtree.
    fn intersects_bounded_volume(&self, ray: &Ray) -> (r: Option<HitData>)
        requires
            tree_wf(*self),
            ray_wf(*ray),
        ensures
            opt_hit_model(r) == bvh_bounded_hit(*self, ray.point@, ray.dir@),
    {
        let (tmin, tmax): (i64, i64) = self.aabb.slab(ray);
        if tmax < tmin || tmax <= 0 {
            None
        } else {
            match &self.root {
                Some(root) => root.intersects(ray, tmin, tmax),
                None => None,
            }
        }
    }

    /// The closest hit among the unbounded shapes.
    fn intersects_unbounded_volume(&self, ray: &Ray) -> (r: Option<HitData>)
        requires
            tree_wf(*self),
            ray_wf(*ray),
        ensures
            opt_hit_model(r) == smin_hit(self.unbounded@, ray.point@, ray.dir@),
    {
        let mut best: Option<HitData> = None;
        let mut i: usize = 0;
        while i < self.unbounded.len()
            invariant
                0 <= i <= self.unbounded@.len(),
                tree_wf(*self),
                ray_wf(*ray),
                opt_hit_model(best) == smin_hit(self.unbounded@.take(i as int), ray.point@, ray.dir@),
            decreases self.unbounded@.len() - i,
        {
            proof {
                assert(self.unbounded@.take(i + 1).drop_last() =~= self.unbounded@.take(i as int));
                assert(self.unbounded@.take(i + 1).last() == self.unbounded@[i as int]);
            }
            let h: Option<HitData> = self.unbounded[i].hit_by(ray);
            best = match (best, h) {
                (None, nh) => nh,
                (Some(b), None) => Some(b),
                (Some(b), Some(nh)) => if nh.dist_to < b.dist_to {
                    Some(nh)
                } else {
                    Some(b)
                },
            };
            i += 1;
        }
        proof {
            assert(self.unbounded@.take(self.unbounded@.len() as int) =~= self.unbounded@);
        }
        best
    }

    /// The closest hit of a ray against everything in the hierarchy.
    pub fn intersects(&self, ray: &Ray) -> (r: Option<HitData>)
        requires
            tree_wf(*self),
            ray_wf(*ray),
        ensures
            opt_hit_model(r) == bvh_hit(*self, ray.point@, ray.dir@),
    {
        let hb: Option<HitData> = self.intersects_bounded_volume(ray);
        let hu: Option<HitData> = self.intersects_unbounded_volume(ray);
        match (hb, hu) {
            (None, nh) => nh,
            (Some(b), None) => Some(b),
            (Some(b), Some(nh)) => if nh.dist_to < b.dist_to {
                Some(nh)
            } else {
                Some(b)
            },
        }
    }
}

/// Concatenation holds exactly the members of its two parts.
pub proof fn lemma_concat_contains(s1: Seq<BoundedShape>, s2: Seq<BoundedShape>)
    ensures
        forall|b: BoundedShape|
            #[trigger] (s1 + s2).contains(b) <==> s1.contains(b) || s2.contains(b),
{
    assert forall|b: BoundedShape| #[trigger]
        (s1 + s2).contains(b) implies s1.contains(b) || s2.contains(b) by {
        let i = choose|i: int| 0 <= i < (s1 + s2).len() && (s1 + s2)[i] == b;
        if i < s1.len() {
            assert(s1[i] == b);
        } else {
            assert(s2[i - s1.len()] == b);
        }
    }
    assert forall|b: BoundedShape| s1.contains(b) || s2.contains(b) implies #[trigger]
        (s1 + s2).contains(b) by {
        if s1.contains(b) {
            let i = choose|i: int| 0 <= i < s1.len() && s1[i] == b;
            assert((s1 + s2)[i] == b);
        } else {
            let i = choose|i: int| 0 <= i < s2.len() && s2[i] == b;
            assert((s1 + s2)[s1.len() + i] == b);
        }
    }
}

/// The closest hit over a list of bounded entries is a hit of one of them,
/// and no entry's hit is closer. An empty result means every entry misses.
pub proof fn lemma_bmin_props(s: Seq<BoundedShape>, o: (int, int, int), d: (int, int, int))
    ensures
        bmin_hit(s, o, d) is None ==> forall|i: int|
            0 <= i < s.len() ==> shape_hit((#[trigger] s[i]).shape, o, d) is None,
        bmin_hit(s, o, d) matches Some(h) ==> exists|i: int|
            0 <= i < s.len() && shape_hit((#[trigger] s[i]).shape, o, d) == Some(h),
        forall|i: int|
            0 <= i < s.len() && shape_hit((#[trigger] s[i]).shape, o, d) is Some ==> bmin_hit(
                s,
                o,
                d,
            ) is Some && bmin_hit(s, o, d)->Some_0.1 <= shape_hit(s[i].shape, o, d)->Some_0.1,
    decreases s.len(),
{
    if s.len() > 0 {
        lemma_bmin_props(s.drop_last(), o, d);
        assert(s.drop_last() =~= s.take(s.len() - 1));
        assert(forall|i: int| 0 <= i < s.len() - 1 ==> #[trigger] s[i] == s.drop_last()[i]);
        match bmin_hit(s, o, d) {
            Some(h) => {
                if bmin_hit(s.drop_last(), o, d) == Some(h) {
                    let i = choose|i: int|
                        0 <= i < s.drop_last().len() && shape_hit(
                            (#[trigger] s.drop_last()[i]).shape,
                            o,
                            d,
                        ) == Some(h);
                    assert(shape_hit(s[i].shape, o, d) == Some(h));
                } else {
                    assert(shape_hit(s[s.len() - 1].shape, o, d) == Some(h));
                }
            },
            None => {},
        }
    }
}

/// The closest hit over a list of shapes is a hit of one of them, and no
/// shape's hit is closer. An empty result means every shape misses.
pub proof fn lemma_smin_props(s: Seq<Shape>, o: (int, int, int), d: (int, int, int))
    ensures
        smin_hit(s, o, d) is None ==> forall|i: int|
            0 <= i < s.len() ==> shape_hit(#[trigger] s[i], o, d) is None,
        smin_hit(s, o, d) matches Some(h) ==> exists|i: int|
            0 <= i < s.len() && shape_hit(#[trigger] s[i], o, d) == Some(h),
        forall|i: int|
            0 <= i < s.len() && shape_hit(#[trigger] s[i], o, d) is Some ==> smin_hit(s, o, d)
                is Some && smin_hit(s, o, d)->Some_0.1 <= shape_hit(s[i], o, d)->Some_0.1,
    decreases s.len(),
{
    if s.len() > 0 {
        lemma_smin_props(s.drop_last(), o, d);
        assert(forall|i: int| 0 <= i < s.len() - 1 ==> #[trigger] s[i] == s.drop_last()[i]);
        match smin_hit(s, o, d) {
            Some(h) => {
                if smin_hit(s.drop_last(), o, d) == Some(h) {
                    let i = choose|i: int|
                        0 <= i < s.drop_last().len() && shape_hit(#[trigger] s.drop_last()[i], o, d)
                            == Some(h);
                    assert(shape_hit(s[i], o, d) == Some(h));
                } else {
                    assert(shape_hit(s[s.len() - 1], o, d) == Some(h));
                }
            },
            None => {},
        }
    }
}

/// The hierarchy never invents a hit: whatever a subtree traversal returns is
/// the hit of a shape held in that subtree.
pub proof fn lemma_node_hit_sound(
    n: Node,
    o: (int, int, int),
    d: (int, int, int),
    tmin: int,
    tmax: int,
)
    requires
        node_wf(n),
    ensures
        node_hit(n, o, d, tmin, tmax) matches Some(h) ==> exists|b: BoundedShape|
            #[trigger] node_bshapes(n).contains(b) && shape_hit(b.shape, o, d) == Some(h),
    decreases n,
{
    match n {
        Node::Leaf { shapes } => {
            lemma_bmin_props(shapes@, o, d);
            match node_hit(n, o, d, tmin, tmax) {
                Some(h) => {
                    let i = choose|i: int|
                        0 <= i < shapes@.len() && shape_hit((#[trigger] shapes@[i]).shape, o, d)
                            == Some(h);
                    assert(node_bshapes(n).contains(shapes@[i]));
                },
                None => {},
            }
        },
        Node::Parent { axis, point, left, right } => {
            let rp = axis_of(o, axis);
            let rd = axis_of(d, axis);
            let ts = split_t(point as int, rp, rd);
            let lf = rp < point || (rp == point && rd <= 0);
            let ln = node_bshapes(*left);
            let rn = node_bshapes(*right);
            assert(node_bshapes(n) == ln + rn);
            lemma_concat_contains(ln, rn);
            lemma_node_hit_sound(*left, o, d, tmin, tmax);
            lemma_node_hit_sound(*right, o, d, tmin, tmax);
            lemma_node_hit_sound(*left, o, d, tmin, ts);
            lemma_node_hit_sound(*right, o, d, tmin, ts);
            let h1f = node_hit(if lf {
                *left
            } else {
                *right
            }, o, d, tmin, ts);
            let h1t = match h1f {
                Some(h) => h.1,
                None => i64::MAX as int,
            };
            lemma_node_hit_sound(*left, o, d, ts, imin(tmax, h1t));
            lemma_node_hit_sound(*right, o, d, ts, imin(tmax, h1t));
            match node_hit(n, o, d, tmin, tmax) {
                Some(h) => {
                    if exists|b: BoundedShape|
                        #[trigger] ln.contains(b) && shape_hit(b.shape, o, d) == Some(h) {
                        let b = choose|b: BoundedShape|
                            #[trigger] ln.contains(b) && shape_hit(b.shape, o, d) == Some(h);
                        assert((ln + rn).contains(b));
                        assert(node_bshapes(n).contains(b));
                    } else {
                        assert(exists|b: BoundedShape|
                            #[trigger] rn.contains(b) && shape_hit(b.shape, o, d) == Some(h));
                        let b = choose|b: BoundedShape|
                            #[trigger] rn.contains(b) && shape_hit(b.shape, o, d) == Some(h);
                        assert((ln + rn).contains(b));
                        assert(node_bshapes(n).contains(b));
                    }
                },
                None => {},
            }
        },
    }
}

/// The whole hierarchy never invents a hit: whatever `intersects` returns is
/// the hit of a shape held somewhere in it.
pub proof fn lemma_bvh_hit_sound(t: BVHTree, o: (int, int, int), d: (int, int, int))
    requires
        tree_wf(t),
    ensures
        bvh_hit(t, o, d) matches Some(h) ==> exists|s: Shape|
            #[trigger] tree_has_shape(t, s) && shape_hit(s, o, d) == Some(h),
{
    lemma_smin_props(t.unbounded@, o, d);
    match bvh_hit(t, o, d) {
        Some(h) => {
            let hb = bvh_bounded_hit(t, o, d);
            if hb == Some(h) {
                match t.root {
                    Some(root) => {
                        let iv = slab_t(t.aabb@, o, d);
                        lemma_node_hit_sound(root, o, d, iv.0, iv.1);
                        let b = choose|b: BoundedShape|
                            #[trigger] node_bshapes(root).contains(b) && shape_hit(b.shape, o, d)
                                == Some(h);
                        assert(tree_bshapes(t).contains(b));
                        assert(tree_has_shape(t, b.shape));
                    },
                    None => {},
                }
            } else {
                let i = choose|i: int|
                    0 <= i < t.unbounded@.len() && shape_hit(#[trigger] t.unbounded@[i], o, d)
                        == Some(h);
                assert(tree_has_shape(t, t.unbounded@[i]));
            }
        },
        None => {},
    }
}


/// The hierarchy never misses an unbounded shape: whenever one of the linear
/// bucket's shapes is hit, the hierarchy reports a hit at most as far away.
pub proof fn lemma_bvh_unbounded_admissible(
    t: BVHTree,
    o: (int, int, int),
    d: (int, int, int),
    j: int,
)
    requires
        tree_wf(t),
        0 <= j < t.unbounded@.len(),
        shape_hit(t.unbounded@[j], o, d) is Some,
    ensures
        bvh_hit(t, o, d) is Some,
        bvh_hit(t, o, d)->Some_0.1 <= shape_hit(t.unbounded@[j], o, d)->Some_0.1,
{
    lemma_smin_props(t.unbounded@, o, d);
}

} // verus!
