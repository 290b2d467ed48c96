//! The scene and the render pipeline: ownership of the shapes and their
//! hierarchy, visibility queries, per-shape chopped edge lines, and the
//! render pass that keeps only the visible chunks, merges them, and projects
//! them onto the canvas.

use vstd::prelude::*;

use crate::bvh::bvh_hit;
use crate::bvh::bs_wf;
use crate::bvh::lemma_bvh_hit_sound;
use crate::bvh::tree_bshapes;
use crate::bvh::tree_has_shape;
use crate::bvh::tree_wf;
use crate::bvh::BVHTree;
use crate::bvh::BoundedShape;
use crate::camera::camera_wf;
use crate::camera::chop_all;
use crate::camera::viewport;
use crate::camera::viewport_spec;
use crate::camera::Camera;
use crate::fx::sabs;
use crate::fx::tdiv;
use crate::fx::MAX_COORD;
use crate::mat4::mat_of;
use crate::mat4::Transform;
use crate::path::segs_in;
use crate::path::segs_model;
use crate::path::simplify_spec;
use crate::path::transform_segs_spec;
use crate::path::Paths;
use crate::ray::opt_hit_model;
use crate::ray::ray_wf;
use crate::ray::HitData;
use crate::ray::Ray;
use crate::segment::seg_bounded_tagged;
use crate::segment::LineSegment;
use crate::shapes::shape_bbox;
use crate::shapes::shape_hit;
use crate::shapes::shape_paths_model;
use crate::shapes::shape_tag;
use crate::shapes::shape_wf;
use crate::shapes::Shape;
use crate::vec3::t_add;
use crate::vec3::t_in;
use crate::vec3::t_len;
use crate::vec3::t_norm;
use crate::vec3::t_sub;
use crate::vec3::Point3;
use crate::vec3::Vec3;
use crate::CameraSpace;
use crate::WorldSpace;

verus! {

/// The slack within which a hit at the target's own distance still counts as
/// visible: about 0.1 in fixed-point units. Smaller values open holes at
/// grazing angles; larger ones bleed through thin walls.
pub const VIS_EPS: i64 = 1677722;

/// The threshold under which directions and endpoints count as equal during
/// simplification: about 1e-6 in fixed-point units.
pub const SIMPLIFY_EPS: i64 = 17;

/// A scene: an ordered collection of shapes and the hierarchy built over
/// them.
pub struct Scene {
    pub geometry: Vec<Shape>,
    pub bvh: BVHTree,
}

/// A well-formed scene: every shape is well formed, the hierarchy is well
/// formed, it holds exactly the scene's shapes — every bounded shape sits in
/// some leaf, every unbounded one in the linear bucket, and nothing else.
pub open spec fn scene_wf(s: Scene) -> bool {
    &&& forall|i: int| 0 <= i < s.geometry@.len() ==> shape_wf(#[trigger] s.geometry@[i])
    &&& tree_wf(s.bvh)
    &&& forall|b: BoundedShape|
        #[trigger] tree_bshapes(s.bvh).contains(b) ==> s.geometry@.contains(b.shape) && bs_wf(b)
    &&& forall|i: int|
        0 <= i < s.geometry@.len() && #[trigger] shape_bbox(s.geometry@[i]) is Some ==> exists|
            b: BoundedShape,
        |
            #[trigger] tree_bshapes(s.bvh).contains(b) && b.shape == s.geometry@[i]
    &&& forall|i: int|
        0 <= i < s.geometry@.len() && #[trigger] shape_bbox(s.geometry@[i]) is None
            ==> s.bvh.unbounded@.contains(s.geometry@[i])
    &&& forall|j: int|
        0 <= j < s.bvh.unbounded@.len() ==> s.geometry@.contains(#[trigger] s.bvh.unbounded@[j])
            && shape_bbox(s.bvh.unbounded@[j]) is None
}

/// The midpoint of a segment, each coordinate rounded toward zero.
pub open spec fn seg_mid(m: ((int, int, int), (int, int, int), int)) -> (int, int, int) {
    let d = t_sub(m.1, m.0);
    t_add(m.0, (tdiv(d.0, 2), tdiv(d.1, 2), tdiv(d.2, 2)))
}

/// A point is visible from another: the ray cast from the target back toward
/// the viewer hits nothing, or hits only at the target's own distance, within
/// the visibility slack. A target at the viewer itself is visible.
pub open spec fn visible_spec(s: Scene, from: (int, int, int), to: (int, int, int)) -> bool {
    let v = t_sub(from, to);
    if v == (0int, 0int, 0int) {
        true
    } else {
        match bvh_hit(s.bvh, to, t_norm(v)) {
            None => true,
            Some(h) => sabs(h.1 - t_len(v)) < VIS_EPS,
        }
    }
}

/// A chopped chunk survives the render filter: its start lies within the far
/// plane of the eye, and its midpoint is visible from the eye.
pub open spec fn keep_seg(s: Scene, cam: Camera, m: ((int, int, int), (int, int, int), int)) -> bool {
    &&& t_len(t_sub(m.0, cam.eye@)) < cam.zfar
    &&& visible_spec(s, cam.eye@, seg_mid(m))
}

/// The chunks of one group that survive the render filter, in order.
pub open spec fn filter_group(
    s: Scene,
    cam: Camera,
    g: Seq<((int, int, int), (int, int, int), int)>,
) -> Seq<((int, int, int), (int, int, int), int)>
    decreases g.len(),
{
    if g.len() == 0 {
        Seq::empty()
    } else {
        let pre = filter_group(s, cam, g.drop_last());
        if keep_seg(s, cam, g.last()) {
            pre.push(g.last())
        } else {
            pre
        }
    }
}

/// The canvas matrix of a render pass: the camera matrix fitted to the
/// canvas.
pub open spec fn render_mat(cam: Camera) -> Seq<int> {
    viewport_spec(mat_of(cam.matrix), tdiv(cam.width as int, 2), tdiv(cam.height as int, 2))
}

/// The rendered segments of a list of groups: each group filtered by
/// visibility, merged, and projected, the groups' results in order.
pub open spec fn render_spec(
    s: Scene,
    cam: Camera,
    groups: Seq<Seq<((int, int, int), (int, int, int), int)>>,
) -> Seq<((int, int, int), (int, int, int), int)>
    decreases groups.len(),
{
    if groups.len() == 0 {
        Seq::empty()
    } else {
        render_spec(s, cam, groups.drop_last()) + transform_segs_spec(
            simplify_spec(filter_group(s, cam, groups.last()), SIMPLIFY_EPS as int),
            render_mat(cam),
        )
    }
}

/// The models of a list of groups.
pub open spec fn groups_model(ps: Seq<Vec<LineSegment<WorldSpace>>>) -> Seq<
    Seq<((int, int, int), (int, int, int), int)>,
> {
    ps.map_values(|g: Vec<LineSegment<WorldSpace>>| segs_model(g@))
}

/// Every chunk of the group carries the tag and stays within twice the
/// supported coordinate range.
pub open spec fn group_ok(g: Seq<((int, int, int), (int, int, int), int)>, tag: int) -> bool {
    forall|k: int|
        0 <= k < g.len() ==> (#[trigger] g[k]).2 == tag && t_in(g[k].0, 2 * MAX_COORD as int)
            && t_in(g[k].1, 2 * MAX_COORD as int)
}

/// The total number of cached chunks over a list of groups, saturating at
/// the largest machine word.
pub open spec fn chunk_count_of(ps: Seq<Vec<LineSegment<WorldSpace>>>) -> int
    decreases ps.len(),
{
    if ps.len() == 0 {
        0
    } else {
        let pre = chunk_count_of(ps.drop_last());
        if pre + ps.last()@.len() > usize::MAX {
            usize::MAX as int
        } else {
            pre + ps.last()@.len()
        }
    }
}

/// A scene bound to a camera, with the chopped edge lines of every shape
/// cached, one group per shape.
pub struct SceneCamera<'s> {
    pub camera: Camera,
    pub scene: &'s Scene,
    pub paths: Vec<Vec<LineSegment<WorldSpace>>>,
    pub path_count: usize,
}

impl Scene {
    /// A scene from its shapes; the hierarchy is built at once.
    pub fn new(geometry: Vec<Shape>) -> (s: Scene)
        requires
            forall|i: int| 0 <= i < geometry@.len() ==> shape_wf(#[trigger] geometry@[i]),
        ensures
            s.geometry@ == geometry@,
            scene_wf(s),
    {
        let bvh: BVHTree = BVHTree::new(&geometry);
        Scene { geometry, bvh }
    }

    /// The closest intersection of a ray with anything in the scene, if any.
    pub fn intersects(&self, ray: Ray) -> (r: Option<HitData>)
        requires
            scene_wf(*self),
            ray_wf(ray),
        ensures
            opt_hit_model(r) == bvh_hit(self.bvh, ray.point@, ray.dir@),
    {
        self.bvh.intersects(&ray)
    }

    /// Whether a clear line of sight joins `from` to `point`: the occlusion
    /// ray originates at the target and aims back at the viewer, so a hit on
    /// the shape owning the target lands at the target's own distance and
    /// does not occlude.
    pub fn visible(&self, from: Point3<WorldSpace>, point: Point3<WorldSpace>) -> (r: bool)
        requires
            scene_wf(*self),
            t_in(from@, 2 * MAX_COORD as int),
            t_in(point@, 2 * MAX_COORD as int),
        ensures
            r == visible_spec(*self, from@, point@),
    {
        let v: Vec3<WorldSpace> = from.sub_p(&point);
        if v.x == 0 && v.y == 0 && v.z == 0 {
            return true;
        }
        let vl: i64 = v.length();
        let ray: Ray = Ray::normalize_new(point, v);
        let hit: Option<HitData> = self.bvh.intersects(&ray);
        match hit {
            Some(hitdata) => {
                let diff: i128 = (hitdata.dist_to as i128) - (vl as i128);
                let mag: i128 = if diff < 0 {
                    -diff
                } else {
                    diff
                };
                mag < VIS_EPS as i128
            },
            None => true,
        }
    }

    /// Bind a camera: extract every shape's edge lines and chop each into
    /// screen-sized chunks, cached one group per shape. The chunk count
    /// saturates if it outgrows its word.
    pub fn attach_camera(&self, camera: Camera) -> (sc: SceneCamera)
        requires
            scene_wf(*self),
            camera_wf(camera),
        ensures
            sc.camera == camera,
            sc.scene == self,
            sc.paths@.len() == self.geometry@.len(),
            forall|j: int|
                0 <= j < sc.paths@.len() ==> group_ok(
                    segs_model((#[trigger] sc.paths@[j])@),
                    shape_tag(self.geometry@[j]),
                ),
            forall|j: int|
                0 <= j < sc.paths@.len() ==> segs_model((#[trigger] sc.paths@[j])@) == chop_all(
                    camera.eye@,
                    camera.znear as int,
                    camera.zfar as int,
                    camera.min_step_size as int,
                    camera.max_step_size as int,
                    shape_paths_model(self.geometry@[j]),
                ),
            sc.path_count as int == chunk_count_of(sc.paths@),
    {
        let mut paths: Vec<Vec<LineSegment<WorldSpace>>> = Vec::new();
        let mut path_count: usize = 0;
        let mut i: usize = 0;
        while i < self.geometry.len()
            invariant
                0 <= i <= self.geometry@.len(),
                scene_wf(*self),
                camera_wf(camera),
                paths@.len() == i,
                forall|j: int|
                    0 <= j < paths@.len() ==> group_ok(
                        segs_model((#[trigger] paths@[j])@),
                        shape_tag(self.geometry@[j]),
                    ),
                forall|j: int|
                    0 <= j < paths@.len() ==> segs_model((#[trigger] paths@[j])@) == chop_all(
                        camera.eye@,
                        camera.znear as int,
                        camera.zfar as int,
                        camera.min_step_size as int,
                        camera.max_step_size as int,
                        shape_paths_model(self.geometry@[j]),
                    ),
                path_count as int == chunk_count_of(paths@),
            decreases self.geometry@.len() - i,
        {
            proof {
                assert(shape_wf(self.geometry@[i as int]));
            }
            let shape_paths: Vec<LineSegment<WorldSpace>> = self.geometry[i].paths();
            let mut group: Vec<LineSegment<WorldSpace>> = Vec::new();
            let mut j: usize = 0;
            proof {
                assert(segs_model(group@) =~= chop_all(
                    camera.eye@,
                    camera.znear as int,
                    camera.zfar as int,
                    camera.min_step_size as int,
                    camera.max_step_size as int,
                    segs_model(shape_paths@.take(0)),
                ));
            }
            while j < shape_paths.len()
                invariant
                    0 <= j <= shape_paths@.len(),
                    scene_wf(*self),
                    camera_wf(camera),
                    0 <= i < self.geometry@.len(),
                    forall|k: int|
                        0 <= k < shape_paths@.len() ==> seg_bounded_tagged(
                            (#[trigger] shape_paths@[k])@,
                            shape_tag(self.geometry@[i as int]),
                        ),
                    group_ok(segs_model(group@), shape_tag(self.geometry@[i as int])),
                    segs_model(group@) == chop_all(
                        camera.eye@,
                        camera.znear as int,
                        camera.zfar as int,
                        camera.min_step_size as int,
                        camera.max_step_size as int,
                        segs_model(shape_paths@.take(j as int)),
                    ),
                decreases shape_paths@.len() - j,
            {
                proof {
                    assert(segs_model(shape_paths@)[j as int] == shape_paths@[j as int]@);
                    assert(segs_model(shape_paths@.take(j + 1)).drop_last() =~= segs_model(
                        shape_paths@.take(j as int),
                    ));
                    assert(segs_model(shape_paths@.take(j + 1)).last() == shape_paths@[j as int]@);
                }
                let chunks: Vec<LineSegment<WorldSpace>> = camera.chop_segment(&shape_paths[j]);
                let ghost pre = segs_model(group@);
                let mut c: usize = 0;
                while c < chunks.len()
                    invariant
                        0 <= c <= chunks@.len(),
                        0 <= i < self.geometry@.len(),
                        0 <= j < shape_paths@.len(),
                        forall|k: int|
                            0 <= k < chunks@.len() ==> (#[trigger] chunks@[k])@.2
                                == shape_paths@[j as int]@.2 && t_in(
                                chunks@[k]@.0,
                                2 * MAX_COORD as int,
                            ) && t_in(chunks@[k]@.1, 2 * MAX_COORD as int),
                        shape_paths@[j as int]@.2 == shape_tag(self.geometry@[i as int]),
                        group_ok(segs_model(group@), shape_tag(self.geometry@[i as int])),
                        segs_model(group@) == pre + segs_model(chunks@).take(c as int),
                    decreases chunks@.len() - c,
                {
                    let ghost old_g = group@;
                    group.push(chunks[c]);
                    proof {
                        crate::path::lemma_segs_model_push(old_g, chunks@[c as int]);
                        assert(segs_model(chunks@)[c as int] == chunks@[c as int]@);
                        assert(segs_model(chunks@).take(c + 1) =~= segs_model(chunks@).take(
                            c as int,
                        ).push(segs_model(chunks@)[c as int]));
                        assert(segs_model(group@) =~= pre + segs_model(chunks@).take(c + 1));
                    }
                    c += 1;
                }
                proof {
                    assert(segs_model(chunks@).take(chunks@.len() as int) =~= segs_model(chunks@));
                    assert(segs_model(group@) =~= chop_all(
                        camera.eye@,
                        camera.znear as int,
                        camera.zfar as int,
                        camera.min_step_size as int,
                        camera.max_step_size as int,
                        segs_model(shape_paths@.take(j + 1)),
                    ));
                }
                j += 1;
            }
            proof {
                assert(shape_paths@.take(shape_paths@.len() as int) =~= shape_paths@);
            }
            let gl: usize = group.len();
            path_count = match path_count.checked_add(gl) {
                Some(v) => v,
                None => usize::MAX,
            };
            let ghost old_paths = paths@;
            paths.push(group);
            proof {
                assert(paths@.drop_last() =~= old_paths);
                assert(chunk_count_of(paths@) == if chunk_count_of(old_paths) + paths@.last()@.len()
                    > usize::MAX {
                    usize::MAX as int
                } else {
                    chunk_count_of(old_paths) + paths@.last()@.len()
                });
            }
            i += 1;
        }
        SceneCamera { camera, scene: self, paths, path_count }
    }
}

/// Whatever the scene reports hit is the hit of one of its own shapes: the
/// hierarchy invents nothing.
pub proof fn lemma_scene_hit_sound(s: Scene, o: (int, int, int), d: (int, int, int))
    requires
        scene_wf(s),
    ensures
        bvh_hit(s.bvh, o, d) matches Some(h) ==> exists|i: int|
            0 <= i < s.geometry@.len() && shape_hit(#[trigger] s.geometry@[i], o, d) == Some(h),
{
    lemma_bvh_hit_sound(s.bvh, o, d);
    match bvh_hit(s.bvh, o, d) {
        Some(h) => {
            let sh = choose|sh: Shape|
                #[trigger] tree_has_shape(s.bvh, sh) && shape_hit(sh, o, d) == Some(h);
            if exists|b: BoundedShape| #[trigger] tree_bshapes(s.bvh).contains(b) && b.shape == sh {
                let b = choose|b: BoundedShape|
                    #[trigger] tree_bshapes(s.bvh).contains(b) && b.shape == sh;
                let i = choose|i: int| 0 <= i < s.geometry@.len() && s.geometry@[i] == sh;
                assert(shape_hit(s.geometry@[i], o, d) == Some(h));
            } else {
                assert(s.bvh.unbounded@.contains(sh));
                let i = choose|i: int| 0 <= i < s.geometry@.len() && s.geometry@[i] == sh;
                assert(shape_hit(s.geometry@[i], o, d) == Some(h));
            }
        },
        None => {},
    }
}

/// Visibility fails only for cause: when a target is not visible from a
/// viewer, some shape of the scene is hit by the sight ray at a distance
/// materially different from the target's own — an occluder strictly between
/// them, or past them. A self-hit at the target's own distance never blocks
/// the view.
pub proof fn lemma_visible_occluder(s: Scene, from: (int, int, int), to: (int, int, int))
    requires
        scene_wf(s),
        t_sub(from, to) != (0int, 0int, 0int),
    ensures
        !visible_spec(s, from, to) ==> exists|i: int|
            0 <= i < s.geometry@.len() && match shape_hit(
                #[trigger] s.geometry@[i],
                to,
                t_norm(t_sub(from, to)),
            ) {
                Some(h) => sabs(h.1 - t_len(t_sub(from, to))) >= VIS_EPS,
                None => false,
            },
{
    let v = t_sub(from, to);
    let d = t_norm(v);
    lemma_scene_hit_sound(s, to, d);
    if !visible_spec(s, from, to) {
        match bvh_hit(s.bvh, to, d) {
            Some(h) => {
                let i = choose|i: int|
                    0 <= i < s.geometry@.len() && shape_hit(#[trigger] s.geometry@[i], to, d)
                        == Some(h);
                assert(match shape_hit(s.geometry@[i], to, d) {
                    Some(hh) => sabs(hh.1 - t_len(v)) >= VIS_EPS,
                    None => false,
                });
            },
            None => {},
        }
    }
}

/// The scene never misses an unbounded shape: whenever a ray hits one of the
/// scene's unbounded shapes, the scene reports a hit at most as far away.
pub proof fn lemma_scene_unbounded_admissible(
    s: Scene,
    o: (int, int, int),
    d: (int, int, int),
    i: int,
)
    requires
        scene_wf(s),
        0 <= i < s.geometry@.len(),
        shape_bbox(s.geometry@[i]) is None,
        shape_hit(s.geometry@[i], o, d) is Some,
    ensures
        bvh_hit(s.bvh, o, d) is Some,
        bvh_hit(s.bvh, o, d)->Some_0.1 <= shape_hit(s.geometry@[i], o, d)->Some_0.1,
{
    assert(s.bvh.unbounded@.contains(s.geometry@[i]));
    let j = choose|j: int|
        0 <= j < s.bvh.unbounded@.len() && s.bvh.unbounded@[j] == s.geometry@[i];
    crate::bvh::lemma_bvh_unbounded_admissible(s.bvh, o, d, j);
}

/// A shape never occludes its own surface: when every scene shape's hit
/// along the sight ray lies within the visibility slack of the target's own
/// distance — as self-hits of the shape owning the target do — the target is
/// visible. Visibility can fail only through a shape hit materially away
/// from the target.
pub proof fn lemma_visible_self_hit(s: Scene, from: (int, int, int), to: (int, int, int))
    requires
        scene_wf(s),
        t_sub(from, to) != (0int, 0int, 0int),
        forall|i: int|
            0 <= i < s.geometry@.len() ==> match shape_hit(
                #[trigger] s.geometry@[i],
                to,
                t_norm(t_sub(from, to)),
            ) {
                Some(h) => sabs(h.1 - t_len(t_sub(from, to))) < VIS_EPS,
                None => true,
            },
    ensures
        visible_spec(s, from, to),
{
    let v = t_sub(from, to);
    let d = t_norm(v);
    lemma_scene_hit_sound(s, to, d);
    match bvh_hit(s.bvh, to, d) {
        Some(h) => {
            let i = choose|i: int|
                0 <= i < s.geometry@.len() && shape_hit(#[trigger] s.geometry@[i], to, d) == Some(
                    h,
                );
        },
        None => {},
    }
}

impl<'s> SceneCamera<'s> {
    /// Whether one chopped chunk survives: close enough to the eye and with a
    /// visible midpoint.
    fn clip_filter(&self, path: &LineSegment<WorldSpace>) -> (r: bool)
        requires
            scene_wf(*self.scene),
            camera_wf(self.camera),
            t_in(path.p1@, 2 * MAX_COORD as int),
            t_in(path.p2@, 2 * MAX_COORD as int),
        ensures
            r == keep_seg(*self.scene, self.camera, path@),
    {
        let d: Vec3<WorldSpace> = path.p2.sub_p(&path.p1);
        let half: Vec3<WorldSpace> = Vec3::new(
            crate::fx::fx_div_pos(d.x, 2),
            crate::fx::fx_div_pos(d.y, 2),
            crate::fx::fx_div_pos(d.z, 2),
        );
        let midpoint: Point3<WorldSpace> = path.p1.add_v(&half);
        proof {
            assert(t_in(midpoint@, 2 * MAX_COORD as int));
        }
        let dist: i64 = path.p1.sub_p(&self.camera.eye).length();
        let close_enough: bool = dist < self.camera.zfar;
        close_enough && self.scene.visible(self.camera.eye, midpoint)
    }

    /// Render the bound scene: keep each shape's visible chunks, merge
    /// collinear runs within each shape, and project the survivors onto the
    /// canvas, dropping any segment whose projection fails.
    pub fn render(&self) -> (r: Vec<LineSegment<CameraSpace>>)
        requires
            scene_wf(*self.scene),
            camera_wf(self.camera),
            forall|j: int|
                0 <= j < self.paths@.len() ==> segs_in(
                    segs_model((#[trigger] self.paths@[j])@),
                    2 * MAX_COORD as int,
                ),
        ensures
            segs_model(r@) == render_spec(*self.scene, self.camera, groups_model(self.paths@)),
    {
        let halfw: i64 = crate::fx::fx_div_pos(self.camera.width, 2);
        let halfh: i64 = crate::fx::fx_div_pos(self.camera.height, 2);
        proof {
            crate::fx::lemma_tdiv_bound(self.camera.width as int, 2, 0x40_0000_0000);
            crate::fx::lemma_tdiv_bound(self.camera.height as int, 2, 0x40_0000_0000);
        }
        let transformation: Transform<WorldSpace, CameraSpace> = viewport(
            &self.camera.matrix,
            halfw,
            halfh,
        );
        let mut out: Vec<LineSegment<CameraSpace>> = Vec::new();
        let mut g: usize = 0;
        proof {
            assert(segs_model(out@) =~= render_spec(
                *self.scene,
                self.camera,
                groups_model(self.paths@.take(0)),
            ));
        }
        while g < self.paths.len()
            invariant
                0 <= g <= self.paths@.len(),
                scene_wf(*self.scene),
                camera_wf(self.camera),
                forall|j: int|
                    0 <= j < self.paths@.len() ==> segs_in(
                        segs_model((#[trigger] self.paths@[j])@),
                        2 * MAX_COORD as int,
                    ),
                halfw as int == tdiv(self.camera.width as int, 2),
                halfh as int == tdiv(self.camera.height as int, 2),
                mat_of(transformation) == render_mat(self.camera),
                mat_in_render(transformation),
                segs_model(out@) == render_spec(
                    *self.scene,
                    self.camera,
                    groups_model(self.paths@.take(g as int)),
                ),
            decreases self.paths@.len() - g,
        {
            let group: &Vec<LineSegment<WorldSpace>> = &self.paths[g];
            let mut kept: Vec<LineSegment<WorldSpace>> = Vec::new();
            let mut k: usize = 0;
            proof {
                assert(segs_model(kept@) =~= filter_group(
                    *self.scene,
                    self.camera,
                    segs_model(group@.take(0)),
                ));
            }
            while k < group.len()
                invariant
                    0 <= k <= group@.len(),
                    scene_wf(*self.scene),
                    camera_wf(self.camera),
                    group == self.paths@[g as int],
                    0 <= g < self.paths@.len(),
                    forall|j: int|
                        0 <= j < self.paths@.len() ==> segs_in(
                            segs_model((#[trigger] self.paths@[j])@),
                            2 * MAX_COORD as int,
                        ),
                    segs_model(kept@) == filter_group(
                        *self.scene,
                        self.camera,
                        segs_model(group@.take(k as int)),
                    ),
                    segs_in(segs_model(kept@), 2 * MAX_COORD as int),
                decreases group@.len() - k,
            {
                proof {
                    assert(segs_model(group@)[k as int] == group@[k as int]@);
                    assert(t_in(segs_model(group@)[k as int].0, 2 * MAX_COORD as int));
                    assert(t_in(segs_model(group@)[k as int].1, 2 * MAX_COORD as int));
                    assert(segs_model(group@.take(k + 1)).drop_last() =~= segs_model(
                        group@.take(k as int),
                    ));
                    assert(segs_model(group@.take(k + 1)).last() == group@[k as int]@);
                }
                let seg: LineSegment<WorldSpace> = group[k];
                if self.clip_filter(&seg) {
                    let ghost old_kept = kept@;
                    kept.push(seg);
                    proof {
                        crate::path::lemma_segs_model_push(old_kept, seg);
                    }
                }
                k += 1;
            }
            proof {
                assert(group@.take(group@.len() as int) =~= group@);
            }
            let simplified: Paths<WorldSpace> = Paths::new(kept).simplify(SIMPLIFY_EPS);
            proof {
                crate::path::lemma_simplify_bounded(
                    filter_group(*self.scene, self.camera, segs_model(group@)),
                    SIMPLIFY_EPS as int,
                    2 * MAX_COORD as int,
                );
            }
            let projected: Paths<CameraSpace> = simplified.transform(&transformation);
            let mut c: usize = 0;
            let ghost pre = segs_model(out@);
            while c < projected.lines.len()
                invariant
                    0 <= c <= projected.lines@.len(),
                    segs_model(out@) == pre + segs_model(projected.lines@).take(c as int),
                decreases projected.lines@.len() - c,
            {
                let ghost old_out = out@;
                let seg: LineSegment<CameraSpace> = projected.lines[c];
                out.push(seg);
                proof {
                    crate::path::lemma_segs_model_push(old_out, seg);
                    assert(segs_model(projected.lines@)[c as int] == projected.lines@[c as int]@);
                    assert(segs_model(projected.lines@).take(c + 1) =~= segs_model(
                        projected.lines@,
                    ).take(c as int).push(segs_model(projected.lines@)[c as int]));
                    assert(segs_model(out@) =~= pre + segs_model(projected.lines@).take(c + 1));
                }
                c += 1;
            }
            proof {
                assert(segs_model(projected.lines@).take(projected.lines@.len() as int)
                    =~= segs_model(projected.lines@));
                assert(groups_model(self.paths@.take(g + 1)).drop_last() =~= groups_model(
                    self.paths@.take(g as int),
                ));
                assert(groups_model(self.paths@.take(g + 1)).last() == segs_model(
                    self.paths@[g as int]@,
                ));
                assert(segs_model(out@) =~= render_spec(
                    *self.scene,
                    self.camera,
                    groups_model(self.paths@.take(g + 1)),
                ));
            }
            g += 1;
        }
        proof {
            assert(self.paths@.take(self.paths@.len() as int) =~= self.paths@);
        }
        out
    }
}

/// The canvas matrix stays within the range point projection supports.
pub open spec fn mat_in_render(t: Transform<WorldSpace, CameraSpace>) -> bool {
    crate::mat4::mat_in(mat_of(t), 0x400_0000_0000_0000)
}

} // verus!
