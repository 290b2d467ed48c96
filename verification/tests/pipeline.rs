//! The spatial index, the visibility query, the choppers, the simplifier,
//! the transforms, and an end-to-end render of a cube.

use hidden_line::camera::Camera;
use hidden_line::fx::FX_ONE;
use hidden_line::mat4::mat_compose;
use hidden_line::mat4::Transform;
use hidden_line::path::Paths;
use hidden_line::ray::Ray;
use hidden_line::scene::Scene;
use hidden_line::segment::LineSegment;
use hidden_line::shapes::RectPrism;
use hidden_line::shapes::Shape;
use hidden_line::shapes::Sphere;
use hidden_line::vec3::Point3;
use hidden_line::vec3::Vec3;
use hidden_line::CameraSpace;
use hidden_line::CanvasSpace;
use hidden_line::WorldSpace;

fn fx(v: f64) -> i64 {
    (v * 16777216.0).round() as i64
}

fn to_f(v: i64) -> f64 {
    v as f64 / 16777216.0
}

fn near(a: i64, b: f64) -> bool {
    (to_f(a) - b).abs() < 0.004
}

fn wp(x: f64, y: f64, z: f64) -> Point3<WorldSpace> {
    Point3::new(fx(x), fx(y), fx(z))
}

fn wv(x: f64, y: f64, z: f64) -> Vec3<WorldSpace> {
    Vec3::new(fx(x), fx(y), fx(z))
}

fn seg_len(s: &LineSegment<WorldSpace>) -> f64 {
    let dx = to_f(s.p2.x - s.p1.x);
    let dy = to_f(s.p2.y - s.p1.y);
    let dz = to_f(s.p2.z - s.p1.z);
    (dx * dx + dy * dy + dz * dz).sqrt()
}

/// A row of spheres: the index must report exactly the nearest of the
/// shape-by-shape hits, and miss when every shape misses.
#[test]
fn bvh_matches_linear_scan() {
    let mut shapes: Vec<Shape> = Vec::new();
    for i in 0..10 {
        shapes.push(Shape::Ball(Sphere::new(wp(2.0 * i as f64, 0.0, 0.0), fx(0.5))));
    }
    let probes = [
        Ray::new(wp(-3.0, 0.0, 0.0), wv(1.0, 0.0, 0.0)),
        Ray::new(wp(7.0, 0.0, 0.0), wv(1.0, 0.0, 0.0)),
        Ray::new(wp(21.0, 0.0, 0.0), wv(-1.0, 0.0, 0.0)),
        Ray::normalize_new(wp(-3.0, -2.0, 0.0), wv(5.0, 2.0, 0.0)),
        Ray::new(wp(0.0, 3.0, 0.0), wv(1.0, 0.0, 0.0)),
    ];
    let scene = Scene::new(shapes.clone());
    for ray in probes.iter() {
        let mut best: Option<i64> = None;
        for s in shapes.iter() {
            if let Some(h) = s.hit_by(ray) {
                best = match best {
                    None => Some(h.dist_to),
                    Some(b) => {
                        if h.dist_to < b {
                            Some(h.dist_to)
                        } else {
                            Some(b)
                        }
                    },
                };
            }
        }
        let got = scene.intersects(*ray);
        match (got, best) {
            (None, None) => {},
            (Some(h), Some(b)) => assert_eq!(h.dist_to, b),
            _ => panic!("index and linear scan disagree"),
        }
    }
}

/// The nearest hit of the row from the left is the nearest face of the first
/// sphere.
#[test]
fn bvh_closest_hit_value() {
    let mut shapes: Vec<Shape> = Vec::new();
    for i in 0..10 {
        shapes.push(Shape::Ball(Sphere::new(wp(2.0 * i as f64, 0.0, 0.0), fx(0.5))));
    }
    let scene = Scene::new(shapes);
    let h = scene.intersects(Ray::new(wp(-3.0, 0.0, 0.0), wv(1.0, 0.0, 0.0))).unwrap();
    assert!(near(h.dist_to, 2.5));
    assert!(near(h.hit_point.x, -0.5));
}

/// A sphere between the viewer and the target occludes it; a point on a
/// sphere's own surface stays visible despite the self-hit.
#[test]
fn visibility_occlusion_and_self_hit() {
    let shapes = vec![
        Shape::Ball(Sphere::new(wp(0.0, 0.0, 0.0), fx(0.5))),
        Shape::Ball(Sphere::new(wp(2.0, 0.0, 0.0), fx(0.5))),
    ];
    let scene = Scene::new(shapes);
    let eye = wp(4.0, 0.0, 0.0);
    // The near face of the far sphere is visible.
    assert!(scene.visible(eye, wp(2.5, 0.0, 0.0)));
    // The near face of the near sphere hides behind the far sphere.
    assert!(!scene.visible(eye, wp(0.5, 0.0, 0.0)));
    // A point beside both spheres is visible.
    assert!(scene.visible(eye, wp(0.0, 2.0, 0.0)));
}

fn test_camera() -> Camera {
    Camera::look_at(wp(4.0, 3.0, 2.0), wv(0.0, 0.0, 0.0), wv(0.0, 0.0, 1.0)).perspective(
        fx(50.0),
        fx(1024.0),
        fx(1024.0),
        fx(0.1),
        fx(10.0),
    )
}

/// Chopping reproduces the segment exactly: the first chunk starts at its
/// start, consecutive chunks share endpoints, the last ends at its end, and
/// every chunk carries the tag.
#[test]
fn chop_round_trip() {
    let cam = test_camera();
    let seg = LineSegment::tagged(wp(0.0, 0.0, 0.0), wp(3.0, 1.0, 0.5), 7);
    let chunks = cam.chop_segment(&seg);
    assert!(chunks.len() > 1);
    let first = &chunks[0];
    assert_eq!((first.p1.x, first.p1.y, first.p1.z), (seg.p1.x, seg.p1.y, seg.p1.z));
    let last = &chunks[chunks.len() - 1];
    assert_eq!((last.p2.x, last.p2.y, last.p2.z), (seg.p2.x, seg.p2.y, seg.p2.z));
    for w in chunks.windows(2) {
        assert_eq!((w[0].p2.x, w[0].p2.y, w[0].p2.z), (w[1].p1.x, w[1].p1.y, w[1].p1.z));
    }
    for c in chunks.iter() {
        assert_eq!(c.tag, 7);
    }
}

/// A segment shorter than a pixel at its depth is culled outright.
#[test]
fn chop_culls_subpixel_segments() {
    let cam = test_camera();
    let seg = LineSegment::tagged(wp(0.0, 0.0, 0.0), wp(0.00001, 0.0, 0.0), 7);
    let chunks = cam.chop_segment(&seg);
    assert_eq!(chunks.len(), 0);
}

/// Simplifying merges a chopped segment back into one piece, total length
/// preserved; running it twice changes nothing further.
#[test]
fn simplify_merges_chunks_and_preserves_length() {
    let cam = test_camera();
    let seg = LineSegment::tagged(wp(0.0, 0.0, 0.0), wp(3.0, 0.0, 0.0), 7);
    let chunks = cam.chop_segment(&seg);
    assert!(chunks.len() > 1);
    let total_before: f64 = chunks.iter().map(seg_len).sum();
    let once = Paths::new(chunks).simplify(17);
    let total_once: f64 = once.lines.iter().map(seg_len).sum();
    assert_eq!(once.lines.len(), 1);
    assert!((total_before - total_once).abs() < 0.004);
    assert!((total_once - 3.0).abs() < 0.004);
    let again = Paths::new(once.lines.clone()).simplify(17);
    assert_eq!(again.lines.len(), once.lines.len());
    for (a, b) in again.lines.iter().zip(once.lines.iter()) {
        assert_eq!((a.p1.x, a.p1.y, a.p1.z, a.p2.x, a.p2.y, a.p2.z, a.tag), (
            b.p1.x,
            b.p1.y,
            b.p1.z,
            b.p2.x,
            b.p2.y,
            b.p2.z,
            b.tag,
        ));
    }
}

/// Collinear touching segments of different tags never merge.
#[test]
fn simplify_respects_tags() {
    let a = LineSegment::tagged(wp(0.0, 0.0, 0.0), wp(1.0, 0.0, 0.0), 1);
    let b = LineSegment::tagged(wp(1.0, 0.0, 0.0), wp(2.0, 0.0, 0.0), 2);
    let out = Paths::new(vec![a, b]).simplify(17);
    assert_eq!(out.lines.len(), 2);
    let c = LineSegment::tagged(wp(0.0, 0.0, 0.0), wp(1.0, 0.0, 0.0), 1);
    let d = LineSegment::tagged(wp(1.0, 0.0, 0.0), wp(2.0, 0.0, 0.0), 1);
    let merged = Paths::new(vec![c, d]).simplify(17);
    assert_eq!(merged.lines.len(), 1);
}

/// Applying two transforms one after the other agrees with applying their
/// composition.
#[test]
fn transform_composition() {
    let one = FX_ONE;
    // Scale by two.
    let a: Transform<WorldSpace, CanvasSpace> = Transform::new([
        2 * one,
        0,
        0,
        0,
        0,
        2 * one,
        0,
        0,
        0,
        0,
        2 * one,
        0,
        0,
        0,
        0,
        one,
    ]);
    // Translate by one unit along the first axis.
    let b: Transform<CanvasSpace, CameraSpace> = Transform::new([
        one,
        0,
        0,
        one,
        0,
        one,
        0,
        0,
        0,
        0,
        one,
        0,
        0,
        0,
        0,
        one,
    ]);
    let ba: Transform<WorldSpace, CameraSpace> = mat_compose(&b, &a);
    let p = wp(1.5, -2.0, 0.25);
    let q1 = a.transform_point(&p).unwrap();
    let q2 = b.transform_point(&q1).unwrap();
    let qc = ba.transform_point(&p).unwrap();
    assert_eq!((qc.x, qc.y, qc.z), (q2.x, q2.y, q2.z));
    assert!(near(qc.x, 4.0));
    assert!(near(qc.y, -4.0));
    assert!(near(qc.z, 0.5));
}

/// The cube render: edges near the hidden corner are occluded, edges near
/// the facing corner are visible, and the render produces segments carrying
/// the cube's tag.
#[test]
fn render_cube_smoke() {
    let cube = Shape::Prism(RectPrism::tagged(wv(0.0, 0.0, 0.0), wv(1.0, 1.0, 1.0), 1));
    let scene = Scene::new(vec![cube]);
    let cam = test_camera();
    let eye = wp(4.0, 3.0, 2.0);

    // The three edges meeting the hidden corner are occluded at their
    // midpoints.
    assert!(!scene.visible(eye, wp(0.5, 0.0, 0.0)));
    assert!(!scene.visible(eye, wp(0.0, 0.5, 0.0)));
    assert!(!scene.visible(eye, wp(0.0, 0.0, 0.5)));
    // The three edges meeting the facing corner are visible at their
    // midpoints.
    assert!(scene.visible(eye, wp(0.5, 1.0, 1.0)));
    assert!(scene.visible(eye, wp(1.0, 0.5, 1.0)));
    assert!(scene.visible(eye, wp(1.0, 1.0, 0.5)));

    let sc = scene.attach_camera(cam);
    // The diagnostic total counts every cached chunk.
    let total: usize = sc.paths.iter().map(|g| g.len()).sum();
    assert_eq!(sc.path_count, total);
    let out = sc.render();
    assert!(out.len() > 0);
    for s in out.iter() {
        assert_eq!(s.tag, 1);
        // Canvas coordinates of the cube land on the canvas.
        assert!(0.0 <= to_f(s.p1.x) && to_f(s.p1.x) <= 1024.0);
        assert!(0.0 <= to_f(s.p1.y) && to_f(s.p1.y) <= 1024.0);
    }
}

/// The fixed-step chopper also reproduces its segment end to end, and
/// joining collections concatenates them.
#[test]
fn paths_chop_and_join() {
    let a = LineSegment::tagged(wp(0.0, 0.0, 0.0), wp(2.0, 0.0, 0.0), 3);
    let b = LineSegment::tagged(wp(0.0, 1.0, 0.0), wp(0.0, 3.0, 0.0), 4);
    let mut pa = hidden_line::path::Paths::new(vec![a]);
    let pb = hidden_line::path::Paths::new(vec![b]);
    pa.join(pb);
    assert_eq!(pa.lines.len(), 2);
    let chopped = pa.chop(fx(0.75));
    // Two units in steps of three quarters: two full steps fit strictly
    // inside, then the remainder, so three chunks per segment.
    assert_eq!(chopped.lines.len(), 6);
    assert_eq!(
        (chopped.lines[0].p1.x, chopped.lines[0].p1.y),
        (a.p1.x, a.p1.y)
    );
    assert_eq!(
        (chopped.lines[2].p2.x, chopped.lines[2].p2.y),
        (a.p2.x, a.p2.y)
    );
    for w in chopped.lines[0..3].windows(2) {
        assert_eq!((w[0].p2.x, w[0].p2.y, w[0].p2.z), (w[1].p1.x, w[1].p1.y, w[1].p1.z));
    }
    assert_eq!(chopped.lines[0].tag, 3);
    assert_eq!(chopped.lines[5].tag, 4);
}

/// A segment behind the camera fails to project and is dropped; one in front
/// survives.
#[test]
fn projection_failure_drops_segment() {
    let one = FX_ONE;
    // The homogeneous weight is the third coordinate: positive ahead,
    // negative behind.
    let persp: Transform<WorldSpace, CameraSpace> = Transform::new([
        one,
        0,
        0,
        0,
        0,
        one,
        0,
        0,
        0,
        0,
        one,
        0,
        0,
        0,
        one,
        0,
    ]);
    let ahead = LineSegment::tagged(wp(1.0, 1.0, 2.0), wp(2.0, 1.0, 2.0), 1);
    let behind = LineSegment::tagged(wp(1.0, 1.0, -2.0), wp(2.0, 1.0, -2.0), 1);
    let out = hidden_line::path::Paths::new(vec![ahead, behind]).transform(&persp);
    assert_eq!(out.lines.len(), 1);
    assert!(near(out.lines[0].p1.x, 0.5));
    assert!(near(out.lines[0].p1.y, 0.5));
}

/// The perspective step sizes match the pixel size of the near and far
/// windows, and the looked-at center projects to the middle of the canvas.
#[test]
fn perspective_numbers() {
    let cam = test_camera();
    // Half the vertical field of view is 25 degrees; the window half-height
    // at a depth is that depth times its tangent.
    let tan_half = (25.0f64).to_radians().tan();
    let min_expect = 2.0 * 0.1 * tan_half / 1024.0;
    let max_expect = 2.0 * 10.0 * tan_half / 1024.0;
    assert!((to_f(cam.min_step_size) - min_expect).abs() < 1.0e-5);
    assert!((to_f(cam.max_step_size) - max_expect).abs() < 1.0e-4);

    let halfw = cam.width / 2;
    let halfh = cam.height / 2;
    let vp = hidden_line::camera::viewport(&cam.matrix, halfw, halfh);
    let center = vp.transform_point(&wp(0.0, 0.0, 0.0)).unwrap();
    assert!((to_f(center.x) - 512.0).abs() < 0.5);
    assert!((to_f(center.y) - 512.0).abs() < 0.5);
}

/// A prism made from a box spans the box.
#[test]
fn prism_from_box() {
    let bb = hidden_line::aabb::Aabb::new(wp(0.0, -1.0, 2.0), wp(1.0, 1.0, 3.0));
    let p = RectPrism::from(bb);
    assert_eq!((p.min.x, p.min.y, p.min.z), (fx(0.0), fx(-1.0), fx(2.0)));
    assert_eq!((p.max.x, p.max.y, p.max.z), (fx(1.0), fx(1.0), fx(3.0)));
    assert_eq!(p.tag, 0);
}

/// A scene with no shapes renders to nothing.
#[test]
fn render_empty_scene() {
    let scene = Scene::new(Vec::new());
    let cam = test_camera();
    let sc = scene.attach_camera(cam);
    let out = sc.render();
    assert_eq!(out.len(), 0);
}
