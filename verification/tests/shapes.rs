//! Ray hit tests for each primitive shape, checked against exact scenario
//! values at the fixed-point scale.

use hidden_line::ray::Ray;
use hidden_line::shapes::Plane;
use hidden_line::shapes::RectPrism;
use hidden_line::shapes::Sphere;
use hidden_line::shapes::Triangle;
use hidden_line::vec3::Point3;
use hidden_line::vec3::Vec3;
use hidden_line::WorldSpace;

fn fx(v: f64) -> i64 {
    (v * 16777216.0).round() as i64
}

fn to_f(v: i64) -> f64 {
    v as f64 / 16777216.0
}

fn near(a: i64, b: f64) -> bool {
    (to_f(a) - b).abs() < 0.004
}

fn wp(x: f64, y: f64, z: f64) -> Point3<WorldSpace> {
    Point3::new(fx(x), fx(y), fx(z))
}

fn wv(x: f64, y: f64, z: f64) -> Vec3<WorldSpace> {
    Vec3::new(fx(x), fx(y), fx(z))
}

#[test]
fn test_rectp_hit_by() {
    let prism1 = RectPrism::new(wv(0.0, 0.0, 0.0), wv(1.0, 1.0, 1.0));

    let ray1 = Ray::new(wp(-1.0, 0.5, 0.5), wv(1.0, 0.0, 0.0));

    let d2 = wv(1.0, 0.0, 1.0).minus(&wv(-5.0, 10.0, -6.0));
    let ray2 = Ray::normalize_new(wp(-5.0, 10.0, -6.0), d2);

    let h1 = prism1.hit_by(&ray1).unwrap();
    assert!(near(h1.hit_point.x, 0.0));
    assert!(near(h1.hit_point.y, 0.5));
    assert!(near(h1.hit_point.z, 0.5));
    assert!(near(h1.dist_to, 1.0));

    let h2 = prism1.hit_by(&ray2).unwrap();
    assert!(near(h2.hit_point.x, 0.39999999999999947));
    assert!(near(h2.hit_point.y, 1.0));
    assert!(near(h2.hit_point.z, 0.29999999999999893));
    assert!(near(h2.dist_to, 12.241323457861899));
}

#[test]
fn test_tri_hit_by() {
    let tri1 = Triangle::new(wp(0.0, 0.0, 0.0), wp(2.0, 0.0, 0.0), wp(0.0, 2.0, 0.0));

    // hits tri1
    let ray1 = Ray::normalize_new(wp(0.25, 0.25, -2.0), wv(0.0, 0.0, 1.0));
    // does not hit tri1
    let ray2 = Ray::normalize_new(wp(0.1, 2.0, -2.0), wv(0.0, 0.0, 1.0));
    // does not hit tri1: the corner itself is a boundary
    let ray3 = Ray::normalize_new(wp(0.0, 0.0, -2.0), wv(0.0, 0.0, 1.0));
    // hits tri1
    let ray4 = Ray::normalize_new(wp(0.1, 0.01, -2.0), wv(0.0, 0.0, 1.0));

    let h1 = tri1.hit_by(&ray1).unwrap();
    assert!(near(h1.hit_point.x, 0.25));
    assert!(near(h1.hit_point.y, 0.25));
    assert!(near(h1.hit_point.z, 0.0));
    assert!(near(h1.dist_to, 2.0));

    assert!(tri1.hit_by(&ray2).is_none());
    assert!(tri1.hit_by(&ray3).is_none());

    let h4 = tri1.hit_by(&ray4).unwrap();
    assert!(near(h4.hit_point.x, 0.1));
    assert!(near(h4.hit_point.y, 0.01));
    assert!(near(h4.hit_point.z, 0.0));
    assert!(near(h4.dist_to, 2.0));
}

#[test]
fn plane_test_hit_by() {
    let plane1 = Plane::new(wp(1.0, 0.0, 0.0), wv(-1.0, 0.0, 0.0));

    let h1 = plane1.hit_by(&Ray::new(wp(0.0, 0.0, 0.0), wv(1.0, 0.0, 0.0))).unwrap();
    assert!(near(h1.hit_point.x, 1.0));
    assert!(near(h1.hit_point.y, 0.0));
    assert!(near(h1.hit_point.z, 0.0));
    assert!(near(h1.dist_to, 1.0));

    let h2 = plane1.hit_by(&Ray::normalize_new(wp(0.0, 1.0, 0.0), wv(1.0, -1.0, 0.0))).unwrap();
    assert!(near(h2.hit_point.x, 1.0));
    assert!(near(h2.hit_point.y, 0.0));
    assert!(near(h2.hit_point.z, 0.0));
    assert!(near(h2.dist_to, std::f64::consts::SQRT_2));

    assert!(plane1.hit_by(&Ray::new(wp(0.0, 0.0, 0.0), wv(-1.0, 0.0, 0.0))).is_none());

    assert!(plane1.hit_by(&Ray::new(wp(1.1, 0.0, 0.0), wv(1.0, 0.0, 0.0))).is_none());

    assert!(plane1.hit_by(&Ray::normalize_new(wp(0.0, 0.0, 0.0), wv(-1.0, 1.0, 0.0))).is_none());
}

#[test]
fn sphere_test_hit_by() {
    let sphere1 = Sphere::new(wp(1.0, 0.0, 0.0), fx(0.5));

    let h1 = sphere1.hit_by(&Ray::new(wp(0.0, 0.0, 0.0), wv(1.0, 0.0, 0.0))).unwrap();
    assert!(near(h1.hit_point.x, 0.5));
    assert!(near(h1.hit_point.y, 0.0));
    assert!(near(h1.hit_point.z, 0.0));
    assert!(near(h1.dist_to, 0.5));

    assert!(sphere1.hit_by(&Ray::new(wp(0.0, 0.0, 0.0), wv(-1.0, 0.0, 0.0))).is_none());

    assert!(sphere1.hit_by(&Ray::new(wp(0.0, 0.5, 0.0), wv(1.0, 0.0, 0.0))).is_none());

    let sphere2 = Sphere::new(wp(1.0, 1.0, 0.0), fx(0.5));
    let h2 = sphere2.hit_by(&Ray::new(wp(0.0, 1.0, 0.0), wv(1.0, 0.0, 0.0))).unwrap();
    assert!(near(h2.hit_point.x, 0.5));
    assert!(near(h2.hit_point.y, 1.0));
    assert!(near(h2.hit_point.z, 0.0));
    assert!(near(h2.dist_to, 0.5));

    let sphere3 = Sphere::new(wp(0.0, 0.0, 0.0), fx(1.0));
    let h3 = sphere3.hit_by(&Ray::new(wp(0.0, 0.0, 0.0), wv(1.0, 0.0, 0.0))).unwrap();
    assert!(near(h3.hit_point.x, 1.0));
    assert!(near(h3.dist_to, 1.0));

    let h4 = sphere3.hit_by(&Ray::new(wp(0.0, 0.0, 0.0), wv(-1.0, 0.0, 0.0))).unwrap();
    assert!(near(h4.hit_point.x, -1.0));
    assert!(near(h4.dist_to, 1.0));
}
