//! Hidden-line renderer core: a scene of primitive shapes, a BVH over their
//! bounding boxes, a perspective camera, and a render pipeline that keeps only
//! the visible portions of each shape's edge lines.
//!
//! All geometry is carried in signed 64-bit fixed-point numbers with 24
//! fractional bits (see the `fx` module), so every computation here is exact
//! integer arithmetic with stated rounding.

use vstd::prelude::*;

pub mod aabb;
pub mod bvh;
pub mod camera;
pub mod fx;
pub mod mat4;
pub mod path;
pub mod ray;
pub mod scene;
pub mod segment;
pub mod shapes;
pub mod vec3;

pub use camera::Camera;
pub use camera::LookingCamera;
pub use ray::HitData;
pub use ray::Ray;
pub use scene::Scene;
pub use scene::SceneCamera;

verus! {

/// Marker for world-space coordinates.
#[derive(Clone, Copy)]
pub struct WorldSpace;

/// Marker for camera-space coordinates.
#[derive(Clone, Copy)]
pub struct CameraSpace;

/// Marker for canvas (pixel) coordinates.
#[derive(Clone, Copy)]
pub struct CanvasSpace;

} // verus!
