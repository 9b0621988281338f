//! A CPU-only rasterizer for a simple orbital scene: a central light-emitting
//! body and several bodies on circular paths, drawn into a packed-RGB
//! framebuffer through a pannable, zoomable orthographic camera.
//!
//! All geometry and shading run on fixed-point integers: linear quantities
//! (screen positions, radii, intensities) carry a scale of 1000 units per
//! pixel or per unit intensity, and angles are binary angular measure with
//! 65536 units to a full turn. Every drawing routine carries a contract that
//! pins the exact contents of the framebuffer it produces.

pub mod camera;
pub mod color;
pub mod math;
pub mod orbit;
pub mod planet;
pub mod renderer;
pub mod ring;
pub mod scene;
pub mod ship;
pub mod sphere;
pub mod starfield;
