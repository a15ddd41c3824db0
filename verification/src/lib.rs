//! A software triangle rasterizer: fixed-point coordinate transforms,
//! backface culling, per-face shading, depth-buffered scanline fill and
//! Bresenham wireframe lines over an in-memory framebuffer.
//!
//! All geometry is carried in a fixed-point representation (16 fractional
//! bits, see [`fixed::FP_ONE`]); the depth policy is a per-pixel z-buffer.
//!
//! - [`color`], [`geometry`]: the plain value types (8-bit RGB color,
//!   fixed-point 3-vector).
//! - [`fixed`]: flooring division and the arithmetic lemmas the
//!   interpolation proofs rest on.
//! - [`framebuffer`]: the color and depth planes, with clearing,
//!   bounds-checked and depth-tested pixel writes.
//! - [`raster`]: the scanline triangle fill and the Bresenham line walk,
//!   each with an exact per-pixel contract.
//! - [`transform`]: rotation about X then Y (angles as sine/cosine
//!   pairs), recentering, uniform scaling and the screen mapping.
//! - [`shading`]: face normals, the backface cull test, lighting
//!   intensity, and the color policies.
//! - [`pipeline`]: the mesh model and the whole per-frame pass, fill and
//!   wireframe.

pub mod color;
pub mod fixed;
pub mod framebuffer;
pub mod geometry;
pub mod pipeline;
pub mod raster;
pub mod shading;
pub mod transform;
