//! A software rendering pipeline on integers: triangles and lines are turned
//! into fragments, fragments are shaded by procedural colour rules, and the
//! colours are written into a pixel buffer under a depth test.
//!
//! Every quantity is an integer. Screen positions count 256ths of a pixel,
//! fractions (blend factors, light weights, field samples) count thousandths,
//! the homogeneous coordinate counts 65536ths, and depth is a signed integer
//! where smaller means closer. Division rounds toward minus infinity unless a
//! function says otherwise.
//!
//! What needs real numbers is left to the caller and arrives here as
//! integers: the matrix products of the vertex transform, and the noise and
//! the trigonometric patterns that the shading strategies read.

pub mod color;
pub mod fixed;
pub mod fragment;
pub mod framebuffer;
pub mod line;
pub mod render;
pub mod shaders;
pub mod triangle;
pub mod vertex;
