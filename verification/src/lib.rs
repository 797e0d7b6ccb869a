//! A pattern-drafting and cloth-simulation library.
//!
//! A 2D vector pattern (line segments flagged as pinned, rigid, or seam-linked)
//! is rasterized into a 3D mass-spring particle network, which is then evolved
//! under gravity, spring forces and damping into a sagged-cloth shape.
//!
//! All real-valued quantities are carried as [`fixed::Fx`] fixed-point scalars,
//! so every routine here has an exact arithmetic meaning that the proofs speak
//! about.

pub mod fixed;
pub mod geom;
pub mod drafting;
pub mod cloth;
pub mod raster;
pub mod sections;
pub mod linker;
pub mod step;
pub mod quads;
pub mod render;
pub mod parse;
pub mod session;
