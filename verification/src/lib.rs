//! Voxel world core: a dense 3D grid of voxels, its derived binary
//! occupancy field, a line-oriented world-file parser, and the exact
//! CPU-to-GPU byte-layout conversion used by the ray-marching shader.
//!
//! The rendering backend (window, GL context, shaders) is an external
//! collaborator; this crate owns the data model and its invariants.

pub mod loader;
pub mod march;
pub mod types;
pub mod uniforms;
pub mod world;

pub use march::DenseBinaryCartesianSDF;
pub use types::{Color, Dimension2, Dimension3, GPUFormat, OutOfBounds, ParseError, ParseReason};
pub use uniforms::TextureDescriptor;
pub use world::{DenseGrid, Space, Voxel};
