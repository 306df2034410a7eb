//! Scene and asset loading core: a spatial transform hierarchy with
//! name-based lookup, a cursor-based decoder for a nested binary chunk
//! container, a mesh grammar with strict attribute/stride validation, a
//! resource cache with at-most-one-load-per-key discipline, and the scene
//! assembler tying them together.
//!
//! Scalar-valued data (positions, rotations, colors) is carried generically:
//! the embedding renderer instantiates the scalar type and performs the
//! floating-point transform and projection arithmetic itself, as it does
//! the GPU work (buffer upload, program linking, batch construction) on
//! the plain decoded data this core hands it.
pub mod cache;
pub mod chunk;
pub mod mat;
pub mod mesh;
pub mod reflect;
pub mod scene;
pub mod space;

pub use space::Id;
pub use space::Parent;
pub use space::World;
