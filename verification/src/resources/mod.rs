//! Runtime representations of meshes.

pub mod mesh;
