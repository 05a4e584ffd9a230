//! Loading of binary scene containers into a typed scene model, the draw
//! plan that a frame issues for such a model, and an arena node tree.

pub mod container;
pub mod json;
pub mod loader;
pub mod render;
pub mod scene;
pub mod tree;
