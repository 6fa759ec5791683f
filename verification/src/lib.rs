//! The core of a real-time renderer: registries of GPU resources behind
//! generation-checked handles, a scene graph, materials with cached
//! shaders, and the engine that turns a scene into the calls that draw it.
//!
//! The crate computes and never touches a graphics context. A frame is a
//! list of commands; transforms are composed by whoever holds the
//! matrices, in the order that the scene gives.

pub mod arena;
pub mod gltf_util;
pub mod handle;
pub mod import;
pub mod material;
pub mod renderer;
pub mod scene;
pub mod scene_laws;
pub mod shader;
