//! Core logic of a small real-time renderer: the declarative resource
//! description, the pipeline build plan derived from it, keyframe sampling
//! and animation assembly, entity-tree traversal, material bindings,
//! per-frame decisions and input state.

pub mod registry;
pub mod config;
pub mod vertex;
pub mod bindgroup;
pub mod pipeline;
pub mod animation;
pub mod assemble;
pub mod scene;
pub mod material;
pub mod bytes;
pub mod frame;
pub mod controller;
pub mod module;
