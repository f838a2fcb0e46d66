//! A small ray tracer: a scene-description parser, a typed scene builder,
//! ray/primitive intersection, and a diffuse shading engine.
//!
//! All real-valued arithmetic is carried out in a fixed-point type with an
//! exact integer semantics, so that every stage of the pipeline can be
//! specified and verified precisely.

pub mod color;
pub mod error;
pub mod fixed;
pub mod objects;
pub mod scene;
pub mod sdl;
pub mod vec3;
