//! A software 3D renderer with verified geometry and rasterization.
//!
//! A mesh is loaded from OBJ-subset text, carried through a fixed-point
//! model-view-projection pipeline, flat-shaded per face and rasterized —
//! as wireframe edges or depth-tested solid triangles — into a pixel sink.
//! Coordinates are fixed-point integers throughout, so every arithmetic
//! step has an exact contract; file parsing, line and triangle drawing and
//! the whole per-frame fold are pinned to spec-level mirrors.

pub mod animation;
pub mod cli;
pub mod drawing;
pub mod drawing_target;
pub mod fixed;
pub mod matrix;
pub mod model;
pub mod point;
pub mod render;
pub mod zbuffer;
