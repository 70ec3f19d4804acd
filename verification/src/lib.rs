//! Light-tightness analysis for voxel structures.
//!
//! A structure is a bounded grid of typed blocks. Starting from one origin
//! block, a signal spreads from block to face-adjacent block wherever the
//! sub-block geometry of the two blocks leaves a gap. The library computes
//! which blocks the signal enters and which it merely touches, removes the
//! blocks it never touches, and traces the path of a leak into a position
//! that was meant to stay dark.

pub mod block;
pub mod bounds;
pub mod cache;
pub mod catalog;
pub mod commands;
pub mod direction;
pub mod error;
pub mod laws;
pub mod materials;
pub mod output;
pub mod palette;
pub mod predicates;
pub mod region;
pub mod scene;
pub mod shape;
pub mod text;
pub mod tracker;
pub mod traversal;
pub mod vec3;
