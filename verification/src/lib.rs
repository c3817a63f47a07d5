//! A 2D sprite-animation and collision engine core.
//!
//! The library simulates a population of sprite-sheet-driven entities on a
//! plane: it advances per-entity frame animation, detects overlaps between
//! entity bounding boxes, and resolves physical overlap via positional
//! push-back, all driven by a fixed per-tick orchestration loop with
//! deferred application of push-backs.
//!
//! All coordinates, durations, masses and speeds are integers; the caller
//! chooses the unit scale (for example millipixels and milliseconds).

pub mod animate;
pub mod animation;
pub mod collision;
pub mod entity;
pub mod physical;
pub mod resolve;
pub mod scene;
pub mod geom;
