//! Plane-sweep boolean operations on polygonal regions: the verified core.
//!
//! Regions are multi-polygons over bounded integer coordinates, so every
//! orientation test and area is computed exactly. The modules cover the
//! comparator helpers, input validation, the coordinate and bounding-box
//! model, the sweep-event model with its total event ordering, the
//! crossing-case analysis between segments, the inside/outside
//! classification and retention rules, ring orientation and hole nesting
//! support, and the trivial-case evaluation of the set operations (empty
//! operands and disjoint bounding boxes). Floating-point input is expected
//! to be quantized onto the integer grid before it reaches the core.

pub mod bbox;
pub mod classify;
pub mod connector;
pub mod geometry;
pub mod helper;
pub mod intersector;
pub mod ops;
pub mod sweep_event;
pub mod validate;
