//! Verified core of a node/edge graph editor for organizing references on a
//! pannable, zoomable 2D canvas: the graph data model, the viewport transform,
//! geometric hit-testing, the selection model, and the pointer interaction
//! state machine, together with a self-contained serialization of the graph.
//!
//! Coordinates are fixed-point: positions and screen offsets are measured in
//! thousandths of a canvas unit (`geom::UNIT` per unit), so that all geometry
//! is exact integer arithmetic.

pub mod annotation;
pub mod codec;
pub mod edit;
pub mod geom;
pub mod hit;
pub mod interact;
pub mod map;
pub mod metadata;
pub mod theme;
pub mod viewport;
