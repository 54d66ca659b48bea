//! Topological primitives: what the library decodes from OCCT about edges
//! and faces.
pub mod edge;
pub mod face;
