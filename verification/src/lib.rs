//! A boundary-representation (B-rep) solid-modeling kernel.
//!
//! Shapes are layered topological graphs — Vertex, Edge, Wire, Face, Shell,
//! Solid — over opaque geometric payloads held in a shared registry. Every
//! composition step validates the topological consistency rules (wire
//! chaining and closure, manifold edge sharing, shell connectivity), and a
//! structure-preserving codec turns a shape into a compact archive and back
//! without duplicating or losing shared sub-entities.

pub mod codec;
pub mod edge;
pub mod error;
pub mod face;
pub mod laws;
pub mod registry;
pub mod shape;
pub mod shell;
pub mod solid;
pub mod vertex;
pub mod wire;

use vstd::prelude::*;

verus! {

} // verus!
