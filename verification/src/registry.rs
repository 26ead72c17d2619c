//! The identity registry: the arena that owns every vertex point and every
//! edge record.
//!
//! Entities are addressed by stable integer handles into this registry, so
//! identity equality is handle equality and is independent of content.
//! Because payloads live here and handles merely point at them, mutating a
//! vertex's point or an edge's curve is visible through every composite that
//! references the entity — aliasing is a feature, not an accident.

use vstd::prelude::*;

verus! {

/// The stored, un-oriented record of one edge: its two endpoint vertex
/// identities and its curve payload.
#[derive(Clone, Copy, Debug, PartialEq, Eq, Structural)]
pub struct EdgeRecord {
    /// Identity of the vertex the stored (forward) orientation starts at.
    pub front: usize,
    /// Identity of the vertex the stored (forward) orientation ends at.
    pub back: usize,
    /// Opaque curve payload.
    pub curve: u64,
}

/// The arena of all entity payloads. A vertex identity `v` is valid when
/// `v < points.len()`; an edge identity `e` when `e < edges.len()`.
#[derive(Clone, Debug)]
pub struct Registry {
    /// Point payload of each vertex, indexed by vertex identity.
    pub points: Vec<u64>,
    /// Record of each edge, indexed by edge identity.
    pub edges: Vec<EdgeRecord>,
}

impl Registry {
    /// Every edge record refers only to vertex identities that exist.
    pub open spec fn wf(self) -> bool {
        forall|e: int|
            0 <= e < self.edges@.len() ==> (#[trigger] self.edges@[e]).front
                < self.points@.len() && self.edges@[e].back < self.points@.len()
    }

    /// A fresh, empty registry. Identity allocation is explicit and scoped to
    /// the registry, so tests and callers get reproducible identities.
    pub fn new() -> (r: Registry)
        ensures
            r.points@.len() == 0,
            r.edges@.len() == 0,
            r.wf(),
    {
        Registry { points: Vec::new(), edges: Vec::new() }
    }

    /// The point payload of vertex identity `v`.
    pub fn point_at(&self, v: usize) -> (r: u64)
        requires
            v < self.points@.len(),
        ensures
            r == self.points@[v as int],
    {
        self.points[v]
    }

    /// The stored record of edge identity `e`.
    pub fn edge_at(&self, e: usize) -> (r: EdgeRecord)
        requires
            e < self.edges@.len(),
        ensures
            r == self.edges@[e as int],
    {
        self.edges[e]
    }

    /// Overwrite the point of vertex identity `v`. The change is visible
    /// through every edge and composite that shares the vertex.
    pub fn set_point(&mut self, v: usize, point: u64)
        requires
            v < old(self).points@.len(),
        ensures
            final(self).points@ == old(self).points@.update(v as int, point),
            final(self).edges@ == old(self).edges@,
            old(self).wf() ==> final(self).wf(),
    {
        self.points.set(v, point);
    }

    /// Overwrite the curve of edge identity `e`, keeping its endpoints. The
    /// change is visible through every wire and face that shares the edge.
    pub fn set_curve(&mut self, e: usize, curve: u64)
        requires
            e < old(self).edges@.len(),
        ensures
            final(self).points@ == old(self).points@,
            final(self).edges@.len() == old(self).edges@.len(),
            final(self).edges@[e as int] == (EdgeRecord {
                curve,
                ..old(self).edges@[e as int]
            }),
            forall|k: int|
                0 <= k < old(self).edges@.len() && k != e ==> final(self).edges@[k] == old(
                    self,
                ).edges@[k],
            old(self).wf() ==> final(self).wf(),
    {
        let rec = self.edges[e];
        self.edges.set(e, EdgeRecord { front: rec.front, back: rec.back, curve });
    }
}

} // verus!
