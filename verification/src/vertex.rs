//! Vertices: leaf entities, each owning one shared point payload.

use vstd::prelude::*;

use crate::registry::Registry;

verus! {

/// A handle to a vertex in a registry. Cloning the handle shares the
/// identity; only `Vertex::new` mints a fresh one.
#[derive(Clone, Copy, Debug, PartialEq, Eq, Structural)]
pub struct Vertex {
    /// The identity: an index into the registry's point arena.
    pub id: usize,
}

impl Vertex {
    /// The handle refers to a vertex that exists in `reg`.
    pub open spec fn valid(self, reg: Registry) -> bool {
        self.id < reg.points@.len()
    }

    /// Create a vertex with a fresh identity owning `point`.
    pub fn new(reg: &mut Registry, point: u64) -> (r: Vertex)
        ensures
            r.id == old(reg).points@.len(),
            r.valid(*final(reg)),
            final(reg).points@ == old(reg).points@.push(point),
            final(reg).edges@ == old(reg).edges@,
            old(reg).wf() ==> final(reg).wf(),
    {
        let id = reg.points.len();
        reg.points.push(point);
        Vertex { id }
    }

    /// Identity equality: the same underlying vertex, however reached.
    pub fn is_same(&self, other: &Vertex) -> (r: bool)
        ensures
            r == (self.id == other.id),
    {
        self.id == other.id
    }

    /// The point payload, read through the shared registry.
    pub fn point(&self, reg: &Registry) -> (r: u64)
        requires
            self.valid(*reg),
        ensures
            r == reg.points@[self.id as int],
    {
        reg.point_at(self.id)
    }
}

} // verus!
