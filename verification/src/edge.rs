//! Edges: directed references to two vertices plus a curve payload.
//!
//! An edge handle carries an orientation bit. `inverse` flips the bit and
//! keeps the identity, so the same underlying edge data can be traversed
//! forward or reversed without duplication and without a fresh identity.

use vstd::prelude::*;

use crate::registry::{EdgeRecord, Registry};
use crate::vertex::Vertex;

verus! {

/// A handle to an edge in a registry, together with the direction in which
/// this handle traverses it.
#[derive(Clone, Copy, Debug, PartialEq, Eq, Structural)]
pub struct Edge {
    /// The identity: an index into the registry's edge arena.
    pub id: usize,
    /// True when the handle traverses the stored record front-to-back.
    pub orientation: bool,
}

impl Edge {
    /// The handle refers to an edge that exists in `reg`.
    pub open spec fn valid(self, reg: Registry) -> bool {
        self.id < reg.edges@.len()
    }

    /// The stored record this handle points at.
    pub open spec fn rec(self, reg: Registry) -> EdgeRecord {
        reg.edges@[self.id as int]
    }

    /// Identity of the vertex this handle starts at, as oriented.
    pub open spec fn spec_src(self, reg: Registry) -> usize {
        if self.orientation {
            self.rec(reg).front
        } else {
            self.rec(reg).back
        }
    }

    /// Identity of the vertex this handle ends at, as oriented.
    pub open spec fn spec_dst(self, reg: Registry) -> usize {
        if self.orientation {
            self.rec(reg).back
        } else {
            self.rec(reg).front
        }
    }

    /// The same handle with the traversal direction flipped; the identity is
    /// untouched.
    pub open spec fn spec_inverse(self) -> Edge {
        Edge { id: self.id, orientation: !self.orientation }
    }

    /// Create an edge with a fresh identity from `front` to `back` owning
    /// `curve`. Construction never fails; `front == back` (a loop edge) is
    /// permitted.
    pub fn new(reg: &mut Registry, front: Vertex, back: Vertex, curve: u64) -> (r: Edge)
        requires
            front.valid(*old(reg)),
            back.valid(*old(reg)),
        ensures
            r.id == old(reg).edges@.len(),
            r.orientation,
            r.valid(*final(reg)),
            final(reg).points@ == old(reg).points@,
            final(reg).edges@ == old(reg).edges@.push(
                EdgeRecord { front: front.id, back: back.id, curve },
            ),
            old(reg).wf() ==> final(reg).wf(),
    {
        let id = reg.edges.len();
        reg.edges.push(EdgeRecord { front: front.id, back: back.id, curve });
        Edge { id, orientation: true }
    }

    /// The opposite-orientation view of the same edge: O(1), no copy, no new
    /// identity.
    pub fn inverse(&self) -> (r: Edge)
        ensures
            r == self.spec_inverse(),
    {
        Edge { id: self.id, orientation: !self.orientation }
    }

    /// Identity equality: the same underlying edge, in either orientation.
    pub fn is_same(&self, other: &Edge) -> (r: bool)
        ensures
            r == (self.id == other.id),
    {
        self.id == other.id
    }

    /// Oriented equality: the same underlying edge, traversed the same way.
    pub fn oriented_eq(&self, other: &Edge) -> (r: bool)
        ensures
            r == (self.id == other.id && self.orientation == other.orientation),
    {
        self.id == other.id && self.orientation == other.orientation
    }

    /// The vertex this handle starts at, as oriented.
    pub fn front(&self, reg: &Registry) -> (r: Vertex)
        requires
            self.valid(*reg),
        ensures
            r.id == self.spec_src(*reg),
            reg.wf() ==> r.valid(*reg),
    {
        let rec = reg.edge_at(self.id);
        if self.orientation {
            Vertex { id: rec.front }
        } else {
            Vertex { id: rec.back }
        }
    }

    /// The vertex this handle ends at, as oriented.
    pub fn back(&self, reg: &Registry) -> (r: Vertex)
        requires
            self.valid(*reg),
        ensures
            r.id == self.spec_dst(*reg),
            reg.wf() ==> r.valid(*reg),
    {
        let rec = reg.edge_at(self.id);
        if self.orientation {
            Vertex { id: rec.back }
        } else {
            Vertex { id: rec.front }
        }
    }

    /// The curve payload, read through the shared registry.
    pub fn curve(&self, reg: &Registry) -> (r: u64)
        requires
            self.valid(*reg),
        ensures
            r == self.rec(*reg).curve,
    {
        reg.edge_at(self.id).curve
    }
}

/// Taking the inverse twice is the identity: the round trip is identity-equal
/// and orientation-equal to the original handle.
pub proof fn lemma_edge_inverse_involution(e: Edge)
    ensures
        e.spec_inverse().spec_inverse() == e,
        e.spec_inverse().id == e.id,
        e.spec_inverse().orientation != e.orientation,
{
}

} // verus!
