//! Faces: one outer boundary wire plus zero or more hole wires, a surface
//! payload, and an orientation flag.

use vstd::prelude::*;

use crate::error::TopologyError;
use crate::registry::Registry;
use crate::wire::{chained, closed_chain, edges_valid, Wire};

verus! {

/// A face. `boundaries[0]` is the outer wire; the rest are holes. The
/// orientation flag says whether the surface's natural normal and the
/// boundary's natural winding agree; flipping it reverses the observed
/// traversal direction of every boundary edge.
#[derive(Clone, Debug)]
pub struct Face {
    /// Outer wire first, then the hole wires.
    pub boundaries: Vec<Wire>,
    /// True when the stored winding is the observed winding.
    pub orientation: bool,
    /// Opaque surface payload.
    pub surface: u64,
}

impl Face {
    /// The face has an outer wire and every boundary wire is a valid closed
    /// loop in `reg`.
    pub open spec fn wf(self, reg: Registry) -> bool {
        &&& self.boundaries@.len() >= 1
        &&& forall|j: int|
            0 <= j < self.boundaries@.len() ==> (#[trigger] self.boundaries@[j]).wf(reg)
                && closed_chain(reg, self.boundaries@[j].edges@)
    }

    /// Build a face from an outer wire, hole wires and a surface payload.
    /// Fails with `UnclosedBoundary` unless every wire is closed; on success
    /// the face holds the outer wire first, then the holes in order, with
    /// the forward orientation.
    pub fn new(reg: &Registry, outer: Wire, holes: Vec<Wire>, surface: u64) -> (r: Result<
        Face,
        TopologyError,
    >)
        requires
            outer.wf(*reg),
            forall|j: int| 0 <= j < holes@.len() ==> (#[trigger] holes@[j]).wf(*reg),
        ensures
            match r {
                Ok(f) => {
                    &&& closed_chain(*reg, outer.edges@)
                    &&& forall|j: int|
                        0 <= j < holes@.len() ==> closed_chain(
                            *reg,
                            (#[trigger] holes@[j]).edges@,
                        )
                    &&& f.boundaries@.len() == 1 + holes@.len()
                    &&& f.boundaries@[0] == outer
                    &&& forall|j: int| 0 <= j < holes@.len() ==> f.boundaries@[j + 1] == holes@[j]
                    &&& f.orientation == true
                    &&& f.surface == surface
                    &&& f.wf(*reg)
                },
                Err(e) => {
                    &&& e == TopologyError::UnclosedBoundary
                    &&& !(closed_chain(*reg, outer.edges@) && (forall|j: int|
                        0 <= j < holes@.len() ==> closed_chain(
                            *reg,
                            (#[trigger] holes@[j]).edges@,
                        )))
                },
            },
    {
        if !outer.is_closed(reg) {
            return Err(TopologyError::UnclosedBoundary);
        }
        let mut i: usize = 0;
        while i < holes.len()
            invariant
                i <= holes@.len(),
                forall|j: int| 0 <= j < holes@.len() ==> (#[trigger] holes@[j]).wf(*reg),
                forall|j: int|
                    0 <= j < i ==> closed_chain(*reg, (#[trigger] holes@[j]).edges@),
            decreases holes@.len() - i,
        {
            if !holes[i].is_closed(reg) {
                return Err(TopologyError::UnclosedBoundary);
            }
            i += 1;
        }
        let ghost holes_seq = holes@;
        let mut boundaries: Vec<Wire> = Vec::new();
        boundaries.push(outer);
        let mut rest = holes;
        while rest.len() > 0
            invariant
                boundaries@.len() + rest@.len() == 1 + holes_seq.len(),
                boundaries@.len() >= 1,
                boundaries@[0] == outer,
                forall|j: int|
                    0 <= j < boundaries@.len() - 1 ==> boundaries@[j + 1] == holes_seq[j],
                forall|j: int|
                    0 <= j < rest@.len() ==> rest@[j] == holes_seq[boundaries@.len() - 1 + j],
            decreases rest@.len(),
        {
            let w = rest.remove(0);
            boundaries.push(w);
        }
        let f = Face { boundaries, orientation: true, surface };
        proof {
            assert forall|j: int| 0 <= j < f.boundaries@.len() implies (
            #[trigger] f.boundaries@[j]).wf(*reg) && closed_chain(
                *reg,
                f.boundaries@[j].edges@,
            ) by {
                if j > 0 {
                    assert(f.boundaries@[j] == holes_seq[j - 1]);
                }
            }
        }
        Ok(f)
    }

    /// The opposite-orientation view of the same face: the flag flips, the
    /// wires' own data is untouched.
    pub fn inverse(self) -> (r: Face)
        ensures
            r.boundaries == self.boundaries,
            r.orientation == !self.orientation,
            r.surface == self.surface,
    {
        Face { boundaries: self.boundaries, orientation: !self.orientation, surface: self.surface }
    }

    /// The number of boundary wires (outer plus holes).
    pub fn boundary_count(&self) -> (r: usize)
        ensures
            r == self.boundaries@.len(),
    {
        self.boundaries.len()
    }

    /// The boundary wire at position `j` (0 is the outer wire), as observed
    /// under the face's orientation: stored when the flag is set, inverted
    /// otherwise.
    pub fn oriented_boundary(&self, j: usize) -> (r: Wire)
        requires
            j < self.boundaries@.len(),
        ensures
            self.orientation ==> r.edges@ == self.boundaries@[j as int].edges@,
            !self.orientation ==> {
                let w = self.boundaries@[j as int].edges@;
                r.edges@.len() == w.len() && (forall|i: int|
                    0 <= i < w.len() ==> r.edges@[i] == w[w.len() - 1 - i].spec_inverse())
            },
    {
        if self.orientation {
            self.boundaries[j].duplicate()
        } else {
            self.boundaries[j].inverse()
        }
    }
}

} // verus!
