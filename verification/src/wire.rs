//! Wires: ordered sequences of oriented edge references forming a boundary
//! loop or an open chain.

use vstd::prelude::*;

use crate::edge::Edge;
use crate::error::TopologyError;
use crate::registry::Registry;

verus! {

/// Every handle in `s` refers to an edge that exists in `reg`.
pub open spec fn edges_valid(reg: Registry, s: Seq<Edge>) -> bool {
    forall|i: int| 0 <= i < s.len() ==> (#[trigger] s[i]).valid(reg)
}

/// Endpoint continuity: each consecutive pair of oriented edges shares an
/// endpoint — the oriented back of one is the oriented front of the next.
pub open spec fn chained(reg: Registry, s: Seq<Edge>) -> bool {
    forall|i: int|
        0 <= i && i + 1 < s.len() ==> (#[trigger] s[i]).spec_dst(reg) == s[i + 1].spec_src(reg)
}

/// The chain returns to its start: non-empty, and the oriented front of the
/// first edge is the oriented back of the last.
pub open spec fn closed_chain(reg: Registry, s: Seq<Edge>) -> bool {
    s.len() > 0 && s[0].spec_src(reg) == s[s.len() - 1].spec_dst(reg)
}

/// An ordered sequence of oriented edge handles. The validating constructor
/// guarantees endpoint continuity; iteration order is the stored order.
#[derive(Clone, Debug)]
pub struct Wire {
    /// The oriented edge handles, in traversal order.
    pub edges: Vec<Edge>,
}

impl Wire {
    /// The wire's handles are valid in `reg` and chain end-to-end.
    pub open spec fn wf(self, reg: Registry) -> bool {
        edges_valid(reg, self.edges@) && chained(reg, self.edges@)
    }

    /// Build a wire from an ordered edge sequence. Fails with
    /// `DisconnectedBoundary` unless each consecutive oriented pair shares an
    /// endpoint; on success the wire holds exactly the given edges in the
    /// given order.
    pub fn new(reg: &Registry, edges: Vec<Edge>) -> (r: Result<Wire, TopologyError>)
        requires
            edges_valid(*reg, edges@),
        ensures
            match r {
                Ok(w) => w.edges@ == edges@ && chained(*reg, edges@) && w.wf(*reg),
                Err(e) => e == TopologyError::DisconnectedBoundary && !chained(*reg, edges@),
            },
    {
        let mut i: usize = 1;
        while i < edges.len()
            invariant
                1 <= i,
                edges_valid(*reg, edges@),
                forall|j: int|
                    0 <= j && j + 1 < i && j + 1 < edges@.len() ==> (#[trigger] edges@[j]).spec_dst(
                        *reg,
                    ) == edges@[j + 1].spec_src(*reg),
            decreases edges@.len() - i,
        {
            let prev = edges[i - 1];
            let cur = edges[i];
            if prev.back(reg).id != cur.front(reg).id {
                return Err(TopologyError::DisconnectedBoundary);
            }
            i += 1;
        }
        Ok(Wire { edges })
    }

    /// The number of edges in the wire.
    pub fn len(&self) -> (r: usize)
        ensures
            r == self.edges@.len(),
    {
        self.edges.len()
    }

    /// The oriented edge at position `i` of the traversal.
    pub fn edge(&self, i: usize) -> (r: Edge)
        requires
            i < self.edges@.len(),
        ensures
            r == self.edges@[i as int],
    {
        self.edges[i]
    }

    /// Whether the loop returns to its start: non-empty, and the first
    /// oriented front equals the last oriented back.
    pub fn is_closed(&self, reg: &Registry) -> (r: bool)
        requires
            edges_valid(*reg, self.edges@),
        ensures
            r == closed_chain(*reg, self.edges@),
    {
        if self.edges.len() == 0 {
            return false;
        }
        let first = self.edges[0];
        let last = self.edges[self.edges.len() - 1];
        first.front(reg).id == last.back(reg).id
    }

    /// A second wire over the same edge handles in the same order. The edge
    /// identities are shared, not copied.
    pub fn duplicate(&self) -> (r: Wire)
        ensures
            r.edges@ == self.edges@,
    {
        let n = self.edges.len();
        let mut out: Vec<Edge> = Vec::new();
        let mut i: usize = 0;
        while i < n
            invariant
                i <= n,
                n == self.edges@.len(),
                out@ == self.edges@.take(i as int),
            decreases n - i,
        {
            out.push(self.edges[i]);
            proof {
                assert(self.edges@.take(i + 1) =~= self.edges@.take(i as int).push(
                    self.edges@[i as int],
                ));
            }
            i += 1;
        }
        proof {
            assert(self.edges@.take(n as int) =~= self.edges@);
        }
        Wire { edges: out }
    }

    /// The boundary traversed the opposite way: edge order reversed and each
    /// edge's orientation flipped. Edge identities are untouched.
    pub fn inverse(&self) -> (r: Wire)
        ensures
            r.edges@.len() == self.edges@.len(),
            forall|i: int|
                0 <= i < r.edges@.len() ==> r.edges@[i] == self.edges@[self.edges@.len() - 1
                    - i].spec_inverse(),
    {
        let n = self.edges.len();
        let mut out: Vec<Edge> = Vec::new();
        let mut i: usize = 0;
        while i < n
            invariant
                i <= n,
                n == self.edges@.len(),
                out@.len() == i,
                forall|j: int|
                    0 <= j < i ==> out@[j] == self.edges@[n - 1 - j].spec_inverse(),
            decreases n - i,
        {
            out.push(self.edges[n - 1 - i].inverse());
            i += 1;
        }
        Wire { edges: out }
    }
}

/// Reversing a closed wire keeps it well-formed and closed: the inverse
/// visits the same edge identities in reverse order with flipped
/// orientation, still chains end-to-end, and still returns to its start.
pub proof fn lemma_wire_inverse_closed(reg: Registry, w: Seq<Edge>, rev: Seq<Edge>)
    requires
        edges_valid(reg, w),
        chained(reg, w),
        closed_chain(reg, w),
        rev.len() == w.len(),
        forall|i: int| 0 <= i < rev.len() ==> rev[i] == w[w.len() - 1 - i].spec_inverse(),
    ensures
        edges_valid(reg, rev),
        chained(reg, rev),
        closed_chain(reg, rev),
        forall|i: int| 0 <= i < rev.len() ==> rev[i].id == w[w.len() - 1 - i].id,
        forall|i: int|
            0 <= i < rev.len() ==> rev[i].orientation == !w[w.len() - 1 - i].orientation,
{
    let n = w.len() as int;
    assert forall|i: int| 0 <= i && i + 1 < n implies (#[trigger] rev[i]).spec_dst(reg) == rev[i
        + 1].spec_src(reg) by {
        assert(w[n - 2 - i].spec_dst(reg) == w[n - 1 - i].spec_src(reg));
    }
    assert(rev[0].spec_src(reg) == w[n - 1].spec_dst(reg));
    assert(rev[n - 1].spec_dst(reg) == w[0].spec_src(reg));
}

} // verus!
