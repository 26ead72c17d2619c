//! The tagged-union boundary type: a caller that does not statically know
//! which topological kind it holds receives an `AbstractShape` carrying at
//! most one of the six kinds, with kind tests, fallible downcasts, and an
//! upcast from every concrete kind.

use vstd::prelude::*;

use crate::edge::Edge;
use crate::face::Face;
use crate::shell::Shell;
use crate::solid::Solid;
use crate::vertex::Vertex;
use crate::wire::Wire;

verus! {

/// An enumerated shape: at most one of the six topological kinds.
#[derive(Clone, Debug)]
pub struct AbstractShape {
    /// The vertex, when the shape is one.
    pub vertex: Option<Vertex>,
    /// The edge, when the shape is one.
    pub edge: Option<Edge>,
    /// The wire, when the shape is one.
    pub wire: Option<Wire>,
    /// The face, when the shape is one.
    pub face: Option<Face>,
    /// The shell, when the shape is one.
    pub shell: Option<Shell>,
    /// The solid, when the shape is one.
    pub solid: Option<Solid>,
}

impl AbstractShape {
    /// The shape holds exactly one kind.
    pub open spec fn wf(self) -> bool {
        (if self.vertex is Some {
            1int
        } else {
            0int
        }) + (if self.edge is Some {
            1int
        } else {
            0int
        }) + (if self.wire is Some {
            1int
        } else {
            0int
        }) + (if self.face is Some {
            1int
        } else {
            0int
        }) + (if self.shell is Some {
            1int
        } else {
            0int
        }) + (if self.solid is Some {
            1int
        } else {
            0int
        }) == 1
    }

    fn empty() -> (r: AbstractShape)
        ensures
            r.vertex is None,
            r.edge is None,
            r.wire is None,
            r.face is None,
            r.shell is None,
            r.solid is None,
    {
        AbstractShape {
            vertex: None,
            edge: None,
            wire: None,
            face: None,
            shell: None,
            solid: None,
        }
    }

    /// Whether `self` is a vertex.
    pub fn is_vertex(self) -> (r: bool)
        ensures
            r == (self.vertex is Some),
    {
        self.vertex.is_some()
    }

    /// Whether `self` is an edge.
    pub fn is_edge(self) -> (r: bool)
        ensures
            r == (self.edge is Some),
    {
        self.edge.is_some()
    }

    /// Whether `self` is a wire.
    pub fn is_wire(self) -> (r: bool)
        ensures
            r == (self.wire is Some),
    {
        self.wire.is_some()
    }

    /// Whether `self` is a face.
    pub fn is_face(self) -> (r: bool)
        ensures
            r == (self.face is Some),
    {
        self.face.is_some()
    }

    /// Whether `self` is a shell.
    pub fn is_shell(self) -> (r: bool)
        ensures
            r == (self.shell is Some),
    {
        self.shell.is_some()
    }

    /// Whether `self` is a solid.
    pub fn is_solid(self) -> (r: bool)
        ensures
            r == (self.solid is Some),
    {
        self.solid.is_some()
    }

    /// Downcast to a vertex.
    pub fn into_vertex(self) -> (r: Option<Vertex>)
        ensures
            r == self.vertex,
    {
        self.vertex
    }

    /// Downcast to an edge.
    pub fn into_edge(self) -> (r: Option<Edge>)
        ensures
            r == self.edge,
    {
        self.edge
    }

    /// Downcast to a wire.
    pub fn into_wire(self) -> (r: Option<Wire>)
        ensures
            r == self.wire,
    {
        self.wire
    }

    /// Downcast to a face.
    pub fn into_face(self) -> (r: Option<Face>)
        ensures
            r == self.face,
    {
        self.face
    }

    /// Downcast to a shell.
    pub fn into_shell(self) -> (r: Option<Shell>)
        ensures
            r == self.shell,
    {
        self.shell
    }

    /// Downcast to a solid.
    pub fn into_solid(self) -> (r: Option<Solid>)
        ensures
            r == self.solid,
    {
        self.solid
    }

    /// Downcast to a vertex, by reference.
    pub fn as_vertex(&self) -> (r: Option<&Vertex>)
        ensures
            r is Some <==> self.vertex is Some,
            r is Some ==> *r->Some_0 == self.vertex->Some_0,
    {
        self.vertex.as_ref()
    }

    /// Downcast to an edge, by reference.
    pub fn as_edge(&self) -> (r: Option<&Edge>)
        ensures
            r is Some <==> self.edge is Some,
            r is Some ==> *r->Some_0 == self.edge->Some_0,
    {
        self.edge.as_ref()
    }

    /// Downcast to a wire, by reference.
    pub fn as_wire(&self) -> (r: Option<&Wire>)
        ensures
            r is Some <==> self.wire is Some,
            r is Some ==> *r->Some_0 == self.wire->Some_0,
    {
        self.wire.as_ref()
    }

    /// Downcast to a face, by reference.
    pub fn as_face(&self) -> (r: Option<&Face>)
        ensures
            r is Some <==> self.face is Some,
            r is Some ==> *r->Some_0 == self.face->Some_0,
    {
        self.face.as_ref()
    }

    /// Downcast to a shell, by reference.
    pub fn as_shell(&self) -> (r: Option<&Shell>)
        ensures
            r is Some <==> self.shell is Some,
            r is Some ==> *r->Some_0 == self.shell->Some_0,
    {
        self.shell.as_ref()
    }

    /// Downcast to a solid, by reference.
    pub fn as_solid(&self) -> (r: Option<&Solid>)
        ensures
            r is Some <==> self.solid is Some,
            r is Some ==> *r->Some_0 == self.solid->Some_0,
    {
        self.solid.as_ref()
    }
}

impl Vertex {
    /// Wrap the vertex in the enumerated form.
    pub fn upcast(self) -> (r: AbstractShape)
        ensures
            r.vertex == Some(self),
            r.wf(),
    {
        let mut r = AbstractShape::empty();
        r.vertex = Some(self);
        r
    }
}

impl Edge {
    /// Wrap the edge in the enumerated form.
    pub fn upcast(self) -> (r: AbstractShape)
        ensures
            r.edge == Some(self),
            r.wf(),
    {
        let mut r = AbstractShape::empty();
        r.edge = Some(self);
        r
    }
}

impl Wire {
    /// Wrap the wire in the enumerated form.
    pub fn upcast(self) -> (r: AbstractShape)
        ensures
            r.wire == Some(self),
            r.wf(),
    {
        let mut r = AbstractShape::empty();
        r.wire = Some(self);
        r
    }
}

impl Face {
    /// Wrap the face in the enumerated form.
    pub fn upcast(self) -> (r: AbstractShape)
        ensures
            r.face == Some(self),
            r.wf(),
    {
        let mut r = AbstractShape::empty();
        r.face = Some(self);
        r
    }
}

impl Shell {
    /// Wrap the shell in the enumerated form.
    pub fn upcast(self) -> (r: AbstractShape)
        ensures
            r.shell == Some(self),
            r.wf(),
    {
        let mut r = AbstractShape::empty();
        r.shell = Some(self);
        r
    }
}

impl Solid {
    /// Wrap the solid in the enumerated form.
    pub fn upcast(self) -> (r: AbstractShape)
        ensures
            r.solid == Some(self),
            r.wf(),
    {
        let mut r = AbstractShape::empty();
        r.solid = Some(self);
        r
    }
}

} // verus!
