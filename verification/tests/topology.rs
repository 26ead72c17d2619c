use brep_kernel::edge::Edge;
use brep_kernel::error::TopologyError;
use brep_kernel::face::Face;
use brep_kernel::registry::Registry;
use brep_kernel::vertex::Vertex;
use brep_kernel::wire::Wire;

fn triangle(reg: &mut Registry) -> (Vertex, Vertex, Vertex, Edge, Edge, Edge) {
    let a = Vertex::new(reg, 10);
    let b = Vertex::new(reg, 20);
    let c = Vertex::new(reg, 30);
    let ab = Edge::new(reg, a, b, 1);
    let bc = Edge::new(reg, b, c, 2);
    let ca = Edge::new(reg, c, a, 3);
    (a, b, c, ab, bc, ca)
}

#[test]
fn edge_inverse_is_involution() {
    let mut reg = Registry::new();
    let (_, _, _, ab, _, _) = triangle(&mut reg);
    let back = ab.inverse().inverse();
    assert!(back.is_same(&ab));
    assert!(back.oriented_eq(&ab));
    assert!(ab.inverse().is_same(&ab));
    assert!(!ab.inverse().oriented_eq(&ab));
}

#[test]
fn edge_endpoints_follow_orientation() {
    let mut reg = Registry::new();
    let (a, b, _, ab, _, _) = triangle(&mut reg);
    assert_eq!(ab.front(&reg).id, a.id);
    assert_eq!(ab.back(&reg).id, b.id);
    assert_eq!(ab.inverse().front(&reg).id, b.id);
    assert_eq!(ab.inverse().back(&reg).id, a.id);
}

#[test]
fn wire_requires_chained_edges() {
    let mut reg = Registry::new();
    let (_, _, _, ab, _, ca) = triangle(&mut reg);
    let r = Wire::new(&reg, vec![ab, ca]);
    assert_eq!(r.unwrap_err(), TopologyError::DisconnectedBoundary);
}

#[test]
fn closed_wire_inverse_is_closed_and_reversed() {
    let mut reg = Registry::new();
    let (_, _, _, ab, bc, ca) = triangle(&mut reg);
    let w = Wire::new(&reg, vec![ab, bc, ca]).unwrap();
    assert!(w.is_closed(&reg));
    let inv = w.inverse();
    assert!(inv.is_closed(&reg));
    assert_eq!(inv.len(), 3);
    for i in 0..3 {
        let orig = w.edge(2 - i);
        let rev = inv.edge(i);
        assert!(rev.is_same(&orig));
        assert_eq!(rev.orientation, !orig.orientation);
    }
}

#[test]
fn open_wire_is_not_closed() {
    let mut reg = Registry::new();
    let (_, _, _, ab, bc, _) = triangle(&mut reg);
    let w = Wire::new(&reg, vec![ab, bc]).unwrap();
    assert!(!w.is_closed(&reg));
}

#[test]
fn face_rejects_unclosed_boundary() {
    let mut reg = Registry::new();
    let (_, _, _, ab, bc, _) = triangle(&mut reg);
    let open = Wire::new(&reg, vec![ab, bc]).unwrap();
    let r = Face::new(&reg, open, Vec::new(), 7);
    assert_eq!(r.unwrap_err(), TopologyError::UnclosedBoundary);
}

#[test]
fn face_inverse_flips_only_orientation() {
    let mut reg = Registry::new();
    let (_, _, _, ab, bc, ca) = triangle(&mut reg);
    let w = Wire::new(&reg, vec![ab, bc, ca]).unwrap();
    let f = Face::new(&reg, w, Vec::new(), 7).unwrap();
    assert!(f.orientation);
    assert_eq!(f.surface, 7);
    let g = f.inverse();
    assert!(!g.orientation);
    assert_eq!(g.surface, 7);
    assert_eq!(g.boundary_count(), 1);
}

#[test]
fn payload_mutation_is_visible_through_sharing() {
    let mut reg = Registry::new();
    let (a, _, _, ab, _, ca) = triangle(&mut reg);
    reg.set_point(a.id, 99);
    assert_eq!(a.point(&reg), 99);
    assert_eq!(ab.front(&reg).point(&reg), 99);
    assert_eq!(ca.back(&reg).point(&reg), 99);
    reg.set_curve(ab.id, 88);
    assert_eq!(ab.curve(&reg), 88);
    assert_eq!(ab.inverse().curve(&reg), 88);
}

#[test]
fn abstract_shape_roundtrip() {
    let mut reg = Registry::new();
    let (a, _, _, ab, _, _) = triangle(&mut reg);
    let s = a.upcast();
    assert!(s.clone().is_vertex());
    assert!(!s.clone().is_edge());
    assert!(s.as_vertex().is_some());
    assert!(s.as_solid().is_none());
    assert_eq!(s.into_vertex().unwrap().id, a.id);
    let s2 = ab.upcast();
    assert!(s2.clone().is_edge());
    assert!(!s2.clone().is_wire());
    assert!(s2.as_edge().is_some());
    assert!(s2.clone().into_face().is_none());
    assert!(s2.into_edge().unwrap().is_same(&ab));
}
