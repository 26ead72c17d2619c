use brep_kernel::codec::{
    compress, extract, CompressedEdge, CompressedEdgeIndex, CompressedFace, CompressedShell,
};
use brep_kernel::edge::Edge;
use brep_kernel::error::TopologyError;
use brep_kernel::face::Face;
use brep_kernel::registry::Registry;
use brep_kernel::shell::Shell;
use brep_kernel::vertex::Vertex;
use brep_kernel::wire::Wire;

fn tri_face(reg: &Registry, e0: Edge, e1: Edge, e2: Edge, surface: u64) -> Face {
    let w = Wire::new(reg, vec![e0, e1, e2]).unwrap();
    Face::new(reg, w, Vec::new(), surface).unwrap()
}

/// A pentagonal pyramid: the apex is shared by five side edges.
fn pyramid(reg: &mut Registry) -> (Shell, u64) {
    let apex_payload = 777u64;
    let apex = Vertex::new(reg, apex_payload);
    let mut ring = Vec::new();
    for i in 0..5u64 {
        ring.push(Vertex::new(reg, i));
    }
    let mut base = Vec::new();
    let mut side = Vec::new();
    for i in 0..5 {
        base.push(Edge::new(reg, ring[i], ring[(i + 1) % 5], 20 + i as u64));
        side.push(Edge::new(reg, ring[i], apex, 30 + i as u64));
    }
    let mut faces = Vec::new();
    for i in 0..5 {
        faces.push(tri_face(reg, base[i], side[(i + 1) % 5], side[i].inverse(), 40 + i as u64));
    }
    let bottom_loop = vec![
        base[4].inverse(),
        base[3].inverse(),
        base[2].inverse(),
        base[1].inverse(),
        base[0].inverse(),
    ];
    let w = Wire::new(reg, bottom_loop).unwrap();
    faces.push(Face::new(reg, w, Vec::new(), 50).unwrap());
    (Shell::new(faces), apex_payload)
}

#[test]
fn shared_vertex_payload_emitted_once() {
    let mut reg = Registry::new();
    let (shell, apex_payload) = pyramid(&mut reg);
    assert!(shell.is_closed());
    let arch = compress(&reg, &shell);
    assert_eq!(arch.vertices.len(), 6);
    assert_eq!(arch.edges.len(), 10);
    assert_eq!(arch.faces.len(), 6);
    let apex_copies = arch.vertices.iter().filter(|p| **p == apex_payload).count();
    assert_eq!(apex_copies, 1);
    let apex_idx = arch.vertices.iter().position(|p| *p == apex_payload).unwrap();
    let touching = arch
        .edges
        .iter()
        .filter(|e| e.front == apex_idx || e.back == apex_idx)
        .count();
    assert_eq!(touching, 5);
    // Extraction rebuilds exactly one apex vertex referenced by all five.
    let (reg2, shell2) = extract(&arch).unwrap();
    assert_eq!(reg2.points.len(), 6);
    let apex2 = reg2.points.iter().position(|p| *p == apex_payload).unwrap();
    let touching2 = reg2
        .edges
        .iter()
        .filter(|e| e.front == apex2 || e.back == apex2)
        .count();
    assert_eq!(touching2, 5);
    assert_eq!(shell2.face_count(), 6);
    assert!(shell2.is_closed());
}

#[test]
fn round_trip_preserves_structure() {
    let mut reg = Registry::new();
    let (shell, _) = pyramid(&mut reg);
    let arch = compress(&reg, &shell);
    let (reg2, shell2) = extract(&arch).unwrap();
    assert_eq!(shell2.face_count(), shell.face_count());
    for i in 0..shell.face_count() {
        let f = shell.face(i);
        let g = shell2.face(i);
        assert_eq!(f.orientation, g.orientation);
        assert_eq!(f.surface, g.surface);
        assert_eq!(f.boundary_count(), g.boundary_count());
        for j in 0..f.boundary_count() {
            let wf = &f.boundaries[j];
            let wg = &g.boundaries[j];
            assert_eq!(wf.len(), wg.len());
            for k in 0..wf.len() {
                let ef = wf.edge(k);
                let eg = wg.edge(k);
                assert_eq!(ef.orientation, eg.orientation);
                assert_eq!(ef.curve(&reg), eg.curve(&reg2));
                assert_eq!(ef.front(&reg).point(&reg), eg.front(&reg2).point(&reg2));
                assert_eq!(ef.back(&reg).point(&reg), eg.back(&reg2).point(&reg2));
            }
        }
    }
    // Sharing is preserved: positions referencing one edge still do.
    let e_first = shell.face(0).boundaries[0].edge(0);
    let e2_first = shell2.face(0).boundaries[0].edge(0);
    for i in 0..shell.face_count() {
        for k in 0..shell.face(i).boundaries[0].len() {
            let same_before = shell.face(i).boundaries[0].edge(k).is_same(&e_first);
            let same_after = shell2.face(i).boundaries[0].edge(k).is_same(&e2_first);
            assert_eq!(same_before, same_after);
        }
    }
    assert!(shell2.is_closed());
    assert!(shell2.is_connected());
}

#[test]
fn out_of_range_index_is_malformed() {
    let arch = CompressedShell {
        vertices: vec![1, 2],
        edges: vec![CompressedEdge { front: 0, back: 99, curve: 5 }],
        faces: Vec::new(),
    };
    assert_eq!(extract(&arch).unwrap_err(), TopologyError::MalformedArchive);
}

#[test]
fn out_of_range_face_reference_is_malformed() {
    let arch = CompressedShell {
        vertices: vec![1, 2],
        edges: vec![CompressedEdge { front: 0, back: 1, curve: 5 }],
        faces: vec![CompressedFace {
            boundaries: vec![vec![CompressedEdgeIndex { index: 3, orientation: true }]],
            orientation: true,
            surface: 9,
        }],
    };
    assert_eq!(extract(&arch).unwrap_err(), TopologyError::MalformedArchive);
}

#[test]
fn face_without_boundary_is_malformed() {
    let arch = CompressedShell {
        vertices: vec![1],
        edges: Vec::new(),
        faces: vec![CompressedFace { boundaries: Vec::new(), orientation: true, surface: 9 }],
    };
    assert_eq!(extract(&arch).unwrap_err(), TopologyError::MalformedArchive);
}

#[test]
fn unchained_boundary_is_disconnected() {
    let arch = CompressedShell {
        vertices: vec![1, 2, 3, 4],
        edges: vec![
            CompressedEdge { front: 0, back: 1, curve: 5 },
            CompressedEdge { front: 2, back: 3, curve: 6 },
        ],
        faces: vec![CompressedFace {
            boundaries: vec![vec![
                CompressedEdgeIndex { index: 0, orientation: true },
                CompressedEdgeIndex { index: 1, orientation: true },
            ]],
            orientation: true,
            surface: 9,
        }],
    };
    assert_eq!(extract(&arch).unwrap_err(), TopologyError::DisconnectedBoundary);
}

#[test]
fn unclosed_boundary_is_rejected() {
    let arch = CompressedShell {
        vertices: vec![1, 2, 3],
        edges: vec![
            CompressedEdge { front: 0, back: 1, curve: 5 },
            CompressedEdge { front: 1, back: 2, curve: 6 },
        ],
        faces: vec![CompressedFace {
            boundaries: vec![vec![
                CompressedEdgeIndex { index: 0, orientation: true },
                CompressedEdgeIndex { index: 1, orientation: true },
            ]],
            orientation: true,
            surface: 9,
        }],
    };
    assert_eq!(extract(&arch).unwrap_err(), TopologyError::UnclosedBoundary);
}
