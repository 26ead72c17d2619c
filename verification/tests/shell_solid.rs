use brep_kernel::edge::Edge;
use brep_kernel::error::TopologyError;
use brep_kernel::face::Face;
use brep_kernel::registry::Registry;
use brep_kernel::shell::Shell;
use brep_kernel::solid::Solid;
use brep_kernel::vertex::Vertex;
use brep_kernel::wire::Wire;

fn tri_face(reg: &Registry, e0: Edge, e1: Edge, e2: Edge, surface: u64) -> Face {
    let w = Wire::new(reg, vec![e0, e1, e2]).unwrap();
    Face::new(reg, w, Vec::new(), surface).unwrap()
}

fn tetrahedron(reg: &mut Registry) -> Shell {
    let a = Vertex::new(reg, 0);
    let b = Vertex::new(reg, 1);
    let c = Vertex::new(reg, 2);
    let d = Vertex::new(reg, 3);
    let ab = Edge::new(reg, a, b, 10);
    let ac = Edge::new(reg, a, c, 11);
    let ad = Edge::new(reg, a, d, 12);
    let bc = Edge::new(reg, b, c, 13);
    let bd = Edge::new(reg, b, d, 14);
    let cd = Edge::new(reg, c, d, 15);
    let f1 = tri_face(reg, ab, bc, ac.inverse(), 100);
    let f2 = tri_face(reg, ad, bd.inverse(), ab.inverse(), 101);
    let f3 = tri_face(reg, bd, cd.inverse(), bc.inverse(), 102);
    let f4 = tri_face(reg, ac, cd, ad.inverse(), 103);
    Shell::new(vec![f1, f2, f3, f4])
}

#[test]
fn tetrahedron_is_a_solid() {
    let mut reg = Registry::new();
    let shell = tetrahedron(&mut reg);
    assert_eq!(reg.points.len(), 4);
    assert_eq!(reg.edges.len(), 6);
    assert_eq!(shell.face_count(), 4);
    assert!(shell.is_closed());
    assert!(shell.is_connected());
    let solid = Solid::try_new(vec![shell]).unwrap();
    assert_eq!(solid.shell_count(), 1);
}

#[test]
fn open_triangle_shell_is_rejected() {
    let mut reg = Registry::new();
    let a = Vertex::new(&mut reg, 0);
    let b = Vertex::new(&mut reg, 1);
    let c = Vertex::new(&mut reg, 2);
    let ab = Edge::new(&mut reg, a, b, 10);
    let bc = Edge::new(&mut reg, b, c, 11);
    let ca = Edge::new(&mut reg, c, a, 12);
    let f = tri_face(&reg, ab, bc, ca, 100);
    let shell = Shell::new(vec![f]);
    assert!(!shell.is_closed());
    assert!(shell.is_connected());
    let r = Solid::try_new(vec![shell.clone()]);
    assert_eq!(r.unwrap_err(), TopologyError::OpenShell(0));
    assert!(shell.into_solid().is_none());
}

#[test]
fn closed_shell_promotes_to_solid() {
    let mut reg = Registry::new();
    let shell = tetrahedron(&mut reg);
    let solid = shell.into_solid().unwrap();
    assert_eq!(solid.shell_count(), 1);
    assert_eq!(solid.shell(0).face_count(), 4);
}

#[test]
fn grid_torus_shares_all_edges() {
    let n = 3usize;
    let mut reg = Registry::new();
    let mut vs: Vec<Vec<Vertex>> = Vec::new();
    for i in 0..n {
        let mut row = Vec::new();
        for j in 0..n {
            row.push(Vertex::new(&mut reg, (i * n + j) as u64));
        }
        vs.push(row);
    }
    // right[i][j]: vs[i][j] -> vs[i][j+1]; down[i][j]: vs[i][j] -> vs[i+1][j]
    let mut right: Vec<Vec<Edge>> = Vec::new();
    let mut down: Vec<Vec<Edge>> = Vec::new();
    for i in 0..n {
        let mut r_row = Vec::new();
        let mut d_row = Vec::new();
        for j in 0..n {
            r_row.push(Edge::new(&mut reg, vs[i][j], vs[i][(j + 1) % n], 500));
            d_row.push(Edge::new(&mut reg, vs[i][j], vs[(i + 1) % n][j], 600));
        }
        right.push(r_row);
        down.push(d_row);
    }
    assert_eq!(reg.points.len(), n * n);
    assert_eq!(reg.edges.len(), 2 * n * n);
    let mut faces = Vec::new();
    for i in 0..n {
        for j in 0..n {
            let loop_edges = vec![
                right[i][j],
                down[i][(j + 1) % n],
                right[(i + 1) % n][j].inverse(),
                down[i][j].inverse(),
            ];
            let w = Wire::new(&reg, loop_edges).unwrap();
            assert!(w.is_closed(&reg));
            faces.push(Face::new(&reg, w, Vec::new(), (i * n + j) as u64).unwrap());
        }
    }
    let shell = Shell::new(faces);
    assert_eq!(shell.face_count(), n * n);
    assert_eq!(reg.points.len(), n * n);
    assert_eq!(reg.edges.len(), 2 * n * n);
    assert!(shell.is_closed());
    assert!(shell.is_connected());
    assert!(Solid::try_new(vec![shell]).is_ok());
}

#[test]
fn solid_reports_first_open_shell() {
    let mut reg = Registry::new();
    let good = tetrahedron(&mut reg);
    let a = Vertex::new(&mut reg, 50);
    let b = Vertex::new(&mut reg, 51);
    let c = Vertex::new(&mut reg, 52);
    let ab = Edge::new(&mut reg, a, b, 60);
    let bc = Edge::new(&mut reg, b, c, 61);
    let ca = Edge::new(&mut reg, c, a, 62);
    let open = Shell::new(vec![tri_face(&reg, ab, bc, ca, 100)]);
    let r = Solid::try_new(vec![good, open]);
    assert_eq!(r.unwrap_err(), TopologyError::OpenShell(1));
}
