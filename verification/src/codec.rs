//! The compression codec: structure-preserving serialization of a shell.
//!
//! `compress` walks the faces of a shell, assigns each newly-encountered
//! vertex and edge identity a compact sequential index on first visit
//! (memoized by identity, not by value), and emits each payload once plus
//! every boundary as an oriented index list. `extract` rebuilds a fresh
//! registry and shell from the archive, re-running the validation every
//! constructor would apply; an archive is never trusted to be valid.

use vstd::prelude::*;

use crate::edge::Edge;
use crate::error::TopologyError;
use crate::face::Face;
use crate::registry::{EdgeRecord, Registry};
use crate::shell::{faces_occs, wire_occs, wires_occs, Shell};
use crate::wire::{chained, closed_chain, edges_valid, Wire};

verus! {

/// One oriented reference to an edge of the archive's edge table.
#[derive(Clone, Copy, Debug, PartialEq, Eq, Structural)]
pub struct CompressedEdgeIndex {
    /// Position of the referenced edge in the archive's edge table.
    pub index: usize,
    /// The orientation in which the boundary traverses it.
    pub orientation: bool,
}

/// One edge payload of the archive: endpoint positions in the vertex table
/// plus the curve payload.
#[derive(Clone, Copy, Debug, PartialEq, Eq, Structural)]
pub struct CompressedEdge {
    /// Position of the stored front vertex in the vertex table.
    pub front: usize,
    /// Position of the stored back vertex in the vertex table.
    pub back: usize,
    /// Opaque curve payload.
    pub curve: u64,
}

/// One face of the archive: its boundaries as oriented index lists, its
/// orientation flag and its surface payload.
#[derive(Clone, Debug)]
pub struct CompressedFace {
    /// Outer boundary first, then the holes, each as an index list.
    pub boundaries: Vec<Vec<CompressedEdgeIndex>>,
    /// The face's orientation flag.
    pub orientation: bool,
    /// Opaque surface payload.
    pub surface: u64,
}

/// A compressed shell: every distinct vertex and edge payload exactly once,
/// and every face boundary as oriented references into those tables.
#[derive(Clone, Debug)]
pub struct CompressedShell {
    /// The distinct vertex point payloads, one per shared vertex.
    pub vertices: Vec<u64>,
    /// The distinct edge payloads, one per shared edge.
    pub edges: Vec<CompressedEdge>,
    /// The faces, in shell order.
    pub faces: Vec<CompressedFace>,
}

/// Where an oriented reference starts, as a position in the vertex table.
pub open spec fn centry_src(c: CompressedShell, x: CompressedEdgeIndex) -> int {
    if x.orientation {
        c.edges@[x.index as int].front as int
    } else {
        c.edges@[x.index as int].back as int
    }
}

/// Where an oriented reference ends, as a position in the vertex table.
pub open spec fn centry_dst(c: CompressedShell, x: CompressedEdgeIndex) -> int {
    if x.orientation {
        c.edges@[x.index as int].back as int
    } else {
        c.edges@[x.index as int].front as int
    }
}

/// Every edge of the table refers only to vertex positions that exist.
pub open spec fn archive_edges_ok(c: CompressedShell) -> bool {
    forall|e: int|
        0 <= e < c.edges@.len() ==> (#[trigger] c.edges@[e]).front < c.vertices@.len()
            && c.edges@[e].back < c.vertices@.len()
}

/// Every reference of one boundary points into the edge table.
pub open spec fn cboundary_idx_ok(c: CompressedShell, b: Seq<CompressedEdgeIndex>) -> bool {
    forall|k: int| 0 <= k < b.len() ==> (#[trigger] b[k]).index < c.edges@.len()
}

/// A face has the arity a face needs: at least an outer boundary, and every
/// reference in range.
pub open spec fn cface_idx_ok(c: CompressedShell, cf: CompressedFace) -> bool {
    cf.boundaries@.len() >= 1 && forall|j: int|
        0 <= j < cf.boundaries@.len() ==> cboundary_idx_ok(c, (#[trigger] cf.boundaries@[j])@)
}

/// Every face of the archive has valid arity and in-range references.
pub open spec fn archive_faces_ok(c: CompressedShell) -> bool {
    forall|i: int| 0 <= i < c.faces@.len() ==> cface_idx_ok(c, #[trigger] c.faces@[i])
}

/// One boundary chains end-to-end through the edge table.
pub open spec fn cboundary_chained(c: CompressedShell, b: Seq<CompressedEdgeIndex>) -> bool {
    forall|k: int|
        0 <= k && k + 1 < b.len() ==> centry_dst(c, #[trigger] b[k]) == centry_src(c, b[k + 1])
}

/// One boundary is a closed loop.
pub open spec fn cboundary_closed(c: CompressedShell, b: Seq<CompressedEdgeIndex>) -> bool {
    b.len() > 0 && centry_src(c, b[0]) == centry_dst(c, b[b.len() - 1])
}

/// Every boundary of every face chains end-to-end.
pub open spec fn archive_chained(c: CompressedShell) -> bool {
    forall|i: int, j: int|
        0 <= i < c.faces@.len() && 0 <= j < (#[trigger] c.faces@[i]).boundaries@.len()
            ==> cboundary_chained(c, (#[trigger] c.faces@[i].boundaries@[j])@)
}

/// Every boundary of every face is a closed loop.
pub open spec fn archive_loops_closed(c: CompressedShell) -> bool {
    forall|i: int, j: int|
        0 <= i < c.faces@.len() && 0 <= j < (#[trigger] c.faces@[i]).boundaries@.len()
            ==> cboundary_closed(c, (#[trigger] c.faces@[i].boundaries@[j])@)
}

/// The archive passes every check a constructor would apply: indices and
/// arity valid, every boundary a chained, closed loop.
pub open spec fn archive_ok(c: CompressedShell) -> bool {
    archive_edges_ok(c) && archive_faces_ok(c) && archive_chained(c) && archive_loops_closed(c)
}

/// The failure an invalid archive is reported with: bad indices or arity
/// first, then a boundary that does not chain, then one that does not close.
pub open spec fn expected_error(c: CompressedShell) -> TopologyError {
    if !(archive_edges_ok(c) && archive_faces_ok(c)) {
        TopologyError::MalformedArchive
    } else if !archive_chained(c) {
        TopologyError::DisconnectedBoundary
    } else {
        TopologyError::UnclosedBoundary
    }
}

/// The wire rebuilt from one boundary: the reference at position `k` becomes
/// the edge handle with identity `index` and the stored orientation.
pub open spec fn wire_extract_rel(b: Seq<CompressedEdgeIndex>, w: Wire) -> bool {
    w.edges@.len() == b.len() && forall|k: int|
        0 <= k < b.len() ==> w.edges@[k] == (Edge {
            id: (#[trigger] b[k]).index,
            orientation: b[k].orientation,
        })
}

/// The face rebuilt from one archive face.
pub open spec fn face_extract_rel(cf: CompressedFace, f: Face) -> bool {
    &&& f.orientation == cf.orientation
    &&& f.surface == cf.surface
    &&& f.boundaries@.len() == cf.boundaries@.len()
    &&& forall|j: int|
        0 <= j < cf.boundaries@.len() ==> wire_extract_rel(
            (#[trigger] cf.boundaries@[j])@,
            f.boundaries@[j],
        )
}

/// The registry and shell rebuilt from an archive: the fresh registry is the
/// archive's tables verbatim (identity `k` is table position `k`), and the
/// shell mirrors the archive's faces.
pub open spec fn extract_rel(c: CompressedShell, reg: Registry, sh: Shell) -> bool {
    &&& reg.points@ == c.vertices@
    &&& reg.edges@.len() == c.edges@.len()
    &&& forall|e: int|
        0 <= e < c.edges@.len() ==> reg.edges@[e] == (EdgeRecord {
            front: (#[trigger] c.edges@[e]).front,
            back: c.edges@[e].back,
            curve: c.edges@[e].curve,
        })
    &&& sh.faces@.len() == c.faces@.len()
    &&& forall|i: int|
        0 <= i < c.faces@.len() ==> face_extract_rel(#[trigger] c.faces@[i], sh.faces@[i])
    &&& reg.wf()
    &&& sh.wf(reg)
}

/// Some face boundary of `fs` traverses the edge with identity `e`.
pub open spec fn shell_uses_edge(fs: Seq<Face>, e: int) -> bool {
    exists|l: int| 0 <= l < faces_occs(fs).len() && (#[trigger] faces_occs(fs)[l]).0 == e
}

/// Some traversed edge of `fs` has the vertex with identity `v` as an
/// endpoint.
pub open spec fn shell_uses_vertex(reg: Registry, fs: Seq<Face>, v: int) -> bool {
    exists|e: int|
        0 <= e < reg.edges@.len() && #[trigger] shell_uses_edge(fs, e) && (reg.edges@[e].front == v
            || reg.edges@[e].back == v)
}

/// The vertex memo table is a partial bijection between registry vertex
/// identities and vertex-table positions, consistent with the payloads.
pub open spec fn vtable_ok(reg: Registry, vm: Seq<Option<usize>>, outv: Seq<u64>) -> bool {
    &&& vm.len() == reg.points@.len()
    &&& forall|v: int|
        0 <= v < vm.len() && (#[trigger] vm[v]) is Some ==> (vm[v]->0 as int) < outv.len()
            && outv[vm[v]->0 as int] == reg.points@[v]
    &&& forall|v1: int, v2: int|
        0 <= v1 < vm.len() && 0 <= v2 < vm.len() && (#[trigger] vm[v1]) is Some && (
        #[trigger] vm[v2]) is Some && vm[v1]->0 == vm[v2]->0 ==> v1 == v2
}


/// The edge memo table is a partial bijection between registry edge
/// identities and edge-table positions; each emitted edge holds its stored
/// endpoints mapped through the vertex table, and its curve payload.
pub open spec fn etable_ok(
    reg: Registry,
    vm: Seq<Option<usize>>,
    em: Seq<Option<usize>>,
    oute: Seq<CompressedEdge>,
) -> bool {
    &&& em.len() == reg.edges@.len()
    &&& forall|e: int|
        0 <= e < em.len() && (#[trigger] em[e]) is Some ==> {
            let rec = reg.edges@[e];
            &&& (em[e]->0 as int) < oute.len()
            &&& (rec.front as int) < vm.len() && vm[rec.front as int] is Some
            &&& (rec.back as int) < vm.len() && vm[rec.back as int] is Some
            &&& oute[em[e]->0 as int] == (CompressedEdge {
                front: vm[rec.front as int]->0,
                back: vm[rec.back as int]->0,
                curve: rec.curve,
            })
        }
    &&& forall|e1: int, e2: int|
        0 <= e1 < em.len() && 0 <= e2 < em.len() && (#[trigger] em[e1]) is Some && (
        #[trigger] em[e2]) is Some && em[e1]->0 == em[e2]->0 ==> e1 == e2
}


/// A reverse table for a memo table: position `n` of the emitted table
/// records the identity that was assigned to it. It witnesses that every
/// emitted entry is owned by exactly one identity.
pub open spec fn rev_ok(m: Seq<Option<usize>>, rt: Seq<int>, count: int) -> bool {
    rt.len() == count && forall|n: int|
        0 <= n < rt.len() ==> 0 <= #[trigger] rt[n] < m.len() && m[rt[n]] is Some && (m[rt[n]]->0
            as int) == n
}

/// One boundary compressed through the edge memo table: entry `k` is the
/// compact index of the edge handle at position `k`, with the handle's
/// stored orientation.
pub open spec fn boundary_compress_rel(
    es: Seq<Edge>,
    b: Seq<CompressedEdgeIndex>,
    em: Seq<Option<usize>>,
) -> bool {
    &&& b.len() == es.len()
    &&& forall|k: int|
        0 <= k < es.len() ==> ((#[trigger] es[k]).id as int) < em.len() && em[es[k].id as int]
            is Some && b[k] == (CompressedEdgeIndex {
            index: em[es[k].id as int]->0,
            orientation: es[k].orientation,
        })
}

/// One face compressed through the edge memo table.
pub open spec fn face_compress_rel(f: Face, cf: CompressedFace, em: Seq<Option<usize>>) -> bool {
    &&& cf.orientation == f.orientation
    &&& cf.surface == f.surface
    &&& cf.boundaries@.len() == f.boundaries@.len()
    &&& forall|j: int|
        0 <= j < f.boundaries@.len() ==> boundary_compress_rel(
            f.boundaries@[j].edges@,
            (#[trigger] cf.boundaries@[j])@,
            em,
        )
}

/// The whole compression relation: `vm` and `em` witness how registry
/// identities were mapped to compact table positions. The tables are
/// bijections onto exactly the identities the shell shares — every payload
/// is emitted exactly once — and every boundary is the index image of the
/// shell's boundary.
pub open spec fn compress_rel(
    reg: Registry,
    fs: Seq<Face>,
    c: CompressedShell,
    vm: Seq<Option<usize>>,
    em: Seq<Option<usize>>,
    rv: Seq<int>,
    re: Seq<int>,
) -> bool {
    &&& vtable_ok(reg, vm, c.vertices@)
    &&& etable_ok(reg, vm, em, c.edges@)
    &&& rev_ok(vm, rv, c.vertices@.len() as int)
    &&& rev_ok(em, re, c.edges@.len() as int)
    &&& forall|v: int|
        0 <= v < vm.len() ==> ((#[trigger] vm[v]) is Some <==> shell_uses_vertex(reg, fs, v))
    &&& forall|e: int|
        0 <= e < em.len() ==> ((#[trigger] em[e]) is Some <==> shell_uses_edge(fs, e))
    &&& c.faces@.len() == fs.len()
    &&& forall|i: int| 0 <= i < fs.len() ==> face_compress_rel(fs[i], #[trigger] c.faces@[i], em)
}

/// Every occurrence of a sequence of well-formed wires carries a valid edge
/// identity.
proof fn lemma_wires_occs_ids(reg: Registry, fo: bool, ws: Seq<Wire>)
    requires
        forall|j: int| 0 <= j < ws.len() ==> edges_valid(reg, (#[trigger] ws[j]).edges@),
    ensures
        forall|l: int|
            0 <= l < wires_occs(fo, ws).len() ==> ((#[trigger] wires_occs(fo, ws)[l]).0 as int)
                < reg.edges@.len(),
    decreases ws.len(),
{
    if ws.len() > 0 {
        assert forall|j: int| 0 <= j < ws.drop_last().len() implies edges_valid(
            reg,
            (#[trigger] ws.drop_last()[j]).edges@,
        ) by {
            assert(ws.drop_last()[j] == ws[j]);
        }
        lemma_wires_occs_ids(reg, fo, ws.drop_last());
        let base = wires_occs(fo, ws.drop_last()).len() as int;
        assert forall|l: int| 0 <= l < wires_occs(fo, ws).len() implies ((
        #[trigger] wires_occs(fo, ws)[l]).0 as int) < reg.edges@.len() by {
            if l >= base {
                let es = ws.last().edges@;
                assert(wires_occs(fo, ws)[l] == wire_occs(fo, es)[l - base]);
                assert(wire_occs(fo, es)[l - base].0 == es[l - base].id);
                assert(es[l - base].valid(reg));
            }
        }
    }
}

/// Every occurrence of a sequence of well-formed faces carries a valid edge
/// identity.
proof fn lemma_faces_occs_ids(reg: Registry, fs: Seq<Face>)
    requires
        forall|i: int| 0 <= i < fs.len() ==> (#[trigger] fs[i]).wf(reg),
    ensures
        forall|l: int|
            0 <= l < faces_occs(fs).len() ==> ((#[trigger] faces_occs(fs)[l]).0 as int)
                < reg.edges@.len(),
    decreases fs.len(),
{
    if fs.len() > 0 {
        assert forall|i: int| 0 <= i < fs.drop_last().len() implies (
        #[trigger] fs.drop_last()[i]).wf(reg) by {
            assert(fs.drop_last()[i] == fs[i]);
        }
        lemma_faces_occs_ids(reg, fs.drop_last());
        let f = fs.last();
        assert forall|j: int| 0 <= j < f.boundaries@.len() implies edges_valid(
            reg,
            (#[trigger] f.boundaries@[j]).edges@,
        ) by {
            assert(f.wf(reg));
        }
        lemma_wires_occs_ids(reg, f.orientation, f.boundaries@);
        let base = faces_occs(fs.drop_last()).len() as int;
        assert forall|l: int| 0 <= l < faces_occs(fs).len() implies ((
        #[trigger] faces_occs(fs)[l]).0 as int) < reg.edges@.len() by {
            if l >= base {
                assert(faces_occs(fs)[l] == wires_occs(f.orientation, f.boundaries@)[l - base]);
            }
        }
    }
}

/// The edge at one boundary position of one wire occurs in the wire
/// sequence's occurrence list.
proof fn lemma_wires_pos_occ(fo: bool, ws: Seq<Wire>, j: int, k: int)
    requires
        0 <= j < ws.len(),
        0 <= k < ws[j].edges@.len(),
    ensures
        exists|l: int|
            0 <= l < wires_occs(fo, ws).len() && (#[trigger] wires_occs(fo, ws)[l]).0
                == ws[j].edges@[k].id,
    decreases ws.len(),
{
    if j == ws.len() - 1 {
        let base = wires_occs(fo, ws.drop_last()).len() as int;
        let es = ws.last().edges@;
        assert(wires_occs(fo, ws)[base + k] == wire_occs(fo, es)[k]);
        assert(wire_occs(fo, es)[k].0 == ws[j].edges@[k].id);
    } else {
        assert(ws.drop_last()[j] == ws[j]);
        lemma_wires_pos_occ(fo, ws.drop_last(), j, k);
        let l = choose|l: int|
            0 <= l < wires_occs(fo, ws.drop_last()).len() && (#[trigger] wires_occs(
                fo,
                ws.drop_last(),
            )[l]).0 == ws.drop_last()[j].edges@[k].id;
        assert(wires_occs(fo, ws)[l] == wires_occs(fo, ws.drop_last())[l]);
    }
}

/// The edge at any boundary position of any face is among the shell's
/// traversed edges.
proof fn lemma_pos_uses_edge(fs: Seq<Face>, i: int, j: int, k: int)
    requires
        0 <= i < fs.len(),
        0 <= j < fs[i].boundaries@.len(),
        0 <= k < fs[i].boundaries@[j].edges@.len(),
    ensures
        shell_uses_edge(fs, fs[i].boundaries@[j].edges@[k].id as int),
    decreases fs.len(),
{
    if i == fs.len() - 1 {
        let f = fs.last();
        lemma_wires_pos_occ(f.orientation, f.boundaries@, j, k);
        let l = choose|l: int|
            0 <= l < wires_occs(f.orientation, f.boundaries@).len() && (#[trigger] wires_occs(
                f.orientation,
                f.boundaries@,
            )[l]).0 == f.boundaries@[j].edges@[k].id;
        let base = faces_occs(fs.drop_last()).len() as int;
        assert(faces_occs(fs)[base + l] == wires_occs(f.orientation, f.boundaries@)[l]);
    } else {
        assert(fs.drop_last()[i] == fs[i]);
        lemma_pos_uses_edge(fs.drop_last(), i, j, k);
        let e = fs[i].boundaries@[j].edges@[k].id as int;
        let l = choose|l: int|
            0 <= l < faces_occs(fs.drop_last()).len() && (#[trigger] faces_occs(fs.drop_last())[l]).0
                == e;
        assert(faces_occs(fs)[l] == faces_occs(fs.drop_last())[l]);
    }
}

/// One interning step preserves the traversal bookkeeping: after edge
/// `occs[l].0` is interned, every earlier occurrence is still interned, and
/// the memo tables still cover exactly the occurrences seen so far.
proof fn lemma_intern_step(
    reg: Registry,
    occs: Seq<(usize, bool)>,
    l: int,
    id: usize,
    pre_vmap: Seq<Option<usize>>,
    pre_emap: Seq<Option<usize>>,
    vmap: Seq<Option<usize>>,
    emap: Seq<Option<usize>>,
)
    requires
        0 <= l < occs.len(),
        id == occs[l].0,
        emap.len() == pre_emap.len(),
        vmap.len() == pre_vmap.len(),
        (id as int) < pre_emap.len(),
        (id as int) < reg.edges@.len(),
        emap[id as int] is Some,
        forall|x: int|
            0 <= x < pre_emap.len() && (#[trigger] pre_emap[x]) is Some ==> emap[x] == pre_emap[x],
        forall|x: int|
            0 <= x < pre_emap.len() && (#[trigger] emap[x]) is Some ==> pre_emap[x] is Some || x
                == id,
        forall|x: int|
            0 <= x < pre_vmap.len() && (#[trigger] pre_vmap[x]) is Some ==> vmap[x] == pre_vmap[x],
        forall|x: int|
            0 <= x < pre_vmap.len() && (#[trigger] vmap[x]) is Some ==> pre_vmap[x] is Some || x
                == reg.edges@[id as int].front || x == reg.edges@[id as int].back,
        forall|l2: int|
            0 <= l2 < l ==> ((#[trigger] occs[l2]).0 as int) < pre_emap.len()
                && pre_emap[occs[l2].0 as int] is Some,
        forall|e: int|
            0 <= e < pre_emap.len() && (#[trigger] pre_emap[e]) is Some ==> exists|l2: int|
                0 <= l2 < l && ((#[trigger] occs[l2]).0 as int) == e,
        forall|v: int|
            0 <= v < pre_vmap.len() && (#[trigger] pre_vmap[v]) is Some ==> exists|e: int|
                0 <= e < pre_emap.len() && (#[trigger] pre_emap[e]) is Some && (reg.edges@[e].front
                    == v || reg.edges@[e].back == v),
    ensures
        forall|l2: int|
            0 <= l2 < l + 1 ==> ((#[trigger] occs[l2]).0 as int) < emap.len()
                && emap[occs[l2].0 as int] is Some,
        forall|e: int|
            0 <= e < emap.len() && (#[trigger] emap[e]) is Some ==> exists|l2: int|
                0 <= l2 < l + 1 && ((#[trigger] occs[l2]).0 as int) == e,
        forall|v: int|
            0 <= v < vmap.len() && (#[trigger] vmap[v]) is Some ==> exists|e: int|
                0 <= e < emap.len() && (#[trigger] emap[e]) is Some && (reg.edges@[e].front == v
                    || reg.edges@[e].back == v),
{
    assert forall|l2: int|
        0 <= l2 < l + 1 implies ((#[trigger] occs[l2]).0 as int) < emap.len()
        && emap[occs[l2].0 as int] is Some by {
        if l2 < l {
            assert(((occs[l2]).0 as int) < pre_emap.len() && pre_emap[occs[l2].0 as int]
                is Some);
        }
    }
    assert forall|e: int|
        0 <= e < emap.len() && (#[trigger] emap[e]) is Some implies exists|l2: int|
        0 <= l2 < l + 1 && ((#[trigger] occs[l2]).0 as int) == e by {
        if pre_emap[e] is Some {
            let l2 = choose|l2: int| 0 <= l2 < l && ((#[trigger] occs[l2]).0 as int) == e;
            assert(0 <= l2 < l + 1 && (occs[l2].0 as int) == e);
        } else {
            assert(e == id as int);
            assert((occs[l].0 as int) == e);
        }
    }
    assert forall|v: int|
        0 <= v < vmap.len() && (#[trigger] vmap[v]) is Some implies exists|e: int|
        0 <= e < emap.len() && (#[trigger] emap[e]) is Some && (reg.edges@[e].front == v
            || reg.edges@[e].back == v) by {
        if pre_vmap[v] is Some {
            let e = choose|e: int|
                0 <= e < pre_emap.len() && (#[trigger] pre_emap[e]) is Some && (reg.edges@[e].front
                    == v || reg.edges@[e].back == v);
            assert(emap[e] is Some);
        } else {
            assert(v == reg.edges@[id as int].front || v == reg.edges@[id as int].back);
            assert(emap[id as int] is Some);
        }
    }
}

/// Map a vertex identity to its compact position, assigning the next free
/// position and emitting the payload on first visit. The ghost reverse
/// table records which identity owns each emitted position.
fn intern_vertex(
    reg: &Registry,
    v: usize,
    vmap: &mut Vec<Option<usize>>,
    outv: &mut Vec<u64>,
    Ghost(rv): Ghost<Seq<int>>,
) -> (res: (usize, Ghost<Seq<int>>))
    requires
        (v as int) < reg.points@.len(),
        vtable_ok(*reg, old(vmap)@, old(outv)@),
        rev_ok(old(vmap)@, rv, old(outv)@.len() as int),
    ensures
        vtable_ok(*reg, final(vmap)@, final(outv)@),
        rev_ok(final(vmap)@, res.1@, final(outv)@.len() as int),
        final(vmap)@.len() == old(vmap)@.len(),
        final(vmap)@[v as int] == Some(res.0),
        forall|x: int|
            0 <= x < old(vmap)@.len() && (#[trigger] old(vmap)@[x]) is Some ==> final(vmap)@[x]
                == old(vmap)@[x],
        forall|x: int|
            0 <= x < old(vmap)@.len() && (#[trigger] final(vmap)@[x]) is Some ==> old(vmap)@[x]
                is Some || x == v,
        forall|m: int| 0 <= m < old(outv)@.len() ==> final(outv)@[m] == old(outv)@[m],
        old(outv)@.len() <= final(outv)@.len(),
{
    let cur = vmap[v];
    match cur {
        Some(n) => (n, Ghost(rv)),
        None => {
            let n = outv.len();
            outv.push(reg.point_at(v));
            vmap.set(v, Some(n));
            let ghost rv2 = rv.push(v as int);
            proof {
                assert forall|x: int|
                    0 <= x < vmap@.len() && (#[trigger] vmap@[x]) is Some implies (vmap@[x]->0
                    as int) < outv@.len() && outv@[vmap@[x]->0 as int] == reg.points@[x] by {
                    if x != v as int {
                        assert(vmap@[x] == old(vmap)@[x]);
                        assert(outv@[vmap@[x]->0 as int] == old(outv)@[vmap@[x]->0 as int]);
                    } else {
                        assert(outv@[n as int] == reg.points@[v as int]);
                    }
                }
                assert forall|x1: int, x2: int|
                    0 <= x1 < vmap@.len() && 0 <= x2 < vmap@.len() && (#[trigger] vmap@[x1])
                    is Some && (#[trigger] vmap@[x2]) is Some && vmap@[x1]->0 == vmap@[x2]->0
                    implies x1 == x2 by {
                    if x1 == v as int && x2 != v as int {
                        assert((old(vmap)@[x2]->0 as int) < old(outv)@.len());
                    } else if x2 == v as int && x1 != v as int {
                        assert((old(vmap)@[x1]->0 as int) < old(outv)@.len());
                    }
                }
                assert forall|n2: int| 0 <= n2 < rv2.len() implies 0 <= #[trigger] rv2[n2]
                    < vmap@.len() && vmap@[rv2[n2]] is Some && (vmap@[rv2[n2]]->0 as int)
                    == n2 by {
                    if n2 < rv2.len() - 1 {
                        assert(rv2[n2] == rv[n2]);
                        assert(old(vmap)@[rv[n2]] is Some && (old(vmap)@[rv[n2]]->0 as int) == n2);
                        assert(rv[n2] != v as int);
                        assert(vmap@[rv[n2]] == old(vmap)@[rv[n2]]);
                    } else {
                        assert(rv2[n2] == v as int);
                        assert(vmap@[v as int] == Some(n));
                    }
                }
            }
            (n, Ghost(rv2))
        },
    }
}

/// Map an edge identity to its compact position, interning its endpoint
/// vertices and emitting its payload on first visit.
#[verifier::rlimit(50)]
fn intern_edge(
    reg: &Registry,
    id: usize,
    vmap: &mut Vec<Option<usize>>,
    emap: &mut Vec<Option<usize>>,
    outv: &mut Vec<u64>,
    oute: &mut Vec<CompressedEdge>,
    Ghost(rv): Ghost<Seq<int>>,
    Ghost(re): Ghost<Seq<int>>,
) -> (res: (Ghost<Seq<int>>, Ghost<Seq<int>>))
    requires
        reg.wf(),
        (id as int) < reg.edges@.len(),
        vtable_ok(*reg, old(vmap)@, old(outv)@),
        etable_ok(*reg, old(vmap)@, old(emap)@, old(oute)@),
        rev_ok(old(vmap)@, rv, old(outv)@.len() as int),
        rev_ok(old(emap)@, re, old(oute)@.len() as int),
    ensures
        vtable_ok(*reg, final(vmap)@, final(outv)@),
        etable_ok(*reg, final(vmap)@, final(emap)@, final(oute)@),
        rev_ok(final(vmap)@, res.0@, final(outv)@.len() as int),
        rev_ok(final(emap)@, res.1@, final(oute)@.len() as int),
        final(vmap)@.len() == old(vmap)@.len(),
        final(emap)@.len() == old(emap)@.len(),
        final(emap)@[id as int] is Some,
        forall|x: int|
            0 <= x < old(emap)@.len() && (#[trigger] old(emap)@[x]) is Some ==> final(emap)@[x]
                == old(emap)@[x],
        forall|x: int|
            0 <= x < old(emap)@.len() && (#[trigger] final(emap)@[x]) is Some ==> old(emap)@[x]
                is Some || x == id,
        forall|x: int|
            0 <= x < old(vmap)@.len() && (#[trigger] old(vmap)@[x]) is Some ==> final(vmap)@[x]
                == old(vmap)@[x],
        forall|x: int|
            0 <= x < old(vmap)@.len() && (#[trigger] final(vmap)@[x]) is Some ==> old(vmap)@[x]
                is Some || x == reg.edges@[id as int].front || x == reg.edges@[id as int].back,
{
    let cur = emap[id];
    if cur.is_none() {
        let ghost pre_vmap = vmap@;
        let ghost pre_emap = emap@;
        let ghost pre_oute = oute@;
        let rec = reg.edge_at(id);
        let r1 = intern_vertex(reg, rec.front, vmap, outv, Ghost(rv));
        let fi = r1.0;
        let ghost mid_vmap = vmap@;
        let r2 = intern_vertex(reg, rec.back, vmap, outv, r1.1);
        let bi = r2.0;
        let n = oute.len();
        emap.set(id, Some(n));
        oute.push(CompressedEdge { front: fi, back: bi, curve: rec.curve });
        let ghost re2 = re.push(id as int);
        proof {
            assert(vmap@[rec.front as int] == Some(fi));
            assert(vmap@[rec.back as int] == Some(bi));
            assert forall|e: int|
                0 <= e < emap@.len() && (#[trigger] emap@[e]) is Some implies {
                let r3 = reg.edges@[e];
                &&& (emap@[e]->0 as int) < oute@.len()
                &&& (r3.front as int) < vmap@.len() && vmap@[r3.front as int] is Some
                &&& (r3.back as int) < vmap@.len() && vmap@[r3.back as int] is Some
                &&& oute@[emap@[e]->0 as int] == (CompressedEdge {
                    front: vmap@[r3.front as int]->0,
                    back: vmap@[r3.back as int]->0,
                    curve: r3.curve,
                })
            } by {
                if e != id {
                    assert(pre_emap[e] is Some);
                    assert(pre_vmap[reg.edges@[e].front as int] is Some);
                    assert(pre_vmap[reg.edges@[e].back as int] is Some);
                    assert(vmap@[reg.edges@[e].front as int] == pre_vmap[reg.edges@[e].front
                        as int]);
                    assert(vmap@[reg.edges@[e].back as int] == pre_vmap[reg.edges@[e].back
                        as int]);
                    assert(oute@[pre_emap[e]->0 as int] == pre_oute[pre_emap[e]->0 as int]);
                } else {
                    assert(oute@[n as int] == (CompressedEdge {
                        front: fi,
                        back: bi,
                        curve: rec.curve,
                    }));
                }
            }
            assert forall|e1: int, e2: int|
                0 <= e1 < emap@.len() && 0 <= e2 < emap@.len() && (#[trigger] emap@[e1]) is Some
                    && (#[trigger] emap@[e2]) is Some && emap@[e1]->0 == emap@[e2]->0 implies e1
                == e2 by {
                if e1 == id as int && e2 != id as int {
                    assert(pre_emap[e2] is Some);
                    assert((pre_emap[e2]->0 as int) < pre_oute.len());
                } else if e2 == id as int && e1 != id as int {
                    assert(pre_emap[e1] is Some);
                    assert((pre_emap[e1]->0 as int) < pre_oute.len());
                }
            }
            assert forall|n2: int| 0 <= n2 < re2.len() implies 0 <= #[trigger] re2[n2]
                < emap@.len() && emap@[re2[n2]] is Some && (emap@[re2[n2]]->0 as int) == n2 by {
                if n2 < re2.len() - 1 {
                    assert(re2[n2] == re[n2]);
                    assert(pre_emap[re[n2]] is Some && (pre_emap[re[n2]]->0 as int) == n2);
                    assert(re[n2] != id as int);
                    assert(emap@[re[n2]] == pre_emap[re[n2]]);
                } else {
                    assert(re2[n2] == id as int);
                    assert(emap@[id as int] == Some(n));
                }
            }
            assert forall|x: int|
                0 <= x < pre_vmap.len() && (#[trigger] vmap@[x]) is Some implies pre_vmap[x]
                is Some || x == rec.front as int || x == rec.back as int by {
                if !(pre_vmap[x] is Some) && !(mid_vmap[x] is Some) {
                    assert(x == rec.back as int);
                }
            }
        }
        (r2.1, Ghost(re2))
    } else {
        (Ghost(rv), Ghost(re))
    }
}

/// A wire rebuilt from a valid boundary is well-formed and closed in the
/// rebuilt registry.
proof fn lemma_extracted_wire_wf(
    c: CompressedShell,
    reg: Registry,
    b: Seq<CompressedEdgeIndex>,
    w: Wire,
)
    requires
        reg.points@ == c.vertices@,
        reg.edges@.len() == c.edges@.len(),
        forall|e: int|
            0 <= e < c.edges@.len() ==> reg.edges@[e] == (EdgeRecord {
                front: (#[trigger] c.edges@[e]).front,
                back: c.edges@[e].back,
                curve: c.edges@[e].curve,
            }),
        cboundary_idx_ok(c, b),
        cboundary_chained(c, b),
        cboundary_closed(c, b),
        wire_extract_rel(b, w),
    ensures
        w.wf(reg),
        closed_chain(reg, w.edges@),
{
    assert forall|k: int| 0 <= k < w.edges@.len() implies (#[trigger] w.edges@[k]).valid(reg) by {
        assert(b[k].index < c.edges@.len());
    }
    assert forall|k: int| 0 <= k < w.edges@.len() implies (#[trigger] w.edges@[k]).spec_src(reg)
        == centry_src(c, b[k]) && w.edges@[k].spec_dst(reg) == centry_dst(c, b[k]) by {
        assert(reg.edges@[b[k].index as int] == (EdgeRecord {
            front: c.edges@[b[k].index as int].front,
            back: c.edges@[b[k].index as int].back,
            curve: c.edges@[b[k].index as int].curve,
        }));
    }
    assert forall|k: int| 0 <= k && k + 1 < w.edges@.len() implies (
    #[trigger] w.edges@[k]).spec_dst(reg) == w.edges@[k + 1].spec_src(reg) by {
        assert(centry_dst(c, b[k]) == centry_src(c, b[k + 1]));
    }
}

/// Rebuild a registry and shell from an archive. Succeeds iff the archive
/// passes every constructor-level check; the rebuilt graph mirrors the
/// archive exactly, with fresh identities equal to table positions. On
/// failure nothing is returned: no partially-built entity escapes.
pub fn extract(c: &CompressedShell) -> (r: Result<(Registry, Shell), TopologyError>)
    ensures
        r is Ok <==> archive_ok(*c),
        r is Ok ==> extract_rel(*c, r->Ok_0.0, r->Ok_0.1),
        r is Err ==> r->Err_0 == expected_error(*c),
{
    let nv = c.vertices.len();
    let ne = c.edges.len();
    let nf = c.faces.len();
    // Arity and index validation: the edge table first.
    let mut e: usize = 0;
    while e < ne
        invariant
            ne == c.edges@.len(),
            nv == c.vertices@.len(),
            e <= ne,
            forall|e2: int|
                0 <= e2 < e ==> (#[trigger] c.edges@[e2]).front < nv && c.edges@[e2].back < nv,
        decreases ne - e,
    {
        if c.edges[e].front >= nv || c.edges[e].back >= nv {
            return Err(TopologyError::MalformedArchive);
        }
        e += 1;
    }
    // Then every face's arity and references.
    let mut i: usize = 0;
    while i < nf
        invariant
            nf == c.faces@.len(),
            ne == c.edges@.len(),
            i <= nf,
            forall|i2: int| 0 <= i2 < i ==> cface_idx_ok(*c, #[trigger] c.faces@[i2]),
        decreases nf - i,
    {
        let nb = c.faces[i].boundaries.len();
        if nb == 0 {
            return Err(TopologyError::MalformedArchive);
        }
        let mut j: usize = 0;
        while j < nb
            invariant
                nf == c.faces@.len(),
                ne == c.edges@.len(),
                i < nf,
                nb == c.faces@[i as int].boundaries@.len(),
                j <= nb,
                forall|j2: int|
                    0 <= j2 < j ==> cboundary_idx_ok(
                        *c,
                        (#[trigger] c.faces@[i as int].boundaries@[j2])@,
                    ),
            decreases nb - j,
        {
            let bl = c.faces[i].boundaries[j].len();
            let mut k: usize = 0;
            while k < bl
                invariant
                    nf == c.faces@.len(),
                    ne == c.edges@.len(),
                    i < nf,
                    j < c.faces@[i as int].boundaries@.len(),
                    bl == c.faces@[i as int].boundaries@[j as int]@.len(),
                    k <= bl,
                    forall|k2: int|
                        0 <= k2 < k ==> (#[trigger] c.faces@[i as int].boundaries@[j as int]@[k2]).index
                            < ne,
                decreases bl - k,
            {
                if c.faces[i].boundaries[j][k].index >= ne {
                    return Err(TopologyError::MalformedArchive);
                }
                k += 1;
            }
            j += 1;
        }
        i += 1;
    }
    assert(archive_edges_ok(*c));
    assert(archive_faces_ok(*c));
    // Every boundary must chain end-to-end.
    let mut i: usize = 0;
    while i < nf
        invariant
            nf == c.faces@.len(),
            ne == c.edges@.len(),
            nv == c.vertices@.len(),
            archive_edges_ok(*c),
            archive_faces_ok(*c),
            i <= nf,
            forall|i2: int, j2: int|
                0 <= i2 < i && 0 <= j2 < (#[trigger] c.faces@[i2]).boundaries@.len()
                    ==> cboundary_chained(*c, (#[trigger] c.faces@[i2].boundaries@[j2])@),
        decreases nf - i,
    {
        let nb = c.faces[i].boundaries.len();
        let mut j: usize = 0;
        while j < nb
            invariant
                nf == c.faces@.len(),
                ne == c.edges@.len(),
                archive_edges_ok(*c),
                archive_faces_ok(*c),
                i < nf,
                nb == c.faces@[i as int].boundaries@.len(),
                j <= nb,
                forall|i2: int, j2: int|
                    0 <= i2 < i && 0 <= j2 < (#[trigger] c.faces@[i2]).boundaries@.len()
                        ==> cboundary_chained(*c, (#[trigger] c.faces@[i2].boundaries@[j2])@),
                forall|j2: int|
                    0 <= j2 < j ==> cboundary_chained(
                        *c,
                        (#[trigger] c.faces@[i as int].boundaries@[j2])@,
                    ),
            decreases nb - j,
        {
            let bl = c.faces[i].boundaries[j].len();
            let mut k: usize = 0;
            while k < bl && k + 1 < bl
                invariant
                    nf == c.faces@.len(),
                    ne == c.edges@.len(),
                    archive_edges_ok(*c),
                    archive_faces_ok(*c),
                    i < nf,
                    j < c.faces@[i as int].boundaries@.len(),
                    bl == c.faces@[i as int].boundaries@[j as int]@.len(),
                    k <= bl,
                    forall|k2: int|
                        0 <= k2 && k2 + 1 < bl && k2 < k ==> centry_dst(
                            *c,
                            #[trigger] c.faces@[i as int].boundaries@[j as int]@[k2],
                        ) == centry_src(*c, c.faces@[i as int].boundaries@[j as int]@[k2 + 1]),
                decreases bl - k,
            {
                let x = c.faces[i].boundaries[j][k];
                let y = c.faces[i].boundaries[j][k + 1];
                let xd = if x.orientation {
                    c.edges[x.index].back
                } else {
                    c.edges[x.index].front
                };
                let ys = if y.orientation {
                    c.edges[y.index].front
                } else {
                    c.edges[y.index].back
                };
                if xd != ys {
                    assert(!cboundary_chained(*c, c.faces@[i as int].boundaries@[j as int]@));
                    return Err(TopologyError::DisconnectedBoundary);
                }
                k += 1;
            }
            j += 1;
        }
        i += 1;
    }
    assert(archive_chained(*c));
    // Every boundary must be a closed loop.
    let mut i: usize = 0;
    while i < nf
        invariant
            nf == c.faces@.len(),
            ne == c.edges@.len(),
            archive_edges_ok(*c),
            archive_faces_ok(*c),
            archive_chained(*c),
            i <= nf,
            forall|i2: int, j2: int|
                0 <= i2 < i && 0 <= j2 < (#[trigger] c.faces@[i2]).boundaries@.len()
                    ==> cboundary_closed(*c, (#[trigger] c.faces@[i2].boundaries@[j2])@),
        decreases nf - i,
    {
        let nb = c.faces[i].boundaries.len();
        let mut j: usize = 0;
        while j < nb
            invariant
                nf == c.faces@.len(),
                ne == c.edges@.len(),
                archive_edges_ok(*c),
                archive_faces_ok(*c),
                archive_chained(*c),
                i < nf,
                nb == c.faces@[i as int].boundaries@.len(),
                j <= nb,
                forall|i2: int, j2: int|
                    0 <= i2 < i && 0 <= j2 < (#[trigger] c.faces@[i2]).boundaries@.len()
                        ==> cboundary_closed(*c, (#[trigger] c.faces@[i2].boundaries@[j2])@),
                forall|j2: int|
                    0 <= j2 < j ==> cboundary_closed(
                        *c,
                        (#[trigger] c.faces@[i as int].boundaries@[j2])@,
                    ),
            decreases nb - j,
        {
            let bl = c.faces[i].boundaries[j].len();
            if bl == 0 {
                return Err(TopologyError::UnclosedBoundary);
            }
            let x = c.faces[i].boundaries[j][0];
            let y = c.faces[i].boundaries[j][bl - 1];
            let xs = if x.orientation {
                c.edges[x.index].front
            } else {
                c.edges[x.index].back
            };
            let yd = if y.orientation {
                c.edges[y.index].back
            } else {
                c.edges[y.index].front
            };
            if xs != yd {
                assert(!cboundary_closed(*c, c.faces@[i as int].boundaries@[j as int]@));
                return Err(TopologyError::UnclosedBoundary);
            }
            j += 1;
        }
        i += 1;
    }
    assert(archive_ok(*c));
    // Rebuild the registry: one fresh vertex and edge per table entry.
    let mut reg = Registry::new();
    let mut t: usize = 0;
    while t < nv
        invariant
            nv == c.vertices@.len(),
            t <= nv,
            reg.points@ == c.vertices@.take(t as int),
            reg.edges@.len() == 0,
        decreases nv - t,
    {
        reg.points.push(c.vertices[t]);
        proof {
            assert(c.vertices@.take(t + 1) =~= c.vertices@.take(t as int).push(
                c.vertices@[t as int],
            ));
        }
        t += 1;
    }
    proof {
        assert(c.vertices@.take(nv as int) =~= c.vertices@);
    }
    let mut t: usize = 0;
    while t < ne
        invariant
            ne == c.edges@.len(),
            t <= ne,
            reg.points@ == c.vertices@,
            reg.edges@.len() == t,
            forall|e2: int|
                0 <= e2 < t ==> reg.edges@[e2] == (EdgeRecord {
                    front: (#[trigger] c.edges@[e2]).front,
                    back: c.edges@[e2].back,
                    curve: c.edges@[e2].curve,
                }),
        decreases ne - t,
    {
        let ce = c.edges[t];
        reg.edges.push(EdgeRecord { front: ce.front, back: ce.back, curve: ce.curve });
        t += 1;
    }
    proof {
        assert forall|e2: int| 0 <= e2 < reg.edges@.len() implies (
        #[trigger] reg.edges@[e2]).front < reg.points@.len() && reg.edges@[e2].back
            < reg.points@.len() by {
            assert(c.edges@[e2].front < nv && c.edges@[e2].back < nv);
        }
        assert(reg.wf());
    }
    // Rebuild the shell, mirroring the archive's faces.
    let mut faces: Vec<Face> = Vec::new();
    let mut i: usize = 0;
    while i < nf
        invariant
            nf == c.faces@.len(),
            ne == c.edges@.len(),
            nv == c.vertices@.len(),
            archive_ok(*c),
            reg.points@ == c.vertices@,
            reg.edges@.len() == c.edges@.len(),
            forall|e2: int|
                0 <= e2 < ne ==> reg.edges@[e2] == (EdgeRecord {
                    front: (#[trigger] c.edges@[e2]).front,
                    back: c.edges@[e2].back,
                    curve: c.edges@[e2].curve,
                }),
            reg.wf(),
            i <= nf,
            faces@.len() == i,
            forall|i2: int|
                0 <= i2 < i ==> face_extract_rel(#[trigger] c.faces@[i2], faces@[i2]),
            forall|i2: int| 0 <= i2 < i ==> (#[trigger] faces@[i2]).wf(reg),
        decreases nf - i,
    {
        let nb = c.faces[i].boundaries.len();
        let mut bs: Vec<Wire> = Vec::new();
        let mut j: usize = 0;
        while j < nb
            invariant
                nf == c.faces@.len(),
                ne == c.edges@.len(),
                archive_ok(*c),
                reg.points@ == c.vertices@,
                reg.edges@.len() == c.edges@.len(),
                forall|e2: int|
                    0 <= e2 < ne ==> reg.edges@[e2] == (EdgeRecord {
                        front: (#[trigger] c.edges@[e2]).front,
                        back: c.edges@[e2].back,
                        curve: c.edges@[e2].curve,
                    }),
                i < nf,
                nb == c.faces@[i as int].boundaries@.len(),
                j <= nb,
                bs@.len() == j,
                forall|j2: int|
                    0 <= j2 < j ==> wire_extract_rel(
                        (#[trigger] c.faces@[i as int].boundaries@[j2])@,
                        bs@[j2],
                    ),
                forall|j2: int|
                    0 <= j2 < j ==> (#[trigger] bs@[j2]).wf(reg) && closed_chain(
                        reg,
                        bs@[j2].edges@,
                    ),
            decreases nb - j,
        {
            let bl = c.faces[i].boundaries[j].len();
            let mut es: Vec<Edge> = Vec::new();
            let mut k: usize = 0;
            while k < bl
                invariant
                    nf == c.faces@.len(),
                    i < nf,
                    j < c.faces@[i as int].boundaries@.len(),
                    bl == c.faces@[i as int].boundaries@[j as int]@.len(),
                    k <= bl,
                    es@.len() == k,
                    forall|k2: int|
                        0 <= k2 < k ==> es@[k2] == (Edge {
                            id: (#[trigger] c.faces@[i as int].boundaries@[j as int]@[k2]).index,
                            orientation: c.faces@[i as int].boundaries@[j as int]@[k2].orientation,
                        }),
                decreases bl - k,
            {
                let x = c.faces[i].boundaries[j][k];
                es.push(Edge { id: x.index, orientation: x.orientation });
                k += 1;
            }
            let w = Wire { edges: es };
            proof {
                assert(wire_extract_rel(c.faces@[i as int].boundaries@[j as int]@, w));
                lemma_extracted_wire_wf(*c, reg, c.faces@[i as int].boundaries@[j as int]@, w);
            }
            bs.push(w);
            j += 1;
        }
        let cf_orientation = c.faces[i].orientation;
        let cf_surface = c.faces[i].surface;
        let f = Face { boundaries: bs, orientation: cf_orientation, surface: cf_surface };
        proof {
            assert(face_extract_rel(c.faces@[i as int], f));
            assert(f.boundaries@.len() >= 1) by {
                assert(cface_idx_ok(*c, c.faces@[i as int]));
            }
            assert(f.wf(reg));
        }
        faces.push(f);
        i += 1;
    }
    let sh = Shell { faces };
    Ok((reg, sh))
}

/// Compress a shell: walk its faces, assign each newly-encountered vertex
/// and edge identity the next compact index (memoized by identity), emit
/// each payload exactly once, and record every boundary as an oriented index
/// list. The returned archive is related to the shell by `compress_rel`
/// under the witnessing identity-to-index tables.
#[verifier::rlimit(100)]
pub fn compress(reg: &Registry, sh: &Shell) -> (r: CompressedShell)
    requires
        reg.wf(),
        sh.wf(*reg),
    ensures
        exists|vm: Seq<Option<usize>>, em: Seq<Option<usize>>, rv: Seq<int>, re: Seq<int>|
            compress_rel(*reg, sh.faces@, r, vm, em, rv, re),
{
    let ghost fs = sh.faces@;
    let np = reg.points.len();
    let ne_reg = reg.edges.len();
    let occs = sh.occurrences();
    proof {
        lemma_faces_occs_ids(*reg, fs);
    }
    let mut vmap: Vec<Option<usize>> = Vec::new();
    let mut t: usize = 0;
    while t < np
        invariant
            t <= np,
            vmap@.len() == t,
            forall|x: int| 0 <= x < t ==> (#[trigger] vmap@[x]) is None,
        decreases np - t,
    {
        vmap.push(None);
        t += 1;
    }
    let mut emap: Vec<Option<usize>> = Vec::new();
    let mut t: usize = 0;
    while t < ne_reg
        invariant
            t <= ne_reg,
            emap@.len() == t,
            forall|x: int| 0 <= x < t ==> (#[trigger] emap@[x]) is None,
        decreases ne_reg - t,
    {
        emap.push(None);
        t += 1;
    }
    let mut outv: Vec<u64> = Vec::new();
    let mut oute: Vec<CompressedEdge> = Vec::new();
    let ghost mut grv: Seq<int> = Seq::empty();
    let ghost mut gre: Seq<int> = Seq::empty();
    // First pass: intern every traversed edge and its endpoints, in
    // traversal order.
    let mut l: usize = 0;
    #[verifier::rlimit(100)]
    while l < occs.len()
        invariant
            fs == sh.faces@,
            occs@ == faces_occs(fs),
            np == reg.points@.len(),
            ne_reg == reg.edges@.len(),
            reg.wf(),
            l <= occs@.len(),
            forall|l2: int|
                0 <= l2 < occs@.len() ==> ((#[trigger] occs@[l2]).0 as int) < ne_reg,
            vtable_ok(*reg, vmap@, outv@),
            etable_ok(*reg, vmap@, emap@, oute@),
            rev_ok(vmap@, grv, outv@.len() as int),
            rev_ok(emap@, gre, oute@.len() as int),
            forall|l2: int|
                0 <= l2 < l ==> ((#[trigger] occs@[l2]).0 as int) < emap@.len()
                    && emap@[occs@[l2].0 as int] is Some,
            forall|e: int|
                0 <= e < emap@.len() && (#[trigger] emap@[e]) is Some ==> exists|l2: int|
                    0 <= l2 < l && ((#[trigger] occs@[l2]).0 as int) == e,
            forall|v: int|
                0 <= v < vmap@.len() && (#[trigger] vmap@[v]) is Some ==> exists|e: int|
                    0 <= e < emap@.len() && (#[trigger] emap@[e]) is Some && (reg.edges@[e].front
                        == v || reg.edges@[e].back == v),
        decreases occs@.len() - l,
    {
        let id = occs[l].0;
        let ghost pre_vmap = vmap@;
        let ghost pre_emap = emap@;
        let gres = intern_edge(
            reg,
            id,
            &mut vmap,
            &mut emap,
            &mut outv,
            &mut oute,
            Ghost(grv),
            Ghost(gre),
        );
        proof {
            grv = gres.0@;
            gre = gres.1@;
            lemma_intern_step(*reg, occs@, l as int, id, pre_vmap, pre_emap, vmap@, emap@);
        }
        l += 1;
    }
    proof {
        assert forall|e: int| 0 <= e < emap@.len() implies ((#[trigger] emap@[e]) is Some
            <==> shell_uses_edge(fs, e)) by {
            if shell_uses_edge(fs, e) {
                let l2 = choose|l2: int|
                    0 <= l2 < faces_occs(fs).len() && (#[trigger] faces_occs(fs)[l2]).0 == e;
                assert(emap@[occs@[l2].0 as int] is Some);
            }
        }
        assert forall|v: int| 0 <= v < vmap@.len() implies ((#[trigger] vmap@[v]) is Some
            <==> shell_uses_vertex(*reg, fs, v)) by {
            if vmap@[v] is Some {
                let e = choose|e: int|
                    0 <= e < emap@.len() && (#[trigger] emap@[e]) is Some && (reg.edges@[e].front
                        == v || reg.edges@[e].back == v);
                assert(shell_uses_edge(fs, e));
                assert(shell_uses_vertex(*reg, fs, v));
            }
            if shell_uses_vertex(*reg, fs, v) {
                let e = choose|e: int|
                    0 <= e < reg.edges@.len() && #[trigger] shell_uses_edge(fs, e) && (
                    reg.edges@[e].front == v || reg.edges@[e].back == v);
                assert(emap@[e] is Some);
            }
        }
    }
    // Second pass: record every boundary as an oriented index list.
    let mut outf: Vec<CompressedFace> = Vec::new();
    let nf = sh.faces.len();
    let mut i: usize = 0;
    while i < nf
        invariant
            fs == sh.faces@,
            nf == fs.len(),
            ne_reg == reg.edges@.len(),
            np == reg.points@.len(),
            reg.wf(),
            sh.wf(*reg),
            vtable_ok(*reg, vmap@, outv@),
            etable_ok(*reg, vmap@, emap@, oute@),
            rev_ok(vmap@, grv, outv@.len() as int),
            rev_ok(emap@, gre, oute@.len() as int),
            forall|v: int|
                0 <= v < vmap@.len() ==> ((#[trigger] vmap@[v]) is Some <==> shell_uses_vertex(
                    *reg,
                    fs,
                    v,
                )),
            forall|e: int|
                0 <= e < emap@.len() ==> ((#[trigger] emap@[e]) is Some <==> shell_uses_edge(
                    fs,
                    e,
                )),
            i <= nf,
            outf@.len() == i,
            forall|i2: int|
                0 <= i2 < i ==> face_compress_rel(fs[i2], #[trigger] outf@[i2], emap@),
        decreases nf - i,
    {
        let f = &sh.faces[i];
        let nb = f.boundaries.len();
        let mut bs: Vec<Vec<CompressedEdgeIndex>> = Vec::new();
        let mut j: usize = 0;
        while j < nb
            invariant
                fs == sh.faces@,
                nf == fs.len(),
                ne_reg == reg.edges@.len(),
                sh.wf(*reg),
                etable_ok(*reg, vmap@, emap@, oute@),
                forall|e: int|
                    0 <= e < emap@.len() ==> ((#[trigger] emap@[e]) is Some <==> shell_uses_edge(
                        fs,
                        e,
                    )),
                i < nf,
                *f == fs[i as int],
                nb == f.boundaries@.len(),
                j <= nb,
                bs@.len() == j,
                forall|j2: int|
                    0 <= j2 < j ==> boundary_compress_rel(
                        fs[i as int].boundaries@[j2].edges@,
                        (#[trigger] bs@[j2])@,
                        emap@,
                    ),
            decreases nb - j,
        {
            let w = &f.boundaries[j];
            let bl = w.edges.len();
            let mut b: Vec<CompressedEdgeIndex> = Vec::new();
            let mut k: usize = 0;
            while k < bl
                invariant
                    fs == sh.faces@,
                    nf == fs.len(),
                    ne_reg == reg.edges@.len(),
                    sh.wf(*reg),
                    etable_ok(*reg, vmap@, emap@, oute@),
                    forall|e: int|
                        0 <= e < emap@.len() ==> ((#[trigger] emap@[e]) is Some
                            <==> shell_uses_edge(fs, e)),
                    i < nf,
                    j < fs[i as int].boundaries@.len(),
                    *w == fs[i as int].boundaries@[j as int],
                    bl == w.edges@.len(),
                    k <= bl,
                    b@.len() == k,
                    forall|k2: int|
                        0 <= k2 < k ==> ((#[trigger] w.edges@[k2]).id as int) < emap@.len()
                            && emap@[w.edges@[k2].id as int] is Some && b@[k2] == (
                        CompressedEdgeIndex {
                            index: emap@[w.edges@[k2].id as int]->0,
                            orientation: w.edges@[k2].orientation,
                        }),
                decreases bl - k,
            {
                let e = w.edges[k];
                proof {
                    assert(fs[i as int].wf(*reg));
                    assert(e.valid(*reg));
                    lemma_pos_uses_edge(fs, i as int, j as int, k as int);
                    assert(emap@[e.id as int] is Some);
                }
                let n = emap[e.id].unwrap();
                b.push(CompressedEdgeIndex { index: n, orientation: e.orientation });
                k += 1;
            }
            bs.push(b);
            j += 1;
        }
        let f_orientation = f.orientation;
        let f_surface = f.surface;
        outf.push(CompressedFace { boundaries: bs, orientation: f_orientation, surface: f_surface });
        proof {
            assert forall|j2: int| 0 <= j2 < fs[i as int].boundaries@.len() implies
                boundary_compress_rel(
                fs[i as int].boundaries@[j2].edges@,
                (#[trigger] outf@[i as int].boundaries@[j2])@,
                emap@,
            ) by {
                assert(outf@[i as int].boundaries@[j2] == bs@[j2]);
            }
            assert(face_compress_rel(fs[i as int], outf@[i as int], emap@));
        }
        i += 1;
    }
    let c = CompressedShell { vertices: outv, edges: oute, faces: outf };
    proof {
        assert(compress_rel(*reg, fs, c, vmap@, emap@, grv, gre));
    }
    c
}

} // verus!
