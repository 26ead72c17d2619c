//! Global laws of the codec: the round-trip theorems relating a compressed
//! archive to the shape it came from and to the shape extraction rebuilds.

use vstd::prelude::*;

use crate::codec::{
    archive_chained, archive_edges_ok, archive_faces_ok, archive_loops_closed, archive_ok,
    boundary_compress_rel, cboundary_chained, cboundary_closed, cboundary_idx_ok, centry_dst,
    centry_src, cface_idx_ok, compress_rel, etable_ok, extract_rel, face_compress_rel,
    face_extract_rel, rev_ok, wire_extract_rel, CompressedEdge, CompressedEdgeIndex,
    CompressedShell,
};
use crate::edge::Edge;
use crate::face::Face;
use crate::registry::{EdgeRecord, Registry};
use crate::shell::Shell;
use crate::wire::{chained, closed_chain};

verus! {

/// The edge handle at boundary position `(i, j, k)`.
pub open spec fn edge_at(fs: Seq<Face>, i: int, j: int, k: int) -> Edge {
    fs[i].boundaries@[j].edges@[k]
}

/// `(i, j, k)` addresses a boundary position of `fs`.
pub open spec fn valid_pos(fs: Seq<Face>, i: int, j: int, k: int) -> bool {
    0 <= i < fs.len() && 0 <= j < fs[i].boundaries@.len() && 0 <= k
        < fs[i].boundaries@[j].edges@.len()
}

/// Round trip: compressing a well-formed shell yields an archive that
/// extraction accepts, and the rebuilt shape is the original up to the
/// injective renaming of identities witnessed by the tables `vm` and `em`.
/// Every boundary position keeps its orientation and its point and curve
/// payload values; its edge identity is renamed through `em` and its
/// endpoint vertex identities through `vm`. Because `compress_rel` makes
/// both tables injective, two positions share an entity after the round
/// trip exactly when they shared it before.
pub proof fn lemma_compress_extract_round_trip(
    reg: Registry,
    sh: Shell,
    c: CompressedShell,
    vm: Seq<Option<usize>>,
    em: Seq<Option<usize>>,
    rv: Seq<int>,
    re: Seq<int>,
    reg2: Registry,
    sh2: Shell,
)
    requires
        reg.wf(),
        sh.wf(reg),
        compress_rel(reg, sh.faces@, c, vm, em, rv, re),
        extract_rel(c, reg2, sh2),
    ensures
        archive_ok(c),
        sh2.faces@.len() == sh.faces@.len(),
        forall|i: int|
            0 <= i < sh.faces@.len() ==> (#[trigger] sh2.faces@[i]).orientation
                == sh.faces@[i].orientation && sh2.faces@[i].surface == sh.faces@[i].surface
                && sh2.faces@[i].boundaries@.len() == sh.faces@[i].boundaries@.len(),
        forall|i: int, j: int|
            0 <= i < sh.faces@.len() && 0 <= j < sh.faces@[i].boundaries@.len() ==> (
            #[trigger] sh2.faces@[i].boundaries@[j]).edges@.len()
                == sh.faces@[i].boundaries@[j].edges@.len(),
        forall|i: int, j: int, k: int|
            valid_pos(sh.faces@, i, j, k) ==> {
                let e = #[trigger] edge_at(sh.faces@, i, j, k);
                let e2 = edge_at(sh2.faces@, i, j, k);
                &&& e2.orientation == e.orientation
                &&& e.valid(reg) && e2.valid(reg2)
                &&& (e.id as int) < em.len() && em[e.id as int] is Some
                &&& e2.id == em[e.id as int]->0
                &&& e2.rec(reg2).curve == e.rec(reg).curve
                &&& (e.rec(reg).front as int) < vm.len() && vm[e.rec(reg).front as int] is Some
                &&& (e.rec(reg).back as int) < vm.len() && vm[e.rec(reg).back as int] is Some
                &&& e2.rec(reg2).front == vm[e.rec(reg).front as int]->0
                &&& e2.rec(reg2).back == vm[e.rec(reg).back as int]->0
                &&& reg2.points@[e2.rec(reg2).front as int] == reg.points@[e.rec(reg).front as int]
                &&& reg2.points@[e2.rec(reg2).back as int] == reg.points@[e.rec(reg).back as int]
            },
{
    let fs = sh.faces@;
    let fs2 = sh2.faces@;
    assert forall|i: int| 0 <= i < fs.len() implies (#[trigger] fs2[i]).orientation
        == fs[i].orientation && fs2[i].surface == fs[i].surface && fs2[i].boundaries@.len()
        == fs[i].boundaries@.len() by {
        assert(face_compress_rel(fs[i], c.faces@[i], em));
        assert(face_extract_rel(c.faces@[i], fs2[i]));
    }
    assert forall|i: int, j: int|
        0 <= i < fs.len() && 0 <= j < fs[i].boundaries@.len() implies (
    #[trigger] fs2[i].boundaries@[j]).edges@.len() == fs[i].boundaries@[j].edges@.len() by {
        assert(face_compress_rel(fs[i], c.faces@[i], em));
        assert(boundary_compress_rel(fs[i].boundaries@[j].edges@, c.faces@[i].boundaries@[j]@, em));
        assert(face_extract_rel(c.faces@[i], fs2[i]));
        assert(wire_extract_rel(c.faces@[i].boundaries@[j]@, fs2[i].boundaries@[j]));
    }
    assert forall|i: int, j: int, k: int| valid_pos(fs, i, j, k) implies {
        let e = #[trigger] edge_at(fs, i, j, k);
        let e2 = edge_at(fs2, i, j, k);
        &&& e2.orientation == e.orientation
        &&& e.valid(reg) && e2.valid(reg2)
        &&& (e.id as int) < em.len() && em[e.id as int] is Some
        &&& e2.id == em[e.id as int]->0
        &&& e2.rec(reg2).curve == e.rec(reg).curve
        &&& (e.rec(reg).front as int) < vm.len() && vm[e.rec(reg).front as int] is Some
        &&& (e.rec(reg).back as int) < vm.len() && vm[e.rec(reg).back as int] is Some
        &&& e2.rec(reg2).front == vm[e.rec(reg).front as int]->0
        &&& e2.rec(reg2).back == vm[e.rec(reg).back as int]->0
        &&& reg2.points@[e2.rec(reg2).front as int] == reg.points@[e.rec(reg).front as int]
        &&& reg2.points@[e2.rec(reg2).back as int] == reg.points@[e.rec(reg).back as int]
    } by {
        let f = fs[i];
        let cf = c.faces@[i];
        let e = edge_at(fs, i, j, k);
        assert(face_compress_rel(f, cf, em));
        assert(boundary_compress_rel(f.boundaries@[j].edges@, cf.boundaries@[j]@, em));
        assert(face_extract_rel(cf, fs2[i]));
        assert(wire_extract_rel(cf.boundaries@[j]@, fs2[i].boundaries@[j]));
        let x = cf.boundaries@[j]@[k];
        assert(x == (CompressedEdgeIndex { index: em[e.id as int]->0, orientation: e.orientation }));
        assert(f.wf(reg));
        let n = em[e.id as int]->0 as int;
        assert(c.edges@[n] == (CompressedEdge {
            front: vm[reg.edges@[e.id as int].front as int]->0,
            back: vm[reg.edges@[e.id as int].back as int]->0,
            curve: reg.edges@[e.id as int].curve,
        }));
        assert(reg2.edges@[n] == (EdgeRecord {
            front: c.edges@[n].front,
            back: c.edges@[n].back,
            curve: c.edges@[n].curve,
        }));
    }
    assert(archive_edges_ok(c)) by {
        assert forall|n: int| 0 <= n < c.edges@.len() implies (#[trigger] c.edges@[n]).front
            < c.vertices@.len() && c.edges@[n].back < c.vertices@.len() by {
            assert(rev_ok(em, re, c.edges@.len() as int));
            let e = re[n];
            assert(0 <= e < em.len());
            assert(em[e] is Some);
            assert((em[e]->0 as int) == n);
            assert(c.edges@[em[e]->0 as int] == (CompressedEdge {
                front: vm[reg.edges@[e].front as int]->0,
                back: vm[reg.edges@[e].back as int]->0,
                curve: reg.edges@[e].curve,
            }));
            assert(c.edges@[n] == (CompressedEdge {
                front: vm[reg.edges@[e].front as int]->0,
                back: vm[reg.edges@[e].back as int]->0,
                curve: reg.edges@[e].curve,
            }));
            assert((vm[reg.edges@[e].front as int]->0 as int) < c.vertices@.len());
            assert((vm[reg.edges@[e].back as int]->0 as int) < c.vertices@.len());
        }
    }
    assert(archive_faces_ok(c)) by {
        assert forall|i: int| 0 <= i < c.faces@.len() implies cface_idx_ok(
            c,
            #[trigger] c.faces@[i],
        ) by {
            assert(fs[i].wf(reg));
            assert(face_compress_rel(fs[i], c.faces@[i], em));
            assert forall|j: int| 0 <= j < c.faces@[i].boundaries@.len() implies cboundary_idx_ok(
                c,
                (#[trigger] c.faces@[i].boundaries@[j])@,
            ) by {
                assert forall|k: int| 0 <= k < c.faces@[i].boundaries@[j]@.len() implies (
                #[trigger] c.faces@[i].boundaries@[j]@[k]).index < c.edges@.len() by {
                    assert(valid_pos(fs, i, j, k));
                    assert(edge_at(fs, i, j, k).valid(reg));
                }
            }
        }
    }
    assert forall|i: int, j: int|
        0 <= i < c.faces@.len() && 0 <= j < (#[trigger] c.faces@[i]).boundaries@.len() implies
        cboundary_chained(c, (#[trigger] c.faces@[i].boundaries@[j])@) && cboundary_closed(
        c,
        c.faces@[i].boundaries@[j]@,
    ) by {
        let f = fs[i];
        let es = f.boundaries@[j].edges@;
        let b = c.faces@[i].boundaries@[j]@;
        assert(f.wf(reg));
        assert(face_compress_rel(f, c.faces@[i], em));
        assert(boundary_compress_rel(es, b, em));
        assert forall|k: int| 0 <= k < b.len() implies centry_src(c, #[trigger] b[k]) == (
        vm[es[k].spec_src(reg) as int]->0 as int) && centry_dst(c, b[k]) == (vm[es[k].spec_dst(
            reg,
        ) as int]->0 as int) by {
            assert(valid_pos(fs, i, j, k));
            assert(es[k] == edge_at(fs, i, j, k));
            let n = em[es[k].id as int]->0 as int;
            assert(c.edges@[n] == (CompressedEdge {
                front: vm[reg.edges@[es[k].id as int].front as int]->0,
                back: vm[reg.edges@[es[k].id as int].back as int]->0,
                curve: reg.edges@[es[k].id as int].curve,
            }));
        }
        assert(chained(reg, es));
        assert(closed_chain(reg, es));
        assert forall|k: int| 0 <= k && k + 1 < b.len() implies centry_dst(c, #[trigger] b[k])
            == centry_src(c, b[k + 1]) by {
            assert(es[k].spec_dst(reg) == es[k + 1].spec_src(reg));
        }
        assert(b.len() > 0);
        assert(es[0].spec_src(reg) == es[es.len() - 1].spec_dst(reg));
    }
    assert(archive_chained(c));
    assert(archive_loops_closed(c));
}

/// Two boundary positions of the round-tripped shell share one underlying
/// edge exactly when the same positions of the original shell did: the
/// aliasing graph of edges is preserved.
pub proof fn lemma_round_trip_preserves_sharing(
    reg: Registry,
    sh: Shell,
    c: CompressedShell,
    vm: Seq<Option<usize>>,
    em: Seq<Option<usize>>,
    rv: Seq<int>,
    re: Seq<int>,
    reg2: Registry,
    sh2: Shell,
)
    requires
        reg.wf(),
        sh.wf(reg),
        compress_rel(reg, sh.faces@, c, vm, em, rv, re),
        extract_rel(c, reg2, sh2),
    ensures
        forall|i: int, j: int, k: int, i2: int, j2: int, k2: int|
            valid_pos(sh.faces@, i, j, k) && valid_pos(sh.faces@, i2, j2, k2) ==> ((
            #[trigger] edge_at(sh.faces@, i, j, k)).id == (#[trigger] edge_at(
                sh.faces@,
                i2,
                j2,
                k2,
            )).id <==> edge_at(sh2.faces@, i, j, k).id == edge_at(sh2.faces@, i2, j2, k2).id),
{
    lemma_compress_extract_round_trip(reg, sh, c, vm, em, rv, re, reg2, sh2);
    let fs = sh.faces@;
    let fs2 = sh2.faces@;
    assert forall|i: int, j: int, k: int, i2: int, j2: int, k2: int|
        valid_pos(fs, i, j, k) && valid_pos(fs, i2, j2, k2) implies ((#[trigger] edge_at(
        fs,
        i,
        j,
        k,
    )).id == (#[trigger] edge_at(fs, i2, j2, k2)).id <==> edge_at(fs2, i, j, k).id == edge_at(
        fs2,
        i2,
        j2,
        k2,
    ).id) by {
        let a = edge_at(fs, i, j, k).id as int;
        let b = edge_at(fs, i2, j2, k2).id as int;
        assert(em[a] is Some && em[b] is Some);
        assert(edge_at(fs2, i, j, k).id == em[a]->0);
        assert(edge_at(fs2, i2, j2, k2).id == em[b]->0);
        if em[a]->0 == em[b]->0 {
            assert(a == b);
        }
    }
}


} // verus!
