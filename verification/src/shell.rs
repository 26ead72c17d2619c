//! Shells: sets of faces glued along shared edges, with the 2-manifold
//! closure test and the face-adjacency connectivity test.

use vstd::prelude::*;

use crate::edge::Edge;
use crate::face::Face;
use crate::registry::Registry;
use crate::wire::Wire;

verus! {

/// The oriented edge occurrences contributed by one boundary wire of a face
/// whose orientation flag is `face_ori`: for each edge handle, its identity
/// and the orientation in which the face's observed boundary traverses it.
pub open spec fn wire_occs(face_ori: bool, es: Seq<Edge>) -> Seq<(usize, bool)> {
    es.map_values(|e: Edge| (e.id, face_ori == e.orientation))
}

/// The occurrences of a prefix of a face's boundary wires, in order.
pub open spec fn wires_occs(face_ori: bool, ws: Seq<Wire>) -> Seq<(usize, bool)>
    decreases ws.len(),
{
    if ws.len() == 0 {
        Seq::empty()
    } else {
        wires_occs(face_ori, ws.drop_last()) + wire_occs(face_ori, ws.last().edges@)
    }
}

/// Every oriented edge occurrence on the observed boundary of `f` (outer
/// wire and holes), with the face's orientation applied.
pub open spec fn face_occs(f: Face) -> Seq<(usize, bool)> {
    wires_occs(f.orientation, f.boundaries@)
}

/// The occurrences of a sequence of faces, concatenated in order.
pub open spec fn faces_occs(fs: Seq<Face>) -> Seq<(usize, bool)>
    decreases fs.len(),
{
    if fs.len() == 0 {
        Seq::empty()
    } else {
        faces_occs(fs.drop_last()) + face_occs(fs.last())
    }
}

/// How often the occurrence `(id, ori)` appears in `s`.
pub open spec fn count_occ(s: Seq<(usize, bool)>, id: usize, ori: bool) -> nat
    decreases s.len(),
{
    if s.len() == 0 {
        0
    } else {
        count_occ(s.drop_last(), id, ori) + (if s.last().0 == id && s.last().1 == ori {
            1nat
        } else {
            0nat
        })
    }
}

/// The standard closed-2-manifold test: every distinct underlying edge that
/// occurs on the shell's face boundaries occurs exactly twice, once in each
/// orientation.
pub open spec fn shell_closed(fs: Seq<Face>) -> bool {
    let occs = faces_occs(fs);
    forall|k: int|
        0 <= k < occs.len() ==> count_occ(occs, (#[trigger] occs[k]).0, true) == 1 && count_occ(
            occs,
            occs[k].0,
            false,
        ) == 1
}

/// Face `f` uses the underlying edge with identity `id` on its boundary, in
/// either orientation.
pub open spec fn face_uses(f: Face, id: usize) -> bool {
    exists|i: int| 0 <= i < face_occs(f).len() && (#[trigger] face_occs(f)[i]).0 == id
}

/// Two faces are adjacent when they share an underlying edge.
pub open spec fn faces_adjacent(f1: Face, f2: Face) -> bool {
    exists|id: usize| #[trigger] face_uses(f1, id) && face_uses(f2, id)
}

/// `p` is a walk through the face-adjacency graph of `fs` from face 0 to
/// face `to`.
pub open spec fn is_path(fs: Seq<Face>, p: Seq<int>, to: int) -> bool {
    &&& p.len() > 0
    &&& p[0] == 0
    &&& p[p.len() - 1] == to
    &&& forall|i: int| 0 <= i < p.len() ==> 0 <= #[trigger] p[i] < fs.len()
    &&& forall|i: int|
        0 <= i && i + 1 < p.len() ==> faces_adjacent(fs[#[trigger] p[i]], fs[p[i + 1]])
}

/// Face `to` is reachable from face 0 through shared edges.
pub open spec fn has_path(fs: Seq<Face>, to: int) -> bool {
    exists|p: Seq<int>| is_path(fs, p, to)
}

/// The face-adjacency graph is a single connected component.
pub open spec fn shell_connected(fs: Seq<Face>) -> bool {
    fs.len() <= 1 || forall|j: int| 0 <= j < fs.len() ==> #[trigger] has_path(fs, j)
}

/// An element is somewhere in the sequence.
pub open spec fn in_stack(s: Seq<usize>, x: usize) -> bool {
    exists|i: int| 0 <= i < s.len() && s[i] == x
}

/// Every visited face that is no longer on the worklist already has all its
/// adjacent faces visited.
pub open spec fn frontier_closed(fs: Seq<Face>, visited: Seq<bool>, stack: Seq<usize>) -> bool {
    forall|a: int, b: int|
        0 <= a < fs.len() && 0 <= b < fs.len() && visited[a] && !in_stack(stack, a as usize)
            && #[trigger] faces_adjacent(fs[a], fs[b]) ==> visited[b]
}

/// A set of faces glued along shared edges. Construction is unconditional;
/// closure and connectivity are validated on demand.
#[derive(Clone, Debug)]
pub struct Shell {
    /// The faces, in insertion order.
    pub faces: Vec<Face>,
}

impl Shell {
    /// Every face is well-formed in `reg`.
    pub open spec fn wf(self, reg: Registry) -> bool {
        forall|i: int| 0 <= i < self.faces@.len() ==> (#[trigger] self.faces@[i]).wf(reg)
    }

    /// Raw assembly of faces into a shell; no validation is performed.
    pub fn new(faces: Vec<Face>) -> (r: Shell)
        ensures
            r.faces@ == faces@,
    {
        Shell { faces }
    }

    /// The number of faces.
    pub fn face_count(&self) -> (r: usize)
        ensures
            r == self.faces@.len(),
    {
        self.faces.len()
    }

    /// The face at position `i`.
    pub fn face(&self, i: usize) -> (r: &Face)
        requires
            i < self.faces@.len(),
        ensures
            *r == self.faces@[i as int],
    {
        &self.faces[i]
    }

    /// Collect every oriented edge occurrence across this shell's face
    /// boundaries, in deterministic traversal order.
    pub fn occurrences(&self) -> (r: Vec<(usize, bool)>)
        ensures
            r@ == faces_occs(self.faces@),
    {
        let mut occs: Vec<(usize, bool)> = Vec::new();
        let mut i: usize = 0;
        while i < self.faces.len()
            invariant
                i <= self.faces@.len(),
                occs@ == faces_occs(self.faces@.take(i as int)),
            decreases self.faces@.len() - i,
        {
            let fo = face_occurrences(&self.faces[i]);
            let mut k: usize = 0;
            while k < fo.len()
                invariant
                    k <= fo@.len(),
                    i < self.faces@.len(),
                    fo@ == face_occs(self.faces@[i as int]),
                    occs@ == faces_occs(self.faces@.take(i as int)) + fo@.take(k as int),
                decreases fo@.len() - k,
            {
                occs.push(fo[k]);
                proof {
                    assert(fo@.take(k + 1) =~= fo@.take(k as int).push(fo@[k as int]));
                }
                k += 1;
            }
            proof {
                assert(fo@.take(fo@.len() as int) =~= fo@);
                lemma_faces_occs_take(self.faces@, i as int);
            }
            i += 1;
        }
        proof {
            assert(self.faces@.take(self.faces@.len() as int) =~= self.faces@);
        }
        occs
    }

    /// Whether the shell is a closed 2-manifold: every underlying edge on
    /// its boundaries is used exactly twice, with opposite orientations.
    pub fn is_closed(&self) -> (r: bool)
        ensures
            r == shell_closed(self.faces@),
    {
        let occs = self.occurrences();
        let mut k: usize = 0;
        while k < occs.len()
            invariant
                k <= occs@.len(),
                occs@ == faces_occs(self.faces@),
                forall|k2: int|
                    0 <= k2 < k ==> count_occ(occs@, (#[trigger] occs@[k2]).0, true) == 1
                        && count_occ(occs@, occs@[k2].0, false) == 1,
            decreases occs@.len() - k,
        {
            let id = occs[k].0;
            if count_in(&occs, id, true) != 1 || count_in(&occs, id, false) != 1 {
                assert(!shell_closed(self.faces@));
                return false;
            }
            k += 1;
        }
        true
    }

    /// Whether the face-adjacency graph (two faces adjacent when they share
    /// an edge) is one connected component.
    pub fn is_connected(&self) -> (r: bool)
        ensures
            r == shell_connected(self.faces@),
    {
        let ghost fs = self.faces@;
        let n = self.faces.len();
        if n <= 1 {
            return true;
        }
        let mut visited: Vec<bool> = Vec::new();
        let mut t: usize = 0;
        while t < n
            invariant
                t <= n,
                visited@.len() == t,
                forall|a: int| 0 <= a < t ==> !(#[trigger] visited@[a]),
            decreases n - t,
        {
            visited.push(false);
            t += 1;
        }
        let ghost blank = visited@;
        visited.set(0, true);
        let mut stack: Vec<usize> = Vec::new();
        stack.push(0);
        proof {
            lemma_popcount_set(blank, 0);
            let p0: Seq<int> = seq![0int];
            assert(is_path(fs, p0, 0));
            assert(has_path(fs, 0));
            assert(in_stack(stack@, 0)) by {
                assert(stack@[0] == 0);
            }
            assert forall|a: int| 0 <= a < n && a != 0 implies !visited@[a] by {
                assert(!blank[a]);
            }
        }
        while stack.len() > 0
            invariant
                fs == self.faces@,
                n == fs.len(),
                2 <= n,
                visited@.len() == n,
                visited@[0],
                forall|x: usize| in_stack(stack@, x) ==> x < n && visited@[x as int],
                forall|i1: int, i2: int|
                    0 <= i1 < i2 < stack@.len() ==> stack@[i1] != stack@[i2],
                forall|a: int| 0 <= a < n && #[trigger] visited@[a] ==> has_path(fs, a),
                frontier_closed(fs, visited@, stack@),
                popcount(visited@) <= n,
            decreases
                    n - popcount(visited@),
                    stack@.len(),
        {
            let ghost old_visited = visited@;
            let ghost old_stack = stack@;
            let iopt = stack.pop();
            let i = iopt.unwrap();
            proof {
                assert(in_stack(old_stack, i));
                assert forall|x: usize| in_stack(stack@, x) implies x < n && visited@[x as int] by {
                    let ix = choose|ix: int| 0 <= ix < stack@.len() && stack@[ix] == x;
                    assert(old_stack[ix] == x);
                    assert(in_stack(old_stack, x));
                }
                assert(!in_stack(stack@, i)) by {
                    if in_stack(stack@, i) {
                        let ix = choose|ix: int| 0 <= ix < stack@.len() && stack@[ix] == i;
                        assert(old_stack[ix] == old_stack[old_stack.len() - 1]);
                        assert(false);
                    }
                }
                assert forall|a: int, b: int|
                    0 <= a < n && 0 <= b < n && a != i && visited@[a] && !in_stack(
                        stack@,
                        a as usize,
                    ) && #[trigger] faces_adjacent(fs[a], fs[b]) implies visited@[b] by {
                    assert(!in_stack(old_stack, a as usize)) by {
                        if in_stack(old_stack, a as usize) {
                            let ix = choose|ix: int|
                                0 <= ix < old_stack.len() && old_stack[ix] == a as usize;
                            if ix < old_stack.len() - 1 {
                                assert(stack@[ix] == a as usize);
                                assert(in_stack(stack@, a as usize));
                            } else {
                                assert(a as usize == i);
                            }
                            assert(false);
                        }
                    }
                }
            }
            let mut j: usize = 0;
            while j < n
                invariant
                    fs == self.faces@,
                    n == fs.len(),
                    2 <= n,
                    j <= n,
                    i < n,
                    visited@.len() == n,
                    visited@[0],
                    visited@[i as int],
                    !in_stack(stack@, i),
                    forall|x: usize| in_stack(stack@, x) ==> x < n && visited@[x as int],
                    forall|i1: int, i2: int|
                        0 <= i1 < i2 < stack@.len() ==> stack@[i1] != stack@[i2],
                    forall|a: int| 0 <= a < n && #[trigger] visited@[a] ==> has_path(fs, a),
                    forall|a: int, b: int|
                        0 <= a < n && 0 <= b < n && a != i && visited@[a] && !in_stack(
                            stack@,
                            a as usize,
                        ) && #[trigger] faces_adjacent(fs[a], fs[b]) ==> visited@[b],
                    forall|b: int|
                        0 <= b < j && #[trigger] faces_adjacent(fs[i as int], fs[b])
                            ==> visited@[b],
                    forall|a: int| 0 <= a < n && old_visited[a] ==> #[trigger] visited@[a],
                    popcount(visited@) <= n,
                    popcount(visited@) >= popcount(old_visited),
                    popcount(visited@) > popcount(old_visited) || stack@.len() < old_stack.len(),
                decreases n - j,
            {
                if !visited[j] {
                    if faces_share_edge(&self.faces[i], &self.faces[j]) {
                        let ghost pre_visited = visited@;
                        let ghost pre_stack = stack@;
                        visited.set(j, true);
                        stack.push(j);
                        proof {
                            lemma_popcount_set(pre_visited, j as int);
                            assert(has_path(fs, i as int));
                            let p = choose|p: Seq<int>| is_path(fs, p, i as int);
                            let p2 = p.push(j as int);
                            assert(p2[p2.len() - 1] == j as int);
                            assert forall|i2: int| 0 <= i2 && i2 + 1 < p2.len() implies
                                faces_adjacent(fs[#[trigger] p2[i2]], fs[p2[i2 + 1]]) by {
                                if i2 + 1 < p.len() {
                                    assert(p2[i2] == p[i2] && p2[i2 + 1] == p[i2 + 1]);
                                } else {
                                    assert(p2[i2] == p[p.len() - 1] && p2[i2 + 1] == j as int);
                                }
                            }
                            assert(is_path(fs, p2, j as int));
                            assert(has_path(fs, j as int));
                            assert forall|x: usize| in_stack(stack@, x) implies x < n
                                && visited@[x as int] by {
                                let ix = choose|ix: int| 0 <= ix < stack@.len() && stack@[ix] == x;
                                if ix < pre_stack.len() {
                                    assert(in_stack(pre_stack, x));
                                } else {
                                    assert(x == j);
                                }
                            }
                            assert(!in_stack(stack@, i)) by {
                                if in_stack(stack@, i) {
                                    let ix = choose|ix: int|
                                        0 <= ix < stack@.len() && stack@[ix] == i;
                                    if ix < pre_stack.len() {
                                        assert(in_stack(pre_stack, i));
                                    } else {
                                        assert(i == j && !pre_visited[j as int]);
                                    }
                                    assert(false);
                                }
                            }
                            assert forall|a: int, b: int|
                                0 <= a < n && 0 <= b < n && a != i && visited@[a] && !in_stack(
                                    stack@,
                                    a as usize,
                                ) && #[trigger] faces_adjacent(fs[a], fs[b]) implies visited@[b] by {
                                if a != j {
                                    assert(pre_visited[a]);
                                    assert(!in_stack(pre_stack, a as usize)) by {
                                        if in_stack(pre_stack, a as usize) {
                                            let ix = choose|ix: int|
                                                0 <= ix < pre_stack.len() && pre_stack[ix] == a;
                                            assert(stack@[ix] == a as usize);
                                            assert(in_stack(stack@, a as usize));
                                            assert(false);
                                        }
                                    }
                                } else {
                                    assert(in_stack(stack@, j)) by {
                                        assert(stack@[stack@.len() - 1] == j);
                                    }
                                    assert(false);
                                }
                            }
                        }
                    }
                }
                j += 1;
            }
            proof {
                assert forall|a: int, b: int|
                    0 <= a < n && 0 <= b < n && visited@[a] && !in_stack(stack@, a as usize)
                        && #[trigger] faces_adjacent(fs[a], fs[b]) implies visited@[b] by {
                    if a == i {
                        assert(faces_adjacent(fs[i as int], fs[b]));
                    }
                }
            }
        }
        let mut j: usize = 0;
        while j < n
            invariant
                fs == self.faces@,
                n == fs.len(),
                2 <= n,
                j <= n,
                visited@.len() == n,
                visited@[0],
                forall|a: int| 0 <= a < n && #[trigger] visited@[a] ==> has_path(fs, a),
                frontier_closed(fs, visited@, Seq::<usize>::empty()),
                forall|a: int| 0 <= a < j ==> #[trigger] visited@[a],
            decreases n - j,
        {
            if !visited[j] {
                proof {
                    assert(!has_path(fs, j as int)) by {
                        if has_path(fs, j as int) {
                            let p = choose|p: Seq<int>| is_path(fs, p, j as int);
                            lemma_path_reaches_visited(fs, visited@, p, j as int);
                            assert(false);
                        }
                    }
                    assert(!shell_connected(fs));
                }
                return false;
            }
            j += 1;
        }
        proof {
            assert forall|jj: int| 0 <= jj < fs.len() implies #[trigger] has_path(fs, jj) by {
                assert(visited@[jj]);
            }
        }
        true
    }
}

/// Collect every oriented edge occurrence on the observed boundary of one
/// face, in deterministic traversal order.
pub fn face_occurrences(f: &Face) -> (r: Vec<(usize, bool)>)
    ensures
        r@ == face_occs(*f),
{
    let mut occs: Vec<(usize, bool)> = Vec::new();
    let mut j: usize = 0;
    while j < f.boundaries.len()
        invariant
            j <= f.boundaries@.len(),
            occs@ == wires_occs(f.orientation, f.boundaries@.take(j as int)),
        decreases f.boundaries@.len() - j,
    {
        let w = &f.boundaries[j];
        let mut k: usize = 0;
        while k < w.edges.len()
            invariant
                k <= w.edges@.len(),
                j < f.boundaries@.len(),
                *w == f.boundaries@[j as int],
                occs@ == wires_occs(f.orientation, f.boundaries@.take(j as int)) + wire_occs(
                    f.orientation,
                    w.edges@.take(k as int),
                ),
            decreases w.edges@.len() - k,
        {
            let e = w.edges[k];
            occs.push((e.id, f.orientation == e.orientation));
            proof {
                assert(wire_occs(f.orientation, w.edges@.take(k + 1)) =~= wire_occs(
                    f.orientation,
                    w.edges@.take(k as int),
                ).push((e.id, f.orientation == e.orientation)));
            }
            k += 1;
        }
        proof {
            assert(w.edges@.take(w.edges@.len() as int) =~= w.edges@);
            lemma_wires_occs_take(f.orientation, f.boundaries@, j as int);
        }
        j += 1;
    }
    proof {
        assert(f.boundaries@.take(f.boundaries@.len() as int) =~= f.boundaries@);
    }
    occs
}

/// Whether two faces share an underlying edge, in any orientation.
pub fn faces_share_edge(f1: &Face, f2: &Face) -> (r: bool)
    ensures
        r == faces_adjacent(*f1, *f2),
{
    let o1 = face_occurrences(f1);
    let o2 = face_occurrences(f2);
    let mut a: usize = 0;
    while a < o1.len()
        invariant
            a <= o1@.len(),
            o1@ == face_occs(*f1),
            o2@ == face_occs(*f2),
            forall|a2: int, b2: int|
                0 <= a2 < a && 0 <= b2 < o2@.len() ==> (#[trigger] o1@[a2]).0 != (
                #[trigger] o2@[b2]).0,
        decreases o1@.len() - a,
    {
        let mut b: usize = 0;
        while b < o2.len()
            invariant
                a < o1@.len(),
                b <= o2@.len(),
                o1@ == face_occs(*f1),
                o2@ == face_occs(*f2),
                forall|b2: int| 0 <= b2 < b ==> o1@[a as int].0 != (#[trigger] o2@[b2]).0,
            decreases o2@.len() - b,
        {
            if o1[a].0 == o2[b].0 {
                proof {
                    let id = o1@[a as int].0;
                    assert(face_uses(*f1, id));
                    assert(face_uses(*f2, id));
                }
                return true;
            }
            b += 1;
        }
        a += 1;
    }
    proof {
        assert(!faces_adjacent(*f1, *f2)) by {
            if faces_adjacent(*f1, *f2) {
                let id = choose|id: usize| face_uses(*f1, id) && face_uses(*f2, id);
                let i1 = choose|i1: int|
                    0 <= i1 < face_occs(*f1).len() && face_occs(*f1)[i1].0 == id;
                let i2 = choose|i2: int|
                    0 <= i2 < face_occs(*f2).len() && face_occs(*f2)[i2].0 == id;
                assert(o1@[i1].0 != o2@[i2].0);
                assert(false);
            }
        }
    }
    false
}

/// How often the occurrence `(id, ori)` appears in `occs`.
pub fn count_in(occs: &Vec<(usize, bool)>, id: usize, ori: bool) -> (r: usize)
    ensures
        r as nat == count_occ(occs@, id, ori),
{
    let mut r: usize = 0;
    let mut k: usize = 0;
    while k < occs.len()
        invariant
            k <= occs@.len(),
            r as nat == count_occ(occs@.take(k as int), id, ori),
            r <= k,
        decreases occs@.len() - k,
    {
        proof {
            lemma_count_occ_le_len(occs@.take(k as int), id, ori);
            lemma_count_occ_take_step(occs@, k as int, id, ori);
        }
        if occs[k].0 == id && occs[k].1 == ori {
            r += 1;
        }
        k += 1;
    }
    proof {
        assert(occs@.take(occs@.len() as int) =~= occs@);
    }
    r
}

/// The number of `true` entries.
pub open spec fn popcount(s: Seq<bool>) -> nat
    decreases s.len(),
{
    if s.len() == 0 {
        0
    } else {
        popcount(s.drop_last()) + (if s.last() {
            1nat
        } else {
            0nat
        })
    }
}

/// Setting a `false` entry to `true` raises the count by one.
proof fn lemma_popcount_set(s: Seq<bool>, j: int)
    requires
        0 <= j < s.len(),
        !s[j],
    ensures
        popcount(s.update(j, true)) == popcount(s) + 1,
        popcount(s.update(j, true)) <= s.len(),
    decreases s.len(),
{
    lemma_popcount_le_len(s.update(j, true));
    if j == s.len() - 1 {
        assert(s.update(j, true).drop_last() =~= s.drop_last());
    } else {
        assert(s.update(j, true).drop_last() =~= s.drop_last().update(j, true));
        lemma_popcount_set(s.drop_last(), j);
    }
}

/// The count never exceeds the length.
proof fn lemma_popcount_le_len(s: Seq<bool>)
    ensures
        popcount(s) <= s.len(),
    decreases s.len(),
{
    if s.len() > 0 {
        lemma_popcount_le_len(s.drop_last());
    }
}

/// An occurrence count never exceeds the sequence length.
proof fn lemma_count_occ_le_len(s: Seq<(usize, bool)>, id: usize, ori: bool)
    ensures
        count_occ(s, id, ori) <= s.len(),
    decreases s.len(),
{
    if s.len() > 0 {
        lemma_count_occ_le_len(s.drop_last(), id, ori);
    }
}

/// Extending a prefix by one element adds that element's contribution.
proof fn lemma_count_occ_take_step(s: Seq<(usize, bool)>, k: int, id: usize, ori: bool)
    requires
        0 <= k < s.len(),
    ensures
        count_occ(s.take(k + 1), id, ori) == count_occ(s.take(k), id, ori) + (if s[k].0 == id
            && s[k].1 == ori {
            1nat
        } else {
            0nat
        }),
{
    assert(s.take(k + 1).drop_last() =~= s.take(k));
    assert(s.take(k + 1).last() == s[k]);
}

/// Occurrences of a face prefix extended by one more face.
proof fn lemma_faces_occs_take(fs: Seq<Face>, i: int)
    requires
        0 <= i < fs.len(),
    ensures
        faces_occs(fs.take(i + 1)) == faces_occs(fs.take(i)) + face_occs(fs[i]),
{
    assert(fs.take(i + 1).drop_last() =~= fs.take(i));
    assert(fs.take(i + 1).last() == fs[i]);
}

/// Occurrences of a wire prefix extended by one more wire.
proof fn lemma_wires_occs_take(face_ori: bool, ws: Seq<Wire>, j: int)
    requires
        0 <= j < ws.len(),
    ensures
        wires_occs(face_ori, ws.take(j + 1)) == wires_occs(face_ori, ws.take(j)) + wire_occs(
            face_ori,
            ws[j].edges@,
        ),
{
    assert(ws.take(j + 1).drop_last() =~= ws.take(j));
    assert(ws.take(j + 1).last() == ws[j]);
}

/// A walk that starts inside a visited set closed under adjacency ends
/// inside it.
proof fn lemma_path_reaches_visited(fs: Seq<Face>, visited: Seq<bool>, p: Seq<int>, to: int)
    requires
        is_path(fs, p, to),
        visited.len() == fs.len(),
        visited[0],
        frontier_closed(fs, visited, Seq::<usize>::empty()),
    ensures
        visited[to],
    decreases p.len(),
{
    if p.len() == 1 {
        assert(p[0] == to);
    } else {
        let q = p.drop_last();
        let prev = p[p.len() - 2];
        assert forall|i: int| 0 <= i < q.len() implies 0 <= #[trigger] q[i] < fs.len() by {
            assert(q[i] == p[i]);
        }
        assert forall|i: int| 0 <= i && i + 1 < q.len() implies faces_adjacent(
            fs[#[trigger] q[i]],
            fs[q[i + 1]],
        ) by {
            assert(q[i] == p[i] && q[i + 1] == p[i + 1]);
        }
        assert(is_path(fs, q, prev));
        lemma_path_reaches_visited(fs, visited, q, prev);
        assert(faces_adjacent(fs[prev], fs[to]));
        assert(!in_stack(Seq::<usize>::empty(), prev as usize));
    }
}

} // verus!
