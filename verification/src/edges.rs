//! The faces that bridge the gaps along the edges of the input mesh.

use crate::cantellate::{face_valid, is_face_valid};
use crate::fan::{corner_of, cyclic_next, fan_views, find_corner, CantellatedVertex, FanView};
use crate::index_list::IndexList;
use crate::mesh::{face_seqs, Corner, Mesh};
use crate::parallel::par_map;
use std::collections::HashMap;
use vstd::prelude::*;

verus! {

/// The corners `e1, e2, e3, e4` as a face: `e3` is left out where it is `e2`, and `e4` where
/// it is `e1`.
pub open spec fn bridge_of(e1: usize, e2: usize, e3: usize, e4: usize) -> Seq<usize> {
    seq![e1, e2] + (if e3 != e2 {
        seq![e3]
    } else {
        Seq::empty()
    }) + (if e4 != e1 {
        seq![e4]
    } else {
        Seq::empty()
    })
}

/// The face that bridges the edge from `v1` to `v2` between `face1`, which has the edge in
/// this direction, and `face2` on its other side: the corners of `v1` and `v2` in `face2`,
/// then those of `v2` and `v1` in `face1`. There is none where one of the four corners is
/// missing, or where fewer than three are left.
pub open spec fn edge_face(fans: Seq<FanView>, v1: usize, v2: usize, face1: usize, face2: usize) -> Option<
    Seq<usize>,
> {
    match (
        corner_of(fans, v1, face2),
        corner_of(fans, v2, face2),
        corner_of(fans, v2, face1),
        corner_of(fans, v1, face1),
    ) {
        (Some(e1), Some(e2), Some(e3), Some(e4)) => {
            if bridge_of(e1, e2, e3, e4).len() > 2 {
                Some(bridge_of(e1, e2, e3, e4))
            } else {
                None
            }
        },
        _ => None,
    }
}

/// The face that bridges the edge from `v1` to `v2` between `face1` and `face2`.
pub fn get_cantellated_edge_face(
    cantellated_vertices: &Vec<CantellatedVertex>,
    v1: usize,
    v2: usize,
    face1: usize,
    face2: usize,
) -> (bridge: Option<IndexList>)
    ensures
        bridge is Some <==> edge_face(fan_views(cantellated_vertices@), v1, v2, face1, face2) is Some,
        bridge is Some ==> bridge.unwrap()@ == edge_face(
            fan_views(cantellated_vertices@),
            v1,
            v2,
            face1,
            face2,
        ).unwrap(),
{
    let e1: usize = match find_corner(cantellated_vertices, v1, face2) {
        Some(e) => e,
        None => { return None; },
    };
    let e2: usize = match find_corner(cantellated_vertices, v2, face2) {
        Some(e) => e,
        None => { return None; },
    };
    let e3: usize = match find_corner(cantellated_vertices, v2, face1) {
        Some(e) => e,
        None => { return None; },
    };
    let e4: usize = match find_corner(cantellated_vertices, v1, face1) {
        Some(e) => e,
        None => { return None; },
    };
    let mut edge_face = IndexList::new();
    edge_face.push(e1);
    edge_face.push(e2);
    if e3 != e2 {
        edge_face.push(e3);
    }
    if e4 != e1 {
        edge_face.push(e4);
    }
    assert(edge_face@ =~= bridge_of(e1, e2, e3, e4));
    if edge_face.len() > 2 {
        Some(edge_face)
    } else {
        None
    }
}

/// The directed edge that leaves position `p` of the face: from the vertex there to the next
/// one in the winding, which after the last position is the first.
pub open spec fn edge_at(face: Seq<usize>, p: int) -> (usize, usize) {
    (face[p], face[cyclic_next(p, face.len() as int)])
}

/// The face has the directed edge from `a` to `b` at a position before `upto`.
pub open spec fn edge_before(face: Seq<usize>, a: usize, b: usize, upto: int) -> bool {
    exists|q: int| 0 <= q < upto && q < face.len() && #[trigger] edge_at(face, q) == (a, b)
}

/// The face has the directed edge from `a` to `b`.
pub open spec fn has_edge(face: Seq<usize>, a: usize, b: usize) -> bool {
    edge_before(face, a, b, face.len() as int)
}

/// The valid faces among the first `upto` that have the directed edge from `a` to `b`, in
/// ascending order.
pub open spec fn faces_with_edge(faces: Seq<Seq<usize>>, a: usize, b: usize, upto: int) -> Seq<
    usize,
>
    decreases upto,
{
    if upto <= 0 {
        Seq::empty()
    } else {
        let before = faces_with_edge(faces, a, b, upto - 1);
        if face_valid(faces[upto - 1]) && has_edge(faces[upto - 1], a, b) {
            before.push((upto - 1) as usize)
        } else {
            before
        }
    }
}

/// The key under which the directed edge from `a` to `b` is filed: `a` in the upper 64 bits
/// and `b` in the lower.
pub open spec fn edge_key(a: usize, b: usize) -> u128 {
    (a * 0x1_0000_0000_0000_0000 + b) as u128
}

/// Two directed edges with one key are the same edge.
pub proof fn lemma_edge_key_injective(a: usize, b: usize, c: usize, d: usize)
    ensures
        edge_key(a, b) == edge_key(c, d) ==> a == c && b == d,
{
}

/// The key of the directed edge from `a` to `b`.
fn key_of(a: usize, b: usize) -> (key: u128)
    ensures
        key == edge_key(a, b),
{
    (a as u128) * 0x1_0000_0000_0000_0000u128 + (b as u128)
}

/// The faces that the map files under the directed edge from `a` to `b`.
pub open spec fn filed(map: Map<u128, IndexList>, a: usize, b: usize) -> Seq<usize> {
    if map.contains_key(edge_key(a, b)) {
        map[edge_key(a, b)]@
    } else {
        Seq::empty()
    }
}

/// Files every valid face under each of its directed edges.
fn edge_index<P>(mesh: &Mesh<P>) -> (edges: HashMap<u128, IndexList>)
    ensures
        forall|a: usize, b: usize|
            #[trigger] filed(edges@, a, b) == faces_with_edge(
                mesh.topology(),
                a,
                b,
                mesh.faces@.len() as int,
            ),
{
    broadcast use vstd::std_specs::hash::group_hash_axioms;

    let ghost faces = mesh.topology();
    let mut edges: HashMap<u128, IndexList> = HashMap::new();
    let mut f: usize = 0;
    while f < mesh.faces.len()
        invariant
            f <= mesh.faces@.len(),
            faces == mesh.topology(),
            forall|a: usize, b: usize|
                #[trigger] filed(edges@, a, b) == faces_with_edge(faces, a, b, f as int),
        decreases mesh.faces@.len() - f,
    {
        let face = mesh.faces[f].as_slice();
        assert(face@ == faces[f as int]);
        if is_face_valid(face) {
            let n: usize = face.len();
            let mut p: usize = 0;
            while p < n
                invariant
                    p <= n,
                    n == face@.len(),
                    face_valid(face@),
                    forall|a: usize, b: usize|
                        #[trigger] filed(edges@, a, b) == faces_with_edge(faces, a, b, f as int) + (
                        if edge_before(face@, a, b, p as int) {
                            seq![f]
                        } else {
                            Seq::empty()
                        }),
                decreases n - p,
            {
                let v1: usize = face[p];
                let v2: usize = if p + 1 == n {
                    face[0]
                } else {
                    face[p + 1]
                };
                let key: u128 = key_of(v1, v2);
                let ghost before = edges@;
                assert(edge_at(face@, p as int) == (v1, v2));
                assert(!edge_before(face@, v1, v2, p as int));
                assert(filed(before, v1, v2) == faces_with_edge(faces, v1, v2, f as int));
                let list = edges.entry(key).or_insert(IndexList::new());
                list.push(f);
                proof {
                    assert(edges@ == before.insert(key, edges@[key]));
                    assert(edges@[key]@ == filed(before, v1, v2).push(f));
                    assert forall|a: usize, b: usize|
                        #[trigger] filed(edges@, a, b) == faces_with_edge(faces, a, b, f as int) + (
                        if edge_before(face@, a, b, p + 1) {
                            seq![f]
                        } else {
                            Seq::empty()
                        }) by {
                        lemma_edge_key_injective(a, b, v1, v2);
                        assert(filed(before, a, b) == faces_with_edge(faces, a, b, f as int) + (
                        if edge_before(face@, a, b, p as int) {
                            seq![f]
                        } else {
                            Seq::empty()
                        }));
                        if a == v1 && b == v2 {
                            assert(edge_before(face@, a, b, p + 1));
                            assert(filed(edges@, a, b) =~= faces_with_edge(faces, a, b, f as int)
                                + seq![f]);
                        } else {
                            assert(filed(edges@, a, b) == filed(before, a, b));
                            assert(edge_before(face@, a, b, p + 1) == edge_before(
                                face@,
                                a,
                                b,
                                p as int,
                            ));
                        }
                    }
                }
                p += 1;
            }
            proof {
                assert forall|a: usize, b: usize|
                    #[trigger] filed(edges@, a, b) == faces_with_edge(faces, a, b, f + 1) by {
                    assert(filed(edges@, a, b) == faces_with_edge(faces, a, b, f as int) + (
                    if edge_before(face@, a, b, n as int) {
                        seq![f]
                    } else {
                        Seq::empty()
                    }));
                }
            }
        } else {
            assert forall|a: usize, b: usize|
                #[trigger] filed(edges@, a, b) == faces_with_edge(faces, a, b, f + 1) by {
                assert(filed(edges@, a, b) == faces_with_edge(faces, a, b, f as int));
            }
        }
        f += 1;
    }
    edges
}

/// The bridges across the edge from `v1` to `v2` of the face `f` to the first `upto` of the
/// faces `opposing`, in their order. Only a face with a greater index than `f` is bridged to,
/// so that every pair of faces is bridged once.
pub open spec fn bridges_across(
    fans: Seq<FanView>,
    v1: usize,
    v2: usize,
    f: usize,
    opposing: Seq<usize>,
    upto: int,
) -> Seq<Seq<usize>>
    decreases upto,
{
    if upto <= 0 {
        Seq::empty()
    } else {
        let before = bridges_across(fans, v1, v2, f, opposing, upto - 1);
        if opposing[upto - 1] > f {
            match edge_face(fans, v1, v2, f, opposing[upto - 1]) {
                Some(bridge) => before.push(bridge),
                None => before,
            }
        } else {
            before
        }
    }
}

/// The bridges across the edge that leaves position `p` of the face `f`, to the valid faces
/// that have the edge in the opposite direction.
pub open spec fn bridges_of_edge(faces: Seq<Seq<usize>>, fans: Seq<FanView>, f: int, p: int) -> Seq<
    Seq<usize>,
> {
    let (v1, v2) = edge_at(faces[f], p);
    let opposing = faces_with_edge(faces, v2, v1, faces.len() as int);
    bridges_across(fans, v1, v2, f as usize, opposing, opposing.len() as int)
}

/// The bridges across the edges that leave the first `upto` positions of the face `f`.
pub open spec fn bridges_of_face(faces: Seq<Seq<usize>>, fans: Seq<FanView>, f: int, upto: int) -> Seq<
    Seq<usize>,
>
    decreases upto,
{
    if upto <= 0 {
        Seq::empty()
    } else {
        bridges_of_face(faces, fans, f, upto - 1) + bridges_of_edge(faces, fans, f, upto - 1)
    }
}

/// The bridges across the edges of the valid faces among the first `upto`.
pub open spec fn bridges(faces: Seq<Seq<usize>>, fans: Seq<FanView>, upto: int) -> Seq<Seq<usize>>
    decreases upto,
{
    if upto <= 0 {
        Seq::empty()
    } else {
        let before = bridges(faces, fans, upto - 1);
        if face_valid(faces[upto - 1]) {
            before + bridges_of_face(faces, fans, upto - 1, faces[upto - 1].len() as int)
        } else {
            before
        }
    }
}

/// The bridges across the edges of the face `f`, or none where the face is not valid.
pub open spec fn bridges_from(faces: Seq<Seq<usize>>, fans: Seq<FanView>, f: int) -> Seq<Seq<usize>> {
    if face_valid(faces[f]) {
        bridges_of_face(faces, fans, f, faces[f].len() as int)
    } else {
        Seq::empty()
    }
}

/// The bridges across the edges of the face `f` to the faces that `edges` files under the
/// opposite direction of each.
fn bridge_face<P>(
    mesh: &Mesh<P>,
    edges: &HashMap<u128, IndexList>,
    cantellated_vertices: &Vec<CantellatedVertex>,
    f: usize,
) -> (found: Vec<IndexList>)
    requires
        f < mesh.faces@.len(),
        forall|a: usize, b: usize|
            #[trigger] filed(edges@, a, b) == faces_with_edge(
                mesh.topology(),
                a,
                b,
                mesh.faces@.len() as int,
            ),
    ensures
        face_seqs(found@) == bridges_from(mesh.topology(), fan_views(cantellated_vertices@), f as int),
{
    broadcast use vstd::std_specs::hash::group_hash_axioms;

    let ghost faces = mesh.topology();
    let ghost fans = fan_views(cantellated_vertices@);
    let mut found: Vec<IndexList> = Vec::new();
    let face = mesh.faces[f].as_slice();
    assert(face@ == faces[f as int]);
    if !is_face_valid(face) {
        assert(face_seqs(found@) =~= Seq::<Seq<usize>>::empty());
        return found;
    }
    let n: usize = face.len();
    assert(face_seqs(found@) =~= bridges_of_face(faces, fans, f as int, 0));
    let mut p: usize = 0;
    while p < n
        invariant
            p <= n,
            n == face@.len(),
            f < mesh.faces@.len(),
            faces == mesh.topology(),
            face@ == faces[f as int],
            fans == fan_views(cantellated_vertices@),
            forall|a: usize, b: usize|
                #[trigger] filed(edges@, a, b) == faces_with_edge(
                    faces,
                    a,
                    b,
                    mesh.faces@.len() as int,
                ),
            face_seqs(found@) == bridges_of_face(faces, fans, f as int, p as int),
        decreases n - p,
    {
        let v1: usize = face[p];
        let v2: usize = if p + 1 == n {
            face[0]
        } else {
            face[p + 1]
        };
        let ghost opposing = faces_with_edge(faces, v2, v1, mesh.faces@.len() as int);
        let ghost so_far = bridges_of_face(faces, fans, f as int, p as int);
        assert(edge_at(face@, p as int) == (v1, v2));
        assert(filed(edges@, v2, v1) == opposing);
        match edges.get(&key_of(v2, v1)) {
            Some(list) => {
                let another_faces = list.as_slice();
                assert(another_faces@ == opposing);
                assert(face_seqs(found@) =~= so_far + bridges_across(fans, v1, v2, f, opposing, 0));
                let mut t: usize = 0;
                while t < another_faces.len()
                    invariant
                        t <= another_faces@.len(),
                        another_faces@ == opposing,
                        fans == fan_views(cantellated_vertices@),
                        face_seqs(found@) == so_far + bridges_across(
                            fans,
                            v1,
                            v2,
                            f,
                            opposing,
                            t as int,
                        ),
                    decreases another_faces@.len() - t,
                {
                    let another_face_index: usize = another_faces[t];
                    // Every pair of faces is bridged once, from the face of lower index.
                    if another_face_index > f {
                        let edge_face = get_cantellated_edge_face(
                            cantellated_vertices,
                            v1,
                            v2,
                            f,
                            another_face_index,
                        );
                        match edge_face {
                            Some(edge_face) => {
                                let ghost prior = face_seqs(found@);
                                let ghost added = edge_face@;
                                found.push(edge_face);
                                assert(face_seqs(found@) =~= prior.push(added));
                                assert(prior.push(added) =~= so_far + bridges_across(
                                    fans,
                                    v1,
                                    v2,
                                    f,
                                    opposing,
                                    t + 1,
                                ));
                            },
                            None => {},
                        }
                    }
                    t += 1;
                }
            },
            None => {
                assert(opposing.len() == 0);
                assert(face_seqs(found@) =~= so_far + bridges_across(fans, v1, v2, f, opposing, 0));
            },
        }
        p += 1;
    }
    found
}

/// Appends to the result mesh the faces that bridge the edges of the mesh: one for every
/// edge of a valid face and every valid face with a greater index that has the edge in the
/// opposite direction, as far as the four corners exist and more than two are left of them.
/// The faces of the mesh are worked on in parallel; their bridges are appended in the order
/// of the faces.
pub fn cantellate_edges<P: Sync>(
    mesh: &Mesh<P>,
    result_mesh: &mut Mesh<Corner>,
    cantellated_vertices: &Vec<CantellatedVertex>,
)
    ensures
        final(result_mesh).vertices@ == old(result_mesh).vertices@,
        final(result_mesh).topology() == old(result_mesh).topology() + bridges(
            mesh.topology(),
            fan_views(cantellated_vertices@),
            mesh.faces@.len() as int,
        ),
{
    let ghost faces = mesh.topology();
    let ghost fans = fan_views(cantellated_vertices@);
    let ghost kept = result_mesh.topology();
    // First pass, on one thread: file every valid face under its directed edges.
    let edges = edge_index(mesh);
    let index = &edges;
    // Second pass, in parallel: bridge every edge to the faces on its other side.
    let job = |f: usize| -> (found: Vec<IndexList>)
        requires
            f < mesh.faces@.len(),
        ensures
            face_seqs(found@) == bridges_from(
                mesh.topology(),
                fan_views(cantellated_vertices@),
                f as int,
            ),
        { bridge_face(mesh, index, cantellated_vertices, f) };
    let found = par_map(mesh.faces.len(), job);
    let ghost all = found@;
    assert forall|f: int| 0 <= f < all.len() implies face_seqs((#[trigger] all[f])@) == bridges_from(
        faces,
        fans,
        f,
    ) by {
        assert(call_ensures(job, (f as usize,), all[f]));
    }
    assert(result_mesh.topology() =~= kept + bridges(faces, fans, 0));
    for batch in it: found
        invariant
            it.seq() == all,
            all.len() == mesh.faces@.len(),
            faces == mesh.topology(),
            kept == old(result_mesh).topology(),
            forall|f: int|
                0 <= f < all.len() ==> face_seqs((#[trigger] all[f])@) == bridges_from(faces, fans, f),
            result_mesh.vertices@ == old(result_mesh).vertices@,
            result_mesh.topology() == kept + bridges(faces, fans, it.index() as int),
    {
        let ghost prior = result_mesh.topology();
        let ghost added = face_seqs(batch@);
        let mut batch = batch;
        result_mesh.faces.append(&mut batch);
        assert(result_mesh.topology() =~= prior + added);
        assert(prior + added =~= kept + bridges(faces, fans, it.index() + 1));
    }
}

} // verus!
