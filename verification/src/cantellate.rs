//! Cantellation of a whole mesh.

use crate::edges::{bridges, cantellate_edges};
use crate::faces::{cantellate_faces, shrunk_faces};
use crate::fan::{
    expand_vertex, fan_views, sorted_copy, sorted_fan, with_cap, CantellatedVertex, FanView,
};
use crate::index_list::IndexList;
use crate::mesh::{Corner, Mesh};
use crate::parallel::par_map;
use crate::theorems::{
    all_polygons, faces_are_polygons, faces_below, faces_list_vertices, incidences, isolated,
    lemma_fan_of, lemma_later_fans_wait, merges, vertex_count,
};
use vstd::prelude::*;

verus! {

/// No vertex index occurs twice in the face.
pub open spec fn no_repeats(face: Seq<usize>) -> bool {
    forall|i: int, j: int| 0 <= i < j < face.len() ==> face[i] != face[j]
}

/// A face takes part in the topology when it has at least three vertices, all different.
pub open spec fn face_valid(face: Seq<usize>) -> bool {
    face.len() > 2 && no_repeats(face)
}

/// Whether the face has at least three vertices and names none of them twice.
pub fn is_face_valid(face: &[usize]) -> (valid: bool)
    ensures
        valid == face_valid(face@),
{
    let n: usize = face.len();
    if n <= 2 {
        return false;
    }
    let mut i: usize = 0;
    while i < n
        invariant
            n == face@.len(),
            i <= n,
            forall|a: int, b: int| 0 <= a < i && a < b < n ==> face@[a] != face@[b],
        decreases n - i,
    {
        let mut j: usize = i + 1;
        while j < n
            invariant
                n == face@.len(),
                i < n,
                i < j <= n,
                forall|b: int| i < b < j ==> face@[i as int] != face@[b],
            decreases n - j,
        {
            if face[j] == face[i] {
                return false;
            }
            j += 1;
        }
        i += 1;
    }
    true
}

/// The valid faces among the first `upto` that contain the vertex `v`, in ascending order.
pub open spec fn incident_faces(faces: Seq<Seq<usize>>, v: usize, upto: int) -> Seq<usize>
    decreases upto,
{
    if upto <= 0 {
        Seq::empty()
    } else {
        let before = incident_faces(faces, v, upto - 1);
        if face_valid(faces[upto - 1]) && faces[upto - 1].contains(v) {
            before.push((upto - 1) as usize)
        } else {
            before
        }
    }
}

/// The face names `v` at a position before `p`.
pub open spec fn occurs_before(face: Seq<usize>, v: usize, p: int) -> bool {
    exists|q: int| 0 <= q < p && q < face.len() && face[q] == v
}

/// Appends to the record of every vertex the valid faces that contain it, in ascending
/// order. A face that names a vertex without a record adds nothing for it.
pub fn fill_vertices_fo_faces<P>(mesh: &Mesh<P>, cantellated_vertices: &mut Vec<CantellatedVertex>)
    ensures
        final(cantellated_vertices)@.len() == old(cantellated_vertices)@.len(),
        forall|v: int|
            0 <= v < old(cantellated_vertices)@.len() ==> {
                &&& (#[trigger] final(cantellated_vertices)@[v]).index == old(
                    cantellated_vertices,
                )@[v].index
                &&& final(cantellated_vertices)@[v].cantellated@ == old(
                    cantellated_vertices,
                )@[v].cantellated@
                &&& final(cantellated_vertices)@[v].faces@ == old(cantellated_vertices)@[v].faces@
                    + incident_faces(mesh.topology(), v as usize, mesh.faces@.len() as int)
            },
{
    let ghost faces = mesh.topology();
    let ghost start = cantellated_vertices@;
    let n: usize = cantellated_vertices.len();
    let mut f: usize = 0;
    while f < mesh.faces.len()
        invariant
            f <= mesh.faces@.len(),
            faces == mesh.topology(),
            start == old(cantellated_vertices)@,
            cantellated_vertices@.len() == n,
            start.len() == n,
            forall|v: int|
                0 <= v < n ==> {
                    &&& (#[trigger] cantellated_vertices@[v]).index == start[v].index
                    &&& cantellated_vertices@[v].cantellated@ == start[v].cantellated@
                    &&& cantellated_vertices@[v].faces@ == start[v].faces@ + incident_faces(
                        faces,
                        v as usize,
                        f as int,
                    )
                },
        decreases mesh.faces@.len() - f,
    {
        let face = mesh.faces[f].as_slice();
        assert(face@ == faces[f as int]);
        if is_face_valid(face) {
            let mut p: usize = 0;
            while p < face.len()
                invariant
                    p <= face@.len(),
                    f < mesh.faces@.len(),
                    face@ == faces[f as int],
                    face_valid(face@),
                    cantellated_vertices@.len() == n,
                    start.len() == n,
                    forall|v: int|
                        0 <= v < n ==> {
                            &&& (#[trigger] cantellated_vertices@[v]).index == start[v].index
                            &&& cantellated_vertices@[v].cantellated@ == start[v].cantellated@
                            &&& cantellated_vertices@[v].faces@ == start[v].faces@
                                + incident_faces(faces, v as usize, f as int) + (if occurs_before(
                                face@,
                                v as usize,
                                p as int,
                            ) {
                                seq![f]
                            } else {
                                Seq::empty()
                            })
                        },
                decreases face@.len() - p,
            {
                let w: usize = face[p];
                let ghost before = cantellated_vertices@;
                if w < n {
                    assert(!occurs_before(face@, w, p as int));
                    cantellated_vertices[w].faces.push(f);
                }
                proof {
                    assert(occurs_before(face@, w, p + 1)) by {
                        assert(face@[p as int] == w);
                    }
                    assert forall|v: int| 0 <= v < n implies {
                        &&& (#[trigger] cantellated_vertices@[v]).index == start[v].index
                        &&& cantellated_vertices@[v].cantellated@ == start[v].cantellated@
                        &&& cantellated_vertices@[v].faces@ == start[v].faces@ + incident_faces(
                            faces,
                            v as usize,
                            f as int,
                        ) + (if occurs_before(face@, v as usize, p + 1) {
                            seq![f]
                        } else {
                            Seq::empty()
                        })
                    } by {
                        assert(before[v].index == start[v].index);
                        if v != w {
                            assert(occurs_before(face@, v as usize, p + 1) == occurs_before(
                                face@,
                                v as usize,
                                p as int,
                            ));
                        }
                    }
                }
                p += 1;
            }
            proof {
                assert forall|v: int| 0 <= v < n implies (#[trigger] cantellated_vertices@[v]).faces@
                    == start[v].faces@ + incident_faces(faces, v as usize, f + 1) by {
                    assert(cantellated_vertices@[v].index == start[v].index);
                    assert(occurs_before(face@, v as usize, face@.len() as int) == face@.contains(
                        v as usize,
                    ));
                }
            }
        }
        f += 1;
    }
}

/// The table for vertex `v`: its entry in `near`, or an empty table, which has no two corners
/// near, where `near` does not reach that far.
pub open spec fn table_of(near: Seq<Vec<Vec<bool>>>, v: int) -> Seq<Vec<bool>> {
    if 0 <= v < near.len() {
        near[v]@
    } else {
        Seq::empty()
    }
}

/// A cantellation under way: the fan records and what the result mesh holds.
pub struct Progress {
    pub fans: Seq<FanView>,
    pub vertices: Seq<Corner>,
    pub faces: Seq<Seq<usize>>,
}

/// The state after the first `upto` vertices have been expanded, one after the other, each
/// into the result mesh as the vertices before it left it.
pub open spec fn expand_vertices(
    faces: Seq<Seq<usize>>,
    start: Progress,
    near: Seq<Vec<Vec<bool>>>,
    upto: int,
) -> Progress
    decreases upto,
{
    if upto <= 0 {
        start
    } else {
        let before = expand_vertices(faces, start, near, upto - 1);
        let out = expand_vertex(
            faces,
            before.fans[upto - 1],
            table_of(near, upto - 1),
            before.vertices.len() as int,
        );
        Progress {
            fans: before.fans.update(upto - 1, out.fan),
            vertices: before.vertices + out.vertices,
            faces: with_cap(before.faces, out.cap),
        }
    }
}

/// The faces of every record in cyclic order, and whether its vertex is watertight. The
/// records are worked on in parallel.
fn sort_fans<P: Sync>(mesh: &Mesh<P>, records: &Vec<CantellatedVertex>) -> (sorted: Vec<
    (IndexList, bool),
>)
    ensures
        sorted@.len() == records@.len(),
        forall|v: int|
            0 <= v < sorted@.len() ==> {
                &&& (#[trigger] sorted@[v]).0@ == sorted_fan(
                    mesh.topology(),
                    records@[v].index,
                    records@[v].faces@,
                ).0
                &&& sorted@[v].1 == sorted_fan(
                    mesh.topology(),
                    records@[v].index,
                    records@[v].faces@,
                ).1
            },
{
    let job = |v: usize| -> (sorted: (IndexList, bool))
        requires
            v < records@.len(),
        ensures
            sorted.0@ == sorted_fan(
                mesh.topology(),
                records@[v as int].index,
                records@[v as int].faces@,
            ).0,
            sorted.1 == sorted_fan(
                mesh.topology(),
                records@[v as int].index,
                records@[v as int].faces@,
            ).1,
        { sorted_copy(mesh, &records[v]) };
    let sorted = par_map(records.len(), job);
    assert forall|v: int| 0 <= v < sorted@.len() implies {
        &&& (#[trigger] sorted@[v]).0@ == sorted_fan(
            mesh.topology(),
            records@[v].index,
            records@[v].faces@,
        ).0
        &&& sorted@[v].1 == sorted_fan(mesh.topology(), records@[v].index, records@[v].faces@).1
    } by {
        assert(call_ensures(job, (v as usize,), sorted@[v]));
    }
    sorted
}

/// Expands every vertex into the result mesh. `near[v]` is the table of vertex `v`:
/// `near[v][i][j]` says whether its corners in the faces at positions `i` and `j` of its
/// sorted fan fall together.
///
/// The fans are sorted in parallel. The corners are then placed one vertex after the other,
/// in the order of the records, since every new vertex takes the next free index of the
/// result mesh.
pub fn cantellate_vertices<P: Sync>(
    mesh: &Mesh<P>,
    result_mesh: &mut Mesh<Corner>,
    cantellated_vertices: &mut Vec<CantellatedVertex>,
    near: &Vec<Vec<Vec<bool>>>,
)
    ensures
        ({
            let end = expand_vertices(
                mesh.topology(),
                Progress {
                    fans: fan_views(old(cantellated_vertices)@),
                    vertices: old(result_mesh).vertices@,
                    faces: old(result_mesh).topology(),
                },
                near@,
                old(cantellated_vertices)@.len() as int,
            );
            &&& fan_views(final(cantellated_vertices)@) == end.fans
            &&& final(result_mesh).vertices@ == end.vertices
            &&& final(result_mesh).topology() == end.faces
        }),
{
    let ghost faces = mesh.topology();
    let ghost start = Progress {
        fans: fan_views(cantellated_vertices@),
        vertices: result_mesh.vertices@,
        faces: result_mesh.topology(),
    };
    let n: usize = cantellated_vertices.len();
    let sorted = sort_fans(mesh, cantellated_vertices);
    let ghost all = sorted@;
    let empty: Vec<Vec<bool>> = Vec::new();
    let mut v: usize = 0;
    for fan in it: sorted
        invariant
            it.seq() == all,
            all.len() == n,
            v == it.index(),
            n == cantellated_vertices@.len(),
            empty@.len() == 0,
            faces == mesh.topology(),
            start.fans.len() == n,
            forall|w: int|
                0 <= w < n ==> {
                    &&& (#[trigger] all[w]).0@ == sorted_fan(
                        faces,
                        start.fans[w].index,
                        start.fans[w].faces,
                    ).0
                    &&& all[w].1 == sorted_fan(faces, start.fans[w].index, start.fans[w].faces).1
                },
            fan_views(cantellated_vertices@) == expand_vertices(faces, start, near@, v as int).fans,
            result_mesh.vertices@ == expand_vertices(faces, start, near@, v as int).vertices,
            result_mesh.topology() == expand_vertices(faces, start, near@, v as int).faces,
    {
        let ghost views = fan_views(cantellated_vertices@);
        proof {
            lemma_later_fans_wait(faces, start, near@, v as int);
            assert(views[v as int] == cantellated_vertices@[v as int]@);
            assert(views[v as int] == start.fans[v as int]);
        }
        let table: &Vec<Vec<bool>> = if v < near.len() {
            &near[v]
        } else {
            &empty
        };
        assert(table@ =~= table_of(near@, v as int));
        let (faces_in_order, watertight) = fan;
        cantellated_vertices[v].faces = faces_in_order;
        cantellated_vertices[v].place_corners(watertight, table, result_mesh);
        assert(fan_views(cantellated_vertices@) =~= views.update(
            v as int,
            cantellated_vertices@[v as int]@,
        ));
        v += 1;
    }
}

/// The records of `count` vertices, each with the valid faces that contain the vertex, in
/// ascending order, and no corners yet.
pub open spec fn incident_fans(faces: Seq<Seq<usize>>, count: nat) -> Seq<FanView> {
    Seq::new(
        count,
        |v: int|
            FanView {
                index: v as usize,
                faces: incident_faces(faces, v as usize, faces.len() as int),
                cantellated: Seq::empty(),
            },
    )
}

/// The fan of vertex `v` in cyclic order: the order in which the vertex gets its corners, and
/// the one that the positions of its table refer to.
pub open spec fn fan_of(faces: Seq<Seq<usize>>, v: usize) -> Seq<usize> {
    sorted_fan(faces, v, incident_faces(faces, v, faces.len() as int)).0
}

/// All vertices of a mesh with `count` vertices expanded, starting from an empty result mesh.
pub open spec fn expanded(faces: Seq<Seq<usize>>, count: nat, near: Seq<Vec<Vec<bool>>>) -> Progress {
    expand_vertices(
        faces,
        Progress {
            fans: incident_fans(faces, count),
            vertices: Seq::empty(),
            faces: Seq::empty(),
        },
        near,
        count as int,
    )
}

/// The vertices of the cantellated mesh: for each vertex of the input mesh, in order, the
/// corners that were created for it.
pub open spec fn output_vertices(
    faces: Seq<Seq<usize>>,
    count: nat,
    near: Seq<Vec<Vec<bool>>>,
) -> Seq<Corner> {
    expanded(faces, count, near).vertices
}

/// The faces of the cantellated mesh: the caps of the watertight vertices, then the bridges
/// across the shared edges, then the faces of the input mesh rebuilt from their corners.
pub open spec fn output_faces(
    faces: Seq<Seq<usize>>,
    count: nat,
    near: Seq<Vec<Vec<bool>>>,
) -> Seq<Seq<usize>> {
    let end = expanded(faces, count, near);
    end.faces + bridges(faces, end.fans, faces.len() as int) + shrunk_faces(
        faces,
        end.fans,
        faces.len() as int,
    )
}

/// A record for each vertex of the mesh, filled with the faces that contain it.
fn collect_fans<P>(mesh: &Mesh<P>) -> (fans: Vec<CantellatedVertex>)
    ensures
        fans@.len() == mesh.vertices@.len(),
        fan_views(fans@) == incident_fans(mesh.topology(), mesh.vertices@.len()),
{
    let n: usize = mesh.vertices.len();
    let mut fans: Vec<CantellatedVertex> = Vec::new();
    let mut v: usize = 0;
    while v < n
        invariant
            v <= n,
            fans@.len() == v,
            forall|w: int|
                0 <= w < v ==> {
                    &&& (#[trigger] fans@[w]).index == w
                    &&& fans@[w].faces@ == Seq::<usize>::empty()
                    &&& fans@[w].cantellated@ == Seq::<usize>::empty()
                },
        decreases n - v,
    {
        fans.push(CantellatedVertex::new(v));
        v += 1;
    }
    fill_vertices_fo_faces(mesh, &mut fans);
    assert(fan_views(fans@) =~= incident_fans(mesh.topology(), mesh.vertices@.len())) by {
        assert forall|w: int| 0 <= w < n implies fan_views(fans@)[w] == incident_fans(
            mesh.topology(),
            mesh.vertices@.len(),
        )[w] by {
            assert(fans@[w].index == w);
            assert(fans@[w].faces@ =~= incident_faces(
                mesh.topology(),
                w as usize,
                mesh.faces@.len() as int,
            ));
        }
    }
    fans
}

/// For every vertex of the mesh its fan in cyclic order: the valid faces that contain the
/// vertex, chained as far as they follow on each other. The vertices are worked on in
/// parallel.
///
/// The tables that [`cantellate`] takes refer to these positions.
pub fn sorted_fans<P: Sync>(mesh: &Mesh<P>) -> (fans: Vec<IndexList>)
    ensures
        fans@.len() == mesh.vertices@.len(),
        forall|v: int|
            0 <= v < fans@.len() ==> (#[trigger] fans@[v])@ == fan_of(mesh.topology(), v as usize),
        forall|v: int, i: int|
            0 <= v < fans@.len() && 0 <= i < fans@[v]@.len() ==> {
                &&& (#[trigger] fans@[v]@[i]) < mesh.faces@.len()
                &&& face_valid(mesh.topology()[fans@[v]@[i] as int])
                &&& mesh.topology()[fans@[v]@[i] as int].contains(v as usize)
            },
{
    let ghost faces = mesh.topology();
    let records = collect_fans(mesh);
    let sorted = sort_fans(mesh, &records);
    let ghost all = sorted@;
    let ghost n = mesh.vertices@.len();
    let mut fans: Vec<IndexList> = Vec::new();
    for fan in it: sorted
        invariant
            it.seq() == all,
            all.len() == n,
            records@.len() == n,
            n == mesh.vertices@.len(),
            faces == mesh.topology(),
            fan_views(records@) == incident_fans(faces, n),
            forall|w: int|
                0 <= w < n ==> (#[trigger] all[w]).0@ == sorted_fan(
                    faces,
                    records@[w].index,
                    records@[w].faces@,
                ).0,
            fans@.len() == it.index(),
            forall|w: int| 0 <= w < fans@.len() ==> (#[trigger] fans@[w])@ == fan_of(faces, w as usize),
            forall|w: int, i: int|
                0 <= w < fans@.len() && 0 <= i < fans@[w]@.len() ==> {
                    &&& (#[trigger] fans@[w]@[i]) < mesh.faces@.len()
                    &&& face_valid(faces[fans@[w]@[i] as int])
                    &&& faces[fans@[w]@[i] as int].contains(w as usize)
                },
    {
        let ghost v = it.index() as int;
        let ghost sorted_before = fans@;
        proof {
            assert(mesh.faces@.len() == mesh.faces.len());
            lemma_fan_of(faces, v as usize);
            assert(fan_views(records@)[v] == incident_fans(faces, n)[v]);
            assert(fan_views(records@)[v] == records@[v]@);
            assert(all[v].0@ == fan_of(faces, v as usize));
        }
        let (faces_in_order, _) = fan;
        fans.push(faces_in_order);
        proof {
            assert forall|w: int, i: int| 0 <= w < fans@.len() && 0 <= i < fans@[w]@.len() implies {
                &&& (#[trigger] fans@[w]@[i]) < mesh.faces@.len()
                &&& face_valid(faces[fans@[w]@[i] as int])
                &&& faces[fans@[w]@[i] as int].contains(w as usize)
            } by {
                if w == v {
                    assert(fans@[w]@ == fan_of(faces, v as usize));
                    assert(fan_of(faces, v as usize)[i] < faces.len());
                } else {
                    assert(fans@[w] == sorted_before[w]);
                    assert(sorted_before[w]@[i] < mesh.faces@.len());
                }
            }
        }
    }
    fans
}

/// The table holds what `near` answers for vertex `v` and its fan: row `i` has an entry for
/// every position before `i`, and entry `j` of it is an answer of `near` for the vertex and
/// the faces at positions `i` and `j`.
pub open spec fn answers<F: Fn(usize, usize, usize) -> bool>(
    near: F,
    v: usize,
    fan: Seq<usize>,
    table: Seq<Vec<bool>>,
) -> bool {
    &&& table.len() == fan.len()
    &&& forall|i: int| 0 <= i < table.len() ==> (#[trigger] table[i])@.len() == i
    &&& forall|i: int, j: int|
        0 <= j < i < table.len() ==> call_ensures(near, (v, fan[i], fan[j]), #[trigger] table[i]@[j])
}

/// Asks `near` for every pair of corners of one vertex.
fn compare_corners<F: Fn(usize, usize, usize) -> bool>(fan: &IndexList, v: usize, near: &F) -> (table:
    Vec<Vec<bool>>)
    requires
        forall|i: int, j: int|
            0 <= i < fan@.len() && 0 <= j < fan@.len() ==> call_requires(
                *near,
                (v, fan@[i], fan@[j]),
            ),
    ensures
        answers(*near, v, fan@, table@),
{
    let faces = fan.as_slice();
    let mut table: Vec<Vec<bool>> = Vec::new();
    let mut i: usize = 0;
    while i < faces.len()
        invariant
            i <= faces@.len(),
            faces@ == fan@,
            table@.len() == i,
            forall|a: int, b: int|
                0 <= a < fan@.len() && 0 <= b < fan@.len() ==> call_requires(
                    *near,
                    (v, fan@[a], fan@[b]),
                ),
            forall|a: int| 0 <= a < i ==> (#[trigger] table@[a])@.len() == a,
            forall|a: int, b: int|
                0 <= b < a < i ==> call_ensures(*near, (v, fan@[a], fan@[b]), #[trigger] table@[a]@[b]),
        decreases faces@.len() - i,
    {
        let mut row: Vec<bool> = Vec::new();
        let mut j: usize = 0;
        while j < i
            invariant
                j <= i,
                i < faces@.len(),
                faces@ == fan@,
                row@.len() == j,
                forall|a: int, b: int|
                    0 <= a < fan@.len() && 0 <= b < fan@.len() ==> call_requires(
                        *near,
                        (v, fan@[a], fan@[b]),
                    ),
                forall|b: int|
                    0 <= b < j ==> call_ensures(*near, (v, fan@[i as int], fan@[b]), #[trigger] row@[b]),
            decreases i - j,
        {
            let answer = near(v, faces[i], faces[j]);
            row.push(answer);
            j += 1;
        }
        table.push(row);
        i += 1;
    }
    table
}

/// Asks `near`, for every vertex of the mesh, which of its corners fall together, and puts
/// the answers into the tables that [`cantellate`] takes. `near` is given the vertex and two
/// of the faces of its fan, the one that stands later in the fan first. The vertices are
/// worked on in parallel.
pub fn near_tables<P: Sync, F: Fn(usize, usize, usize) -> bool + Sync + Send>(
    mesh: &Mesh<P>,
    near: F,
) -> (tables: Vec<Vec<Vec<bool>>>)
    requires
        forall|v: usize, a: usize, b: usize|
            v < mesh.vertices@.len() && a < mesh.faces@.len() && b < mesh.faces@.len()
                ==> call_requires(near, (v, a, b)),
    ensures
        tables@.len() == mesh.vertices@.len(),
        forall|v: int|
            0 <= v < tables@.len() ==> answers(
                near,
                v as usize,
                fan_of(mesh.topology(), v as usize),
                (#[trigger] tables@[v])@,
            ),
{
    let fans = sorted_fans(mesh);
    let sorted = &fans;
    let asked = &near;
    let job = |v: usize| -> (table: Vec<Vec<bool>>)
        requires
            v < sorted@.len(),
        ensures
            answers(*asked, v, sorted@[v as int]@, table@),
        { compare_corners(&sorted[v], v, asked) };
    let tables = par_map(fans.len(), job);
    assert forall|v: int| 0 <= v < tables@.len() implies answers(
        near,
        v as usize,
        fan_of(mesh.topology(), v as usize),
        (#[trigger] tables@[v])@,
    ) by {
        assert(call_ensures(job, (v as usize,), tables@[v]));
    }
    tables
}

/// Cantellates the mesh.
///
/// For every vertex `v` the table `near[v]` says which of its corners fall together:
/// `near[v][i][j]` speaks of the corners in the faces at positions `i` and `j` of the fan of
/// `v` as [`sorted_fans`] gives it. A vertex or a position that `near` does not reach has
/// nothing near it.
///
/// The vertices of the result say where they come from. There is one for every pair of a
/// vertex and a valid face that contains it, less the corners that share a vertex, and one
/// for every vertex that no valid face contains. The faces of the result list vertices of
/// the result, more than two each.
pub fn cantellate<P: Sync>(mesh: &Mesh<P>, near: &Vec<Vec<Vec<bool>>>) -> (result_mesh: Mesh<Corner>)
    ensures
        result_mesh.vertices@ == output_vertices(
            mesh.topology(),
            mesh.vertices@.len(),
            near@,
        ),
        result_mesh.topology() == output_faces(mesh.topology(), mesh.vertices@.len(), near@),
        result_mesh.vertices@.len() == incidences(mesh.topology(), mesh.vertices@.len() as int)
            - merges(mesh.topology(), near@, mesh.vertices@.len() as int) + isolated(
            mesh.topology(),
            mesh.vertices@.len() as int,
        ),
        result_mesh.vertices@.len() >= mesh.vertices@.len(),
        all_polygons(result_mesh.topology()),
        faces_below(result_mesh.topology(), result_mesh.vertices@.len() as int),
{
    let mut result_mesh: Mesh<Corner> = Mesh::new();
    assert(result_mesh.vertices@ =~= Seq::<Corner>::empty());
    assert(result_mesh.topology() =~= Seq::<Seq<usize>>::empty());

    // Fill the map from the vertices to their faces.
    let mut cantellated_vertices = collect_fans(mesh);

    // Expand all vertices by their faces. All vertices of the result mesh are created here;
    // the faces along the edges and the shrunk faces are built from them afterwards.
    cantellate_vertices(mesh, &mut result_mesh, &mut cantellated_vertices, near);

    cantellate_edges(mesh, &mut result_mesh, &cantellated_vertices);

    cantellate_faces(mesh, &mut result_mesh, &cantellated_vertices);

    proof {
        vertex_count(mesh.topology(), mesh.vertices@.len(), near@);
        faces_are_polygons(mesh.topology(), mesh.vertices@.len(), near@);
        assert(result_mesh.vertices@.len() == result_mesh.vertices.len());
        faces_list_vertices(mesh.topology(), mesh.vertices@.len(), near@);
    }
    result_mesh
}

} // verus!
