//! What holds of every cantellated mesh.

use crate::cantellate::{
    expand_vertices, expanded, face_valid, fan_of, incident_faces, incident_fans, output_faces,
    output_vertices, table_of, Progress,
};
use crate::edges::{
    bridges, bridges_across, bridges_of_edge, bridges_of_face, edge_at, edge_face,
    faces_with_edge, has_edge,
};
use crate::faces::{shrunk_corners, shrunk_faces};
use crate::fan::{
    corner_for_face, corner_of, cyclic_next, expand_vertex, first_match, lemma_first_match,
    placed, sorted_fan, FanView,
};
use crate::fan_theorems::{
    all_apart, lemma_created_any_base, lemma_placed_apart, lemma_placed_shape, lemma_sorted_fan,
};
use vstd::prelude::*;

verus! {

/// The number of corners of vertex `v`: the valid faces that contain it.
pub open spec fn corner_count(faces: Seq<Seq<usize>>, v: int) -> int {
    incident_faces(faces, v as usize, faces.len() as int).len() as int
}

/// The number of corners of vertex `v` that share the vertex of an earlier corner.
pub open spec fn merged_corners(faces: Seq<Seq<usize>>, near: Seq<Vec<Vec<bool>>>, v: int) -> int {
    let k = corner_count(faces, v);
    k - placed(table_of(near, v), k, 0, k).created.len()
}

/// The pairs of a vertex among the first `upto` and a valid face that contains it.
pub open spec fn incidences(faces: Seq<Seq<usize>>, upto: int) -> int
    decreases upto,
{
    if upto <= 0 {
        0
    } else {
        incidences(faces, upto - 1) + corner_count(faces, upto - 1)
    }
}

/// The corners of the first `upto` vertices that share the vertex of an earlier corner.
pub open spec fn merges(faces: Seq<Seq<usize>>, near: Seq<Vec<Vec<bool>>>, upto: int) -> int
    decreases upto,
{
    if upto <= 0 {
        0
    } else {
        merges(faces, near, upto - 1) + merged_corners(faces, near, upto - 1)
    }
}

/// The vertices among the first `upto` that no valid face contains.
pub open spec fn isolated(faces: Seq<Seq<usize>>, upto: int) -> int
    decreases upto,
{
    if upto <= 0 {
        0
    } else {
        isolated(faces, upto - 1) + (if corner_count(faces, upto - 1) == 0 {
            1int
        } else {
            0int
        })
    }
}

/// The faces that are listed for a vertex are valid faces of the mesh that contain it, in
/// ascending order.
pub proof fn lemma_incident_faces(faces: Seq<Seq<usize>>, v: usize, upto: int)
    requires
        0 <= upto <= faces.len(),
        upto <= usize::MAX,
    ensures
        forall|i: int|
            0 <= i < incident_faces(faces, v, upto).len() ==> {
                &&& (#[trigger] incident_faces(faces, v, upto)[i]) < upto
                &&& face_valid(faces[incident_faces(faces, v, upto)[i] as int])
                &&& faces[incident_faces(faces, v, upto)[i] as int].contains(v)
            },
        forall|i: int, j: int|
            0 <= i < j < incident_faces(faces, v, upto).len() ==> incident_faces(faces, v, upto)[i]
                < incident_faces(faces, v, upto)[j],
    decreases upto,
{
    if upto > 0 {
        lemma_incident_faces(faces, v, upto - 1);
        let before = incident_faces(faces, v, upto - 1);
        let all = incident_faces(faces, v, upto);
        assert forall|i: int| 0 <= i < all.len() implies {
            &&& (#[trigger] all[i]) < upto
            &&& face_valid(faces[all[i] as int])
            &&& faces[all[i] as int].contains(v)
        } by {
            if i < before.len() {
                assert(all[i] == before[i]);
            }
        }
        assert forall|i: int, j: int| 0 <= i < j < all.len() implies all[i] < all[j] by {
            assert(all[i] == before[i]);
            if j < before.len() {
                assert(all[j] == before[j]);
            }
        }
    }
}

/// The sorted fan of a vertex lists valid faces of the mesh that contain the vertex.
pub proof fn lemma_fan_of(faces: Seq<Seq<usize>>, v: usize)
    requires
        faces.len() <= usize::MAX,
    ensures
        forall|i: int|
            0 <= i < fan_of(faces, v).len() ==> {
                &&& (#[trigger] fan_of(faces, v)[i]) < faces.len()
                &&& face_valid(faces[fan_of(faces, v)[i] as int])
                &&& faces[fan_of(faces, v)[i] as int].contains(v)
            },
{
    broadcast use vstd::seq_lib::group_to_multiset_ensures;

    let incident = incident_faces(faces, v, faces.len() as int);
    let sorted = fan_of(faces, v);
    lemma_incident_faces(faces, v, faces.len() as int);
    lemma_sorted_fan(faces, v, incident);
    assert forall|i: int| 0 <= i < sorted.len() implies {
        &&& (#[trigger] sorted[i]) < faces.len()
        &&& face_valid(faces[sorted[i] as int])
        &&& faces[sorted[i] as int].contains(v)
    } by {
        assert(sorted.contains(sorted[i]));
        assert(incident.to_multiset().count(sorted[i]) > 0);
        assert(incident.contains(sorted[i]));
        let at = choose|at: int| 0 <= at < incident.len() && incident[at] == sorted[i];
        assert(incident[at] < faces.len());
    }
}

/// Every face has more than two vertices.
pub open spec fn all_polygons(faces: Seq<Seq<usize>>) -> bool {
    forall|i: int| 0 <= i < faces.len() ==> (#[trigger] faces[i]).len() > 2
}

/// Expanding the first `upto` vertices leaves the records of the others as they were.
pub proof fn lemma_later_fans_wait(
    faces: Seq<Seq<usize>>,
    start: Progress,
    near: Seq<Vec<Vec<bool>>>,
    upto: int,
)
    requires
        0 <= upto <= start.fans.len(),
    ensures
        expand_vertices(faces, start, near, upto).fans.len() == start.fans.len(),
        forall|w: int|
            upto <= w < start.fans.len() ==> expand_vertices(faces, start, near, upto).fans[w]
                == start.fans[w],
    decreases upto,
{
    if upto > 0 {
        lemma_later_fans_wait(faces, start, near, upto - 1);
    }
}

/// A vertex with corners has fewer merged corners than corners.
pub proof fn lemma_merged_corners(faces: Seq<Seq<usize>>, near: Seq<Vec<Vec<bool>>>, v: int)
    ensures
        0 <= merged_corners(faces, near, v),
        corner_count(faces, v) > 0 ==> merged_corners(faces, near, v) < corner_count(faces, v),
{
    let k = corner_count(faces, v);
    lemma_placed_shape(table_of(near, v), k, 0, k);
}

/// The vertices that the first `upto` vertices of the mesh are expanded into.
pub proof fn lemma_vertex_count(
    faces: Seq<Seq<usize>>,
    count: nat,
    near: Seq<Vec<Vec<bool>>>,
    upto: int,
)
    requires
        0 <= upto <= count,
    ensures
        expand_vertices(
            faces,
            Progress {
                fans: incident_fans(faces, count),
                vertices: Seq::empty(),
                faces: Seq::empty(),
            },
            near,
            upto,
        ).vertices.len() == incidences(faces, upto) - merges(faces, near, upto) + isolated(
            faces,
            upto,
        ),
        merges(faces, near, upto) <= incidences(faces, upto),
        upto <= incidences(faces, upto) - merges(faces, near, upto) + isolated(faces, upto),
    decreases upto,
{
    let start = Progress {
        fans: incident_fans(faces, count),
        vertices: Seq::empty(),
        faces: Seq::empty(),
    };
    if upto > 0 {
        let v = upto - 1;
        lemma_vertex_count(faces, count, near, v);
        lemma_later_fans_wait(faces, start, near, v);
        lemma_merged_corners(faces, near, v);
        let before = expand_vertices(faces, start, near, v);
        let fan = before.fans[v];
        assert(fan == incident_fans(faces, count)[v]);
        let k = corner_count(faces, v);
        assert(fan.faces.len() == k);
        let base = before.vertices.len() as int;
        lemma_sorted_fan(faces, fan.index, fan.faces);
        lemma_created_any_base(table_of(near, v), k, base, 0, k);
    }
}

/// Number of vertices of a cantellated mesh.
///
/// The mesh has one vertex for every pair of a vertex of the input mesh and a valid face that
/// contains it, less the corners that share the vertex of an earlier corner, and one for
/// every vertex that no valid face contains. So it has at least one for every vertex of
/// the input mesh.
pub proof fn vertex_count(faces: Seq<Seq<usize>>, count: nat, near: Seq<Vec<Vec<bool>>>)
    ensures
        output_vertices(faces, count, near).len() == incidences(faces, count as int) - merges(
            faces,
            near,
            count as int,
        ) + isolated(faces, count as int),
        output_vertices(faces, count, near).len() >= incidences(faces, count as int) - merges(
            faces,
            near,
            count as int,
        ),
        output_vertices(faces, count, near).len() >= isolated(faces, count as int),
        output_vertices(faces, count, near).len() >= count,
        0 <= merges(faces, near, count as int) <= incidences(faces, count as int),
{
    lemma_vertex_count(faces, count, near, count as int);
    lemma_counts_not_negative(faces, near, count as int);
}

/// None of the three counts is negative.
pub proof fn lemma_counts_not_negative(faces: Seq<Seq<usize>>, near: Seq<Vec<Vec<bool>>>, upto: int)
    ensures
        0 <= merges(faces, near, upto),
        0 <= isolated(faces, upto),
        0 <= incidences(faces, upto),
    decreases upto,
{
    if upto > 0 {
        lemma_counts_not_negative(faces, near, upto - 1);
        lemma_merged_corners(faces, near, upto - 1);
    }
}

/// The record names `face` at a position that has a corner.
pub open spec fn has_corner(fan: FanView, face: usize) -> bool {
    corner_for_face(fan, face) is Some
}

/// No two positions of the record share a corner.
pub open spec fn corners_distinct(fan: FanView) -> bool {
    forall|i: int, j: int|
        0 <= i < j < fan.cantellated.len() ==> fan.cantellated[i] != fan.cantellated[j]
}

/// Two different faces have different corners at a vertex none of whose corners are shared.
pub proof fn lemma_distinct_corners(fan: FanView, face1: usize, face2: usize)
    requires
        corners_distinct(fan),
        has_corner(fan, face1),
        has_corner(fan, face2),
        face1 != face2,
    ensures
        corner_for_face(fan, face1) != corner_for_face(fan, face2),
{
    lemma_first_match(fan.faces, face1, 0);
    lemma_first_match(fan.faces, face2, 0);
}

/// A vertex none of whose corners fall together has a different vertex of the result mesh
/// for each of its faces, as long as the number of vertices fits the machine's index type.
pub proof fn apart_corners_are_distinct(
    faces: Seq<Seq<usize>>,
    fan: FanView,
    table: Seq<Vec<bool>>,
    base: int,
)
    requires
        all_apart(table),
        0 <= base,
        base + fan.faces.len() <= usize::MAX,
    ensures
        corners_distinct(expand_vertex(faces, fan, table, base).fan),
{
    lemma_sorted_fan(faces, fan.index, fan.faces);
    let k = fan.faces.len() as int;
    lemma_placed_apart(table, k, base, k);
}

/// A bridge between faces whose corners are all different is a quadrilateral.
///
/// Where the vertices `v1` and `v2` each have a corner in the two different faces `face1`
/// and `face2`, and neither vertex has a corner that two of its faces share, the face that
/// bridges the edge from `v1` to `v2` exists and has exactly four vertices.
pub proof fn bridge_is_quad(fans: Seq<FanView>, v1: usize, v2: usize, face1: usize, face2: usize)
    requires
        v1 < fans.len(),
        v2 < fans.len(),
        face1 != face2,
        has_corner(fans[v1 as int], face1),
        has_corner(fans[v1 as int], face2),
        has_corner(fans[v2 as int], face1),
        has_corner(fans[v2 as int], face2),
        corners_distinct(fans[v1 as int]),
        corners_distinct(fans[v2 as int]),
    ensures
        edge_face(fans, v1, v2, face1, face2) is Some,
        edge_face(fans, v1, v2, face1, face2).unwrap().len() == 4,
{
    lemma_distinct_corners(fans[v1 as int], face1, face2);
    lemma_distinct_corners(fans[v2 as int], face1, face2);
}

/// A face is listed for a vertex exactly when it is a valid face that contains the vertex.
pub proof fn lemma_incident_faces_complete(faces: Seq<Seq<usize>>, v: usize, upto: int, f: int)
    requires
        0 <= f < upto <= faces.len(),
        upto <= usize::MAX,
        face_valid(faces[f]),
        faces[f].contains(v),
    ensures
        incident_faces(faces, v, upto).contains(f as usize),
    decreases upto,
{
    let all = incident_faces(faces, v, upto);
    if f == upto - 1 {
        assert(all[all.len() - 1] == f as usize);
    } else {
        lemma_incident_faces_complete(faces, v, upto - 1, f);
        let before = incident_faces(faces, v, upto - 1);
        let at = choose|at: int| 0 <= at < before.len() && before[at] == f as usize;
        assert(all[at] == f as usize);
    }
}

/// Once a vertex has been expanded, expanding the vertices after it leaves its record as it
/// is, and takes no vertex from the result mesh.
pub proof fn lemma_earlier_fans_stay(
    faces: Seq<Seq<usize>>,
    start: Progress,
    near: Seq<Vec<Vec<bool>>>,
    w: int,
    upto: int,
)
    requires
        0 <= w < upto <= start.fans.len(),
    ensures
        expand_vertices(faces, start, near, upto).fans[w] == expand_vertices(
            faces,
            start,
            near,
            w + 1,
        ).fans[w],
        expand_vertices(faces, start, near, w + 1).vertices.len() <= expand_vertices(
            faces,
            start,
            near,
            upto,
        ).vertices.len(),
    decreases upto,
{
    if upto > w + 1 {
        lemma_earlier_fans_stay(faces, start, near, w, upto - 1);
        lemma_later_fans_wait(faces, start, near, upto - 1);
    }
}

/// The record of vertex `v` in a cantellated mesh: the expansion of its incident faces into
/// the result mesh as the vertices before it left it.
pub proof fn lemma_expanded_fan(faces: Seq<Seq<usize>>, count: nat, near: Seq<Vec<Vec<bool>>>, v: int)
    requires
        0 <= v < count,
    ensures
        expanded(faces, count, near).fans[v] == expand_vertex(
            faces,
            incident_fans(faces, count)[v],
            table_of(near, v),
            expand_vertices(
                faces,
                Progress {
                    fans: incident_fans(faces, count),
                    vertices: Seq::empty(),
                    faces: Seq::empty(),
                },
                near,
                v,
            ).vertices.len() as int,
        ).fan,
        expand_vertices(
            faces,
            Progress {
                fans: incident_fans(faces, count),
                vertices: Seq::empty(),
                faces: Seq::empty(),
            },
            near,
            v + 1,
        ).vertices.len() <= output_vertices(faces, count, near).len(),
{
    let start = Progress {
        fans: incident_fans(faces, count),
        vertices: Seq::empty(),
        faces: Seq::empty(),
    };
    lemma_earlier_fans_stay(faces, start, near, v, count as int);
    lemma_later_fans_wait(faces, start, near, v);
}

/// In a cantellated mesh, a vertex none of whose corners fall together has a corner of its
/// own in every valid face that contains it.
pub proof fn lemma_apart_vertex(
    faces: Seq<Seq<usize>>,
    count: nat,
    near: Seq<Vec<Vec<bool>>>,
    v: usize,
    f: int,
)
    requires
        v < count,
        0 <= f < faces.len(),
        faces.len() <= usize::MAX,
        face_valid(faces[f]),
        faces[f].contains(v),
        all_apart(table_of(near, v as int)),
        output_vertices(faces, count, near).len() <= usize::MAX,
    ensures
        has_corner(expanded(faces, count, near).fans[v as int], f as usize),
        corners_distinct(expanded(faces, count, near).fans[v as int]),
{
    broadcast use vstd::seq_lib::group_to_multiset_ensures;

    let start = Progress {
        fans: incident_fans(faces, count),
        vertices: Seq::empty(),
        faces: Seq::empty(),
    };
    let fan = incident_fans(faces, count)[v as int];
    let table = table_of(near, v as int);
    let base = expand_vertices(faces, start, near, v as int).vertices.len() as int;
    let out = expand_vertex(faces, fan, table, base);
    let k = fan.faces.len() as int;
    lemma_expanded_fan(faces, count, near, v as int);
    lemma_incident_faces_complete(faces, v, faces.len() as int, f);
    lemma_sorted_fan(faces, fan.index, fan.faces);
    lemma_placed_apart(table, k, base, k);
    lemma_later_fans_wait(faces, start, near, v as int);
    assert(k > 0);
    assert(out.vertices.len() == k);
    assert(expand_vertices(faces, start, near, v + 1).vertices.len() == base + k);
    assert(base + k <= usize::MAX);
    apart_corners_are_distinct(faces, fan, table, base);
    assert(fan.faces.contains(f as usize));
    assert(out.fan.faces.to_multiset().count(f as usize) > 0);
    assert(out.fan.faces.contains(f as usize));
    lemma_first_match(out.fan.faces, f as usize, 0);
    let at = choose|at: int| 0 <= at < out.fan.faces.len() && out.fan.faces[at] == f as usize;
    assert(first_match(out.fan.faces, f as usize, 0) <= at);
}

/// Bridge between two faces that share an edge.
///
/// Let `f` and `g` be valid faces of the mesh, `f` before `g`, where `f` has an edge from
/// `v1` to `v2` and `g` has the edge from `v2` to `v1`. Where none of the corners of `v1`
/// fall together, and none of those of `v2`, the face that bridges the edge in the
/// cantellated mesh exists and has exactly four vertices.
pub proof fn shared_edge_gets_a_quad(
    faces: Seq<Seq<usize>>,
    count: nat,
    near: Seq<Vec<Vec<bool>>>,
    f: int,
    g: int,
    p: int,
)
    requires
        0 <= f < g < faces.len(),
        faces.len() <= usize::MAX,
        face_valid(faces[f]),
        face_valid(faces[g]),
        0 <= p < faces[f].len(),
        edge_at(faces[f], p).0 < count,
        edge_at(faces[f], p).1 < count,
        has_edge(faces[g], edge_at(faces[f], p).1, edge_at(faces[f], p).0),
        all_apart(table_of(near, edge_at(faces[f], p).0 as int)),
        all_apart(table_of(near, edge_at(faces[f], p).1 as int)),
        output_vertices(faces, count, near).len() <= usize::MAX,
    ensures
        edge_face(
            expanded(faces, count, near).fans,
            edge_at(faces[f], p).0,
            edge_at(faces[f], p).1,
            f as usize,
            g as usize,
        ) is Some,
        edge_face(
            expanded(faces, count, near).fans,
            edge_at(faces[f], p).0,
            edge_at(faces[f], p).1,
            f as usize,
            g as usize,
        ).unwrap().len() == 4,
{
    let (v1, v2) = edge_at(faces[f], p);
    let fans = expanded(faces, count, near).fans;
    let start = Progress {
        fans: incident_fans(faces, count),
        vertices: Seq::empty(),
        faces: Seq::empty(),
    };
    lemma_later_fans_wait(faces, start, near, count as int);
    let q = choose|q: int|
        0 <= q < faces[g].len() && q < faces[g].len() && #[trigger] edge_at(faces[g], q) == (v2, v1);
    assert(faces[f].contains(v1)) by {
        assert(faces[f][p] == v1);
    }
    assert(faces[f].contains(v2)) by {
        assert(faces[f][cyclic_next(p, faces[f].len() as int)] == v2);
    }
    assert(faces[g].contains(v2)) by {
        assert(faces[g][q] == v2);
    }
    assert(faces[g].contains(v1)) by {
        assert(faces[g][cyclic_next(q, faces[g].len() as int)] == v1);
    }
    lemma_apart_vertex(faces, count, near, v1, f);
    lemma_apart_vertex(faces, count, near, v1, g);
    lemma_apart_vertex(faces, count, near, v2, f);
    lemma_apart_vertex(faces, count, near, v2, g);
    bridge_is_quad(fans, v1, v2, f as usize, g as usize);
}

/// Caps have more than two vertices.
pub proof fn lemma_caps_are_polygons(
    faces: Seq<Seq<usize>>,
    start: Progress,
    near: Seq<Vec<Vec<bool>>>,
    upto: int,
)
    requires
        all_polygons(start.faces),
    ensures
        all_polygons(expand_vertices(faces, start, near, upto).faces),
    decreases upto,
{
    if upto > 0 {
        lemma_caps_are_polygons(faces, start, near, upto - 1);
    }
}

/// Bridges have more than two vertices.
pub proof fn lemma_bridges_across_are_polygons(
    fans: Seq<FanView>,
    v1: usize,
    v2: usize,
    f: usize,
    opposing: Seq<usize>,
    upto: int,
)
    ensures
        all_polygons(bridges_across(fans, v1, v2, f, opposing, upto)),
    decreases upto,
{
    if upto > 0 {
        lemma_bridges_across_are_polygons(fans, v1, v2, f, opposing, upto - 1);
    }
}

/// The bridges of one face have more than two vertices.
pub proof fn lemma_bridges_of_face_are_polygons(
    faces: Seq<Seq<usize>>,
    fans: Seq<FanView>,
    f: int,
    upto: int,
)
    ensures
        all_polygons(bridges_of_face(faces, fans, f, upto)),
    decreases upto,
{
    if upto > 0 {
        lemma_bridges_of_face_are_polygons(faces, fans, f, upto - 1);
        let (v1, v2) = edge_at(faces[f], upto - 1);
        let opposing = faces_with_edge(faces, v2, v1, faces.len() as int);
        lemma_bridges_across_are_polygons(fans, v1, v2, f as usize, opposing, opposing.len() as int);
        assert(bridges_of_edge(faces, fans, f, upto - 1) == bridges_across(
            fans,
            v1,
            v2,
            f as usize,
            opposing,
            opposing.len() as int,
        ));
    }
}

/// All bridges have more than two vertices.
pub proof fn lemma_bridges_are_polygons(faces: Seq<Seq<usize>>, fans: Seq<FanView>, upto: int)
    ensures
        all_polygons(bridges(faces, fans, upto)),
    decreases upto,
{
    if upto > 0 {
        lemma_bridges_are_polygons(faces, fans, upto - 1);
        lemma_bridges_of_face_are_polygons(faces, fans, upto - 1, faces[upto - 1].len() as int);
    }
}

/// The rebuilt faces have more than two vertices.
pub proof fn lemma_shrunk_faces_are_polygons(faces: Seq<Seq<usize>>, fans: Seq<FanView>, upto: int)
    ensures
        all_polygons(shrunk_faces(faces, fans, upto)),
    decreases upto,
{
    if upto > 0 {
        lemma_shrunk_faces_are_polygons(faces, fans, upto - 1);
    }
}

/// Every face of a cantellated mesh has more than two vertices, whatever falls together.
pub proof fn faces_are_polygons(faces: Seq<Seq<usize>>, count: nat, near: Seq<Vec<Vec<bool>>>)
    ensures
        all_polygons(output_faces(faces, count, near)),
{
    let start = Progress {
        fans: incident_fans(faces, count),
        vertices: Seq::empty(),
        faces: Seq::empty(),
    };
    let end = expanded(faces, count, near);
    lemma_caps_are_polygons(faces, start, near, count as int);
    lemma_bridges_are_polygons(faces, end.fans, faces.len() as int);
    lemma_shrunk_faces_are_polygons(faces, end.fans, faces.len() as int);
}

/// Every index that the face lists is below `bound`.
pub open spec fn indices_below(face: Seq<usize>, bound: int) -> bool {
    forall|i: int| 0 <= i < face.len() ==> (#[trigger] face[i]) < bound
}

/// Every face lists indices below `bound` only.
pub open spec fn faces_below(faces: Seq<Seq<usize>>, bound: int) -> bool {
    forall|f: int| 0 <= f < faces.len() ==> indices_below(#[trigger] faces[f], bound)
}

/// Every corner of every record is below `bound`.
pub open spec fn fans_below(fans: Seq<FanView>, bound: int) -> bool {
    forall|v: int| 0 <= v < fans.len() ==> indices_below((#[trigger] fans[v]).cantellated, bound)
}

/// The corners placed are vertices that the result mesh has by then, as long as the number
/// of its vertices fits the machine's index type.
pub proof fn lemma_placed_below(table: Seq<Vec<bool>>, k: int, base: int, i: int, last: int)
    requires
        0 <= i <= last,
        0 <= base,
        base + placed(table, k, base, last).created.len() <= usize::MAX,
    ensures
        indices_below(
            placed(table, k, base, i).cantellated,
            base + placed(table, k, base, i).created.len(),
        ),
    decreases i,
{
    if i > 0 {
        lemma_created_grows(table, k, base, i, last);
        lemma_created_grows(table, k, base, i - 1, i);
        lemma_placed_shape(table, k, base, i - 1);
        lemma_placed_below(table, k, base, i - 1, last);
        let before = placed(table, k, base, i - 1);
        let after = placed(table, k, base, i);
        assert forall|j: int| 0 <= j < after.cantellated.len() implies (
        #[trigger] after.cantellated[j]) < base + after.created.len() by {
            if j < i - 1 {
                assert(after.cantellated[j] == before.cantellated[j]);
            }
        }
    }
}

/// Placing more corners creates no fewer vertices.
pub proof fn lemma_created_grows(table: Seq<Vec<bool>>, k: int, base: int, i: int, last: int)
    requires
        0 <= i <= last,
    ensures
        placed(table, k, base, i).created.len() <= placed(table, k, base, last).created.len(),
    decreases last - i,
{
    if i < last {
        lemma_created_grows(table, k, base, i + 1, last);
    }
}

/// Expanding vertices keeps the corners and the caps inside the result mesh.
pub proof fn lemma_expansion_below(
    faces: Seq<Seq<usize>>,
    start: Progress,
    near: Seq<Vec<Vec<bool>>>,
    upto: int,
)
    requires
        0 <= upto <= start.fans.len(),
        fans_below(start.fans, start.vertices.len() as int),
        faces_below(start.faces, start.vertices.len() as int),
        expand_vertices(faces, start, near, upto).vertices.len() <= usize::MAX,
    ensures
        fans_below(
            expand_vertices(faces, start, near, upto).fans,
            expand_vertices(faces, start, near, upto).vertices.len() as int,
        ),
        faces_below(
            expand_vertices(faces, start, near, upto).faces,
            expand_vertices(faces, start, near, upto).vertices.len() as int,
        ),
    decreases upto,
{
    if upto > 0 {
        let v = upto - 1;
        let before = expand_vertices(faces, start, near, v);
        let after = expand_vertices(faces, start, near, upto);
        lemma_later_fans_wait(faces, start, near, v);
        lemma_expansion_below(faces, start, near, v);
        let base = before.vertices.len() as int;
        let bound = after.vertices.len() as int;
        let fan = before.fans[v];
        let table = table_of(near, v);
        let out = expand_vertex(faces, fan, table, base);
        if fan.faces.len() > 0 {
            let sorted = sorted_fan(faces, fan.index, fan.faces).0;
            let k = sorted.len() as int;
            lemma_placed_below(table, k, base, k, k);
        }
        assert forall|w: int| 0 <= w < after.fans.len() implies indices_below(
            (#[trigger] after.fans[w]).cantellated,
            bound,
        ) by {
            if w != v {
                assert(indices_below(before.fans[w].cantellated, base));
            }
        }
        assert forall|f: int| 0 <= f < after.faces.len() implies indices_below(
            #[trigger] after.faces[f],
            bound,
        ) by {
            if f < before.faces.len() {
                assert(indices_below(before.faces[f], base));
            }
        }
    }
}

/// A corner that is looked up is one that a record holds.
pub proof fn lemma_corner_below(fans: Seq<FanView>, bound: int, v: usize, face: usize)
    requires
        fans_below(fans, bound),
    ensures
        corner_of(fans, v, face) is Some ==> corner_of(fans, v, face).unwrap() < bound,
{
    if v < fans.len() {
        lemma_first_match(fans[v as int].faces, face, 0);
        assert(indices_below(fans[v as int].cantellated, bound));
    }
}

/// Bridges list corners that the records hold.
pub proof fn lemma_bridges_across_below(
    fans: Seq<FanView>,
    bound: int,
    v1: usize,
    v2: usize,
    f: usize,
    opposing: Seq<usize>,
    upto: int,
)
    requires
        fans_below(fans, bound),
    ensures
        faces_below(bridges_across(fans, v1, v2, f, opposing, upto), bound),
    decreases upto,
{
    if upto > 0 {
        lemma_bridges_across_below(fans, bound, v1, v2, f, opposing, upto - 1);
        let g = opposing[upto - 1];
        lemma_corner_below(fans, bound, v1, g);
        lemma_corner_below(fans, bound, v2, g);
        lemma_corner_below(fans, bound, v2, f);
        lemma_corner_below(fans, bound, v1, f);
    }
}

/// The bridges of one face list corners that the records hold.
pub proof fn lemma_bridges_of_face_below(
    faces: Seq<Seq<usize>>,
    fans: Seq<FanView>,
    bound: int,
    f: int,
    upto: int,
)
    requires
        fans_below(fans, bound),
    ensures
        faces_below(bridges_of_face(faces, fans, f, upto), bound),
    decreases upto,
{
    if upto > 0 {
        lemma_bridges_of_face_below(faces, fans, bound, f, upto - 1);
        let (v1, v2) = edge_at(faces[f], upto - 1);
        let opposing = faces_with_edge(faces, v2, v1, faces.len() as int);
        lemma_bridges_across_below(fans, bound, v1, v2, f as usize, opposing, opposing.len() as int);
        assert(bridges_of_edge(faces, fans, f, upto - 1) == bridges_across(
            fans,
            v1,
            v2,
            f as usize,
            opposing,
            opposing.len() as int,
        ));
    }
}

/// All bridges list corners that the records hold.
pub proof fn lemma_bridges_below(faces: Seq<Seq<usize>>, fans: Seq<FanView>, bound: int, upto: int)
    requires
        fans_below(fans, bound),
    ensures
        faces_below(bridges(faces, fans, upto), bound),
    decreases upto,
{
    if upto > 0 {
        lemma_bridges_below(faces, fans, bound, upto - 1);
        lemma_bridges_of_face_below(faces, fans, bound, upto - 1, faces[upto - 1].len() as int);
    }
}

/// A rebuilt face lists corners that the records hold.
pub proof fn lemma_shrunk_corners_below(
    fans: Seq<FanView>,
    bound: int,
    face: Seq<usize>,
    f: usize,
    upto: int,
)
    requires
        fans_below(fans, bound),
    ensures
        indices_below(shrunk_corners(fans, face, f, upto), bound),
    decreases upto,
{
    if upto > 0 {
        lemma_shrunk_corners_below(fans, bound, face, f, upto - 1);
        lemma_corner_below(fans, bound, face[upto - 1], f);
    }
}

/// The rebuilt faces list corners that the records hold.
pub proof fn lemma_shrunk_faces_below(
    faces: Seq<Seq<usize>>,
    fans: Seq<FanView>,
    bound: int,
    upto: int,
)
    requires
        fans_below(fans, bound),
    ensures
        faces_below(shrunk_faces(faces, fans, upto), bound),
    decreases upto,
{
    if upto > 0 {
        lemma_shrunk_faces_below(faces, fans, bound, upto - 1);
        lemma_shrunk_corners_below(
            fans,
            bound,
            faces[upto - 1],
            (upto - 1) as usize,
            faces[upto - 1].len() as int,
        );
    }
}

/// Every face of a cantellated mesh lists vertices of that mesh, as long as their number
/// fits the machine's index type.
pub proof fn faces_list_vertices(faces: Seq<Seq<usize>>, count: nat, near: Seq<Vec<Vec<bool>>>)
    requires
        output_vertices(faces, count, near).len() <= usize::MAX,
    ensures
        faces_below(
            output_faces(faces, count, near),
            output_vertices(faces, count, near).len() as int,
        ),
{
    let start = Progress {
        fans: incident_fans(faces, count),
        vertices: Seq::empty(),
        faces: Seq::empty(),
    };
    let end = expanded(faces, count, near);
    let bound = end.vertices.len() as int;
    assert(fans_below(start.fans, 0)) by {
        assert forall|v: int| 0 <= v < start.fans.len() implies indices_below(
            (#[trigger] start.fans[v]).cantellated,
            0,
        ) by {}
    }
    lemma_expansion_below(faces, start, near, count as int);
    lemma_bridges_below(faces, end.fans, bound, faces.len() as int);
    lemma_shrunk_faces_below(faces, end.fans, bound, faces.len() as int);
}

} // verus!
