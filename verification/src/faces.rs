//! The faces of the input mesh, rebuilt from the corners of their vertices.

use crate::fan::{corner_of, fan_views, find_corner, CantellatedVertex, FanView};
use crate::index_list::IndexList;
use crate::mesh::{Corner, Mesh};
use crate::parallel::par_map;
use vstd::prelude::*;

verus! {

/// The corners that the vertices at the first `upto` positions of the face `f` have in it,
/// in the order of the positions. A vertex without a corner in the face is passed over.
pub open spec fn shrunk_corners(fans: Seq<FanView>, face: Seq<usize>, f: usize, upto: int) -> Seq<
    usize,
>
    decreases upto,
{
    if upto <= 0 {
        Seq::empty()
    } else {
        let before = shrunk_corners(fans, face, f, upto - 1);
        match corner_of(fans, face[upto - 1], f) {
            Some(corner) => before.push(corner),
            None => before,
        }
    }
}

/// The face `f` rebuilt from the corners of its vertices.
pub open spec fn shrunk_face(faces: Seq<Seq<usize>>, fans: Seq<FanView>, f: int) -> Seq<usize> {
    shrunk_corners(fans, faces[f], f as usize, faces[f].len() as int)
}

/// The first `upto` faces rebuilt from the corners of their vertices, in their order. A face
/// that is left with fewer than three corners is dropped.
pub open spec fn shrunk_faces(faces: Seq<Seq<usize>>, fans: Seq<FanView>, upto: int) -> Seq<
    Seq<usize>,
>
    decreases upto,
{
    if upto <= 0 {
        Seq::empty()
    } else {
        let before = shrunk_faces(faces, fans, upto - 1);
        if shrunk_face(faces, fans, upto - 1).len() > 2 {
            before.push(shrunk_face(faces, fans, upto - 1))
        } else {
            before
        }
    }
}

/// The face `f` rebuilt from the corners of its vertices.
fn rebuild_face<P>(mesh: &Mesh<P>, cantellated_vertices: &Vec<CantellatedVertex>, f: usize) -> (rebuilt:
    IndexList)
    requires
        f < mesh.faces@.len(),
    ensures
        rebuilt@ == shrunk_face(mesh.topology(), fan_views(cantellated_vertices@), f as int),
{
    let ghost fans = fan_views(cantellated_vertices@);
    let face = mesh.faces[f].as_slice();
    assert(face@ == mesh.topology()[f as int]);
    let mut cantellated_face = IndexList::new();
    let mut p: usize = 0;
    while p < face.len()
        invariant
            p <= face@.len(),
            fans == fan_views(cantellated_vertices@),
            cantellated_face@ == shrunk_corners(fans, face@, f, p as int),
        decreases face@.len() - p,
    {
        match find_corner(cantellated_vertices, face[p], f) {
            Some(corner) => {
                cantellated_face.push(corner);
            },
            None => {},
        }
        p += 1;
    }
    cantellated_face
}

/// Appends to the result mesh, for every face of the mesh, the face rebuilt from the corners
/// of its vertices. The faces are rebuilt in parallel and appended in their order.
pub fn cantellate_faces<P: Sync>(
    mesh: &Mesh<P>,
    result_mesh: &mut Mesh<Corner>,
    cantellated_vertices: &Vec<CantellatedVertex>,
)
    ensures
        final(result_mesh).vertices@ == old(result_mesh).vertices@,
        final(result_mesh).topology() == old(result_mesh).topology() + shrunk_faces(
            mesh.topology(),
            fan_views(cantellated_vertices@),
            mesh.faces@.len() as int,
        ),
{
    let ghost faces = mesh.topology();
    let ghost fans = fan_views(cantellated_vertices@);
    let ghost kept = result_mesh.topology();
    let job = |f: usize| -> (rebuilt: IndexList)
        requires
            f < mesh.faces@.len(),
        ensures
            rebuilt@ == shrunk_face(mesh.topology(), fan_views(cantellated_vertices@), f as int),
        { rebuild_face(mesh, cantellated_vertices, f) };
    let rebuilt = par_map(mesh.faces.len(), job);
    let ghost all = rebuilt@;
    assert forall|f: int| 0 <= f < all.len() implies (#[trigger] all[f])@ == shrunk_face(
        faces,
        fans,
        f,
    ) by {
        assert(call_ensures(job, (f as usize,), all[f]));
    }
    for cantellated_face in it: rebuilt
        invariant
            it.seq() == all,
            kept == old(result_mesh).topology(),
            forall|f: int| 0 <= f < all.len() ==> (#[trigger] all[f])@ == shrunk_face(faces, fans, f),
            result_mesh.vertices@ == old(result_mesh).vertices@,
            result_mesh.topology() == kept + shrunk_faces(faces, fans, it.index() as int),
    {
        if cantellated_face.len() > 2 {
            let ghost prior = result_mesh.topology();
            let ghost added = cantellated_face@;
            result_mesh.faces.push(cantellated_face);
            assert(result_mesh.topology() =~= prior.push(added));
            assert(prior.push(added) =~= kept + shrunk_faces(faces, fans, it.index() + 1));
        }
    }
}

} // verus!
