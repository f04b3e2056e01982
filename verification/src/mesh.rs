//! The mesh container: vertices of any payload and faces as lists of vertex indices.

use crate::index_list::IndexList;
use vstd::prelude::*;

verus! {

/// Where a vertex of a cantellated mesh comes from: the corner of the vertex `vertex` of the
/// input mesh that belongs to the face `face`, or, without a face, the vertex itself, which
/// no valid face contains.
///
/// The position of a corner is that of its vertex, moved along the normal of its face.
#[derive(Clone, Copy, Debug, PartialEq, Eq)]
pub struct Corner {
    pub vertex: usize,
    pub face: Option<usize>,
}

/// A polygon mesh: vertices of any payload `P`, and faces that list vertex indices in
/// winding order. Nothing is demanded of the indices: a face may name a vertex that does
/// not exist, or the same vertex twice.
#[derive(Clone, Debug)]
pub struct Mesh<P> {
    pub vertices: Vec<P>,
    pub faces: Vec<IndexList>,
}

/// The faces of a mesh as sequences of vertex indices.
pub open spec fn face_seqs(faces: Seq<IndexList>) -> Seq<Seq<usize>> {
    Seq::new(faces.len(), |f: int| faces[f]@)
}

impl<P> Mesh<P> {
    /// The faces as sequences of vertex indices.
    pub open spec fn topology(&self) -> Seq<Seq<usize>> {
        face_seqs(self.faces@)
    }

    /// A mesh without vertices or faces.
    pub fn new() -> (mesh: Self)
        ensures
            mesh.vertices@.len() == 0,
            mesh.faces@.len() == 0,
    {
        Mesh { vertices: Vec::new(), faces: Vec::new() }
    }
}

impl<P> Default for Mesh<P> {
    fn default() -> (mesh: Self)
        ensures
            mesh.vertices@.len() == 0,
            mesh.faces@.len() == 0,
    {
        Mesh::new()
    }
}

} // verus!
