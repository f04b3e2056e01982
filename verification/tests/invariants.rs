use cantellation::cantellate::{cantellate, is_face_valid, sorted_fans};
use cantellation::index_list::IndexList;
use cantellation::mesh::{Corner, Mesh};

fn mesh_of(vertex_count: usize, faces: &[&[usize]]) -> Mesh<()> {
    Mesh {
        vertices: vec![(); vertex_count],
        faces: faces.iter().map(|face| IndexList::from_slice(face)).collect(),
    }
}

fn pyramid() -> Mesh<()> {
    mesh_of(5, &[&[0, 1, 2], &[0, 2, 3], &[0, 3, 4], &[0, 4, 1], &[4, 3, 2, 1]])
}

/// A strip of three triangles: every vertex is on the boundary.
fn strip() -> Mesh<()> {
    mesh_of(5, &[&[0, 1, 2], &[2, 1, 3], &[2, 3, 4]])
}

fn uniform_tables(mesh: &Mesh<()>, near: bool) -> Vec<Vec<Vec<bool>>> {
    sorted_fans(mesh)
        .iter()
        .map(|fan| vec![vec![near; fan.len()]; fan.len()])
        .collect()
}

/// The pairs of a vertex and a valid face that contains it.
fn incidences(mesh: &Mesh<()>) -> usize {
    mesh.faces
        .iter()
        .filter(|face| is_face_valid(face.as_slice()))
        .map(|face| face.as_slice().iter().filter(|&&v| v < mesh.vertices.len()).count())
        .sum()
}

fn assert_well_formed(result: &Mesh<Corner>) {
    for face in &result.faces {
        assert!(face.len() > 2);
        assert!(face.as_slice().iter().all(|&v| v < result.vertices.len()));
    }
}

#[test]
fn closed_mesh_with_all_corners_apart() {
    let mesh = pyramid();
    let result = cantellate(&mesh, &uniform_tables(&mesh, false));
    // One vertex for every pair of a vertex and a face.
    assert_eq!(incidences(&mesh), 16);
    assert_eq!(result.vertices.len(), 16);
    // A cap for every vertex with one corner per face, a quad for every edge, and the faces.
    let sizes: Vec<usize> = result.faces.iter().map(|face| face.len()).collect();
    assert_eq!(sizes, vec![4, 3, 3, 3, 3, 4, 4, 4, 4, 4, 4, 4, 4, 3, 3, 3, 3, 4]);
    assert_eq!(result.faces[0].to_vec(), vec![0, 1, 2, 3]);
    assert_well_formed(&result);
}

#[test]
fn closed_mesh_with_all_corners_together() {
    let mesh = pyramid();
    let result = cantellate(&mesh, &uniform_tables(&mesh, true));
    assert_eq!(result.vertices.len(), 5);
    let faces: Vec<Vec<usize>> = result.faces.iter().map(|face| face.to_vec()).collect();
    let given: Vec<Vec<usize>> = mesh.faces.iter().map(|face| face.to_vec()).collect();
    assert_eq!(faces, given);
    assert_well_formed(&result);
}

#[test]
fn vertex_count_is_incidences_less_merges_plus_isolated() {
    // A pyramid and two vertices that no face contains.
    let mut mesh = pyramid();
    mesh.vertices.push(());
    mesh.vertices.push(());
    // At the apex the second corner goes with the first, and the fourth with the first; at
    // vertex 1 all three corners go together.
    let near = vec![
        vec![vec![], vec![true], vec![false, false], vec![true, false, false]],
        vec![vec![], vec![true], vec![true, true]],
    ];
    let result = cantellate(&mesh, &near);
    assert_eq!(incidences(&mesh), 16);
    assert_eq!(result.vertices.len(), 16 - 4 + 2);
    assert_eq!(result.vertices[12], Corner { vertex: 5, face: None });
    assert_eq!(result.vertices[13], Corner { vertex: 6, face: None });
    assert_well_formed(&result);
}

#[test]
fn boundary_vertices_get_no_cap() {
    let mesh = strip();
    for near in [false, true] {
        let result = cantellate(&mesh, &uniform_tables(&mesh, near));
        // Two shared edges and three faces: no face is left over for a cap.
        let expected = if near { 3 } else { 5 };
        assert_eq!(result.faces.len(), expected);
        assert_well_formed(&result);
    }
}

#[test]
fn result_is_well_formed_whatever_falls_together() {
    let mesh = pyramid();
    let fans = sorted_fans(&mesh);
    // Every choice of one pair of corners that falls together, at every vertex.
    for (v, fan) in fans.iter().enumerate() {
        for i in 0..fan.len() {
            for j in 0..i {
                let mut near = uniform_tables(&mesh, false);
                near[v][i][j] = true;
                let result = cantellate(&mesh, &near);
                assert!(result.vertices.len() >= mesh.vertices.len());
                assert!(result.vertices.len() <= 16);
                assert_well_formed(&result);
            }
        }
    }
}

#[test]
fn same_input_gives_the_same_result() {
    let mesh = pyramid();
    let near = uniform_tables(&mesh, false);
    let one = cantellate(&mesh, &near);
    let two = cantellate(&mesh, &near);
    assert_eq!(one.vertices, two.vertices);
    let faces = |m: &Mesh<Corner>| m.faces.iter().map(|f| f.to_vec()).collect::<Vec<_>>();
    assert_eq!(faces(&one), faces(&two));
}

#[test]
fn many_faces_are_gathered_in_order() {
    // A long strip of triangles: the faces are worked on by several threads.
    let n = 2000;
    let mut faces: Vec<Vec<usize>> = Vec::new();
    for i in 0..n {
        if i % 2 == 0 {
            faces.push(vec![i, i + 1, i + 2]);
        } else {
            faces.push(vec![i + 1, i, i + 2]);
        }
    }
    let mesh = Mesh {
        vertices: vec![(); n + 2],
        faces: faces.iter().map(|face| IndexList::from_slice(face)).collect(),
    };
    let result = cantellate(&mesh, &Vec::new());
    assert_eq!(result.vertices.len(), 3 * n);
    // No caps; a bridge between every two neighbours, then the faces in their order.
    assert_eq!(result.faces.len(), (n - 1) + n);
    let corner_of = |vertex: usize, face: usize| {
        result.vertices.iter().position(|&c| c == Corner { vertex, face: Some(face) }).unwrap()
    };
    for (i, face) in faces.iter().enumerate().step_by(97) {
        let rebuilt: Vec<usize> = face.iter().map(|&v| corner_of(v, i)).collect();
        assert_eq!(result.faces[(n - 1) + i].to_vec(), rebuilt);
    }
    for i in (0..n - 1).step_by(97) {
        let bridge = result.faces[i].to_vec();
        assert_eq!(bridge.len(), 4);
        for &v in &bridge {
            let corner = result.vertices[v];
            assert!(corner.face == Some(i) || corner.face == Some(i + 1));
        }
    }
    assert_well_formed(&result);
}
