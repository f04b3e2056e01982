use cantellation::cantellate::{cantellate_vertices, fill_vertices_fo_faces};
use cantellation::edges::{cantellate_edges, get_cantellated_edge_face};
use cantellation::faces::cantellate_faces;
use cantellation::fan::CantellatedVertex;
use cantellation::index_list::IndexList;
use cantellation::mesh::{Corner, Mesh};

fn mesh_of(vertex_count: usize, faces: &[&[usize]]) -> Mesh<()> {
    Mesh {
        vertices: vec![(); vertex_count],
        faces: faces.iter().map(|face| IndexList::from_slice(face)).collect(),
    }
}

fn record(index: usize, faces: &[usize], cantellated: &[usize]) -> CantellatedVertex {
    CantellatedVertex {
        index,
        faces: IndexList::from_slice(faces),
        cantellated: IndexList::from_slice(cantellated),
    }
}

fn faces_of(mesh: &Mesh<Corner>) -> Vec<Vec<usize>> {
    mesh.faces.iter().map(|face| face.to_vec()).collect()
}

fn expanded(mesh: &Mesh<()>, near: &Vec<Vec<Vec<bool>>>) -> (Vec<CantellatedVertex>, Mesh<Corner>) {
    let mut fans: Vec<CantellatedVertex> =
        (0..mesh.vertices.len()).map(CantellatedVertex::new).collect();
    fill_vertices_fo_faces(mesh, &mut fans);
    let mut result = Mesh::new();
    cantellate_vertices(mesh, &mut result, &mut fans, near);
    (fans, result)
}

#[test]
fn bridge_of_four_corners() {
    let fans = vec![record(0, &[0, 1], &[10, 11]), record(1, &[0, 1], &[20, 21])];
    let bridge = get_cantellated_edge_face(&fans, 0, 1, 0, 1);
    assert_eq!(bridge.map(|face| face.to_vec()), Some(vec![11, 21, 20, 10]));
    let bridge = get_cantellated_edge_face(&fans, 1, 0, 1, 0);
    assert_eq!(bridge.map(|face| face.to_vec()), Some(vec![20, 10, 11, 21]));
}

#[test]
fn bridge_of_three_corners_where_one_vertex_was_not_expanded() {
    let fans = vec![record(0, &[0, 1], &[10, 11]), record(1, &[0, 1], &[20, 20])];
    let bridge = get_cantellated_edge_face(&fans, 0, 1, 0, 1);
    assert_eq!(bridge.map(|face| face.to_vec()), Some(vec![11, 20, 10]));
    let fans = vec![record(0, &[0, 1], &[10, 10]), record(1, &[0, 1], &[20, 21])];
    let bridge = get_cantellated_edge_face(&fans, 0, 1, 0, 1);
    assert_eq!(bridge.map(|face| face.to_vec()), Some(vec![10, 21, 20]));
}

#[test]
fn no_bridge_where_neither_vertex_was_expanded() {
    let fans = vec![record(0, &[0, 1], &[10, 10]), record(1, &[0, 1], &[20, 20])];
    assert!(get_cantellated_edge_face(&fans, 0, 1, 0, 1).is_none());
}

#[test]
fn no_bridge_where_a_corner_is_missing() {
    let fans = vec![record(0, &[0, 1], &[10, 11]), record(1, &[0], &[20])];
    assert!(get_cantellated_edge_face(&fans, 0, 1, 0, 1).is_none());
    assert!(get_cantellated_edge_face(&fans, 0, 1, 0, 5).is_none());
    assert!(get_cantellated_edge_face(&fans, 0, 2, 0, 1).is_none());
    assert!(get_cantellated_edge_face(&fans, 2, 1, 0, 1).is_none());
    assert!(get_cantellated_edge_face(&Vec::new(), 0, 1, 0, 1).is_none());
}

#[test]
fn phases_of_two_triangles() {
    let mesh = mesh_of(4, &[&[0, 1, 2], &[2, 1, 3]]);
    let (fans, mut result) = expanded(&mesh, &Vec::new());
    assert_eq!(result.vertices.len(), 6);
    assert!(result.faces.is_empty());
    let cantellated: Vec<Vec<usize>> = fans.iter().map(|fan| fan.cantellated.to_vec()).collect();
    assert_eq!(cantellated, vec![vec![0], vec![1, 2], vec![3, 4], vec![5]]);

    cantellate_edges(&mesh, &mut result, &fans);
    assert_eq!(faces_of(&result), vec![vec![2, 4, 3, 1]]);
    assert_eq!(result.vertices.len(), 6);

    cantellate_faces(&mesh, &mut result, &fans);
    assert_eq!(faces_of(&result), vec![vec![2, 4, 3, 1], vec![0, 1, 3], vec![4, 2, 5]]);
    assert_eq!(result.vertices.len(), 6);
}

#[test]
fn edge_with_two_faces_on_its_other_side() {
    let mesh = mesh_of(5, &[&[0, 1, 2], &[1, 0, 3], &[1, 0, 4]]);
    let (fans, mut result) = expanded(&mesh, &Vec::new());
    cantellate_edges(&mesh, &mut result, &fans);
    assert_eq!(faces_of(&result), vec![vec![1, 4, 3, 0], vec![2, 5, 3, 0]]);
    cantellate_faces(&mesh, &mut result, &fans);
    assert_eq!(
        faces_of(&result),
        vec![vec![1, 4, 3, 0], vec![2, 5, 3, 0], vec![0, 3, 6], vec![4, 1, 7], vec![5, 2, 8]]
    );
}

#[test]
fn faces_with_the_same_direction_are_not_bridged() {
    let mesh = mesh_of(4, &[&[0, 1, 2], &[0, 1, 3]]);
    let (fans, mut result) = expanded(&mesh, &Vec::new());
    cantellate_edges(&mesh, &mut result, &fans);
    assert!(result.faces.is_empty());
}

#[test]
fn invalid_face_on_the_other_side_is_not_bridged() {
    let mesh = mesh_of(3, &[&[0, 1, 2], &[1, 0, 1]]);
    let (fans, mut result) = expanded(&mesh, &Vec::new());
    cantellate_edges(&mesh, &mut result, &fans);
    assert!(result.faces.is_empty());
    cantellate_faces(&mesh, &mut result, &fans);
    assert_eq!(faces_of(&result), vec![vec![0, 1, 2]]);
}

#[test]
fn merged_corners_turn_the_bridge_into_a_triangle() {
    let mesh = mesh_of(4, &[&[0, 1, 2], &[2, 1, 3]]);
    // The two corners of vertex 1 fall together.
    let near = vec![vec![], vec![vec![], vec![true]]];
    let (fans, mut result) = expanded(&mesh, &near);
    let cantellated: Vec<Vec<usize>> = fans.iter().map(|fan| fan.cantellated.to_vec()).collect();
    assert_eq!(cantellated, vec![vec![0], vec![1, 1], vec![2, 3], vec![4]]);
    cantellate_edges(&mesh, &mut result, &fans);
    assert_eq!(faces_of(&result), vec![vec![1, 3, 2]]);
}

#[test]
fn faces_are_rebuilt_from_the_records() {
    let mesh = mesh_of(4, &[&[0, 1, 2], &[2, 1, 3], &[3, 0]]);
    let fans = vec![
        record(0, &[0], &[7]),
        record(1, &[1, 0], &[8, 9]),
        record(2, &[0, 1], &[10, 11]),
    ];
    let mut result: Mesh<Corner> = Mesh::new();
    result.faces.push(IndexList::from_slice(&[1, 2, 3]));
    cantellate_faces(&mesh, &mut result, &fans);
    // Vertex 3 has no record, so the second face is left with two corners.
    assert_eq!(faces_of(&result), vec![vec![1, 2, 3], vec![7, 9, 10]]);
}

#[test]
fn quad_stays_a_quad() {
    let mesh = mesh_of(4, &[&[3, 2, 1, 0]]);
    let (fans, mut result) = expanded(&mesh, &Vec::new());
    cantellate_edges(&mesh, &mut result, &fans);
    cantellate_faces(&mesh, &mut result, &fans);
    assert_eq!(faces_of(&result), vec![vec![3, 2, 1, 0]]);
    assert_eq!(
        result.vertices,
        vec![
            Corner { vertex: 0, face: Some(0) },
            Corner { vertex: 1, face: Some(0) },
            Corner { vertex: 2, face: Some(0) },
            Corner { vertex: 3, face: Some(0) },
        ]
    );
}
