use cantellation::cantellate::{cantellate, near_tables};
use cantellation::index_list::IndexList;
use cantellation::mesh::{Corner, Mesh};

type Point = [f64; 3];

fn sub(a: Point, b: Point) -> Point {
    [a[0] - b[0], a[1] - b[1], a[2] - b[2]]
}

fn cross(a: Point, b: Point) -> Point {
    [a[1] * b[2] - a[2] * b[1], a[2] * b[0] - a[0] * b[2], a[0] * b[1] - a[1] * b[0]]
}

fn length(a: Point) -> f64 {
    (a[0] * a[0] + a[1] * a[1] + a[2] * a[2]).sqrt()
}

fn triangle_normal(mesh: &Mesh<Point>, face: &IndexList, epsilon: f64) -> Option<Point> {
    let p: Vec<Point> = face.as_slice().iter().map(|&v| mesh.vertices[v]).collect();
    let n = cross(sub(p[1], p[0]), sub(p[2], p[0]));
    let len = length(n);
    if len > epsilon {
        Some([n[0] / len, n[1] / len, n[2] / len])
    } else {
        None
    }
}

fn position(mesh: &Mesh<Point>, normals: &[Option<Point>], factor: f64, corner: Corner) -> Point {
    let p = mesh.vertices[corner.vertex];
    match corner.face.and_then(|face| normals[face]) {
        Some(n) => [p[0] + n[0] * factor, p[1] + n[1] * factor, p[2] + n[2] * factor],
        None => p,
    }
}

/// Cantellates a mesh of triangles by the distance `factor`.
fn cantellate_triangles(mesh: &Mesh<Point>, factor: f64, epsilon: f64) -> Mesh<Point> {
    let normals: Vec<Option<Point>> =
        mesh.faces.iter().map(|face| triangle_normal(mesh, face, epsilon)).collect();
    let near = near_tables(mesh, |vertex, face, other| {
        let a = position(mesh, &normals, factor, Corner { vertex, face: Some(face) });
        let b = position(mesh, &normals, factor, Corner { vertex, face: Some(other) });
        length(sub(a, b)) < epsilon
    });
    let result = cantellate(mesh, &near);
    Mesh {
        vertices: result.vertices.iter().map(|&c| position(mesh, &normals, factor, c)).collect(),
        faces: result.faces,
    }
}

fn mesh_of(vertices: &[Point], faces: &[&[usize]]) -> Mesh<Point> {
    Mesh {
        vertices: vertices.to_vec(),
        faces: faces.iter().map(|face| IndexList::from_slice(face)).collect(),
    }
}

fn faces_of(mesh: &Mesh<Point>) -> Vec<Vec<usize>> {
    mesh.faces.iter().map(|face| face.to_vec()).collect()
}

fn tetrahedron() -> Mesh<Point> {
    mesh_of(
        &[[0.0, 0.0, 0.0], [1.0, 0.0, 0.0], [0.0, 1.0, 0.0], [0.0, 0.0, 1.0]],
        &[&[0, 2, 1], &[0, 1, 3], &[1, 2, 3], &[0, 3, 2]],
    )
}

#[test]
fn single_triangle_moves_along_its_normal() {
    let mesh = mesh_of(&[[0.0, 0.0, 0.0], [1.0, 0.0, 0.0], [0.0, 1.0, 0.0]], &[&[0, 1, 2]]);
    let result = cantellate_triangles(&mesh, 1.0, 0.001);
    assert_eq!(result.vertices, vec![[0.0, 0.0, 1.0], [1.0, 0.0, 1.0], [0.0, 1.0, 1.0]]);
    assert_eq!(faces_of(&result), vec![vec![0, 1, 2]]);
}

#[test]
fn two_triangles_in_a_plane_have_no_gap_to_bridge() {
    // Both faces have the normal (0, 0, 1): the two corners of each shared vertex coincide.
    let mesh = mesh_of(
        &[[0.0, 0.0, 0.0], [1.0, 0.0, 0.0], [0.0, 1.0, 0.0], [1.0, 1.0, 0.0]],
        &[&[0, 1, 2], &[2, 1, 3]],
    );
    let result = cantellate_triangles(&mesh, 1.0, 0.001);
    assert_eq!(
        result.vertices,
        vec![[0.0, 0.0, 1.0], [1.0, 0.0, 1.0], [0.0, 1.0, 1.0], [1.0, 1.0, 1.0]]
    );
    assert_eq!(faces_of(&result), vec![vec![0, 1, 2], vec![2, 1, 3]]);
}

#[test]
fn two_triangles_at_an_angle_get_a_quad_between_them() {
    let mesh = mesh_of(
        &[[0.0, 0.0, 0.0], [1.0, 0.0, 0.0], [0.0, 1.0, 0.0], [1.0, 1.0, 1.0]],
        &[&[0, 1, 2], &[2, 1, 3]],
    );
    let result = cantellate_triangles(&mesh, 1.0, 0.001);
    assert_eq!(result.vertices.len(), 6);
    assert_eq!(faces_of(&result), vec![vec![2, 4, 3, 1], vec![0, 1, 3], vec![4, 2, 5]]);
    assert_eq!(result.vertices[0], [0.0, 0.0, 1.0]);
    assert_eq!(result.vertices[1], [1.0, 0.0, 1.0]);
    assert_eq!(result.vertices[3], [0.0, 1.0, 1.0]);
}

#[test]
fn tetrahedron_gets_caps_bridges_and_shrunk_faces() {
    let result = cantellate_triangles(&tetrahedron(), 0.25, 0.001);
    assert_eq!(result.vertices.len(), 12);
    let sizes: Vec<usize> = result.faces.iter().map(|face| face.len()).collect();
    assert_eq!(sizes, vec![3, 3, 3, 3, 4, 4, 4, 4, 4, 4, 3, 3, 3, 3]);
    for face in &result.faces {
        assert!(face.as_slice().iter().all(|&v| v < result.vertices.len()));
    }
}

#[test]
fn factor_zero_keeps_the_mesh() {
    let mesh = tetrahedron();
    let result = cantellate_triangles(&mesh, 0.0, 0.001);
    assert_eq!(result.vertices, mesh.vertices);
    assert_eq!(faces_of(&result), faces_of(&mesh));
    assert!(result.faces.iter().all(|face| face.len() > 2));
}

#[test]
fn degenerate_face_does_not_move_its_corners() {
    // The three vertices of the face are on one line: it has no normal.
    let mesh = mesh_of(&[[0.0, 0.0, 0.0], [1.0, 0.0, 0.0], [2.0, 0.0, 0.0]], &[&[0, 1, 2]]);
    let result = cantellate_triangles(&mesh, 1.0, 0.001);
    assert_eq!(result.vertices, mesh.vertices);
    assert_eq!(faces_of(&result), vec![vec![0, 1, 2]]);
}
