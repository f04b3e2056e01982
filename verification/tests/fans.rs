use cantellation::cantellate::{fill_vertices_fo_faces, sorted_fans};
use cantellation::fan::CantellatedVertex;
use cantellation::index_list::IndexList;
use cantellation::mesh::{Corner, Mesh};

fn mesh_of(vertex_count: usize, faces: &[&[usize]]) -> Mesh<()> {
    Mesh {
        vertices: vec![(); vertex_count],
        faces: faces.iter().map(|face| IndexList::from_slice(face)).collect(),
    }
}

fn record(index: usize, faces: &[usize], cantellated: &[usize]) -> CantellatedVertex {
    CantellatedVertex {
        index,
        faces: IndexList::from_slice(faces),
        cantellated: IndexList::from_slice(cantellated),
    }
}

fn result_with(vertex_count: usize) -> Mesh<Corner> {
    Mesh { vertices: vec![Corner { vertex: 99, face: None }; vertex_count], faces: Vec::new() }
}

fn corner(vertex: usize, face: usize) -> Corner {
    Corner { vertex, face: Some(face) }
}

fn tetrahedron() -> Mesh<()> {
    mesh_of(4, &[&[0, 1, 2], &[0, 3, 1], &[1, 3, 2], &[0, 2, 3]])
}

fn pyramid() -> Mesh<()> {
    mesh_of(5, &[&[0, 1, 2], &[0, 2, 3], &[0, 3, 4], &[0, 4, 1], &[4, 3, 2, 1]])
}

#[test]
fn new_record_has_no_faces() {
    let fan = CantellatedVertex::new(12);
    assert_eq!(fan.index, 12);
    assert_eq!(fan.faces.len(), 0);
    assert_eq!(fan.cantellated.len(), 0);
}

#[test]
fn fill_lists_valid_faces_in_ascending_order() {
    let mesh = mesh_of(4, &[&[0, 1, 2], &[0, 1], &[2, 1, 3], &[3, 3, 0], &[9, 0, 3]]);
    let mut fans: Vec<CantellatedVertex> = (0..4).map(CantellatedVertex::new).collect();
    fill_vertices_fo_faces(&mesh, &mut fans);
    let faces: Vec<Vec<usize>> = fans.iter().map(|fan| fan.faces.to_vec()).collect();
    assert_eq!(faces, vec![vec![0, 4], vec![0, 2], vec![0, 2], vec![2, 4]]);
    assert!(fans.iter().all(|fan| fan.cantellated.len() == 0));
    assert_eq!(fans.iter().map(|fan| fan.index).collect::<Vec<_>>(), vec![0, 1, 2, 3]);
}

#[test]
fn fill_appends_to_what_a_record_holds() {
    let mesh = mesh_of(2, &[&[1, 0, 5]]);
    let mut fans = vec![record(0, &[8], &[3]), record(1, &[], &[])];
    fill_vertices_fo_faces(&mesh, &mut fans);
    assert_eq!(fans[0].faces.to_vec(), vec![8, 0]);
    assert_eq!(fans[0].cantellated.to_vec(), vec![3]);
    assert_eq!(fans[1].faces.to_vec(), vec![0]);
}

#[test]
fn closed_fan_is_sorted_and_watertight() {
    let mesh = tetrahedron();
    let mut fan = record(0, &[0, 1, 3], &[]);
    assert!(fan.sort_faces(&mesh));
    assert_eq!(fan.faces.to_vec(), vec![0, 3, 1]);
    assert_eq!(fan.index, 0);
    assert_eq!(fan.cantellated.len(), 0);
}

#[test]
fn sorting_starts_from_the_first_face() {
    let mesh = tetrahedron();
    let mut fan = record(0, &[3, 0, 1], &[]);
    assert!(fan.sort_faces(&mesh));
    assert_eq!(fan.faces.to_vec(), vec![3, 1, 0]);
}

#[test]
fn fan_of_four_faces() {
    let mesh = pyramid();
    let mut fan = record(0, &[2, 0, 3, 1], &[]);
    assert!(fan.sort_faces(&mesh));
    assert_eq!(fan.faces.to_vec(), vec![2, 3, 0, 1]);
}

#[test]
fn single_face_is_not_watertight() {
    let mesh = tetrahedron();
    let mut fan = record(0, &[3], &[]);
    assert!(!fan.sort_faces(&mesh));
    assert_eq!(fan.faces.to_vec(), vec![3]);
    let mut fan = record(0, &[], &[]);
    assert!(!fan.sort_faces(&mesh));
}

#[test]
fn two_faces_on_the_boundary_are_not_watertight() {
    let mesh = mesh_of(4, &[&[0, 1, 2], &[2, 1, 3]]);
    let mut fan = record(1, &[0, 1], &[]);
    assert!(!fan.sort_faces(&mesh));
    assert_eq!(fan.faces.to_vec(), vec![0, 1]);
    let mut fan = record(2, &[0, 1], &[]);
    assert!(!fan.sort_faces(&mesh));
    assert_eq!(fan.faces.to_vec(), vec![0, 1]);
}

#[test]
fn two_faces_back_to_back_are_watertight() {
    let mesh = mesh_of(3, &[&[0, 1, 2], &[0, 2, 1]]);
    let mut fan = record(0, &[0, 1], &[]);
    assert!(fan.sort_faces(&mesh));
    assert_eq!(fan.faces.to_vec(), vec![0, 1]);
}

#[test]
fn open_fan_is_not_watertight_in_any_order() {
    // Three triangles around vertex 0 that leave a gap between the vertices 4 and 1.
    let mesh = mesh_of(5, &[&[0, 2, 3], &[0, 1, 2], &[0, 3, 4]]);
    let mut fan = record(0, &[0, 1, 2], &[]);
    assert!(!fan.sort_faces(&mesh));
    assert_eq!(fan.faces.to_vec(), vec![0, 2, 1]);
    let mut fan = record(0, &[1, 0, 2], &[]);
    assert!(!fan.sort_faces(&mesh));
    assert_eq!(fan.faces.to_vec(), vec![1, 0, 2]);
    let mut fan = record(0, &[2, 1, 0], &[]);
    assert!(!fan.sort_faces(&mesh));
    assert_eq!(fan.faces.to_vec(), vec![2, 1, 0]);
}

#[test]
fn broken_chain_keeps_the_faces_placed_so_far() {
    // The faces 0, 1 and 2 chain; nothing follows on face 2.
    let mesh = mesh_of(7, &[&[0, 1, 2], &[0, 5, 6], &[0, 3, 4], &[0, 2, 3]]);
    let mut fan = record(0, &[0, 1, 2, 3], &[]);
    assert!(!fan.sort_faces(&mesh));
    assert_eq!(fan.faces.to_vec(), vec![0, 3, 2, 1]);
}

#[test]
fn fan_with_a_face_that_lacks_the_vertex_stays_as_it_is() {
    let mesh = tetrahedron();
    let mut fan = record(0, &[3, 2, 0, 1], &[]);
    assert!(!fan.sort_faces(&mesh));
    assert_eq!(fan.faces.to_vec(), vec![3, 2, 0, 1]);
    let mut fan = record(0, &[3, 0, 17], &[]);
    assert!(!fan.sort_faces(&mesh));
    assert_eq!(fan.faces.to_vec(), vec![3, 0, 17]);
}

#[test]
fn sorted_fans_of_a_pyramid() {
    let fans: Vec<Vec<usize>> = sorted_fans(&pyramid()).iter().map(|f| f.to_vec()).collect();
    assert_eq!(
        fans,
        vec![vec![0, 1, 2, 3], vec![0, 3, 4], vec![0, 4, 1], vec![1, 4, 2], vec![2, 4, 3]]
    );
}

#[test]
fn corner_is_looked_up_by_face() {
    let fan = record(4, &[7, 3, 9, 3], &[20, 21, 22, 23]);
    assert_eq!(fan.get_cantellated_vertex_by_face(7), Some(20));
    assert_eq!(fan.get_cantellated_vertex_by_face(3), Some(21));
    assert_eq!(fan.get_cantellated_vertex_by_face(9), Some(22));
    assert_eq!(fan.get_cantellated_vertex_by_face(4), None);
}

#[test]
fn corner_is_missing_where_the_record_has_none_yet() {
    let fan = record(4, &[7, 3, 9], &[20]);
    assert_eq!(fan.get_cantellated_vertex_by_face(7), Some(20));
    assert_eq!(fan.get_cantellated_vertex_by_face(3), None);
    assert_eq!(fan.get_cantellated_vertex_by_face(9), None);
}

#[test]
fn vertex_without_faces_is_kept() {
    let mesh = tetrahedron();
    let mut fan = record(2, &[], &[]);
    let mut result = result_with(1);
    fan.cantellate(&vec![vec![], vec![true]], &mesh, &mut result);
    assert_eq!(result.vertices.len(), 2);
    assert_eq!(result.vertices[1], Corner { vertex: 2, face: None });
    assert!(result.faces.is_empty());
    assert_eq!(fan.cantellated.len(), 0);
}

#[test]
fn corners_that_are_apart_get_a_vertex_each_and_a_cap() {
    let mesh = tetrahedron();
    let mut fan = record(0, &[0, 1, 3], &[]);
    let mut result = result_with(2);
    fan.cantellate(&Vec::new(), &mesh, &mut result);
    assert_eq!(fan.faces.to_vec(), vec![0, 3, 1]);
    assert_eq!(fan.cantellated.to_vec(), vec![2, 3, 4]);
    assert_eq!(result.vertices[2..], [corner(0, 0), corner(0, 3), corner(0, 1)]);
    assert_eq!(result.faces.len(), 1);
    assert_eq!(result.faces[0].to_vec(), vec![2, 3, 4]);
}

#[test]
fn corner_near_the_one_before_shares_its_vertex() {
    let mesh = tetrahedron();
    let mut fan = record(0, &[0, 1, 3], &[]);
    let mut result = result_with(2);
    fan.cantellate(&vec![vec![], vec![true], vec![false, false]], &mesh, &mut result);
    assert_eq!(fan.cantellated.to_vec(), vec![2, 2, 3]);
    assert_eq!(result.vertices[2..], [corner(0, 0), corner(0, 1)]);
    assert!(result.faces.is_empty());
}

#[test]
fn corner_is_compared_with_the_one_that_made_the_vertex() {
    let mesh = tetrahedron();
    // The third corner is near the first, whose vertex the second one shares.
    let mut fan = record(0, &[0, 1, 3], &[]);
    let mut result = result_with(2);
    fan.cantellate(&vec![vec![], vec![true], vec![true, false]], &mesh, &mut result);
    assert_eq!(fan.cantellated.to_vec(), vec![2, 2, 2]);
    assert_eq!(result.vertices[2..], [corner(0, 0)]);
    // The third corner is near the second only, which has no vertex of its own.
    let mut fan = record(0, &[0, 1, 3], &[]);
    let mut result = result_with(2);
    fan.cantellate(&vec![vec![], vec![true], vec![false, true]], &mesh, &mut result);
    assert_eq!(fan.cantellated.to_vec(), vec![2, 2, 3]);
    assert_eq!(result.vertices[2..], [corner(0, 0), corner(0, 1)]);
}

#[test]
fn last_corner_near_the_first_shares_its_vertex() {
    let mesh = tetrahedron();
    let mut fan = record(0, &[0, 1, 3], &[]);
    let mut result = result_with(2);
    fan.cantellate(&vec![vec![], vec![false], vec![true, false]], &mesh, &mut result);
    assert_eq!(fan.cantellated.to_vec(), vec![2, 3, 2]);
    assert_eq!(result.vertices[2..], [corner(0, 0), corner(0, 3)]);
    assert!(result.faces.is_empty());
}

#[test]
fn only_the_last_corner_is_compared_with_the_first() {
    let mesh = pyramid();
    // The third of four corners is near the first: they stay apart.
    let mut fan = record(0, &[0, 1, 2, 3], &[]);
    let mut result = result_with(0);
    let table = vec![vec![], vec![false], vec![true, false], vec![false, false, false]];
    fan.cantellate(&table, &mesh, &mut result);
    assert_eq!(fan.cantellated.to_vec(), vec![0, 1, 2, 3]);
    assert_eq!(result.faces.len(), 1);
    assert_eq!(result.faces[0].to_vec(), vec![0, 1, 2, 3]);
    // The fourth corner is near the first: it shares its vertex, and the cap has three.
    let mut fan = record(0, &[0, 1, 2, 3], &[]);
    let mut result = result_with(0);
    let table = vec![vec![], vec![false], vec![false, false], vec![true, false, false]];
    fan.cantellate(&table, &mesh, &mut result);
    assert_eq!(fan.cantellated.to_vec(), vec![0, 1, 2, 0]);
    assert_eq!(result.vertices, vec![corner(0, 0), corner(0, 1), corner(0, 2)]);
    assert_eq!(result.faces.len(), 1);
    assert_eq!(result.faces[0].to_vec(), vec![0, 1, 2]);
}

#[test]
fn open_fan_gets_no_cap() {
    let mesh = mesh_of(5, &[&[0, 2, 3], &[0, 1, 2], &[0, 3, 4]]);
    let mut fan = record(0, &[0, 1, 2], &[]);
    let mut result = result_with(0);
    fan.cantellate(&Vec::new(), &mesh, &mut result);
    assert_eq!(fan.faces.to_vec(), vec![0, 2, 1]);
    assert_eq!(fan.cantellated.to_vec(), vec![0, 1, 2]);
    assert_eq!(result.vertices, vec![corner(0, 0), corner(0, 2), corner(0, 1)]);
    assert!(result.faces.is_empty());
}

#[test]
fn expansion_replaces_earlier_corners() {
    let mesh = tetrahedron();
    let mut fan = record(0, &[0, 1, 3], &[40, 41, 42, 43]);
    let mut result = result_with(0);
    fan.cantellate(&Vec::new(), &mesh, &mut result);
    assert_eq!(fan.cantellated.to_vec(), vec![0, 1, 2]);
}

#[test]
fn corners_are_placed_on_the_faces_as_they_stand() {
    let mut fan = record(0, &[0, 1, 3], &[9]);
    let mut result = result_with(1);
    fan.place_corners(true, &Vec::new(), &mut result);
    assert_eq!(fan.faces.to_vec(), vec![0, 1, 3]);
    assert_eq!(fan.cantellated.to_vec(), vec![1, 2, 3]);
    assert_eq!(result.vertices[1..], [corner(0, 0), corner(0, 1), corner(0, 3)]);
    assert_eq!(result.faces.len(), 1);
    assert_eq!(result.faces[0].to_vec(), vec![1, 2, 3]);

    let mut fan = record(0, &[0, 1, 3], &[]);
    let mut result = result_with(1);
    fan.place_corners(false, &Vec::new(), &mut result);
    assert_eq!(fan.cantellated.to_vec(), vec![1, 2, 3]);
    assert!(result.faces.is_empty());

    let mut fan = record(6, &[], &[4]);
    let mut result = result_with(1);
    fan.place_corners(true, &Vec::new(), &mut result);
    assert_eq!(fan.cantellated.len(), 0);
    assert_eq!(result.vertices[1..], [Corner { vertex: 6, face: None }]);
    assert!(result.faces.is_empty());
}
