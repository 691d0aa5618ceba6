use bevy_blender::mesh::{instance_to_mesh, FaceRecord, MeshRecord, NormalSource};
use bevy_blender::triangulate::triangulate;
use bevy_blender::BevyBlenderError;

fn record(faces: Vec<(i32, i32)>, loops: Vec<i32>, uv_loops: usize, verts: usize) -> MeshRecord {
    MeshRecord {
        kind: String::from("Mesh"),
        name: String::from("MECube"),
        faces: faces
            .into_iter()
            .map(|(loop_start, loop_count)| FaceRecord { loop_start, loop_count })
            .collect(),
        loop_vertices: loops,
        uv_loop_count: uv_loops,
        vertex_count: verts,
    }
}

#[test]
fn triangle_is_one_triangle() {
    assert_eq!(triangulate(&vec![4, 5, 6]), vec![(4, 5, 6)]);
}

#[test]
fn quad_is_a_two_triangle_fan() {
    assert_eq!(triangulate(&vec![0, 1, 2, 3]), vec![(0, 1, 2), (0, 2, 3)]);
}

#[test]
fn pentagon_ear_clipping() {
    assert_eq!(
        triangulate(&vec![1, 2, 3, 4, 5]),
        vec![(1, 2, 3), (3, 4, 5), (1, 3, 5)]
    );
}

#[test]
fn hexagon_cursor_wraps() {
    assert_eq!(
        triangulate(&vec![0, 1, 2, 3, 4, 5]),
        vec![(0, 1, 2), (2, 3, 4), (4, 5, 0), (0, 2, 4)]
    );
}

#[test]
fn triangle_count_is_length_minus_two() {
    for len in 3u32..40 {
        let face: Vec<u32> = (100..100 + len).collect();
        let tris = triangulate(&face);
        assert_eq!(tris.len() as u32, len - 2);
        for (a, b, c) in tris {
            assert!(a != b && b != c && a != c);
            assert!(face.contains(&a) && face.contains(&b) && face.contains(&c));
        }
    }
}

#[test]
fn quad_mesh_indices_are_duplicated_per_triangle() {
    let m = record(vec![(0, 4)], vec![0, 1, 2, 3], 4, 4);
    let t = instance_to_mesh(&m, (3, 1, 0)).unwrap();
    assert_eq!(t.indices, vec![2, 0, 1, 2, 0, 1, 3, 0, 2, 3, 0, 2]);
    assert_eq!(t.face_loops, vec![vec![0, 1, 2, 3]]);
    assert_eq!(t.corners, vec![(0, 1, 3)]);
}

#[test]
fn ngon_index_count_is_six_per_triangle() {
    let m = record(vec![(0, 7), (7, 3)], vec![0, 1, 2, 3, 4, 5, 6, 6, 7, 0], 0, 8);
    let t = instance_to_mesh(&m, (3, 0, 0)).unwrap();
    assert_eq!(t.indices.len(), 6 * (7 - 2) + 6);
    assert_eq!(t.indices.len() % 6, 0);
    assert!(t.indices.iter().all(|i| (*i as usize) < 8));
}

#[test]
fn loops_are_read_from_their_start() {
    let m = record(vec![(2, 3)], vec![9, 9, 4, 0, 2], 0, 10);
    let t = instance_to_mesh(&m, (2, 9, 3)).unwrap();
    assert_eq!(t.face_loops, vec![vec![4, 0, 2]]);
    assert_eq!(t.indices, vec![2, 4, 0, 2, 4, 0]);
}

#[test]
fn mesh_without_faces_is_empty() {
    let m = record(vec![], vec![], 0, 3);
    let t = instance_to_mesh(&m, (3, 0, 0)).unwrap();
    assert!(t.indices.is_empty());
    assert_eq!(t.uv_sources, vec![None, None, None]);
}

#[test]
fn uv_of_a_shared_vertex_comes_from_the_last_loop() {
    let m = record(vec![(0, 3), (3, 3)], vec![0, 1, 2, 2, 1, 3], 5, 5);
    let t = instance_to_mesh(&m, (3, 0, 0)).unwrap();
    assert_eq!(t.uv_sources, vec![Some(0), Some(4), Some(3), None, None]);
}

#[test]
fn normal_source_follows_the_major_version() {
    assert_eq!(NormalSource::for_version((2, 9, 3)), NormalSource::Embedded);
    assert_eq!(NormalSource::for_version((0, 0, 0)), NormalSource::Embedded);
    assert_eq!(NormalSource::for_version((3, 0, 0)), NormalSource::Computed);
    let m = record(vec![(0, 3)], vec![0, 1, 2], 0, 3);
    assert_eq!(instance_to_mesh(&m, (2, 8, 0)).unwrap().normal_source, NormalSource::Embedded);
    assert_eq!(instance_to_mesh(&m, (4, 1, 0)).unwrap().normal_source, NormalSource::Computed);
}

#[test]
fn other_kind_is_an_invalid_instance_type() {
    let mut m = record(vec![(0, 3)], vec![0, 1, 2], 0, 3);
    m.kind = String::from("Material");
    match instance_to_mesh(&m, (3, 0, 0)) {
        Err(BevyBlenderError::InvalidInstanceType { expected, found }) => {
            assert_eq!(expected, "Mesh");
            assert_eq!(found, "Material");
        }
        other => panic!("unexpected {:?}", other),
    }
}

fn malformed_field(m: &MeshRecord) -> String {
    match instance_to_mesh(m, (3, 0, 0)) {
        Err(BevyBlenderError::MalformedRecord { record, field }) => {
            assert_eq!(record, "MECube");
            field
        }
        other => panic!("unexpected {:?}", other),
    }
}

#[test]
fn face_past_the_loops_is_malformed() {
    assert_eq!(malformed_field(&record(vec![(1, 3)], vec![0, 1, 2], 0, 3)), "mpoly");
    assert_eq!(malformed_field(&record(vec![(0, 2)], vec![0, 1, 2], 0, 3)), "mpoly");
    assert_eq!(malformed_field(&record(vec![(-1, 3)], vec![0, 1, 2], 0, 3)), "mpoly");
}

#[test]
fn loop_outside_the_vertices_is_malformed() {
    assert_eq!(malformed_field(&record(vec![(0, 3)], vec![0, 1, 3], 0, 3)), "mloop");
    assert_eq!(malformed_field(&record(vec![(0, 3)], vec![0, -1, 2], 0, 3)), "mloop");
}

#[test]
fn uvs_past_the_loops_are_malformed() {
    assert_eq!(malformed_field(&record(vec![(0, 3)], vec![0, 1, 2], 4, 3)), "mloopuv");
}
