use webgpu::model::error::ErrorKind;
use webgpu::model::face::{parse_face, Face, FaceIndices};
use webgpu::model::geometry::{Mesh, Scalar, Vector2, Vector3, VertexRaw};
use webgpu::model::mesh::{calc_mesh_offset, close_mesh};
use webgpu::model::weld::{
    add_face, add_verticies_and_indices, find_index_of_face, find_previous_index,
};

fn scalar(text: &str) -> Scalar {
    Scalar::parse(text.as_bytes()).unwrap()
}

fn vec3(x: &str, y: &str, z: &str) -> Vector3 {
    Vector3 { x: scalar(x), y: scalar(y), z: scalar(z) }
}

fn vec2(x: &str, y: &str) -> Vector2 {
    Vector2 { x: scalar(x), y: scalar(y) }
}

fn corner(text: &str) -> FaceIndices {
    FaceIndices::parse(text.as_bytes()).unwrap()
}

fn attributes() -> (Vec<Vector3>, Vec<Vector3>, Vec<Vector2>) {
    (
        vec![vec3("0", "0", "0"), vec3("1", "0", "0"), vec3("1", "1", "0"), vec3("0", "1", "0")],
        vec![vec3("0", "0", "1"), vec3("0", "0", "-1")],
        vec![vec2("0", "0"), vec2("1", "0"), vec2("1", "1")],
    )
}

#[test]
fn corner_indices_count_from_zero() {
    let c = corner("4/2/1");
    assert_eq!(c.id, b"4/2/1".to_vec());
    assert_eq!((c.position, c.uv, c.normal), (3, 1, 0));
    let c = corner("+10/020/3/9");
    assert_eq!(c.id, b"+10/020/3/9".to_vec());
    assert_eq!((c.position, c.uv, c.normal), (9, 19, 2));
    assert_eq!(c.clone(), c);
}

#[test]
fn corner_index_beyond_the_machine_word_is_capped() {
    let c = corner("340282366920938463463374607431768211455/1/1");
    assert_eq!((c.position, c.uv, c.normal), (usize::MAX, 0, 0));
    let c = corner("1/99999999999999999999999999999999999999999999/1");
    assert_eq!((c.position, c.uv, c.normal), (0, usize::MAX, 0));
}

#[test]
fn corner_errors_come_in_a_fixed_order() {
    let parse = |text: &str| FaceIndices::parse(text.as_bytes()).unwrap_err();
    assert_eq!(parse(""), ErrorKind::MalformedFaceCorner);
    assert_eq!(parse("1/2"), ErrorKind::MalformedFaceCorner);
    assert_eq!(parse("x//0"), ErrorKind::MalformedFaceCorner);
    assert_eq!(parse("x/1/0"), ErrorKind::MalformedNumber);
    assert_eq!(parse("0/1/1/x"), ErrorKind::MalformedNumber);
    assert_eq!(parse("0/1/1"), ErrorKind::IndexOutOfRange);
    assert_eq!(parse("1/1/0/0"), ErrorKind::IndexOutOfRange);
}

#[test]
fn corner_resolves_against_the_attributes() {
    let (positions, normals, uvs) = attributes();
    let vertex = corner("3/2/2").to_vertex_raw(&positions, &normals, &uvs).unwrap();
    assert_eq!(
        vertex,
        VertexRaw { position: vec3("1", "1", "0"), uvs: vec2("1", "0"), normals: vec3("0", "0", "-1") }
    );
    for text in ["5/1/1", "1/4/1", "1/1/3"] {
        assert_eq!(
            corner(text).to_vertex_raw(&positions, &normals, &uvs),
            Err(ErrorKind::IndexOutOfRange),
            "{}",
            text
        );
    }
}

#[test]
fn face_is_a_triangle_or_a_quad() {
    assert_eq!(
        parse_face(b"1/1/1 2/2/2 3/3/3"),
        Ok(Face::Triangle(corner("1/1/1"), corner("2/2/2"), corner("3/3/3")))
    );
    assert_eq!(
        parse_face(b" 1/1/1  2/2/2\t3/3/3 4/4/4 "),
        Ok(Face::Quad(corner("1/1/1"), corner("2/2/2"), corner("3/3/3"), corner("4/4/4")))
    );
}

#[test]
fn face_errors_come_in_a_fixed_order() {
    assert_eq!(parse_face(b""), Err(ErrorKind::UnsupportedFaceArity));
    assert_eq!(parse_face(b"1/1/1 2/2/2"), Err(ErrorKind::UnsupportedFaceArity));
    assert_eq!(parse_face(b"a b c d e"), Err(ErrorKind::UnsupportedFaceArity));
    assert_eq!(parse_face(b"0/1/1 1/1 x/1/1"), Err(ErrorKind::IndexOutOfRange));
    assert_eq!(parse_face(b"1/1/1 1/1 x/1/1"), Err(ErrorKind::MalformedFaceCorner));
    assert_eq!(parse_face(b"1/1/1 1/1/1 x/1/1 1/1"), Err(ErrorKind::MalformedNumber));
}

#[test]
fn table_lookup_finds_the_token() {
    let (positions, normals, uvs) = attributes();
    let mut table = Vec::new();
    let mut indices = Vec::new();
    assert_eq!(find_index_of_face(&table, b"1/1/1"), None);
    for text in ["1/1/1", "2/2/1", "3/3/1"] {
        add_verticies_and_indices(&corner(text), &mut table, &mut indices, &positions, &normals, &uvs)
            .unwrap();
    }
    assert_eq!(find_index_of_face(&table, b"1/1/1"), Some(0));
    assert_eq!(find_index_of_face(&table, b"3/3/1"), Some(2));
    assert_eq!(find_index_of_face(&table, b"3/3/2"), None);
    assert_eq!(find_index_of_face(&table, b""), None);
}

#[test]
fn welding_enters_new_tokens_and_reuses_known_ones() {
    let (positions, normals, uvs) = attributes();
    let mut table = Vec::new();
    let mut indices = Vec::new();
    for text in ["1/1/1", "2/2/1", "1/1/1", "3/3/2", "2/2/1"] {
        add_verticies_and_indices(&corner(text), &mut table, &mut indices, &positions, &normals, &uvs)
            .unwrap();
    }
    assert_eq!(indices, vec![0, 1, 0, 2, 1]);
    assert_eq!(table.len(), 3);
    assert_eq!(table[2].0, b"3/3/2".to_vec());
    assert_eq!(table[2].1.position, vec3("1", "1", "0"));
    assert_eq!(table[2].1.normals, vec3("0", "0", "-1"));
    assert_eq!(find_previous_index(&indices), 2);
}

#[test]
fn welding_an_unresolvable_corner_changes_nothing() {
    let (positions, normals, uvs) = attributes();
    let mut table = Vec::new();
    let mut indices = Vec::new();
    add_verticies_and_indices(&corner("1/1/1"), &mut table, &mut indices, &positions, &normals, &uvs)
        .unwrap();
    let r = add_verticies_and_indices(
        &corner("9/1/1"),
        &mut table,
        &mut indices,
        &positions,
        &normals,
        &uvs,
    );
    assert_eq!(r, Err(ErrorKind::IndexOutOfRange));
    assert_eq!(table.len(), 1);
    assert_eq!(indices, vec![0]);
}

#[test]
fn quad_is_welded_as_a_fan_of_two_triangles() {
    let (positions, normals, uvs) = attributes();
    let mut table = Vec::new();
    let mut indices = Vec::new();
    let quad = parse_face(b"1/1/1 2/2/1 3/3/1 4/1/1").unwrap();
    add_face(&quad, &mut table, &mut indices, &positions, &normals, &uvs).unwrap();
    assert_eq!(indices, vec![0, 1, 2, 0, 2, 3]);
    let tokens: Vec<Vec<u8>> = table.iter().map(|(token, _)| token.clone()).collect();
    assert_eq!(
        tokens,
        vec![b"1/1/1".to_vec(), b"2/2/1".to_vec(), b"3/3/1".to_vec(), b"4/1/1".to_vec()]
    );
}

#[test]
fn quad_with_a_repeated_corner_enters_it_once() {
    let (positions, normals, uvs) = attributes();
    let mut table = Vec::new();
    let mut indices = Vec::new();
    let quad = parse_face(b"1/1/1 2/2/1 1/1/1 4/1/1").unwrap();
    add_face(&quad, &mut table, &mut indices, &positions, &normals, &uvs).unwrap();
    assert_eq!(indices, vec![0, 1, 0, 0, 0, 2]);
    assert_eq!(table.len(), 3);
}

#[test]
fn face_with_an_unresolvable_corner_is_undone() {
    let (positions, normals, uvs) = attributes();
    let mut table = Vec::new();
    let mut indices = Vec::new();
    let triangle = parse_face(b"1/1/1 2/2/1 3/3/1").unwrap();
    add_face(&triangle, &mut table, &mut indices, &positions, &normals, &uvs).unwrap();
    let quad = parse_face(b"4/1/1 2/2/1 4/2/2 4/4/1").unwrap();
    let r = add_face(&quad, &mut table, &mut indices, &positions, &normals, &uvs);
    assert_eq!(r, Err(ErrorKind::IndexOutOfRange));
    assert_eq!(table.len(), 3);
    assert_eq!(indices, vec![0, 1, 2]);
    assert_eq!(find_index_of_face(&table, b"4/1/1"), None);
}

#[test]
fn largest_index_of_an_empty_stream_is_zero() {
    assert_eq!(find_previous_index(&Vec::new()), 0);
    assert_eq!(find_previous_index(&vec![0]), 0);
    assert_eq!(find_previous_index(&vec![3, 7, 5, 7, 0]), 7);
}

#[test]
fn mesh_offset_sums_offsets_and_lengths() {
    assert_eq!(calc_mesh_offset(&Vec::new()), 0);
    assert_eq!(calc_mesh_offset(&vec![Mesh { offset: 0, len: 6 }]), 6);
    assert_eq!(calc_mesh_offset(&vec![Mesh { offset: 0, len: 6 }, Mesh { offset: 6, len: 3 }]), 15);
    assert_eq!(
        calc_mesh_offset(&vec![Mesh { offset: u32::MAX, len: 2 }, Mesh { offset: 1, len: 1 }]),
        3
    );
}

#[test]
fn closing_appends_the_mesh_up_to_the_given_count() {
    let mut meshes = Vec::new();
    close_mesh(&mut meshes, 6);
    close_mesh(&mut meshes, 9);
    close_mesh(&mut meshes, 30);
    close_mesh(&mut meshes, 30);
    assert_eq!(
        meshes,
        vec![
            Mesh { offset: 0, len: 6 },
            Mesh { offset: 6, len: 3 },
            Mesh { offset: 15, len: 15 },
            Mesh { offset: 45, len: 30u32.wrapping_sub(45) },
        ]
    );
}
