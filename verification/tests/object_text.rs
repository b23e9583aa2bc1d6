use webgpu::model::error::{ErrorKind, ParseError};
use webgpu::model::geometry::{Mesh, Scalar, Vector3};
use webgpu::model::object::{
    classify_line, parse_wavefront_object, try_parse_wavefront_object, LineKind, ObjectScanner,
};

fn value(scalar: &Scalar) -> f32 {
    std::str::from_utf8(&scalar.text).unwrap().parse::<f32>().unwrap()
}

fn triple(v: &Vector3) -> (f32, f32, f32) {
    (value(&v.x), value(&v.y), value(&v.z))
}

const TRIANGLE: &str = "v 0 0 0\nv 1 0 0\nv 0 1 0\nvt 0 0\nvt 1 0\nvt 0 1\nvn 0 0 1\nvn 0 0 1\nvn 0 0 1\nf 1/1/1 2/2/2 3/3/3\n";

const SQUARE: &str = "v 0 0 0\nv 1 0 0\nv 1 1 0\nv 0 1 0\nvt 0 0\nvt 1 0\nvt 1 1\nvt 0 1\nvn 0 0 1\n";

#[test]
fn single_triangle_yields_three_vertices_and_one_mesh() {
    let (model, vertices, indices) = parse_wavefront_object(TRIANGLE.to_string()).unwrap();
    assert_eq!(vertices.len(), 3);
    assert_eq!(triple(&vertices[0].position), (0.0, 0.0, 0.0));
    assert_eq!(triple(&vertices[1].position), (1.0, 0.0, 0.0));
    assert_eq!(triple(&vertices[2].position), (0.0, 1.0, 0.0));
    assert_eq!(indices, vec![0, 1, 2]);
    assert_eq!(model.meshes, vec![Mesh { offset: 0, len: 3 }]);
}

#[test]
fn single_triangle_resolves_texcoords_and_normals() {
    let (_, vertices, _) = parse_wavefront_object(TRIANGLE.to_string()).unwrap();
    assert_eq!((value(&vertices[1].uvs.x), value(&vertices[1].uvs.y)), (1.0, 0.0));
    assert_eq!((value(&vertices[2].uvs.x), value(&vertices[2].uvs.y)), (0.0, 1.0));
    assert_eq!(triple(&vertices[0].normals), (0.0, 0.0, 1.0));
}

#[test]
fn new_triangle_grows_table_and_stream_by_three() {
    let text = format!("{}f 1/1/1 2/2/1 3/3/1\nf 4/4/1 1/2/1 2/3/1\n", SQUARE);
    let (_, vertices, indices) = parse_wavefront_object(text).unwrap();
    assert_eq!(vertices.len(), 6);
    assert_eq!(indices, vec![0, 1, 2, 3, 4, 5]);
    assert_eq!(triple(&vertices[3].position), (0.0, 1.0, 0.0));
    assert_eq!((value(&vertices[4].uvs.x), value(&vertices[4].uvs.y)), (1.0, 0.0));
}

#[test]
fn new_quad_grows_table_by_four_and_stream_by_six() {
    let text = format!("{}f 1/1/1 2/2/1 3/3/1 4/4/1\n", SQUARE);
    let (model, vertices, indices) = parse_wavefront_object(text).unwrap();
    assert_eq!(vertices.len(), 4);
    assert_eq!(indices, vec![0, 1, 2, 0, 2, 3]);
    assert_eq!(triple(&vertices[3].position), (0.0, 1.0, 0.0));
    assert_eq!(model.meshes, vec![Mesh { offset: 0, len: 6 }]);
}

#[test]
fn quad_after_triangle_counts_from_the_table_length() {
    let text = format!("{}f 1/1/1 2/2/1 3/3/1\nf 1/2/1 2/3/1 3/4/1 4/1/1\n", SQUARE);
    let (_, vertices, indices) = parse_wavefront_object(text).unwrap();
    assert_eq!(vertices.len(), 7);
    assert_eq!(indices, vec![0, 1, 2, 3, 4, 5, 3, 5, 6]);
}

#[test]
fn repeated_token_reuses_its_table_position() {
    let text = format!("{}f 1/1/1 2/2/1 3/3/1\nf 1/1/1 3/3/1 4/4/1\n", SQUARE);
    let (_, vertices, indices) = parse_wavefront_object(text).unwrap();
    assert_eq!(vertices.len(), 4);
    assert_eq!(indices, vec![0, 1, 2, 0, 2, 3]);
}

#[test]
fn repeated_token_is_shared_across_objects() {
    let text = format!("o first\n{}f 1/1/1 2/2/1 3/3/1\no second\nf 3/3/1 2/2/1 1/1/1\n", SQUARE);
    let (model, vertices, indices) = parse_wavefront_object(text).unwrap();
    assert_eq!(vertices.len(), 3);
    assert_eq!(indices, vec![0, 1, 2, 2, 1, 0]);
    assert_eq!(model.meshes, vec![Mesh { offset: 0, len: 3 }, Mesh { offset: 3, len: 3 }]);
}

#[test]
fn same_position_under_another_token_is_a_new_vertex() {
    let text = format!("{}f 1/1/1 2/2/1 3/3/1\nf 1/2/1 2/2/1 3/3/1\n", SQUARE);
    let (_, vertices, indices) = parse_wavefront_object(text).unwrap();
    assert_eq!(vertices.len(), 4);
    assert_eq!(indices, vec![0, 1, 2, 3, 1, 2]);
    assert_eq!(triple(&vertices[3].position), (0.0, 0.0, 0.0));
}

#[test]
fn token_identity_is_textual() {
    // `01/1/1` names the same attributes as `1/1/1` but is another token
    let text = format!("{}f 1/1/1 2/2/1 3/3/1\nf 01/1/1 2/2/1 3/3/1\n", SQUARE);
    let (_, vertices, indices) = parse_wavefront_object(text).unwrap();
    assert_eq!(vertices.len(), 4);
    assert_eq!(indices, vec![0, 1, 2, 3, 1, 2]);
}

#[test]
fn second_mesh_starts_where_first_ends() {
    let text = format!(
        "o a\n{}f 1/1/1 2/2/1 3/3/1 4/4/1\no b\nf 1/2/1 2/3/1 3/4/1\n",
        SQUARE
    );
    let (model, _, indices) = parse_wavefront_object(text).unwrap();
    assert_eq!(indices.len(), 9);
    assert_eq!(model.meshes.len(), 2);
    assert_eq!(model.meshes[0], Mesh { offset: 0, len: 6 });
    assert_eq!(model.meshes[1], Mesh { offset: 6, len: 3 });
    assert_eq!(model.meshes[1].offset, model.meshes[0].offset + model.meshes[0].len);
}

#[test]
fn third_mesh_offset_sums_every_earlier_extent() {
    let text = format!(
        "o a\n{}f 1/1/1 2/2/1 3/3/1\no b\nf 1/1/1 2/2/1 3/3/1\no c\nf 1/1/1 2/2/1 3/3/1\n",
        SQUARE
    );
    let (model, _, indices) = parse_wavefront_object(text).unwrap();
    assert_eq!(indices.len(), 9);
    assert_eq!(
        model.meshes,
        vec![Mesh { offset: 0, len: 3 }, Mesh { offset: 3, len: 3 }, Mesh { offset: 9, len: 0 }]
    );
}

#[test]
fn fourth_mesh_length_wraps_around() {
    let face = "f 1/1/1 2/2/1 3/3/1\n";
    let text = format!("o a\n{SQUARE}{face}o b\n{face}o c\n{face}o d\n{face}");
    let (model, _, indices) = parse_wavefront_object(text).unwrap();
    assert_eq!(indices.len(), 12);
    assert_eq!(model.meshes.len(), 4);
    assert_eq!(model.meshes[3].offset, 18);
    assert_eq!(model.meshes[3].len, 12u32.wrapping_sub(18));
}

#[test]
fn object_line_before_any_face_closes_nothing() {
    let text = format!("o only\n{}f 1/1/1 2/2/1 3/3/1\n", SQUARE);
    let (model, _, _) = parse_wavefront_object(text).unwrap();
    assert_eq!(model.meshes, vec![Mesh { offset: 0, len: 3 }]);
}

#[test]
fn empty_text_yields_one_empty_mesh() {
    let (model, vertices, indices) = parse_wavefront_object(String::new()).unwrap();
    assert!(vertices.is_empty());
    assert!(indices.is_empty());
    assert_eq!(model.meshes, vec![Mesh { offset: 0, len: 0 }]);
}

#[test]
fn unknown_lines_are_skipped() {
    let text = format!("# a comment\nmtllib x.mtl\n{}usemtl m\ns off\nf 1/1/1 2/2/1 3/3/1\n\n", SQUARE);
    let (_, vertices, indices) = parse_wavefront_object(text).unwrap();
    assert_eq!(vertices.len(), 3);
    assert_eq!(indices, vec![0, 1, 2]);
}

#[test]
fn fields_may_be_separated_by_any_whitespace() {
    let text = "v  0   0 0\r\nv\u{20}1\t0 0\r\nv 0 1 0\r\nvt 0 0\r\nvn 0 0 1\r\nf  1/1/1\t2/1/1   3/1/1 \r\n";
    let (_, vertices, indices) = parse_wavefront_object(text.to_string()).unwrap();
    assert_eq!(vertices.len(), 3);
    assert_eq!(indices, vec![0, 1, 2]);
    assert_eq!(triple(&vertices[1].position), (1.0, 0.0, 0.0));
}

#[test]
fn numbers_keep_their_spelling() {
    let text = "v -1.5e1 +.25 3.\nvt 0 0\nvn 0 0 1\nf 1/1/1 1/1/1 1/1/1\n";
    let (_, vertices, indices) = parse_wavefront_object(text.to_string()).unwrap();
    assert_eq!(indices, vec![0, 0, 0]);
    assert_eq!(vertices[0].position.x.text, b"-1.5e1".to_vec());
    assert_eq!(triple(&vertices[0].position), (-15.0, 0.25, 3.0));
}

#[test]
fn non_numeric_field_is_a_malformed_number() {
    let r = parse_wavefront_object("v 0 0 0\nv 1 x 0\n".to_string());
    assert_eq!(r.unwrap_err(), ParseError { kind: ErrorKind::MalformedNumber, line: 1 });
}

#[test]
fn missing_field_is_a_malformed_number() {
    let r = parse_wavefront_object("vt 0\n".to_string());
    assert_eq!(r.unwrap_err(), ParseError { kind: ErrorKind::MalformedNumber, line: 0 });
    let r = parse_wavefront_object("vn 0 1\n".to_string());
    assert_eq!(r.unwrap_err(), ParseError { kind: ErrorKind::MalformedNumber, line: 0 });
}

#[test]
fn surplus_field_has_to_be_numeric_too() {
    let (_, _, indices) = parse_wavefront_object("v 0 0 0 1\n".to_string()).unwrap();
    assert!(indices.is_empty());
    let r = parse_wavefront_object("v 0 0 0 # origin\n".to_string());
    assert_eq!(r.unwrap_err(), ParseError { kind: ErrorKind::MalformedNumber, line: 0 });
}

#[test]
fn corner_without_three_components_is_malformed() {
    for corner in ["1/1", "1", "1//1", "/1/1", "1/1/"] {
        let text = format!("{}f 1/1/1 2/2/1 {}\n", SQUARE, corner);
        let r = parse_wavefront_object(text);
        assert_eq!(
            r.unwrap_err(),
            ParseError { kind: ErrorKind::MalformedFaceCorner, line: 9 },
            "{}",
            corner
        );
    }
}

#[test]
fn corner_component_that_is_no_integer_is_a_malformed_number() {
    for corner in ["a/1/1", "1/1.5/1", "1/1/-1", "1/1/1/x", "1/1/1/"] {
        let text = format!("{}f 1/1/1 2/2/1 {}\n", SQUARE, corner);
        let r = parse_wavefront_object(text);
        assert_eq!(
            r.unwrap_err(),
            ParseError { kind: ErrorKind::MalformedNumber, line: 9 },
            "{}",
            corner
        );
    }
}

#[test]
fn corner_with_surplus_integer_component_is_accepted() {
    let text = format!("{}f 1/1/1/7 2/2/1 3/3/1\n", SQUARE);
    let (_, vertices, indices) = parse_wavefront_object(text).unwrap();
    assert_eq!(vertices.len(), 3);
    assert_eq!(indices, vec![0, 1, 2]);
}

#[test]
fn undeclared_attribute_is_out_of_range() {
    for corner in ["5/1/1", "1/5/1", "1/1/2", "0/1/1", "1/0/1", "1/1/0"] {
        let text = format!("{}f 1/1/1 2/2/1 {}\n", SQUARE, corner);
        let r = parse_wavefront_object(text);
        assert_eq!(
            r.unwrap_err(),
            ParseError { kind: ErrorKind::IndexOutOfRange, line: 9 },
            "{}",
            corner
        );
    }
}

#[test]
fn huge_index_is_out_of_range() {
    let text = format!(
        "{}f 1/1/1 2/2/1 340282366920938463463374607431768211457/1/1\n",
        SQUARE
    );
    let r = parse_wavefront_object(text);
    assert_eq!(r.unwrap_err(), ParseError { kind: ErrorKind::IndexOutOfRange, line: 9 });
}

#[test]
fn attribute_declared_after_the_face_is_out_of_range() {
    let text = "v 0 0 0\nvt 0 0\nvn 0 0 1\nf 1/1/1 2/1/1 1/1/1\nv 1 0 0\n";
    let r = parse_wavefront_object(text.to_string());
    assert_eq!(r.unwrap_err(), ParseError { kind: ErrorKind::IndexOutOfRange, line: 3 });
}

#[test]
fn face_arity_other_than_three_or_four_is_unsupported() {
    for corners in ["", "1/1/1", "1/1/1 2/2/1", "1/1/1 2/2/1 3/3/1 4/4/1 1/2/1", "1/1/1 2/2/1 3/3/1 4/4/1 1/2/1 2/3/1"] {
        let text = format!("{}f {}\n", SQUARE, corners);
        let r = parse_wavefront_object(text);
        assert_eq!(
            r.unwrap_err(),
            ParseError { kind: ErrorKind::UnsupportedFaceArity, line: 9 },
            "{}",
            corners
        );
    }
}

#[test]
fn arity_is_checked_before_the_corners() {
    let text = format!("{}f 1/1/1 x 9/9/9 4/4/1 1/2/1\n", SQUARE);
    let r = parse_wavefront_object(text);
    assert_eq!(r.unwrap_err(), ParseError { kind: ErrorKind::UnsupportedFaceArity, line: 9 });
}

#[test]
fn corner_syntax_is_checked_before_any_index() {
    let text = format!("{}f 9/9/9 2/2/1 3/3\n", SQUARE);
    let r = parse_wavefront_object(text);
    assert_eq!(r.unwrap_err(), ParseError { kind: ErrorKind::MalformedFaceCorner, line: 9 });
}

#[test]
fn first_rejected_line_is_reported() {
    let r = parse_wavefront_object("v 0 0 0\n\nf 1\nv x\n".to_string());
    assert_eq!(r.unwrap_err(), ParseError { kind: ErrorKind::UnsupportedFaceArity, line: 2 });
}

#[test]
fn five_corner_face_leaves_the_scanner_untouched() {
    let mut scanner = ObjectScanner::new();
    for line in SQUARE.lines() {
        scanner.add_line(line.as_bytes()).unwrap();
    }
    scanner.add_line(b"f 1/1/1 2/2/1 3/3/1").unwrap();
    let r = scanner.add_line(b"f 1/2/1 2/3/1 3/4/1 4/1/1 4/4/1");
    assert_eq!(r, Err(ErrorKind::UnsupportedFaceArity));
    assert_eq!(scanner.verticies.len(), 3);
    assert_eq!(scanner.indices, vec![0, 1, 2]);
    assert!(scanner.meshes.is_empty());
}

#[test]
fn unresolvable_corner_leaves_the_scanner_untouched() {
    let mut scanner = ObjectScanner::new();
    for line in SQUARE.lines() {
        scanner.add_line(line.as_bytes()).unwrap();
    }
    scanner.add_line(b"f 1/1/1 2/2/1 3/3/1").unwrap();
    let r = scanner.add_line(b"f 1/2/1 2/3/1 3/4/1 9/9/9");
    assert_eq!(r, Err(ErrorKind::IndexOutOfRange));
    assert_eq!(scanner.verticies.len(), 3);
    assert_eq!(scanner.indices, vec![0, 1, 2]);
    // the table still lacks the corners of the rejected face
    scanner.add_line(b"f 1/2/1 2/3/1 3/4/1").unwrap();
    assert_eq!(scanner.verticies.len(), 6);
    assert_eq!(scanner.indices, vec![0, 1, 2, 3, 4, 5]);
}

#[test]
fn scanner_hands_out_what_the_parser_returns() {
    let text = format!("{}f 1/1/1 2/2/1 3/3/1 4/4/1\n", SQUARE);
    let mut scanner = ObjectScanner::new();
    for line in text.split('\n') {
        scanner.add_line(line.as_bytes()).unwrap();
    }
    scanner.close();
    let (model, vertices, indices) = scanner.finish();
    let (model2, vertices2, indices2) = parse_wavefront_object(text).unwrap();
    assert_eq!(model, model2);
    assert_eq!(vertices, vertices2);
    assert_eq!(indices, indices2);
}

#[test]
fn lines_are_classified_by_their_prefix() {
    assert_eq!(classify_line(b"o cube"), LineKind::Object);
    assert_eq!(classify_line(b"v 1 2 3"), LineKind::Position);
    assert_eq!(classify_line(b"vt 1 2"), LineKind::TexCoord);
    assert_eq!(classify_line(b"vn 1 2 3"), LineKind::Normal);
    assert_eq!(classify_line(b"f 1/1/1 2/2/2 3/3/3"), LineKind::Face);
    assert_eq!(classify_line(b"v"), LineKind::Other);
    assert_eq!(classify_line(b"v\t1 2 3"), LineKind::Other);
    assert_eq!(classify_line(b" v 1 2 3"), LineKind::Other);
    assert_eq!(classify_line(b"vp 1 2"), LineKind::Other);
    assert_eq!(classify_line(b"# v 1 2 3"), LineKind::Other);
    assert_eq!(classify_line(b""), LineKind::Other);
}

#[test]
fn text_of_ordinary_length_is_read() {
    let (model, vertices, indices) =
        try_parse_wavefront_object(TRIANGLE.to_string()).unwrap().unwrap();
    assert_eq!(vertices.len(), 3);
    assert_eq!(indices, vec![0, 1, 2]);
    assert_eq!(model.meshes, vec![Mesh { offset: 0, len: 3 }]);
    let rejected = try_parse_wavefront_object("f 1/1/1\n".to_string()).unwrap();
    assert_eq!(
        rejected.unwrap_err(),
        ParseError { kind: ErrorKind::UnsupportedFaceArity, line: 0 }
    );
}

#[test]
fn fresh_scanner_has_room_for_a_face() {
    let mut scanner = ObjectScanner::new();
    assert!(scanner.room_for_face());
    for line in TRIANGLE.lines() {
        assert!(scanner.room_for_face());
        scanner.add_line(line.as_bytes()).unwrap();
    }
    assert!(scanner.room_for_face());
}
