use renderer::model::{parse_face_vertex, Face, LoadError, Model, Vertex};

const SC: i64 = 65536;

#[test]
fn single_triangle_loads() {
    let m = Model::parse_obj(b"v 0 0 0\nv 1 0 0\nv 0 1 0\nf 1 2 3\n").unwrap();
    assert_eq!(m.vertex_count(), 3);
    assert_eq!(m.face_count(), 1);
    let f = m.faces()[0];
    assert_eq!((f.i0, f.i1, f.i2), (0, 1, 2));
    assert_eq!((f.vt0, f.vt1, f.vt2), (None, None, None));
    assert_eq!(*m.vertex(0), Vertex::new(0, 0, 0));
    assert_eq!(*m.vertex(1), Vertex::new(SC, 0, 0));
    assert_eq!(*m.vertex(2), Vertex::new(0, SC, 0));
    assert!(m.is_valid());
}

#[test]
fn quad_is_triangulated() {
    let m = Model::parse_obj(b"v 0 0 0\nv 1 0 0\nv 1 1 0\nv 0 1 0\nf 1 2 3 4\n").unwrap();
    assert_eq!(m.vertex_count(), 4);
    assert_eq!(m.face_count(), 2);
    let f0 = m.faces()[0];
    let f1 = m.faces()[1];
    assert_eq!((f0.i0, f0.i1, f0.i2), (0, 1, 2));
    assert_eq!((f1.i0, f1.i1, f1.i2), (0, 2, 3));
}

#[test]
fn five_vertex_face_is_fatal() {
    let r = Model::parse_obj(b"v 0 0 0\nv 1 0 0\nv 0 1 0\nv 1 1 0\nv 2 2 0\nf 1 2 3 4 5\n");
    assert_eq!(r.err(), Some(LoadError::UnsupportedFaceCount));
}

#[test]
fn bare_f_line_is_fatal() {
    let r = Model::parse_obj(b"f\n");
    assert_eq!(r.err(), Some(LoadError::UnsupportedFaceCount));
}

#[test]
fn malformed_number_is_fatal() {
    assert_eq!(Model::parse_obj(b"v 1 x 0\n").err(), Some(LoadError::MalformedNumber));
    assert_eq!(Model::parse_obj(b"v 1 2\n").err(), Some(LoadError::MalformedNumber));
    assert_eq!(Model::parse_obj(b"f 0 1 2\n").err(), Some(LoadError::MalformedNumber));
}

#[test]
fn unknown_lines_are_ignored() {
    let m = Model::parse_obj(b"# comment\nvt 0.5 0.5\ng group\n\nv 1 2 3\n").unwrap();
    assert_eq!(m.vertex_count(), 1);
    assert_eq!(m.face_count(), 0);
    assert_eq!(*m.vertex(0), Vertex::new(SC, 2 * SC, 3 * SC));
}

#[test]
fn decimal_fields_parse_to_fixed_point() {
    let m = Model::parse_obj(b"v 0.5 -0.25 1\nv 1.1 -2 0.0\n").unwrap();
    assert_eq!(*m.vertex(0), Vertex::new(32768, -16384, SC));
    // 1.1 rounds to the nearest representable: 65536 + round(65536/10).
    assert_eq!(*m.vertex(1), Vertex::new(72090, -2 * SC, 0));
}

#[test]
fn carriage_returns_are_stripped() {
    let m = Model::parse_obj(b"v 1 0 0\r\nv 0 1 0\r\n").unwrap();
    assert_eq!(m.vertex_count(), 2);
    assert_eq!(*m.vertex(0), Vertex::new(SC, 0, 0));
}

#[test]
fn face_corner_tokens_carry_texture_flags() {
    assert_eq!(parse_face_vertex(b"3"), Ok((2, None)));
    assert_eq!(parse_face_vertex(b"3/5"), Ok((2, Some(4))));
    assert_eq!(parse_face_vertex(b"1/1"), Ok((0, Some(0))));
    assert_eq!(parse_face_vertex(b"0"), Err(LoadError::MalformedNumber));
    assert_eq!(parse_face_vertex(b"2/"), Err(LoadError::MalformedNumber));
    assert_eq!(parse_face_vertex(b""), Err(LoadError::MalformedNumber));
    // A third field is ignored, as the loader only reads two.
    assert_eq!(parse_face_vertex(b"4/2/9"), Ok((3, Some(1))));
}

#[test]
fn faces_keep_texture_indices() {
    let m = Model::parse_obj(b"v 0 0 0\nv 1 0 0\nv 0 1 0\nf 1/1 2/2 3/3\n").unwrap();
    let f = m.faces()[0];
    assert_eq!((f.vt0, f.vt1, f.vt2), (Some(0), Some(1), Some(2)));
}

#[test]
fn out_of_range_face_index_fails_validation() {
    let m = Model::parse_obj(b"v 0 0 0\nv 1 0 0\nv 0 1 0\nf 1 2 4\n").unwrap();
    assert!(!m.is_valid());
}

#[test]
fn model_from_parts() {
    let m = Model::new(
        vec![Vertex::new(0, 0, 0)],
        vec![Face::new(0, 0, 0, None, None, None)],
    );
    assert_eq!(m.vertex_count(), 1);
    assert_eq!(m.face_count(), 1);
    assert!(m.is_valid());
}
