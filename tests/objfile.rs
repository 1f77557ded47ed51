use pathtracer::objfile::{format_face, parse_face, record_kind, FaceRecord, RecordKind};

#[test]
fn record_kinds() {
    assert_eq!(record_kind(b"# a comment"), RecordKind::Comment);
    assert_eq!(record_kind(b"v 1.0 2.0 3.0"), RecordKind::Vertex);
    assert_eq!(record_kind(b"vn 0 0 1"), RecordKind::Normal);
    assert_eq!(record_kind(b"f 1//1 2//2 3//3"), RecordKind::Face);
    assert_eq!(record_kind(b"vt 0.5 0.5"), RecordKind::Other);
    assert_eq!(record_kind(b"s off"), RecordKind::Other);
    assert_eq!(record_kind(b""), RecordKind::Other);
    assert_eq!(record_kind(b"f"), RecordKind::Face);
}

#[test]
fn face_indices_become_zero_based() {
    let f = parse_face(b"f 1//4 2//5 3//6").unwrap();
    assert_eq!(f, FaceRecord { vertices: [0, 1, 2], normals: [3, 4, 5] });
}

#[test]
fn face_texture_index_is_ignored() {
    let f = parse_face(b"f 10/7/1 20/8/2 30/9/3").unwrap();
    assert_eq!(f, FaceRecord { vertices: [9, 19, 29], normals: [0, 1, 2] });
}

#[test]
fn face_extra_fields_are_ignored() {
    let f = parse_face(b"f 1//1 2//2 3//3 4//4").unwrap();
    assert_eq!(f, FaceRecord { vertices: [0, 1, 2], normals: [0, 1, 2] });
}

#[test]
fn malformed_faces_are_refused() {
    assert_eq!(parse_face(b"f 1//1 2//2"), None);
    assert_eq!(parse_face(b"f 0//1 2//2 3//3"), None);
    assert_eq!(parse_face(b"f 1 2 3"), None);
    assert_eq!(parse_face(b"f 1//x 2//2 3//3"), None);
    assert_eq!(parse_face(b"f  1//1 2//2 3//3"), None);
    assert_eq!(parse_face(b"f 4294967296//1 2//2 3//3"), None);
    assert_eq!(parse_face(b"v 1 2 3"), None);
    assert_eq!(parse_face(b""), None);
}

#[test]
fn largest_index_is_read() {
    let f = parse_face(b"f 4294967295//1 2//2 3//3").unwrap();
    assert_eq!(f.vertices[0], 4294967294);
}

#[test]
fn face_is_written_one_based() {
    let f = FaceRecord { vertices: [0, 1, 2], normals: [3, 4, 5] };
    assert_eq!(format_face(&f), b"f 1//4 2//5 3//6".to_vec());
}

#[test]
fn written_face_reads_back() {
    let f = FaceRecord { vertices: [0, 99, 12345], normals: [7, 0, 4294967294] };
    let line = format_face(&f);
    assert_eq!(parse_face(&line), Some(f));
}
