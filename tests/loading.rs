use mesh_loader::{parse_mesh, Mesh, ParseError, ParseErrorKind, Point};

fn pt(x: &str, y: &str, z: &str) -> Point {
    Point {
        x: x.as_bytes().to_vec(),
        y: y.as_bytes().to_vec(),
        z: z.as_bytes().to_vec(),
    }
}

fn load(text: &str) -> Result<Mesh, ParseError> {
    parse_mesh(text.as_bytes())
}

fn err(line: usize, field: usize, kind: ParseErrorKind) -> ParseError {
    ParseError { line, field, kind }
}

fn five_points() -> String {
    let mut s = String::new();
    for k in 1..=5 {
        s.push_str(&format!("v {} 0 0\n", k));
    }
    for k in 1..=5 {
        s.push_str(&format!("vn 0 {} 0\n", k));
    }
    s
}

#[test]
fn round_trip_single_triangle() {
    let m = load("v 0 0 0\nv 1 0 0\nv 0 1 0\nvn 0 0 1\nf 1//1 2//1 3//1\n").unwrap();
    assert_eq!(m.positions, vec![pt("0", "0", "0"), pt("1", "0", "0"), pt("0", "1", "0")]);
    assert_eq!(m.normals, vec![pt("0", "0", "1"), pt("0", "0", "1"), pt("0", "0", "1")]);
    assert_eq!(m.indices, vec![0, 1, 2]);
    assert_eq!(m.triangle_count(), 1);
}

#[test]
fn triangle_keeps_corner_order() {
    let m = load("v 0 0 0\nv 1 0 0\nv 0 1 0\nvn 0 0 1\nvn 0 1 0\nvn 1 0 0\nf 3//2 1//3 2//1").unwrap();
    assert_eq!(m.positions, vec![pt("0", "1", "0"), pt("0", "0", "0"), pt("1", "0", "0")]);
    assert_eq!(m.normals, vec![pt("0", "1", "0"), pt("1", "0", "0"), pt("0", "0", "1")]);
    assert_eq!(m.indices, vec![0, 1, 2]);
}

#[test]
fn pentagon_fans_from_first_corner() {
    let text = five_points() + "f 1 2 3 4 5\n";
    let m = load(&text).unwrap();
    let v = |k: u32| pt(&k.to_string(), "0", "0");
    let n = |k: u32| pt("0", &k.to_string(), "0");
    assert_eq!(m.positions, vec![v(1), v(2), v(3), v(1), v(3), v(4), v(1), v(4), v(5)]);
    assert_eq!(m.normals, vec![n(1), n(2), n(3), n(1), n(3), n(4), n(1), n(4), n(5)]);
    assert_eq!(m.indices, (0..9).collect::<Vec<u32>>());
    assert_eq!(m.triangle_count(), 3);
}

#[test]
fn quad_yields_two_triangles() {
    let text = five_points() + "f 2/9/1 3/9/2 4/9/3 5/9/4\n";
    let m = load(&text).unwrap();
    let v = |k: u32| pt(&k.to_string(), "0", "0");
    let n = |k: u32| pt("0", &k.to_string(), "0");
    assert_eq!(m.positions, vec![v(2), v(3), v(4), v(2), v(4), v(5)]);
    assert_eq!(m.normals, vec![n(1), n(2), n(3), n(1), n(3), n(4)]);
}

#[test]
fn faces_are_expanded_not_shared() {
    let text = five_points() + "f 1 2 3\nf 1 2 3\n";
    let m = load(&text).unwrap();
    assert_eq!(m.positions.len(), 6);
    assert_eq!(m.positions[0..3], m.positions[3..6]);
    assert_eq!(m.indices, vec![0, 1, 2, 3, 4, 5]);
}

#[test]
fn buffers_are_aligned_with_identity_indices() {
    let text = five_points() + "f 1 2 3 4\n# note\nf 5//5 4//4 3//3 2//2 1//1\n";
    let m = load(&text).unwrap();
    assert_eq!(m.positions.len(), 15);
    assert_eq!(m.normals.len(), m.positions.len());
    assert_eq!(m.indices.len(), m.positions.len());
    for (i, k) in m.indices.iter().enumerate() {
        assert_eq!(*k as usize, i);
    }
}

#[test]
fn empty_text_gives_empty_mesh() {
    let m = load("").unwrap();
    assert!(m.positions.is_empty());
    assert!(m.normals.is_empty());
    assert!(m.indices.is_empty());
    assert_eq!(m.triangle_count(), 0);
}

#[test]
fn records_without_faces_give_empty_mesh() {
    let m = load("v 1 2 3\nvn 0 0 1\n").unwrap();
    assert!(m.positions.is_empty());
    assert!(m.indices.is_empty());
}

#[test]
fn face_with_two_corners_fails() {
    let text = five_points() + "f 1 2\n";
    assert_eq!(load(&text), Err(err(11, 3, ParseErrorKind::TooFewCorners)));
}

#[test]
fn face_with_no_corners_fails() {
    assert_eq!(load("f"), Err(err(1, 1, ParseErrorKind::TooFewCorners)));
}

#[test]
fn face_before_its_vertices_fails() {
    let text = "vn 0 0 1\nf 1//1 2//1 3//1\nv 0 0 0\nv 1 0 0\nv 0 1 0\n";
    assert_eq!(load(text), Err(err(2, 1, ParseErrorKind::IndexOutOfRange)));
}

#[test]
fn normal_never_defined_fails() {
    let text = "v 0 0 0\nv 1 0 0\nv 0 1 0\nvn 0 0 1\nf 1//1 2//1 3//2\n";
    assert_eq!(load(text), Err(err(5, 3, ParseErrorKind::IndexOutOfRange)));
}

#[test]
fn index_zero_fails() {
    let text = "v 0 0 0\nv 1 0 0\nv 0 1 0\nvn 0 0 1\nf 0//1 2//1 3//1\n";
    assert_eq!(load(text), Err(err(5, 1, ParseErrorKind::IndexOutOfRange)));
}

#[test]
fn huge_index_fails() {
    let text = "v 0 0 0\nv 1 0 0\nv 0 1 0\nvn 0 0 1\nf 1//1 99999999999999999999999//1 3//1\n";
    assert_eq!(load(text), Err(err(5, 2, ParseErrorKind::IndexOutOfRange)));
}

#[test]
fn malformed_index_fails() {
    let base = "v 0 0 0\nv 1 0 0\nv 0 1 0\nvn 0 0 1\n";
    assert_eq!(load(&format!("{}f 1//1 x//1 3//1\n", base)), Err(err(5, 2, ParseErrorKind::BadNumber)));
    assert_eq!(load(&format!("{}f 1//1 2//1 -3//1\n", base)), Err(err(5, 3, ParseErrorKind::BadNumber)));
    assert_eq!(load(&format!("{}f 1// 2//1 3//1\n", base)), Err(err(5, 1, ParseErrorKind::BadNumber)));
}

#[test]
fn plus_signed_index_is_accepted() {
    let m = load("v 0 0 0\nv 1 0 0\nv 0 1 0\nvn 0 0 1\nf +1//1 2//+1 3//1\n").unwrap();
    assert_eq!(m.positions[0], pt("0", "0", "0"));
}

#[test]
fn malformed_coordinate_fails() {
    assert_eq!(load("v 0 0 0\nv 1 zero 0\n"), Err(err(2, 2, ParseErrorKind::BadNumber)));
    assert_eq!(load("vn 0 0 1.2.3\n"), Err(err(1, 3, ParseErrorKind::BadNumber)));
    assert_eq!(load("v . 0 0\n"), Err(err(1, 1, ParseErrorKind::BadNumber)));
    assert_eq!(load("v 1e 0 0\n"), Err(err(1, 1, ParseErrorKind::BadNumber)));
    assert_eq!(load("v e5 0 0\n"), Err(err(1, 1, ParseErrorKind::BadNumber)));
}

#[test]
fn missing_coordinate_fails() {
    assert_eq!(load("v 0 0\n"), Err(err(1, 3, ParseErrorKind::MissingField)));
    assert_eq!(load("\n\nvn\n"), Err(err(3, 1, ParseErrorKind::MissingField)));
}

#[test]
fn coordinate_forms_of_rust_floats_are_accepted() {
    let text = "v 1e5 -.5 +2.\nv inf -Infinity NaN\nv 1E-3 0.25e+2 7\nvn 0 0 1\nf 1//1 2//1 3//1\n";
    let m = load(text).unwrap();
    assert_eq!(m.positions[0], pt("1e5", "-.5", "+2."));
    assert_eq!(m.positions[1], pt("inf", "-Infinity", "NaN"));
    assert_eq!(m.positions[2], pt("1E-3", "0.25e+2", "7"));
    for p in &m.positions {
        for c in [&p.x, &p.y, &p.z] {
            assert!(std::str::from_utf8(c).unwrap().parse::<f32>().is_ok());
        }
    }
}

#[test]
fn extra_point_tokens_are_ignored() {
    let m = load("v 0 0 0 1\nv 1 0 0 1\nv 0 1 0 1\nvn 0 0 1\nf 1//1 2//1 3//1\n").unwrap();
    assert_eq!(m.positions[1], pt("1", "0", "0"));
}

#[test]
fn unrecognized_lines_are_ignored() {
    let plain = "v 0 0 0\nv 1 0 0\nv 0 1 0\nvn 0 0 1\nf 1//1 2//1 3//1\n";
    let noisy = "# a comment\n\nmtllib x.mtl\nv 0 0 0\n   \ng group\nvt 0.5 what\nv 1 0 0\nusemtl red\nv 0 1 0\ns off\nvn 0 0 1\no thing\nf 1//1 2//1 3//1\nvp 1\n";
    assert_eq!(load(noisy), load(plain));
    assert!(load(noisy).is_ok());
}

#[test]
fn blanks_and_crlf_separate_tokens() {
    let m = load("  v\t0  0 0\r\nv 1 0 0\r\nv 0 1 0\r\nvn 0 0 1\r\n\tf 1//1   2//1 3//1\r\n").unwrap();
    assert_eq!(m.positions, vec![pt("0", "0", "0"), pt("1", "0", "0"), pt("0", "1", "0")]);
}

#[test]
fn loading_twice_gives_equal_meshes() {
    let text = five_points() + "f 1 2 3 4 5\nf 5 4 3\n";
    let a = load(&text);
    let b = load(&text);
    assert!(a.is_ok());
    assert_eq!(a, b);
    assert_eq!(load("f 1"), load("f 1"));
}

#[test]
fn duplicate_copies_every_coordinate() {
    let p = pt("1.5", "-2", "3e1");
    assert_eq!(p.duplicate(), p);
}

#[test]
fn two_field_corner_reads_second_field_as_normal() {
    let m = load("v 0 0 0\nv 1 0 0\nv 0 1 0\nvn 0 0 1\nvn 0 0 -1\nf 1/2 2/2 3/1\n").unwrap();
    assert_eq!(m.normals, vec![pt("0", "0", "-1"), pt("0", "0", "-1"), pt("0", "0", "1")]);
}

#[test]
fn error_kinds_compare_by_value() {
    assert_ne!(err(1, 1, ParseErrorKind::BadNumber), err(1, 1, ParseErrorKind::MissingField));
    assert_ne!(err(1, 1, ParseErrorKind::BadNumber), err(2, 1, ParseErrorKind::BadNumber));
}
