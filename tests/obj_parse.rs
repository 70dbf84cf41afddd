use mari_formats::lex::{is_float_literal, parse_face_ref, split_lines, split_tokens};
use mari_formats::obj::MAX_VERTICES;
use mari_formats::{Obj, ObjError as Error};

fn parse(text: &str) -> Result<Obj, Error> {
    Obj::parse(text.as_bytes())
}

fn words(toks: &[Vec<u8>]) -> Vec<String> {
    toks.iter().map(|t| String::from_utf8(t.clone()).unwrap()).collect()
}

fn expect_invalid(text: &str, number: usize, line: &str) {
    match parse(text) {
        Err(Error::Invalid { line_number, line: l }) => {
            assert_eq!(line_number, number);
            assert_eq!(l, line.as_bytes().to_vec());
        }
        Err(Error::TooManyVertices) => panic!("expected a line error, got the capacity error"),
        Ok(_) => panic!("expected a line error, got a mesh"),
    }
}

const TRIANGLE: &str = "v 0 0 0\nv 1 0 0\nv 0 1 0\nvt 0 0\nvt 1 0\nvt 0 1\nvn 0 0 1\nvn 0 0 1\nvn 0 0 1\nf 1 2 3\n";

#[test]
fn minimal_triangle_round_trip() {
    let o = parse(TRIANGLE).unwrap();
    assert_eq!(o.mesh, vec![0, 1, 2]);
    assert_eq!(o.vertices.len(), 9);
    assert_eq!(o.uvs.len(), 6);
    assert_eq!(o.normals.len(), 9);
    assert_eq!(words(&o.vertices), vec!["0", "0", "0", "1", "0", "0", "0", "1", "0"]);
    assert_eq!(words(&o.uvs), vec!["0", "0", "1", "0", "0", "1"]);
}

#[test]
fn zero_face_index_names_its_line() {
    expect_invalid("v 0 0 0\nv 1 0 0\nv 0 1 0\nf 0 2 3\n", 4, "f 0 2 3");
}

#[test]
fn zero_in_third_reference_names_its_line() {
    expect_invalid("# header\n\nf 1 2 0/4/5\n", 3, "f 1 2 0/4/5");
}

#[test]
fn face_index_is_shifted_to_zero_based() {
    let o = parse("f 7 65535 1\n").unwrap();
    assert_eq!(o.mesh, vec![6, 65534, 0]);
}

#[test]
fn face_uses_first_slash_field_and_first_three_groups() {
    let o = parse("f 3/1/2 4//9 5/7 6 7\n").unwrap();
    assert_eq!(o.mesh, vec![2, 3, 4]);
}

#[test]
fn face_index_out_of_range_is_invalid() {
    expect_invalid("f 1 2 65536\n", 1, "f 1 2 65536");
    expect_invalid("f 1 -2 3\n", 1, "f 1 -2 3");
    expect_invalid("f 1 /2 3\n", 1, "f 1 /2 3");
}

#[test]
fn face_index_with_plus_sign_is_read() {
    let o = parse("f +1 2 3\n").unwrap();
    assert_eq!(o.mesh, vec![0, 1, 2]);
}

#[test]
fn malformed_number_names_its_line() {
    expect_invalid("v 0 0 0\nv 1.0 abc 3.0\n", 2, "v 1.0 abc 3.0");
}

#[test]
fn malformed_numbers_in_other_directives() {
    expect_invalid("vt 0.5 x\n", 1, "vt 0.5 x");
    expect_invalid("vn 0 0 1e\n", 1, "vn 0 0 1e");
}

#[test]
fn too_few_values_are_invalid() {
    expect_invalid("v 1 2\n", 1, "v 1 2");
    expect_invalid("vt 1\n", 1, "vt 1");
    expect_invalid("vn 1 2\n", 1, "vn 1 2");
    expect_invalid("f 1 2\n", 1, "f 1 2");
}

#[test]
fn first_malformed_line_wins() {
    expect_invalid("v 0 0 0\nvt a b\nf 0 0 0\n", 2, "vt a b");
}

#[test]
fn comments_blank_and_unknown_lines_are_ignored() {
    let text = "# a comment\n\n   \nmtllib x.mtl\no thing\ns off\nv 1 2 3\n  #v 9 9 9\nusemtl m\n";
    let o = parse(text).unwrap();
    assert_eq!(words(&o.vertices), vec!["1", "2", "3"]);
    assert!(o.mesh.is_empty());
    assert!(o.uvs.is_empty());
    assert!(o.normals.is_empty());
}

#[test]
fn extra_values_are_ignored() {
    let o = parse("v 1 2 3 1.0\nvt 0.25 0.75 0\n").unwrap();
    assert_eq!(words(&o.vertices), vec!["1", "2", "3"]);
    assert_eq!(words(&o.uvs), vec!["0.25", "0.75"]);
}

#[test]
fn error_line_numbers_count_every_line() {
    expect_invalid("\r\n# c\r\n\r\nv 1 2\r\n", 4, "v 1 2");
}

#[test]
fn empty_text_gives_empty_mesh() {
    let o = parse("").unwrap();
    assert!(o.vertices.is_empty() && o.mesh.is_empty() && o.uvs.is_empty() && o.normals.is_empty());
}

fn many_vertices(n: usize) -> String {
    let mut s = String::with_capacity(n * 8);
    for _ in 0..n {
        s.push_str("v 0 0 0\n");
    }
    s
}

#[test]
fn max_vertices_are_accepted() {
    let o = parse(&many_vertices(MAX_VERTICES)).unwrap();
    assert_eq!(o.vertices.len(), 196608);
}

#[test]
fn one_vertex_too_many_is_a_capacity_error() {
    let mut text = many_vertices(MAX_VERTICES + 1);
    text.push_str("f 0 0 0\n");
    assert!(matches!(parse(&text), Err(Error::TooManyVertices)));
}

#[test]
fn new_takes_prepared_lines() {
    let lines = vec![b"v 1 2 3".to_vec(), b"f 1 1 1".to_vec()];
    let o = Obj::new(&lines).unwrap();
    assert_eq!(o.mesh, vec![0, 0, 0]);
    let bad = vec![b"v 1 2 3".to_vec(), b"f 1 1".to_vec()];
    match Obj::new(&bad) {
        Err(Error::Invalid { line_number, line }) => {
            assert_eq!(line_number, 2);
            assert_eq!(line, b"f 1 1".to_vec());
        }
        _ => panic!("expected a line error"),
    }
}

#[test]
fn float_literals_follow_rust_syntax() {
    for ok in ["0", "-1", "+2.5", "1.", ".5", "1e5", "1E-5", "2.5e+3", "inf", "-Infinity", "NaN", "007"] {
        assert!(is_float_literal(ok.as_bytes()), "{ok}");
        assert!(ok.parse::<f32>().is_ok(), "{ok}");
    }
    for bad in ["", "+", ".", "e5", "1e", "1.5.2", "abc", "1,5", "--1", "infin", "0x10", "1e+"] {
        assert!(!is_float_literal(bad.as_bytes()), "{bad}");
        assert!(bad.parse::<f32>().is_err(), "{bad}");
    }
}

#[test]
fn face_references_read_first_field() {
    assert_eq!(parse_face_ref(b"12/3/4"), Some(11));
    assert_eq!(parse_face_ref(b"1"), Some(0));
    assert_eq!(parse_face_ref(b"0"), None);
    assert_eq!(parse_face_ref(b"65536"), None);
    assert_eq!(parse_face_ref(b"x/1"), None);
    assert_eq!(parse_face_ref(b""), None);
}

#[test]
fn tokens_split_on_whitespace() {
    assert_eq!(words(&split_tokens(b"  f\t1  2 \x0b3 ")), vec!["f", "1", "2", "3"]);
    assert!(split_tokens(b" \t ").is_empty());
}

#[test]
fn lines_split_like_buffered_reading() {
    assert_eq!(words(&split_lines(b"a\r\nb\n\nc")), vec!["a", "b", "", "c"]);
    assert_eq!(words(&split_lines(b"a\n")), vec!["a"]);
    assert!(split_lines(b"").is_empty());
    assert_eq!(words(&split_lines(b"a\r\nb\r")), vec!["a", "b\r"]);
}

#[test]
fn unicode_whitespace_separates_words() {
    let o = parse("\u{a0}v\u{3000}1 2\u{2009}3\u{85}\n").unwrap();
    assert_eq!(words(&o.vertices), vec!["1", "2", "3"]);
    assert_eq!(words(&split_tokens("f\u{1680}1\u{2028}2\u{205f}3".as_bytes())), vec!["f", "1", "2", "3"]);
    assert_eq!(split_tokens("\u{e9}t\u{e9}".as_bytes()).len(), 1);
}
