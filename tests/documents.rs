use off_rs::geometry::color::{Channel, Color};
use off_rs::geometry::decimal::Decimal;
use off_rs::geometry::mesh::Mesh;
use off_rs::parser::color_format::ColorFormat;
use off_rs::parser::error::Kind;
use off_rs::parser::iter::OffLines;
use off_rs::parser::options::{Limits, Options};
use off_rs::{parse, Error};

type Rgba = [f32; 4];
type Flat = (Vec<([f32; 3], Option<Rgba>)>, Vec<(Vec<usize>, Option<Rgba>)>);

fn as_f32(d: &Decimal) -> f32 {
    if d.digits.is_empty() {
        return 0.0;
    }
    let digits: String = d.digits.iter().map(|x| char::from(b'0' + *x)).collect();
    let sign = if d.negative { "-" } else { "" };
    format!("{}{}e{}", sign, digits, d.exponent).parse().unwrap()
}

fn channel(c: &Channel) -> f32 {
    match c {
        Channel::Decimal(d) => as_f32(d),
        Channel::Byte(b) => f32::from(*b) / 255.0,
    }
}

fn rgba(c: &Option<Color>) -> Option<Rgba> {
    c.as_ref().map(|c| [channel(&c.red), channel(&c.green), channel(&c.blue), channel(&c.alpha)])
}

fn flat(m: &Mesh) -> Flat {
    (
        m.vertices
            .iter()
            .map(|v| ([as_f32(&v.position.x), as_f32(&v.position.y), as_f32(&v.position.z)], rgba(&v.color)))
            .collect(),
        m.faces.iter().map(|f| (f.vertices.clone(), rgba(&f.color))).collect(),
    )
}

fn with_format(format: ColorFormat) -> Options {
    Options { color_format: format, ..Options::default() }
}

fn failure(text: &str, options: Options) -> (Kind, usize) {
    match parse(text, options) {
        Err(Error::ParserError(e)) => (e.kind, e.line_index),
        Err(Error::IOError(_)) => panic!("no input was read"),
        Ok(m) => panic!("parsed: {:?}", m),
    }
}

const SPEC_CUBE: &str = r#"
OFF
#
#  cube.off
#  A cube.
#  There is extra RGBA color information specified for the faces.
#
8 6 12
  1.632993   0.000000   1.154701
  0.000000   1.632993   1.154701
 -1.632993   0.000000   1.154701
  0.000000  -1.632993   1.154701
  1.632993   0.000000  -1.154701
  0.000000   1.632993  -1.154701
 -1.632993   0.000000  -1.154701
  0.000000  -1.632993  -1.154701
  4  0 1 2 3  1.000 0.000 0.000 0.75
  4  7 4 0 3  0.300 0.400 0.000 0.75
  4  4 5 1 0  0.200 0.500 0.100 0.75
  4  5 6 2 1  0.100 0.600 0.200 0.75
  4  3 2 6 7  0.000 0.700 0.300 0.75
  4  6 5 4 7  0.000 1.000 0.000 0.75
"#;

const PLAIN_CUBE: &str = r#"
OFF
8 6 0
-0.500000 -0.500000 0.500000
0.500000 -0.500000 0.500000
-0.500000 0.500000 0.500000
0.500000 0.500000 0.500000
-0.500000 0.500000 -0.500000
0.500000 0.500000 -0.500000
-0.500000 -0.500000 -0.500000
0.500000 -0.500000 -0.500000
4 0 1 3 2
4 2 3 5 4
4 4 5 7 6
4 6 7 1 0
4 1 7 5 3
4 6 0 2 4
"#;

fn plain_cube_expected() -> Flat {
    (
        vec![
            ([-0.5, -0.5, 0.5], None),
            ([0.5, -0.5, 0.5], None),
            ([-0.5, 0.5, 0.5], None),
            ([0.5, 0.5, 0.5], None),
            ([-0.5, 0.5, -0.5], None),
            ([0.5, 0.5, -0.5], None),
            ([-0.5, -0.5, -0.5], None),
            ([0.5, -0.5, -0.5], None),
        ],
        vec![
            (vec![0, 1, 3, 2], None),
            (vec![2, 3, 5, 4], None),
            (vec![4, 5, 7, 6], None),
            (vec![6, 7, 1, 0], None),
            (vec![1, 7, 5, 3], None),
            (vec![6, 0, 2, 4], None),
        ],
    )
}

#[test]
fn valid_spec_example() {
    let options = with_format(ColorFormat::RGBAFloat);
    let off = parse(SPEC_CUBE, options).unwrap();
    let expected: Flat = (
        vec![
            ([1.632993, 0.0, 1.154701], None),
            ([0.0, 1.632993, 1.154701], None),
            ([-1.632993, 0.0, 1.154701], None),
            ([0.0, -1.632993, 1.154701], None),
            ([1.632993, 0.0, -1.154701], None),
            ([0.0, 1.632993, -1.154701], None),
            ([-1.632993, 0.0, -1.154701], None),
            ([0.0, -1.632993, -1.154701], None),
        ],
        vec![
            (vec![0, 1, 2, 3], Some([1.0, 0.0, 0.0, 0.75])),
            (vec![7, 4, 0, 3], Some([0.3, 0.4, 0.0, 0.75])),
            (vec![4, 5, 1, 0], Some([0.2, 0.5, 0.1, 0.75])),
            (vec![5, 6, 2, 1], Some([0.1, 0.6, 0.2, 0.75])),
            (vec![3, 2, 6, 7], Some([0.0, 0.7, 0.3, 0.75])),
            (vec![6, 5, 4, 7], Some([0.0, 1.0, 0.0, 0.75])),
        ],
    );
    assert_eq!(flat(&off), expected);
}

#[test]
fn valid_wiki_example() {
    let content = r#"
OFF
# cube.off
# A cube

8 6 12
 1.0  0.0 1.5142
 0.0  1.0 1.5142
-1.0  0.0 1.5142
 0.0 -1.0 1.5142
 1.0  0.0 0.0
 0.0  1.0 0.0
-1.0  0.0 0.0
 0.0 -1.0 0.0
4  0 1 2 3  255 0 0 #red
4  7 4 0 3  0 255 0 #green
4  4 5 1 0  0 0 255 #blue
4  5 6 2 1  0 255 0
4  3 2 6 7  0 0 255
4  6 5 4 7  255 0 0
"#;
    let off = parse(content, with_format(ColorFormat::RGBInteger)).unwrap();
    let expected: Flat = (
        vec![
            ([1.0, 0.0, 1.5142], None),
            ([0.0, 1.0, 1.5142], None),
            ([-1.0, 0.0, 1.5142], None),
            ([0.0, -1.0, 1.5142], None),
            ([1.0, 0.0, 0.0], None),
            ([0.0, 1.0, 0.0], None),
            ([-1.0, 0.0, 0.0], None),
            ([0.0, -1.0, 0.0], None),
        ],
        vec![
            (vec![0, 1, 2, 3], Some([1.0, 0.0, 0.0, 1.0])),
            (vec![7, 4, 0, 3], Some([0.0, 1.0, 0.0, 1.0])),
            (vec![4, 5, 1, 0], Some([0.0, 0.0, 1.0, 1.0])),
            (vec![5, 6, 2, 1], Some([0.0, 1.0, 0.0, 1.0])),
            (vec![3, 2, 6, 7], Some([0.0, 0.0, 1.0, 1.0])),
            (vec![6, 5, 4, 7], Some([1.0, 0.0, 0.0, 1.0])),
        ],
    );
    assert_eq!(flat(&off), expected);
}

#[test]
fn valid_cube() {
    let off = parse(PLAIN_CUBE, Options::default()).unwrap();
    assert_eq!(flat(&off), plain_cube_expected());
}

#[test]
fn vertex_colors() {
    let content = r#"
OFF
3 1 0
-0.500000 -0.500000 0.500000 12 122 210
0.500000 -0.500000 0.500000 34 23 112
-0.500000 0.500000 0.500000 123 12 44
3 0 1 2
"#;
    let off = parse(content, with_format(ColorFormat::RGBInteger)).unwrap();
    println!("{:#?}", off);
    let expected: Flat = (
        vec![
            ([-0.5, -0.5, 0.5], Some([0.047058824, 0.47843137, 0.8235294, 1.0])),
            ([0.5, -0.5, 0.5], Some([0.13333334, 0.09019608, 0.4392157, 1.0])),
            ([-0.5, 0.5, 0.5], Some([0.48235294, 0.047058824, 0.17254902, 1.0])),
        ],
        vec![(vec![0, 1, 2], None)],
    );
    assert_eq!(flat(&off), expected);
}

#[test]
fn off_spec_example() {
    let off = parse(SPEC_CUBE, Options::default()).unwrap();
    println!("{:#?}", off);
}

#[test]
fn off_wiki_example() {
    let content = r#"
OFF
# cube.off
# A cube

8 6 12
 1.0  0.0 1.4142
 0.0  1.0 1.4142
-1.0  0.0 1.4142
 0.0 -1.0 1.4142
 1.0  0.0 0.0
 0.0  1.0 0.0
-1.0  0.0 0.0
 0.0 -1.0 0.0
4  0 1 2 3  255 0 0 #red
4  7 4 0 3  0 255 0 #green
4  4 5 1 0  0 0 255 #blue
4  5 6 2 1  0 255 0
4  3 2 6 7  0 0 255
4  6 5 4 7  255 0 0
"#;
    let off = parse(content, with_format(ColorFormat::RGBAInteger));
    println!("{:#?}", off);
}

#[test]
fn off_cube() {
    let off = parse(PLAIN_CUBE, Options::default());
    assert_eq!(flat(&off.unwrap()), plain_cube_expected());
}

#[test]
fn missing_vertex_color() {
    let content = r#"
OFF
3 1 0
-0.500000 -0.500000 0.500000 12 122 210
0.500000 -0.500000 0.500000 34 112
-0.500000 0.500000 0.500000 123 12 44
3 0 1 2
"#;
    // A trailing group of the wrong length is a malformed vertex line.
    assert_eq!(
        failure(content, with_format(ColorFormat::RGBInteger)),
        (Kind::InvalidVertexPosition, 4)
    );
}

#[test]
fn scenario_integer_face_color() {
    let text = "OFF\n3 1\n1 0 0\n0 1 0\n0 0 1\n3 0 1 2 255 0 0\n";
    let mesh = parse(text, with_format(ColorFormat::RGBInteger)).unwrap();
    let expected: Flat = (
        vec![([1.0, 0.0, 0.0], None), ([0.0, 1.0, 0.0], None), ([0.0, 0.0, 1.0], None)],
        vec![(vec![0, 1, 2], Some([1.0, 0.0, 0.0, 1.0]))],
    );
    assert_eq!(flat(&mesh), expected);
    assert_eq!(mesh.vertex_count(), 3);
    assert_eq!(mesh.face_count(), 1);
    assert_eq!(mesh.edge_count(), 2);
}

#[test]
fn scenario_short_vertex_line() {
    let text = "OFF\n# two vertices\n2 0\n1 2 3\n4 5\n";
    assert_eq!(failure(text, Options::default()), (Kind::InvalidVertexPosition, 4));
}

#[test]
fn scenario_face_missing_index() {
    let text = "OFF\n4 1\n0 0 0\n1 0 0\n1 1 0\n0 1 0\n4 0 1 2\n";
    assert_eq!(failure(text, Options::default()).0, Kind::InvalidFaceIndex);
}

#[test]
fn header_errors() {
    assert_eq!(failure("OFFX\n0 0\n", Options::default()), (Kind::InvalidHeader, 0));
    assert_eq!(failure("", Options::default()), (Kind::Empty, 0));
    assert_eq!(failure("# nothing\n   \n", Options::default()), (Kind::Empty, 0));
    assert_eq!(failure("\n\n  COFF\n", Options::default()), (Kind::InvalidHeader, 2));
    assert!(parse("OFF # with a comment\n0 0\n", Options::default()).is_ok());
}

#[test]
fn vertex_limit_reported_at_counts_line() {
    let options = Options {
        limits: Limits { vertex_count: 2, face_count: 5, face_vertex_count: 8 },
        ..Options::default()
    };
    let text = "OFF\n\n3 0\nnot a vertex\n";
    assert_eq!(failure(text, options), (Kind::LimitExceeded, 2));
    let text = "OFF\n2 6\n";
    assert_eq!(failure(text, options), (Kind::LimitExceeded, 1));
}

#[test]
fn counts_and_order_follow_the_lines() {
    let text = "OFF\n4 2 5\n0 0 0\n1 0 0 # comment\n\n1 1 0\n0 1 0\n3 0 1 2\n3 0 2 3\n";
    let mesh = parse(text, Options::default()).unwrap();
    assert_eq!(mesh.vertex_count(), 4);
    assert_eq!(mesh.face_count(), 2);
    let f = flat(&mesh);
    assert_eq!(f.0[1].0, [1.0, 0.0, 0.0]);
    assert_eq!(f.0[2].0, [1.0, 1.0, 0.0]);
    assert_eq!(f.1[1].0, vec![0, 2, 3]);
    assert_eq!(mesh.edge_count(), 4);
}

#[test]
fn face_lists_keep_declared_order() {
    let text = "OFF\n5 1\n0 0 0\n1 0 0\n1 1 0\n0 1 0\n2 2 2\n5 4 0 3 1 2\n";
    let mesh = parse(text, Options::default()).unwrap();
    assert_eq!(mesh.faces[0].vertices, vec![4, 0, 3, 1, 2]);
}

#[test]
fn missing_lines_are_reported_after_the_last_line() {
    assert_eq!(failure("OFF\n", Options::default()), (Kind::Missing, 1));
    assert_eq!(failure("OFF\n\n# c\n2 0\n1 2 3\n", Options::default()), (Kind::Missing, 5));
    assert_eq!(failure("OFF\n1 1\n1 2 3\n\n", Options::default()), (Kind::Missing, 3));
}

#[test]
fn face_indices_must_name_vertices() {
    let text = "OFF\n3 2\n0 0 0\n1 0 0\n0 1 0\n3 0 1 2\n3 0 1 3\n";
    assert_eq!(failure(text, Options::default()), (Kind::InvalidFaceIndex, 6));
}

#[test]
fn lines_after_the_faces_are_ignored() {
    let text = "OFF\n3 1\n0 0 0\n1 0 0\n0 1 0\n3 0 1 2\nsomething else\n";
    assert!(parse(text, Options::default()).is_ok());
}

#[test]
fn comments_do_not_change_lines() {
    let mut a = OffLines::new("OFF\n1 2 3 # comment\n# only a comment\n   \n");
    assert_eq!(a.next(), Some((0, "OFF".to_string())));
    assert_eq!(a.next(), Some((1, "1 2 3".to_string())));
    assert_eq!(a.next(), None);
}

#[test]
fn wiki() {
    let content = r#"OFF
# cube.off
# A cube

8 6 12
 1.0  0.0 1.4142
 0.0  1.0 1.4142
-1.0  0.0 1.4142
 0.0 -1.0 1.4142
 1.0  0.0 0.0
 0.0  1.0 0.0
-1.0  0.0 0.0
 0.0 -1.0 0.0
4  0 1 2 3  255 0 0 #red
4  7 4 0 3  0 255 0 #green
4  4 5 1 0  0 0 255 #blue
4  5 6 2 1  0 255 0
4  3 2 6 7  0 0 255
4  6 5 4 7  255 0 0"#;

    let off = parse(content, with_format(ColorFormat::RGBInteger));

    println!("{:#?}", off);
}
