use off_rs::geometry::color::{Channel, Color};
use off_rs::geometry::decimal::Decimal;
use off_rs::geometry::mesh::{Face, Vertex};
use off_rs::geometry::position::Position;
use off_rs::parser::color_format::ColorFormat;
use off_rs::parser::error::{Error, Kind};
use off_rs::parser::options::Options;
use off_rs::parser;
use off_rs::parser::Parser;

fn d(s: &str) -> Decimal {
    Decimal::parse(s).unwrap()
}

fn pos(x: &str, y: &str, z: &str) -> Position {
    Position::new(d(x), d(y), d(z))
}

fn color(r: &str, g: &str, b: &str, a: &str) -> Color {
    Color::new(
        Channel::Decimal(d(r)),
        Channel::Decimal(d(g)),
        Channel::Decimal(d(b)),
        Channel::Decimal(d(a)),
    )
    .unwrap()
}

fn bytes(r: u8, g: u8, b: u8, a: u8) -> Color {
    Color::from_bytes(&vec![r, g, b, a]).unwrap()
}

fn parts(v: &[&str]) -> Vec<String> {
    v.iter().map(|s| s.to_string()).collect()
}

fn with_format(format: ColorFormat) -> Options {
    Options { color_format: format, ..Options::default() }
}

fn kind_of<T>(r: Result<T, Error>) -> Kind {
    r.err().unwrap().kind
}

#[test]
fn parse_header() {
    let mut parser = Parser::new("OFF", Options::default());
    assert!(parser.parse_header().is_ok());
}

#[test]
fn parse_header_missing() {
    let mut parser = Parser::new("", Options::default());
    let header = parser.parse_header();
    assert!(header.is_err());
    assert!(matches!(header.unwrap_err(), Error { kind: Kind::Empty, .. }));
}

#[test]
fn parse_header_invalid() {
    let mut parser = Parser::new("COFF", Options::default());
    let header = parser.parse_header();
    assert!(header.is_err());
    assert!(matches!(header.unwrap_err(), Error { kind: Kind::InvalidHeader, .. }));
}

#[test]
fn parse_counts() {
    let mut parser = Parser::new("8 6 12", Options::default());
    assert!(parser.parse_counts().is_ok());
    assert_eq!(parser.vertex_count, 8);
    assert_eq!(parser.face_count, 6);
    assert_eq!(parser.edge_count, 12);
}

#[test]
fn parse_counts_missing() {
    let mut parser = Parser::new("", Options::default());
    let counts = parser.parse_counts();
    assert!(counts.is_err());
    assert!(matches!(counts.unwrap_err(), Error { kind: Kind::Missing, .. }));
}

#[test]
fn parse_counts_too_many() {
    let mut parser = Parser::new("8 6 12 16", Options::default());
    let counts = parser.parse_counts();
    assert!(counts.is_err());
    assert!(matches!(counts.unwrap_err(), Error { kind: Kind::InvalidCounts, .. }));
}

#[test]
fn parse_counts_limits() {
    let mut parser = Parser::new("999999999999 888888888888 777777777", Options::default());
    let counts = parser.parse_counts();
    assert!(counts.is_err());
    assert!(matches!(counts.unwrap_err(), Error { kind: Kind::LimitExceeded, .. }));
}

#[test]
fn parse_counts_not_numbers() {
    let mut parser = Parser::new("8 six", Options::default());
    assert_eq!(kind_of(parser.parse_counts()), Kind::InvalidCounts);
    let mut parser = Parser::new("8", Options::default());
    assert_eq!(kind_of(parser.parse_counts()), Kind::InvalidCounts);
    let mut parser = Parser::new("8 1001", Options::default());
    assert_eq!(kind_of(parser.parse_counts()), Kind::LimitExceeded);
    let mut parser = Parser::new("8 6", Options::default());
    assert!(parser.parse_counts().is_ok());
    assert_eq!(parser.edge_count, 0);
}

#[test]
fn parse_vertices() {
    let mut parser =
        Parser::new("3.0 1.0 2.0 0.1 0.2 0.3 1.0\n1.0 2.0 3.0 0.1 0.2 0.3 1.0", Options::default());
    parser.vertex_count = 2;
    let result = parser.parse_vertices();
    assert!(result.is_ok());
    assert!(parser.next_line().is_none());
    assert!(parser.document.vertices.len() == 2);
    assert!(
        parser.document.vertices[0]
            == Vertex::new(pos("3.0", "1.0", "2.0"), Some(color("0.1", "0.2", "0.3", "1.0")))
    );
    assert!(
        parser.document.vertices[1]
            == Vertex::new(pos("1.0", "2.0", "3.0"), Some(color("0.1", "0.2", "0.3", "1.0")))
    );
}

#[test]
fn parse_vertex() {
    let vertex = parser::parse_vertex(0, &parts(&["1.0", "2.0", "3.0"]), ColorFormat::default());
    assert!(vertex.is_ok());
    assert_eq!(vertex.unwrap(), Vertex::new(pos("1.0", "2.0", "3.0"), None));
}

#[test]
fn parse_vertex_too_few_parts() {
    let vertex = parser::parse_vertex(0, &parts(&["1.0", "2.0"]), ColorFormat::default());
    assert!(vertex.is_err());
    assert!(matches!(vertex.unwrap_err(), Error { kind: Kind::InvalidVertexPosition, .. }));
}

#[test]
fn parse_vertex_wrong_color_length() {
    let vertex = parser::parse_vertex(
        0,
        &parts(&["1", "2", "3", "4", "5"]),
        ColorFormat::RGBInteger,
    );
    assert_eq!(kind_of(vertex), Kind::InvalidVertexPosition);
    let vertex = parser::parse_vertex(
        7,
        &parts(&["1", "2", "3", "4", "5", "256"]),
        ColorFormat::RGBInteger,
    );
    assert_eq!(vertex.err().unwrap().line_index, 7);
}

#[test]
fn parse_position() {
    let position = parser::parse_position(0, &parts(&["1", "2", "3"]));
    assert!(position.is_ok());
    assert_eq!(position.unwrap(), pos("1.0", "2.0", "3.0"));
}

#[test]
fn parse_position_no_number() {
    let position = parser::parse_position(0, &parts(&["1", "2", "a"]));
    assert!(position.is_err());
    assert!(matches!(position.unwrap_err(), Error { kind: Kind::InvalidVertexPosition, .. }));
}

#[test]
fn parse_position_too_few_parts() {
    let position = parser::parse_position(0, &parts(&["1", "2"]));
    assert!(position.is_err());
    assert!(matches!(position.unwrap_err(), Error { kind: Kind::InvalidVertexPosition, .. }));
}

#[test]
fn parse_position_too_many_parts() {
    let position = parser::parse_position(0, &parts(&["1", "2", "3", "5"]));
    assert!(position.is_err());
    assert!(matches!(position.unwrap_err(), Error { kind: Kind::InvalidVertexPosition, .. }));
}

#[test]
fn parse_color_rgbfloat() {
    let c = parser::parse_color(0, &parts(&["1.0", "0.5", "0.3"]), ColorFormat::RGBFloat);
    assert!(c.is_ok());
    assert_eq!(c.unwrap(), color("1.0", "0.5", "0.3", "1.0"));
}

#[test]
fn parse_color_rgbafloat() {
    let c = parser::parse_color(0, &parts(&["1.0", "0.5", "0.3", "0.5"]), ColorFormat::RGBAFloat);
    assert!(c.is_ok());
    assert_eq!(c.unwrap(), color("1.0", "0.5", "0.3", "0.5"));
}

#[test]
fn parse_color_rgbinterger() {
    let c = parser::parse_color(0, &parts(&["255", "128", "0"]), ColorFormat::RGBInteger);
    assert!(c.is_ok());
    let c = c.unwrap();
    assert_eq!(c, bytes(255, 128, 0, 255));
    assert_eq!(f32::from(128u8) / 255.0, 0.501_960_8);
}

#[test]
fn parse_color_rgbinterger_fail() {
    let c = parser::parse_color(0, &parts(&["255", "128.0", "0"]), ColorFormat::RGBInteger);
    assert!(c.is_err());
    assert!(matches!(c.unwrap_err(), Error { kind: Kind::InvalidColor, .. }));
}

#[test]
fn parse_color_rgbainterger() {
    let c = parser::parse_color(0, &parts(&["255", "128", "0", "255"]), ColorFormat::RGBAInteger);
    assert!(c.is_ok());
    assert_eq!(c.unwrap(), bytes(255, 128, 0, 255));
}

#[test]
fn parse_color_element_count() {
    let c = parser::parse_color(0, &parts(&["1.0", "0.5", "0.3", "0.4"]), ColorFormat::RGBFloat);
    assert!(c.is_err());
    assert!(matches!(c.unwrap_err(), Error { kind: Kind::InvalidColor, .. }));
}

#[test]
fn parse_color_out_of_range() {
    let c = parser::parse_color(3, &parts(&["1.5", "0.5", "0.3"]), ColorFormat::RGBFloat);
    let e = c.err().unwrap();
    assert_eq!((e.kind, e.line_index), (Kind::InvalidColor, 3));
    let c = parser::parse_color(0, &parts(&["256", "0", "0"]), ColorFormat::RGBInteger);
    assert_eq!(kind_of(c), Kind::InvalidColor);
}

#[test]
fn parse_faces() {
    let mut parser =
        Parser::new("3 1 2 3 0.1 0.2 0.3 1.0\n3 3 2 1 0.2 0.3 0.4 1.0", Options::default());
    parser.face_count = 2;
    let result = parser.parse_faces();
    assert!(result.is_ok());
    assert!(parser.next_line().is_none());
    assert!(parser.document.faces.len() == 2);
    assert!(parser.document.faces[0].vertices == vec![1, 2, 3]);
    assert!(parser.document.faces[0].color == Some(color("0.1", "0.2", "0.3", "1.0")));
    assert!(parser.document.faces[1].vertices == vec![3, 2, 1]);
    assert!(parser.document.faces[1].color == Some(color("0.2", "0.3", "0.4", "1.0")));
}

#[test]
fn parse_face() {
    let result = parser::parse_face(0, &parts(&["3", "1", "2", "3"]), Options::default());
    assert!(result.is_ok());
    assert_eq!(result.unwrap(), Face { vertices: vec![1, 2, 3], color: None });
}

#[test]
fn parse_face_more() {
    let result = parser::parse_face(0, &parts(&["4", "2", "3", "1", "1337"]), Options::default());
    assert!(result.is_ok());
    assert_eq!(result.unwrap(), Face { vertices: vec![2, 3, 1, 1337], color: None });
}

#[test]
fn parse_face_too_little_parts() {
    let result = parser::parse_face(0, &parts(&["6", "1", "2", "3"]), Options::default());
    assert!(result.is_err());
    assert!(matches!(result.unwrap_err(), Error { kind: Kind::InvalidFaceIndex, .. }));
}

#[test]
fn parse_face_too_many_parts() {
    let result = parser::parse_face(0, &parts(&["3", "2", "3", "2", "3"]), Options::default());
    assert!(result.is_err());
    assert!(matches!(result.unwrap_err(), Error { kind: Kind::InvalidColor, .. }));
}

#[test]
fn parse_face_no_number() {
    let result = parser::parse_face(0, &parts(&["3", "1", "asdf", "3"]), Options::default());
    assert!(result.is_err());
    assert!(matches!(result.unwrap_err(), Error { kind: Kind::InvalidFaceIndex, .. }));
}

#[test]
fn parse_face_color() {
    let result = parser::parse_face(
        0,
        &parts(&["3", "1", "2", "3", "0.1", "0.2", "0.3", "0.4"]),
        Options::default(),
    );
    assert!(result.is_ok());
    assert_eq!(
        result.unwrap(),
        Face { vertices: vec![1, 2, 3], color: Some(color("0.1", "0.2", "0.3", "0.4")) }
    );
}

#[test]
fn parse_face_color_fail() {
    let result =
        parser::parse_face(0, &parts(&["3", "1", "2", "3", "0.1", "0.2"]), Options::default());
    assert!(result.is_err());
    assert!(matches!(result.unwrap_err(), Error { kind: Kind::InvalidColor, .. }));
}

#[test]
fn parse_face_color_fail_no_alpha() {
    let result = parser::parse_face(
        0,
        &parts(&["3", "1", "2", "3", "0.1", "0.2", "0.3"]),
        with_format(ColorFormat::RGBFloat),
    );
    assert!(result.is_ok());
    assert_eq!(
        result.unwrap(),
        Face { vertices: vec![1, 2, 3], color: Some(color("0.1", "0.2", "0.3", "1.0")) }
    );
}

#[test]
fn parse_face_color_fail_no_alpha_fail() {
    let result = parser::parse_face(
        0,
        &parts(&["3", "1", "2", "3", "0.1", "0.2", "0.3"]),
        Options::default(),
    );
    assert!(result.is_err());
    assert!(matches!(result.unwrap_err(), Error { kind: Kind::InvalidColor, .. }));
}

#[test]
fn parse_face_limits_and_small_counts() {
    let result = parser::parse_face(0, &parts(&["65", "1", "2", "3"]), Options::default());
    assert_eq!(kind_of(result), Kind::LimitExceeded);
    let result = parser::parse_face(0, &parts(&["2", "1", "2", "3"]), Options::default());
    assert_eq!(kind_of(result), Kind::InvalidFace);
    let result = parser::parse_face(0, &parts(&["3", "1", "2"]), Options::default());
    assert_eq!(kind_of(result), Kind::InvalidFace);
    let result = parser::parse_face(0, &parts(&["x", "1", "2", "3"]), Options::default());
    assert_eq!(kind_of(result), Kind::InvalidFace);
}

#[test]
fn parse_face_index() {
    let result = parser::parse_face_indices(0, 3, &parts(&["1", "2", "3"]));
    assert!(result.is_ok());
    assert_eq!(result.unwrap(), vec![1, 2, 3]);
}

#[test]
fn parse_face_index_more() {
    let result = parser::parse_face_indices(0, 5, &parts(&["1", "2", "3", "1", "1337"]));
    assert!(result.is_ok());
    assert_eq!(result.unwrap(), vec![1, 2, 3, 1, 1337]);
}

#[test]
fn parse_face_index_too_little_parts() {
    let result = parser::parse_face_indices(0, 5, &parts(&["1", "2", "3"]));
    assert!(result.is_err());
    assert!(matches!(result.unwrap_err(), Error { kind: Kind::InvalidFaceIndex, .. }));
}

#[test]
fn parse_face_index_too_many_parts() {
    let result = parser::parse_face_indices(0, 3, &parts(&["1", "2", "3", "2", "3"]));
    assert!(result.is_ok());
    assert_eq!(result.unwrap(), vec![1, 2, 3]);
}

#[test]
fn parse_face_index_no_number() {
    let result = parser::parse_face_indices(0, 3, &parts(&["1", "asdf", "3"]));
    assert!(result.is_err());
    assert!(matches!(result.unwrap_err(), Error { kind: Kind::InvalidFaceIndex, .. }));
}

#[test]
fn error_text() {
    let e = Error::with_message(Kind::InvalidHeader, 0, "first non-comment line should be OFF");
    assert_eq!(e.to_text(), "InvalidHeader @ ln:1 - first non-comment line should be OFF");
    let e = Error::without_message(Kind::Missing, 41);
    assert_eq!(e.to_text(), "Missing @ ln:42");
    let e = Error::new(Kind::LimitExceeded, 9, Some("too many".to_string()));
    assert_eq!(e.to_text(), "LimitExceeded @ ln:10 - too many");
    assert_eq!(Error::without_message(Kind::Empty, usize::MAX).to_text(), format!("Empty @ ln:{}", usize::MAX as u128 + 1));
}

#[test]
fn limit_messages_name_both_values() {
    let mut parser = Parser::new("8 1001", Options::default());
    let e = parser.parse_counts().err().unwrap();
    assert_eq!(e.kind, Kind::LimitExceeded);
    assert_eq!(e.message.as_deref(), Some("face count exceeds limit (limit: 1000, actual: 1001)"));
    let e = parser::parse_face(4, &parts(&["65", "1", "2", "3"]), Options::default()).err().unwrap();
    assert_eq!(
        e.to_text(),
        "LimitExceeded @ ln:5 - vertex count of face exceeds limit (limit: 64, actual: 65)"
    );
}
