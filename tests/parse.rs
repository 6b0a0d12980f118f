use onoff::color::{Color, ColorError};
use onoff::colorformat::{Any, ColorFormat, NoColor, RgbF32, RgbU8, RgbaF32, RgbaU8};
use onoff::document::{Document, ValidationError};
use onoff::face::FaceRef;
use onoff::parse::{parse, Error, ErrorKind, Limits, OffParser, ParserOptions};
use onoff::text::OffLines;
use onoff::vertex::{Vertex, VertexRef};

fn chars(s: &str) -> Vec<char> {
    s.chars().collect()
}

const WIKI: &str = r#"OFF
# cube.off
# A cube
 
8 6 12
 1.0  0.0 1.4142
 0.0  1.0 1.4142
-1.0  0.0 1.4142
 0.0 -1.0 1.4142
 1.0  0.0 0.0
 0.0  1.0 0.0
-1.0  0.0 0.0
 0.0 -1.0 0.0
4  0 1 2 3  255 0 0 #red
4  7 4 0 3  0 255 0 #green
4  4 5 1 0  0 0 255 #blue
4  5 6 2 1  0 255 0 
4  3 2 6 7  0 0 255
4  6 5 4 7  255 0 0"#;

#[test]
fn wiki() {
    let content = WIKI;

    let options = ParserOptions {
        color_format: RgbU8,
        limits: Default::default(),
    };
    let parser = OffParser::new_with_options(&content, options);
    let document = parser.try_parse().unwrap();

    println!("{:#?}", document);
}

#[test]
fn spec_example() {
    let content = r#"
OFF
#
#  cube.off
#  A cube.
#  There is extra RGBA color information specified for the faces.
#
8 6 12
  1.632993   0.000000   1.154701
  0.000000   1.632993   1.154701
 -1.632993   0.000000   1.154701
  0.000000  -1.632993   1.154701
  1.632993   0.000000  -1.154701
  0.000000   1.632993  -1.154701
 -1.632993   0.000000  -1.154701
  0.000000  -1.632993  -1.154701
  4  0 1 2 3  1.000 0.000 0.000 0.75
  4  7 4 0 3  0.300 0.400 0.000 0.75
  4  4 5 1 0  0.200 0.500 0.100 0.75
  4  5 6 2 1  0.100 0.600 0.200 0.75
  4  3 2 6 7  0.000 0.700 0.300 0.75
  4  6 5 4 7  0.000 1.000 0.000 0.75
"#;

    let options = ParserOptions {
        color_format: RgbaF32,
        limits: Default::default(),
    };
    let parser = OffParser::new_with_options(&content, options);
    let document = parser.try_parse().unwrap();

    println!("{:#?}", document);

    let checked = document.validate().unwrap();

    let mut faces = checked.face_iter();
    while let Some(face) = faces.next() {
        println!("F: {:?}", face);
    }
    let first = checked.resolve(0);
    assert_eq!(first.color, Some(&Color::new(255, 0, 0, 191)));
    let second = checked.resolve(1);
    assert_eq!(second.color, Some(&Color::new(76, 102, 0, 191)));
}

#[test]
fn end_to_end_cube_with_byte_colors() {
    let options = ParserOptions { color_format: RgbU8, limits: Limits::default() };
    let document = parse(WIKI, options).unwrap();
    assert_eq!(document.vertices().len(), 8);
    assert_eq!(document.face_refs().len(), 6);
    assert_eq!(document.edge_count(), Some(12));
    let checked = document.validate().unwrap();
    let mut faces = checked.face_iter();
    let first = faces.next().unwrap();
    assert_eq!(first.vertices.len(), 4);
    assert_eq!(first.color, Some(&Color::new(255, 0, 0, 255)));
    assert_eq!(first.vertices[0].x, chars("1.0"));
    assert_eq!(first.vertices[0].z, chars("1.4142"));
}

#[test]
fn faces_come_in_declaration_order() {
    let options = ParserOptions { color_format: RgbU8, limits: Limits::default() };
    let checked = parse(WIKI, options).unwrap().validate().unwrap();
    let expected: [[usize; 4]; 6] =
        [[0, 1, 2, 3], [7, 4, 0, 3], [4, 5, 1, 0], [5, 6, 2, 1], [3, 2, 6, 7], [6, 5, 4, 7]];
    let mut faces = checked.face_iter();
    for indices in expected.iter() {
        let face = faces.next().unwrap();
        for (k, i) in indices.iter().enumerate() {
            assert_eq!(face.vertices[k], &checked.vertices()[*i]);
        }
    }
    assert!(faces.next().is_none());
    let all = checked.resolved_faces();
    assert_eq!(all.len(), 6);
    assert_eq!(all[1].color, Some(&Color::new(0, 255, 0, 255)));
    assert_eq!(all[1].vertices[0], &checked.vertices()[7]);
}

#[test]
fn comment_is_cut_before_tokenizing() {
    let mut a = OffLines::new("1 2 3 # comment");
    let mut b = OffLines::new("1 2 3");
    let la = a.next().unwrap();
    let lb = b.next().unwrap();
    assert_eq!(la, lb);
    assert_eq!(la, (0, chars("1 2 3")));
    assert!(a.next().is_none());
}

#[test]
fn blank_and_comment_lines_are_skipped_but_counted() {
    let mut lines = OffLines::new("   \n# only a comment\n\t\n  x y  \n");
    assert_eq!(lines.next(), Some((3, chars("x y"))));
    assert_eq!(lines.next(), None);
}

#[test]
fn blank_lines_do_not_count_as_vertices() {
    let text = "OFF\n3 1\n0 0 0\n\n# note\n1 0 0\n   \n0 1 0\n3 0 1 2\n";
    let document = parse(text, ParserOptions::default()).unwrap();
    assert_eq!(document.vertices().len(), 3);
    assert_eq!(document.face_refs().len(), 1);
}

#[test]
fn magic_with_trailing_characters_is_refused() {
    let err = parse("OFFX\n0 0\n", ParserOptions::default()).unwrap_err();
    assert_eq!(err.kind(), ErrorKind::InvalidMagic);
    assert_eq!(err.line_index(), 0);
}

#[test]
fn magic_is_optional() {
    let document = parse("1 0\n1 2 3\n", ParserOptions::default()).unwrap();
    assert_eq!(document.vertices().len(), 1);
    assert_eq!(document.edge_count(), None);
}

#[test]
fn empty_text_is_refused() {
    let err = parse("  \n# nothing\n", ParserOptions::default()).unwrap_err();
    assert_eq!(err.kind(), ErrorKind::Empty);
    assert_eq!(err.line_index(), 0);
}

#[test]
fn counts_decide_edge_count() {
    let two = parse("OFF\n0 0\n", ParserOptions::default()).unwrap();
    assert_eq!(two.edge_count(), None);
    let three = parse("OFF\n0 0 7\n", ParserOptions::default()).unwrap();
    assert_eq!(three.edge_count(), Some(7));
    let one = parse("OFF\n5\n", ParserOptions::default()).unwrap_err();
    assert_eq!(one.kind(), ErrorKind::InvalidCounts);
    assert_eq!(one.line_index(), 1);
    let four = parse("OFF\n0 0 0 0\n", ParserOptions::default()).unwrap_err();
    assert_eq!(four.kind(), ErrorKind::InvalidCounts);
    let bad = parse("OFF\n1 x\n", ParserOptions::default()).unwrap_err();
    assert_eq!(bad.kind(), ErrorKind::InvalidCounts);
}

#[test]
fn missing_counts_line() {
    let err = parse("OFF\n", ParserOptions::default()).unwrap_err();
    assert_eq!(err.kind(), ErrorKind::Missing);
}

#[test]
fn vertex_limit_is_checked_before_vertex_lines() {
    let err = parse("OFF\n3000 1\n", ParserOptions::default()).unwrap_err();
    assert_eq!(err.kind(), ErrorKind::LimitExceeded);
    assert_eq!(err.line_index(), 1);
    let faces = parse("OFF\n1 5000\n", ParserOptions::default()).unwrap_err();
    assert_eq!(faces.kind(), ErrorKind::LimitExceeded);
    let limits = Limits { vertex_count: 2, face_count: 1, face_vertex_count: 3 };
    let small = parse("3 0\nnot a vertex\n", ParserOptions { color_format: Any, limits })
        .unwrap_err();
    assert_eq!(small.kind(), ErrorKind::LimitExceeded);
}

#[test]
fn face_limit_is_checked_before_indices() {
    let limits = Limits { vertex_count: 10, face_count: 10, face_vertex_count: 3 };
    let text = "OFF\n4 1\n0 0 0\n1 0 0\n1 1 0\n0 1 0\n4 0 1 2 x\n";
    let err = parse(text, ParserOptions { color_format: Any, limits }).unwrap_err();
    assert_eq!(err.kind(), ErrorKind::LimitExceeded);
    assert_eq!(err.line_index(), 6);
}

#[test]
fn face_index_out_of_declared_range() {
    let mut text = String::from("OFF\n8 1\n");
    for _ in 0..8 {
        text.push_str("0 0 0\n");
    }
    text.push_str("4 0 1 2 99\n");
    let err = parse(&text, ParserOptions::default()).unwrap_err();
    assert_eq!(err.kind(), ErrorKind::InvalidFace);
    assert_eq!(err.line_index(), 10);
}

#[test]
fn face_errors() {
    let base = "OFF\n3 1\n0 0 0\n1 0 0\n0 1 0\n";
    let missing_index = parse(&format!("{}3 0 1\n", base), ParserOptions::default()).unwrap_err();
    assert_eq!(missing_index.kind(), ErrorKind::InvalidFace);
    assert_eq!(missing_index.line_index(), 5);
    let bad_count = parse(&format!("{}three 0 1 2\n", base), ParserOptions::default())
        .unwrap_err();
    assert_eq!(bad_count.kind(), ErrorKind::InvalidFace);
    let missing_face = parse(base, ParserOptions::default()).unwrap_err();
    assert_eq!(missing_face.kind(), ErrorKind::Missing);
    let trailing = parse(&format!("{}3 0 1 2\n1 2\n", base), ParserOptions::default())
        .unwrap_err();
    assert_eq!(trailing.kind(), ErrorKind::Invalid);
    assert_eq!(trailing.line_index(), 6);
}

#[test]
fn vertex_errors() {
    let short = parse("OFF\n1 0\n1 2\n", ParserOptions::default()).unwrap_err();
    assert_eq!(short.kind(), ErrorKind::InvalidVertex);
    assert_eq!(short.line_index(), 2);
    let word = parse("OFF\n1 0\n1 2 x\n", ParserOptions::default()).unwrap_err();
    assert_eq!(word.kind(), ErrorKind::InvalidVertex);
    let long = parse("OFF\n1 0\n1 2 3 4\n", ParserOptions::default()).unwrap_err();
    assert_eq!(long.kind(), ErrorKind::InvalidVertex);
    let missing = parse("OFF\n2 0\n1 2 3\n", ParserOptions::default()).unwrap_err();
    assert_eq!(missing.kind(), ErrorKind::Missing);
    let forms = parse("OFF\n2 0\n-1.5e3 +.5 7.\ninf NaN -Infinity\n", ParserOptions::default())
        .unwrap();
    assert_eq!(forms.vertices()[0].x, chars("-1.5e3"));
    assert_eq!(forms.vertices()[1].y, chars("NaN"));
}

fn one_face(color: &str) -> String {
    format!("OFF\n3 1\n0 0 0\n1 0 0\n0 1 0\n3 0 1 2 {}\n", color)
}

fn first_color<C: ColorFormat>(
    color: &str,
    format: C,
) -> Result<Option<Color>, ErrorKind> {
    let options = ParserOptions { color_format: format, limits: Limits::default() };
    match parse(&one_face(color), options) {
        Ok(d) => Ok(d.face_refs()[0].color()),
        Err(e) => Err(e.kind()),
    }
}

#[test]
fn any_color_reads_bytes_and_fractions() {
    assert_eq!(first_color("1 2 3", Any), Ok(Some(Color::new(1, 2, 3, 255))));
    assert_eq!(first_color("0.5 1.0 0.2 0", Any), Ok(Some(Color::new(127, 255, 51, 0))));
    assert_eq!(first_color("1.5 0 0", Any), Err(ErrorKind::InvalidColor));
    assert_eq!(first_color("256 0 0", Any), Err(ErrorKind::InvalidColor));
    assert_eq!(first_color("1 2", Any), Err(ErrorKind::InvalidColor));
    assert_eq!(first_color("1 2 3 4 5", Any), Err(ErrorKind::Invalid));
}

#[test]
fn byte_colors() {
    assert_eq!(first_color("10 20 30", RgbU8), Ok(Some(Color::new(10, 20, 30, 255))));
    assert_eq!(first_color("10 20 30 40", RgbU8), Err(ErrorKind::Invalid));
    assert_eq!(first_color("0.5 20 30", RgbU8), Err(ErrorKind::InvalidColor));
    assert_eq!(first_color("10 20 30 40", RgbaU8), Ok(Some(Color::new(10, 20, 30, 40))));
    assert_eq!(first_color("10 20 30", RgbaU8), Err(ErrorKind::InvalidColor));
}

#[test]
fn fraction_colors() {
    assert_eq!(first_color("0.1 0.3 0.6", RgbF32), Ok(Some(Color::new(25, 76, 153, 255))));
    assert_eq!(first_color("1.1 0 0", RgbF32), Err(ErrorKind::InvalidColor));
    assert_eq!(first_color("-0.5 0 0", RgbF32), Err(ErrorKind::InvalidColor));
    assert_eq!(first_color("-0.0 .5 1.", RgbF32), Ok(Some(Color::new(0, 127, 255, 255))));
    assert_eq!(first_color("0 0 0 0.75", RgbaF32), Ok(Some(Color::new(0, 0, 0, 191))));
    assert_eq!(first_color("0 0 0", RgbaF32), Err(ErrorKind::InvalidColor));
}

#[test]
fn no_color_passes_over_color_words() {
    assert_eq!(first_color("1 2 3 4 5", NoColor), Ok(None));
    assert_eq!(first_color("", Any), Ok(None));
}

#[test]
fn builder_documents_validate() {
    let built = Document::build()
        .add_vertex(Vertex::new("5", "5", "5"))
        .add_face(
            vec![Vertex::new("0", "0", "0"), Vertex::new("1", "0", "0"), Vertex::new("0", "1", "0")],
            Some(Color::new(1, 2, 3, 4)),
        )
        .set_edge_count(Some(3))
        .finish();
    assert_eq!(built.vertices().len(), 4);
    assert_eq!(built.face_refs()[0].vertex_refs(), &vec![VertexRef(1), VertexRef(2), VertexRef(3)]);
    assert_eq!(built.edge_count(), Some(3));
    let again = Document::new(built.vertices().clone(), built.face_refs().clone(), Some(3));
    assert!(again.validate().is_ok());
    let resolved = built.resolve(0);
    assert_eq!(resolved.vertices[1], &Vertex::new("1", "0", "0"));
    assert_eq!(resolved.color, Some(&Color::new(1, 2, 3, 4)));
}

#[test]
fn validation_names_first_bad_index() {
    let vertices = vec![Vertex::new("0", "0", "0"), Vertex::new("1", "0", "0")];
    let faces = vec![
        FaceRef { vertex_refs: vec![VertexRef(0), VertexRef(1)], color: None },
        FaceRef { vertex_refs: vec![VertexRef(1), VertexRef(7), VertexRef(2)], color: None },
    ];
    let err = Document::new(vertices, faces, None).validate().unwrap_err();
    assert_eq!(err, ValidationError(7));
}

#[test]
fn original_module_paths() {
    let built: Document<onoff::document::Checked> =
        onoff::document::CheckedDocumentBuilder::new().add_vertex(Vertex::new("1", "2", "3")).finish();
    let mut faces: onoff::iter::FaceIter = built.face_iter();
    assert!(faces.next().is_none());
}

#[test]
fn fraction_colors_with_exponent() {
    assert_eq!(first_color("5e-1 0 0", RgbF32), Ok(Some(Color::new(127, 0, 0, 255))));
    assert_eq!(first_color("5e-1 1E0 0.05e1", Any), Ok(Some(Color::new(127, 255, 127, 255))));
    assert_eq!(first_color("100e-2 1e-5 -0e3 2.5E-1", RgbaF32), Ok(Some(Color::new(255, 0, 0, 63))));
    assert_eq!(first_color("1e1 0 0", RgbF32), Err(ErrorKind::InvalidColor));
    assert_eq!(first_color("0.01e2 0 0", RgbF32), Ok(Some(Color::new(255, 0, 0, 255))));
    assert_eq!(first_color("0.0101e2 0 0", RgbF32), Err(ErrorKind::InvalidColor));
    assert_eq!(first_color("1e-99999999999999999999999999999999 0 0", RgbF32), Ok(Some(Color::new(0, 0, 0, 255))));
    assert_eq!(first_color("1e99999999999999999999999999999999 0 0", RgbF32), Err(ErrorKind::InvalidColor));
}

fn word_list(text: &str) -> Vec<Vec<char>> {
    text.split_whitespace().map(|w| w.chars().collect()).collect()
}

#[test]
fn color_error_variants() {
    assert!(matches!(RgbF32::try_parse(&word_list("x 0 0")), Err(ColorError::FailedToParse(_))));
    assert!(matches!(RgbF32::try_parse(&word_list("1.5 0 0")), Err(ColorError::FromF32(_))));
    assert!(matches!(RgbF32::try_parse(&word_list("1.5 x 0")), Err(ColorError::FailedToParse(_))));
    assert!(matches!(RgbaF32::try_parse(&word_list("0 0 0")), Err(ColorError::FailedToParse(_))));
    assert!(matches!(RgbU8::try_parse(&word_list("256 0 0")), Err(ColorError::FailedToParse(_))));
    assert!(matches!(Any::try_parse(&word_list("2.0 0 0")), Err(ColorError::FailedToParse(_))));
    assert_eq!(RgbU8::try_parse(&word_list("1 2 3 4")), Ok((Some(Color::new(1, 2, 3, 255)), 3)));
}

fn message_of(text: &str) -> String {
    parse(text, ParserOptions::default()).unwrap_err().message().clone().unwrap()
}

#[test]
fn error_messages_carry_details() {
    assert_eq!(message_of("OFF\n3000 1\n"), "Vertex count exceeds limit (limit: 2048, requested: 3000)");
    assert_eq!(message_of("OFF\n1 5000\n"), "Face count exceeds limit (limit: 4096, requested: 5000)");
    assert_eq!(message_of("OFF\n0 0 0 0 0\n"), "Invalid number of counts given (expected: 2-3, actual: 4)");
    assert_eq!(message_of("OFF\n1 0\n1 2\n"), "Invalid number of coordinates given (expected: 3, actual: 2)");
    assert_eq!(message_of("OFF\n1 1\n0 0 0\n3 0 0 12\n"), "Vertex index out of bounds (12/1)");
    assert_eq!(
        message_of("OFF\n1 1\n0 0 0\n130 0\n"),
        "Vertex count of face exceeds limit (limit: 128, requested: 130)"
    );
    assert_eq!(message_of("OFF\n1 1\n0 0 0\n1 0 9 x 9\n"), "color element could not be parsed");
}

#[test]
fn error_constructors_keep_message() {
    let with = Error::with_message(ErrorKind::Invalid, 3, "x");
    assert_eq!(with.message(), &Some(String::from("x")));
    assert_eq!(with.line_index(), 3);
    let without = Error::without_message(ErrorKind::Missing, 2);
    assert_eq!(without.message(), &None);
    assert_eq!(without.kind(), ErrorKind::Missing);
    let given = Error::new(ErrorKind::Empty, 0, Some(String::from("y")));
    assert_eq!(given.message(), &Some(String::from("y")));
}
