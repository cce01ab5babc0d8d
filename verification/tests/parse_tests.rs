use softrender::buffer::{Image, Rgb};
use softrender::geom::Vec3;
use softrender::model::Model;
use softrender::parse::ParseError;

fn tex1() -> Image {
    Image::new(1, 1, Rgb { r: 7, g: 7, b: 7 })
}

#[test]
fn face_indices_are_one_based_in_the_file() {
    let text = b"v 0 0 0\nv 1 0 0\nv 0 1 0\nvt 0 0 0\nvt 0.5 0.5 0\nvn 0 0 1\nf 1/2/1 2/1/1 3/2/1\n";
    let m = Model::new(text, tex1()).unwrap();
    assert_eq!(m.faces.len(), 1);
    assert_eq!(m.faces[0].vertices, (0, 1, 2));
    assert_eq!(m.faces[0].textures, (1, 0, 1));
    assert_eq!(m.faces[0].normals, (0, 0, 0));
}

#[test]
fn vertex_coordinates_parse_to_fixed_point() {
    let text = b"v 1.5 -0.25 0.000001\n";
    let m = Model::new(text, tex1()).unwrap();
    assert_eq!(m.verts.len(), 1);
    assert_eq!(m.verts[0], Vec3 { x: 1_500_000, y: -250_000, z: 1 });
}

#[test]
fn fraction_beyond_six_places_truncates() {
    let text = b"v 0.1234567 1000 -1000\n";
    let m = Model::new(text, tex1()).unwrap();
    assert_eq!(m.verts[0], Vec3 { x: 123_456, y: 1_000_000_000, z: -1_000_000_000 });
}

#[test]
fn bare_fraction_and_trailing_dot_and_plus_sign() {
    let text = b"v .5 5. +2\n";
    let m = Model::new(text, tex1()).unwrap();
    assert_eq!(m.verts[0], Vec3 { x: 500_000, y: 5_000_000, z: 2_000_000 });
}

#[test]
fn texture_and_normal_lines_fill_their_arrays() {
    let text = b"vt 0.25 0.75 0\nvn 0 0 -1\nv 1 2 3\n";
    let m = Model::new(text, tex1()).unwrap();
    assert_eq!(m.texture_verts.len(), 1);
    assert_eq!(m.texture_verts[0], Vec3 { x: 250_000, y: 750_000, z: 0 });
    assert_eq!(m.normal_verts.len(), 1);
    assert_eq!(m.normal_verts[0], Vec3 { x: 0, y: 0, z: -1_000_000 });
    assert_eq!(m.verts.len(), 1);
}

#[test]
fn unknown_lines_and_blanks_are_ignored() {
    let text = b"# a comment\n\nvp 1 2 3\ng group\nv 1 1 1\n   \n";
    let m = Model::new(text, tex1()).unwrap();
    assert_eq!(m.verts.len(), 1);
    assert_eq!(m.faces.len(), 0);
}

#[test]
fn crlf_line_endings_are_accepted() {
    let text = b"v 1 0 0\r\nv 0 1 0\r\n";
    let m = Model::new(text, tex1()).unwrap();
    assert_eq!(m.verts.len(), 2);
    assert_eq!(m.verts[1], Vec3 { x: 0, y: 1_000_000, z: 0 });
}

#[test]
fn missing_final_newline_still_parses_the_last_line() {
    let text = b"v 1 0 0\nv 0 1 0";
    let m = Model::new(text, tex1()).unwrap();
    assert_eq!(m.verts.len(), 2);
}

#[test]
fn getters_mirror_the_fields() {
    let text = b"v 1 0 0\nvt 0 0 0\nvn 0 0 1\nf 1/1/1 1/1/1 1/1/1\n";
    let m = Model::new(text, tex1()).unwrap();
    assert_eq!(m.verts().len(), 1);
    assert_eq!(m.texture_verts().len(), 1);
    assert_eq!(m.normal_verts().len(), 1);
    assert_eq!(m.faces().len(), 1);
}

#[test]
fn empty_text_gives_an_empty_mesh() {
    let m = Model::new(b"", tex1()).unwrap();
    assert_eq!(m.verts.len(), 0);
    assert_eq!(m.texture_verts.len(), 0);
    assert_eq!(m.normal_verts.len(), 0);
    assert_eq!(m.faces.len(), 0);
}

#[test]
fn non_numeric_coordinate_is_a_number_error() {
    let text = b"v a b c\n";
    assert_eq!(Model::new(text, tex1()).unwrap_err(), ParseError::MalformedNumber);
}

#[test]
fn missing_coordinate_is_a_number_error() {
    let text = b"v 1 2\n";
    assert_eq!(Model::new(text, tex1()).unwrap_err(), ParseError::MalformedNumber);
}

#[test]
fn coordinate_out_of_range_is_a_number_error() {
    let text = b"v 1000.000001 0 0\n";
    assert_eq!(Model::new(text, tex1()).unwrap_err(), ParseError::MalformedNumber);
}

#[test]
fn face_with_two_corners_is_a_face_error() {
    let text = b"v 0 0 0\nvt 0 0 0\nvn 0 0 1\nf 1/1/1 1/1/1\n";
    assert_eq!(Model::new(text, tex1()).unwrap_err(), ParseError::MalformedFace);
}

#[test]
fn face_with_four_corners_is_a_face_error() {
    let text = b"v 0 0 0\nvt 0 0 0\nvn 0 0 1\nf 1/1/1 1/1/1 1/1/1 1/1/1\n";
    assert_eq!(Model::new(text, tex1()).unwrap_err(), ParseError::MalformedFace);
}

#[test]
fn corner_without_three_indices_is_a_face_error() {
    let text = b"v 0 0 0\nvt 0 0 0\nvn 0 0 1\nf 1/1 1/1/1 1/1/1\n";
    assert_eq!(Model::new(text, tex1()).unwrap_err(), ParseError::MalformedFace);
}

#[test]
fn corner_index_zero_is_a_face_error() {
    let text = b"v 0 0 0\nvt 0 0 0\nvn 0 0 1\nf 0/1/1 1/1/1 1/1/1\n";
    assert_eq!(Model::new(text, tex1()).unwrap_err(), ParseError::MalformedFace);
}

#[test]
fn face_referring_past_the_arrays_is_an_index_error() {
    let text = b"v 0 0 0\nvt 0 0 0\nvn 0 0 1\nf 1/1/1 2/1/1 1/1/1\n";
    assert_eq!(Model::new(text, tex1()).unwrap_err(), ParseError::FaceIndexOutOfRange);
}

#[test]
fn first_error_in_the_file_wins() {
    let text = b"v x 0 0\nf 1/1 2 3\n";
    assert_eq!(Model::new(text, tex1()).unwrap_err(), ParseError::MalformedNumber);
}
