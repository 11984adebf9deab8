use voxel_world::{Dimension3, GPUFormat, ParseError, ParseReason, Space, Voxel};

fn shape(x: usize, y: usize, z: usize) -> Dimension3 {
    Dimension3 { x, y, z }
}

#[test]
fn two_records_and_a_comment() {
    let src = b"10 10 10 ff0000\n# comment\n11 10 10 00ff00\n";
    let sh = shape(12, 11, 11);
    let s = Space::from_gox(sh, src).unwrap();
    for z in 0..sh.z {
        for y in 0..sh.y {
            for x in 0..sh.x {
                let expected = if (x, y, z) == (10, 10, 10) {
                    Voxel::Red
                } else if (x, y, z) == (11, 10, 10) {
                    Voxel::Green
                } else {
                    Voxel::Empty
                };
                assert_eq!(s.voxels.get(x, y, z), Ok(expected));
                let occ = if expected == Voxel::Empty { 1 } else { 0 };
                assert_eq!(s.sdf.get(x, y, z), Ok(occ));
            }
        }
    }
}

#[test]
fn non_numeric_coordinate_is_reported_with_its_line() {
    let src = b"1 2 zz0000";
    let r = Space::from_gox(shape(4, 4, 4), src);
    assert_eq!(
        r.err().unwrap(),
        ParseError { line: 1, reason: ParseReason::NonNumericCoordinate }
    );
}

#[test]
fn first_bad_line_wins() {
    let src = b"1 1 1 ff0000\n1 2 zz0000\n9 9 9 gg0000\n";
    let r = Space::from_gox(shape(4, 4, 4), src);
    assert_eq!(
        r.err().unwrap(),
        ParseError { line: 2, reason: ParseReason::NonNumericCoordinate }
    );
}

#[test]
fn empty_line_has_too_few_tokens() {
    let src = b"0 0 0 ff0000\n\n";
    let r = Space::from_gox(shape(4, 4, 4), src);
    assert_eq!(
        r.err().unwrap(),
        ParseError { line: 2, reason: ParseReason::WrongTokenCount }
    );
}

#[test]
fn fifth_token_is_rejected() {
    let src = b"0 0 0 ff0000 extra";
    let r = Space::from_gox(shape(4, 4, 4), src);
    assert_eq!(
        r.err().unwrap(),
        ParseError { line: 1, reason: ParseReason::WrongTokenCount }
    );
}

#[test]
fn short_hex_color_is_rejected() {
    let src = b"0 0 0 ff00";
    let r = Space::from_gox(shape(4, 4, 4), src);
    assert_eq!(r.err().unwrap(), ParseError { line: 1, reason: ParseReason::NonHexColor });
}

#[test]
fn non_hex_digit_in_color_is_rejected() {
    let src = b"0 0 0 gg0000";
    let r = Space::from_gox(shape(4, 4, 4), src);
    assert_eq!(r.err().unwrap(), ParseError { line: 1, reason: ParseReason::NonHexColor });
}

#[test]
fn coordinate_past_the_shape_is_rejected() {
    let src = b"9 0 0 ff0000";
    let r = Space::from_gox(shape(4, 4, 4), src);
    assert_eq!(
        r.err().unwrap(),
        ParseError { line: 1, reason: ParseReason::CoordinateOutOfRange }
    );
}

#[test]
fn huge_coordinate_is_out_of_range() {
    let src = b"99999999999999999999999999 0 0 ff0000";
    let r = Space::from_gox(shape(4, 4, 4), src);
    assert_eq!(
        r.err().unwrap(),
        ParseError { line: 1, reason: ParseReason::CoordinateOutOfRange }
    );
}

#[test]
fn signed_coordinate_is_not_numeric() {
    let src = b"-1 0 0 ff0000";
    let r = Space::from_gox(shape(4, 4, 4), src);
    assert_eq!(
        r.err().unwrap(),
        ParseError { line: 1, reason: ParseReason::NonNumericCoordinate }
    );
}

#[test]
fn comment_marker_after_whitespace_is_not_a_comment() {
    // only a line whose first byte is '#' is a comment
    let src = b" # note";
    let r = Space::from_gox(shape(4, 4, 4), src);
    assert_eq!(
        r.err().unwrap(),
        ParseError { line: 1, reason: ParseReason::NonNumericCoordinate }
    );
}

#[test]
fn later_record_overwrites_earlier_cell() {
    let src = b"1 1 1 ff0000\n1 1 1 0000ff\n";
    let s = Space::from_gox(shape(4, 4, 4), src).unwrap();
    assert_eq!(s.voxels.get(1, 1, 1), Ok(Voxel::Blue));
}

#[test]
fn hex_digits_may_be_upper_case() {
    let src = b"1 1 1 FF0000";
    let s = Space::from_gox(shape(4, 4, 4), src).unwrap();
    assert_eq!(s.voxels.get(1, 1, 1), Ok(Voxel::Red));
}

#[test]
fn non_primary_color_loads_as_empty() {
    let src = b"1 1 1 ffffff";
    let s = Space::from_gox(shape(4, 4, 4), src).unwrap();
    assert_eq!(s.voxels.get(1, 1, 1), Ok(Voxel::Empty));
    assert_eq!(s.sdf.get(1, 1, 1), Ok(1));
}

#[test]
fn tabs_and_carriage_returns_separate_tokens() {
    let src = b"1\t1 1 ff0000\r\n2 2 2 0000ff\r\n";
    let s = Space::from_gox(shape(4, 4, 4), src).unwrap();
    assert_eq!(s.voxels.get(1, 1, 1), Ok(Voxel::Red));
    assert_eq!(s.voxels.get(2, 2, 2), Ok(Voxel::Blue));
}

#[test]
fn empty_file_loads_an_empty_world() {
    let s = Space::from_gox(shape(3, 3, 3), b"").unwrap();
    for z in 0..3 {
        for y in 0..3 {
            for x in 0..3 {
                assert_eq!(s.voxels.get(x, y, z), Ok(Voxel::Empty));
                assert_eq!(s.sdf.get(x, y, z), Ok(1));
            }
        }
    }
}

#[test]
fn loaded_grid_bytes_roundtrip_through_gpu_format() {
    // byte i of the converted grid is the canonical id of the voxel
    // whose linear index is i
    let src = b"10 10 10 ff0000\n# comment\n11 10 10 00ff00\n";
    let sh = shape(12, 11, 11);
    let s = Space::from_gox(sh, src).unwrap();
    let bytes = s.voxels.gpu_format();
    assert_eq!(bytes.len(), 12 * 11 * 11);
    for i in 0..bytes.len() {
        assert_eq!(bytes[i], s.voxels.grid()[i].id());
    }
    assert_eq!(bytes[10 + 12 * (10 + 11 * 10)], 1);
    assert_eq!(bytes[11 + 12 * (10 + 11 * 10)], 3);
}
