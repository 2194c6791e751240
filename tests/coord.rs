use fc5_tool::coord::{make_absolute, make_absolute_all, make_relative, Coord, CoordError, ParseError};
use fc5_tool::text::{parse_i64, split_fields};

fn c(x: i64, z: i64) -> Coord<i64> {
    Coord { x, z }
}

#[test]
fn chunk_to_region_floors_negative_coordinates() {
    assert_eq!(c(-1, -1).chunk_to_region(), c(-1, -1));
    assert_eq!(c(0, 31).chunk_to_region(), c(0, 0));
    assert_eq!(c(32, -32).chunk_to_region(), c(1, -1));
    assert_eq!(c(-33, 63).chunk_to_region(), c(-2, 1));
    assert_eq!(c(i64::MIN, i64::MAX).chunk_to_region(), c(i64::MIN / 32, i64::MAX / 32));
}

#[test]
fn chunk_to_region_is_monotonic_on_examples() {
    let xs = [-100i64, -33, -32, -31, -1, 0, 1, 31, 32, 100];
    for w in xs.windows(2) {
        assert!(c(w[0], 0).chunk_to_region().x <= c(w[1], 0).chunk_to_region().x);
    }
}

#[test]
fn block_to_chunk_floors() {
    assert_eq!(c(-1, 15).block_to_chunk(), c(-1, 0));
    assert_eq!(c(16, -17).block_to_chunk(), c(1, -2));
}

#[test]
fn checked_arithmetic() {
    assert_eq!(c(3, -4).checked_mul(32), Ok(c(96, -128)));
    assert_eq!(c(i64::MAX, 0).checked_mul(2), Err(CoordError::OutOfRange));
    assert_eq!(c(1, 2).checked_add(c(10, 20)), Ok(c(11, 22)));
    assert_eq!(c(0, i64::MAX).checked_add(c(0, 1)), Err(CoordError::OutOfRange));
    assert_eq!(c(1, 2).checked_sub(c(10, 20)), Ok(c(-9, -18)));
    assert_eq!(c(i64::MIN, 0).checked_sub(c(1, 0)), Err(CoordError::OutOfRange));
}

#[test]
fn signed_and_unsigned_conversions() {
    assert_eq!(c(5, 7).to_unsigned(), Ok(Coord { x: 5usize, z: 7usize }));
    assert_eq!(c(-1, 7).to_unsigned(), Err(CoordError::OutOfRange));
    assert_eq!(Coord { x: 5usize, z: 7usize }.to_signed(), Ok(c(5, 7)));
    assert_eq!(Coord { x: usize::MAX, z: 0usize }.to_signed(), Err(CoordError::OutOfRange));
}

#[test]
fn relative_and_absolute_round_trip() {
    let region = c(-1, 2);
    let abs = c(-30, 70);
    let rel = make_relative(region, abs).unwrap();
    assert_eq!(rel, Coord { x: 2usize, z: 6usize });
    assert_eq!(make_absolute(region, rel), Ok(abs));
    assert_eq!(make_relative(region, make_absolute(region, rel).unwrap()), Ok(rel));
}

#[test]
fn relative_outside_span_fails() {
    assert_eq!(make_relative(c(0, 0), c(-1, 0)), Err(CoordError::OutOfRange));
    assert_eq!(make_relative(c(0, 0), c(32, 0)), Err(CoordError::NotInRegion));
    assert_eq!(make_relative(c(i64::MAX, 0), c(0, 0)), Err(CoordError::OutOfRange));
    assert_eq!(make_absolute(c(0, 0), Coord { x: 32usize, z: 0usize }), Ok(c(32, 0)));
    assert_eq!(make_absolute(c(0, 0), Coord { x: 100usize, z: 0usize }), Ok(c(100, 0)));
    assert_eq!(make_absolute(c(0, 0), Coord { x: usize::MAX, z: 0usize }), Err(CoordError::OutOfRange));
    assert_eq!(make_absolute(c(i64::MAX, 0), Coord { x: 0usize, z: 0usize }), Err(CoordError::OutOfRange));
}

#[test]
fn region_file_names() {
    assert_eq!(Coord::from_region_file("r.-1.2.mca"), Ok(c(-1, 2)));
    assert_eq!(Coord::from_region_file("r.0.0.mca"), Ok(c(0, 0)));
    assert_eq!(Coord::from_region_file("x.0.0.mca"), Err(ParseError::MissingPrefix));
    assert_eq!(Coord::from_region_file("r"), Err(ParseError::BadX));
    assert_eq!(Coord::from_region_file("r.a.0.mca"), Err(ParseError::BadX));
    assert_eq!(Coord::from_region_file("r.0"), Err(ParseError::BadZ));
    assert_eq!(Coord::from_region_file("r.0..mca"), Err(ParseError::BadZ));
    assert_eq!(Coord::from_region_file("r.0.0"), Err(ParseError::MissingSuffix));
    assert_eq!(Coord::from_region_file("r.0.0.mcc"), Err(ParseError::MissingSuffix));
    assert_eq!(Coord::from_region_file("r.0.0.mca.bak"), Err(ParseError::ExtraData));
    assert_eq!(ParseError::MissingPrefix.message(), "missing `r` segment");
    assert_eq!(ParseError::BadX.message(), "reading x coordinate");
    assert_eq!(ParseError::BadZ.message(), "reading z coordinate");
    assert_eq!(ParseError::MissingSuffix.message(), "missing `mca` segment");
    assert_eq!(ParseError::ExtraData.message(), "extra data");
}

#[test]
fn region_file_name_round_trip() {
    for coord in [c(0, 0), c(-1, 2), c(123, -4567), c(i64::MIN, i64::MAX)] {
        let name = String::from_utf8(coord.region_file_name()).unwrap();
        assert_eq!(Coord::from_region_file(&name), Ok(coord));
    }
    assert_eq!(c(-1, 20).region_file_name(), b"r.-1.20.mca".to_vec());
}

#[test]
fn coordinate_pairs() {
    assert_eq!(Coord::from_str("3,-4"), Ok(c(3, -4)));
    assert_eq!(Coord::from_str("+3,4"), Ok(c(3, 4)));
    assert_eq!(Coord::from_str(""), Err(ParseError::BadX));
    assert_eq!(Coord::from_str("3"), Err(ParseError::BadZ));
    assert_eq!(Coord::from_str("3,x"), Err(ParseError::BadZ));
    assert_eq!(Coord::from_str("3,4,5"), Err(ParseError::ExtraData));
}

#[test]
fn decimal_parsing() {
    assert_eq!(parse_i64(b"0"), Some(0));
    assert_eq!(parse_i64(b"-17"), Some(-17));
    assert_eq!(parse_i64(b"+17"), Some(17));
    assert_eq!(parse_i64(b"9223372036854775807"), Some(i64::MAX));
    assert_eq!(parse_i64(b"-9223372036854775808"), Some(i64::MIN));
    assert_eq!(parse_i64(b"9223372036854775808"), None);
    assert_eq!(parse_i64(b"-9223372036854775809"), None);
    assert_eq!(parse_i64(b""), None);
    assert_eq!(parse_i64(b"-"), None);
    assert_eq!(parse_i64(b"+"), None);
    assert_eq!(parse_i64(b" 1"), None);
    assert_eq!(parse_i64(b"1a"), None);
}

#[test]
fn splitting_fields() {
    let parts = split_fields(b"r..x.", b'.');
    assert_eq!(parts, vec![b"r".to_vec(), vec![], b"x".to_vec(), vec![]]);
    assert_eq!(split_fields(b"", b'.'), vec![Vec::<u8>::new()]);
}

#[test]
fn absolute_lists() {
    let rel = vec![Coord { x: 0usize, z: 0usize }, Coord { x: 31usize, z: 5usize }];
    assert_eq!(make_absolute_all(c(-1, 1), &rel), Ok(vec![c(-32, 32), c(-1, 37)]));
    let far = vec![Coord { x: 0usize, z: 0usize }, Coord { x: 40usize, z: 0usize }];
    assert_eq!(make_absolute_all(c(0, 0), &far), Ok(vec![c(0, 0), c(40, 0)]));
    let bad = vec![Coord { x: 0usize, z: 0usize }, Coord { x: 0usize, z: 1usize }];
    assert_eq!(make_absolute_all(c(0, i64::MAX), &bad), Err(CoordError::OutOfRange));
    assert_eq!(make_absolute_all(c(0, 0), &Vec::new()), Ok(Vec::new()));
}
