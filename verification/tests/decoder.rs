use wgpu_layers::codec::{command_id, command_integer, encode_ring, zigzag_decode, zigzag_encode};
use wgpu_layers::decode::{parse_geometry, GeomType};
use wgpu_layers::error::Error;
use wgpu_layers::geom::{shoelace_formula, Coordinate, Geometry, GeometryCollection};

fn c(x: i32, y: i32) -> Coordinate {
    Coordinate { x, y }
}

#[test]
fn zigzag_small_values() {
    assert_eq!(zigzag_decode(0), 0);
    assert_eq!(zigzag_decode(1), -1);
    assert_eq!(zigzag_decode(2), 1);
    assert_eq!(zigzag_decode(3), -2);
    assert_eq!(zigzag_encode(0), 0);
    assert_eq!(zigzag_encode(-1), 1);
    assert_eq!(zigzag_encode(1), 2);
    assert_eq!(zigzag_encode(-2), 3);
}

#[test]
fn zigzag_extremes_round_trip() {
    for d in [i32::MIN, i32::MIN + 1, -1, 0, 1, i32::MAX - 1, i32::MAX] {
        assert_eq!(zigzag_decode(zigzag_encode(d)), d);
    }
    assert_eq!(zigzag_decode(u32::MAX), i32::MIN);
}

#[test]
fn command_integer_packs_opcode_and_count() {
    let v = command_integer(1, 1);
    assert_eq!(v, 9);
    assert_eq!(command_id(v), 1);
    let v = command_integer(2, 3);
    assert_eq!(v, 26);
    assert_eq!(command_id(15), 7);
}

#[test]
fn shoelace_sign_classifies_rings() {
    // counter-clockwise under the decoder's sign convention: positive.
    let pos = vec![c(0, 0), c(4, 0), c(4, 4)];
    assert!(shoelace_formula(&pos) > 0);
    let neg = vec![c(0, 0), c(4, 4), c(4, 0)];
    assert!(shoelace_formula(&neg) < 0);
    let degenerate = vec![c(2, 2)];
    assert_eq!(shoelace_formula(&degenerate), 0);
    let empty: Vec<Coordinate> = Vec::new();
    assert_eq!(shoelace_formula(&empty), 0);
}

// One closed positive-area ring decodes to exactly one polygon with no
// interior rings.
#[test]
fn single_positive_ring_is_one_polygon() {
    let coords = vec![c(0, 0), c(4, 0), c(4, 4)];
    let stream = encode_ring(c(0, 0), &coords);
    assert_eq!(stream, vec![9, 0, 0, 18, 8, 0, 0, 8, 15]);
    let collection = parse_geometry(&stream, GeomType::Polygon).unwrap();
    assert_eq!(collection.0.len(), 1);
    match &collection.0[0] {
        Geometry::Polygon(p) => {
            assert_eq!(p.exterior.0, vec![c(0, 0), c(4, 0), c(4, 4), c(0, 0)]);
            assert_eq!(p.interiors.len(), 0);
        }
        other => panic!("expected a polygon, found {:?}", other),
    }
}

// An exterior ring followed by negative-area rings becomes one polygon with
// every following ring attached as an interior.
#[test]
fn exterior_then_interiors_attach() {
    let exterior = vec![c(0, 0), c(10, 0), c(10, 10), c(0, 10)];
    let hole1 = vec![c(2, 2), c(2, 4), c(4, 4), c(4, 2)];
    let hole2 = vec![c(6, 6), c(6, 8), c(8, 8), c(8, 6)];
    assert!(shoelace_formula(&exterior) > 0);
    assert!(shoelace_formula(&hole1) < 0);
    assert!(shoelace_formula(&hole2) < 0);
    let mut stream = encode_ring(c(0, 0), &exterior);
    stream.extend(encode_ring(*exterior.last().unwrap(), &hole1));
    stream.extend(encode_ring(*hole1.last().unwrap(), &hole2));
    let collection = parse_geometry(&stream, GeomType::Polygon).unwrap();
    assert_eq!(collection.0.len(), 1);
    match &collection.0[0] {
        Geometry::Polygon(p) => {
            assert_eq!(p.exterior.0.len(), 5);
            assert_eq!(p.interiors.len(), 2);
            assert_eq!(p.interiors[0].0, vec![c(2, 2), c(2, 4), c(4, 4), c(4, 2), c(2, 2)]);
            assert_eq!(p.interiors[1].0, vec![c(6, 6), c(6, 8), c(8, 8), c(8, 6), c(6, 6)]);
        }
        other => panic!("expected a polygon, found {:?}", other),
    }
}

// A leading negative-area ring opens the ring set itself, so it ends up as
// the polygon's first ring.
#[test]
fn leading_interior_ring_opens_the_polygon() {
    let coords = vec![c(0, 0), c(4, 4), c(4, 0)];
    assert!(shoelace_formula(&coords) < 0);
    let stream = encode_ring(c(0, 0), &coords);
    let collection = parse_geometry(&stream, GeomType::Polygon).unwrap();
    assert_eq!(collection.0.len(), 1);
    match &collection.0[0] {
        Geometry::Polygon(p) => {
            assert_eq!(p.exterior.0, vec![c(0, 0), c(4, 4), c(4, 0), c(0, 0)]);
            assert_eq!(p.interiors.len(), 0);
        }
        other => panic!("expected a polygon, found {:?}", other),
    }
}

// Two positive rings become two polygons.
#[test]
fn two_exteriors_are_two_polygons() {
    let first = vec![c(0, 0), c(4, 0), c(4, 4)];
    let second = vec![c(20, 20), c(24, 20), c(24, 24)];
    let mut stream = encode_ring(c(0, 0), &first);
    stream.extend(encode_ring(*first.last().unwrap(), &second));
    let collection = parse_geometry(&stream, GeomType::Polygon).unwrap();
    assert_eq!(collection.0.len(), 2);
}

// Delta/zig-zag round trip: encoding known coordinates and decoding them
// back is exact, negative coordinates included.
#[test]
fn encode_decode_round_trip_is_exact() {
    let coords = vec![
        c(-3, 7),
        c(1000000, -1000000),
        c(1000001, -999999),
        c(0, 0),
        c(i32::MAX, i32::MIN),
        c(-1, 1),
    ];
    let stream = encode_ring(c(0, 0), &coords);
    let collection = parse_geometry(&stream, GeomType::Linestring).unwrap();
    match &collection.0[0] {
        Geometry::LineString(l) => {
            assert_eq!(l.0, coords);
        }
        other => panic!("expected a line string, found {:?}", other),
    }
}

// Decoding the same command stream twice yields structurally equal
// collections.
#[test]
fn decoding_twice_is_equal() {
    let coords = vec![c(0, 0), c(9, 1), c(5, 12)];
    let stream = encode_ring(c(0, 0), &coords);
    let a = parse_geometry(&stream, GeomType::Polygon).unwrap();
    let b = parse_geometry(&stream, GeomType::Polygon).unwrap();
    assert_eq!(a, b);
    let p = parse_geometry(&stream, GeomType::Point).unwrap();
    let q = parse_geometry(&stream, GeomType::Point).unwrap();
    assert_eq!(p, q);
}

#[test]
fn close_path_without_coordinates_is_malformed() {
    let stream = vec![15u32];
    assert_eq!(parse_geometry(&stream, GeomType::Polygon).unwrap_err(), Error::Decode);
}

#[test]
fn point_streams_decode_to_points() {
    // one MoveTo pair: a single point.
    let stream = vec![9u32, 8, 8];
    let collection = parse_geometry(&stream, GeomType::Point).unwrap();
    assert_eq!(collection, GeometryCollection(vec![Geometry::Point(c(4, 4))]));
    // MoveTo with two pairs: a multipoint, cursor accumulating.
    let stream = vec![17u32, 8, 8, 2, 2];
    let collection = parse_geometry(&stream, GeomType::Point).unwrap();
    assert_eq!(
        collection,
        GeometryCollection(vec![Geometry::MultiPoint(vec![c(4, 4), c(5, 5)])])
    );
}

#[test]
fn line_streams_split_at_move_to() {
    // two MoveTo/LineTo runs: a multi line string.
    let stream = vec![9u32, 0, 0, 10, 8, 0, 9, 2, 2, 10, 8, 0];
    let collection = parse_geometry(&stream, GeomType::Linestring).unwrap();
    match &collection.0[0] {
        Geometry::MultiLineString(ls) => {
            assert_eq!(ls.len(), 2);
            assert_eq!(ls[0].0, vec![c(0, 0), c(4, 0)]);
            assert_eq!(ls[1].0, vec![c(5, 1), c(9, 1)]);
        }
        other => panic!("expected a multi line string, found {:?}", other),
    }
}

#[test]
fn unknown_geometry_types_pass_through_structurally() {
    let coords = vec![c(0, 0), c(4, 0), c(4, 4)];
    let stream = encode_ring(c(0, 0), &coords);
    let as_unknown = parse_geometry(&stream, GeomType::Unknown).unwrap();
    let as_polygon = parse_geometry(&stream, GeomType::Polygon).unwrap();
    assert_eq!(as_unknown, as_polygon);
}

#[test]
fn unknown_opcodes_are_passed_over() {
    // opcode 4 is not a command this format defines; it carries no
    // parameters and decoding continues behind it.
    let coords = vec![c(0, 0), c(4, 0), c(4, 4)];
    let mut stream = vec![4u32];
    stream.extend(encode_ring(c(0, 0), &coords));
    let collection = parse_geometry(&stream, GeomType::Polygon).unwrap();
    assert_eq!(collection.0.len(), 1);
}
