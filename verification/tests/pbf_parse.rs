use wgpu_layers::error::Error;
use wgpu_layers::pbf::read_varint;
use wgpu_layers::fill::{flatten_polygon, TileBuffers};
use wgpu_layers::geom::Geometry;
use wgpu_layers::parser::Parser;
use wgpu_layers::tags::TagValue;

fn varint(mut v: u64, out: &mut Vec<u8>) {
    loop {
        let b = (v & 0x7f) as u8;
        v >>= 7;
        if v == 0 {
            out.push(b);
            break;
        }
        out.push(b | 0x80);
    }
}

fn field(num: u64, wire: u64, out: &mut Vec<u8>) {
    varint(num << 3 | wire, out);
}

fn bytes_field(num: u64, data: &[u8], out: &mut Vec<u8>) {
    field(num, 2, out);
    varint(data.len() as u64, out);
    out.extend_from_slice(data);
}

fn varint_field(num: u64, v: u64, out: &mut Vec<u8>) {
    field(num, 0, out);
    varint(v, out);
}

fn packed_field(num: u64, values: &[u32], out: &mut Vec<u8>) {
    let mut body: Vec<u8> = Vec::new();
    for &v in values {
        varint(v as u64, &mut body);
    }
    bytes_field(num, &body, out);
}

/// The command stream of one triangle with positive signed area.
fn triangle_geometry() -> Vec<u32> {
    // MoveTo (0,0); LineTo (4,0), (4,4); ClosePath.
    vec![9, 0, 0, 18, 8, 0, 0, 8, 15]
}

fn feature_bytes(tags: &[u32], geom_type: u64, geometry: &[u32]) -> Vec<u8> {
    let mut f: Vec<u8> = Vec::new();
    if !tags.is_empty() {
        packed_field(2, tags, &mut f);
    }
    varint_field(3, geom_type, &mut f);
    packed_field(4, geometry, &mut f);
    f
}

fn layer_bytes(name: &str, version: u64, features: &[Vec<u8>], keys: &[&str], values: &[Vec<u8>]) -> Vec<u8> {
    let mut l: Vec<u8> = Vec::new();
    varint_field(15, version, &mut l);
    bytes_field(1, name.as_bytes(), &mut l);
    for f in features {
        bytes_field(2, f, &mut l);
    }
    for k in keys {
        bytes_field(3, k.as_bytes(), &mut l);
    }
    for v in values {
        bytes_field(4, v, &mut l);
    }
    varint_field(5, 4096, &mut l);
    l
}

fn tile_bytes(layers: &[Vec<u8>]) -> Vec<u8> {
    let mut t: Vec<u8> = Vec::new();
    for l in layers {
        bytes_field(3, l, &mut t);
    }
    t
}

fn string_value_bytes(s: &str) -> Vec<u8> {
    let mut v: Vec<u8> = Vec::new();
    bytes_field(1, s.as_bytes(), &mut v);
    v
}

// A tile payload with layer "land" holding one triangular polygon feature
// runs through the whole pipeline: the tile's vertex buffer holds exactly 6
// values and its index buffer is exactly [0, 1, 2].
#[test]
fn triangle_payload_fills_one_tile() {
    let feature = feature_bytes(&[], 3, &triangle_geometry());
    let layer = layer_bytes("land", 2, &[feature], &[], &[]);
    let payload = tile_bytes(&[layer]);

    let parser = Parser::new(payload).unwrap();
    assert_eq!(parser.get_layer_names(), vec![String::from("land")]);

    let features = parser.get_features(0).unwrap().unwrap();
    assert_eq!(features.len(), 1);
    let polygon = match &features[0].geometry.0[0] {
        Geometry::Polygon(p) => p,
        other => panic!("expected a polygon, found {:?}", other),
    };

    let (vertices, holes) = flatten_polygon(polygon);
    assert_eq!(vertices, vec![0, 0, 4, 0, 4, 4]);
    assert_eq!(holes, Vec::<usize>::new());

    let flat: Vec<f64> = vertices.iter().map(|&v| v as f64).collect();
    let triangles = earcutr::earcut(&flat, &holes, 2).unwrap();

    let mut buffers = TileBuffers::new();
    buffers.add_triangulation(&vertices, &triangles).unwrap();
    assert_eq!(buffers.vertices.len(), 6);
    // one triangle over the three vertices; the triangulator begins its ear
    // scan at the ring's last vertex, so the triangle comes out rotated.
    assert_eq!(buffers.indices.len(), 3);
    let mut sorted = buffers.indices.clone();
    sorted.sort();
    assert_eq!(sorted, vec![0, 1, 2]);
    assert_eq!(buffers.indices, vec![1, 2, 0]);
}

// A feature with tags [99, 0] against a single-key dictionary raises
// TagIndexOutOfRange for that feature alone; the remaining features keep
// going.
#[test]
fn bad_tag_index_drops_only_that_feature() {
    let bad = feature_bytes(&[99, 0], 3, &triangle_geometry());
    let good = feature_bytes(&[0, 0], 3, &triangle_geometry());
    let layer = layer_bytes(
        "land",
        2,
        &[bad, good],
        &["kind"],
        &[string_value_bytes("wood")],
    );
    let payload = tile_bytes(&[layer]);

    let parser = Parser::new(payload).unwrap();
    let features = parser.get_features(0).unwrap().unwrap();
    assert_eq!(features.len(), 1);
    let props = features[0].properties.as_ref().unwrap();
    assert_eq!(props.get(&String::from("kind")), Some(&TagValue::Text(String::from("wood"))));
}

#[test]
fn unsupported_layer_versions_are_passed_over() {
    let l1 = layer_bytes("ok1", 1, &[], &[], &[]);
    let l3 = layer_bytes("new", 3, &[], &[], &[]);
    let l2 = layer_bytes("ok2", 2, &[], &[], &[]);
    let payload = tile_bytes(&[l1, l3, l2]);
    let parser = Parser::new(payload).unwrap();
    assert_eq!(
        parser.get_layer_names(),
        vec![String::from("ok1"), String::from("ok2")]
    );
    // the supported indices line up with the filtered names: the middle
    // layer is passed over, the third keeps its payload index.
    assert_eq!(parser.supported_layers(), vec![0, 2]);
}

#[test]
fn ingestion_decodes_the_supported_layers_by_index() {
    let feature = feature_bytes(&[], 3, &triangle_geometry());
    let skipped = layer_bytes("future", 9, &[feature_bytes(&[], 3, &triangle_geometry())], &[], &[]);
    let kept = layer_bytes("land", 2, &[feature], &[], &[]);
    let parser = Parser::new(tile_bytes(&[skipped, kept])).unwrap();
    let indices = parser.supported_layers();
    assert_eq!(indices, vec![1]);
    let features = parser.get_features(indices[0]).unwrap().unwrap();
    assert_eq!(features.len(), 1);
}

#[test]
fn get_features_is_none_past_the_layers() {
    let layer = layer_bytes("only", 2, &[], &[], &[]);
    let parser = Parser::new(tile_bytes(&[layer])).unwrap();
    assert!(parser.get_features(0).is_some());
    assert!(parser.get_features(1).is_none());
}

#[test]
fn features_without_a_type_are_passed_over() {
    let mut f: Vec<u8> = Vec::new();
    packed_field(4, &triangle_geometry(), &mut f);
    let layer = layer_bytes("land", 2, &[f], &[], &[]);
    let parser = Parser::new(tile_bytes(&[layer])).unwrap();
    let features = parser.get_features(0).unwrap().unwrap();
    assert_eq!(features.len(), 0);
}

#[test]
fn malformed_geometry_fails_the_layer() {
    // a lone ClosePath with nothing to close.
    let f = feature_bytes(&[], 3, &[15]);
    let layer = layer_bytes("land", 2, &[f], &[], &[]);
    let parser = Parser::new(tile_bytes(&[layer])).unwrap();
    assert_eq!(parser.get_features(0).unwrap().unwrap_err(), Error::Decode);
}

#[test]
fn truncated_payload_is_a_decode_error() {
    let layer = layer_bytes("land", 2, &[], &[], &[]);
    let mut payload = tile_bytes(&[layer]);
    payload.pop();
    assert_eq!(Parser::new(payload).unwrap_err(), Error::Decode);
}

#[test]
fn unknown_fields_are_skipped() {
    let layer = layer_bytes("land", 2, &[], &[], &[]);
    let mut payload: Vec<u8> = Vec::new();
    // an unknown varint field and an unknown fixed32 field before the layer.
    varint_field(9, 77, &mut payload);
    field(8, 5, &mut payload);
    payload.extend_from_slice(&[1, 2, 3, 4]);
    bytes_field(3, &layer, &mut payload);
    let parser = Parser::new(payload).unwrap();
    assert_eq!(parser.get_layer_names(), vec![String::from("land")]);
}

#[test]
fn value_kinds_parse_and_stringify() {
    // int, uint, sint, bool, float, double dictionary values.
    let mut int_v: Vec<u8> = Vec::new();
    varint_field(4, (-5i64) as u64, &mut int_v);
    let mut uint_v: Vec<u8> = Vec::new();
    varint_field(5, 7, &mut uint_v);
    let mut sint_v: Vec<u8> = Vec::new();
    varint_field(6, 9, &mut sint_v);  // zig-zag for -5
    let mut bool_v: Vec<u8> = Vec::new();
    varint_field(7, 1, &mut bool_v);
    let mut float_v: Vec<u8> = Vec::new();
    field(2, 5, &mut float_v);
    float_v.extend_from_slice(&1.5f32.to_le_bits_vec());
    let mut double_v: Vec<u8> = Vec::new();
    field(3, 1, &mut double_v);
    double_v.extend_from_slice(&2.5f64.to_le_bits_vec());

    let tags: Vec<u32> = vec![0, 0, 1, 1, 2, 2, 3, 3, 4, 4, 5, 5];
    let feature = feature_bytes(&tags, 3, &triangle_geometry());
    let layer = layer_bytes(
        "land",
        2,
        &[feature],
        &["a", "b", "c", "d", "e", "f"],
        &[int_v, uint_v, sint_v, bool_v, float_v, double_v],
    );
    let parser = Parser::new(tile_bytes(&[layer])).unwrap();
    let features = parser.get_features(0).unwrap().unwrap();
    let props = features[0].properties.as_ref().unwrap();
    assert_eq!(props.get(&String::from("a")), Some(&TagValue::Text(String::from("-5"))));
    assert_eq!(props.get(&String::from("b")), Some(&TagValue::Text(String::from("7"))));
    assert_eq!(props.get(&String::from("c")), Some(&TagValue::Text(String::from("-5"))));
    assert_eq!(props.get(&String::from("d")), Some(&TagValue::Text(String::from("true"))));
    assert_eq!(props.get(&String::from("e")), Some(&TagValue::Float(1.5f32.to_bits())));
    assert_eq!(props.get(&String::from("f")), Some(&TagValue::Double(2.5f64.to_bits())));
}

#[test]
fn missing_layer_fields_take_their_defaults() {
    // a layer with nothing but a name: version defaults to 1 (supported),
    // extent to 4096.
    let mut layer: Vec<u8> = Vec::new();
    bytes_field(1, "bare".as_bytes(), &mut layer);
    let parser = Parser::new(tile_bytes(&[layer])).unwrap();
    assert_eq!(parser.get_layer_names(), vec![String::from("bare")]);
    assert_eq!(parser.tile.layers[0].version, 1);
    assert_eq!(parser.tile.layers[0].extent, 4096);
    assert_eq!(parser.tile.layers[0].name, "bare");
}

#[test]
fn varints_decode_within_their_limits() {
    assert_eq!(read_varint(&vec![0x96u8, 0x01], 0), Some((150, 2)));
    assert_eq!(read_varint(&vec![0x00u8], 0), Some((0, 1)));
    // u64::MAX takes the full ten bytes.
    let max = vec![0xffu8, 0xff, 0xff, 0xff, 0xff, 0xff, 0xff, 0xff, 0xff, 0x01];
    assert_eq!(read_varint(&max, 0), Some((u64::MAX, 10)));
    // one bit past 64 is refused.
    let too_big = vec![0xffu8, 0xff, 0xff, 0xff, 0xff, 0xff, 0xff, 0xff, 0xff, 0x02];
    assert_eq!(read_varint(&too_big, 0), None);
    // more than ten bytes is refused.
    let mut overlong = vec![0x80u8; 10];
    overlong.push(0x01);
    assert_eq!(read_varint(&overlong, 0), None);
    // a continuation running past the bytes is refused.
    assert_eq!(read_varint(&vec![0x80u8], 0), None);
}

trait ToLeBits {
    fn to_le_bits_vec(self) -> Vec<u8>;
}

impl ToLeBits for f32 {
    fn to_le_bits_vec(self) -> Vec<u8> {
        self.to_bits().to_le_bytes().to_vec()
    }
}

impl ToLeBits for f64 {
    fn to_le_bits_vec(self) -> Vec<u8> {
        self.to_bits().to_le_bytes().to_vec()
    }
}
