use vstd::prelude::*;

use crate::decode::GeomType;
use crate::error::Error;
use crate::tags::{Value, ValueModel};
use vstd::utf8::{decode_utf8, valid_utf8};

verus! {

// The protobuf wire layer of a vector tile: varints, field keys, and
// length-delimited messages, read strictly within byte ranges.

/// A varint spans at most ten bytes.
pub const MAX_VARINT_LEN: u8 = 10;

/// The varint starting at `pos`: its value and the position after it, or
/// nothing where the bytes end first, the encoding runs past `fuel` bytes,
/// or the value leaves the 64-bit range.
pub open spec fn take_varint(bytes: Seq<u8>, pos: int, fuel: nat) -> Option<(int, int)>
    decreases fuel,
{
    if fuel == 0 || pos < 0 || pos >= bytes.len() {
        None
    } else {
        let b = bytes[pos] as int;
        if b < 128 {
            Some((b, pos + 1))
        } else {
            match take_varint(bytes, pos + 1, (fuel - 1) as nat) {
                None => None,
                Some(ve) => {
                    let val = (b - 128) + 128 * ve.0;
                    if val <= u64::MAX {
                        Some((val, ve.1))
                    } else {
                        None
                    }
                },
            }
        }
    }
}

/// The varint starting at `pos`, with the full ten bytes allowed.
pub open spec fn varint_at(bytes: Seq<u8>, pos: int) -> Option<(int, int)> {
    take_varint(bytes, pos, MAX_VARINT_LEN as nat)
}

/// A varint always covers at least one byte and stays within the bytes, and
/// its value is a 64-bit natural.
pub proof fn lemma_varint_advance(bytes: Seq<u8>, pos: int, fuel: nat)
    requires
        take_varint(bytes, pos, fuel) is Some,
    ensures
        pos < take_varint(bytes, pos, fuel).unwrap().1 <= bytes.len(),
        0 <= take_varint(bytes, pos, fuel).unwrap().0 <= u64::MAX,
    decreases fuel,
{
    let b = bytes[pos] as int;
    if b >= 128 {
        lemma_varint_advance(bytes, pos + 1, (fuel - 1) as nat);
    }
}

fn read_varint_fuel(bytes: &Vec<u8>, pos: usize, fuel: u8) -> (r: Option<(u64, usize)>)
    ensures
        match take_varint(bytes@, pos as int, fuel as nat) {
            Some(ve) => r is Some && r.unwrap().0 as int == ve.0 && r.unwrap().1 as int == ve.1,
            None => r is None,
        },
    decreases fuel,
{
    if fuel == 0 || pos >= bytes.len() {
        return None;
    }
    let b = bytes[pos];
    if b < 128 {
        Some((b as u64, pos + 1))
    } else {
        match read_varint_fuel(bytes, pos + 1, fuel - 1) {
            None => None,
            Some((v, end)) => match v.checked_mul(128) {
                None => None,
                Some(p) => match p.checked_add((b - 128) as u64) {
                    None => None,
                    Some(val) => Some((val, end)),
                },
            },
        }
    }
}

/// Read the varint starting at `pos`.
pub fn read_varint(bytes: &Vec<u8>, pos: usize) -> (r: Option<(u64, usize)>)
    ensures
        match varint_at(bytes@, pos as int) {
            Some(ve) => r is Some && r.unwrap().0 as int == ve.0 && r.unwrap().1 as int == ve.1,
            None => r is None,
        },
{
    read_varint_fuel(bytes, pos, MAX_VARINT_LEN)
}

/// The little-endian 32-bit value starting at `pos`.
pub open spec fn fixed32_at(bytes: Seq<u8>, pos: int) -> Option<(u32, int)> {
    if pos < 0 || pos + 4 > bytes.len() {
        None
    } else {
        Some(
            (
                ((bytes[pos] as int) + 256 * (bytes[pos + 1] as int) + 65536 * (bytes[pos + 2] as int)
                    + 16777216 * (bytes[pos + 3] as int)) as u32,
                pos + 4,
            ),
        )
    }
}

/// Read the little-endian 32-bit value starting at `pos`.
pub fn read_fixed32(bytes: &Vec<u8>, pos: usize) -> (r: Option<(u32, usize)>)
    ensures
        match fixed32_at(bytes@, pos as int) {
            Some(ve) => r is Some && r.unwrap().0 == ve.0 && r.unwrap().1 as int == ve.1,
            None => r is None,
        },
{
    if pos >= bytes.len() || bytes.len() - pos < 4 {
        return None;
    }
    let v = (bytes[pos] as u32) + 256 * (bytes[pos + 1] as u32) + 65536 * (bytes[pos + 2] as u32)
        + 16777216 * (bytes[pos + 3] as u32);
    Some((v, pos + 4))
}

/// The little-endian 64-bit value starting at `pos`.
pub open spec fn fixed64_at(bytes: Seq<u8>, pos: int) -> Option<(u64, int)> {
    if pos < 0 || pos + 8 > bytes.len() {
        None
    } else {
        Some(
            (
                ((bytes[pos] as int) + 0x100 * (bytes[pos + 1] as int) + 0x10000 * (bytes[pos + 2]
                    as int) + 0x1000000 * (bytes[pos + 3] as int) + 0x100000000 * (bytes[pos + 4]
                    as int) + 0x10000000000 * (bytes[pos + 5] as int) + 0x1000000000000 * (bytes[pos
                    + 6] as int) + 0x100000000000000 * (bytes[pos + 7] as int)) as u64,
                pos + 8,
            ),
        )
    }
}

/// Read the little-endian 64-bit value starting at `pos`.
pub fn read_fixed64(bytes: &Vec<u8>, pos: usize) -> (r: Option<(u64, usize)>)
    ensures
        match fixed64_at(bytes@, pos as int) {
            Some(ve) => r is Some && r.unwrap().0 == ve.0 && r.unwrap().1 as int == ve.1,
            None => r is None,
        },
{
    if pos >= bytes.len() || bytes.len() - pos < 8 {
        return None;
    }
    let v = (bytes[pos] as u64) + 0x100 * (bytes[pos + 1] as u64) + 0x10000 * (bytes[pos + 2]
        as u64) + 0x1000000 * (bytes[pos + 3] as u64) + 0x100000000 * (bytes[pos + 4] as u64)
        + 0x10000000000 * (bytes[pos + 5] as u64) + 0x1000000000000 * (bytes[pos + 6] as u64)
        + 0x100000000000000 * (bytes[pos + 7] as u64);
    Some((v, pos + 8))
}

/// Where the field body starting at `pos` with the given wire type ends;
/// nothing for a wire type this format does not carry.
pub open spec fn skip_field_spec(bytes: Seq<u8>, pos: int, wire: int) -> Option<int> {
    if wire == 0 {
        match varint_at(bytes, pos) {
            None => None,
            Some(ve) => Some(ve.1),
        }
    } else if wire == 1 {
        if pos >= 0 && pos + 8 <= bytes.len() {
            Some(pos + 8)
        } else {
            None
        }
    } else if wire == 2 {
        match varint_at(bytes, pos) {
            None => None,
            Some(ve) => if ve.1 + ve.0 <= bytes.len() {
                Some(ve.1 + ve.0)
            } else {
                None
            },
        }
    } else if wire == 5 {
        if pos >= 0 && pos + 4 <= bytes.len() {
            Some(pos + 4)
        } else {
            None
        }
    } else {
        None
    }
}

/// Pass over one field body.
pub fn skip_field(bytes: &Vec<u8>, pos: usize, wire: u64) -> (r: Option<usize>)
    ensures
        match skip_field_spec(bytes@, pos as int, wire as int) {
            Some(e) => r is Some && r.unwrap() as int == e,
            None => r is None,
        },
{
    if wire == 0 {
        match read_varint(bytes, pos) {
            None => None,
            Some((_, end)) => Some(end),
        }
    } else if wire == 1 {
        if pos <= bytes.len() && bytes.len() - pos >= 8 {
            Some(pos + 8)
        } else {
            None
        }
    } else if wire == 2 {
        match read_varint(bytes, pos) {
            None => None,
            Some((len, end)) => {
                proof {
                    lemma_varint_advance(bytes@, pos as int, MAX_VARINT_LEN as nat);
                }
                if len <= (bytes.len() - end) as u64 {
                    Some(end + (len as usize))
                } else {
                    None
                }
            },
        }
    } else if wire == 5 {
        if pos <= bytes.len() && bytes.len() - pos >= 4 {
            Some(pos + 4)
        } else {
            None
        }
    } else {
        None
    }
}

/// The length-delimited string starting at `pos`: its characters and the
/// position after it, or nothing where the bytes end first or the content is
/// not UTF-8.
pub open spec fn string_at(bytes: Seq<u8>, pos: int) -> Option<(Seq<char>, int)> {
    match varint_at(bytes, pos) {
        None => None,
        Some(ve) => {
            let start = ve.1;
            let e = ve.1 + ve.0;
            if e > bytes.len() {
                None
            } else {
                let sub = bytes.subrange(start, e);
                if valid_utf8(sub) {
                    Some((decode_utf8(sub), e))
                } else {
                    None
                }
            }
        },
    }
}

/// Relies on String::from_utf8: it succeeds exactly on valid UTF-8 and
/// decodes the bytes to their characters.
#[verifier::external_body]
fn utf8_to_string(v: Vec<u8>) -> (r: Option<String>)
    ensures
        r is Some <==> valid_utf8(v@),
        r is Some ==> r.unwrap()@ == decode_utf8(v@),
{
    match String::from_utf8(v) {
        Ok(s) => Some(s),
        Err(_) => None,
    }
}

/// Read the length-delimited string starting at `pos`.
pub fn read_string(bytes: &Vec<u8>, pos: usize) -> (r: Option<(String, usize)>)
    ensures
        match string_at(bytes@, pos as int) {
            Some(se) => r is Some && r.unwrap().0@ == se.0 && r.unwrap().1 as int == se.1,
            None => r is None,
        },
{
    match read_varint(bytes, pos) {
        None => None,
        Some((len, start)) => {
            proof {
                lemma_varint_advance(bytes@, pos as int, MAX_VARINT_LEN as nat);
            }
            if len > (bytes.len() - start) as u64 {
                return None;
            }
            let e = start + (len as usize);
            let mut sub: Vec<u8> = Vec::new();
            let mut j: usize = start;
            while j < e
                invariant
                    start <= j <= e <= bytes@.len(),
                    sub@ == bytes@.subrange(start as int, j as int),
                decreases e - j,
            {
                sub.push(bytes[j]);
                proof {
                    assert(sub@ =~= bytes@.subrange(start as int, j + 1 as int));
                }
                j = j + 1;
            }
            proof {
                assert(sub@ =~= bytes@.subrange(start as int, e as int));
            }
            match utf8_to_string(sub) {
                None => None,
                Some(s) => Some((s, e)),
            }
        },
    }
}

/// The packed unsigned 32-bit values filling `pos` to `end`; nothing where a
/// value leaves the 32-bit range or the block is cut short.
pub open spec fn packed_u32s(bytes: Seq<u8>, pos: int, end: int, acc: Seq<u32>) -> Option<Seq<u32>>
    decreases end - pos,
{
    if pos == end {
        Some(acc)
    } else if pos > end || end > bytes.len() {
        None
    } else {
        match varint_at(bytes, pos) {
            None => None,
            Some(ve) => if ve.1 > end || ve.1 <= pos || ve.0 > u32::MAX {
                None
            } else {
                packed_u32s(bytes, ve.1, end, acc.push(ve.0 as u32))
            },
        }
    }
}

/// The value a 64-bit wire integer stands for when read as a signed int64:
/// two's complement wraparound.
pub open spec fn wrap_i64(v: int) -> i64
    recommends
        0 <= v <= u64::MAX,
{
    if v <= i64::MAX {
        v as i64
    } else {
        (v - 0x1_0000_0000_0000_0000) as i64
    }
}

/// Zig-zag decoding of a 64-bit wire integer.
pub open spec fn zigzag64_decode_spec(raw: int) -> int
    recommends
        0 <= raw <= u64::MAX,
{
    if raw % 2 == 0 {
        raw / 2
    } else {
        -((raw + 1) / 2)
    }
}

/// Read a 64-bit wire integer as a signed int64.
pub fn wire_to_i64(v: u64) -> (r: i64)
    ensures
        r == wrap_i64(v as int),
{
    if v <= 0x7fff_ffff_ffff_ffff {
        v as i64
    } else {
        -((u64::MAX - v) as i64) - 1
    }
}

/// Zig-zag decode a 64-bit wire integer.
pub fn zigzag64_decode(raw: u64) -> (d: i64)
    ensures
        d as int == zigzag64_decode_spec(raw as int),
{
    if raw % 2 == 0 {
        (raw / 2) as i64
    } else {
        let half = raw / 2;
        if half == 0x7fff_ffff_ffff_ffff {
            i64::MIN
        } else {
            -((half + 1) as i64)
        }
    }
}

/// Read a packed block of unsigned 32-bit values, appending to `out`.
pub fn read_packed_u32s(bytes: &Vec<u8>, pos: usize, end: usize, out: &mut Vec<u32>) -> (ok: bool)
    requires
        pos <= end <= bytes@.len(),
    ensures
        match packed_u32s(bytes@, pos as int, end as int, old(out)@) {
            Some(vs) => ok && final(out)@ == vs,
            None => !ok,
        },
{
    let mut p = pos;
    while p < end
        invariant
            pos <= p <= end <= bytes@.len(),
            packed_u32s(bytes@, p as int, end as int, out@) == packed_u32s(
                bytes@,
                pos as int,
                end as int,
                old(out)@,
            ),
        decreases end - p,
    {
        match read_varint(bytes, p) {
            None => {
                return false;
            },
            Some((v, e)) => {
                proof {
                    lemma_varint_advance(bytes@, p as int, MAX_VARINT_LEN as nat);
                }
                if e > end || v > 0xffff_ffff {
                    return false;
                }
                out.push(v as u32);
                p = e;
            },
        }
    }
    true
}

// The three message shapes of a vector tile: Tile holds layers, a layer
// holds features and its two dictionaries, a feature holds its tag pairs and
// its geometry command stream.

/// The mathematical shape of a decoded feature message.
#[verifier::ext_equal]
pub struct FeatureModel {
    pub id: u64,
    pub tags: Seq<u32>,
    pub geom_type: Option<GeomType>,
    pub geometry: Seq<u32>,
}

/// A decoded feature message: its tag pairs and its flat geometry command
/// stream, still undecoded.
#[derive(Clone, PartialEq, Debug)]
pub struct RawFeature {
    pub id: u64,
    pub tags: Vec<u32>,
    pub geom_type: Option<GeomType>,
    pub geometry: Vec<u32>,
}

impl View for RawFeature {
    type V = FeatureModel;

    open spec fn view(&self) -> FeatureModel {
        FeatureModel {
            id: self.id,
            tags: self.tags@,
            geom_type: self.geom_type,
            geometry: self.geometry@,
        }
    }
}

/// The mathematical shape of a decoded layer message.
#[verifier::ext_equal]
pub struct LayerModel {
    pub version: u32,
    pub name: Seq<char>,
    pub features: Seq<FeatureModel>,
    pub keys: Seq<Seq<char>>,
    pub values: Seq<ValueModel>,
    pub extent: u32,
}

/// A decoded layer message: name, version, features, and the key and value
/// dictionaries its features' tags point into.
#[derive(Clone, PartialEq, Debug)]
pub struct Layer {
    pub version: u32,
    pub name: String,
    pub features: Vec<RawFeature>,
    pub keys: Vec<String>,
    pub values: Vec<Value>,
    pub extent: u32,
}

impl View for Layer {
    type V = LayerModel;

    open spec fn view(&self) -> LayerModel {
        LayerModel {
            version: self.version,
            name: self.name@,
            features: self.features@.map_values(|f: RawFeature| f@),
            keys: self.keys@.map_values(|k: String| k@),
            values: self.values@.map_values(|v: Value| v@),
            extent: self.extent,
        }
    }
}

/// A decoded tile message: its layers.
#[derive(Clone, PartialEq, Debug)]
pub struct Tile {
    pub layers: Vec<Layer>,
}

impl View for Tile {
    type V = Seq<LayerModel>;

    open spec fn view(&self) -> Seq<LayerModel> {
        self.layers@.map_values(|l: Layer| l@)
    }
}

/// A feature before any of its fields: id zero, no geometry type.
pub open spec fn default_feature_model() -> FeatureModel {
    FeatureModel { id: 0, tags: Seq::empty(), geom_type: None, geometry: Seq::empty() }
}

/// A layer before any of its fields: version one, extent 4096.
pub open spec fn default_layer_model() -> LayerModel {
    LayerModel {
        version: 1,
        name: Seq::empty(),
        features: Seq::empty(),
        keys: Seq::empty(),
        values: Seq::empty(),
        extent: 4096,
    }
}

/// A dictionary value before any of its fields: nothing set.
pub open spec fn default_value_model() -> ValueModel {
    ValueModel {
        string_value: None,
        float_bits: None,
        double_bits: None,
        int_value: None,
        uint_value: None,
        sint_value: None,
        bool_value: None,
    }
}

/// The geometry type a wire enum value names.
pub open spec fn geom_type_of(v: int) -> Option<GeomType> {
    if v == 0 {
        Some(GeomType::Unknown)
    } else if v == 1 {
        Some(GeomType::Point)
    } else if v == 2 {
        Some(GeomType::Linestring)
    } else if v == 3 {
        Some(GeomType::Polygon)
    } else {
        None
    }
}

/// Decode the geometry type a wire enum value names.
pub fn decode_geom_type(v: u64) -> (r: Option<GeomType>)
    ensures
        r == geom_type_of(v as int),
{
    if v == 0 {
        Some(GeomType::Unknown)
    } else if v == 1 {
        Some(GeomType::Point)
    } else if v == 2 {
        Some(GeomType::Linestring)
    } else if v == 3 {
        Some(GeomType::Polygon)
    } else {
        None
    }
}

/// The value message filling `pos` to `end`, folded over `acc`: each field
/// read in order, the last occurrence of a field winning.
pub open spec fn value_fields(bytes: Seq<u8>, pos: int, end: int, acc: ValueModel) -> Option<
    ValueModel,
>
    decreases end - pos,
{
    if pos == end {
        Some(acc)
    } else if pos > end || end > bytes.len() {
        None
    } else {
        match varint_at(bytes, pos) {
            None => None,
            Some(ke) => {
                let field = ke.0 / 8;
                let wire = ke.0 % 8;
                let p1 = ke.1;
                if p1 > end || p1 <= pos {
                    None
                } else if field == 1 && wire == 2 {
                    match string_at(bytes, p1) {
                        None => None,
                        Some(se) => if se.1 > end || se.1 <= p1 {
                            None
                        } else {
                            value_fields(
                                bytes,
                                se.1,
                                end,
                                ValueModel { string_value: Some(se.0), ..acc },
                            )
                        },
                    }
                } else if field == 2 && wire == 5 {
                    match fixed32_at(bytes, p1) {
                        None => None,
                        Some(ve) => if ve.1 > end {
                            None
                        } else {
                            value_fields(
                                bytes,
                                ve.1,
                                end,
                                ValueModel { float_bits: Some(ve.0), ..acc },
                            )
                        },
                    }
                } else if field == 3 && wire == 1 {
                    match fixed64_at(bytes, p1) {
                        None => None,
                        Some(ve) => if ve.1 > end {
                            None
                        } else {
                            value_fields(
                                bytes,
                                ve.1,
                                end,
                                ValueModel { double_bits: Some(ve.0), ..acc },
                            )
                        },
                    }
                } else if field == 4 && wire == 0 {
                    match varint_at(bytes, p1) {
                        None => None,
                        Some(ve) => if ve.1 > end || ve.1 <= p1 {
                            None
                        } else {
                            value_fields(
                                bytes,
                                ve.1,
                                end,
                                ValueModel { int_value: Some(wrap_i64(ve.0)), ..acc },
                            )
                        },
                    }
                } else if field == 5 && wire == 0 {
                    match varint_at(bytes, p1) {
                        None => None,
                        Some(ve) => if ve.1 > end || ve.1 <= p1 {
                            None
                        } else {
                            value_fields(
                                bytes,
                                ve.1,
                                end,
                                ValueModel { uint_value: Some(ve.0 as u64), ..acc },
                            )
                        },
                    }
                } else if field == 6 && wire == 0 {
                    match varint_at(bytes, p1) {
                        None => None,
                        Some(ve) => if ve.1 > end || ve.1 <= p1 {
                            None
                        } else {
                            value_fields(
                                bytes,
                                ve.1,
                                end,
                                ValueModel {
                                    sint_value: Some(zigzag64_decode_spec(ve.0) as i64),
                                    ..acc
                                },
                            )
                        },
                    }
                } else if field == 7 && wire == 0 {
                    match varint_at(bytes, p1) {
                        None => None,
                        Some(ve) => if ve.1 > end || ve.1 <= p1 {
                            None
                        } else {
                            value_fields(
                                bytes,
                                ve.1,
                                end,
                                ValueModel { bool_value: Some(ve.0 != 0), ..acc },
                            )
                        },
                    }
                } else {
                    match skip_field_spec(bytes, p1, wire as int) {
                        None => None,
                        Some(e2) => if e2 > end || e2 <= p1 {
                            None
                        } else {
                            value_fields(bytes, e2, end, acc)
                        },
                    }
                }
            },
        }
    }
}

/// The feature message filling `pos` to `end`, folded over `acc`. Tag pairs
/// and geometry values arrive packed or one at a time.
pub open spec fn feature_fields(bytes: Seq<u8>, pos: int, end: int, acc: FeatureModel) -> Option<
    FeatureModel,
>
    decreases end - pos,
{
    if pos == end {
        Some(acc)
    } else if pos > end || end > bytes.len() {
        None
    } else {
        match varint_at(bytes, pos) {
            None => None,
            Some(ke) => {
                let field = ke.0 / 8;
                let wire = ke.0 % 8;
                let p1 = ke.1;
                if p1 > end || p1 <= pos {
                    None
                } else if field == 1 && wire == 0 {
                    match varint_at(bytes, p1) {
                        None => None,
                        Some(ve) => if ve.1 > end || ve.1 <= p1 {
                            None
                        } else {
                            feature_fields(
                                bytes,
                                ve.1,
                                end,
                                FeatureModel { id: ve.0 as u64, ..acc },
                            )
                        },
                    }
                } else if field == 2 && wire == 2 {
                    match varint_at(bytes, p1) {
                        None => None,
                        Some(le) => {
                            let e2 = le.1 + le.0;
                            if e2 > end || le.1 <= p1 {
                                None
                            } else {
                                match packed_u32s(bytes, le.1, e2, acc.tags) {
                                    None => None,
                                    Some(ts) => feature_fields(
                                        bytes,
                                        e2,
                                        end,
                                        FeatureModel { tags: ts, ..acc },
                                    ),
                                }
                            }
                        },
                    }
                } else if field == 2 && wire == 0 {
                    match varint_at(bytes, p1) {
                        None => None,
                        Some(ve) => if ve.1 > end || ve.1 <= p1 || ve.0 > u32::MAX {
                            None
                        } else {
                            feature_fields(
                                bytes,
                                ve.1,
                                end,
                                FeatureModel { tags: acc.tags.push(ve.0 as u32), ..acc },
                            )
                        },
                    }
                } else if field == 3 && wire == 0 {
                    match varint_at(bytes, p1) {
                        None => None,
                        Some(ve) => if ve.1 > end || ve.1 <= p1 {
                            None
                        } else {
                            feature_fields(
                                bytes,
                                ve.1,
                                end,
                                FeatureModel { geom_type: geom_type_of(ve.0), ..acc },
                            )
                        },
                    }
                } else if field == 4 && wire == 2 {
                    match varint_at(bytes, p1) {
                        None => None,
                        Some(le) => {
                            let e2 = le.1 + le.0;
                            if e2 > end || le.1 <= p1 {
                                None
                            } else {
                                match packed_u32s(bytes, le.1, e2, acc.geometry) {
                                    None => None,
                                    Some(gs) => feature_fields(
                                        bytes,
                                        e2,
                                        end,
                                        FeatureModel { geometry: gs, ..acc },
                                    ),
                                }
                            }
                        },
                    }
                } else if field == 4 && wire == 0 {
                    match varint_at(bytes, p1) {
                        None => None,
                        Some(ve) => if ve.1 > end || ve.1 <= p1 || ve.0 > u32::MAX {
                            None
                        } else {
                            feature_fields(
                                bytes,
                                ve.1,
                                end,
                                FeatureModel { geometry: acc.geometry.push(ve.0 as u32), ..acc },
                            )
                        },
                    }
                } else {
                    match skip_field_spec(bytes, p1, wire as int) {
                        None => None,
                        Some(e2) => if e2 > end || e2 <= p1 {
                            None
                        } else {
                            feature_fields(bytes, e2, end, acc)
                        },
                    }
                }
            },
        }
    }
}

/// The layer message filling `pos` to `end`, folded over `acc`.
pub open spec fn layer_fields(bytes: Seq<u8>, pos: int, end: int, acc: LayerModel) -> Option<
    LayerModel,
>
    decreases end - pos,
{
    if pos == end {
        Some(acc)
    } else if pos > end || end > bytes.len() {
        None
    } else {
        match varint_at(bytes, pos) {
            None => None,
            Some(ke) => {
                let field = ke.0 / 8;
                let wire = ke.0 % 8;
                let p1 = ke.1;
                if p1 > end || p1 <= pos {
                    None
                } else if field == 15 && wire == 0 {
                    match varint_at(bytes, p1) {
                        None => None,
                        Some(ve) => if ve.1 > end || ve.1 <= p1 || ve.0 > u32::MAX {
                            None
                        } else {
                            layer_fields(
                                bytes,
                                ve.1,
                                end,
                                LayerModel { version: ve.0 as u32, ..acc },
                            )
                        },
                    }
                } else if field == 1 && wire == 2 {
                    match string_at(bytes, p1) {
                        None => None,
                        Some(se) => if se.1 > end || se.1 <= p1 {
                            None
                        } else {
                            layer_fields(bytes, se.1, end, LayerModel { name: se.0, ..acc })
                        },
                    }
                } else if field == 2 && wire == 2 {
                    match varint_at(bytes, p1) {
                        None => None,
                        Some(le) => {
                            let e2 = le.1 + le.0;
                            if e2 > end || le.1 <= p1 {
                                None
                            } else {
                                match feature_fields(bytes, le.1, e2, default_feature_model()) {
                                    None => None,
                                    Some(f) => layer_fields(
                                        bytes,
                                        e2,
                                        end,
                                        LayerModel { features: acc.features.push(f), ..acc },
                                    ),
                                }
                            }
                        },
                    }
                } else if field == 3 && wire == 2 {
                    match string_at(bytes, p1) {
                        None => None,
                        Some(se) => if se.1 > end || se.1 <= p1 {
                            None
                        } else {
                            layer_fields(
                                bytes,
                                se.1,
                                end,
                                LayerModel { keys: acc.keys.push(se.0), ..acc },
                            )
                        },
                    }
                } else if field == 4 && wire == 2 {
                    match varint_at(bytes, p1) {
                        None => None,
                        Some(le) => {
                            let e2 = le.1 + le.0;
                            if e2 > end || le.1 <= p1 {
                                None
                            } else {
                                match value_fields(bytes, le.1, e2, default_value_model()) {
                                    None => None,
                                    Some(v) => layer_fields(
                                        bytes,
                                        e2,
                                        end,
                                        LayerModel { values: acc.values.push(v), ..acc },
                                    ),
                                }
                            }
                        },
                    }
                } else if field == 5 && wire == 0 {
                    match varint_at(bytes, p1) {
                        None => None,
                        Some(ve) => if ve.1 > end || ve.1 <= p1 || ve.0 > u32::MAX {
                            None
                        } else {
                            layer_fields(bytes, ve.1, end, LayerModel { extent: ve.0 as u32, ..acc })
                        },
                    }
                } else {
                    match skip_field_spec(bytes, p1, wire as int) {
                        None => None,
                        Some(e2) => if e2 > end || e2 <= p1 {
                            None
                        } else {
                            layer_fields(bytes, e2, end, acc)
                        },
                    }
                }
            },
        }
    }
}

/// The tile message filling `pos` to `end`, folded over `acc`: its layers,
/// in order.
pub open spec fn tile_fields(bytes: Seq<u8>, pos: int, end: int, acc: Seq<LayerModel>) -> Option<
    Seq<LayerModel>,
>
    decreases end - pos,
{
    if pos == end {
        Some(acc)
    } else if pos > end || end > bytes.len() {
        None
    } else {
        match varint_at(bytes, pos) {
            None => None,
            Some(ke) => {
                let field = ke.0 / 8;
                let wire = ke.0 % 8;
                let p1 = ke.1;
                if p1 > end || p1 <= pos {
                    None
                } else if field == 3 && wire == 2 {
                    match varint_at(bytes, p1) {
                        None => None,
                        Some(le) => {
                            let e2 = le.1 + le.0;
                            if e2 > end || le.1 <= p1 {
                                None
                            } else {
                                match layer_fields(bytes, le.1, e2, default_layer_model()) {
                                    None => None,
                                    Some(l) => tile_fields(bytes, e2, end, acc.push(l)),
                                }
                            }
                        },
                    }
                } else {
                    match skip_field_spec(bytes, p1, wire as int) {
                        None => None,
                        Some(e2) => if e2 > end || e2 <= p1 {
                            None
                        } else {
                            tile_fields(bytes, e2, end, acc)
                        },
                    }
                }
            },
        }
    }
}

/// What a whole tile payload decodes to.
pub open spec fn tile_spec(bytes: Seq<u8>) -> Option<Seq<LayerModel>> {
    tile_fields(bytes, 0, bytes.len() as int, Seq::empty())
}

/// A decoded string field ends past where it starts and within the bytes.
proof fn lemma_string_advance(bytes: Seq<u8>, pos: int)
    requires
        string_at(bytes, pos) is Some,
    ensures
        pos < string_at(bytes, pos).unwrap().1 <= bytes.len(),
{
    lemma_varint_advance(bytes, pos, MAX_VARINT_LEN as nat);
}

/// A skipped field ends past where it starts and within the bytes.
proof fn lemma_skip_advance(bytes: Seq<u8>, pos: int, wire: int)
    requires
        skip_field_spec(bytes, pos, wire) is Some,
    ensures
        pos < skip_field_spec(bytes, pos, wire).unwrap() <= bytes.len(),
{
    if wire == 0 || wire == 2 {
        lemma_varint_advance(bytes, pos, MAX_VARINT_LEN as nat);
    }
}

/// Parse one value message filling `pos` to `end`.
fn parse_value(bytes: &Vec<u8>, pos: usize, end: usize) -> (r: Option<Value>)
    requires
        pos <= end <= bytes@.len(),
    ensures
        match value_fields(bytes@, pos as int, end as int, default_value_model()) {
            Some(m) => r is Some && r.unwrap()@ == m,
            None => r is None,
        },
{
    let mut val = Value::empty();
    let mut p = pos;
    while p < end
        invariant
            pos <= p <= end <= bytes@.len(),
            value_fields(bytes@, p as int, end as int, val@) == value_fields(
                bytes@,
                pos as int,
                end as int,
                default_value_model(),
            ),
        decreases end - p,
    {
        match read_varint(bytes, p) {
            None => {
                return None;
            },
            Some((key, p1)) => {
                proof {
                    lemma_varint_advance(bytes@, p as int, MAX_VARINT_LEN as nat);
                }
                if p1 > end {
                    return None;
                }
                let field = key / 8;
                let wire = key % 8;
                if field == 1 && wire == 2 {
                    match read_string(bytes, p1) {
                        None => {
                            return None;
                        },
                        Some((s, e)) => {
                            proof {
                                lemma_string_advance(bytes@, p1 as int);
                            }
                            if e > end {
                                return None;
                            }
                            val.string_value = Some(s);
                            p = e;
                        },
                    }
                } else if field == 2 && wire == 5 {
                    match read_fixed32(bytes, p1) {
                        None => {
                            return None;
                        },
                        Some((v, e)) => {
                            if e > end {
                                return None;
                            }
                            val.float_bits = Some(v);
                            p = e;
                        },
                    }
                } else if field == 3 && wire == 1 {
                    match read_fixed64(bytes, p1) {
                        None => {
                            return None;
                        },
                        Some((v, e)) => {
                            if e > end {
                                return None;
                            }
                            val.double_bits = Some(v);
                            p = e;
                        },
                    }
                } else if field == 4 && wire == 0 {
                    match read_varint(bytes, p1) {
                        None => {
                            return None;
                        },
                        Some((v, e)) => {
                            proof {
                                lemma_varint_advance(bytes@, p1 as int, MAX_VARINT_LEN as nat);
                            }
                            if e > end {
                                return None;
                            }
                            val.int_value = Some(wire_to_i64(v));
                            p = e;
                        },
                    }
                } else if field == 5 && wire == 0 {
                    match read_varint(bytes, p1) {
                        None => {
                            return None;
                        },
                        Some((v, e)) => {
                            proof {
                                lemma_varint_advance(bytes@, p1 as int, MAX_VARINT_LEN as nat);
                            }
                            if e > end {
                                return None;
                            }
                            val.uint_value = Some(v);
                            p = e;
                        },
                    }
                } else if field == 6 && wire == 0 {
                    match read_varint(bytes, p1) {
                        None => {
                            return None;
                        },
                        Some((v, e)) => {
                            proof {
                                lemma_varint_advance(bytes@, p1 as int, MAX_VARINT_LEN as nat);
                            }
                            if e > end {
                                return None;
                            }
                            val.sint_value = Some(zigzag64_decode(v));
                            p = e;
                        },
                    }
                } else if field == 7 && wire == 0 {
                    match read_varint(bytes, p1) {
                        None => {
                            return None;
                        },
                        Some((v, e)) => {
                            proof {
                                lemma_varint_advance(bytes@, p1 as int, MAX_VARINT_LEN as nat);
                            }
                            if e > end {
                                return None;
                            }
                            val.bool_value = Some(v != 0);
                            p = e;
                        },
                    }
                } else {
                    match skip_field(bytes, p1, wire) {
                        None => {
                            return None;
                        },
                        Some(e2) => {
                            proof {
                                lemma_skip_advance(bytes@, p1 as int, wire as int);
                            }
                            if e2 > end {
                                return None;
                            }
                            p = e2;
                        },
                    }
                }
            },
        }
    }
    Some(val)
}

/// Parse one feature message filling `pos` to `end`.
fn parse_feature(bytes: &Vec<u8>, pos: usize, end: usize) -> (r: Option<RawFeature>)
    requires
        pos <= end <= bytes@.len(),
    ensures
        match feature_fields(bytes@, pos as int, end as int, default_feature_model()) {
            Some(m) => r is Some && r.unwrap()@ == m,
            None => r is None,
        },
{
    let mut feat = RawFeature { id: 0, tags: Vec::new(), geom_type: None, geometry: Vec::new() };
    proof {
        assert(feat@ =~= default_feature_model());
    }
    let mut p = pos;
    while p < end
        invariant
            pos <= p <= end <= bytes@.len(),
            feature_fields(bytes@, p as int, end as int, feat@) == feature_fields(
                bytes@,
                pos as int,
                end as int,
                default_feature_model(),
            ),
        decreases end - p,
    {
        match read_varint(bytes, p) {
            None => {
                return None;
            },
            Some((key, p1)) => {
                proof {
                    lemma_varint_advance(bytes@, p as int, MAX_VARINT_LEN as nat);
                }
                if p1 > end {
                    return None;
                }
                let field = key / 8;
                let wire = key % 8;
                if field == 1 && wire == 0 {
                    match read_varint(bytes, p1) {
                        None => {
                            return None;
                        },
                        Some((v, e)) => {
                            proof {
                                lemma_varint_advance(bytes@, p1 as int, MAX_VARINT_LEN as nat);
                            }
                            if e > end {
                                return None;
                            }
                            feat.id = v;
                            p = e;
                        },
                    }
                } else if field == 2 && wire == 2 {
                    match read_varint(bytes, p1) {
                        None => {
                            return None;
                        },
                        Some((len, start)) => {
                            proof {
                                lemma_varint_advance(bytes@, p1 as int, MAX_VARINT_LEN as nat);
                            }
                            if start > end || len > (end - start) as u64 {
                                return None;
                            }
                            let e2 = start + (len as usize);
                            if !read_packed_u32s(bytes, start, e2, &mut feat.tags) {
                                return None;
                            }
                            p = e2;
                        },
                    }
                } else if field == 2 && wire == 0 {
                    match read_varint(bytes, p1) {
                        None => {
                            return None;
                        },
                        Some((v, e)) => {
                            proof {
                                lemma_varint_advance(bytes@, p1 as int, MAX_VARINT_LEN as nat);
                            }
                            if e > end || v > 0xffff_ffff {
                                return None;
                            }
                            feat.tags.push(v as u32);
                            p = e;
                        },
                    }
                } else if field == 3 && wire == 0 {
                    match read_varint(bytes, p1) {
                        None => {
                            return None;
                        },
                        Some((v, e)) => {
                            proof {
                                lemma_varint_advance(bytes@, p1 as int, MAX_VARINT_LEN as nat);
                            }
                            if e > end {
                                return None;
                            }
                            feat.geom_type = decode_geom_type(v);
                            p = e;
                        },
                    }
                } else if field == 4 && wire == 2 {
                    match read_varint(bytes, p1) {
                        None => {
                            return None;
                        },
                        Some((len, start)) => {
                            proof {
                                lemma_varint_advance(bytes@, p1 as int, MAX_VARINT_LEN as nat);
                            }
                            if start > end || len > (end - start) as u64 {
                                return None;
                            }
                            let e2 = start + (len as usize);
                            if !read_packed_u32s(bytes, start, e2, &mut feat.geometry) {
                                return None;
                            }
                            p = e2;
                        },
                    }
                } else if field == 4 && wire == 0 {
                    match read_varint(bytes, p1) {
                        None => {
                            return None;
                        },
                        Some((v, e)) => {
                            proof {
                                lemma_varint_advance(bytes@, p1 as int, MAX_VARINT_LEN as nat);
                            }
                            if e > end || v > 0xffff_ffff {
                                return None;
                            }
                            feat.geometry.push(v as u32);
                            p = e;
                        },
                    }
                } else {
                    match skip_field(bytes, p1, wire) {
                        None => {
                            return None;
                        },
                        Some(e2) => {
                            proof {
                                lemma_skip_advance(bytes@, p1 as int, wire as int);
                            }
                            if e2 > end {
                                return None;
                            }
                            p = e2;
                        },
                    }
                }
            },
        }
    }
    Some(feat)
}

/// Parse one layer message filling `pos` to `end`.
fn parse_layer(bytes: &Vec<u8>, pos: usize, end: usize) -> (r: Option<Layer>)
    requires
        pos <= end <= bytes@.len(),
    ensures
        match layer_fields(bytes@, pos as int, end as int, default_layer_model()) {
            Some(m) => r is Some && r.unwrap()@ == m,
            None => r is None,
        },
{
    let mut layer = Layer {
        version: 1,
        name: String::new(),
        features: Vec::new(),
        keys: Vec::new(),
        values: Vec::new(),
        extent: 4096,
    };
    proof {
        assert(layer@ =~= default_layer_model());
    }
    let mut p = pos;
    while p < end
        invariant
            pos <= p <= end <= bytes@.len(),
            layer_fields(bytes@, p as int, end as int, layer@) == layer_fields(
                bytes@,
                pos as int,
                end as int,
                default_layer_model(),
            ),
        decreases end - p,
    {
        let ghost pre = layer@;
        match read_varint(bytes, p) {
            None => {
                return None;
            },
            Some((key, p1)) => {
                proof {
                    lemma_varint_advance(bytes@, p as int, MAX_VARINT_LEN as nat);
                }
                if p1 > end {
                    return None;
                }
                let field = key / 8;
                let wire = key % 8;
                if field == 15 && wire == 0 {
                    match read_varint(bytes, p1) {
                        None => {
                            return None;
                        },
                        Some((v, e)) => {
                            proof {
                                lemma_varint_advance(bytes@, p1 as int, MAX_VARINT_LEN as nat);
                            }
                            if e > end || v > 0xffff_ffff {
                                return None;
                            }
                            layer.version = v as u32;
                            p = e;
                        },
                    }
                } else if field == 1 && wire == 2 {
                    match read_string(bytes, p1) {
                        None => {
                            return None;
                        },
                        Some((s, e)) => {
                            proof {
                                lemma_string_advance(bytes@, p1 as int);
                            }
                            if e > end {
                                return None;
                            }
                            layer.name = s;
                            p = e;
                        },
                    }
                } else if field == 2 && wire == 2 {
                    match read_varint(bytes, p1) {
                        None => {
                            return None;
                        },
                        Some((len, start)) => {
                            proof {
                                lemma_varint_advance(bytes@, p1 as int, MAX_VARINT_LEN as nat);
                            }
                            if start > end || len > (end - start) as u64 {
                                return None;
                            }
                            let e2 = start + (len as usize);
                            match parse_feature(bytes, start, e2) {
                                None => {
                                    return None;
                                },
                                Some(f) => {
                                    layer.features.push(f);
                                    proof {
                                        assert(layer@.features =~= pre.features.push(f@));
                                        assert(layer@ =~= LayerModel {
                                            features: pre.features.push(f@),
                                            ..pre
                                        });
                                    }
                                    p = e2;
                                },
                            }
                        },
                    }
                } else if field == 3 && wire == 2 {
                    match read_string(bytes, p1) {
                        None => {
                            return None;
                        },
                        Some((s, e)) => {
                            proof {
                                lemma_string_advance(bytes@, p1 as int);
                            }
                            if e > end {
                                return None;
                            }
                            let ghost sv = s@;
                            layer.keys.push(s);
                            proof {
                                assert(layer@.keys =~= pre.keys.push(sv));
                                assert(layer@ =~= LayerModel { keys: pre.keys.push(sv), ..pre });
                            }
                            p = e;
                        },
                    }
                } else if field == 4 && wire == 2 {
                    match read_varint(bytes, p1) {
                        None => {
                            return None;
                        },
                        Some((len, start)) => {
                            proof {
                                lemma_varint_advance(bytes@, p1 as int, MAX_VARINT_LEN as nat);
                            }
                            if start > end || len > (end - start) as u64 {
                                return None;
                            }
                            let e2 = start + (len as usize);
                            match parse_value(bytes, start, e2) {
                                None => {
                                    return None;
                                },
                                Some(v) => {
                                    layer.values.push(v);
                                    proof {
                                        assert(layer@.values =~= pre.values.push(v@));
                                        assert(layer@ =~= LayerModel {
                                            values: pre.values.push(v@),
                                            ..pre
                                        });
                                    }
                                    p = e2;
                                },
                            }
                        },
                    }
                } else if field == 5 && wire == 0 {
                    match read_varint(bytes, p1) {
                        None => {
                            return None;
                        },
                        Some((v, e)) => {
                            proof {
                                lemma_varint_advance(bytes@, p1 as int, MAX_VARINT_LEN as nat);
                            }
                            if e > end || v > 0xffff_ffff {
                                return None;
                            }
                            layer.extent = v as u32;
                            p = e;
                        },
                    }
                } else {
                    match skip_field(bytes, p1, wire) {
                        None => {
                            return None;
                        },
                        Some(e2) => {
                            proof {
                                lemma_skip_advance(bytes@, p1 as int, wire as int);
                            }
                            if e2 > end {
                                return None;
                            }
                            p = e2;
                        },
                    }
                }
            },
        }
    }
    Some(layer)
}

/// Parse a whole tile payload. Fails with `Decode` exactly where the wire
/// model refuses the bytes.
pub fn parse_tile(data: &Vec<u8>) -> (r: Result<Tile, Error>)
    ensures
        r is Ok <==> tile_spec(data@) is Some,
        r is Ok ==> r.unwrap()@ == tile_spec(data@).unwrap(),
        r is Err ==> r.unwrap_err() == Error::Decode,
{
    let end = data.len();
    let mut layers: Vec<Layer> = Vec::new();
    proof {
        assert(layers@.map_values(|l: Layer| l@) =~= Seq::<LayerModel>::empty());
    }
    let mut p: usize = 0;
    while p < end
        invariant
            p <= end == data@.len(),
            tile_fields(data@, p as int, end as int, layers@.map_values(|l: Layer| l@))
                == tile_spec(data@),
        decreases end - p,
    {
        let ghost pre = layers@.map_values(|l: Layer| l@);
        match read_varint(data, p) {
            None => {
                return Err(Error::Decode);
            },
            Some((key, p1)) => {
                proof {
                    lemma_varint_advance(data@, p as int, MAX_VARINT_LEN as nat);
                }
                if p1 > end {
                    return Err(Error::Decode);
                }
                let field = key / 8;
                let wire = key % 8;
                if field == 3 && wire == 2 {
                    match read_varint(data, p1) {
                        None => {
                            return Err(Error::Decode);
                        },
                        Some((len, start)) => {
                            proof {
                                lemma_varint_advance(data@, p1 as int, MAX_VARINT_LEN as nat);
                            }
                            if start > end || len > (end - start) as u64 {
                                return Err(Error::Decode);
                            }
                            let e2 = start + (len as usize);
                            match parse_layer(data, start, e2) {
                                None => {
                                    return Err(Error::Decode);
                                },
                                Some(l) => {
                                    layers.push(l);
                                    proof {
                                        assert(layers@.map_values(|l: Layer| l@) =~= pre.push(
                                            layers@.last()@,
                                        ));
                                    }
                                    p = e2;
                                },
                            }
                        },
                    }
                } else {
                    match skip_field(data, p1, wire) {
                        None => {
                            return Err(Error::Decode);
                        },
                        Some(e2) => {
                            proof {
                                lemma_skip_advance(data@, p1 as int, wire as int);
                            }
                            if e2 > end {
                                return Err(Error::Decode);
                            }
                            p = e2;
                        },
                    }
                }
            },
        }
    }
    Ok(Tile { layers })
}

} // verus!

