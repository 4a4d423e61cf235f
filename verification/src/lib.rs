//! A verified vector-tile decoding and tessellation-preparation library.
//!
//! Binary tile payloads are parsed from their protobuf wire format, their
//! delta-coded geometry streams are decoded into classified ring sets,
//! points and polylines, tag pairs become string-keyed property maps, and
//! polygons and polylines are flattened into the exact vertex and index
//! buffers a GPU renderer draws. Every function here carries a contract
//! tying its result to a mathematical model of the wire format, and the
//! decoder's laws — ring classification, the delta/zig-zag round trip, and
//! determinism — are proved over those models.
//!
//! Everything that needs a GPU, a window or floating-point arithmetic lives
//! outside this crate and exchanges plain values with it.

use vstd::prelude::*;

pub mod bucket;
pub mod codec;
pub mod decode;
pub mod error;
pub mod feature;
pub mod fill;
pub mod geom;
pub mod laws;
pub mod line;
pub mod parser;
pub mod pbf;
pub mod resource;
pub mod tags;

verus! {

} // verus!
