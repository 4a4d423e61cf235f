use vstd::prelude::*;

use crate::feature::Feature;
use crate::geom::{Geometry, GeometryCollection};

verus! {

// Buckets: each geometry class selects one tessellation path, one material,
// and one draw path.

/// The geometry class of a tile's features: fills, strokes, or point
/// sprites.
#[derive(Clone, Copy, PartialEq, Eq, Structural, Debug)]
pub enum BucketType {
    Fill,
    Line,
    Point,
}

/// The bucket a geometry belongs in, if this renderer draws it.
pub open spec fn bucket_type_spec(g: Geometry) -> Option<BucketType> {
    match g {
        Geometry::Point(_) => Some(BucketType::Point),
        Geometry::MultiPoint(_) => Some(BucketType::Point),
        Geometry::LineString(_) => Some(BucketType::Line),
        Geometry::MultiLineString(_) => Some(BucketType::Line),
        Geometry::Polygon(_) => Some(BucketType::Fill),
        Geometry::MultiPolygon(_) => Some(BucketType::Fill),
    }
}

/// The bucket a geometry belongs in.
pub fn bucket_type_for(g: &Geometry) -> (r: Option<BucketType>)
    ensures
        r == bucket_type_spec(*g),
{
    match g {
        Geometry::Point(_) => Some(BucketType::Point),
        Geometry::MultiPoint(_) => Some(BucketType::Point),
        Geometry::LineString(_) => Some(BucketType::Line),
        Geometry::MultiLineString(_) => Some(BucketType::Line),
        Geometry::Polygon(_) => Some(BucketType::Fill),
        Geometry::MultiPolygon(_) => Some(BucketType::Fill),
    }
}

/// What the ingestion loop does with one drained message. Stopping the
/// drain is never a message's doing: the loop runs until the channel
/// reports itself empty or disconnected.
#[derive(Clone, Copy, PartialEq, Eq, Structural, Debug)]
pub enum DrainAction {
    /// Build a tile of this bucket from the message's features.
    Build(BucketType),
    /// Pass this message over and keep draining.
    Skip,
}

/// What the ingestion loop does with a drained message: the first feature's
/// first geometry picks the bucket, and a message with nothing to draw — no
/// features, an empty collection, or a geometry this renderer does not
/// handle — is passed over, with draining going on.
pub open spec fn tile_action_spec(fs: Seq<crate::feature::FeatureView<Seq<crate::geom::GeomModel>>>) -> DrainAction {
    if fs.len() == 0 {
        DrainAction::Skip
    } else if fs[0].geometry.len() == 0 {
        DrainAction::Skip
    } else {
        match fs[0].geometry[0] {
            crate::geom::GeomModel::Point(_) => DrainAction::Build(BucketType::Point),
            crate::geom::GeomModel::MultiPoint(_) => DrainAction::Build(BucketType::Point),
            crate::geom::GeomModel::LineString(_) => DrainAction::Build(BucketType::Line),
            crate::geom::GeomModel::MultiLineString(_) => DrainAction::Build(BucketType::Line),
            crate::geom::GeomModel::Polygon(_) => DrainAction::Build(BucketType::Fill),
            crate::geom::GeomModel::MultiPolygon(_) => DrainAction::Build(BucketType::Fill),
        }
    }
}

/// Decide what to do with one drained message.
pub fn tile_action(features: &Vec<Feature<GeometryCollection>>) -> (r: DrainAction)
    ensures
        r == tile_action_spec(features@.map_values(|f: Feature<GeometryCollection>| f@)),
{
    let ghost fs = features@.map_values(|f: Feature<GeometryCollection>| f@);
    if features.len() == 0 {
        return DrainAction::Skip;
    }
    let geoms = &features[0].geometry.0;
    proof {
        assert(fs[0].geometry == geoms@.map_values(|g: Geometry| g@));
    }
    if geoms.len() == 0 {
        return DrainAction::Skip;
    }
    match bucket_type_for(&geoms[0]) {
        Some(bt) => DrainAction::Build(bt),
        None => DrainAction::Skip,
    }
}

} // verus!
