use wgpu_layers::bucket::{bucket_type_for, tile_action, BucketType, DrainAction};
use wgpu_layers::error::Error;
use wgpu_layers::feature::Feature;
use wgpu_layers::geom::{Coordinate, Geometry, GeometryCollection, LineString, Polygon};
use wgpu_layers::resource::{BindGroupScope, LayoutRegistry, MaterialManager, MaterialType, TileManager};

fn c(x: i32, y: i32) -> Coordinate {
    Coordinate { x, y }
}

fn feature_of(g: Geometry) -> Feature<GeometryCollection> {
    Feature { geometry: GeometryCollection(vec![g]), properties: None }
}

#[test]
fn scopes_bind_in_fixed_order() {
    assert_eq!(BindGroupScope::Global.value(), 0);
    assert_eq!(BindGroupScope::Material.value(), 1);
    assert_eq!(BindGroupScope::Model.value(), 2);
}

#[test]
fn unregistered_scope_is_refused() {
    let mut registry = LayoutRegistry::new();
    assert_eq!(
        registry.require_registered(BindGroupScope::Model).unwrap_err(),
        Error::UnregisteredBindGroupScope
    );
    registry.register(BindGroupScope::Global);
    assert!(registry.require_registered(BindGroupScope::Global).is_ok());
    assert!(registry.require_registered(BindGroupScope::Material).is_err());
    let _tiles = TileManager::new(&mut registry);
    assert!(registry.require_registered(BindGroupScope::Model).is_ok());
    assert!(registry.require_registered(BindGroupScope::Material).is_err());
}

#[test]
fn material_cache_builds_once_per_type() {
    let mut cache: MaterialManager<u32> = MaterialManager::new();
    assert!(cache.get(MaterialType::Fill).is_none());
    cache.insert(MaterialType::Fill, 10);
    cache.insert(MaterialType::Line, 20);
    assert_eq!(cache.get(MaterialType::Fill), Some(&10));
    assert_eq!(cache.get(MaterialType::Line), Some(&20));
    assert!(cache.get(MaterialType::Point).is_none());
    cache.insert(MaterialType::Fill, 11);
    assert_eq!(cache.get(MaterialType::Fill), Some(&11));
    assert_eq!(cache.get(MaterialType::Line), Some(&20));
}

#[test]
fn geometry_kinds_pick_their_bucket() {
    let line = LineString(vec![c(0, 0), c(1, 1)]);
    let polygon = Polygon {
        exterior: LineString(vec![c(0, 0), c(4, 0), c(4, 4), c(0, 0)]),
        interiors: Vec::new(),
    };
    assert_eq!(bucket_type_for(&Geometry::Point(c(0, 0))), Some(BucketType::Point));
    assert_eq!(bucket_type_for(&Geometry::MultiPoint(vec![c(0, 0)])), Some(BucketType::Point));
    assert_eq!(bucket_type_for(&Geometry::LineString(line.clone())), Some(BucketType::Line));
    assert_eq!(
        bucket_type_for(&Geometry::MultiLineString(vec![line.clone()])),
        Some(BucketType::Line)
    );
    assert_eq!(bucket_type_for(&Geometry::Polygon(polygon.clone())), Some(BucketType::Fill));
    assert_eq!(
        bucket_type_for(&Geometry::MultiPolygon(vec![polygon])),
        Some(BucketType::Fill)
    );
}

#[test]
fn drained_messages_decide_the_tile() {
    // a message with no features is passed over; draining never stops on a
    // message, only on an empty or disconnected channel.
    let empty: Vec<Feature<GeometryCollection>> = Vec::new();
    assert_eq!(tile_action(&empty), DrainAction::Skip);

    let points = vec![feature_of(Geometry::Point(c(1, 2)))];
    assert_eq!(tile_action(&points), DrainAction::Build(BucketType::Point));

    let lines = vec![feature_of(Geometry::LineString(LineString(vec![c(0, 0), c(1, 1)])))];
    assert_eq!(tile_action(&lines), DrainAction::Build(BucketType::Line));

    let polys = vec![feature_of(Geometry::Polygon(Polygon {
        exterior: LineString(vec![c(0, 0), c(4, 0), c(4, 4), c(0, 0)]),
        interiors: Vec::new(),
    }))];
    assert_eq!(tile_action(&polys), DrainAction::Build(BucketType::Fill));

    let no_geometry = vec![Feature {
        geometry: GeometryCollection(Vec::new()),
        properties: None,
    }];
    assert_eq!(tile_action(&no_geometry), DrainAction::Skip);
}
