use wgpu_layers::error::Error;
use wgpu_layers::feature::Feature;
use wgpu_layers::fill::{flatten_polygon, TileBuffers};
use wgpu_layers::geom::{Coordinate, Geometry, GeometryCollection, LineString, Polygon};
use wgpu_layers::line::{
    get_buffers, line_indices_buffer_size, line_vertices_buffer_size, workgroup_count,
};

fn c(x: i32, y: i32) -> Coordinate {
    Coordinate { x, y }
}

fn closed_ring(open: &[Coordinate]) -> LineString {
    let mut v = open.to_vec();
    v.push(open[0]);
    LineString(v)
}

fn simple_polygon(open: &[Coordinate]) -> Polygon {
    Polygon { exterior: closed_ring(open), interiors: Vec::new() }
}

// For a simple N-vertex polygon without holes the triangulation yields
// exactly 3*(N-2) indices, all below N.
#[test]
fn triangulation_index_count_matches() {
    let shapes: Vec<Vec<Coordinate>> = vec![
        vec![c(0, 0), c(4, 0), c(4, 4)],
        vec![c(0, 0), c(10, 0), c(10, 10), c(0, 10)],
        vec![c(0, 0), c(4, 0), c(6, 2), c(4, 4), c(0, 4)],
        vec![c(0, 0), c(8, 0), c(12, 4), c(8, 8), c(0, 8), c(-4, 4)],
    ];
    for open in shapes {
        let n = open.len();
        let polygon = simple_polygon(&open);
        let (vertices, holes) = flatten_polygon(&polygon);
        assert_eq!(vertices.len(), 2 * n);
        assert!(holes.is_empty());
        let flat: Vec<f64> = vertices.iter().map(|&v| v as f64).collect();
        let triangles = earcutr::earcut(&flat, &holes, 2).unwrap();
        assert_eq!(triangles.len(), 3 * (n - 2));
        assert!(triangles.iter().all(|&t| t < n));
        let mut buffers = TileBuffers::new();
        buffers.add_triangulation(&vertices, &triangles).unwrap();
        assert_eq!(buffers.indices.len(), 3 * (n - 2));
        assert!(buffers.indices.iter().all(|&t| (t as usize) < n));
    }
}

#[test]
fn polygon_with_hole_flattens_with_boundary() {
    let polygon = Polygon {
        exterior: closed_ring(&[c(0, 0), c(10, 0), c(10, 10), c(0, 10)]),
        interiors: vec![closed_ring(&[c(2, 2), c(2, 4), c(4, 4), c(4, 2)])],
    };
    let (vertices, holes) = flatten_polygon(&polygon);
    assert_eq!(vertices.len(), 16);
    assert_eq!(holes, vec![4]);
    let flat: Vec<f64> = vertices.iter().map(|&v| v as f64).collect();
    let triangles = earcutr::earcut(&flat, &holes, 2).unwrap();
    assert!(triangles.len() % 3 == 0);
    assert!(triangles.iter().all(|&t| t < 8));
}

// Triangulation results concatenate into one tile buffer with the index
// offset of the vertices already there.
#[test]
fn second_feature_indices_are_offset() {
    let mut buffers = TileBuffers::new();
    let first = vec![0, 0, 4, 0, 4, 4];
    buffers.add_triangulation(&first, &vec![0, 1, 2]).unwrap();
    let second = vec![20, 20, 24, 20, 24, 24];
    buffers.add_triangulation(&second, &vec![0, 1, 2]).unwrap();
    assert_eq!(buffers.vertices.len(), 12);
    assert_eq!(buffers.indices, vec![0, 1, 2, 3, 4, 5]);
}

#[test]
fn out_of_range_triangle_index_is_rejected() {
    let mut buffers = TileBuffers::new();
    let vertices = vec![0, 0, 4, 0, 4, 4];
    let err = buffers.add_triangulation(&vertices, &vec![0, 1, 3]).unwrap_err();
    assert_eq!(err, Error::Triangulation);
    assert!(buffers.vertices.is_empty());
    assert!(buffers.indices.is_empty());
}

fn line_feature(lines: Vec<LineString>) -> Feature<GeometryCollection> {
    let geometry = if lines.len() == 1 {
        let mut lines = lines;
        Geometry::LineString(lines.pop().unwrap())
    } else {
        Geometry::MultiLineString(lines)
    };
    Feature { geometry: GeometryCollection(vec![geometry]), properties: None }
}

// Each polyline contributes one explicit index pair per edge, so no edge
// ever spans two polylines, and the edge count comes from the segment
// boundaries, never from a contiguous index run.
#[test]
fn polyline_buffers_pair_each_edge() {
    let features = vec![
        line_feature(vec![LineString(vec![c(0, 0), c(1, 0), c(1, 1), c(0, 1)])]),
        line_feature(vec![
            LineString(vec![c(5, 5), c(6, 5)]),
            LineString(vec![c(7, 7), c(8, 7), c(9, 9)]),
        ]),
    ];
    let (vertices, indices, edges) = get_buffers(&features).unwrap();
    assert_eq!(vertices, vec![0, 0, 1, 0, 1, 1, 0, 1, 5, 5, 6, 5, 7, 7, 8, 7, 9, 9]);
    assert_eq!(indices, vec![0, 1, 1, 2, 2, 3, 4, 5, 6, 7, 7, 8]);
    assert_eq!(edges, 3 + 1 + 2);
    assert_eq!(indices.len() as u64, 2 * edges);
}

#[test]
fn single_point_polylines_have_no_edges() {
    let features = vec![line_feature(vec![LineString(vec![c(42, 42)])])];
    let (vertices, indices, edges) = get_buffers(&features).unwrap();
    assert_eq!(vertices, vec![42, 42]);
    assert!(indices.is_empty());
    assert_eq!(edges, 0);
}

#[test]
fn empty_and_foreign_geometries_add_nothing() {
    let features = vec![
        Feature {
            geometry: GeometryCollection(vec![Geometry::Point(c(1, 1))]),
            properties: None,
        },
        Feature { geometry: GeometryCollection(Vec::new()), properties: None },
    ];
    let (vertices, indices, edges) = get_buffers(&features).unwrap();
    assert!(vertices.is_empty());
    assert!(indices.is_empty());
    assert_eq!(edges, 0);
}

#[test]
fn workgroups_cover_every_edge() {
    assert_eq!(workgroup_count(0), 0);
    assert_eq!(workgroup_count(1), 1);
    assert_eq!(workgroup_count(256), 1);
    assert_eq!(workgroup_count(257), 2);
    assert_eq!(workgroup_count(1024), 4);
}

#[test]
fn buffer_sizes_follow_the_edge_count() {
    // four 16-byte vertices and six 4-byte indices per edge.
    assert_eq!(line_vertices_buffer_size(0), Some(0));
    assert_eq!(line_vertices_buffer_size(5), Some(5 * 64));
    assert_eq!(line_indices_buffer_size(5), Some(5 * 24));
    assert_eq!(line_vertices_buffer_size(u64::MAX), None);
    assert_eq!(line_indices_buffer_size(u64::MAX), None);
}
