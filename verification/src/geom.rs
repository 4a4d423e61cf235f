use vstd::prelude::*;

verus! {

// Tile-local geometry. Coordinates are the exact signed integers carried by
// the wire format, after delta decoding.

/// A point in tile-local space.
#[derive(Clone, Copy, PartialEq, Eq, Structural, Debug)]
pub struct Coordinate {
    pub x: i32,
    pub y: i32,
}

/// An ordered coordinate sequence; a ring stores its first point again at the
/// end once it has been closed.
#[derive(Clone, PartialEq, Debug)]
pub struct LineString(pub Vec<Coordinate>);

impl View for LineString {
    type V = Seq<Coordinate>;

    open spec fn view(&self) -> Seq<Coordinate> {
        self.0@
    }
}

/// The mathematical shape of a polygon: one exterior ring and its interior
/// rings.
#[verifier::ext_equal]
pub struct PolyModel {
    pub exterior: Seq<Coordinate>,
    pub interiors: Seq<Seq<Coordinate>>,
}

/// One exterior ring plus zero or more interior rings.
#[derive(Clone, PartialEq, Debug)]
pub struct Polygon {
    pub exterior: LineString,
    pub interiors: Vec<LineString>,
}

impl View for Polygon {
    type V = PolyModel;

    open spec fn view(&self) -> PolyModel {
        PolyModel {
            exterior: self.exterior@,
            interiors: self.interiors@.map_values(|r: LineString| r@),
        }
    }
}

/// The mathematical shape of a decoded geometry.
pub enum GeomModel {
    Point(Coordinate),
    MultiPoint(Seq<Coordinate>),
    LineString(Seq<Coordinate>),
    MultiLineString(Seq<Seq<Coordinate>>),
    Polygon(PolyModel),
    MultiPolygon(Seq<PolyModel>),
}

/// A decoded geometry.
#[derive(Clone, PartialEq, Debug)]
pub enum Geometry {
    Point(Coordinate),
    MultiPoint(Vec<Coordinate>),
    LineString(LineString),
    MultiLineString(Vec<LineString>),
    Polygon(Polygon),
    MultiPolygon(Vec<Polygon>),
}

impl View for Geometry {
    type V = GeomModel;

    open spec fn view(&self) -> GeomModel {
        match self {
            Geometry::Point(c) => GeomModel::Point(*c),
            Geometry::MultiPoint(cs) => GeomModel::MultiPoint(cs@),
            Geometry::LineString(l) => GeomModel::LineString(l@),
            Geometry::MultiLineString(ls) => GeomModel::MultiLineString(
                ls@.map_values(|l: LineString| l@),
            ),
            Geometry::Polygon(p) => GeomModel::Polygon(p@),
            Geometry::MultiPolygon(ps) => GeomModel::MultiPolygon(
                ps@.map_values(|p: Polygon| p@),
            ),
        }
    }
}

/// The ordered sequence of geometries decoded for one feature.
#[derive(Clone, PartialEq, Debug)]
pub struct GeometryCollection(pub Vec<Geometry>);

impl View for GeometryCollection {
    type V = Seq<GeomModel>;

    open spec fn view(&self) -> Seq<GeomModel> {
        self.0@.map_values(|g: Geometry| g@)
    }
}

/// A ring longer than this cannot exist in memory (its coordinates alone
/// would exceed the largest allocation the machine can hold); the decoder
/// refuses such a ring so that its area arithmetic stays exact.
pub const MAX_RING_LEN: u64 = 0x1000_0000_0000_0000;

/// One term of the shoelace sum: `prev` is the previous point, `cur` the
/// current one.
pub open spec fn shoelace_term(prev: Coordinate, cur: Coordinate) -> int {
    (cur.y - prev.y) * (cur.x + prev.x)
}

/// The shoelace sum over the points with index below `n`, each paired with
/// its cyclic predecessor.
pub open spec fn twice_area_partial(pts: Seq<Coordinate>, n: nat) -> int
    recommends
        n <= pts.len(),
    decreases n,
{
    if n == 0 {
        0
    } else {
        let i = (n - 1) as nat;
        let prev = if i == 0 {
            pts[pts.len() - 1]
        } else {
            pts[i - 1]
        };
        twice_area_partial(pts, i) + shoelace_term(prev, pts[i as int])
    }
}

/// Twice the signed area of the closed ring through the given points, by the
/// shoelace formula. Positive means an exterior ring.
pub open spec fn twice_area(pts: Seq<Coordinate>) -> int {
    twice_area_partial(pts, pts.len())
}

proof fn lemma_shoelace_term_bound(prev: Coordinate, cur: Coordinate)
    ensures
        -0x1_0000_0000_0000_0000 <= shoelace_term(prev, cur) <= 0x1_0000_0000_0000_0000,
{
    let dy = cur.y - prev.y;
    let sx = cur.x + prev.x;
    assert(-0x1_0000_0000 <= dy <= 0x1_0000_0000);
    assert(-0x1_0000_0000 <= sx <= 0x1_0000_0000);
    assert(-0x1_0000_0000_0000_0000 <= dy * sx <= 0x1_0000_0000_0000_0000) by (nonlinear_arith)
        requires
            -0x1_0000_0000 <= dy <= 0x1_0000_0000,
            -0x1_0000_0000 <= sx <= 0x1_0000_0000,
    ;
}

proof fn lemma_twice_area_partial_bound(pts: Seq<Coordinate>, n: nat)
    requires
        n <= pts.len(),
    ensures
        -0x1_0000_0000_0000_0000 * n <= twice_area_partial(pts, n) <= 0x1_0000_0000_0000_0000
            * n,
    decreases n,
{
    if n > 0 {
        let i = (n - 1) as nat;
        let prev = if i == 0 {
            pts[pts.len() - 1]
        } else {
            pts[i - 1]
        };
        lemma_twice_area_partial_bound(pts, i);
        lemma_shoelace_term_bound(prev, pts[i as int]);
    }
}

/// Twice the signed area of the closed ring through the given points. The
/// sign classifies a ring: positive means exterior, zero or negative means
/// interior. The length bound is forced by the machine: a longer coordinate
/// vector cannot be allocated.
pub fn shoelace_formula(points: &Vec<Coordinate>) -> (area2: i128)
    requires
        points@.len() <= MAX_RING_LEN,
    ensures
        area2 == twice_area(points@),
{
    let n = points.len();
    if n == 0 {
        return 0;
    }
    let mut acc: i128 = 0;
    let mut i: usize = 0;
    while i < n
        invariant
            0 < n == points@.len() <= MAX_RING_LEN,
            i <= n,
            acc == twice_area_partial(points@, i as nat),
            -0x1_0000_0000_0000_0000 * (i as int) <= acc <= 0x1_0000_0000_0000_0000 * (i as int),
        decreases n - i,
    {
        let prev = if i == 0 {
            points[n - 1]
        } else {
            points[i - 1]
        };
        let cur = points[i];
        let dy: i64 = (cur.y as i64) - (prev.y as i64);
        let sx: i64 = (cur.x as i64) + (prev.x as i64);
        proof {
            lemma_shoelace_term_bound(prev, cur);
            lemma_twice_area_partial_bound(points@, (i + 1) as nat);
        }
        let term: i128 = (dy as i128) * (sx as i128);
        assert(term == shoelace_term(prev, cur)) by (nonlinear_arith)
            requires
                term == (dy as int) * (sx as int),
                dy == cur.y - prev.y,
                sx == cur.x + prev.x,
        ;
        acc = acc + term;
        i = i + 1;
    }
    acc
}

} // verus!
