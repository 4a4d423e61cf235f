use vstd::prelude::*;

use crate::error::Error;
use crate::geom::{Coordinate, LineString, PolyModel, Polygon};

verus! {

// The CPU polygon path: a polygon's rings are flattened into one vertex
// array with hole boundaries for the ear-clipping triangulator, and the
// triangulator's output joins the tile's buffers with its indices shifted by
// the vertices already there.

/// A coordinate sequence as a flat array: x then y for each point.
pub open spec fn interleave(cs: Seq<Coordinate>) -> Seq<i32>
    decreases cs.len(),
{
    if cs.len() == 0 {
        Seq::empty()
    } else {
        seq![cs[0].x, cs[0].y] + interleave(cs.drop_first())
    }
}

pub proof fn lemma_interleave_len(cs: Seq<Coordinate>)
    ensures
        interleave(cs).len() == 2 * cs.len(),
    decreases cs.len(),
{
    if cs.len() > 0 {
        lemma_interleave_len(cs.drop_first());
    }
}

pub proof fn lemma_interleave_snoc(cs: Seq<Coordinate>, c: Coordinate)
    ensures
        interleave(cs.push(c)) == interleave(cs) + seq![c.x, c.y],
    decreases cs.len(),
{
    let p = cs.push(c);
    if cs.len() == 0 {
        assert(p[0] == c);
        assert(p.drop_first() =~= Seq::<Coordinate>::empty());
        assert(interleave(Seq::<Coordinate>::empty()) =~= Seq::<i32>::empty());
        assert(interleave(p) =~= seq![c.x, c.y] + interleave(p.drop_first()));
        assert(interleave(p) =~= interleave(cs) + seq![c.x, c.y]);
    } else {
        assert(p[0] == cs[0]);
        assert(p.drop_first() =~= cs.drop_first().push(c));
        lemma_interleave_snoc(cs.drop_first(), c);
        assert(seq![cs[0].x, cs[0].y] + (interleave(cs.drop_first()) + seq![c.x, c.y]) =~= interleave(
            cs,
        ) + seq![c.x, c.y]);
    }
}

/// A ring without its closing point: the decoder stores each ring with its
/// first point appended again, and the flat array must not carry that
/// duplicate.
pub open spec fn ring_open(r: Seq<Coordinate>) -> Seq<Coordinate> {
    if r.len() > 0 {
        r.drop_last()
    } else {
        r
    }
}

/// The rings of a polygon, exterior first.
pub open spec fn poly_rings(p: PolyModel) -> Seq<Seq<Coordinate>> {
    seq![p.exterior] + p.interiors
}

/// The open coordinates of the rings up to `n`, concatenated.
pub open spec fn flat_coords_prefix(rings: Seq<Seq<Coordinate>>, n: int) -> Seq<Coordinate>
    decreases n,
{
    if n <= 0 {
        Seq::empty()
    } else {
        flat_coords_prefix(rings, n - 1) + ring_open(rings[n - 1])
    }
}

/// The flat vertex array of a polygon: the exterior ring's open coordinates,
/// then each interior ring's.
pub open spec fn polygon_flat(p: PolyModel) -> Seq<i32> {
    interleave(flat_coords_prefix(poly_rings(p), poly_rings(p).len() as int))
}

/// The hole boundaries of a polygon: for each ring but the last, the vertex
/// index where the following ring starts.
pub open spec fn polygon_holes(p: PolyModel) -> Seq<int> {
    let rings = poly_rings(p);
    Seq::new((rings.len() - 1) as nat, |j: int| flat_coords_prefix(rings, j + 1).len() as int)
}

/// Append one ring's open coordinates to a flat vertex array.
fn push_open_ring(vertices: &mut Vec<i32>, ring: &LineString)
    ensures
        final(vertices)@ == old(vertices)@ + interleave(ring_open(ring@)),
{
    let rlen = ring.0.len();
    let end = if rlen > 0 {
        rlen - 1
    } else {
        0
    };
    proof {
        assert(ring.0@.subrange(0, end as int) =~= ring_open(ring@));
        assert(ring.0@.subrange(0, 0int) =~= Seq::<Coordinate>::empty());
        assert(interleave(Seq::<Coordinate>::empty()) =~= Seq::<i32>::empty());
        assert(old(vertices)@ + interleave(ring.0@.subrange(0, 0int)) =~= old(vertices)@);
    }
    let mut j: usize = 0;
    while j < end
        invariant
            j <= end <= ring.0@.len(),
            vertices@ == old(vertices)@ + interleave(ring.0@.subrange(0, j as int)),
        decreases end - j,
    {
        let c = ring.0[j];
        proof {
            lemma_interleave_snoc(ring.0@.subrange(0, j as int), c);
            assert(ring.0@.subrange(0, j as int).push(c) =~= ring.0@.subrange(0, j + 1 as int));
        }
        vertices.push(c.x);
        vertices.push(c.y);
        proof {
            assert(vertices@ =~= old(vertices)@ + interleave(ring.0@.subrange(0, j + 1 as int)));
        }
        j = j + 1;
    }
}

/// Flatten a polygon for the triangulator: the open coordinates of all its
/// rings as one flat array, and the vertex index where each hole starts.
pub fn flatten_polygon(polygon: &Polygon) -> (r: (Vec<i32>, Vec<usize>))
    ensures
        r.0@ == polygon_flat(polygon@),
        r.1@.map_values(|h: usize| h as int) == polygon_holes(polygon@),
{
    let ghost rings = poly_rings(polygon@);
    let mut vertices: Vec<i32> = Vec::new();
    let mut holes: Vec<usize> = Vec::new();
    proof {
        assert(rings[0] == polygon.exterior@);
        assert(flat_coords_prefix(rings, 0int) =~= Seq::<Coordinate>::empty());
        assert(Seq::<i32>::empty() + interleave(ring_open(rings[0])) =~= interleave(
            ring_open(rings[0]),
        ));
        assert(interleave(Seq::<Coordinate>::empty()) =~= Seq::<i32>::empty());
    }
    push_open_ring(&mut vertices, &polygon.exterior);
    proof {
        assert(flat_coords_prefix(rings, 1int) =~= ring_open(rings[0]));
        assert(vertices@ =~= interleave(flat_coords_prefix(rings, 1int)));
    }
    let int_count = polygon.interiors.len();
    if int_count > 0 {
        holes.push(vertices.len() / 2);
        proof {
            lemma_interleave_len(flat_coords_prefix(rings, 1int));
            assert(holes@.map_values(|h: usize| h as int) =~= Seq::new(
                1nat,
                |j: int| flat_coords_prefix(rings, j + 1).len() as int,
            ));
        }
    }
    let mut i: usize = 0;
    while i < int_count
        invariant
            int_count == polygon.interiors@.len(),
            rings == poly_rings(polygon@),
            rings.len() == 1 + int_count,
            forall|k: int| 0 <= k < int_count ==> rings[k + 1] == polygon.interiors@[k]@,
            i <= int_count,
            vertices@ == interleave(flat_coords_prefix(rings, i + 1 as int)),
            holes@.map_values(|h: usize| h as int) == Seq::new(
                (if int_count == 0 {
                    0int
                } else if i < int_count {
                    i + 1
                } else {
                    int_count as int
                }) as nat,
                |j: int| flat_coords_prefix(rings, j + 1).len() as int,
            ),
        decreases int_count - i,
    {
        let ring = &polygon.interiors[i];
        proof {
            assert(rings[i + 1 as int] == ring@);
        }
        let ghost pre_verts = vertices@;
        push_open_ring(&mut vertices, ring);
        proof {
            assert(vertices@ =~= interleave(flat_coords_prefix(rings, i + 2 as int))) by {
                assert(flat_coords_prefix(rings, i + 2 as int) == flat_coords_prefix(
                    rings,
                    i + 1 as int,
                ) + ring_open(rings[i + 1 as int]));
                lemma_interleave_append(
                    flat_coords_prefix(rings, i + 1 as int),
                    ring_open(rings[i + 1 as int]),
                );
            }
        }
        if i + 1 < int_count {
            let ghost pre_holes = holes@.map_values(|h: usize| h as int);
            holes.push(vertices.len() / 2);
            proof {
                lemma_interleave_len(flat_coords_prefix(rings, i + 2 as int));
                assert(holes@.map_values(|h: usize| h as int) =~= pre_holes.push(
                    flat_coords_prefix(rings, i + 2 as int).len() as int,
                ));
                assert(holes@.map_values(|h: usize| h as int) =~= Seq::new(
                    (i + 2) as nat,
                    |j: int| flat_coords_prefix(rings, j + 1).len() as int,
                ));
            }
        }
        i = i + 1;
    }
    proof {
        assert(holes@.map_values(|h: usize| h as int) =~= polygon_holes(polygon@));
    }
    (vertices, holes)
}

pub proof fn lemma_interleave_append(a: Seq<Coordinate>, b: Seq<Coordinate>)
    ensures
        interleave(a + b) == interleave(a) + interleave(b),
    decreases b.len(),
{
    if b.len() == 0 {
        assert(a + b =~= a);
        assert(interleave(b) =~= Seq::<i32>::empty());
        assert(interleave(a) + interleave(b) =~= interleave(a));
    } else {
        assert(a + b =~= (a + b.drop_last()).push(b.last()));
        assert(a + b.drop_last() =~= (a + b).drop_last());
        lemma_interleave_snoc(a + b.drop_last(), b.last());
        lemma_interleave_append(a, b.drop_last());
        assert(b.drop_last().push(b.last()) =~= b);
        lemma_interleave_snoc(b.drop_last(), b.last());
        assert(interleave(a) + (interleave(b.drop_last()) + seq![b.last().x, b.last().y]) =~= (
        interleave(a) + interleave(b.drop_last())) + seq![b.last().x, b.last().y]);
    }
}

/// The vertex and index buffers of one tile, filled feature by feature. Every
/// index stays below the number of vertex pairs.
pub struct TileBuffers {
    pub vertices: Vec<i32>,
    pub indices: Vec<u32>,
}

/// Well-formed tile buffers: whole coordinate pairs, and every index points
/// at one of them.
pub open spec fn buffers_wf(b: TileBuffers) -> bool {
    &&& b.vertices@.len() % 2 == 0
    &&& forall|k: int|
        0 <= k < b.indices@.len() ==> (#[trigger] b.indices@[k]) < b.vertices@.len() / 2
}

impl TileBuffers {
    /// Empty buffers.
    pub fn new() -> (r: TileBuffers)
        ensures
            r.vertices@ == Seq::<i32>::empty(),
            r.indices@ == Seq::<u32>::empty(),
            buffers_wf(r),
    {
        TileBuffers { vertices: Vec::new(), indices: Vec::new() }
    }

    /// Append one triangulated polygon: the flat vertices it was triangulated
    /// over, and the triangle indices the triangulator returned. Each index
    /// is shifted by the vertices already in the buffer, so several features
    /// concatenate into one tile buffer. An index pointing outside the given
    /// vertices is a `Triangulation` error; an index that cannot be shifted
    /// without leaving 32 bits is `GpuResourceExhausted`. On any error the
    /// buffers stay as they were.
    pub fn add_triangulation(&mut self, vertices: &Vec<i32>, triangles: &Vec<usize>) -> (r:
        Result<(), Error>)
        requires
            vertices@.len() % 2 == 0,
            buffers_wf(*old(self)),
        ensures
            buffers_wf(*final(self)),
            ({
                let vcount = vertices@.len() / 2;
                let offset = old(self).vertices@.len() / 2;
                let fits = forall|k: int|
                    0 <= k < triangles@.len() ==> (#[trigger] triangles@[k]) < vcount;
                let small = forall|k: int|
                    0 <= k < triangles@.len() ==> offset + (#[trigger] triangles@[k])
                        <= u32::MAX;
                if !fits {
                    r == Err::<(), Error>(Error::Triangulation) && *final(self) == *old(self)
                } else if !small {
                    r == Err::<(), Error>(Error::GpuResourceExhausted) && *final(self) == *old(
                        self,
                    )
                } else {
                    r is Ok && final(self).vertices@ == old(self).vertices@ + vertices@
                        && final(self).indices@ == old(self).indices@ + triangles@.map_values(
                        |t: usize| ((offset + t) as u32),
                    )
                }
            }),
    {
        let vcount = vertices.len() / 2;
        let offset = self.vertices.len() / 2;
        let n = triangles.len();
        let mut k: usize = 0;
        while k < n
            invariant
                n == triangles@.len(),
                k <= n,
                *self == *old(self),
                buffers_wf(*old(self)),
                vcount == vertices@.len() / 2,
                forall|t: int| 0 <= t < k ==> (#[trigger] triangles@[t]) < vcount,
            decreases n - k,
        {
            if triangles[k] >= vcount {
                return Err(Error::Triangulation);
            }
            k = k + 1;
        }
        let mut k: usize = 0;
        while k < n
            invariant
                n == triangles@.len(),
                k <= n,
                *self == *old(self),
                buffers_wf(*old(self)),
                vcount == vertices@.len() / 2,
                offset == self.vertices@.len() / 2,
                forall|t: int| 0 <= t < n ==> (#[trigger] triangles@[t]) < vcount,
                forall|t: int|
                    0 <= t < k ==> offset + (#[trigger] triangles@[t]) <= u32::MAX,
            decreases n - k,
        {
            if triangles[k] as u64 > (u32::MAX as u64) || offset as u64 > (u32::MAX as u64) - (
            triangles[k] as u64) {
                return Err(Error::GpuResourceExhausted);
            }
            k = k + 1;
        }
        let ghost pre_verts = self.vertices@;
        let ghost pre_idx = self.indices@;
        let mut k: usize = 0;
        while k < vertices.len()
            invariant
                k <= vertices@.len(),
                self.vertices@ == pre_verts + vertices@.subrange(0, k as int),
                self.indices@ == pre_idx,
            decreases vertices@.len() - k,
        {
            self.vertices.push(vertices[k]);
            proof {
                assert(self.vertices@ =~= pre_verts + vertices@.subrange(0, k + 1 as int));
            }
            k = k + 1;
        }
        proof {
            assert(vertices@.subrange(0, vertices@.len() as int) =~= vertices@);
        }
        let mut k: usize = 0;
        while k < n
            invariant
                n == triangles@.len(),
                k <= n,
                offset == pre_verts.len() / 2,
                self.vertices@ == pre_verts + vertices@,
                vcount == vertices@.len() / 2,
                forall|t: int| 0 <= t < n ==> (#[trigger] triangles@[t]) < vcount,
                forall|t: int|
                    0 <= t < n ==> offset + (#[trigger] triangles@[t]) <= u32::MAX,
                self.indices@ == pre_idx + triangles@.subrange(0, k as int).map_values(
                    |t: usize| ((offset + t) as u32),
                ),
            decreases n - k,
        {
            let idx = (offset + triangles[k]) as u32;
            self.indices.push(idx);
            proof {
                assert(triangles@.subrange(0, k + 1 as int) =~= triangles@.subrange(
                    0,
                    k as int,
                ).push(triangles@[k as int]));
                assert(triangles@.subrange(0, k + 1 as int).map_values(
                    |t: usize| ((offset + t) as u32),
                ) =~= triangles@.subrange(0, k as int).map_values(
                    |t: usize| ((offset + t) as u32),
                ).push(((offset + triangles@[k as int]) as u32)));
                assert(self.indices@ =~= pre_idx + triangles@.subrange(0, k + 1 as int).map_values(
                    |t: usize| ((offset + t) as u32),
                ));
            }
            k = k + 1;
        }
        proof {
            assert(triangles@.subrange(0, n as int) =~= triangles@);
            assert forall|t: int| 0 <= t < self.indices@.len() implies (#[trigger] self.indices@[
            t]) < self.vertices@.len() / 2 by {
                if t < pre_idx.len() {
                    assert(pre_idx[t] < pre_verts.len() / 2);
                } else {
                    let j = t - pre_idx.len();
                    assert(self.indices@[t] == triangles@.map_values(
                        |x: usize| ((offset + x) as u32),
                    )[j]);
                }
            }
        }
        Ok(())
    }
}

} // verus!
