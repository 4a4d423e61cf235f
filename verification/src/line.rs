use vstd::prelude::*;

use crate::error::Error;
use crate::feature::{Feature, FeatureView};
use crate::fill::{interleave, lemma_interleave_len, lemma_interleave_snoc};
use crate::geom::{Coordinate, GeomModel, Geometry, GeometryCollection, LineString};

verus! {

// The GPU line path: polyline features become one flat vertex array and one
// index pair per edge, so the segment boundaries are explicit; the compute
// dispatch and the output buffers are sized from the exact edge count.

/// Each compute workgroup covers this many edges.
pub const WORK_GROUP_MAX_X: u64 = 256;

/// Bytes of one expanded output vertex: two position floats and two normal
/// floats.
pub const OUTPUT_VERTEX_BYTES: u64 = 16;

/// Bytes of one output index.
pub const INDEX_BYTES: u64 = 4;

/// The vertex/index stream under construction: flat vertices, one index
/// pair per edge, and the exact count of line edges.
#[verifier::ext_equal]
pub struct LineBuf {
    pub verts: Seq<i32>,
    pub idxs: Seq<u32>,
    pub edges: int,
}

/// The empty stream.
pub open spec fn empty_line_buf() -> LineBuf {
    LineBuf { verts: Seq::empty(), idxs: Seq::empty(), edges: 0 }
}

/// A well-formed stream: whole coordinate pairs, pairs addressable by 32-bit
/// indices, and no more edges than vertices.
pub open spec fn line_buf_wf(b: LineBuf) -> bool {
    &&& b.verts.len() % 2 == 0
    &&& b.verts.len() / 2 <= u32::MAX + 1
    &&& 0 <= b.edges <= b.verts.len() / 2
}

/// The index pairs of a polyline's edges: for each of the `count - 1` edges,
/// the indices of its two endpoints, shifted by the vertex pairs already in
/// the buffer.
pub open spec fn edge_pair_indices(offset: int, count: int) -> Seq<u32> {
    Seq::new(
        if count <= 0 {
            0nat
        } else {
            (2 * (count - 1)) as nat
        },
        |i: int|
            if i % 2 == 0 {
                ((offset + i / 2) as u32)
            } else {
                ((offset + i / 2 + 1) as u32)
            },
    )
}

/// Append one polyline: its coordinates, and an explicit index pair for each
/// of its edges, so no edge ever spans two polylines. `None` where an index
/// would leave 32 bits.
pub open spec fn add_line(b: LineBuf, line: Seq<Coordinate>) -> Option<LineBuf> {
    if line.len() == 0 {
        Some(b)
    } else {
        let offset = b.verts.len() / 2;
        if offset + line.len() - 1 > u32::MAX {
            None
        } else {
            Some(
                LineBuf {
                    verts: b.verts + interleave(line),
                    idxs: b.idxs + edge_pair_indices(offset as int, line.len() as int),
                    edges: b.edges + line.len() - 1,
                },
            )
        }
    }
}

/// Appending a polyline keeps the stream well formed.
pub proof fn lemma_add_line_wf(b: LineBuf, line: Seq<Coordinate>)
    requires
        line_buf_wf(b),
        add_line(b, line) is Some,
    ensures
        line_buf_wf(add_line(b, line).unwrap()),
{
    if line.len() > 0 {
        lemma_interleave_len(line);
    }
}

/// Append every polyline of a sequence.
pub open spec fn add_lines(b: LineBuf, ls: Seq<Seq<Coordinate>>) -> Option<LineBuf>
    decreases ls.len(),
{
    if ls.len() == 0 {
        Some(b)
    } else {
        match add_line(b, ls[0]) {
            None => None,
            Some(b2) => add_lines(b2, ls.drop_first()),
        }
    }
}

/// Append a geometry's polylines; other geometry kinds pass through without
/// effect.
pub open spec fn add_geometry(b: LineBuf, g: GeomModel) -> Option<LineBuf> {
    match g {
        GeomModel::LineString(l) => add_line(b, l),
        GeomModel::MultiLineString(ls) => add_lines(b, ls),
        _ => Some(b),
    }
}

/// Append every geometry of a collection.
pub open spec fn add_geometries(b: LineBuf, gs: Seq<GeomModel>) -> Option<LineBuf>
    decreases gs.len(),
{
    if gs.len() == 0 {
        Some(b)
    } else {
        match add_geometry(b, gs[0]) {
            None => None,
            Some(b2) => add_geometries(b2, gs.drop_first()),
        }
    }
}

/// Append every feature's geometries.
pub open spec fn add_features(b: LineBuf, fs: Seq<FeatureView<Seq<GeomModel>>>) -> Option<LineBuf>
    decreases fs.len(),
{
    if fs.len() == 0 {
        Some(b)
    } else {
        match add_geometries(b, fs[0].geometry) {
            None => None,
            Some(b2) => add_features(b2, fs.drop_first()),
        }
    }
}

/// The vertex/index stream of a feature list.
pub open spec fn line_buffers_spec(fs: Seq<FeatureView<Seq<GeomModel>>>) -> Option<LineBuf> {
    add_features(empty_line_buf(), fs)
}

/// Append one polyline to the executable stream. Leaves everything untouched
/// and answers false exactly where an index would leave 32 bits.
fn push_line(verts: &mut Vec<i32>, idxs: &mut Vec<u32>, edges: &mut u64, line: &LineString) -> (ok:
    bool)
    requires
        line_buf_wf(LineBuf { verts: old(verts)@, idxs: old(idxs)@, edges: *old(edges) as int }),
    ensures
        ({
            let pre = LineBuf { verts: old(verts)@, idxs: old(idxs)@, edges: *old(edges) as int };
            let post = LineBuf { verts: final(verts)@, idxs: final(idxs)@, edges: *final(edges) as int };
            match add_line(pre, line@) {
                Some(b2) => ok && post == b2 && line_buf_wf(post),
                None => !ok && post == pre,
            }
        }),
{
    let ghost pre = LineBuf { verts: old(verts)@, idxs: old(idxs)@, edges: *old(edges) as int };
    let l = line.0.len();
    if l == 0 {
        return true;
    }
    let offset = verts.len() / 2;
    if (l as u64) - 1 > 0xffff_ffff {
        return false;
    }
    if offset as u64 > 0xffff_ffff - ((l as u64) - 1) {
        return false;
    }
    let ghost target = add_line(pre, line@).unwrap();
    proof {
        lemma_add_line_wf(pre, line@);
    }
    let mut j: usize = 0;
    proof {
        assert(line.0@.subrange(0, 0int) =~= Seq::<Coordinate>::empty());
        assert(interleave(Seq::<Coordinate>::empty()) =~= Seq::<i32>::empty());
        assert(pre.verts + interleave(line.0@.subrange(0, 0int)) =~= pre.verts);
    }
    while j < l
        invariant
            j <= l == line.0@.len(),
            verts@ == pre.verts + interleave(line.0@.subrange(0, j as int)),
            idxs@ == pre.idxs,
            edges == old(edges),
        decreases l - j,
    {
        let c = line.0[j];
        proof {
            lemma_interleave_snoc(line.0@.subrange(0, j as int), c);
            assert(line.0@.subrange(0, j as int).push(c) =~= line.0@.subrange(0, j + 1 as int));
        }
        verts.push(c.x);
        verts.push(c.y);
        proof {
            assert(verts@ =~= pre.verts + interleave(line.0@.subrange(0, j + 1 as int)));
        }
        j = j + 1;
    }
    proof {
        assert(line.0@.subrange(0, l as int) =~= line.0@);
        assert(verts@ == target.verts);
        assert(edge_pair_indices(offset as int, 1int) =~= Seq::<u32>::empty());
        assert(pre.idxs + edge_pair_indices(offset as int, 1int) =~= pre.idxs);
    }
    let mut j: usize = 0;
    while j < l - 1
        invariant
            1 <= l == line.0@.len(),
            j <= l - 1,
            offset + l - 1 <= u32::MAX,
            idxs@ == pre.idxs + edge_pair_indices(offset as int, j + 1 as int),
            verts@ == target.verts,
            edges == old(edges),
        decreases l - 1 - j,
    {
        idxs.push((offset + j) as u32);
        idxs.push((offset + j + 1) as u32);
        proof {
            assert(idxs@ =~= pre.idxs + edge_pair_indices(offset as int, j + 2 as int));
        }
        j = j + 1;
    }
    proof {
        assert(idxs@ =~= target.idxs);
    }
    *edges = *edges + ((l as u64) - 1);
    true
}

/// Assemble the polyline vertex/index stream of a feature list, with the
/// exact edge count for the compute dispatch. Fails with
/// `GpuResourceExhausted` exactly where an index would leave 32 bits, never
/// truncating silently.
pub fn get_buffers(features: &Vec<Feature<GeometryCollection>>) -> (r: Result<
    (Vec<i32>, Vec<u32>, u64),
    Error,
>)
    ensures
        match line_buffers_spec(
            features@.map_values(|f: Feature<GeometryCollection>| f@),
        ) {
            Some(b) => r is Ok && r.unwrap().0@ == b.verts && r.unwrap().1@ == b.idxs && r.unwrap().2
                as int == b.edges && line_buf_wf(b),
            None => r == Err::<(Vec<i32>, Vec<u32>, u64), Error>(Error::GpuResourceExhausted),
        },
{
    let ghost fs = features@.map_values(|f: Feature<GeometryCollection>| f@);
    let mut verts: Vec<i32> = Vec::new();
    let mut idxs: Vec<u32> = Vec::new();
    let mut edges: u64 = 0;
    let n = features.len();
    let mut i: usize = 0;
    proof {
        assert(fs.skip(0int) =~= fs);
        assert(LineBuf { verts: verts@, idxs: idxs@, edges: edges as int } =~= empty_line_buf());
    }
    while i < n
        invariant
            n == features@.len(),
            fs == features@.map_values(|f: Feature<GeometryCollection>| f@),
            i <= n,
            line_buf_wf(LineBuf { verts: verts@, idxs: idxs@, edges: edges as int }),
            add_features(
                LineBuf { verts: verts@, idxs: idxs@, edges: edges as int },
                fs.skip(i as int),
            ) == line_buffers_spec(fs),
        decreases n - i,
    {
        let ghost rest = fs.skip(i as int);
        proof {
            assert(rest[0] == fs[i as int]);
            assert(rest.drop_first() =~= fs.skip(i + 1 as int));
        }
        let gs = &features[i].geometry.0;
        let gn = gs.len();
        let ghost gsv = fs[i as int].geometry;
        proof {
            assert(gsv == gs@.map_values(|g: Geometry| g@));
            assert(gsv.skip(0int) =~= gsv);
        }
        let ghost feature_start = LineBuf { verts: verts@, idxs: idxs@, edges: edges as int };
        let mut j: usize = 0;
        while j < gn
            invariant
                gn == gs@.len(),
                gsv == gs@.map_values(|g: Geometry| g@),
                j <= gn,
                fs == features@.map_values(|f: Feature<GeometryCollection>| f@),
                i < fs.len(),
                fs[i as int].geometry == gsv,
                add_features(feature_start, fs.skip(i as int)) == line_buffers_spec(fs),
                line_buf_wf(LineBuf { verts: verts@, idxs: idxs@, edges: edges as int }),
                add_geometries(
                    LineBuf { verts: verts@, idxs: idxs@, edges: edges as int },
                    gsv.skip(j as int),
                ) == add_geometries(feature_start, gsv),
            decreases gn - j,
        {
            let ghost grest = gsv.skip(j as int);
            proof {
                assert(grest[0] == gsv[j as int]);
                assert(grest.drop_first() =~= gsv.skip(j + 1 as int));
                assert(fs.skip(i as int)[0] == fs[i as int]);
            }
            match &gs[j] {
                Geometry::LineString(l) => {
                    if !push_line(&mut verts, &mut idxs, &mut edges, l) {
                        proof {
                            assert(add_geometries(feature_start, gsv) is None);
                            assert(add_features(feature_start, fs.skip(i as int)) is None);
                        }
                        return Err(Error::GpuResourceExhausted);
                    }
                },
                Geometry::MultiLineString(ls) => {
                    let ln = ls.len();
                    let ghost lsv = ls@.map_values(|l: LineString| l@);
                    let ghost geom_start = LineBuf {
                        verts: verts@,
                        idxs: idxs@,
                        edges: edges as int,
                    };
                    proof {
                        assert(lsv.skip(0int) =~= lsv);
                    }
                    let mut k: usize = 0;
                    while k < ln
                        invariant
                            ln == ls@.len(),
                            lsv == ls@.map_values(|l: LineString| l@),
                            k <= ln,
                            fs == features@.map_values(|f: Feature<GeometryCollection>| f@),
                            i < fs.len(),
                            fs[i as int].geometry == gsv,
                            j < gsv.len(),
                            gsv[j as int] == GeomModel::MultiLineString(lsv),
                            add_features(feature_start, fs.skip(i as int)) == line_buffers_spec(
                                fs,
                            ),
                            add_geometries(geom_start, gsv.skip(j as int)) == add_geometries(
                                feature_start,
                                gsv,
                            ),
                            line_buf_wf(
                                LineBuf { verts: verts@, idxs: idxs@, edges: edges as int },
                            ),
                            add_lines(
                                LineBuf { verts: verts@, idxs: idxs@, edges: edges as int },
                                lsv.skip(k as int),
                            ) == add_lines(geom_start, lsv),
                        decreases ln - k,
                    {
                        let ghost lrest = lsv.skip(k as int);
                        proof {
                            assert(lrest[0] == lsv[k as int]);
                            assert(lrest.drop_first() =~= lsv.skip(k + 1 as int));
                        }
                        if !push_line(&mut verts, &mut idxs, &mut edges, &ls[k]) {
                            proof {
                                assert(add_lines(geom_start, lsv) is None);
                                assert(gsv.skip(j as int)[0] == gsv[j as int]);
                                assert(add_geometries(geom_start, gsv.skip(j as int)) is None);
                                assert(add_geometries(feature_start, gsv) is None);
                                assert(fs.skip(i as int)[0] == fs[i as int]);
                                assert(add_features(feature_start, fs.skip(i as int)) is None);
                            }
                            return Err(Error::GpuResourceExhausted);
                        }
                        k = k + 1;
                    }
                    proof {
                        assert(lsv.skip(ln as int) =~= Seq::<Seq<Coordinate>>::empty());
                    }
                },
                _ => (),
            }
            j = j + 1;
        }
        proof {
            assert(gsv.skip(gn as int) =~= Seq::<GeomModel>::empty());
        }
        i = i + 1;
    }
    proof {
        assert(fs.skip(n as int) =~= Seq::<FeatureView<Seq<GeomModel>>>::empty());
    }
    Ok((verts, idxs, edges))
}

/// The workgroup count that covers every edge: the edge count divided by the
/// workgroup width, rounded up.
pub fn workgroup_count(edge_count: u64) -> (r: u64)
    ensures
        r == ((edge_count as int) + (WORK_GROUP_MAX_X as int) - 1) / (WORK_GROUP_MAX_X as int),
{
    let q = edge_count / WORK_GROUP_MAX_X;
    let rem = edge_count % WORK_GROUP_MAX_X;
    if rem == 0 {
        q
    } else {
        q + 1
    }
}

/// The byte size of the output vertex buffer: four expanded vertices per
/// edge. `None` marks a size beyond 64 bits; the caller must treat it as
/// exhausted, never truncate.
pub fn line_vertices_buffer_size(edge_count: u64) -> (r: Option<u64>)
    ensures
        match r {
            Some(s) => s == edge_count * 4 * OUTPUT_VERTEX_BYTES,
            None => (edge_count as int) * 4 * (OUTPUT_VERTEX_BYTES as int) > u64::MAX,
        },
{
    edge_count.checked_mul(4 * OUTPUT_VERTEX_BYTES)
}

/// The byte size of the output index buffer: six indices per edge. `None`
/// marks a size beyond 64 bits; the caller must treat it as exhausted, never
/// truncate.
pub fn line_indices_buffer_size(edge_count: u64) -> (r: Option<u64>)
    ensures
        match r {
            Some(s) => s == edge_count * 6 * INDEX_BYTES,
            None => (edge_count as int) * 6 * (INDEX_BYTES as int) > u64::MAX,
        },
{
    edge_count.checked_mul(6 * INDEX_BYTES)
}

} // verus!
