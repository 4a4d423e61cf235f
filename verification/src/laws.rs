use vstd::prelude::*;

use crate::codec::{
    delta_pair, delta_params, lemma_zigzag_round_trip, ring_stream, rings_stream,
    zigzag_decode_spec, zigzag_encode_spec, CMD_CLOSE_PATH, CMD_LINE_TO, CMD_MOVE_TO,
};
use crate::decode::{
    decode_polygons_spec, finish_polys, init_poly_state, init_stream_state, lemma_poly_fold_append,
    parse_geometry_spec, poly_fold, poly_of_rings, poly_step, steps_of, stream_fold, stream_step,
    GeomType, PolyState, Step, StreamState,
};
use crate::geom::{twice_area, Coordinate, PolyModel, MAX_RING_LEN};

verus! {

// The decoder's laws: what canonically encoded rings decode to, and that the
// delta/zig-zag round trip is exact.

/// The cursor's starting point.
pub open spec fn coord_origin() -> Coordinate {
    Coordinate { x: 0, y: 0 }
}

/// A ring as the decoder stores it: the open ring with its first point
/// appended again.
pub open spec fn closed_ring(r: Seq<Coordinate>) -> Seq<Coordinate>
    recommends
        r.len() >= 1,
{
    r.push(r[0])
}

/// The steps a canonically encoded ring turns into.
pub open spec fn ring_steps(coords: Seq<Coordinate>) -> Seq<Step>
    recommends
        coords.len() >= 1,
{
    seq![Step::Move(coords[0])] + coords.drop_first().map_values(|c: Coordinate| Step::Line(c))
        + seq![Step::Close]
}

/// The steps a sequence of canonically encoded rings turns into.
pub open spec fn rings_steps(rings: Seq<Seq<Coordinate>>) -> Seq<Step>
    decreases rings.len(),
{
    if rings.len() == 0 {
        Seq::empty()
    } else {
        ring_steps(rings[0]) + rings_steps(rings.drop_first())
    }
}

pub proof fn lemma_stream_fold_append(a: Seq<u32>, b: Seq<u32>, s: StreamState)
    ensures
        stream_fold(a + b, s) == stream_fold(b, stream_fold(a, s)),
    decreases a.len(),
{
    if a.len() == 0 {
        assert(a + b =~= b);
    } else {
        assert((a + b)[0] == a[0]);
        assert((a + b).drop_first() =~= a.drop_first() + b);
        lemma_stream_fold_append(a.drop_first(), b, stream_step(s, a[0]));
    }
}

proof fn lemma_stream_fold_one(v: u32, s: StreamState)
    ensures
        stream_fold(seq![v], s) == stream_step(s, v),
{
    assert(seq![v].drop_first() =~= Seq::<u32>::empty());
    assert(stream_fold(seq![v], s) == stream_fold(seq![v].drop_first(), stream_step(s, v)));
}

/// Adding back a wrapped difference restores the original value.
proof fn lemma_wrap_round_trip(a: i32, b: i32)
    ensures
        vstd::wrapping::i32_specs::wrapping_add(
            a,
            vstd::wrapping::i32_specs::wrapping_sub(b, a),
        ) == b,
{
}

/// Folding one delta pair moves the cursor from `prev` exactly to `c` and
/// emits the coordinate as a step.
proof fn lemma_stream_pair(s: StreamState, prev: Coordinate, c: Coordinate)
    requires
        s.params >= 2,
        s.params % 2 == 0,
        s.cx == prev.x,
        s.cy == prev.y,
    ensures
        stream_fold(delta_pair(prev, c), s) == (StreamState {
            cx: c.x,
            cy: c.y,
            params: (s.params - 2) as nat,
            op: s.op,
            steps: s.steps.push(
                if s.op == CMD_MOVE_TO {
                    Step::Move(c)
                } else {
                    Step::Line(c)
                },
            ),
        }),
{
    let dx = vstd::wrapping::i32_specs::wrapping_sub(c.x, prev.x);
    let dy = vstd::wrapping::i32_specs::wrapping_sub(c.y, prev.y);
    let v0 = zigzag_encode_spec(dx);
    let v1 = zigzag_encode_spec(dy);
    lemma_zigzag_round_trip(dx);
    lemma_zigzag_round_trip(dy);
    lemma_wrap_round_trip(prev.x, c.x);
    lemma_wrap_round_trip(prev.y, c.y);
    let s1 = stream_step(s, v0);
    assert(zigzag_decode_spec(v0) as i32 == dx);
    assert(s1.cx == c.x && s1.cy == prev.y && s1.params == s.params - 1);
    let s2 = stream_step(s1, v1);
    assert(zigzag_decode_spec(v1) as i32 == dy);
    assert(delta_pair(prev, c)[0] == v0);
    assert(delta_pair(prev, c).drop_first() =~= seq![v1]);
    assert(stream_fold(delta_pair(prev, c), s) == stream_fold(seq![v1], s1));
    lemma_stream_fold_one(v1, s1);
}

/// Folding a run of delta pairs under a LineTo command walks the cursor
/// through every coordinate and emits each as a Line step.
proof fn lemma_stream_line_params(prev: Coordinate, coords: Seq<Coordinate>, s: StreamState)
    requires
        s.params == 2 * coords.len(),
        s.op == CMD_LINE_TO,
        s.cx == prev.x,
        s.cy == prev.y,
    ensures
        stream_fold(delta_params(prev, coords), s) == (StreamState {
            cx: if coords.len() == 0 {
                prev.x
            } else {
                coords.last().x
            },
            cy: if coords.len() == 0 {
                prev.y
            } else {
                coords.last().y
            },
            params: 0nat,
            op: s.op,
            steps: s.steps + coords.map_values(|c: Coordinate| Step::Line(c)),
        }),
    decreases coords.len(),
{
    if coords.len() == 0 {
        assert(delta_params(prev, coords) =~= Seq::<u32>::empty());
        assert(s.steps + coords.map_values(|c: Coordinate| Step::Line(c)) =~= s.steps);
    } else {
        let c0 = coords[0];
        let rest = coords.drop_first();
        assert(delta_params(prev, coords) == delta_pair(prev, c0) + delta_params(c0, rest));
        lemma_stream_fold_append(delta_pair(prev, c0), delta_params(c0, rest), s);
        lemma_stream_pair(s, prev, c0);
        let s1 = stream_fold(delta_pair(prev, c0), s);
        assert(s1.op == CMD_LINE_TO && s1.params == 2 * rest.len());
        lemma_stream_line_params(c0, rest, s1);
        assert(rest.len() != 0 ==> rest.last() == coords.last());
        assert(s.steps.push(Step::Line(c0)) + rest.map_values(|c: Coordinate| Step::Line(c))
            =~= s.steps + coords.map_values(|c: Coordinate| Step::Line(c)));
    }
}

/// Folding a canonically encoded ring leaves the cursor on the ring's last
/// point and emits exactly the ring's steps.
pub proof fn lemma_stream_ring(start: Coordinate, coords: Seq<Coordinate>, s: StreamState)
    requires
        s.params == 0,
        s.cx == start.x,
        s.cy == start.y,
        1 <= coords.len() <= 0x2000_0000,
    ensures
        stream_fold(ring_stream(start, coords), s) == (StreamState {
            cx: coords.last().x,
            cy: coords.last().y,
            params: 0nat,
            op: CMD_LINE_TO,
            steps: s.steps + ring_steps(coords),
        }),
{
    let c0 = coords[0];
    let rest = coords.drop_first();
    let mv = crate::codec::command_integer_spec(CMD_MOVE_TO, 1);
    let ln = crate::codec::command_integer_spec(CMD_LINE_TO, (coords.len() - 1) as u32);
    let cl = crate::codec::command_integer_spec(CMD_CLOSE_PATH, 1);
    let k = (coords.len() - 1) as u32;
    assert(crate::codec::command_id_spec(ln) == CMD_LINE_TO && crate::codec::command_count_spec(
        ln,
    ) == k) by (nonlinear_arith)
        requires
            ln == ((k * 8 + CMD_LINE_TO)) as u32,
            k < 0x2000_0000,
            CMD_LINE_TO == 2u32,
            crate::codec::command_id_spec(ln) == ln % 8,
            crate::codec::command_count_spec(ln) == ln / 8,
    ;
    let part1 = seq![mv] + delta_pair(start, c0);
    let part2 = seq![ln] + delta_params(c0, rest);
    assert(ring_stream(start, coords) =~= part1 + (part2 + seq![cl]));
    lemma_stream_fold_append(part1, part2 + seq![cl], s);
    lemma_stream_fold_append(seq![mv], delta_pair(start, c0), s);
    assert(part1 =~= seq![mv] + delta_pair(start, c0));
    lemma_stream_fold_one(mv, s);
    let s_mv = stream_step(s, mv);
    assert(s_mv.params == 2 && s_mv.op == CMD_MOVE_TO);
    lemma_stream_pair(s_mv, start, c0);
    let s_c0 = stream_fold(delta_pair(start, c0), s_mv);
    assert(s_c0 == stream_fold(part1, s));
    assert(s_c0.steps == s.steps.push(Step::Move(c0)));
    lemma_stream_fold_append(part2, seq![cl], s_c0);
    lemma_stream_fold_append(seq![ln], delta_params(c0, rest), s_c0);
    assert(part2 =~= seq![ln] + delta_params(c0, rest));
    lemma_stream_fold_one(ln, s_c0);
    let s_ln = stream_step(s_c0, ln);
    assert(s_ln.params == 2 * rest.len() && s_ln.op == CMD_LINE_TO);
    lemma_stream_line_params(c0, rest, s_ln);
    let s_lines = stream_fold(delta_params(c0, rest), s_ln);
    assert(rest.len() != 0 ==> rest.last() == coords.last());
    assert(s_lines.cx == coords.last().x && s_lines.cy == coords.last().y);
    lemma_stream_fold_one(cl, s_lines);
    let s_cl = stream_step(s_lines, cl);
    assert(s_cl.steps =~= s.steps + ring_steps(coords));
    assert(stream_fold(ring_stream(start, coords), s) == s_cl);
}

/// Folding a sequence of canonically encoded rings, each entering where the
/// previous one left the cursor, emits the concatenation of their steps.
pub proof fn lemma_stream_rings(start: Coordinate, rings: Seq<Seq<Coordinate>>, s: StreamState)
    requires
        s.params == 0,
        s.cx == start.x,
        s.cy == start.y,
        forall|i: int| 0 <= i < rings.len() ==> 1 <= (#[trigger] rings[i]).len() <= 0x2000_0000,
    ensures
        stream_fold(rings_stream(start, rings), s).steps == s.steps + rings_steps(rings),
        stream_fold(rings_stream(start, rings), s).params == 0,
        rings.len() > 0 ==> stream_fold(rings_stream(start, rings), s).cx == rings.last().last().x
            && stream_fold(rings_stream(start, rings), s).cy == rings.last().last().y,
        rings.len() == 0 ==> stream_fold(rings_stream(start, rings), s) == s,
    decreases rings.len(),
{
    if rings.len() == 0 {
        assert(rings_stream(start, rings) =~= Seq::<u32>::empty());
        assert(s.steps + rings_steps(rings) =~= s.steps);
    } else {
        let r0 = rings[0];
        let rest = rings.drop_first();
        lemma_stream_fold_append(ring_stream(start, r0), rings_stream(r0.last(), rest), s);
        lemma_stream_ring(start, r0, s);
        let s1 = stream_fold(ring_stream(start, r0), s);
        lemma_stream_rings(r0.last(), rest, s1);
        assert(rest.len() != 0 ==> rest.last() == rings.last());
        assert(s1.steps + rings_steps(rest) =~= s.steps + rings_steps(rings));
    }
}

proof fn lemma_poly_fold_one(st: Step, s: PolyState)
    ensures
        poly_fold(seq![st], Some(s)) == poly_step(s, st),
{
    assert(seq![st].drop_first() =~= Seq::<Step>::empty());
    assert(poly_fold(seq![st], Some(s)) == poly_fold(seq![st].drop_first(), poly_step(s, st)));
    match poly_step(s, st) {
        None => {
        },
        Some(_) => {
        },
    }
}

/// Line steps only grow the ring in progress.
proof fn lemma_poly_push_coords(coords: Seq<Coordinate>, s: PolyState)
    requires
        s.pending.len() + coords.len() <= MAX_RING_LEN,
    ensures
        poly_fold(coords.map_values(|c: Coordinate| Step::Line(c)), Some(s)) == Some(
            PolyState { pending: s.pending + coords, rings: s.rings, polys: s.polys },
        ),
    decreases coords.len(),
{
    let steps = coords.map_values(|c: Coordinate| Step::Line(c));
    if coords.len() == 0 {
        assert(s.pending + coords =~= s.pending);
        assert(steps.len() == 0);
        assert(PolyState { pending: s.pending + coords, rings: s.rings, polys: s.polys } =~= s);
    } else {
        let c0 = coords[0];
        assert(steps[0] == Step::Line(c0));
        assert(steps.drop_first() =~= coords.drop_first().map_values(
            |c: Coordinate| Step::Line(c),
        ));
        let s1 = PolyState { pending: s.pending.push(c0), rings: s.rings, polys: s.polys };
        assert(poly_step(s, Step::Line(c0)) == Some(s1));
        lemma_poly_push_coords(coords.drop_first(), s1);
        assert(s.pending.push(c0) + coords.drop_first() =~= s.pending + coords);
    }
}

/// What one canonically encoded ring does to the classifier: its coordinates
/// become the pending ring, and the ClosePath classifies it by its area.
proof fn lemma_poly_one_ring(r: Seq<Coordinate>, s: PolyState)
    requires
        s.pending.len() == 0,
        1 <= r.len() <= MAX_RING_LEN,
    ensures
        poly_fold(ring_steps(r), Some(s)) == Some(
            if twice_area(r) > 0 {
                PolyState {
                    pending: Seq::empty(),
                    rings: seq![closed_ring(r)],
                    polys: if s.rings.len() > 0 {
                        s.polys.push(poly_of_rings(s.rings))
                    } else {
                        s.polys
                    },
                }
            } else {
                PolyState {
                    pending: Seq::empty(),
                    rings: s.rings.push(closed_ring(r)),
                    polys: s.polys,
                }
            },
        ),
{
    let c0 = r[0];
    let rest = r.drop_first();
    let lines = rest.map_values(|c: Coordinate| Step::Line(c));
    assert(ring_steps(r) =~= seq![Step::Move(c0)] + (lines + seq![Step::Close]));
    lemma_poly_fold_append(seq![Step::Move(c0)], lines + seq![Step::Close], Some(s));
    lemma_poly_fold_one(Step::Move(c0), s);
    let s1 = PolyState { pending: s.pending.push(c0), rings: s.rings, polys: s.polys };
    assert(poly_step(s, Step::Move(c0)) == Some(s1));
    lemma_poly_fold_append(lines, seq![Step::Close], Some(s1));
    lemma_poly_push_coords(rest, s1);
    let s2 = PolyState { pending: s1.pending + rest, rings: s.rings, polys: s.polys };
    assert(s2.pending =~= r);
    lemma_poly_fold_one(Step::Close, s2);
    assert(s2.pending[0] == c0);
    assert(s2.pending.push(s2.pending[0]) =~= closed_ring(r));
}

/// Interior rings (area at most zero) only join the open ring set.
proof fn lemma_poly_interior_rings(rings: Seq<Seq<Coordinate>>, s: PolyState)
    requires
        s.pending.len() == 0,
        forall|i: int| 0 <= i < rings.len() ==> 1 <= (#[trigger] rings[i]).len() <= MAX_RING_LEN,
        forall|i: int| 0 <= i < rings.len() ==> twice_area(#[trigger] rings[i]) <= 0,
    ensures
        poly_fold(rings_steps(rings), Some(s)) == Some(
            PolyState {
                pending: Seq::empty(),
                rings: s.rings + rings.map_values(|r: Seq<Coordinate>| closed_ring(r)),
                polys: s.polys,
            },
        ),
    decreases rings.len(),
{
    if rings.len() == 0 {
        assert(rings_steps(rings).len() == 0);
        assert(s.rings + rings.map_values(|r: Seq<Coordinate>| closed_ring(r)) =~= s.rings);
        assert(PolyState {
            pending: Seq::empty(),
            rings: s.rings + rings.map_values(|r: Seq<Coordinate>| closed_ring(r)),
            polys: s.polys,
        } =~= PolyState { pending: Seq::empty(), rings: s.rings, polys: s.polys });
        assert(s =~= PolyState { pending: Seq::empty(), rings: s.rings, polys: s.polys });
    } else {
        let r0 = rings[0];
        let rest = rings.drop_first();
        lemma_poly_fold_append(ring_steps(r0), rings_steps(rest), Some(s));
        lemma_poly_one_ring(r0, s);
        let s1 = PolyState {
            pending: Seq::empty(),
            rings: s.rings.push(closed_ring(r0)),
            polys: s.polys,
        };
        lemma_poly_interior_rings(rest, s1);
        assert(s1.rings + rest.map_values(|r: Seq<Coordinate>| closed_ring(r)) =~= s.rings
            + rings.map_values(|r: Seq<Coordinate>| closed_ring(r)));
    }
}

/// A command stream carrying one closed ring with positive signed area
/// decodes to exactly one polygon with no interior rings.
pub proof fn lemma_single_exterior_ring(coords: Seq<Coordinate>)
    requires
        1 <= coords.len() <= 0x2000_0000,
        twice_area(coords) > 0,
    ensures
        decode_polygons_spec(ring_stream(coord_origin(), coords)) == Some(
            seq![PolyModel { exterior: closed_ring(coords), interiors: Seq::empty() }],
        ),
{
    lemma_stream_ring(coord_origin(), coords, init_stream_state());
    assert(steps_of(ring_stream(coord_origin(), coords)) =~= ring_steps(coords));
    lemma_poly_one_ring(coords, init_poly_state());
    let end = poly_fold(ring_steps(coords), Some(init_poly_state())).unwrap();
    assert(end.rings == seq![closed_ring(coords)]);
    assert(poly_of_rings(end.rings).interiors =~= Seq::<Seq<Coordinate>>::empty());
    assert(finish_polys(end) =~= seq![
        PolyModel { exterior: closed_ring(coords), interiors: Seq::empty() },
    ]);
}

/// A command stream carrying an exterior ring followed by rings of negative
/// (or zero) signed area decodes to a single polygon holding every following
/// ring as an interior.
pub proof fn lemma_exterior_with_interiors(rings: Seq<Seq<Coordinate>>)
    requires
        rings.len() >= 1,
        forall|i: int| 0 <= i < rings.len() ==> 1 <= (#[trigger] rings[i]).len() <= 0x2000_0000,
        twice_area(rings[0]) > 0,
        forall|i: int| 1 <= i < rings.len() ==> twice_area(#[trigger] rings[i]) <= 0,
    ensures
        decode_polygons_spec(rings_stream(coord_origin(), rings)) == Some(
            seq![
                PolyModel {
                    exterior: closed_ring(rings[0]),
                    interiors: rings.drop_first().map_values(
                        |r: Seq<Coordinate>| closed_ring(r),
                    ),
                },
            ],
        ),
{
    lemma_stream_rings(coord_origin(), rings, init_stream_state());
    assert(steps_of(rings_stream(coord_origin(), rings)) =~= rings_steps(rings));
    let r0 = rings[0];
    let rest = rings.drop_first();
    assert(rings_steps(rings) == ring_steps(r0) + rings_steps(rest));
    lemma_poly_fold_append(ring_steps(r0), rings_steps(rest), Some(init_poly_state()));
    lemma_poly_one_ring(r0, init_poly_state());
    let s1 = PolyState { pending: Seq::empty(), rings: seq![closed_ring(r0)], polys: Seq::empty() };
    assert(poly_fold(ring_steps(r0), Some(init_poly_state())) == Some(s1));
    assert(forall|i: int| 0 <= i < rest.len() ==> 1 <= (#[trigger] rest[i]).len()
        <= 0x2000_0000 && twice_area(rest[i]) <= 0);
    lemma_poly_interior_rings(rest, s1);
    let end = poly_fold(rings_steps(rings), Some(init_poly_state())).unwrap();
    assert(end.rings == seq![closed_ring(r0)] + rest.map_values(
        |r: Seq<Coordinate>| closed_ring(r),
    ));
    assert(end.rings[0] == closed_ring(r0));
    assert(poly_of_rings(end.rings).interiors =~= rest.map_values(
        |r: Seq<Coordinate>| closed_ring(r),
    ));
    assert(finish_polys(end) =~= seq![
        PolyModel {
            exterior: closed_ring(rings[0]),
            interiors: rings.drop_first().map_values(|r: Seq<Coordinate>| closed_ring(r)),
        },
    ]);
}

/// The coordinates a step sequence carries, in order.
pub open spec fn coords_of_steps(steps: Seq<Step>) -> Seq<Coordinate>
    decreases steps.len(),
{
    if steps.len() == 0 {
        Seq::empty()
    } else {
        match steps[0] {
            Step::Move(c) => seq![c] + coords_of_steps(steps.drop_first()),
            Step::Line(c) => seq![c] + coords_of_steps(steps.drop_first()),
            Step::Close => coords_of_steps(steps.drop_first()),
        }
    }
}

proof fn lemma_coords_of_line_steps(coords: Seq<Coordinate>, tail: Seq<Step>)
    ensures
        coords_of_steps(coords.map_values(|c: Coordinate| Step::Line(c)) + tail) == coords
            + coords_of_steps(tail),
    decreases coords.len(),
{
    let steps = coords.map_values(|c: Coordinate| Step::Line(c)) + tail;
    if coords.len() == 0 {
        assert(steps =~= tail);
        assert(coords + coords_of_steps(tail) =~= coords_of_steps(tail));
    } else {
        assert(steps[0] == Step::Line(coords[0]));
        assert(steps.drop_first() =~= coords.drop_first().map_values(
            |c: Coordinate| Step::Line(c),
        ) + tail);
        lemma_coords_of_line_steps(coords.drop_first(), tail);
        assert(seq![coords[0]] + (coords.drop_first() + coords_of_steps(tail)) =~= coords
            + coords_of_steps(tail));
    }
}

/// Delta/zig-zag round trip: decoding the canonical stream of known
/// coordinates reproduces them exactly, with no drift.
pub proof fn lemma_ring_round_trip(coords: Seq<Coordinate>)
    requires
        1 <= coords.len() <= 0x2000_0000,
    ensures
        coords_of_steps(steps_of(ring_stream(coord_origin(), coords))) == coords,
{
    lemma_stream_ring(coord_origin(), coords, init_stream_state());
    assert(steps_of(ring_stream(coord_origin(), coords)) =~= ring_steps(coords));
    assert(ring_steps(coords) =~= seq![Step::Move(coords[0])] + (coords.drop_first().map_values(
        |c: Coordinate| Step::Line(c),
    ) + seq![Step::Close]));
    lemma_coords_of_line_steps(coords.drop_first(), seq![Step::Close]);
    assert(seq![Step::Close].drop_first() =~= Seq::<Step>::empty());
    assert(coords_of_steps(Seq::<Step>::empty()) =~= Seq::<Coordinate>::empty());
    assert(coords_of_steps(seq![Step::Close]) =~= Seq::<Coordinate>::empty());
    assert(coords.drop_first() + coords_of_steps(seq![Step::Close]) =~= coords.drop_first());
    let tail = coords.drop_first().map_values(|c: Coordinate| Step::Line(c)) + seq![Step::Close];
    let all = seq![Step::Move(coords[0])] + tail;
    assert(all[0] == Step::Move(coords[0]));
    assert(all.drop_first() =~= tail);
    assert(coords_of_steps(all) =~= seq![coords[0]] + coords_of_steps(tail));
    assert(coords_of_steps(ring_steps(coords)) =~= seq![coords[0]] + coords.drop_first());
    assert(seq![coords[0]] + coords.drop_first() =~= coords);
}

/// Decoding depends on the command stream alone: the same stream, decoded
/// any number of times, yields structurally equal geometry collections. The
/// executable decoder's contract ties its result to this function of the
/// input, so two runs of it agree.
pub proof fn lemma_decode_deterministic(cmds1: Seq<u32>, cmds2: Seq<u32>, t: GeomType)
    requires
        cmds1 == cmds2,
    ensures
        parse_geometry_spec(cmds1, t) == parse_geometry_spec(cmds2, t),
{
}

/// Parsing depends on the payload bytes alone: the same bytes, parsed any
/// number of times, yield structurally equal layers and features. The
/// executable parser's contract ties its result to these functions of the
/// bytes, so two runs of it agree.
pub proof fn lemma_parse_deterministic(bytes1: Seq<u8>, bytes2: Seq<u8>)
    requires
        bytes1 == bytes2,
    ensures
        crate::pbf::tile_spec(bytes1) == crate::pbf::tile_spec(bytes2),
        crate::pbf::tile_spec(bytes1) is Some ==> crate::pbf::tile_spec(
            bytes1,
        ).unwrap().map_values(|l: crate::pbf::LayerModel| crate::parser::layer_features_spec(l))
            == crate::pbf::tile_spec(bytes2).unwrap().map_values(
            |l: crate::pbf::LayerModel| crate::parser::layer_features_spec(l),
        ),
{
}

} // verus!
