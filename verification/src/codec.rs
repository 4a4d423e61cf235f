use vstd::prelude::*;

use crate::geom::Coordinate;

verus! {

// The wire layer of the vector-tile geometry stream: command integers that
// carry an opcode and a repeat count, and zig-zag-coded signed parameters.

/// Opcode of the MoveTo command.
pub const CMD_MOVE_TO: u32 = 1;

/// Opcode of the LineTo command.
pub const CMD_LINE_TO: u32 = 2;

/// Opcode of the ClosePath command.
pub const CMD_CLOSE_PATH: u32 = 7;

/// Zig-zag decoding of a raw unsigned parameter: even raw values are
/// non-negative deltas, odd raw values are negative deltas.
pub open spec fn zigzag_decode_spec(raw: u32) -> int {
    if raw % 2 == 0 {
        raw as int / 2
    } else {
        -((raw as int + 1) / 2)
    }
}

/// Zig-zag encoding of a signed delta.
pub open spec fn zigzag_encode_spec(d: i32) -> u32 {
    if d >= 0 {
        (2 * (d as int)) as u32
    } else {
        (-2 * (d as int) - 1) as u32
    }
}

/// Zig-zag decoding is the inverse of zig-zag encoding.
pub proof fn lemma_zigzag_round_trip(d: i32)
    ensures
        zigzag_decode_spec(zigzag_encode_spec(d)) == d as int,
{
}

/// Decode a zig-zag-coded parameter into a signed delta.
pub fn zigzag_decode(raw: u32) -> (d: i32)
    ensures
        d as int == zigzag_decode_spec(raw),
{
    if raw % 2 == 0 {
        (raw / 2) as i32
    } else {
        let half = raw / 2;
        if half == 0x7fff_ffff {
            i32::MIN
        } else {
            -((half + 1) as i32)
        }
    }
}

/// Encode a signed delta as a zig-zag-coded parameter.
pub fn zigzag_encode(d: i32) -> (raw: u32)
    ensures
        raw == zigzag_encode_spec(d),
{
    if d >= 0 {
        (d as u32) * 2
    } else {
        let mag: u32 = (-(d as i64)) as u32;
        (mag - 1) * 2 + 1
    }
}

/// The opcode carried in the low three bits of a command integer.
pub open spec fn command_id_spec(v: u32) -> u32 {
    v % 8
}

/// The repeat count carried in the remaining bits of a command integer.
pub open spec fn command_count_spec(v: u32) -> u32 {
    v / 8
}

/// A command integer packing an opcode and a repeat count.
pub open spec fn command_integer_spec(id: u32, count: u32) -> u32
    recommends
        id < 8,
        count < 0x2000_0000,
{
    (count * 8 + id) as u32
}

/// Extract the opcode of a command integer.
pub fn command_id(v: u32) -> (id: u32)
    ensures
        id == command_id_spec(v),
{
    v % 8
}

/// Extract the repeat count of a command integer.
pub fn command_count(v: u32) -> (count: u32)
    ensures
        count == command_count_spec(v),
{
    v / 8
}

/// Pack an opcode and a repeat count into a command integer.
pub fn command_integer(id: u32, count: u32) -> (v: u32)
    requires
        id < 8,
        count < 0x2000_0000,
    ensures
        v == command_integer_spec(id, count),
        command_id_spec(v) == id,
        command_count_spec(v) == count,
{
    count * 8 + id
}

// The encoding side: coordinates become wrapped deltas from the running
// cursor, zig-zag coded.

/// The two stream parameters that move the cursor from `prev` to `c`.
pub open spec fn delta_pair(prev: Coordinate, c: Coordinate) -> Seq<u32> {
    seq![
        zigzag_encode_spec(vstd::wrapping::i32_specs::wrapping_sub(c.x, prev.x)),
        zigzag_encode_spec(vstd::wrapping::i32_specs::wrapping_sub(c.y, prev.y)),
    ]
}

/// The stream parameters that walk the cursor from `prev` through every
/// coordinate in turn.
pub open spec fn delta_params(prev: Coordinate, coords: Seq<Coordinate>) -> Seq<u32>
    decreases coords.len(),
{
    if coords.len() == 0 {
        Seq::empty()
    } else {
        delta_pair(prev, coords[0]) + delta_params(coords[0], coords.drop_first())
    }
}

pub proof fn lemma_delta_params_snoc(prev: Coordinate, coords: Seq<Coordinate>, c: Coordinate)
    ensures
        delta_params(prev, coords.push(c)) == delta_params(prev, coords) + delta_pair(
            if coords.len() == 0 {
                prev
            } else {
                coords.last()
            },
            c,
        ),
    decreases coords.len(),
{
    let p = coords.push(c);
    if coords.len() == 0 {
        assert(p[0] == c);
        assert(p.drop_first() =~= Seq::<Coordinate>::empty());
        assert(delta_params(c, Seq::<Coordinate>::empty()) =~= Seq::<u32>::empty());
        assert(delta_params(prev, p) =~= delta_pair(prev, c) + delta_params(
            c,
            Seq::<Coordinate>::empty(),
        ));
        assert(delta_params(prev, p) =~= delta_pair(prev, c));
        assert(delta_params(prev, coords) + delta_pair(prev, c) =~= delta_pair(prev, c));
    } else {
        assert(p[0] == coords[0]);
        assert(p.drop_first() =~= coords.drop_first().push(c));
        lemma_delta_params_snoc(coords[0], coords.drop_first(), c);
        assert(coords.drop_first().len() == 0 ==> coords[0] == coords.last());
        assert(coords.drop_first().len() != 0 ==> coords.drop_first().last() == coords.last());
        assert(delta_params(prev, p) =~= delta_params(prev, coords) + delta_pair(
            coords.last(),
            c,
        ));
    }
}

/// The canonical command stream for one closed ring: one MoveTo, one LineTo
/// carrying the remaining points, one ClosePath. The cursor enters at
/// `start`.
pub open spec fn ring_stream(start: Coordinate, coords: Seq<Coordinate>) -> Seq<u32>
    recommends
        1 <= coords.len() <= 0x2000_0000,
{
    seq![command_integer_spec(CMD_MOVE_TO, 1)] + delta_pair(start, coords[0]) + seq![
        command_integer_spec(CMD_LINE_TO, (coords.len() - 1) as u32),
    ] + delta_params(coords[0], coords.drop_first()) + seq![
        command_integer_spec(CMD_CLOSE_PATH, 1),
    ]
}

/// The canonical command stream for a sequence of closed rings; each ring's
/// cursor enters where the previous ring left it.
pub open spec fn rings_stream(start: Coordinate, rings: Seq<Seq<Coordinate>>) -> Seq<u32>
    decreases rings.len(),
{
    if rings.len() == 0 {
        Seq::empty()
    } else {
        ring_stream(start, rings[0]) + rings_stream(rings[0].last(), rings.drop_first())
    }
}

/// Encode one closed ring as its canonical command stream, entering at
/// `start`. A single LineTo command carries at most `2^29 - 1` points, which
/// bounds the ring this form can carry.
pub fn encode_ring(start: Coordinate, coords: &Vec<Coordinate>) -> (r: Vec<u32>)
    requires
        1 <= coords@.len() <= 0x2000_0000,
    ensures
        r@ == ring_stream(start, coords@),
{
    let n = coords.len();
    let mut r: Vec<u32> = Vec::new();
    r.push(command_integer(CMD_MOVE_TO, 1));
    let first = coords[0];
    r.push(zigzag_encode(first.x.wrapping_sub(start.x)));
    r.push(zigzag_encode(first.y.wrapping_sub(start.y)));
    r.push(command_integer(CMD_LINE_TO, (n - 1) as u32));
    let ghost head = seq![command_integer_spec(CMD_MOVE_TO, 1)] + delta_pair(start, coords@[0])
        + seq![command_integer_spec(CMD_LINE_TO, (coords@.len() - 1) as u32)];
    proof {
        assert(r@ =~= head + delta_params(coords@[0], coords@.subrange(1, 1)));
        assert(coords@.subrange(1, 1) =~= Seq::<Coordinate>::empty());
    }
    let mut j: usize = 1;
    while j < n
        invariant
            n == coords@.len(),
            1 <= j <= n,
            r@ == head + delta_params(coords@[0], coords@.subrange(1, j as int)),
        decreases n - j,
    {
        let prev = coords[j - 1];
        let c = coords[j];
        r.push(zigzag_encode(c.x.wrapping_sub(prev.x)));
        r.push(zigzag_encode(c.y.wrapping_sub(prev.y)));
        proof {
            let tail = coords@.subrange(1, j as int);
            assert(coords@.subrange(1, j + 1 as int) =~= tail.push(coords@[j as int]));
            lemma_delta_params_snoc(coords@[0], tail, coords@[j as int]);
            assert(if tail.len() == 0 {
                coords@[0]
            } else {
                tail.last()
            } == coords@[j - 1]);
            assert(r@ =~= head + delta_params(coords@[0], coords@.subrange(1, j + 1 as int)));
        }
        j = j + 1;
    }
    r.push(command_integer(CMD_CLOSE_PATH, 1));
    proof {
        assert(coords@.subrange(1, n as int) =~= coords@.drop_first());
        assert(r@ =~= ring_stream(start, coords@));
    }
    r
}

} // verus!
