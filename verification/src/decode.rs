use vstd::prelude::*;

use crate::codec::{
    command_count, command_count_spec, command_id, command_id_spec, zigzag_decode,
    zigzag_decode_spec, CMD_CLOSE_PATH, CMD_LINE_TO, CMD_MOVE_TO,
};
use crate::error::Error;
use crate::geom::{Coordinate, GeomModel, Geometry, GeometryCollection, LineString, PolyModel,
    Polygon, MAX_RING_LEN};
use crate::geom::{shoelace_formula, twice_area};

verus! {

// The geometry decoder: a flat delta-coded command stream becomes a sequence
// of cursor movements (steps), and the steps become classified geometries.

/// One decoded cursor movement of the command stream.
#[derive(Clone, Copy, PartialEq, Eq, Structural, Debug)]
pub enum Step {
    /// A coordinate produced under a MoveTo command.
    Move(Coordinate),
    /// A coordinate produced under a LineTo command.
    Line(Coordinate),
    /// A ClosePath command.
    Close,
}

/// The state of the command-stream reader: the cursor, how many parameters
/// the current command still expects, its opcode, and the steps read so far.
#[verifier::ext_equal]
pub struct StreamState {
    pub cx: i32,
    pub cy: i32,
    pub params: nat,
    pub op: u32,
    pub steps: Seq<Step>,
}

/// The reader's state before the first stream value.
pub open spec fn init_stream_state() -> StreamState {
    StreamState { cx: 0, cy: 0, params: 0, op: 0, steps: Seq::empty() }
}

/// How one stream value advances the reader. With no parameters pending the
/// value is a command integer: MoveTo and LineTo announce twice their repeat
/// count of parameters, ClosePath emits a step at once, and any other opcode
/// is passed over. Otherwise the value is a zig-zag-coded delta: parameters
/// alternate between x and y, and each completed pair emits a coordinate
/// step.
pub open spec fn stream_step(s: StreamState, v: u32) -> StreamState {
    if s.params == 0 {
        let id = command_id_spec(v);
        if id == CMD_MOVE_TO || id == CMD_LINE_TO {
            StreamState { params: (command_count_spec(v) * 2) as nat, op: id, ..s }
        } else if id == CMD_CLOSE_PATH {
            StreamState { steps: s.steps.push(Step::Close), ..s }
        } else {
            s
        }
    } else {
        let d = zigzag_decode_spec(v) as i32;
        if s.params % 2 == 0 {
            StreamState {
                cx: vstd::wrapping::i32_specs::wrapping_add(s.cx, d),
                params: (s.params - 1) as nat,
                ..s
            }
        } else {
            let cy2 = vstd::wrapping::i32_specs::wrapping_add(s.cy, d);
            let c = Coordinate { x: s.cx, y: cy2 };
            let step = if s.op == CMD_MOVE_TO {
                Step::Move(c)
            } else {
                Step::Line(c)
            };
            StreamState { cy: cy2, params: (s.params - 1) as nat, steps: s.steps.push(step), ..s }
        }
    }
}

/// Run the reader over a whole stream.
pub open spec fn stream_fold(cmds: Seq<u32>, s: StreamState) -> StreamState
    decreases cmds.len(),
{
    if cmds.len() == 0 {
        s
    } else {
        stream_fold(cmds.drop_first(), stream_step(s, cmds[0]))
    }
}

/// The steps of a whole command stream.
pub open spec fn steps_of(cmds: Seq<u32>) -> Seq<Step> {
    stream_fold(cmds, init_stream_state()).steps
}

pub proof fn lemma_stream_fold_snoc(cmds: Seq<u32>, v: u32, s: StreamState)
    ensures
        stream_fold(cmds.push(v), s) == stream_step(stream_fold(cmds, s), v),
    decreases cmds.len(),
{
    if cmds.len() == 0 {
        let p = cmds.push(v);
        assert(p[0] == v);
        assert(p.drop_first() =~= Seq::<u32>::empty());
        assert(stream_fold(p, s) == stream_fold(p.drop_first(), stream_step(s, p[0])));
        assert(stream_fold(Seq::<u32>::empty(), stream_step(s, v)) == stream_step(s, v));
    } else {
        assert(cmds.push(v)[0] == cmds[0]);
        assert(cmds.push(v).drop_first() =~= cmds.drop_first().push(v));
        lemma_stream_fold_snoc(cmds.drop_first(), v, stream_step(s, cmds[0]));
        assert(stream_fold(cmds.push(v), s) == stream_fold(
            cmds.drop_first().push(v),
            stream_step(s, cmds[0]),
        ));
    }
}

/// Read the whole command stream into its steps.
pub fn decode_steps(cmds: &Vec<u32>) -> (steps: Vec<Step>)
    ensures
        steps@ == steps_of(cmds@),
{
    let mut cx: i32 = 0;
    let mut cy: i32 = 0;
    let mut params: u32 = 0;
    let mut op: u32 = 0;
    let mut steps: Vec<Step> = Vec::new();
    let n = cmds.len();
    let mut i: usize = 0;
    while i < n
        invariant
            n == cmds@.len(),
            i <= n,
            stream_fold(cmds@.take(i as int), init_stream_state()) == (StreamState {
                cx: cx,
                cy: cy,
                params: params as nat,
                op: op,
                steps: steps@,
            }),
        decreases n - i,
    {
        let v = cmds[i];
        proof {
            assert(cmds@.take(i + 1 as int) =~= cmds@.take(i as int).push(cmds@[i as int]));
            lemma_stream_fold_snoc(cmds@.take(i as int), v, init_stream_state());
        }
        if params == 0 {
            let id = command_id(v);
            if id == CMD_MOVE_TO || id == CMD_LINE_TO {
                params = command_count(v) * 2;
                op = id;
            } else if id == CMD_CLOSE_PATH {
                steps.push(Step::Close);
            }
        } else {
            let d = zigzag_decode(v);
            if params % 2 == 0 {
                cx = cx.wrapping_add(d);
            } else {
                cy = cy.wrapping_add(d);
                let c = Coordinate { x: cx, y: cy };
                if op == CMD_MOVE_TO {
                    steps.push(Step::Move(c));
                } else {
                    steps.push(Step::Line(c));
                }
            }
            params = params - 1;
        }
        i = i + 1;
    }
    proof {
        assert(cmds@.take(n as int) =~= cmds@);
    }
    steps
}

// Ring classification: every completed coordinate joins the ring in
// progress; ClosePath closes it, classifies it by the sign of its area, and
// a positive (exterior) ring flushes the previously collected ring set as
// one polygon.

/// The state of the ring classifier: the ring in progress, the rings of the
/// polygon in progress (exterior first), and the finished polygons.
#[verifier::ext_equal]
pub struct PolyState {
    pub pending: Seq<Coordinate>,
    pub rings: Seq<Seq<Coordinate>>,
    pub polys: Seq<PolyModel>,
}

/// The classifier's state before the first step.
pub open spec fn init_poly_state() -> PolyState {
    PolyState { pending: Seq::empty(), rings: Seq::empty(), polys: Seq::empty() }
}

/// The polygon made of a collected ring set: the first ring is the exterior,
/// the rest are its interiors.
pub open spec fn poly_of_rings(rings: Seq<Seq<Coordinate>>) -> PolyModel
    recommends
        rings.len() > 0,
{
    PolyModel { exterior: rings[0], interiors: rings.drop_first() }
}

/// How one step advances the ring classifier. `None` marks a malformed
/// stream: a ClosePath with no coordinate in progress, or a ring grown past
/// what the machine could ever hold.
pub open spec fn poly_step(s: PolyState, st: Step) -> Option<PolyState> {
    match st {
        Step::Move(c) => if s.pending.len() >= MAX_RING_LEN {
            None
        } else {
            Some(PolyState { pending: s.pending.push(c), ..s })
        },
        Step::Line(c) => if s.pending.len() >= MAX_RING_LEN {
            None
        } else {
            Some(PolyState { pending: s.pending.push(c), ..s })
        },
        Step::Close => if s.pending.len() == 0 {
            None
        } else {
            let ring = s.pending.push(s.pending[0]);
            if twice_area(s.pending) > 0 {
                let polys = if s.rings.len() > 0 {
                    s.polys.push(poly_of_rings(s.rings))
                } else {
                    s.polys
                };
                Some(PolyState { pending: Seq::empty(), rings: seq![ring], polys: polys })
            } else {
                Some(PolyState { pending: Seq::empty(), rings: s.rings.push(ring), polys: s.polys })
            }
        },
    }
}

/// Run the ring classifier over a step sequence.
pub open spec fn poly_fold(steps: Seq<Step>, s: Option<PolyState>) -> Option<PolyState>
    decreases steps.len(),
{
    if steps.len() == 0 {
        s
    } else {
        match s {
            None => None,
            Some(st) => poly_fold(steps.drop_first(), poly_step(st, steps[0])),
        }
    }
}

/// At stream end, an open ring set still flushes as one polygon.
pub open spec fn finish_polys(s: PolyState) -> Seq<PolyModel> {
    if s.rings.len() > 0 {
        s.polys.push(poly_of_rings(s.rings))
    } else {
        s.polys
    }
}

/// What the whole command stream decodes to when read as polygon geometry.
pub open spec fn decode_polygons_spec(cmds: Seq<u32>) -> Option<Seq<PolyModel>> {
    match poly_fold(steps_of(cmds), Some(init_poly_state())) {
        None => None,
        Some(s) => Some(finish_polys(s)),
    }
}

pub proof fn lemma_poly_fold_snoc(steps: Seq<Step>, st: Step, s: Option<PolyState>)
    ensures
        poly_fold(steps.push(st), s) == match poly_fold(steps, s) {
            None => None::<PolyState>,
            Some(x) => poly_step(x, st),
        },
    decreases steps.len(),
{
    let p = steps.push(st);
    if steps.len() == 0 {
        assert(p[0] == st);
        assert(p.drop_first() =~= Seq::<Step>::empty());
        match s {
            None => {
            },
            Some(x) => {
                assert(poly_fold(p, s) == poly_fold(p.drop_first(), poly_step(x, st)));
            },
        }
    } else {
        assert(p[0] == steps[0]);
        assert(p.drop_first() =~= steps.drop_first().push(st));
        match s {
            None => {
            },
            Some(x) => {
                lemma_poly_fold_snoc(steps.drop_first(), st, poly_step(x, steps[0]));
            },
        }
    }
}

pub proof fn lemma_poly_fold_append(a: Seq<Step>, b: Seq<Step>, s: Option<PolyState>)
    ensures
        poly_fold(a + b, s) == poly_fold(b, poly_fold(a, s)),
    decreases a.len(),
{
    if a.len() == 0 {
        assert(a + b =~= b);
    } else {
        assert((a + b)[0] == a[0]);
        assert((a + b).drop_first() =~= a.drop_first() + b);
        match s {
            None => {
                assert(poly_fold(a + b, s) == None::<PolyState>);
                assert(poly_fold(a, s) == None::<PolyState>);
                assert(poly_fold(b, None::<PolyState>) == None::<PolyState>) by {
                    if b.len() == 0 {
                    }
                }
            },
            Some(x) => {
                lemma_poly_fold_append(a.drop_first(), b, poly_step(x, a[0]));
            },
        }
    }
}

/// A refused prefix refuses the whole stream.
pub proof fn lemma_poly_fold_none_prefix(steps: Seq<Step>, i: int)
    requires
        0 <= i <= steps.len(),
        poly_fold(steps.take(i), Some(init_poly_state())) is None,
    ensures
        poly_fold(steps, Some(init_poly_state())) is None,
{
    assert(steps =~= steps.take(i) + steps.skip(i));
    lemma_poly_fold_append(steps.take(i), steps.skip(i), Some(init_poly_state()));
    assert(poly_fold(steps.skip(i), None::<PolyState>) == None::<PolyState>) by {
        if steps.skip(i).len() == 0 {
        }
    }
}

// Point reading: every coordinate moved to is a point.

/// Collect the MoveTo coordinates of a step sequence.
pub open spec fn point_step(s: Seq<Coordinate>, st: Step) -> Seq<Coordinate> {
    match st {
        Step::Move(c) => s.push(c),
        _ => s,
    }
}

/// Run the point collector over a step sequence.
pub open spec fn point_fold(steps: Seq<Step>, s: Seq<Coordinate>) -> Seq<Coordinate>
    decreases steps.len(),
{
    if steps.len() == 0 {
        s
    } else {
        point_fold(steps.drop_first(), point_step(s, steps[0]))
    }
}

pub proof fn lemma_point_fold_snoc(steps: Seq<Step>, st: Step, s: Seq<Coordinate>)
    ensures
        point_fold(steps.push(st), s) == point_step(point_fold(steps, s), st),
    decreases steps.len(),
{
    let p = steps.push(st);
    if steps.len() == 0 {
        assert(p[0] == st);
        assert(p.drop_first() =~= Seq::<Step>::empty());
        assert(point_fold(p, s) == point_fold(p.drop_first(), point_step(s, st)));
    } else {
        assert(p[0] == steps[0]);
        assert(p.drop_first() =~= steps.drop_first().push(st));
        lemma_point_fold_snoc(steps.drop_first(), st, point_step(s, steps[0]));
    }
}

// Line reading: each MoveTo starts a polyline, each LineTo extends it; a
// polyline counts only once it has two points.

/// The state of the line collector: the polyline in progress and the
/// finished polylines.
#[verifier::ext_equal]
pub struct LineState {
    pub cur: Seq<Coordinate>,
    pub lines: Seq<Seq<Coordinate>>,
}

/// The line collector's state before the first step.
pub open spec fn init_line_state() -> LineState {
    LineState { cur: Seq::empty(), lines: Seq::empty() }
}

/// How one step advances the line collector.
pub open spec fn line_step(s: LineState, st: Step) -> LineState {
    match st {
        Step::Move(c) => LineState {
            cur: seq![c],
            lines: if s.cur.len() >= 2 {
                s.lines.push(s.cur)
            } else {
                s.lines
            },
        },
        Step::Line(c) => LineState { cur: s.cur.push(c), ..s },
        Step::Close => s,
    }
}

/// Run the line collector over a step sequence.
pub open spec fn line_fold(steps: Seq<Step>, s: LineState) -> LineState
    decreases steps.len(),
{
    if steps.len() == 0 {
        s
    } else {
        line_fold(steps.drop_first(), line_step(s, steps[0]))
    }
}

/// At stream end, a polyline of two or more points still counts.
pub open spec fn finish_lines(s: LineState) -> Seq<Seq<Coordinate>> {
    if s.cur.len() >= 2 {
        s.lines.push(s.cur)
    } else {
        s.lines
    }
}

pub proof fn lemma_line_fold_snoc(steps: Seq<Step>, st: Step, s: LineState)
    ensures
        line_fold(steps.push(st), s) == line_step(line_fold(steps, s), st),
    decreases steps.len(),
{
    let p = steps.push(st);
    if steps.len() == 0 {
        assert(p[0] == st);
        assert(p.drop_first() =~= Seq::<Step>::empty());
        assert(line_fold(p, s) == line_fold(p.drop_first(), line_step(s, st)));
    } else {
        assert(p[0] == steps[0]);
        assert(p.drop_first() =~= steps.drop_first().push(st));
        lemma_line_fold_snoc(steps.drop_first(), st, line_step(s, steps[0]));
    }
}

// The decoded collections, one per geometry kind.

/// The geometry collection read from a step sequence as points.
pub open spec fn points_collection(steps: Seq<Step>) -> Seq<GeomModel> {
    let pts = point_fold(steps, Seq::empty());
    if pts.len() == 0 {
        Seq::empty()
    } else if pts.len() == 1 {
        seq![GeomModel::Point(pts[0])]
    } else {
        seq![GeomModel::MultiPoint(pts)]
    }
}

/// The geometry collection read from a step sequence as polylines.
pub open spec fn lines_collection(steps: Seq<Step>) -> Seq<GeomModel> {
    let ls = finish_lines(line_fold(steps, init_line_state()));
    if ls.len() == 0 {
        Seq::empty()
    } else if ls.len() == 1 {
        seq![GeomModel::LineString(ls[0])]
    } else {
        seq![GeomModel::MultiLineString(ls)]
    }
}

/// The geometry type tag a feature carries on the wire.
#[derive(Clone, Copy, PartialEq, Eq, Structural, Debug)]
pub enum GeomType {
    Unknown,
    Point,
    Linestring,
    Polygon,
}

/// What a whole command stream decodes to. An unknown geometry type passes
/// through the ring classifier, so its structure is kept.
pub open spec fn parse_geometry_spec(cmds: Seq<u32>, t: GeomType) -> Option<Seq<GeomModel>> {
    match t {
        GeomType::Point => Some(points_collection(steps_of(cmds))),
        GeomType::Linestring => Some(lines_collection(steps_of(cmds))),
        _ => match decode_polygons_spec(cmds) {
            None => None,
            Some(ps) => Some(ps.map_values(|p: PolyModel| GeomModel::Polygon(p))),
        },
    }
}

fn build_points(steps: &Vec<Step>) -> (r: Vec<Geometry>)
    ensures
        r@.map_values(|g: Geometry| g@) == points_collection(steps@),
{
    let mut pts: Vec<Coordinate> = Vec::new();
    let n = steps.len();
    let mut i: usize = 0;
    proof {
        assert(steps@.take(0int) =~= Seq::<Step>::empty());
    }
    while i < n
        invariant
            n == steps@.len(),
            i <= n,
            pts@ == point_fold(steps@.take(i as int), Seq::empty()),
        decreases n - i,
    {
        proof {
            assert(steps@.take(i + 1 as int) =~= steps@.take(i as int).push(steps@[i as int]));
            lemma_point_fold_snoc(steps@.take(i as int), steps@[i as int], Seq::empty());
        }
        match steps[i] {
            Step::Move(c) => pts.push(c),
            _ => (),
        }
        i = i + 1;
    }
    proof {
        assert(steps@.take(n as int) =~= steps@);
    }
    let mut out: Vec<Geometry> = Vec::new();
    if pts.len() == 1 {
        out.push(Geometry::Point(pts[0]));
    } else if pts.len() > 1 {
        out.push(Geometry::MultiPoint(pts));
    }
    proof {
        assert(out@.map_values(|g: Geometry| g@) =~= points_collection(steps@));
    }
    out
}

fn build_lines(steps: &Vec<Step>) -> (r: Vec<Geometry>)
    ensures
        r@.map_values(|g: Geometry| g@) == lines_collection(steps@),
{
    let mut cur: Vec<Coordinate> = Vec::new();
    let mut lines: Vec<LineString> = Vec::new();
    let n = steps.len();
    let mut i: usize = 0;
    proof {
        assert(steps@.take(0int) =~= Seq::<Step>::empty());
        assert(init_line_state() =~= LineState {
            cur: cur@,
            lines: lines@.map_values(|l: LineString| l@),
        });
    }
    while i < n
        invariant
            n == steps@.len(),
            i <= n,
            line_fold(steps@.take(i as int), init_line_state()) == (LineState {
                cur: cur@,
                lines: lines@.map_values(|l: LineString| l@),
            }),
        decreases n - i,
    {
        proof {
            assert(steps@.take(i + 1 as int) =~= steps@.take(i as int).push(steps@[i as int]));
            lemma_line_fold_snoc(steps@.take(i as int), steps@[i as int], init_line_state());
        }
        let ghost prev_lines = lines@.map_values(|l: LineString| l@);
        match steps[i] {
            Step::Move(c) => {
                let done = cur;
                cur = Vec::new();
                if done.len() >= 2 {
                    lines.push(LineString(done));
                    proof {
                        assert(lines@.map_values(|l: LineString| l@) =~= prev_lines.push(
                            done@,
                        ));
                    }
                }
                cur.push(c);
                proof {
                    assert(cur@ =~= seq![c]);
                }
            },
            Step::Line(c) => {
                cur.push(c);
            },
            Step::Close => (),
        }
        i = i + 1;
    }
    proof {
        assert(steps@.take(n as int) =~= steps@);
    }
    let ghost closed_lines = finish_lines(line_fold(steps@, init_line_state()));
    if cur.len() >= 2 {
        let ghost prev_lines = lines@.map_values(|l: LineString| l@);
        lines.push(LineString(cur));
        proof {
            assert(lines@.map_values(|l: LineString| l@) =~= prev_lines.push(closed_lines.last()));
        }
    }
    proof {
        assert(lines@.map_values(|l: LineString| l@) =~= closed_lines);
    }
    let mut out: Vec<Geometry> = Vec::new();
    if lines.len() == 1 {
        match lines.pop() {
            Some(l) => out.push(Geometry::LineString(l)),
            None => (),
        }
    } else if lines.len() > 1 {
        out.push(Geometry::MultiLineString(lines));
    }
    proof {
        assert(out@.map_values(|g: Geometry| g@) =~= lines_collection(steps@));
    }
    out
}

fn build_polygons(steps: &Vec<Step>) -> (r: Result<Vec<Geometry>, Error>)
    ensures
        r is Ok <==> poly_fold(steps@, Some(init_poly_state())) is Some,
        r is Ok ==> r.unwrap()@.map_values(|g: Geometry| g@) == finish_polys(
            poly_fold(steps@, Some(init_poly_state())).unwrap(),
        ).map_values(|p: PolyModel| GeomModel::Polygon(p)),
        r is Err ==> r.unwrap_err() == Error::Decode,
{
    let mut pending: Vec<Coordinate> = Vec::new();
    let mut exterior: Option<LineString> = None;
    let mut interiors: Vec<LineString> = Vec::new();
    let mut out: Vec<Geometry> = Vec::new();
    let n = steps.len();
    let mut i: usize = 0;
    proof {
        assert(steps@.take(0int) =~= Seq::<Step>::empty());
        assert(rings_model(&exterior, &interiors) =~= Seq::<Seq<Coordinate>>::empty());
        assert(polys_model(&out) =~= Seq::<PolyModel>::empty());
        assert(init_poly_state() =~= PolyState {
            pending: pending@,
            rings: rings_model(&exterior, &interiors),
            polys: polys_model(&out),
        });
    }
    while i < n
        invariant
            n == steps@.len(),
            i <= n,
            poly_fold(steps@.take(i as int), Some(init_poly_state())) == Some(
                PolyState {
                    pending: pending@,
                    rings: rings_model(&exterior, &interiors),
                    polys: polys_model(&out),
                },
            ),
            exterior is None ==> interiors@.len() == 0,
            pending@.len() <= MAX_RING_LEN,
            forall|j: int|
                0 <= j < out@.len() ==> (#[trigger] out@[j]) matches Geometry::Polygon(_),
        decreases n - i,
    {
        let ghost pre_state = PolyState {
            pending: pending@,
            rings: rings_model(&exterior, &interiors),
            polys: polys_model(&out),
        };
        let ghost cur_step = steps@[i as int];
        proof {
            assert(steps@.take(i + 1 as int) =~= steps@.take(i as int).push(cur_step));
            lemma_poly_fold_snoc(steps@.take(i as int), cur_step, Some(init_poly_state()));
        }
        match steps[i] {
            Step::Move(c) => {
                if pending.len() as u64 >= MAX_RING_LEN {
                    proof {
                        assert(poly_step(pre_state, cur_step) is None);
                        lemma_poly_fold_none_prefix(steps@, i + 1 as int);
                    }
                    return Err(Error::Decode);
                }
                pending.push(c);
            },
            Step::Line(c) => {
                if pending.len() as u64 >= MAX_RING_LEN {
                    proof {
                        assert(poly_step(pre_state, cur_step) is None);
                        lemma_poly_fold_none_prefix(steps@, i + 1 as int);
                    }
                    return Err(Error::Decode);
                }
                pending.push(c);
            },
            Step::Close => {
                if pending.len() == 0 {
                    proof {
                        assert(poly_step(pre_state, cur_step) is None);
                        lemma_poly_fold_none_prefix(steps@, i + 1 as int);
                    }
                    return Err(Error::Decode);
                }
                let ghost post = poly_step(pre_state, cur_step).unwrap();
                let area2 = shoelace_formula(&pending);
                let first = pending[0];
                pending.push(first);
                let ring = LineString(pending);
                pending = Vec::new();
                proof {
                    assert(ring@ == pre_state.pending.push(pre_state.pending[0]));
                    assert(pending@ =~= Seq::<Coordinate>::empty());
                }
                if area2 > 0 {
                    if exterior.is_some() {
                        let done_ext = exterior;
                        let done_int = interiors;
                        exterior = None;
                        interiors = Vec::new();
                        match done_ext {
                            Some(e) => {
                                let ghost flushed = poly_of_rings(pre_state.rings);
                                proof {
                                    assert(pre_state.rings[0] == e@);
                                    assert(flushed.interiors =~= done_int@.map_values(
                                        |l: LineString| l@,
                                    ));
                                }
                                out.push(Geometry::Polygon(Polygon {
                                    exterior: e,
                                    interiors: done_int,
                                }));
                                proof {
                                    assert(out@.last()@ == GeomModel::Polygon(flushed));
                                    assert(polys_model(&out) =~= pre_state.polys.push(flushed));
                                }
                            },
                            None => (),
                        }
                    }
                    exterior = Some(ring);
                    proof {
                        assert(rings_model(&exterior, &interiors) =~= seq![post.rings[0]]);
                        assert(post =~= PolyState {
                            pending: pending@,
                            rings: rings_model(&exterior, &interiors),
                            polys: polys_model(&out),
                        });
                    }
                } else {
                    if exterior.is_some() {
                        interiors.push(ring);
                        proof {
                            assert(rings_model(&exterior, &interiors) =~= pre_state.rings.push(
                                ring@,
                            ));
                        }
                    } else {
                        exterior = Some(ring);
                        proof {
                            assert(pre_state.rings.len() == 0);
                            assert(rings_model(&exterior, &interiors) =~= pre_state.rings.push(
                                ring@,
                            ));
                        }
                    }
                    proof {
                        assert(post =~= PolyState {
                            pending: pending@,
                            rings: rings_model(&exterior, &interiors),
                            polys: polys_model(&out),
                        });
                    }
                }
            },
        }
        i = i + 1;
    }
    proof {
        assert(steps@.take(n as int) =~= steps@);
    }
    let ghost end_state = poly_fold(steps@, Some(init_poly_state())).unwrap();
    if exterior.is_some() {
        let done_ext = exterior;
        let done_int = interiors;
        match done_ext {
            Some(e) => {
                let ghost flushed = poly_of_rings(end_state.rings);
                proof {
                    assert(end_state.rings[0] == e@);
                    assert(flushed.interiors =~= done_int@.map_values(|l: LineString| l@));
                }
                out.push(Geometry::Polygon(Polygon { exterior: e, interiors: done_int }));
                proof {
                    assert(out@.last()@ == GeomModel::Polygon(flushed));
                    assert(polys_model(&out) =~= end_state.polys.push(flushed));
                }
            },
            None => (),
        }
    }
    proof {
        assert(polys_model(&out) =~= finish_polys(end_state));
        assert(out@.map_values(|g: Geometry| g@) =~= polys_model(&out).map_values(
            |p: PolyModel| GeomModel::Polygon(p),
        ));
    }
    Ok(out)
}

/// The ring set the executable classifier holds: the exterior ring first,
/// then the interiors.
pub open spec fn rings_model(exterior: &Option<LineString>, interiors: &Vec<LineString>) -> Seq<
    Seq<Coordinate>,
> {
    match exterior {
        None => Seq::empty(),
        Some(e) => seq![e@] + interiors@.map_values(|l: LineString| l@),
    }
}

/// The polygons the executable classifier has finished.
pub open spec fn polys_model(out: &Vec<Geometry>) -> Seq<PolyModel> {
    out@.map_values(
        |g: Geometry| match g@ {
            GeomModel::Polygon(p) => p,
            _ => PolyModel { exterior: Seq::empty(), interiors: Seq::empty() },
        },
    )
}

/// Decode a feature's delta-coded command stream into its geometries,
/// reading it by the feature's geometry type. Fails exactly where the model
/// refuses the stream: a ClosePath with nothing to close, or a ring past any
/// possible allocation.
pub fn parse_geometry(geometry_data: &Vec<u32>, geom_type: GeomType) -> (r: Result<
    GeometryCollection,
    Error,
>)
    ensures
        r is Ok <==> parse_geometry_spec(geometry_data@, geom_type) is Some,
        r is Ok ==> r.unwrap()@ == parse_geometry_spec(geometry_data@, geom_type).unwrap(),
        r is Err ==> r.unwrap_err() == Error::Decode,
{
    let steps = decode_steps(geometry_data);
    match geom_type {
        GeomType::Point => Ok(GeometryCollection(build_points(&steps))),
        GeomType::Linestring => Ok(GeometryCollection(build_lines(&steps))),
        _ => match build_polygons(&steps) {
            Ok(gs) => Ok(GeometryCollection(gs)),
            Err(e) => Err(e),
        },
    }
}

} // verus!

