use vstd::prelude::*;
use crate::plottable::{PlotPoint, Plottable, polylines};

verus! {

/// The curve parameter is a fixed-point fraction of the unit interval:
/// `t` stands for `t / PARAM_ONE`, so `0` is the start of a curve and
/// `PARAM_ONE` its end. Every value that repeated halving of the unit
/// interval reaches at this resolution is exact in single precision too.
pub const PARAM_ONE: u32 = 16_777_216;

/// A parametric curve sampled at device resolution, with the parametric span
/// below which a stretch whose ends already touch is not divided further.
pub struct Curve<F: Fn(u32) -> PlotPoint> {
    function: F,
    min_step: u32,
}

/// A stretch of a curve between two parameters, with the device points
/// sampled at its two ends.
pub struct Segment {
    pub start_point: PlotPoint,
    pub end_point: PlotPoint,
    pub start_t: u32,
    pub end_t: u32,
}

/// `a` and `b` differ by at most one device unit in each axis.
pub open spec fn adjacent(a: PlotPoint, b: PlotPoint) -> bool {
    &&& -1 <= b.x - a.x <= 1
    &&& -1 <= b.y - a.y <= 1
}

/// The parameter halfway between `start` and `end`, rounded towards `start`.
pub open spec fn midpoint(start: u32, end: u32) -> u32 {
    (start + (end - start) / 2) as u32
}

/// The stretch between `start` and `end` of the curve that `s` samples.
pub open spec fn segment_of(s: spec_fn(u32) -> PlotPoint, start: u32, end: u32) -> Segment {
    Segment { start_point: s(start), end_point: s(end), start_t: start, end_t: end }
}

/// The drawable edges that subdividing the stretch between `start` and `end`
/// yields, in ascending parameter order.
///
/// A stretch no longer than `min_step` is dropped when its ends coincide and
/// kept whole when they are adjacent. Any other stretch is halved and both
/// halves are subdivided in turn, unless its midpoint falls on its start: such
/// a stretch cannot be refined and is kept as it is.
pub open spec fn accepted(
    s: spec_fn(u32) -> PlotPoint,
    min_step: u32,
    start: u32,
    end: u32,
) -> Seq<Segment>
    decreases end - start,
{
    if start >= end {
        Seq::empty()
    } else if end - start <= min_step && s(start) == s(end) {
        Seq::empty()
    } else if end - start <= min_step && adjacent(s(start), s(end)) {
        seq![segment_of(s, start, end)]
    } else if midpoint(start, end) == start {
        seq![segment_of(s, start, end)]
    } else {
        accepted(s, min_step, start, midpoint(start, end)) + accepted(
            s,
            min_step,
            midpoint(start, end),
            end,
        )
    }
}

/// The polyline that stands for the whole curve: the start point of every
/// drawable edge. The point at the end of the curve is not part of it.
pub open spec fn tessellation(s: spec_fn(u32) -> PlotPoint, min_step: u32) -> Seq<PlotPoint> {
    accepted(s, min_step, 0, PARAM_ONE).map_values(|g: Segment| g.start_point)
}

/// Every point that `f` can return for a parameter of the unit interval is
/// the one that `s` gives.
pub open spec fn describes<F: Fn(u32) -> PlotPoint>(f: F, s: spec_fn(u32) -> PlotPoint) -> bool {
    forall|t: u32, p: PlotPoint| t <= PARAM_ONE && #[trigger] f.ensures((t,), p) ==> p == s(t)
}

/// `f` may be called on every parameter of the unit interval.
pub open spec fn samples_unit_interval<F: Fn(u32) -> PlotPoint>(f: F) -> bool {
    forall|t: u32| t <= PARAM_ONE ==> #[trigger] f.requires((t,))
}

impl<F: Fn(u32) -> PlotPoint> Curve<F> {
    /// The sampler of every curve may be called on the whole unit interval.
    #[verifier::type_invariant]
    spec fn callable(&self) -> bool {
        samples_unit_interval(self.function)
    }

    /// The sampler: the device point for each parameter.
    pub closed spec fn function(&self) -> F {
        self.function
    }

    /// The span, in parameter steps, up to which a stretch with adjacent ends
    /// is kept whole.
    pub closed spec fn min_step(&self) -> u32 {
        self.min_step
    }

    /// A curve over `function`, which gives the device point for every
    /// parameter from `0` to `PARAM_ONE`.
    pub fn new(function: F, min_step: u32) -> (curve: Curve<F>)
        requires
            samples_unit_interval(function),
        ensures
            curve.function() == function,
            curve.min_step() == min_step,
    {
        Curve { function, min_step }
    }
}

/// Whether `a` and `b` differ by at most one device unit in each axis.
pub fn is_unit(a: PlotPoint, b: PlotPoint) -> (unit: bool)
    ensures
        unit == adjacent(a, b),
{
    let dx: i64 = b.x as i64 - a.x as i64;
    let dy: i64 = b.y as i64 - a.y as i64;
    -1 <= dx && dx <= 1 && -1 <= dy && dy <= 1
}

/// The two halves of `segment` around the sample `mid_point` taken at `mid_t`.
pub fn split(segment: &Segment, mid_point: PlotPoint, mid_t: u32) -> (halves: (Segment, Segment))
    ensures
        halves.0 == (Segment {
            start_point: segment.start_point,
            end_point: mid_point,
            start_t: segment.start_t,
            end_t: mid_t,
        }),
        halves.1 == (Segment {
            start_point: mid_point,
            end_point: segment.end_point,
            start_t: mid_t,
            end_t: segment.end_t,
        }),
{
    let start_segment = Segment {
        start_point: segment.start_point,
        end_point: mid_point,
        start_t: segment.start_t,
        end_t: mid_t,
    };
    let end_segment = Segment {
        start_point: mid_point,
        end_point: segment.end_point,
        start_t: mid_t,
        end_t: segment.end_t,
    };

    (start_segment, end_segment)
}

/// The drawable edges still owed by a worklist, its last entry first.
spec fn pending(s: spec_fn(u32) -> PlotPoint, min_step: u32, open: Seq<Segment>) -> Seq<Segment>
    decreases open.len(),
{
    if open.len() == 0 {
        Seq::empty()
    } else {
        accepted(s, min_step, open.last().start_t, open.last().end_t) + pending(
            s,
            min_step,
            open.drop_last(),
        )
    }
}

/// An upper bound on the number of worklist entries still to be taken off:
/// each entry counts for every stretch that halving it can produce.
spec fn remaining_work(open: Seq<Segment>) -> int
    decreases open.len(),
{
    if open.len() == 0 {
        0
    } else {
        2 * (open.last().end_t - open.last().start_t) - 1 + remaining_work(open.drop_last())
    }
}

/// Every worklist entry spans a non-empty part of the unit interval.
spec fn spans_ordered(open: Seq<Segment>) -> bool {
    forall|i: int| 0 <= i < open.len() ==> (#[trigger] open[i]).start_t < open[i].end_t <= PARAM_ONE
}

/// The worklist entries carry the samples of `s`, and the edges accepted so
/// far followed by those still owed are the edges of the whole curve.
spec fn tiled(
    s: spec_fn(u32) -> PlotPoint,
    min_step: u32,
    closed: Seq<Segment>,
    open: Seq<Segment>,
) -> bool {
    &&& forall|i: int|
        0 <= i < open.len() ==> #[trigger] open[i] == segment_of(s, open[i].start_t, open[i].end_t)
    &&& accepted(s, min_step, 0, PARAM_ONE) == closed + pending(s, min_step, open)
}

proof fn lemma_remaining_work_nonnegative(open: Seq<Segment>)
    requires
        spans_ordered(open),
    ensures
        remaining_work(open) >= 0,
    decreases open.len(),
{
    if open.len() > 0 {
        assert(spans_ordered(open.drop_last())) by {
            assert forall|i: int| 0 <= i < open.drop_last().len() implies (
            #[trigger] open.drop_last()[i]).start_t < open.drop_last()[i].end_t <= PARAM_ONE by {
                assert(open.drop_last()[i] == open[i]);
            }
        }
        lemma_remaining_work_nonnegative(open.drop_last());
    }
}

impl<F: Fn(u32) -> PlotPoint> Plottable for Curve<F> {
    /// One polyline: the tessellation of the curve. Whatever function `s`
    /// describes the points that the curve's sampler returns, the polyline is
    /// the tessellation of `s`.
    fn get_lines(&self) -> (lines: Vec<Vec<PlotPoint>>)
        ensures
            lines@.len() == 1,
            forall|s: spec_fn(u32) -> PlotPoint| #[trigger]
                describes(self.function(), s) ==> polylines(lines) == seq![
                    tessellation(s, self.min_step()),
                ],
    {
        proof {
            use_type_invariant(self);
        }
        let mut closed: Vec<Segment> = Vec::new();
        let mut open: Vec<Segment> = Vec::new();

        let start_point = (self.function)(0);
        let end_point = (self.function)(PARAM_ONE);

        open.push(Segment { start_point, end_point, start_t: 0, end_t: PARAM_ONE });

        assert forall|s: spec_fn(u32) -> PlotPoint| #[trigger]
            describes(self.function, s) implies tiled(s, self.min_step, closed@, open@) by {
            lemma_pending_push(s, self.min_step, Seq::empty(), open@[0]);
            assert(open@ =~= Seq::<Segment>::empty().push(open@[0]));
            assert(pending(s, self.min_step, open@) =~= accepted(s, self.min_step, 0, PARAM_ONE));
        }

        while open.len() > 0
            invariant
                samples_unit_interval(self.function),
                spans_ordered(open@),
                forall|s: spec_fn(u32) -> PlotPoint| #[trigger]
                    describes(self.function, s) ==> tiled(s, self.min_step, closed@, open@),
            decreases remaining_work(open@),
        {
            let ghost before = open@;
            let ghost accepted_before = closed@;
            let top = open.pop().unwrap();
            let ghost rest = open@;
            assert(rest == before.drop_last());
            assert(top == before.last());
            assert(spans_ordered(rest)) by {
                assert forall|i: int| 0 <= i < rest.len() implies (#[trigger] rest[i]).start_t
                    < rest[i].end_t <= PARAM_ONE by {
                    assert(rest[i] == before[i]);
                }
            }
            assert(remaining_work(before) == 2 * (top.end_t - top.start_t) - 1 + remaining_work(
                rest,
            ));

            let span: u32 = top.end_t - top.start_t;
            let mid_t: u32 = top.start_t + span / 2;
            if span <= self.min_step && top.end_point == top.start_point {
                assert forall|s: spec_fn(u32) -> PlotPoint| #[trigger]
                    describes(self.function, s) implies tiled(s, self.min_step, closed@, open@) by {
                    lemma_take_top(s, self.min_step, accepted_before, before);
                }
            } else if (span <= self.min_step && is_unit(top.start_point, top.end_point)) || mid_t
                == top.start_t {
                closed.push(top);
                assert forall|s: spec_fn(u32) -> PlotPoint| #[trigger]
                    describes(self.function, s) implies tiled(s, self.min_step, closed@, open@) by {
                    lemma_take_top(s, self.min_step, accepted_before, before);
                    assert(closed@ + pending(s, self.min_step, rest) =~= accepted_before + pending(
                        s,
                        self.min_step,
                        before,
                    ));
                }
            } else {
                let mid_point = (self.function)(mid_t);

                let (start_segment, end_segment) = split(&top, mid_point, mid_t);

                open.push(end_segment);
                open.push(start_segment);
                assert(spans_ordered(open@));
                assert forall|s: spec_fn(u32) -> PlotPoint| #[trigger]
                    describes(self.function, s) implies tiled(s, self.min_step, closed@, open@) by {
                    lemma_take_top(s, self.min_step, accepted_before, before);
                    lemma_pending_push(s, self.min_step, rest, end_segment);
                    lemma_pending_push(s, self.min_step, rest.push(end_segment), start_segment);
                    assert(pending(s, self.min_step, open@) =~= pending(s, self.min_step, before));
                }
                assert(remaining_work(open@) < remaining_work(before)) by {
                    lemma_remaining_work_push(rest, end_segment);
                    lemma_remaining_work_push(rest.push(end_segment), start_segment);
                }
            }
            proof {
                lemma_remaining_work_nonnegative(open@);
            }
        }

        let mut points: Vec<PlotPoint> = Vec::new();
        let mut i: usize = 0;
        while i < closed.len()
            invariant
                i <= closed.len(),
                points@ == closed@.take(i as int).map_values(|g: Segment| g.start_point),
            decreases closed.len() - i,
        {
            points.push(closed[i].start_point);
            assert(closed@.take(i + 1).map_values(|g: Segment| g.start_point) =~= closed@.take(
                i as int,
            ).map_values(|g: Segment| g.start_point).push(closed@[i as int].start_point));
            i = i + 1;
        }
        assert(closed@.take(i as int) =~= closed@);
        assert forall|s: spec_fn(u32) -> PlotPoint| #[trigger]
            describes(self.function, s) implies points@ == tessellation(s, self.min_step) by {
            assert(tiled(s, self.min_step, closed@, open@));
            assert(closed@ + pending(s, self.min_step, open@) =~= closed@);
        }

        let mut lines: Vec<Vec<PlotPoint>> = Vec::new();
        lines.push(points);
        assert forall|s: spec_fn(u32) -> PlotPoint| #[trigger]
            describes(self.function, s) implies polylines(lines) == seq![
            tessellation(s, self.min_step),
        ] by {
            assert(lines@[0]@ == tessellation(s, self.min_step));
            assert(polylines(lines) =~= seq![tessellation(s, self.min_step)]);
        }
        lines
    }
}

proof fn lemma_pending_push(
    s: spec_fn(u32) -> PlotPoint,
    min_step: u32,
    open: Seq<Segment>,
    top: Segment,
)
    ensures
        pending(s, min_step, open.push(top)) == accepted(s, min_step, top.start_t, top.end_t)
            + pending(s, min_step, open),
{
    assert(open.push(top).drop_last() =~= open);
}

proof fn lemma_remaining_work_push(open: Seq<Segment>, top: Segment)
    ensures
        remaining_work(open.push(top)) == 2 * (top.end_t - top.start_t) - 1 + remaining_work(open),
{
    assert(open.push(top).drop_last() =~= open);
}

/// What taking the last entry off a worklist leaves: the entry's own edges,
/// as the samples of `s` decide them, and then those of the entries below it.
proof fn lemma_take_top(
    s: spec_fn(u32) -> PlotPoint,
    min_step: u32,
    closed: Seq<Segment>,
    open: Seq<Segment>,
)
    requires
        open.len() > 0,
        tiled(s, min_step, closed, open),
    ensures
        open.last() == segment_of(s, open.last().start_t, open.last().end_t),
        forall|i: int|
            0 <= i < open.len() - 1 ==> #[trigger] open.drop_last()[i] == segment_of(
                s,
                open.drop_last()[i].start_t,
                open.drop_last()[i].end_t,
            ),
        accepted(s, min_step, 0, PARAM_ONE) == closed + (accepted(
            s,
            min_step,
            open.last().start_t,
            open.last().end_t,
        ) + pending(s, min_step, open.drop_last())),
{
    assert forall|i: int| 0 <= i < open.len() - 1 implies #[trigger] open.drop_last()[i]
        == segment_of(s, open.drop_last()[i].start_t, open.drop_last()[i].end_t) by {
        assert(open.drop_last()[i] == open[i]);
    }
}

/// An edge as the tessellator keeps it: a stretch no longer than `min_step`
/// whose ends are distinct and adjacent, or a stretch too short to be halved.
pub open spec fn drawable(g: Segment, min_step: u32) -> bool {
    ||| g.end_t - g.start_t <= min_step && g.start_point != g.end_point && adjacent(
        g.start_point,
        g.end_point,
    )
    ||| midpoint(g.start_t, g.end_t) == g.start_t
}

/// The edges lead from `from` to `to` without a gap: each one starts where the
/// one before it ends. Without any edge the two points are the same.
pub open spec fn linked(edges: Seq<Segment>, from: PlotPoint, to: PlotPoint) -> bool {
    if edges.len() == 0 {
        from == to
    } else {
        &&& edges[0].start_point == from
        &&& edges.last().end_point == to
        &&& forall|i: int|
            0 <= i < edges.len() - 1 ==> (#[trigger] edges[i]).end_point == edges[i + 1].start_point
    }
}

/// The edges lie inside the stretch between `start` and `end`, in ascending
/// order and without overlap, and carry the samples of `s` at their ends.
pub open spec fn ascending(
    edges: Seq<Segment>,
    s: spec_fn(u32) -> PlotPoint,
    start: u32,
    end: u32,
) -> bool {
    &&& forall|i: int|
        0 <= i < edges.len() ==> {
            &&& start <= (#[trigger] edges[i]).start_t < edges[i].end_t <= end
            &&& edges[i] == segment_of(s, edges[i].start_t, edges[i].end_t)
        }
    &&& forall|i: int|
        0 <= i < edges.len() - 1 ==> (#[trigger] edges[i]).end_t <= edges[i + 1].start_t
}

/// The edges of a stretch of a curve are drawable, ascend through the stretch
/// and link its first sample to its last. So every output point is within one
/// device unit of the next, and the last one of the end of the stretch,
/// except across an edge that was too short to be halved.
pub proof fn lemma_accepted_edges_link(
    s: spec_fn(u32) -> PlotPoint,
    min_step: u32,
    start: u32,
    end: u32,
)
    requires
        start < end,
    ensures
        linked(accepted(s, min_step, start, end), s(start), s(end)),
        ascending(accepted(s, min_step, start, end), s, start, end),
        forall|i: int|
            0 <= i < accepted(s, min_step, start, end).len() ==> drawable(
                #[trigger] accepted(s, min_step, start, end)[i],
                min_step,
            ),
    decreases end - start,
{
    let edges = accepted(s, min_step, start, end);
    let mid = midpoint(start, end);
    if end - start <= min_step && s(start) == s(end) {
    } else if end - start <= min_step && adjacent(s(start), s(end)) {
    } else if mid == start {
    } else {
        let head = accepted(s, min_step, start, mid);
        let tail = accepted(s, min_step, mid, end);
        lemma_accepted_edges_link(s, min_step, start, mid);
        lemma_accepted_edges_link(s, min_step, mid, end);
        assert(edges == head + tail);
        assert forall|i: int| 0 <= i < edges.len() implies drawable(#[trigger] edges[i], min_step)
            && start <= edges[i].start_t < edges[i].end_t <= end && edges[i] == segment_of(
            s,
            edges[i].start_t,
            edges[i].end_t,
        ) by {
            if i < head.len() {
                assert(edges[i] == head[i]);
            } else {
                assert(edges[i] == tail[i - head.len()]);
            }
        }
        assert forall|i: int| 0 <= i < edges.len() - 1 implies (#[trigger] edges[i]).end_point
            == edges[i + 1].start_point && edges[i].end_t <= edges[i + 1].start_t by {
            if i + 1 < head.len() {
                assert(edges[i] == head[i]);
                assert(edges[i + 1] == head[i + 1]);
            } else if i < head.len() {
                assert(edges[i] == head.last());
                assert(edges[i + 1] == tail[0]);
            } else {
                assert(edges[i] == tail[i - head.len()]);
                assert(edges[i + 1] == tail[i - head.len() + 1]);
            }
        }
        if edges.len() > 0 {
            if head.len() > 0 {
                assert(edges[0] == head[0]);
            } else {
                assert(edges[0] == tail[0]);
            }
            if tail.len() > 0 {
                assert(edges.last() == tail.last());
            } else {
                assert(edges.last() == head.last());
            }
        }
    }
}

/// Consecutive points of a tessellation are adjacent, and so are its last
/// point and the end of the curve, unless the edge that starts at the point
/// covers a single parameter step. That edge ends at the point that follows.
pub proof fn lemma_tessellation_steps(s: spec_fn(u32) -> PlotPoint, min_step: u32, i: int)
    requires
        0 <= i < tessellation(s, min_step).len(),
    ensures
        ({
            let points = tessellation(s, min_step);
            let edge = accepted(s, min_step, 0, PARAM_ONE)[i];
            let next = if i + 1 < points.len() {
                points[i + 1]
            } else {
                s(PARAM_ONE)
            };
            &&& edge.start_point == points[i]
            &&& edge.end_point == next
            &&& adjacent(points[i], next) || edge.end_t - edge.start_t == 1
        }),
{
    let edges = accepted(s, min_step, 0, PARAM_ONE);
    lemma_accepted_edges_link(s, min_step, 0, PARAM_ONE);
    assert(drawable(edges[i], min_step));
    if i + 1 < edges.len() {
        assert(edges[i].end_point == edges[i + 1].start_point);
    }
}

/// On a curve that moves by at most one device unit per parameter step,
/// every point of the tessellation is adjacent to the next, and the last one
/// to the end of the curve.
pub proof fn lemma_tessellation_adjacent(s: spec_fn(u32) -> PlotPoint, min_step: u32, i: int)
    requires
        0 <= i < tessellation(s, min_step).len(),
        forall|t: u32| t < PARAM_ONE ==> adjacent(#[trigger] s(t), s((t + 1) as u32)),
    ensures
        i + 1 < tessellation(s, min_step).len() ==> adjacent(
            tessellation(s, min_step)[i],
            tessellation(s, min_step)[i + 1],
        ),
        i + 1 == tessellation(s, min_step).len() ==> adjacent(
            tessellation(s, min_step)[i],
            s(PARAM_ONE),
        ),
{
    let edge = accepted(s, min_step, 0, PARAM_ONE)[i];
    lemma_accepted_edges_link(s, min_step, 0, PARAM_ONE);
    lemma_tessellation_steps(s, min_step, i);
    if edge.end_t - edge.start_t == 1 {
        assert(adjacent(s(edge.start_t), s((edge.start_t + 1) as u32)));
    }
}

/// A curve that stays on one point tessellates to nothing, whenever
/// `min_step` is at least one parameter step.
pub proof fn lemma_constant_curve_is_empty(s: spec_fn(u32) -> PlotPoint, min_step: u32)
    requires
        min_step >= 1,
        forall|t: u32| t <= PARAM_ONE ==> #[trigger] s(t) == s(0),
    ensures
        tessellation(s, min_step) == Seq::<PlotPoint>::empty(),
{
    lemma_constant_stretch_is_empty(s, min_step, 0, PARAM_ONE);
}

proof fn lemma_constant_stretch_is_empty(
    s: spec_fn(u32) -> PlotPoint,
    min_step: u32,
    start: u32,
    end: u32,
)
    requires
        min_step >= 1,
        start <= end <= PARAM_ONE,
        forall|t: u32| t <= PARAM_ONE ==> #[trigger] s(t) == s(0),
    ensures
        accepted(s, min_step, start, end) == Seq::<Segment>::empty(),
    decreases end - start,
{
    if start < end && end - start > min_step {
        lemma_constant_stretch_is_empty(s, min_step, start, midpoint(start, end));
        lemma_constant_stretch_is_empty(s, min_step, midpoint(start, end), end);
    }
}

/// The tessellation depends on the curve between its two ends only: two
/// functions that agree on the unit interval have the same tessellation.
pub proof fn lemma_tessellation_of_equal_curves(
    s1: spec_fn(u32) -> PlotPoint,
    s2: spec_fn(u32) -> PlotPoint,
    min_step: u32,
)
    requires
        forall|t: u32| t <= PARAM_ONE ==> #[trigger] s1(t) == s2(t),
    ensures
        tessellation(s1, min_step) == tessellation(s2, min_step),
{
    lemma_accepted_of_equal_curves(s1, s2, min_step, 0, PARAM_ONE);
}

proof fn lemma_accepted_of_equal_curves(
    s1: spec_fn(u32) -> PlotPoint,
    s2: spec_fn(u32) -> PlotPoint,
    min_step: u32,
    start: u32,
    end: u32,
)
    requires
        start <= end <= PARAM_ONE,
        forall|t: u32| t <= PARAM_ONE ==> #[trigger] s1(t) == s2(t),
    ensures
        accepted(s1, min_step, start, end) == accepted(s2, min_step, start, end),
    decreases end - start,
{
    assert(s1(start) == s2(start));
    assert(s1(end) == s2(end));
    if start < end && midpoint(start, end) != start {
        lemma_accepted_of_equal_curves(s1, s2, min_step, start, midpoint(start, end));
        lemma_accepted_of_equal_curves(s1, s2, min_step, midpoint(start, end), end);
    }
}

} // verus!
