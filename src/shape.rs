use vstd::prelude::*;
use crate::scalar::{Scalar, lt, le, two, three, lemma_le_reflexive};
use crate::math::{
    min, max, mix, solve_linear, solve_quadratic, solve_cubic, spec_min, spec_max, spec_mix,
    linear_root, quadratic_roots, cubic_roots, option_seq,
};

verus! {

/// A point, or a vector, in shape space.
#[derive(Clone, Copy)]
pub struct Point2<S> {
    pub x: S,
    pub y: S,
}

impl<S: Scalar> Point2<S> {
    pub fn new(x: S, y: S) -> (r: Point2<S>)
        ensures
            r == (Point2 { x, y }),
    {
        Point2 { x, y }
    }
}

/// Both coordinates compare equal.
pub open spec fn point_eq<S: Scalar>(a: Point2<S>, b: Point2<S>) -> bool {
    S::spec_eq(a.x, b.x) && S::spec_eq(a.y, b.y)
}

/// An axis-aligned bounding rectangle.
#[derive(Clone, Copy)]
pub struct Aabr<S> {
    pub min: Point2<S>,
    pub max: Point2<S>,
}

/// The rectangle holding the single point `p`.
pub open spec fn point_box<S: Scalar>(p: Point2<S>) -> Aabr<S> {
    Aabr { min: p, max: p }
}

/// The smallest rectangle holding `b` and `p`.
pub open spec fn box_with_point<S: Scalar>(b: Aabr<S>, p: Point2<S>) -> Aabr<S> {
    Aabr {
        min: Point2 { x: spec_min(b.min.x, p.x), y: spec_min(b.min.y, p.y) },
        max: Point2 { x: spec_max(b.max.x, p.x), y: spec_max(b.max.y, p.y) },
    }
}

/// The smallest rectangle holding both `a` and `b`.
pub open spec fn box_union<S: Scalar>(a: Aabr<S>, b: Aabr<S>) -> Aabr<S> {
    Aabr {
        min: Point2 { x: spec_min(a.min.x, b.min.x), y: spec_min(a.min.y, b.min.y) },
        max: Point2 { x: spec_max(a.max.x, b.max.x), y: spec_max(a.max.y, b.max.y) },
    }
}

fn box_of_point<S: Scalar>(p: Point2<S>) -> (r: Aabr<S>)
    ensures
        r == point_box(p),
{
    Aabr { min: p, max: p }
}

fn expand_to_point<S: Scalar>(b: Aabr<S>, p: Point2<S>) -> (r: Aabr<S>)
    ensures
        r == box_with_point(b, p),
{
    Aabr {
        min: Point2 { x: min(b.min.x, p.x), y: min(b.min.y, p.y) },
        max: Point2 { x: max(b.max.x, p.x), y: max(b.max.y, p.y) },
    }
}

fn union<S: Scalar>(a: Aabr<S>, b: Aabr<S>) -> (r: Aabr<S>)
    ensures
        r == box_union(a, b),
{
    Aabr {
        min: Point2 { x: min(a.min.x, b.min.x), y: min(a.min.y, b.min.y) },
        max: Point2 { x: max(a.max.x, b.max.x), y: max(a.max.y, b.max.y) },
    }
}

/// `p` lies within `max_distance` of `b` along both axes, so a circle of that
/// radius around `p` may meet the rectangle.
pub open spec fn box_near<S: Scalar>(b: Aabr<S>, p: Point2<S>, max_distance: S) -> bool {
    &&& le(S::spec_sub(b.min.x, max_distance), p.x)
    &&& le(p.x, S::spec_add(b.max.x, max_distance))
    &&& le(S::spec_sub(b.min.y, max_distance), p.y)
    &&& le(p.y, S::spec_add(b.max.y, max_distance))
}

fn aabr_potentially_contains_circle<S: Scalar>(b: Aabr<S>, p: Point2<S>, max_distance: S) -> (r:
    bool)
    ensures
        r == box_near(b, p, max_distance),
{
    !p.x.lt(&b.min.x.sub(max_distance)) && !b.max.x.add(max_distance).lt(&p.x) && !p.y.lt(
        &b.min.y.sub(max_distance),
    ) && !b.max.y.add(max_distance).lt(&p.y)
}

pub open spec fn sub_point<S: Scalar>(a: Point2<S>, b: Point2<S>) -> Point2<S> {
    Point2 { x: S::spec_sub(a.x, b.x), y: S::spec_sub(a.y, b.y) }
}

pub open spec fn add_point<S: Scalar>(a: Point2<S>, b: Point2<S>) -> Point2<S> {
    Point2 { x: S::spec_add(a.x, b.x), y: S::spec_add(a.y, b.y) }
}

pub open spec fn scale_point<S: Scalar>(a: Point2<S>, k: S) -> Point2<S> {
    Point2 { x: S::spec_mul(a.x, k), y: S::spec_mul(a.y, k) }
}

pub open spec fn dot<S: Scalar>(a: Point2<S>, b: Point2<S>) -> S {
    S::spec_add(S::spec_mul(a.x, b.x), S::spec_mul(a.y, b.y))
}

/// The Euclidean distance from `a` to `b`.
pub open spec fn distance<S: Scalar>(a: Point2<S>, b: Point2<S>) -> S {
    let d = sub_point(b, a);
    S::spec_sqrt(dot(d, d))
}

fn sub_points<S: Scalar>(a: Point2<S>, b: Point2<S>) -> (r: Point2<S>)
    ensures
        r == sub_point(a, b),
{
    Point2 { x: a.x.sub(b.x), y: a.y.sub(b.y) }
}

fn add_points<S: Scalar>(a: Point2<S>, b: Point2<S>) -> (r: Point2<S>)
    ensures
        r == add_point(a, b),
{
    Point2 { x: a.x.add(b.x), y: a.y.add(b.y) }
}

fn scale<S: Scalar>(a: Point2<S>, k: S) -> (r: Point2<S>)
    ensures
        r == scale_point(a, k),
{
    Point2 { x: a.x.mul(k), y: a.y.mul(k) }
}

fn dot_product<S: Scalar>(a: Point2<S>, b: Point2<S>) -> (r: S)
    ensures
        r == dot(a, b),
{
    a.x.mul(b.x).add(a.y.mul(b.y))
}

fn distance_between<S: Scalar>(a: Point2<S>, b: Point2<S>) -> (r: S)
    ensures
        r == distance(a, b),
{
    let d = sub_points(b, a);
    dot_product(d, d).sqrt()
}

/// One piece of an outline, with only its own control points.
#[derive(Clone, Copy)]
pub enum EdgeSegment<S> {
    Linear { start: Point2<S>, end: Point2<S> },
    Quadratic { start: Point2<S>, ctrl: Point2<S>, end: Point2<S> },
    Cubic { start: Point2<S>, ctrl0: Point2<S>, ctrl1: Point2<S>, end: Point2<S> },
}

/// The point of the segment at parameter `t`, in the Bernstein basis.
pub open spec fn segment_at<S: Scalar>(seg: EdgeSegment<S>, t: S) -> Point2<S> {
    let u = S::spec_sub(S::spec_one(), t);
    match seg {
        EdgeSegment::Linear { start, end } => Point2 {
            x: spec_mix(start.x, end.x, t),
            y: spec_mix(start.y, end.y, t),
        },
        EdgeSegment::Quadratic { start, ctrl, end } => add_point(
            add_point(
                scale_point(scale_point(start, u), u),
                scale_point(scale_point(scale_point(ctrl, two::<S>()), u), t),
            ),
            scale_point(scale_point(end, t), t),
        ),
        EdgeSegment::Cubic { start, ctrl0, ctrl1, end } => add_point(
            add_point(
                add_point(
                    scale_point(scale_point(scale_point(start, u), u), u),
                    scale_point(scale_point(scale_point(scale_point(ctrl0, three::<S>()), u), u), t),
                ),
                scale_point(scale_point(scale_point(scale_point(ctrl1, three::<S>()), u), t), t),
            ),
            scale_point(scale_point(scale_point(end, t), t), t),
        ),
    }
}

pub open spec fn segment_start<S>(seg: EdgeSegment<S>) -> Point2<S> {
    match seg {
        EdgeSegment::Linear { start, .. } => start,
        EdgeSegment::Quadratic { start, .. } => start,
        EdgeSegment::Cubic { start, .. } => start,
    }
}

pub open spec fn segment_end<S>(seg: EdgeSegment<S>) -> Point2<S> {
    match seg {
        EdgeSegment::Linear { end, .. } => end,
        EdgeSegment::Quadratic { end, .. } => end,
        EdgeSegment::Cubic { end, .. } => end,
    }
}

/// `t` lies in the closed unit interval.
pub open spec fn in_unit<S: Scalar>(t: S) -> bool {
    le(S::spec_zero(), t) && le(t, S::spec_one())
}

/// `t` lies in the half-open unit interval `[0, 1)`.
pub open spec fn in_half_open_unit<S: Scalar>(t: S) -> bool {
    le(S::spec_zero(), t) && lt(t, S::spec_one())
}

/// The box `b` grown by the segment's points at each parameter of `ts` that
/// lies in `[0, 1]`, in order.
pub open spec fn box_with_extrema<S: Scalar>(b: Aabr<S>, seg: EdgeSegment<S>, ts: Seq<S>) -> Aabr<
    S,
>
    decreases ts.len(),
{
    if ts.len() == 0 {
        b
    } else {
        let prev = box_with_extrema(b, seg, ts.drop_last());
        if in_unit(ts.last()) {
            box_with_point(prev, segment_at(seg, ts.last()))
        } else {
            prev
        }
    }
}

/// The parameters where the quadratic's derivative along each axis vanishes,
/// x first.
pub open spec fn quadratic_extrema<S: Scalar>(start: Point2<S>, ctrl: Point2<S>, end: Point2<S>) -> Seq<S> {
    let a = sub_point(ctrl, start);
    let b = sub_point(sub_point(end, ctrl), a);
    option_seq(linear_root(b.x, a.x)) + option_seq(linear_root(b.y, a.y))
}

/// The parameters where the cubic's derivative along each axis vanishes, x first.
pub open spec fn cubic_extrema<S: Scalar>(
    start: Point2<S>,
    ctrl0: Point2<S>,
    ctrl1: Point2<S>,
    end: Point2<S>,
) -> Seq<S> {
    let a = sub_point(ctrl0, start);
    let b0 = sub_point(sub_point(ctrl1, ctrl0), a);
    let b = add_point(b0, b0);
    let c = sub_point(
        add_point(sub_point(end, scale_point(ctrl1, three::<S>())), scale_point(ctrl0, three::<S>())),
        start,
    );
    quadratic_roots(c.x, b.x, a.x) + quadratic_roots(c.y, b.y, a.y)
}

/// The bounding box of a segment: its endpoints, and for a curve every point
/// where a coordinate's derivative vanishes inside `[0, 1]`.
pub open spec fn segment_box<S: Scalar>(seg: EdgeSegment<S>) -> Aabr<S> {
    let ends = box_with_point(point_box(segment_start(seg)), segment_end(seg));
    match seg {
        EdgeSegment::Linear { .. } => ends,
        EdgeSegment::Quadratic { start, ctrl, end } => box_with_extrema(
            ends,
            seg,
            quadratic_extrema(start, ctrl, end),
        ),
        EdgeSegment::Cubic { start, ctrl0, ctrl1, end } => box_with_extrema(
            ends,
            seg,
            cubic_extrema(start, ctrl0, ctrl1, end),
        ),
    }
}

/// The x coordinate of a curve at parameter `t`, in the power basis used by
/// the crossing search.
pub open spec fn crossing_x<S: Scalar>(seg: EdgeSegment<S>, t: S) -> S {
    match seg {
        EdgeSegment::Linear { start, end } => spec_mix(start.x, end.x, t),
        EdgeSegment::Quadratic { start, ctrl, end } => {
            let ba = sub_point(ctrl, start);
            let cb2a = sub_point(sub_point(end, ctrl), ba);
            let b2a2 = scale_point(ba, two::<S>());
            S::spec_add(
                S::spec_add(S::spec_mul(S::spec_mul(cb2a.x, t), t), S::spec_mul(b2a2.x, t)),
                start.x,
            )
        },
        EdgeSegment::Cubic { start, ctrl0, ctrl1, end } => {
            let ba = sub_point(ctrl0, start);
            let cb2a = sub_point(sub_point(ctrl1, ctrl0), ba);
            let b3a3 = scale_point(ba, three::<S>());
            let c3b6a3 = scale_point(cb2a, three::<S>());
            let dc3b3a = add_point(
                sub_point(end, start),
                scale_point(sub_point(ctrl0, ctrl1), three::<S>()),
            );
            let t_sq = S::spec_mul(t, t);
            S::spec_add(
                S::spec_add(
                    S::spec_add(S::spec_mul(S::spec_mul(dc3b3a.x, t_sq), t), S::spec_mul(c3b6a3.x, t_sq)),
                    S::spec_mul(b3a3.x, t),
                ),
                start.x,
            )
        },
    }
}

/// The parameters where the segment's y coordinate equals `y`, before any
/// restriction to the unit interval.
pub open spec fn crossing_params<S: Scalar>(seg: EdgeSegment<S>, y: S) -> Seq<S> {
    match seg {
        EdgeSegment::Linear { start, end } => option_seq(
            linear_root(S::spec_sub(end.y, start.y), S::spec_sub(start.y, y)),
        ),
        EdgeSegment::Quadratic { start, ctrl, end } => {
            let ba = sub_point(ctrl, start);
            let cb2a = sub_point(sub_point(end, ctrl), ba);
            let b2a2 = scale_point(ba, two::<S>());
            quadratic_roots(cb2a.y, b2a2.y, S::spec_sub(start.y, y))
        },
        EdgeSegment::Cubic { start, ctrl0, ctrl1, end } => {
            let ba = sub_point(ctrl0, start);
            let cb2a = sub_point(sub_point(ctrl1, ctrl0), ba);
            let b3a3 = scale_point(ba, three::<S>());
            let c3b6a3 = scale_point(cb2a, three::<S>());
            let dc3b3a = add_point(
                sub_point(end, start),
                scale_point(sub_point(ctrl0, ctrl1), three::<S>()),
            );
            cubic_roots(dc3b3a.y, c3b6a3.y, b3a3.y, S::spec_sub(start.y, y))
        },
    }
}

/// The x coordinates, in order, of the parameters of `ts` that lie in `[0, 1)`.
pub open spec fn kept_crossings<S: Scalar>(seg: EdgeSegment<S>, ts: Seq<S>) -> Seq<S>
    decreases ts.len(),
{
    if ts.len() == 0 {
        seq![]
    } else {
        let prev = kept_crossings(seg, ts.drop_last());
        if in_half_open_unit(ts.last()) {
            prev.push(crossing_x(seg, ts.last()))
        } else {
            prev
        }
    }
}

/// The line spans `y` with its lower end included and its upper end excluded,
/// so a vertex shared by two lines counts once.
pub open spec fn line_spans<S: Scalar>(start: Point2<S>, end: Point2<S>, y: S) -> bool {
    (le(start.y, y) && lt(y, end.y)) || (le(end.y, y) && lt(y, start.y))
}

/// The x coordinates where the horizontal line at `y` crosses the segment.
pub open spec fn segment_crossings<S: Scalar>(seg: EdgeSegment<S>, y: S) -> Seq<S> {
    match seg {
        EdgeSegment::Linear { start, end } => if line_spans(start, end, y) {
            kept_crossings_linear(seg, crossing_params(seg, y))
        } else {
            seq![]
        },
        _ => kept_crossings(seg, crossing_params(seg, y)),
    }
}

/// For a line that spans the row, every parameter counts.
pub open spec fn kept_crossings_linear<S: Scalar>(seg: EdgeSegment<S>, ts: Seq<S>) -> Seq<S> {
    ts.map_values(|t: S| crossing_x(seg, t))
}

/// The point of the line from `start` to `end` nearest to `p`: the
/// perpendicular projection clamped to the segment, or `start` when the line
/// has no length.
pub open spec fn projected_point<S: Scalar>(start: Point2<S>, end: Point2<S>, p: Point2<S>) -> Point2<
    S,
> {
    let d = sub_point(end, start);
    let len_sq = dot(d, d);
    if le(S::spec_abs(len_sq), S::spec_epsilon()) {
        start
    } else {
        let t = spec_min(
            spec_max(S::spec_div(dot(sub_point(p, start), d), len_sq), S::spec_zero()),
            S::spec_one(),
        );
        add_point(start, scale_point(d, t))
    }
}

/// A parameter found by a curve search, with the point there replaced by the
/// nearer endpoint when the parameter fell outside `[0, 1]`.
pub open spec fn clamp_found<S: Scalar>(
    found: (S, Point2<S>),
    start: Point2<S>,
    end: Point2<S>,
) -> Point2<S> {
    if lt(found.0, S::spec_zero()) {
        start
    } else if lt(S::spec_one(), found.0) {
        end
    } else {
        found.1
    }
}

/// The point of the segment nearest to `p`, exact for a line and found by a
/// bisection search of one (quadratic) or two (cubic) samples for a curve.
pub open spec fn segment_nearest<S: Scalar>(seg: EdgeSegment<S>, p: Point2<S>, epsilon: S) -> Point2<
    S,
> {
    match seg {
        EdgeSegment::Linear { start, end } => projected_point(start, end, p),
        EdgeSegment::Quadratic { start, ctrl, end } => clamp_found(
            S::spec_search_quadratic(start, ctrl, end, p, 1, epsilon),
            start,
            end,
        ),
        EdgeSegment::Cubic { start, ctrl0, ctrl1, end } => clamp_found(
            S::spec_search_cubic(start, ctrl0, ctrl1, end, p, 2, epsilon),
            start,
            end,
        ),
    }
}


/// `q` lies on the segment: it is one of the two ends, or the segment's point
/// at a parameter in `[0, 1]`.
pub open spec fn on_segment<S: Scalar>(seg: EdgeSegment<S>, q: Point2<S>) -> bool {
    ||| q == segment_start(seg)
    ||| q == segment_end(seg)
    ||| exists|t: S| in_unit(t) && q == segment_at(seg, t)
}

proof fn lemma_found_on_segment<S: Scalar>(seg: EdgeSegment<S>, found: (S, Point2<S>))
    requires
        !lt(found.0, S::spec_zero()),
        !lt(S::spec_one(), found.0),
        found.1 == segment_at(seg, found.0) || (found.0 == S::spec_one() && found.1 == segment_end(
            seg,
        )),
    ensures
        on_segment(seg, found.1),
{
    if found.1 == segment_at(seg, found.0) {
        assert(in_unit(found.0));
    }
}

/// Grows `b` by the segment's points at the parameters of `ts` in `[0, 1]`.
fn expand_by_params<S: Scalar>(b: Aabr<S>, seg: &EdgeSegment<S>, ts: &Vec<S>) -> (r: Aabr<S>)
    ensures
        r == box_with_extrema(b, *seg, ts@),
{
    let mut out = b;
    let mut i: usize = 0;
    while i < ts.len()
        invariant
            i <= ts@.len(),
            out == box_with_extrema(b, *seg, ts@.subrange(0, i as int)),
        decreases ts@.len() - i,
    {
        let t = ts[i];
        proof {
            assert(ts@.subrange(0, i as int + 1).drop_last() =~= ts@.subrange(0, i as int));
        }
        if !t.lt(&S::zero()) && !S::one().lt(&t) {
            out = expand_to_point(out, seg.evaluate(t));
        }
        i = i + 1;
    }
    assert(ts@.subrange(0, ts@.len() as int) =~= ts@);
    out
}

/// Appends to `out` the x coordinates of the parameters of `ts` in `[0, 1)`.
fn push_kept_crossings<S: Scalar>(seg: &EdgeSegment<S>, ts: &Vec<S>) -> (r: Vec<S>)
    ensures
        r@ == kept_crossings(*seg, ts@),
{
    let mut out: Vec<S> = Vec::new();
    let mut i: usize = 0;
    while i < ts.len()
        invariant
            i <= ts@.len(),
            out@ == kept_crossings(*seg, ts@.subrange(0, i as int)),
        decreases ts@.len() - i,
    {
        let t = ts[i];
        proof {
            assert(ts@.subrange(0, i as int + 1).drop_last() =~= ts@.subrange(0, i as int));
        }
        if !t.lt(&S::zero()) && t.lt(&S::one()) {
            out.push(seg.crossing_x(t));
        }
        i = i + 1;
    }
    assert(ts@.subrange(0, ts@.len() as int) =~= ts@);
    out
}

impl<S: Scalar> EdgeSegment<S> {
    /// The first point of the segment.
    pub fn start(&self) -> (r: Point2<S>)
        ensures
            r == segment_start(*self),
    {
        match self {
            EdgeSegment::Linear { start, .. } => *start,
            EdgeSegment::Quadratic { start, .. } => *start,
            EdgeSegment::Cubic { start, .. } => *start,
        }
    }

    /// The last point of the segment.
    pub fn end(&self) -> (r: Point2<S>)
        ensures
            r == segment_end(*self),
    {
        match self {
            EdgeSegment::Linear { end, .. } => *end,
            EdgeSegment::Quadratic { end, .. } => *end,
            EdgeSegment::Cubic { end, .. } => *end,
        }
    }

    /// The point of the segment at parameter `t`.
    pub fn evaluate(&self, t: S) -> (r: Point2<S>)
        ensures
            r == segment_at(*self, t),
    {
        let u = S::one().sub(t);
        match self {
            EdgeSegment::Linear { start, end } => Point2 {
                x: mix(start.x, end.x, t),
                y: mix(start.y, end.y, t),
            },
            EdgeSegment::Quadratic { start, ctrl, end } => {
                let two = S::one().add(S::one());
                add_points(
                    add_points(scale(scale(*start, u), u), scale(scale(scale(*ctrl, two), u), t)),
                    scale(scale(*end, t), t),
                )
            },
            EdgeSegment::Cubic { start, ctrl0, ctrl1, end } => {
                let three = S::one().add(S::one()).add(S::one());
                add_points(
                    add_points(
                        add_points(
                            scale(scale(scale(*start, u), u), u),
                            scale(scale(scale(scale(*ctrl0, three), u), u), t),
                        ),
                        scale(scale(scale(scale(*ctrl1, three), u), t), t),
                    ),
                    scale(scale(scale(*end, t), t), t),
                )
            },
        }
    }

    /// The bounding box of the segment.
    pub fn aabr(&self) -> (r: Aabr<S>)
        ensures
            r == segment_box(*self),
    {
        let ends = expand_to_point(box_of_point(self.start()), self.end());
        match self {
            EdgeSegment::Linear { .. } => ends,
            EdgeSegment::Quadratic { start, ctrl, end } => {
                let a = sub_points(*ctrl, *start);
                let b = sub_points(sub_points(*end, *ctrl), a);
                let mut ts: Vec<S> = Vec::new();
                if let Some(t) = solve_linear(b.x, a.x) {
                    ts.push(t);
                }
                if let Some(t) = solve_linear(b.y, a.y) {
                    ts.push(t);
                }
                assert(ts@ =~= quadratic_extrema(*start, *ctrl, *end));
                expand_by_params(ends, self, &ts)
            },
            EdgeSegment::Cubic { start, ctrl0, ctrl1, end } => {
                let three = S::one().add(S::one()).add(S::one());
                let a = sub_points(*ctrl0, *start);
                let b0 = sub_points(sub_points(*ctrl1, *ctrl0), a);
                let b = add_points(b0, b0);
                let c = sub_points(
                    add_points(sub_points(*end, scale(*ctrl1, three)), scale(*ctrl0, three)),
                    *start,
                );
                let mut ts = solve_quadratic(c.x, b.x, a.x);
                let mut ys = solve_quadratic(c.y, b.y, a.y);
                ts.append(&mut ys);
                assert(ts@ =~= cubic_extrema(*start, *ctrl0, *ctrl1, *end));
                expand_by_params(ends, self, &ts)
            },
        }
    }

    fn crossing_x(&self, t: S) -> (r: S)
        ensures
            r == crossing_x(*self, t),
    {
        match self {
            EdgeSegment::Linear { start, end } => mix(start.x, end.x, t),
            EdgeSegment::Quadratic { start, ctrl, end } => {
                let two = S::one().add(S::one());
                let ba = sub_points(*ctrl, *start);
                let cb2a = sub_points(sub_points(*end, *ctrl), ba);
                let b2a2 = scale(ba, two);
                cb2a.x.mul(t).mul(t).add(b2a2.x.mul(t)).add(start.x)
            },
            EdgeSegment::Cubic { start, ctrl0, ctrl1, end } => {
                let three = S::one().add(S::one()).add(S::one());
                let ba = sub_points(*ctrl0, *start);
                let cb2a = sub_points(sub_points(*ctrl1, *ctrl0), ba);
                let b3a3 = scale(ba, three);
                let c3b6a3 = scale(cb2a, three);
                let dc3b3a = add_points(sub_points(*end, *start), scale(sub_points(*ctrl0, *ctrl1), three));
                let t_sq = t.mul(t);
                dc3b3a.x.mul(t_sq).mul(t).add(c3b6a3.x.mul(t_sq)).add(b3a3.x.mul(t)).add(start.x)
            },
        }
    }

    /// The x coordinates where the horizontal line at `y` crosses the segment,
    /// each crossing parameter taken in `[0, 1)`.
    pub fn scanline_intersections(&self, y: S) -> (r: Vec<S>)
        ensures
            r@ == segment_crossings(*self, y),
    {
        match self {
            EdgeSegment::Linear { start, end } => {
                let mut out: Vec<S> = Vec::new();
                if (!y.lt(&start.y) && y.lt(&end.y)) || (!y.lt(&end.y) && y.lt(&start.y)) {
                    if let Some(t) = solve_linear(end.y.sub(start.y), start.y.sub(y)) {
                        out.push(mix(start.x, end.x, t));
                    }
                    assert(out@ =~= kept_crossings_linear(*self, crossing_params(*self, y)));
                }
                out
            },
            EdgeSegment::Quadratic { start, ctrl, end } => {
                let two = S::one().add(S::one());
                let ba = sub_points(*ctrl, *start);
                let cb2a = sub_points(sub_points(*end, *ctrl), ba);
                let b2a2 = scale(ba, two);
                let ts = solve_quadratic(cb2a.y, b2a2.y, start.y.sub(y));
                push_kept_crossings(self, &ts)
            },
            EdgeSegment::Cubic { start, ctrl0, ctrl1, end } => {
                let three = S::one().add(S::one()).add(S::one());
                let ba = sub_points(*ctrl0, *start);
                let cb2a = sub_points(sub_points(*ctrl1, *ctrl0), ba);
                let b3a3 = scale(ba, three);
                let c3b6a3 = scale(cb2a, three);
                let dc3b3a = add_points(sub_points(*end, *start), scale(sub_points(*ctrl0, *ctrl1), three));
                let ts = solve_cubic(dc3b3a.y, c3b6a3.y, b3a3.y, start.y.sub(y));
                push_kept_crossings(self, &ts)
            },
        }
    }

    /// The distance from `p` to the segment and the nearest point of it; for a
    /// curve, `epsilon` (above machine epsilon) bounds the search's final step,
    /// and the point found lies on the curve: never past its ends.
    pub fn closest_point(&self, p: Point2<S>, epsilon: S) -> (r: (S, Point2<S>))
        requires
            lt(S::spec_epsilon(), epsilon),
        ensures
            r.1 == segment_nearest(*self, p, epsilon),
            r.0 == distance(r.1, p),
            !(*self is Linear) ==> on_segment(*self, r.1),
    {
        let q = match self {
            EdgeSegment::Linear { start, end } => {
                let d = sub_points(*end, *start);
                let len_sq = dot_product(d, d);
                if !S::epsilon().lt(&len_sq.abs()) {
                    *start
                } else {
                    let t = min(
                        max(dot_product(sub_points(p, *start), d).div(len_sq), S::zero()),
                        S::one(),
                    );
                    add_points(*start, scale(d, t))
                }
            },
            EdgeSegment::Quadratic { start, ctrl, end } => {
                let found = S::search_quadratic(*start, *ctrl, *end, p, 1, epsilon);
                if found.0.lt(&S::zero()) {
                    *start
                } else if S::one().lt(&found.0) {
                    *end
                } else {
                    proof {
                        lemma_found_on_segment(*self, found);
                    }
                    found.1
                }
            },
            EdgeSegment::Cubic { start, ctrl0, ctrl1, end } => {
                let found = S::search_cubic(*start, *ctrl0, *ctrl1, *end, p, 2, epsilon);
                if found.0.lt(&S::zero()) {
                    *start
                } else if S::one().lt(&found.0) {
                    *end
                } else {
                    proof {
                        lemma_found_on_segment(*self, found);
                    }
                    found.1
                }
            },
        };
        (distance_between(q, p), q)
    }
}


/// The channel color an edge carries; the single-channel field ignores it.
#[allow(non_camel_case_types)]
#[derive(Clone, Copy, PartialEq, Eq, Structural, Debug)]
pub enum EdgeColor {
    BLACK,
    RED,
    GREEN,
    YELLOW,
    BLUE,
    MAGENTA,
    CYAN,
    WHITE,
}

/// A segment with its cached bounding box and whether it opens a contour.
#[derive(Clone, Copy)]
pub struct Edge<S> {
    pub segment: EdgeSegment<S>,
    pub color: EdgeColor,
    pub aabr: Aabr<S>,
    pub is_new_contour: bool,
}

/// The edge the builder records for `seg`.
pub open spec fn make_edge<S: Scalar>(seg: EdgeSegment<S>, is_new_contour: bool) -> Edge<S> {
    Edge { segment: seg, color: EdgeColor::WHITE, aabr: segment_box(seg), is_new_contour }
}

/// Every edge's cached box is its segment's box.
pub open spec fn boxes_cached<S: Scalar>(edges: Seq<Edge<S>>) -> bool {
    forall|i: int| 0 <= i < edges.len() ==> #[trigger] edges[i].aabr == segment_box(edges[i].segment)
}

/// The union of the boxes of a non-empty edge list, taken in order.
pub open spec fn edges_box<S: Scalar>(edges: Seq<Edge<S>>) -> Aabr<S>
    decreases edges.len(),
{
    if edges.len() <= 1 {
        edges[0].aabr
    } else {
        box_union(edges_box(edges.drop_last()), edges.last().aabr)
    }
}

/// The crossings of the row at `y` with every edge whose box spans `y`, in
/// edge order.
pub open spec fn edges_crossings<S: Scalar>(edges: Seq<Edge<S>>, y: S) -> Seq<S>
    decreases edges.len(),
{
    if edges.len() == 0 {
        seq![]
    } else {
        let prev = edges_crossings(edges.drop_last(), y);
        let e = edges.last();
        if le(e.aabr.min.y, y) && le(y, e.aabr.max.y) {
            prev + segment_crossings(e.segment, y)
        } else {
            prev
        }
    }
}

/// The nearest point within `max_distance` over the edges whose box is near
/// `p`, with its distance; on equal distances the earliest edge wins.
pub open spec fn edges_nearest<S: Scalar>(
    edges: Seq<Edge<S>>,
    p: Point2<S>,
    max_distance: S,
    epsilon: S,
) -> Option<(S, Point2<S>)>
    decreases edges.len(),
{
    if edges.len() == 0 {
        None
    } else {
        let prev = edges_nearest(edges.drop_last(), p, max_distance, epsilon);
        let e = edges.last();
        let q = segment_nearest(e.segment, p, epsilon);
        let d = distance(q, p);
        if box_near(e.aabr, p, max_distance) && le(d, max_distance) {
            match prev {
                None => Some((d, q)),
                Some(best) => if lt(d, best.0) {
                    Some((d, q))
                } else {
                    prev
                },
            }
        } else {
            prev
        }
    }
}

/// The crossings of the row at `y` with the shape, unsorted: none when `y`
/// is outside the shape's box.
pub open spec fn shape_crossings<S: Scalar>(shape: Shape<S>, y: S) -> Seq<S> {
    if lt(y, shape.box_view().min.y) || lt(shape.box_view().max.y, y) {
        Seq::<S>::empty()
    } else {
        edges_crossings(shape.edges_view(), y)
    }
}

/// The nearest point of the shape to `p` within `max_distance`, with its
/// distance: none when `p` is farther than that from the shape's box.
pub open spec fn shape_nearest<S: Scalar>(
    shape: Shape<S>,
    p: Point2<S>,
    max_distance: S,
    epsilon: S,
) -> Option<(S, Point2<S>)> {
    if box_near(shape.box_view(), p, max_distance) {
        edges_nearest(shape.edges_view(), p, max_distance, epsilon)
    } else {
        None
    }
}

/// `inner` lies within `outer` on both axes.
pub open spec fn box_within<S: Scalar>(inner: Aabr<S>, outer: Aabr<S>) -> bool {
    &&& le(outer.min.x, inner.min.x)
    &&& le(outer.min.y, inner.min.y)
    &&& le(inner.max.x, outer.max.x)
    &&& le(inner.max.y, outer.max.y)
}

proof fn lemma_min_below<S: Scalar>(m: S, y: S, z: S)
    requires
        le(m, z),
    ensures
        le(spec_min(m, y), z),
{
    if lt(y, m) && lt(z, y) {
        S::lemma_lt_transitive(z, y, m);
    }
}

proof fn lemma_min_below_right<S: Scalar>(m: S, y: S)
    ensures
        le(spec_min(m, y), y),
{
    if lt(y, m) && lt(y, y) {
        S::lemma_lt_asymmetric(y, y);
    }
}

proof fn lemma_max_above<S: Scalar>(m: S, y: S, z: S)
    requires
        le(z, m),
    ensures
        le(z, spec_max(m, y)),
{
    if lt(m, y) && lt(y, z) {
        S::lemma_lt_transitive(m, y, z);
    }
}

proof fn lemma_max_above_right<S: Scalar>(m: S, y: S)
    ensures
        le(y, spec_max(m, y)),
{
    if lt(m, y) && lt(y, y) {
        S::lemma_lt_asymmetric(y, y);
    }
}

proof fn lemma_box_within_self<S: Scalar>(b: Aabr<S>)
    ensures
        box_within(b, b),
{
    lemma_le_reflexive(b.min.x);
    lemma_le_reflexive(b.min.y);
    lemma_le_reflexive(b.max.x);
    lemma_le_reflexive(b.max.y);
}

/// `p` lies within `b` on both axes.
pub open spec fn point_within<S: Scalar>(p: Point2<S>, b: Aabr<S>) -> bool {
    &&& le(b.min.x, p.x)
    &&& le(b.min.y, p.y)
    &&& le(p.x, b.max.x)
    &&& le(p.y, b.max.y)
}

proof fn lemma_grow_keeps_point<S: Scalar>(b: Aabr<S>, q: Point2<S>, p: Point2<S>)
    requires
        point_within(p, b),
    ensures
        point_within(p, box_with_point(b, q)),
        point_within(q, box_with_point(b, q)),
{
    lemma_min_below(b.min.x, q.x, p.x);
    lemma_min_below(b.min.y, q.y, p.y);
    lemma_max_above(b.max.x, q.x, p.x);
    lemma_max_above(b.max.y, q.y, p.y);
    lemma_min_below_right(b.min.x, q.x);
    lemma_min_below_right(b.min.y, q.y);
    lemma_max_above_right(b.max.x, q.x);
    lemma_max_above_right(b.max.y, q.y);
}

proof fn lemma_extrema_keep_point<S: Scalar>(b: Aabr<S>, seg: EdgeSegment<S>, ts: Seq<S>, p: Point2<S>)
    requires
        point_within(p, b),
    ensures
        point_within(p, box_with_extrema(b, seg, ts)),
    decreases ts.len(),
{
    if ts.len() > 0 {
        lemma_extrema_keep_point(b, seg, ts.drop_last(), p);
        let prev = box_with_extrema(b, seg, ts.drop_last());
        lemma_grow_keeps_point(prev, segment_at(seg, ts.last()), p);
    }
}

/// A segment's box holds both of its endpoints.
pub proof fn lemma_segment_box_holds_ends<S: Scalar>(seg: EdgeSegment<S>)
    ensures
        point_within(segment_start(seg), segment_box(seg)),
        point_within(segment_end(seg), segment_box(seg)),
{
    let start = segment_start(seg);
    let end = segment_end(seg);
    lemma_le_reflexive(start.x);
    lemma_le_reflexive(start.y);
    let ends = box_with_point(point_box(start), end);
    lemma_grow_keeps_point(point_box(start), end, start);
    match seg {
        EdgeSegment::Linear { .. } => {},
        EdgeSegment::Quadratic { start, ctrl, end } => {
            lemma_extrema_keep_point(ends, seg, quadratic_extrema(start, ctrl, end), start);
            lemma_extrema_keep_point(ends, seg, quadratic_extrema(start, ctrl, end), end);
        },
        EdgeSegment::Cubic { start, ctrl0, ctrl1, end } => {
            lemma_extrema_keep_point(ends, seg, cubic_extrema(start, ctrl0, ctrl1, end), start);
            lemma_extrema_keep_point(ends, seg, cubic_extrema(start, ctrl0, ctrl1, end), end);
        },
    }
}

/// The box's minimum lies at or below its maximum on both axes.
pub open spec fn box_ordered<S: Scalar>(b: Aabr<S>) -> bool {
    le(b.min.x, b.max.x) && le(b.min.y, b.max.y)
}

proof fn lemma_axis_grow<S: Scalar>(lo: S, hi: S, p: S)
    requires
        le(lo, hi),
    ensures
        le(spec_min(lo, p), spec_max(hi, p)),
{
    lemma_le_reflexive(p);
    if lt(hi, p) && lt(p, lo) {
        S::lemma_lt_transitive(hi, p, lo);
    }
}

proof fn lemma_axis_union<S: Scalar>(lo1: S, hi1: S, lo2: S, hi2: S)
    requires
        le(lo1, hi1),
        le(lo2, hi2),
    ensures
        le(spec_min(lo1, lo2), spec_max(hi1, hi2)),
{
    if lt(hi1, hi2) && lt(hi2, lo1) {
        S::lemma_lt_transitive(hi1, hi2, lo1);
    }
    if lt(lo2, lo1) && lt(hi1, lo2) {
        S::lemma_lt_transitive(hi1, lo2, lo1);
    }
}

proof fn lemma_grow_ordered<S: Scalar>(b: Aabr<S>, p: Point2<S>)
    requires
        box_ordered(b),
    ensures
        box_ordered(box_with_point(b, p)),
{
    lemma_axis_grow(b.min.x, b.max.x, p.x);
    lemma_axis_grow(b.min.y, b.max.y, p.y);
}

proof fn lemma_extrema_ordered<S: Scalar>(b: Aabr<S>, seg: EdgeSegment<S>, ts: Seq<S>)
    requires
        box_ordered(b),
    ensures
        box_ordered(box_with_extrema(b, seg, ts)),
    decreases ts.len(),
{
    if ts.len() > 0 {
        lemma_extrema_ordered(b, seg, ts.drop_last());
        lemma_grow_ordered(box_with_extrema(b, seg, ts.drop_last()), segment_at(seg, ts.last()));
    }
}

/// A segment's box has its minimum at or below its maximum.
pub proof fn lemma_segment_box_ordered<S: Scalar>(seg: EdgeSegment<S>)
    ensures
        box_ordered(segment_box(seg)),
{
    let start = segment_start(seg);
    lemma_le_reflexive(start.x);
    lemma_le_reflexive(start.y);
    lemma_grow_ordered(point_box(start), segment_end(seg));
    let ends = box_with_point(point_box(start), segment_end(seg));
    match seg {
        EdgeSegment::Linear { .. } => {},
        EdgeSegment::Quadratic { start, ctrl, end } => {
            lemma_extrema_ordered(ends, seg, quadratic_extrema(start, ctrl, end));
        },
        EdgeSegment::Cubic { start, ctrl0, ctrl1, end } => {
            lemma_extrema_ordered(ends, seg, cubic_extrema(start, ctrl0, ctrl1, end));
        },
    }
}

/// The union of correctly cached edge boxes has its minimum at or below its
/// maximum.
pub proof fn lemma_edges_box_ordered<S: Scalar>(edges: Seq<Edge<S>>)
    requires
        edges.len() > 0,
        boxes_cached(edges),
    ensures
        box_ordered(edges_box(edges)),
    decreases edges.len(),
{
    let last = edges.len() - 1;
    assert(edges[last].aabr == segment_box(edges[last].segment));
    lemma_segment_box_ordered(edges[last].segment);
    if edges.len() > 1 {
        let rest = edges.drop_last();
        assert forall|i: int| 0 <= i < rest.len() implies #[trigger] rest[i].aabr == segment_box(
            rest[i].segment,
        ) by {
            assert(rest[i] == edges[i]);
        }
        lemma_edges_box_ordered(rest);
        let a = edges_box(rest);
        let b = edges.last().aabr;
        lemma_axis_union(a.min.x, a.max.x, b.min.x, b.max.x);
        lemma_axis_union(a.min.y, a.max.y, b.min.y, b.max.y);
    }
}

/// Every edge's box lies within the union of the boxes of a non-empty edge list.
pub proof fn lemma_edges_box_holds_each<S: Scalar>(edges: Seq<Edge<S>>, i: int)
    requires
        0 <= i < edges.len(),
    ensures
        box_within(edges[i].aabr, edges_box(edges)),
    decreases edges.len(),
{
    if edges.len() <= 1 {
        lemma_box_within_self(edges[i].aabr);
    } else {
        let prev = edges_box(edges.drop_last());
        let last = edges.last().aabr;
        if i == edges.len() - 1 {
            lemma_min_below_right(prev.min.x, last.min.x);
            lemma_min_below_right(prev.min.y, last.min.y);
            lemma_max_above_right(prev.max.x, last.max.x);
            lemma_max_above_right(prev.max.y, last.max.y);
        } else {
            lemma_edges_box_holds_each(edges.drop_last(), i);
            let e = edges[i].aabr;
            assert(edges.drop_last()[i] == edges[i]);
            lemma_min_below(prev.min.x, last.min.x, e.min.x);
            lemma_min_below(prev.min.y, last.min.y, e.min.y);
            lemma_max_above(prev.max.x, last.max.x, e.max.x);
            lemma_max_above(prev.max.y, last.max.y, e.max.y);
        }
    }
}

/// A shape's box is the union of its edges' boxes, and so holds each of them.
pub proof fn lemma_shape_box_holds_edges<S: Scalar>(shape: Shape<S>, i: int)
    requires
        shape.box_view() == edges_box(shape.edges_view()),
        0 <= i < shape.edges_view().len(),
    ensures
        box_within(shape.edges_view()[i].aabr, shape.box_view()),
{
    lemma_edges_box_holds_each(shape.edges_view(), i);
}

/// The index of the first edge of the contour that holds edge `j`.
pub open spec fn contour_head<S>(edges: Seq<Edge<S>>, j: int) -> int
    decreases j,
{
    if j <= 0 || edges[j].is_new_contour {
        j
    } else {
        contour_head(edges, j - 1)
    }
}

/// Edge `j` is the last of its contour.
pub open spec fn ends_contour<S>(edges: Seq<Edge<S>>, j: int) -> bool {
    j + 1 >= edges.len() || edges[j + 1].is_new_contour
}

/// Edge `j` ends where the first edge of its contour starts.
pub open spec fn closes_contour<S: Scalar>(edges: Seq<Edge<S>>, j: int) -> bool {
    let a = segment_end(edges[j].segment);
    let b = segment_start(edges[contour_head(edges, j)].segment);
    a == b || point_eq(a, b)
}

/// Each edge that continues a contour starts where the edge before it ends.
pub open spec fn chained<S>(edges: Seq<Edge<S>>) -> bool {
    forall|i: int|
        0 < i < edges.len() && !#[trigger] edges[i].is_new_contour ==> segment_start(
            edges[i].segment,
        ) == segment_end(edges[i - 1].segment)
}

/// Every contour that ends among the first `n` edges is closed.
pub open spec fn contours_closed<S: Scalar>(edges: Seq<Edge<S>>, n: int) -> bool {
    forall|j: int| 0 <= j < n && #[trigger] ends_contour(edges, j) ==> closes_contour(edges, j)
}

/// The edges form closed contours: the first edge opens one, each later edge
/// either opens one or continues from the edge before, and each contour ends
/// where it started.
pub open spec fn closed_contours<S: Scalar>(edges: Seq<Edge<S>>) -> bool {
    &&& edges.len() > 0 ==> edges[0].is_new_contour
    &&& chained(edges)
    &&& contours_closed(edges, edges.len() as int)
}

proof fn lemma_head_push<S>(edges: Seq<Edge<S>>, e: Edge<S>, j: int)
    requires
        0 <= j < edges.len(),
    ensures
        contour_head(edges.push(e), j) == contour_head(edges, j),
        0 <= contour_head(edges, j) <= j,
    decreases j,
{
    assert(edges.push(e)[j] == edges[j]);
    if j > 0 && !edges[j].is_new_contour {
        lemma_head_push(edges, e, j - 1);
    }
}

/// An immutable outline: its edges in drawing order, every contour closed,
/// and the union of their boxes.
pub struct Shape<S: Scalar> {
    edges: Vec<Edge<S>>,
    aabr: Aabr<S>,
}

impl<S: Scalar> Shape<S> {
    #[verifier::type_invariant]
    closed spec fn wf(self) -> bool {
        &&& self.edges@.len() > 0
        &&& boxes_cached(self.edges@)
        &&& self.aabr == edges_box(self.edges@)
        &&& closed_contours(self.edges@)
    }

    /// The edges, in drawing order.
    pub closed spec fn edges_view(self) -> Seq<Edge<S>> {
        self.edges@
    }

    /// The bounding box of the whole shape.
    pub closed spec fn box_view(self) -> Aabr<S> {
        self.aabr
    }

    /// A builder with no contour started.
    pub fn builder() -> (r: ShapeBuilder<S>)
        ensures
            r.edges_view() == Seq::<Edge<S>>::empty(),
            r.start_view() == None::<Point2<S>>,
            r.pen() == None::<Point2<S>>,
            !r.is_open(),
            r.wf(),
    {
        ShapeBuilder::new()
    }

    /// The bounding box: the union of the edges' boxes.
    pub fn aabr(&self) -> (r: Aabr<S>)
        ensures
            r == self.box_view(),
            r == edges_box(self.edges_view()),
            box_ordered(r),
            self.edges_view().len() > 0,
            boxes_cached(self.edges_view()),
    {
        proof {
            use_type_invariant(self);
            lemma_edges_box_ordered(self.edges@);
        }
        self.aabr
    }

    /// The edges, in drawing order.
    pub fn edges(&self) -> (r: &Vec<Edge<S>>)
        ensures
            r@ == self.edges_view(),
            closed_contours(r@),
    {
        proof {
            use_type_invariant(self);
        }
        &self.edges
    }

    /// The x coordinates, unsorted, where the horizontal line at `y` crosses
    /// the outline; none when `y` is outside the shape's box.
    pub fn scanline_intersections(&self, y: S) -> (r: Vec<S>)
        ensures
            r@ == shape_crossings(*self, y),
    {
        let mut out: Vec<S> = Vec::new();
        if y.lt(&self.aabr.min.y) || self.aabr.max.y.lt(&y) {
            return out;
        }
        let mut i: usize = 0;
        while i < self.edges.len()
            invariant
                i <= self.edges@.len(),
                out@ == edges_crossings(self.edges@.subrange(0, i as int), y),
            decreases self.edges@.len() - i,
        {
            let e = &self.edges[i];
            proof {
                assert(self.edges@.subrange(0, i as int + 1).drop_last() =~= self.edges@.subrange(
                    0,
                    i as int,
                ));
            }
            if !y.lt(&e.aabr.min.y) && !e.aabr.max.y.lt(&y) {
                let mut more = e.segment.scanline_intersections(y);
                out.append(&mut more);
            }
            i = i + 1;
        }
        assert(self.edges@.subrange(0, self.edges@.len() as int) =~= self.edges@);
        out
    }

    /// The nearest point of the outline to `p` within `max_distance`, with its
    /// distance; `None` when no edge comes that close. Edges whose box is
    /// farther than `max_distance` along an axis are skipped. `epsilon`, above
    /// machine epsilon, bounds the curve searches.
    pub fn closest_point(&self, p: Point2<S>, max_distance: S, epsilon: S) -> (r: Option<
        (S, Point2<S>),
    >)
        requires
            lt(S::spec_epsilon(), epsilon),
        ensures
            r == shape_nearest(*self, p, max_distance, epsilon),
    {
        if !aabr_potentially_contains_circle(self.aabr, p, max_distance) {
            return None;
        }
        let mut best: Option<(S, Point2<S>)> = None;
        let mut i: usize = 0;
        while i < self.edges.len()
            invariant
                i <= self.edges@.len(),
                best == edges_nearest(self.edges@.subrange(0, i as int), p, max_distance, epsilon),
                lt(S::spec_epsilon(), epsilon),
            decreases self.edges@.len() - i,
        {
            let e = &self.edges[i];
            proof {
                assert(self.edges@.subrange(0, i as int + 1).drop_last() =~= self.edges@.subrange(
                    0,
                    i as int,
                ));
            }
            if aabr_potentially_contains_circle(e.aabr, p, max_distance) {
                let (d, q) = e.segment.closest_point(p, epsilon);
                if !max_distance.lt(&d) {
                    match best {
                        None => {
                            best = Some((d, q));
                        },
                        Some(b) => {
                            if d.lt(&b.0) {
                                best = Some((d, q));
                            }
                        },
                    }
                }
            }
            i = i + 1;
        }
        assert(self.edges@.subrange(0, self.edges@.len() as int) =~= self.edges@);
        best
    }
}

/// Accumulates outline commands into edges, closing each contour.
pub struct ShapeBuilder<S: Scalar> {
    edges: Vec<Edge<S>>,
    contour_start: Option<Point2<S>>,
    contour_previous: Option<Point2<S>>,
}

impl<S: Scalar> ShapeBuilder<S> {
    /// Every edge's box is cached correctly and the edges chain into
    /// contours. While a contour is open the pen is the end of the last edge
    /// and the contour start is the start of the open contour's first edge;
    /// every contour before it is closed, and all are once none is open.
    #[verifier::opaque]
    pub closed spec fn wf(self) -> bool {
        let edges = self.edges@;
        &&& boxes_cached(edges)
        &&& edges.len() > 0 ==> edges[0].is_new_contour
        &&& chained(edges)
        &&& match self.contour_previous {
            Some(prev) => {
                &&& edges.len() > 0
                &&& prev == segment_end(edges.last().segment)
                &&& self.contour_start == Some(
                    segment_start(edges[contour_head(edges, edges.len() - 1)].segment),
                )
                &&& contours_closed(edges, edges.len() - 1)
            },
            None => contours_closed(edges, edges.len() as int),
        }
    }

    /// The edges appended so far.
    pub closed spec fn edges_view(self) -> Seq<Edge<S>> {
        self.edges@
    }

    /// The first point of the current contour, once a contour was started.
    pub closed spec fn start_view(self) -> Option<Point2<S>> {
        self.contour_start
    }

    /// An edge was appended since the contour was started, so closing it may
    /// add a line back to its start.
    pub closed spec fn is_open(self) -> bool {
        self.contour_previous.is_some()
    }

    /// The pen position: where the next edge starts.
    pub closed spec fn pen(self) -> Option<Point2<S>> {
        match self.contour_previous {
            Some(p) => Some(p),
            None => self.contour_start,
        }
    }

    /// The edges once the open contour, if any, is closed by a line from the
    /// pen back to its start (none when the two coincide).
    pub open spec fn closed_edges(self) -> Seq<Edge<S>> {
        if self.is_open() && self.pen().is_some() && self.start_view().is_some() {
            let prev = self.pen().unwrap();
            let start = self.start_view().unwrap();
            if point_eq(prev, start) {
                self.edges_view()
            } else {
                self.edges_view().push(
                    make_edge(EdgeSegment::Linear { start: prev, end: start }, false),
                )
            }
        } else {
            self.edges_view()
        }
    }

    pub fn new() -> (r: ShapeBuilder<S>)
        ensures
            r.edges_view() == Seq::<Edge<S>>::empty(),
            r.start_view() == None::<Point2<S>>,
            r.pen() == None::<Point2<S>>,
            !r.is_open(),
            r.wf(),
    {
        let r = ShapeBuilder { edges: Vec::new(), contour_start: None, contour_previous: None };
        proof {
            reveal(ShapeBuilder::wf);
        }
        r
    }

    /// A pen position exists: a contour was started.
    pub fn has_pen(&self) -> (r: bool)
        ensures
            r == self.pen().is_some(),
    {
        self.contour_previous.is_some() || self.contour_start.is_some()
    }

    fn push_edge(&mut self, segment: EdgeSegment<S>)
        requires
            old(self).wf(),
            old(self).pen() == Some(segment_start(segment)),
        ensures
            final(self).wf(),
            final(self).edges_view() == old(self).edges_view().push(
                make_edge(segment, !old(self).is_open()),
            ),
            final(self).start_view() == old(self).start_view(),
            final(self).contour_previous == Some(segment_end(segment)),
    {
        proof {
            reveal(ShapeBuilder::wf);
        }
        let aabr = segment.aabr();
        let is_new_contour = self.contour_previous.is_none();
        let end = segment.end();
        self.edges.push(Edge { segment, color: EdgeColor::WHITE, aabr, is_new_contour });
        self.contour_previous = Some(end);
        proof {
            let olds = old(self).edges@;
            let news = self.edges@;
            let n = olds.len() as int;
            let e = news[n];
            assert(news == olds.push(e));
            assert(forall|i: int| 0 <= i < n ==> news[i] == olds[i]);
            assert(boxes_cached(news)) by {
                assert forall|i: int| 0 <= i < news.len() implies #[trigger] news[i].aabr
                    == segment_box(news[i].segment) by {
                    if i < n {
                        assert(olds[i].aabr == segment_box(olds[i].segment));
                    }
                }
            }
            assert(chained(news)) by {
                assert forall|i: int|
                    0 < i < news.len() && !#[trigger] news[i].is_new_contour implies segment_start(
                    news[i].segment,
                ) == segment_end(news[i - 1].segment) by {
                    if i < n {
                        assert(olds[i] == news[i]);
                        assert(olds[i - 1] == news[i - 1]);
                    }
                }
            }
            if is_new_contour {
                assert(contour_head(news, n) == n);
            } else {
                lemma_head_push(olds, e, n - 1);
                assert(contour_head(news, n) == contour_head(news, n - 1));
                let h = contour_head(olds, n - 1);
                assert(news[h] == olds[h]);
            }
            assert(contours_closed(news, n)) by {
                assert forall|j: int| 0 <= j < n && #[trigger] ends_contour(news, j) implies closes_contour(
                    news,
                    j,
                ) by {
                    lemma_head_push(olds, e, j);
                    let h = contour_head(olds, j);
                    assert(news[h] == olds[h]);
                    assert(news[j] == olds[j]);
                    if j < n - 1 {
                        assert(news[j + 1] == olds[j + 1]);
                        assert(ends_contour(olds, j));
                    } else {
                        assert(ends_contour(olds, j));
                    }
                }
            }
        }
    }

    /// Closes the open contour: appends a line from the pen back to the
    /// contour's start unless they coincide. The pen returns to the start.
    pub fn close(&mut self)
        requires
            old(self).wf(),
        ensures
            final(self).wf(),
            final(self).edges_view() == old(self).closed_edges(),
            final(self).start_view() == old(self).start_view(),
            !final(self).is_open(),
            final(self).pen() == old(self).start_view(),
    {
        proof {
            reveal(ShapeBuilder::wf);
        }
        if let Some(prev) = self.contour_previous {
            let start = self.contour_start.unwrap();
            if !(prev.x.eq(&start.x) && prev.y.eq(&start.y)) {
                self.push_edge(EdgeSegment::Linear { start: prev, end: start });
            }
            proof {
                let edges = self.edges@;
                let n = edges.len() as int;
                assert(closes_contour(edges, n - 1));
                assert forall|j: int| 0 <= j < n && #[trigger] ends_contour(edges, j) implies closes_contour(
                    edges,
                    j,
                ) by {
                    if j < n - 1 {
                        assert(ends_contour(edges, j));
                    }
                }
            }
            self.contour_previous = None;
        }
    }

    /// Starts a new contour at `(x, y)`, closing the open one first.
    pub fn move_to(&mut self, x: S, y: S)
        requires
            old(self).wf(),
        ensures
            final(self).wf(),
            final(self).edges_view() == old(self).closed_edges(),
            final(self).start_view() == Some(Point2 { x, y }),
            final(self).pen() == Some(Point2 { x, y }),
            !final(self).is_open(),
    {
        self.close();
        self.contour_start = Some(Point2 { x, y });
        proof {
            reveal(ShapeBuilder::wf);
        }
    }

    fn next_start(&self) -> (r: Point2<S>)
        requires
            self.pen().is_some(),
        ensures
            Some(r) == self.pen(),
    {
        match self.contour_previous {
            Some(p) => p,
            None => self.contour_start.unwrap(),
        }
    }

    /// A line from the pen to `(x, y)`; a line of no length is dropped.
    pub fn line_to(&mut self, x: S, y: S)
        requires
            old(self).wf(),
            old(self).pen().is_some(),
        ensures
            final(self).wf(),
            ({
                let s = old(self).pen().unwrap();
                let p = Point2 { x, y };
                if point_eq(s, p) {
                    final(self).edges_view() == old(self).edges_view()
                        && final(self).pen() == old(self).pen()
                        && final(self).is_open() == old(self).is_open()
                } else {
                    final(self).edges_view() == old(self).edges_view().push(
                        make_edge(EdgeSegment::Linear { start: s, end: p }, !old(self).is_open()),
                    ) && final(self).pen() == Some(p) && final(self).is_open()
                }
            }),
            final(self).start_view() == old(self).start_view(),
    {
        let start = self.next_start();
        if !(start.x.eq(&x) && start.y.eq(&y)) {
            self.push_edge(EdgeSegment::Linear { start, end: Point2 { x, y } });
        }
    }

    /// A quadratic curve from the pen through control `(cx, cy)` to `(x, y)`.
    pub fn quadratic_to(&mut self, cx: S, cy: S, x: S, y: S)
        requires
            old(self).wf(),
            old(self).pen().is_some(),
        ensures
            final(self).wf(),
            final(self).edges_view() == old(self).edges_view().push(
                make_edge(
                    EdgeSegment::Quadratic {
                        start: old(self).pen().unwrap(),
                        ctrl: Point2 { x: cx, y: cy },
                        end: Point2 { x, y },
                    },
                    !old(self).is_open(),
                ),
            ),
            final(self).pen() == Some(Point2 { x, y }),
            final(self).is_open(),
            final(self).start_view() == old(self).start_view(),
    {
        let start = self.next_start();
        self.push_edge(
            EdgeSegment::Quadratic { start, ctrl: Point2 { x: cx, y: cy }, end: Point2 { x, y } },
        );
    }

    /// A cubic curve from the pen through controls `(cx0, cy0)` and
    /// `(cx1, cy1)` to `(x, y)`.
    pub fn cubic_to(&mut self, cx0: S, cy0: S, cx1: S, cy1: S, x: S, y: S)
        requires
            old(self).wf(),
            old(self).pen().is_some(),
        ensures
            final(self).wf(),
            final(self).edges_view() == old(self).edges_view().push(
                make_edge(
                    EdgeSegment::Cubic {
                        start: old(self).pen().unwrap(),
                        ctrl0: Point2 { x: cx0, y: cy0 },
                        ctrl1: Point2 { x: cx1, y: cy1 },
                        end: Point2 { x, y },
                    },
                    !old(self).is_open(),
                ),
            ),
            final(self).pen() == Some(Point2 { x, y }),
            final(self).is_open(),
            final(self).start_view() == old(self).start_view(),
    {
        let start = self.next_start();
        self.push_edge(
            EdgeSegment::Cubic {
                start,
                ctrl0: Point2 { x: cx0, y: cy0 },
                ctrl1: Point2 { x: cx1, y: cy1 },
                end: Point2 { x, y },
            },
        );
    }

    /// Closes the open contour and hands the edges to a `Shape` with the union
    /// of their boxes; `None` when no edge was ever added.
    pub fn finish(self) -> (r: Option<Shape<S>>)
        requires
            self.wf(),
        ensures
            self.closed_edges().len() == 0 ==> r.is_none(),
            self.closed_edges().len() > 0 ==> r.is_some() && r.unwrap().edges_view()
                == self.closed_edges() && r.unwrap().box_view() == edges_box(
                self.closed_edges(),
            ),
            closed_contours(self.closed_edges()),
    {
        let mut b = self;
        b.close();
        proof {
            reveal(ShapeBuilder::wf);
        }
        let edges = b.edges;
        if edges.len() == 0 {
            return None;
        }
        let mut aabr = edges[0].aabr;
        let mut i: usize = 1;
        while i < edges.len()
            invariant
                1 <= i <= edges@.len(),
                aabr == edges_box(edges@.subrange(0, i as int)),
            decreases edges@.len() - i,
        {
            proof {
                assert(edges@.subrange(0, i as int + 1).drop_last() =~= edges@.subrange(0, i as int));
            }
            aabr = union(aabr, edges[i].aabr);
            i = i + 1;
        }
        assert(edges@.subrange(0, edges@.len() as int) =~= edges@);
        Some(Shape { edges, aabr })
    }
}

} // verus!
