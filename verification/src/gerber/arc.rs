//! The bounding box of an arc.
use crate::gerber_types::{CoordinateOffset, InterpolationMode, Unit};
use crate::scalar::Scalar;
use crate::unit_able;
use crate::unit_able::UnitAble;
use crate::Pos;
use vstd::prelude::*;

verus! {

/// An angle brought between minus and plus half a turn.
pub open spec fn normal_angle<N: Scalar>(a: N) -> N {
    let turn = N::ratio_spec(2, 1).times_spec(N::half_turn_spec());
    let r = a.remainder_spec(turn);
    if N::half_turn_spec().less_spec(r) {
        r.minus_spec(turn)
    } else {
        r
    }
}

fn normalize<N: Scalar>(a: N) -> (r: N)
    ensures
        r == normal_angle(a),
{
    let turn = N::ratio(2, 1).times(N::half_turn());
    let a = a.remainder(turn);
    if N::half_turn().less(a) {
        a.minus(turn)
    } else {
        a
    }
}

/// `angle` is swept on the way from `start` to `end`. A way that ends where it starts is a full
/// circle; a clockwise one is the counter-clockwise one from `end` to `start`; a straight one
/// sweeps nothing.
pub open spec fn swept<N: Scalar>(start: N, end: N, angle: N, mode: InterpolationMode) -> bool {
    let (first, last) = match mode {
        InterpolationMode::ClockwiseCircular => (normal_angle(end), normal_angle(start)),
        _ => (normal_angle(start), normal_angle(end)),
    };
    let a = normal_angle(angle);
    mode != InterpolationMode::Linear && (first.close_spec(last) || if !last.less_spec(first) {
        !a.less_spec(first) && !last.less_spec(a)
    } else {
        !a.less_spec(first) || !last.less_spec(a)
    })
}

/// Returns true if `angle` is swept when travelling from `start` to
/// `end` in the given circular interpolation direction.
pub fn angle_in_arc<N: Scalar>(start: N, end: N, angle: N, mode: InterpolationMode) -> (r: bool)
    ensures
        r == swept(start, end, angle, mode),
{
    // For CW, sweeping clockwise from start→end is the same as CCW from end→start.
    let (arc_start, arc_end) = match mode {
        InterpolationMode::CounterclockwiseCircular => (normalize(start), normalize(end)),
        InterpolationMode::ClockwiseCircular => (normalize(end), normalize(start)),
        InterpolationMode::Linear => {
            return false;
        },
    };
    let angle = normalize(angle);
    // Equal start/end means a full circle.
    if arc_start.close(arc_end) {
        return true;
    }
    if !arc_end.less(arc_start) {
        !angle.less(arc_start) && !arc_end.less(angle)
    } else {
        // Arc crosses the discontinuity at half a turn.
        !angle.less(arc_start) || !arc_end.less(angle)
    }
}

/// A box that also holds `p`.
pub open spec fn with_point<N: Scalar>(b: (Pos<N>, Pos<N>), p: Pos<N>) -> (Pos<N>, Pos<N>) {
    (
        Pos { x: b.0.x.lower_spec(p.x), y: b.0.y.lower_spec(p.y) },
        Pos { x: b.1.x.higher_spec(p.x), y: b.1.y.higher_spec(p.y) },
    )
}

/// The box around two points.
pub open spec fn span<N: Scalar>(a: Pos<N>, b: Pos<N>) -> (Pos<N>, Pos<N>) {
    (
        Pos { x: a.x.lower_spec(b.x), y: a.y.lower_spec(b.y) },
        Pos { x: a.x.higher_spec(b.x), y: a.y.higher_spec(b.y) },
    )
}

/// One axis of an offset in millimetres, zero where it is left out.
pub open spec fn offset_axis<N: Scalar>(
    v: Option<crate::gerber_types::CoordinateNumber>,
    unit: Unit,
) -> N {
    match v {
        Some(v) => N::from_nano_spec(
            <crate::gerber_types::CoordinateNumber as UnitAble<N>>::to_mm_spec(v, unit).nano,
        ),
        None => N::zero_spec(),
    }
}

pub open spec fn offset_fits<N: Scalar>(o: CoordinateOffset, unit: Unit) -> bool {
    unit_able::axis_fits::<N>(o.x, unit_able::Direction::IntoMillimeters, unit)
        && unit_able::axis_fits::<N>(o.y, unit_able::Direction::IntoMillimeters, unit)
}

/// `b`, with `p` in it where `angle` is swept.
pub open spec fn with_extreme<N: Scalar>(
    b: (Pos<N>, Pos<N>),
    sweep: (N, N),
    mode: InterpolationMode,
    angle: N,
    p: Pos<N>,
) -> (Pos<N>, Pos<N>) {
    if swept(sweep.0, sweep.1, angle, mode) {
        with_point(b, p)
    } else {
        b
    }
}

/// The box around a circular arc: its ends, and those of the rightmost, the topmost, the leftmost
/// and the lowest point of the circle that it sweeps over.
#[verifier::opaque]
pub open spec fn arc_box<N: Scalar>(
    start: Pos<N>,
    end: Pos<N>,
    offset: CoordinateOffset,
    unit: Unit,
    mode: InterpolationMode,
) -> (Pos<N>, Pos<N>) {
    let i = offset_axis::<N>(offset.x, unit);
    let j = offset_axis::<N>(offset.y, unit);
    let cx = start.x.plus_spec(i);
    let cy = start.y.plus_spec(j);
    let radius = N::norm_spec(i, j);
    let sweep = (
        N::angle_spec(start.y.minus_spec(cy), start.x.minus_spec(cx)),
        N::angle_spec(end.y.minus_spec(cy), end.x.minus_spec(cx)),
    );
    let b0 = span(start, end);
    let b1 = with_extreme(
        b0,
        sweep,
        mode,
        N::zero_spec(),
        Pos { x: cx.plus_spec(radius), y: cy },
    );
    let b2 = with_extreme(
        b1,
        sweep,
        mode,
        N::quarter_turn_spec(),
        Pos { x: cx, y: cy.plus_spec(radius) },
    );
    let b3 = with_extreme(
        b2,
        sweep,
        mode,
        N::half_turn_spec(),
        Pos { x: cx.minus_spec(radius), y: cy },
    );
    with_extreme(
        b3,
        sweep,
        mode,
        N::quarter_turn_spec().negated_spec(),
        Pos { x: cx, y: cy.minus_spec(radius) },
    )
}

fn axis_length<N: Scalar>(v: Option<crate::gerber_types::CoordinateNumber>, unit: &Unit) -> (r: N)
    requires
        unit_able::axis_fits::<N>(v, unit_able::Direction::IntoMillimeters, *unit),
    ensures
        r == offset_axis::<N>(v, *unit),
{
    match v {
        Some(v) => {
            let mm = <crate::gerber_types::CoordinateNumber as UnitAble<N>>::to_mm(&v, unit);
            N::from_nano(mm.nano)
        },
        None => N::zero(),
    }
}

fn add_extreme<N: Scalar>(
    b: (Pos<N>, Pos<N>),
    sweep: (N, N),
    mode: InterpolationMode,
    angle: N,
    p: Pos<N>,
) -> (r: (Pos<N>, Pos<N>))
    ensures
        r == with_extreme(b, sweep, mode, angle, p),
{
    if angle_in_arc(sweep.0, sweep.1, angle, mode) {
        (
            Pos { x: b.0.x.lower(p.x), y: b.0.y.lower(p.y) },
            Pos { x: b.1.x.higher(p.x), y: b.1.y.higher(p.y) },
        )
    } else {
        b
    }
}

/// Returns the bounding box of a circular arc.
///
/// `offset` is the I/J vector from `start` to the arc center.
/// Cardinal axis-extremes of the circle (0°, 90°, 180°, 270°) are included
/// when they fall within the arc's sweep.
///
/// Multi-quadrant (G75) arcs, where I/J are signed offsets, are handled correctly.
/// Single-quadrant (G74) arcs are not fully handled: in G74 mode I/J are unsigned
/// magnitudes and the actual direction to the center is determined implicitly from
/// which of the four possible centers lies on the perpendicular bisector of the
/// chord. Since the raw positive values are taken, the center is only correct when
/// it lies in the +X/+Y direction from start. In practice nearly all modern Gerber
/// files use G75.
pub fn arc_corners<N: Scalar>(
    start: &Pos<N>,
    end: &Pos<N>,
    offset: &CoordinateOffset,
    unit: &Unit,
    mode: InterpolationMode,
) -> (r: (Pos<N>, Pos<N>))
    requires
        offset_fits::<N>(*offset, *unit),
    ensures
        r == arc_box(*start, *end, *offset, *unit, mode),
{
    reveal(arc_box);
    let i = axis_length::<N>(offset.x, unit);
    let j = axis_length::<N>(offset.y, unit);
    let cx = start.x.plus(i);
    let cy = start.y.plus(j);
    let radius = N::norm(i, j);
    let sweep = (
        N::angle(start.y.minus(cy), start.x.minus(cx)),
        N::angle(end.y.minus(cy), end.x.minus(cx)),
    );
    let b = (
        Pos { x: start.x.lower(end.x), y: start.y.lower(end.y) },
        Pos { x: start.x.higher(end.x), y: start.y.higher(end.y) },
    );
    let b = add_extreme(b, sweep, mode, N::zero(), Pos { x: cx.plus(radius), y: cy });
    let b = add_extreme(b, sweep, mode, N::quarter_turn(), Pos { x: cx, y: cy.plus(radius) });
    let b = add_extreme(b, sweep, mode, N::half_turn(), Pos { x: cx.minus(radius), y: cy });
    add_extreme(
        b,
        sweep,
        mode,
        N::quarter_turn().negated(),
        Pos { x: cx, y: cy.minus(radius) },
    )
}

} // verus!
