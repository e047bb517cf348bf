//! What a bounding box holds.
use crate::excellon_format;
use crate::excellon_format::corners::Plot;
use crate::excellon_format::{EntryView, ExcellonView};
use crate::fixed;
use crate::fixed::Fixed;
use crate::gerber;
use crate::gerber::corners::Pen;
use crate::gerber::GerberView;
use crate::gerber_types::{
    ApertureView, Command, CommandView, Coordinates, DCode, FunctionCode, InterpolationMode,
    Operation, Unit,
};
use crate::laws::moves;
use crate::scalar::Scalar;
use crate::Pos;
use vstd::prelude::*;

verus! {

/// The box `b` reaches no further than the box `c`.
pub open spec fn within(b: (Pos<Fixed>, Pos<Fixed>), c: (Pos<Fixed>, Pos<Fixed>)) -> bool {
    &&& c.0.x.raw <= b.0.x.raw && c.0.y.raw <= b.0.y.raw
    &&& b.1.x.raw <= c.1.x.raw && b.1.y.raw <= c.1.y.raw
}

/// The square of half width `radius` around `p`.
pub open spec fn square(p: Pos<Fixed>, radius: Fixed) -> (Pos<Fixed>, Pos<Fixed>) {
    (
        Pos { x: p.x.minus_spec(radius), y: p.y.minus_spec(radius) },
        Pos { x: p.x.plus_spec(radius), y: p.y.plus_spec(radius) },
    )
}

/// The squares that an entry drills, from where the program stands.
pub open spec fn drilled(p: Plot<Fixed>, e: EntryView<Fixed>) -> Seq<(Pos<Fixed>, Pos<Fixed>)> {
    match e {
        Ok(excellon_format::Command::Coordinate(x, y, fmt)) => seq![
            square(p.target(x, y, fmt.unit), p.radius),
        ],
        Ok(excellon_format::Command::Slot { from_x, from_y, to_x, to_y, fmt }) => seq![
            square(
                Pos {
                    x: excellon_format::corners::in_mm(from_x, fmt.unit, p.current.x),
                    y: excellon_format::corners::in_mm(from_y, fmt.unit, p.current.y),
                },
                p.radius,
            ),
            square(
                Pos {
                    x: excellon_format::corners::in_mm(to_x, fmt.unit, p.current.x),
                    y: excellon_format::corners::in_mm(to_y, fmt.unit, p.current.y),
                },
                p.radius,
            ),
        ],
        _ => Seq::empty(),
    }
}

/// Where a drill layer stands in front of entry `i`.
pub open spec fn plot_before(v: ExcellonView<Fixed>, i: int) -> Plot<Fixed> {
    excellon_format::corners::plotted(
        excellon_format::corners::plot_start(v.header),
        v.commands.take(i),
        v.tools,
        v.unit.unit,
    )
}

pub proof fn lemma_plot_step(v: ExcellonView<Fixed>, i: int)
    requires
        0 <= i < v.commands.len(),
    ensures
        plot_before(v, i + 1) == plot_before(v, i).after(v.commands[i], v.tools, v.unit.unit),
{
    let s = v.commands.take(i + 1);
    assert(s.drop_last() =~= v.commands.take(i));
    assert(s.last() == v.commands[i]);
}

proof fn lemma_entry_widens(
    p: Plot<Fixed>,
    e: EntryView<Fixed>,
    tools: Seq<(u32, Fixed)>,
    unit: Unit,
    k: int,
)
    ensures
        within(p.corners, p.after(e, tools, unit).corners),
        0 <= k < drilled(p, e).len() ==> within(drilled(p, e)[k], p.after(e, tools, unit).corners),
{
}

proof fn lemma_plots_widen(v: ExcellonView<Fixed>, i: int, n: int)
    requires
        0 <= i <= n <= v.commands.len(),
    ensures
        within(plot_before(v, i).corners, plot_before(v, n).corners),
    decreases n - i,
{
    if i < n {
        lemma_plots_widen(v, i, n - 1);
        lemma_plot_step(v, n - 1);
        lemma_entry_widens(plot_before(v, n - 1), v.commands[n - 1], v.tools, v.unit.unit, 0);
    }
}

/// The bounding box of a drill layer holds every hit and both ends of every slot, with the width of
/// the tool.
pub proof fn law_drill_box_holds_hits(v: ExcellonView<Fixed>, i: int, k: int)
    requires
        0 <= i < v.commands.len(),
        0 <= k < drilled(plot_before(v, i), v.commands[i]).len(),
    ensures
        within(
            drilled(plot_before(v, i), v.commands[i])[k],
            excellon_format::corners::layer_corners(v),
        ),
{
    lemma_entry_widens(plot_before(v, i), v.commands[i], v.tools, v.unit.unit, k);
    lemma_plot_step(v, i);
    lemma_plots_widen(v, i + 1, v.commands.len() as int);
    assert(v.commands.take(v.commands.len() as int) =~= v.commands);
}

/// The box of a tool, or none.
pub open spec fn tool_of(tool: Option<(Pos<Fixed>, Pos<Fixed>)>) -> (Pos<Fixed>, Pos<Fixed>) {
    match tool {
        Some(t) => t,
        None => (Pos::origin(), Pos::origin()),
    }
}

/// On the axes that are given, the box holds a tool at the point.
pub open spec fn holds_point(
    b: (Pos<Fixed>, Pos<Fixed>),
    p: Coordinates,
    unit: Unit,
    tool: Option<(Pos<Fixed>, Pos<Fixed>)>,
) -> bool {
    let (low, high) = tool_of(tool);
    &&& p.x matches Some(x) ==> {
        let at = gerber::corners::in_mm::<Fixed>(x, unit);
        b.0.x.raw <= at.plus_spec(low.x).raw && at.plus_spec(high.x).raw <= b.1.x.raw
    }
    &&& p.y matches Some(y) ==> {
        let at = gerber::corners::in_mm::<Fixed>(y, unit);
        b.0.y.raw <= at.plus_spec(low.y).raw && at.plus_spec(high.y).raw <= b.1.y.raw
    }
}

/// The box holds an arc with the width of the tool.
pub open spec fn holds_arc(
    b: (Pos<Fixed>, Pos<Fixed>),
    arc: (Pos<Fixed>, Pos<Fixed>),
    tool: Option<(Pos<Fixed>, Pos<Fixed>)>,
) -> bool {
    let (low, high) = tool_of(tool);
    &&& b.0.x.raw <= arc.0.x.plus_spec(low.x).raw && b.0.y.raw <= arc.0.y.plus_spec(low.y).raw
    &&& arc.1.x.plus_spec(high.x).raw <= b.1.x.raw && arc.1.y.plus_spec(high.y).raw <= b.1.y.raw
}

/// The box holds what a command draws from where the pen stands.
pub open spec fn holds_drawing(
    b: (Pos<Fixed>, Pos<Fixed>),
    p: Pen<Fixed>,
    c: CommandView<Fixed>,
    unit: Unit,
) -> bool {
    match c {
        Command::FunctionCode(FunctionCode::DCode(DCode::Operation(op))) => match op {
            Operation::Move(Some(a)) => holds_point(b, a, unit, None),
            Operation::Flash(Some(a)) => holds_point(b, a, unit, p.tool),
            Operation::Interpolate(Some(a), o) => if p.mode != InterpolationMode::Linear
                && o is Some {
                holds_arc(
                    b,
                    gerber::arc::arc_box(
                        p.current,
                        gerber::corners::arrived(p.current, a, unit),
                        o->0,
                        unit,
                        p.mode,
                    ),
                    p.tool,
                )
            } else {
                holds_point(b, a, unit, p.tool)
            },
            _ => true,
        },
        _ => true,
    }
}

/// Where the pen stands in front of command `i`.
pub open spec fn pen_before(v: GerberView<Fixed>, i: int) -> Pen<Fixed> {
    gerber::corners::drawn(v.commands.take(i), v.apertures, v.unit)
}

pub proof fn lemma_pen_step(v: GerberView<Fixed>, i: int)
    requires
        0 <= i < v.commands.len(),
    ensures
        pen_before(v, i + 1) == pen_before(v, i).after(v.commands[i], v.apertures, v.unit),
{
    let s = v.commands.take(i + 1);
    assert(s.drop_last() =~= v.commands.take(i));
    assert(s.last() == v.commands[i]);
}

proof fn lemma_point_widens(
    b: (Pos<Fixed>, Pos<Fixed>),
    p: Coordinates,
    unit: Unit,
    tool: Option<(Pos<Fixed>, Pos<Fixed>)>,
)
    ensures
        within(b, gerber::corners::with_coordinates(b, p, unit, tool)),
        holds_point(gerber::corners::with_coordinates(b, p, unit, tool), p, unit, tool),
{
}

proof fn lemma_arc_widens(
    b: (Pos<Fixed>, Pos<Fixed>),
    arc: (Pos<Fixed>, Pos<Fixed>),
    tool: Option<(Pos<Fixed>, Pos<Fixed>)>,
)
    ensures
        within(b, gerber::corners::with_box(b, arc, tool)),
        holds_arc(gerber::corners::with_box(b, arc, tool), arc, tool),
{
}

proof fn lemma_command_widens(
    p: Pen<Fixed>,
    c: CommandView<Fixed>,
    apertures: Seq<(i32, ApertureView<Fixed>)>,
    unit: Unit,
)
    ensures
        within(p.corners, p.after(c, apertures, unit).corners),
        holds_drawing(p.after(c, apertures, unit).corners, p, c, unit),
{
    match c {
        Command::FunctionCode(FunctionCode::DCode(DCode::Operation(op))) => match op {
            Operation::Move(Some(a)) => lemma_point_widens(p.corners, a, unit, None),
            Operation::Flash(Some(a)) => lemma_point_widens(p.corners, a, unit, p.tool),
            Operation::Interpolate(Some(a), o) => {
                if p.mode != InterpolationMode::Linear && o is Some {
                    let arc = gerber::arc::arc_box(
                        p.current,
                        gerber::corners::arrived(p.current, a, unit),
                        o->0,
                        unit,
                        p.mode,
                    );
                    lemma_arc_widens(p.corners, arc, p.tool);
                } else {
                    lemma_point_widens(p.corners, a, unit, p.tool);
                }
            },
            _ => {},
        },
        _ => {},
    }
}

proof fn lemma_pens_widen(v: GerberView<Fixed>, i: int, n: int)
    requires
        0 <= i <= n <= v.commands.len(),
    ensures
        within(pen_before(v, i).corners, pen_before(v, n).corners),
    decreases n - i,
{
    if i < n {
        lemma_pens_widen(v, i, n - 1);
        lemma_pen_step(v, n - 1);
        lemma_command_widens(pen_before(v, n - 1), v.commands[n - 1], v.apertures, v.unit);
    }
}

proof fn lemma_wider_holds(
    b: (Pos<Fixed>, Pos<Fixed>),
    c: (Pos<Fixed>, Pos<Fixed>),
    p: Pen<Fixed>,
    d: CommandView<Fixed>,
    unit: Unit,
)
    requires
        within(b, c),
        holds_drawing(b, p, d, unit),
    ensures
        holds_drawing(c, p, d, unit),
{
}

/// The bounding box of a layer holds everything that the layer draws, with the width of the tool.
pub proof fn law_box_holds_drawing(v: GerberView<Fixed>, i: int)
    requires
        0 <= i < v.commands.len(),
    ensures
        holds_drawing(
            gerber::corners::layer_corners(v),
            pen_before(v, i),
            v.commands[i],
            v.unit,
        ),
{
    lemma_command_widens(pen_before(v, i), v.commands[i], v.apertures, v.unit);
    lemma_pen_step(v, i);
    lemma_pens_widen(v, i + 1, v.commands.len() as int);
    assert(v.commands.take(v.commands.len() as int) =~= v.commands);
    lemma_wider_holds(
        pen_before(v, i + 1).corners,
        gerber::corners::layer_corners(v),
        pen_before(v, i),
        v.commands[i],
        v.unit,
    );
}

/// Every number has a square root, to the whole number below it.
proof fn lemma_root(s: int) -> (r: int)
    requires
        s >= 0,
    ensures
        0 <= r && r * r <= s && s < (r + 1) * (r + 1),
    decreases s,
{
    if s == 0 {
        0
    } else {
        let r = lemma_root(s - 1);
        if (r + 1) * (r + 1) <= s {
            assert((r + 1) * (r + 1) == s);
            assert(s < (r + 2) * (r + 2)) by (nonlinear_arith)
                requires
                    s == (r + 1) * (r + 1),
                    r >= 0,
            ;
            r + 1
        } else {
            r
        }
    }
}

/// A radius is no shorter than the parts of its offset.
proof fn lemma_radius(i: Fixed, j: Fixed)
    requires
        moves::small(Fixed::norm_spec(i, j)),
    ensures
        Fixed::norm_spec(i, j).raw >= fixed::abs(i.raw as int),
        Fixed::norm_spec(i, j).raw >= fixed::abs(j.raw as int),
{
    let x = i.raw as int;
    let y = j.raw as int;
    let s = x * x + y * y;
    assert(s >= 0) by (nonlinear_arith)
        requires
            s == x * x + y * y,
    ;
    let w = lemma_root(s);
    let r = fixed::floor_sqrt(s);
    assert(0 <= r && r * r <= s && s < (r + 1) * (r + 1));
    assert(r >= fixed::abs(x)) by (nonlinear_arith)
        requires
            s == x * x + y * y,
            s < (r + 1) * (r + 1),
            0 <= r,
    ;
    assert(r >= fixed::abs(y)) by (nonlinear_arith)
        requires
            s == x * x + y * y,
            s < (r + 1) * (r + 1),
            0 <= r,
    ;
}

/// A clockwise way sweeps what the counter-clockwise way back sweeps; a way that ends where it starts
/// sweeps every angle, if its angle is close to itself, as every finite number is; a straight one
/// sweeps none.
pub proof fn law_directions<N: Scalar>(start: N, end: N, angle: N)
    ensures
        gerber::arc::swept(start, end, angle, InterpolationMode::ClockwiseCircular)
            == gerber::arc::swept(end, start, angle, InterpolationMode::CounterclockwiseCircular),
        gerber::arc::normal_angle(start).close_spec(gerber::arc::normal_angle(start)) ==> {
            &&& gerber::arc::swept(start, start, angle, InterpolationMode::ClockwiseCircular)
            &&& gerber::arc::swept(start, start, angle, InterpolationMode::CounterclockwiseCircular)
        },
        !gerber::arc::swept(start, end, angle, InterpolationMode::Linear),
{
}

/// An arc that ends where it starts is a full circle: its box is the square around the center.
pub proof fn law_full_circle(
    start: Pos<Fixed>,
    offset: crate::gerber_types::CoordinateOffset,
    mode: InterpolationMode,
)
    requires
        mode != InterpolationMode::Linear,
        moves::small(start.x) && moves::small(start.y),
        ({
            let i = gerber::arc::offset_axis::<Fixed>(offset.x, Unit::Millimeters);
            let j = gerber::arc::offset_axis::<Fixed>(offset.y, Unit::Millimeters);
            moves::small(i) && moves::small(j) && moves::small(Fixed::norm_spec(i, j))
        }),
    ensures
        ({
            let i = gerber::arc::offset_axis::<Fixed>(offset.x, Unit::Millimeters);
            let j = gerber::arc::offset_axis::<Fixed>(offset.y, Unit::Millimeters);
            gerber::arc::arc_box(start, start, offset, Unit::Millimeters, mode) == square(
                Pos { x: start.x.plus_spec(i), y: start.y.plus_spec(j) },
                Fixed::norm_spec(i, j),
            )
        }),
{
    reveal(gerber::arc::arc_box);
    let i = gerber::arc::offset_axis::<Fixed>(offset.x, Unit::Millimeters);
    let j = gerber::arc::offset_axis::<Fixed>(offset.y, Unit::Millimeters);
    lemma_radius(i, j);
    let c = Pos { x: start.x.plus_spec(i), y: start.y.plus_spec(j) };
    let a = Fixed::angle_spec(start.y.minus_spec(c.y), start.x.minus_spec(c.x));
    assert(gerber::arc::swept(a, a, Fixed::zero_spec(), mode));
    assert(gerber::arc::swept(a, a, Fixed::quarter_turn_spec(), mode));
    assert(gerber::arc::swept(a, a, Fixed::half_turn_spec(), mode));
    assert(gerber::arc::swept(a, a, Fixed::quarter_turn_spec().negated_spec(), mode));
}

} // verus!
