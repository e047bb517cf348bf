//! What a move keeps.
use crate::excellon_format;
use crate::excellon_format::corners::Plot;
use crate::excellon_format::{EntryView, ExcellonView, GeometricCode, InputMode};
use crate::fixed;
use crate::fixed::Fixed;
use crate::gerber;
use crate::gerber::corners::Pen;
use crate::gerber::GerberView;
use crate::gerber_types::{
    ApertureView, Command, CommandView, CoordinateNumber, Coordinates, DCode, FunctionCode,
    InterpolationMode, Operation, Unit,
};
use crate::scalar::Scalar;
use crate::{LayerTransform, Pos};
use vstd::prelude::*;

verus! {

/// The move back.
pub open spec fn opposite(by: Pos<Fixed>) -> Pos<Fixed> {
    Pos { x: by.x.negated_spec(), y: by.y.negated_spec() }
}

/// The move can be taken back.
pub open spec fn has_opposite(by: Pos<Fixed>) -> bool {
    by.x.raw > i64::MIN && by.y.raw > i64::MIN
}

/// The sum stays in the range of numbers.
pub open spec fn adds(v: Fixed, d: Fixed) -> bool {
    i64::MIN <= v.raw + d.raw <= i64::MAX
}

/// An axis of a hit is in millimetres and stays in range.
pub open spec fn hit_axis_moves(v: Option<Fixed>, d: Fixed) -> bool {
    v matches Some(v) ==> adds(v, d)
}

/// A drill command is in millimetres, and its coordinates stay in range.
pub open spec fn hit_moves(e: EntryView<Fixed>, by: Pos<Fixed>) -> bool {
    match e {
        Ok(excellon_format::Command::Coordinate(x, y, fmt)) => fmt.unit == Unit::Millimeters
            && hit_axis_moves(x, by.x) && hit_axis_moves(y, by.y),
        Ok(excellon_format::Command::Slot { from_x, from_y, to_x, to_y, fmt }) => fmt.unit
            == Unit::Millimeters && hit_axis_moves(from_x, by.x) && hit_axis_moves(from_y, by.y)
            && hit_axis_moves(to_x, by.x) && hit_axis_moves(to_y, by.y),
        _ => true,
    }
}

pub open spec fn hits_move(s: Seq<EntryView<Fixed>>, by: Pos<Fixed>) -> bool {
    forall|i: int| 0 <= i < s.len() ==> hit_moves(#[trigger] s[i], by)
}

proof fn lemma_entries_moved_back(s: Seq<EntryView<Fixed>>, by: Pos<Fixed>)
    requires
        has_opposite(by),
        hits_move(s, by),
    ensures
        ({
            let f = |c: excellon_format::CommandView<Fixed>| excellon_format::edit::moved(c, by);
            let g = |c: excellon_format::CommandView<Fixed>|
                excellon_format::edit::moved(c, opposite(by));
            excellon_format::edit::on_commands(excellon_format::edit::on_commands(s, f), g) == s
        }),
{
    let f = |c: excellon_format::CommandView<Fixed>| excellon_format::edit::moved(c, by);
    let g = |c: excellon_format::CommandView<Fixed>|
        excellon_format::edit::moved(c, opposite(by));
    let t = excellon_format::edit::on_commands(excellon_format::edit::on_commands(s, f), g);
    assert forall|i: int| 0 <= i < s.len() implies t[i] == s[i] by {
        assert(hit_moves(s[i], by));
    }
    assert(t =~= s);
}

/// A drill layer in millimetres that is moved there and back is as it was.
pub proof fn law_drill_moved_back(v: ExcellonView<Fixed>, by: Pos<Fixed>)
    requires
        has_opposite(by),
        hits_move(v.header, by),
        hits_move(v.commands, by),
    ensures
        excellon_format::edit::moved_layer(
            excellon_format::edit::moved_layer(v, by),
            opposite(by),
        ) == v,
{
    lemma_entries_moved_back(v.header, by);
    lemma_entries_moved_back(v.commands, by);
}

/// A coordinate of a layer stays in range; its distance is a multiple of the smallest coordinate.
pub open spec fn point_axis_moves(v: Option<CoordinateNumber>, d: Fixed) -> bool {
    d.raw as int % 1000 == 0 && (v matches Some(v) ==> i64::MIN <= v.nano * 1000 <= i64::MAX
        && i64::MIN <= v.nano * 1000 + d.raw <= i64::MAX)
}

pub open spec fn point_moves(c: CommandView<Fixed>, by: Pos<Fixed>) -> bool {
    gerber::corners::command_point(c) matches Some(p) ==> point_axis_moves(p.x, by.x)
        && point_axis_moves(p.y, by.y)
}

pub open spec fn points_move(s: Seq<CommandView<Fixed>>, by: Pos<Fixed>) -> bool {
    forall|i: int| 0 <= i < s.len() ==> point_moves(#[trigger] s[i], by)
}

proof fn lemma_axis_moved(v: Option<CoordinateNumber>, d: Fixed)
    requires
        point_axis_moves(v, d),
    ensures
        v is None ==> gerber::edit::shifted(v, d, Unit::Millimeters) is None,
        v matches Some(v) ==> gerber::edit::shifted(Some(v), d, Unit::Millimeters) == Some(
            CoordinateNumber { nano: (v.nano + d.raw as int / 1000) as i64 },
        ) && i64::MIN <= (v.nano + d.raw as int / 1000) * 1000 <= i64::MAX,
{
}

proof fn lemma_axis_moved_back(v: Option<CoordinateNumber>, d: Fixed)
    requires
        point_axis_moves(v, d),
        d.raw > i64::MIN,
    ensures
        gerber::edit::shifted(
            gerber::edit::shifted(v, d, Unit::Millimeters),
            d.negated_spec(),
            Unit::Millimeters,
        ) == v,
{
    lemma_axis_moved(v, d);
    if let Some(c) = v {
        let w = gerber::edit::shifted(v, d, Unit::Millimeters);
        assert(point_axis_moves(w, d.negated_spec()));
        lemma_axis_moved(w, d.negated_spec());
    }
}

/// A layer in millimetres that is moved there and back is as it was.
pub proof fn law_moved_back(v: GerberView<Fixed>, by: Pos<Fixed>)
    requires
        has_opposite(by),
        v.unit == Unit::Millimeters,
        points_move(v.commands, by),
    ensures
        gerber::GerberLayerData::<Fixed>::transformed(
            gerber::GerberLayerData::<Fixed>::transformed(v, by),
            opposite(by),
        ) == v,
{
    let s = v.commands;
    let t = gerber::edit::moved_commands(
        gerber::edit::moved_commands(s, by, v.unit),
        opposite(by),
        v.unit,
    );
    assert forall|i: int| 0 <= i < s.len() implies t[i] == s[i] by {
        assert(point_moves(s[i], by));
        if let Some(p) = gerber::corners::command_point(s[i]) {
            lemma_axis_moved_back(p.x, by.x);
            lemma_axis_moved_back(p.y, by.y);
        }
    }
    assert(t =~= s);
}

/// One move that does what two moves do.
pub open spec fn total(a: Pos<Fixed>, b: Pos<Fixed>) -> Pos<Fixed> {
    Pos { x: a.x.plus_spec(b.x), y: a.y.plus_spec(b.y) }
}

/// The sum of the moves is a number.
pub open spec fn adds_up(a: Pos<Fixed>, b: Pos<Fixed>) -> bool {
    adds(a.x, b.x) && adds(a.y, b.y)
}

proof fn lemma_entries_moved_twice(s: Seq<EntryView<Fixed>>, a: Pos<Fixed>, b: Pos<Fixed>)
    requires
        adds_up(a, b),
        hits_move(s, a),
        hits_move(s, total(a, b)),
    ensures
        ({
            let f = |c: excellon_format::CommandView<Fixed>| excellon_format::edit::moved(c, a);
            let g = |c: excellon_format::CommandView<Fixed>| excellon_format::edit::moved(c, b);
            let h = |c: excellon_format::CommandView<Fixed>|
                excellon_format::edit::moved(c, total(a, b));
            excellon_format::edit::on_commands(excellon_format::edit::on_commands(s, f), g)
                == excellon_format::edit::on_commands(s, h)
        }),
{
    let f = |c: excellon_format::CommandView<Fixed>| excellon_format::edit::moved(c, a);
    let g = |c: excellon_format::CommandView<Fixed>| excellon_format::edit::moved(c, b);
    let h = |c: excellon_format::CommandView<Fixed>| excellon_format::edit::moved(c, total(a, b));
    let t = excellon_format::edit::on_commands(excellon_format::edit::on_commands(s, f), g);
    let u = excellon_format::edit::on_commands(s, h);
    assert forall|i: int| 0 <= i < s.len() implies t[i] == u[i] by {
        assert(hit_moves(s[i], a));
        assert(hit_moves(s[i], total(a, b)));
    }
    assert(t =~= u);
}

/// Two moves of a drill layer add up to one.
pub proof fn law_drill_moves_add(v: ExcellonView<Fixed>, a: Pos<Fixed>, b: Pos<Fixed>)
    requires
        adds_up(a, b),
        hits_move(v.header, a) && hits_move(v.header, total(a, b)),
        hits_move(v.commands, a) && hits_move(v.commands, total(a, b)),
    ensures
        excellon_format::edit::moved_layer(excellon_format::edit::moved_layer(v, a), b)
            == excellon_format::edit::moved_layer(v, total(a, b)),
{
    lemma_entries_moved_twice(v.header, a, b);
    lemma_entries_moved_twice(v.commands, a, b);
}

proof fn lemma_axis_moved_twice(v: Option<CoordinateNumber>, a: Fixed, b: Fixed)
    requires
        adds(a, b),
        point_axis_moves(v, a),
        point_axis_moves(v, a.plus_spec(b)),
    ensures
        gerber::edit::shifted(
            gerber::edit::shifted(v, a, Unit::Millimeters),
            b,
            Unit::Millimeters,
        ) == gerber::edit::shifted(v, a.plus_spec(b), Unit::Millimeters),
{
    lemma_axis_moved(v, a);
    lemma_axis_moved(v, a.plus_spec(b));
    if let Some(c) = v {
        let w = gerber::edit::shifted(v, a, Unit::Millimeters);
        assert(point_axis_moves(w, b));
        lemma_axis_moved(w, b);
    }
}

/// Two moves of a layer add up to one.
pub proof fn law_moves_add(v: GerberView<Fixed>, a: Pos<Fixed>, b: Pos<Fixed>)
    requires
        adds_up(a, b),
        v.unit == Unit::Millimeters,
        points_move(v.commands, a),
        points_move(v.commands, total(a, b)),
    ensures
        gerber::GerberLayerData::<Fixed>::transformed(
            gerber::GerberLayerData::<Fixed>::transformed(v, a),
            b,
        ) == gerber::GerberLayerData::<Fixed>::transformed(v, total(a, b)),
{
    let s = v.commands;
    let t = gerber::edit::moved_commands(gerber::edit::moved_commands(s, a, v.unit), b, v.unit);
    let u = gerber::edit::moved_commands(s, total(a, b), v.unit);
    assert forall|i: int| 0 <= i < s.len() implies t[i] == u[i] by {
        assert(point_moves(s[i], a));
        assert(point_moves(s[i], total(a, b)));
        if let Some(p) = gerber::corners::command_point(s[i]) {
            lemma_axis_moved_twice(p.x, a.x, b.x);
            lemma_axis_moved_twice(p.y, a.y, b.y);
        }
    }
    assert(t =~= u);
}

/// The size of lengths up to which no sum of a few of them leaves the range of numbers.
pub const REACH: i64 = 1_000_000_000_000_000_000;

pub open spec fn small(v: Fixed) -> bool {
    fixed::abs(v.raw as int) <= REACH
}

pub open spec fn small_axis(v: Option<Fixed>) -> bool {
    v matches Some(v) ==> small(v)
}

pub open spec fn small_move(by: Pos<Fixed>) -> bool {
    small(by.x) && small(by.y)
}

/// `q` is `p`, moved.
pub open spec fn apart(p: Pos<Fixed>, q: Pos<Fixed>, by: Pos<Fixed>) -> bool {
    q.x.raw == p.x.raw + by.x.raw && q.y.raw == p.y.raw + by.y.raw
}

/// The box, moved.
pub open spec fn moved_box(b: (Pos<Fixed>, Pos<Fixed>), by: Pos<Fixed>) -> (Pos<Fixed>, Pos<Fixed>) {
    (
        Pos { x: b.0.x.plus_spec(by.x), y: b.0.y.plus_spec(by.y) },
        Pos { x: b.1.x.plus_spec(by.x), y: b.1.y.plus_spec(by.y) },
    )
}

/// The axes on which a program has said where it is.
pub open spec fn known(s: Seq<EntryView<Fixed>>) -> (bool, bool)
    decreases s.len(),
{
    if s.len() == 0 {
        (false, false)
    } else {
        let k = known(s.drop_last());
        match s.last() {
            Ok(excellon_format::Command::Coordinate(x, y, _)) => (
                k.0 || x is Some,
                k.1 || y is Some,
            ),
            Ok(excellon_format::Command::Slot { to_x, to_y, .. }) => (
                k.0 || to_x is Some,
                k.1 || to_y is Some,
            ),
            _ => k,
        }
    }
}

/// A hit gives every axis that is not known yet.
pub open spec fn placed(e: EntryView<Fixed>, k: (bool, bool)) -> bool {
    match e {
        Ok(excellon_format::Command::Coordinate(x, y, _)) => (x is Some || k.0) && (y is Some
            || k.1),
        Ok(excellon_format::Command::Slot { from_x, from_y, to_x, to_y, .. }) => ((from_x is Some
            && to_x is Some) || k.0) && ((from_y is Some && to_y is Some) || k.1),
        _ => true,
    }
}

/// The command is in millimetres and small, and does not switch to incremental input.
pub open spec fn plain_hit(e: EntryView<Fixed>) -> bool {
    match e {
        Ok(excellon_format::Command::Coordinate(x, y, fmt)) => fmt.unit == Unit::Millimeters
            && small_axis(x) && small_axis(y),
        Ok(excellon_format::Command::Slot { from_x, from_y, to_x, to_y, fmt }) => fmt.unit
            == Unit::Millimeters && small_axis(from_x) && small_axis(from_y) && small_axis(to_x)
            && small_axis(to_y),
        Ok(excellon_format::Command::Geometric(GeometricCode::InputMode(im))) => im
            == InputMode::Absolute,
        _ => true,
    }
}

/// A program in millimetres with absolute input whose first hit gives both axes.
pub open spec fn absolute_program(v: ExcellonView<Fixed>) -> bool {
    &&& excellon_format::merge::last_incremental(v.header) != Some(true)
    &&& forall|i: int|
        0 <= i < v.commands.len() ==> plain_hit(#[trigger] v.commands[i]) && placed(
            v.commands[i],
            known(v.commands.take(i)),
        )
    &&& forall|id: u32|
        small(#[trigger] excellon_format::corners::tool_radius(v.tools, id, v.unit.unit))
}

pub open spec fn has_hit(s: Seq<EntryView<Fixed>>) -> bool
    decreases s.len(),
{
    s.len() > 0 && (has_hit(s.drop_last()) || excellon_format::edit::is_hit(s.last()))
}

/// The two boxes are a move apart, or both empty.
pub open spec fn boxes_apart(
    b: (Pos<Fixed>, Pos<Fixed>),
    c: (Pos<Fixed>, Pos<Fixed>),
    by: Pos<Fixed>,
    filled: bool,
) -> bool {
    if filled {
        apart(b.0, c.0, by) && apart(b.1, c.1, by)
    } else {
        b == crate::empty_box::<Fixed>() && c == crate::empty_box::<Fixed>()
    }
}

proof fn lemma_hit_apart(
    b: (Pos<Fixed>, Pos<Fixed>),
    c: (Pos<Fixed>, Pos<Fixed>),
    p: Pos<Fixed>,
    q: Pos<Fixed>,
    radius: Fixed,
    by: Pos<Fixed>,
    filled: bool,
)
    requires
        boxes_apart(b, c, by, filled),
        apart(p, q, by),
        small(p.x),
        small(p.y),
        small(radius),
        small_move(by),
    ensures
        boxes_apart(
            excellon_format::corners::with_hit(b, p, radius),
            excellon_format::corners::with_hit(c, q, radius),
            by,
            true,
        ),
{
}

/// Two programs stand a move apart.
pub open spec fn plots_apart(
    p: Plot<Fixed>,
    q: Plot<Fixed>,
    by: Pos<Fixed>,
    filled: bool,
    k: (bool, bool),
) -> bool {
    &&& p.radius == q.radius && small(p.radius)
    &&& !p.incremental && !q.incremental
    &&& k.0 ==> q.current.x.raw == p.current.x.raw + by.x.raw && small(p.current.x)
    &&& k.1 ==> q.current.y.raw == p.current.y.raw + by.y.raw && small(p.current.y)
    &&& boxes_apart(p.corners, q.corners, by, filled)
}

proof fn lemma_plots_apart(
    p: Plot<Fixed>,
    q: Plot<Fixed>,
    e: EntryView<Fixed>,
    tools: Seq<(u32, Fixed)>,
    unit: Unit,
    by: Pos<Fixed>,
    filled: bool,
    k: (bool, bool),
)
    requires
        plots_apart(p, q, by, filled, k),
        small_move(by),
        plain_hit(e),
        placed(e, k),
        forall|id: u32| small(#[trigger] excellon_format::corners::tool_radius(tools, id, unit)),
    ensures
        ({
            let f = |c: excellon_format::CommandView<Fixed>| excellon_format::edit::moved(c, by);
            let next = match e {
                Ok(excellon_format::Command::Coordinate(x, y, _)) => (
                    k.0 || x is Some,
                    k.1 || y is Some,
                ),
                Ok(excellon_format::Command::Slot { to_x, to_y, .. }) => (
                    k.0 || to_x is Some,
                    k.1 || to_y is Some,
                ),
                _ => k,
            };
            plots_apart(
                p.after(e, tools, unit),
                q.after(excellon_format::edit::on_command(e, f), tools, unit),
                by,
                filled || excellon_format::edit::is_hit(e),
                next,
            )
        }),
{
    match e {
        Ok(excellon_format::Command::Coordinate(x, y, fmt)) => {
            let a = p.target(x, y, fmt.unit);
            let b = q.target(
                excellon_format::edit::shifted(x, by.x, fmt.unit),
                excellon_format::edit::shifted(y, by.y, fmt.unit),
                fmt.unit,
            );
            lemma_hit_apart(p.corners, q.corners, a, b, p.radius, by, filled);
        },
        Ok(excellon_format::Command::Slot { from_x, from_y, to_x, to_y, fmt }) => {
            let a = Pos {
                x: excellon_format::corners::in_mm(from_x, fmt.unit, p.current.x),
                y: excellon_format::corners::in_mm(from_y, fmt.unit, p.current.y),
            };
            let b = Pos {
                x: excellon_format::corners::in_mm(
                    excellon_format::edit::shifted(from_x, by.x, fmt.unit),
                    fmt.unit,
                    q.current.x,
                ),
                y: excellon_format::corners::in_mm(
                    excellon_format::edit::shifted(from_y, by.y, fmt.unit),
                    fmt.unit,
                    q.current.y,
                ),
            };
            lemma_hit_apart(p.corners, q.corners, a, b, p.radius, by, filled);
            let c = Pos {
                x: excellon_format::corners::in_mm(to_x, fmt.unit, p.current.x),
                y: excellon_format::corners::in_mm(to_y, fmt.unit, p.current.y),
            };
            let d = Pos {
                x: excellon_format::corners::in_mm(
                    excellon_format::edit::shifted(to_x, by.x, fmt.unit),
                    fmt.unit,
                    q.current.x,
                ),
                y: excellon_format::corners::in_mm(
                    excellon_format::edit::shifted(to_y, by.y, fmt.unit),
                    fmt.unit,
                    q.current.y,
                ),
            };
            lemma_hit_apart(
                excellon_format::corners::with_hit(p.corners, a, p.radius),
                excellon_format::corners::with_hit(q.corners, b, p.radius),
                c,
                d,
                p.radius,
                by,
                true,
            );
        },
        _ => {},
    }
}

proof fn lemma_programs_apart(v: ExcellonView<Fixed>, by: Pos<Fixed>, n: int)
    requires
        absolute_program(v),
        small_move(by),
        0 <= n <= v.commands.len(),
    ensures
        ({
            let w = excellon_format::edit::moved_layer(v, by);
            let s = v.commands.take(n);
            plots_apart(
                excellon_format::corners::plotted(
                    excellon_format::corners::plot_start(v.header),
                    s,
                    v.tools,
                    v.unit.unit,
                ),
                excellon_format::corners::plotted(
                    excellon_format::corners::plot_start(w.header),
                    w.commands.take(n),
                    v.tools,
                    v.unit.unit,
                ),
                by,
                has_hit(s),
                known(s),
            )
        }),
    decreases n,
{
    let w = excellon_format::edit::moved_layer(v, by);
    let s = v.commands.take(n);
    let t = w.commands.take(n);
    if n == 0 {
        lemma_incremental_kept(v.header, by);
    } else {
        lemma_programs_apart(v, by, n - 1);
        assert(s.drop_last() =~= v.commands.take(n - 1));
        assert(t.drop_last() =~= w.commands.take(n - 1));
        let e = v.commands[n - 1];
        assert(plain_hit(e) && placed(e, known(v.commands.take(n - 1))));
        lemma_plots_apart(
            excellon_format::corners::plotted(
                excellon_format::corners::plot_start(v.header),
                s.drop_last(),
                v.tools,
                v.unit.unit,
            ),
            excellon_format::corners::plotted(
                excellon_format::corners::plot_start(w.header),
                t.drop_last(),
                v.tools,
                v.unit.unit,
            ),
            e,
            v.tools,
            v.unit.unit,
            by,
            has_hit(s.drop_last()),
            known(s.drop_last()),
        );
    }
}

proof fn lemma_incremental_kept(header: Seq<EntryView<Fixed>>, by: Pos<Fixed>)
    ensures
        ({
            let f = |c: excellon_format::CommandView<Fixed>| excellon_format::edit::moved(c, by);
            excellon_format::merge::last_incremental(
                excellon_format::edit::on_commands(header, f),
            ) == excellon_format::merge::last_incremental(header)
        }),
    decreases header.len(),
{
    if header.len() > 0 {
        let f = |c: excellon_format::CommandView<Fixed>| excellon_format::edit::moved(c, by);
        let h = excellon_format::edit::on_commands(header, f);
        lemma_incremental_kept(header.drop_last(), by);
        assert(h.drop_last() =~= excellon_format::edit::on_commands(header.drop_last(), f));
        assert(h.last() == excellon_format::edit::on_command(header.last(), f));
    }
}

/// The bounding box of a drill layer moves with the layer.
pub proof fn law_drill_box_moves(v: ExcellonView<Fixed>, by: Pos<Fixed>)
    requires
        absolute_program(v),
        has_hit(v.commands),
        small_move(by),
    ensures
        excellon_format::corners::layer_corners(excellon_format::edit::moved_layer(v, by))
            == moved_box(excellon_format::corners::layer_corners(v), by),
{
    let w = excellon_format::edit::moved_layer(v, by);
    lemma_programs_apart(v, by, v.commands.len() as int);
    assert(v.commands.take(v.commands.len() as int) =~= v.commands);
    assert(w.commands.take(v.commands.len() as int) =~= w.commands);
}

/// On the axes that are given, the two boxes are a move apart; on the others they are empty.
pub open spec fn axes_apart(
    b: (Pos<Fixed>, Pos<Fixed>),
    c: (Pos<Fixed>, Pos<Fixed>),
    by: Pos<Fixed>,
    k: (bool, bool),
) -> bool {
    &&& if k.0 {
        c.0.x.raw == b.0.x.raw + by.x.raw && c.1.x.raw == b.1.x.raw + by.x.raw
    } else {
        b.0.x.raw == i64::MAX && c.0.x.raw == i64::MAX && b.1.x.raw == i64::MIN && c.1.x.raw
            == i64::MIN
    }
    &&& if k.1 {
        c.0.y.raw == b.0.y.raw + by.y.raw && c.1.y.raw == b.1.y.raw + by.y.raw
    } else {
        b.0.y.raw == i64::MAX && c.0.y.raw == i64::MAX && b.1.y.raw == i64::MIN && c.1.y.raw
            == i64::MIN
    }
}

pub open spec fn small_number(v: Option<CoordinateNumber>) -> bool {
    v matches Some(v) ==> fixed::abs(v.nano * 1000) <= REACH
}

pub open spec fn small_tool(tool: Option<(Pos<Fixed>, Pos<Fixed>)>) -> bool {
    tool matches Some((a, b)) ==> small(a.x) && small(a.y) && small(b.x) && small(b.y)
}

/// The move is a small multiple of the smallest coordinate.
pub open spec fn step_move(by: Pos<Fixed>) -> bool {
    small_move(by) && by.x.raw as int % 1000 == 0 && by.y.raw as int % 1000 == 0
}

/// The axes on which the commands have given a point.
pub open spec fn given(s: Seq<CommandView<Fixed>>) -> (bool, bool)
    decreases s.len(),
{
    if s.len() == 0 {
        (false, false)
    } else {
        let k = given(s.drop_last());
        match gerber::corners::command_point(s.last()) {
            Some(p) => (k.0 || p.x is Some, k.1 || p.y is Some),
            None => k,
        }
    }
}

/// The point of the command is small and, where it ends an arc, the arc is small and starts at a
/// point that was given.
pub open spec fn plain_point(c: CommandView<Fixed>, mode: InterpolationMode, k: (bool, bool)) -> bool {
    &&& gerber::corners::command_point(c) matches Some(p) ==> small_number(p.x) && small_number(p.y)
    &&& c matches Command::FunctionCode(
        FunctionCode::DCode(DCode::Operation(Operation::Interpolate(Some(p), Some(o)))),
    ) ==> mode != InterpolationMode::Linear ==> {
        let i = gerber::arc::offset_axis::<Fixed>(o.x, Unit::Millimeters);
        let j = gerber::arc::offset_axis::<Fixed>(o.y, Unit::Millimeters);
        k == (true, true) && small(i) && small(j) && small(Fixed::norm_spec(i, j))
    }
}

/// A layer in millimetres with points, arcs and tools that are small.
pub open spec fn plain_layer(v: GerberView<Fixed>) -> bool {
    &&& v.unit == Unit::Millimeters
    &&& forall|id: i32|
        #![trigger crate::table::lookup(v.apertures, id)]
        crate::table::lookup(v.apertures, id) matches Some(a) ==> small_tool(
            Some(gerber::corners::tool_box(a)),
        )
    &&& forall|i: int|
        0 <= i < v.commands.len() ==> plain_point(
            #[trigger] v.commands[i],
            gerber::corners::drawn(v.commands.take(i), v.apertures, v.unit).mode,
            given(v.commands.take(i)),
        )
}

/// A moved coordinate in millimetres.
proof fn lemma_point_apart(v: CoordinateNumber, d: Fixed) -> (w: CoordinateNumber)
    requires
        small_number(Some(v)),
        small(d),
        d.raw as int % 1000 == 0,
    ensures
        gerber::edit::shifted(Some(v), d, Unit::Millimeters) == Some(w),
        gerber::corners::in_mm::<Fixed>(w, Unit::Millimeters).raw == gerber::corners::in_mm::<
            Fixed,
        >(v, Unit::Millimeters).raw + d.raw,
        small(gerber::corners::in_mm::<Fixed>(v, Unit::Millimeters)),
{
    lemma_axis_moved(Some(v), d);
    let w = CoordinateNumber { nano: (v.nano + d.raw as int / 1000) as i64 };
    assert(gerber::corners::in_mm::<Fixed>(v, Unit::Millimeters).raw == v.nano * 1000);
    assert(gerber::corners::in_mm::<Fixed>(w, Unit::Millimeters).raw == w.nano * 1000);
    w
}

/// The ends of an interval that also holds a tool at a point.
proof fn lemma_interval_apart(
    low: (Fixed, Fixed),
    high: (Fixed, Fixed),
    at: (Fixed, Fixed),
    tool: (Fixed, Fixed),
    d: Fixed,
    k: bool,
)
    requires
        at.1.raw == at.0.raw + d.raw,
        small(at.0) && small(d) && small(tool.0) && small(tool.1),
        if k {
            low.1.raw == low.0.raw + d.raw && high.1.raw == high.0.raw + d.raw
        } else {
            low.0.raw == i64::MAX && low.1.raw == i64::MAX && high.0.raw == i64::MIN && high.1.raw
                == i64::MIN
        },
    ensures
        low.1.lower_spec(at.1.plus_spec(tool.0)).raw == low.0.lower_spec(
            at.0.plus_spec(tool.0),
        ).raw + d.raw,
        high.1.higher_spec(at.1.plus_spec(tool.1)).raw == high.0.higher_spec(
            at.0.plus_spec(tool.1),
        ).raw + d.raw,
{
}

proof fn lemma_coordinates_apart(
    b: (Pos<Fixed>, Pos<Fixed>),
    c: (Pos<Fixed>, Pos<Fixed>),
    p: Coordinates,
    q: Coordinates,
    tool: Option<(Pos<Fixed>, Pos<Fixed>)>,
    by: Pos<Fixed>,
    k: (bool, bool),
)
    requires
        axes_apart(b, c, by, k),
        step_move(by),
        small_tool(tool),
        small_number(p.x),
        small_number(p.y),
        q.x == gerber::edit::shifted(p.x, by.x, Unit::Millimeters),
        q.y == gerber::edit::shifted(p.y, by.y, Unit::Millimeters),
    ensures
        axes_apart(
            gerber::corners::with_coordinates(b, p, Unit::Millimeters, tool),
            gerber::corners::with_coordinates(c, q, Unit::Millimeters, tool),
            by,
            (k.0 || p.x is Some, k.1 || p.y is Some),
        ),
{
    let (low, high) = match tool {
        Some(t) => t,
        None => (Pos::origin(), Pos::origin()),
    };
    let d = gerber::corners::with_coordinates(b, p, Unit::Millimeters, tool);
    let e = gerber::corners::with_coordinates(c, q, Unit::Millimeters, tool);
    match p.x {
        Some(x) => {
            let w = lemma_point_apart(x, by.x);
            let at = (
                gerber::corners::in_mm::<Fixed>(x, Unit::Millimeters),
                gerber::corners::in_mm::<Fixed>(w, Unit::Millimeters),
            );
            lemma_interval_apart((b.0.x, c.0.x), (b.1.x, c.1.x), at, (low.x, high.x), by.x, k.0);
            assert(e.0.x.raw == d.0.x.raw + by.x.raw && e.1.x.raw == d.1.x.raw + by.x.raw);
        },
        None => {
            assert(d.0.x == b.0.x && d.1.x == b.1.x && e.0.x == c.0.x && e.1.x == c.1.x);
        },
    }
    match p.y {
        Some(y) => {
            let w = lemma_point_apart(y, by.y);
            let at = (
                gerber::corners::in_mm::<Fixed>(y, Unit::Millimeters),
                gerber::corners::in_mm::<Fixed>(w, Unit::Millimeters),
            );
            lemma_interval_apart((b.0.y, c.0.y), (b.1.y, c.1.y), at, (low.y, high.y), by.y, k.1);
            assert(e.0.y.raw == d.0.y.raw + by.y.raw && e.1.y.raw == d.1.y.raw + by.y.raw);
        },
        None => {
            assert(d.0.y == b.0.y && d.1.y == b.1.y && e.0.y == c.0.y && e.1.y == c.1.y);
        },
    }
}

proof fn lemma_extreme_apart(
    b: (Pos<Fixed>, Pos<Fixed>),
    c: (Pos<Fixed>, Pos<Fixed>),
    sweep: (Fixed, Fixed),
    mode: InterpolationMode,
    angle: Fixed,
    p: Pos<Fixed>,
    q: Pos<Fixed>,
    by: Pos<Fixed>,
)
    requires
        apart(b.0, c.0, by),
        apart(b.1, c.1, by),
        apart(p, q, by),
    ensures
        apart(
            gerber::arc::with_extreme(b, sweep, mode, angle, p).0,
            gerber::arc::with_extreme(c, sweep, mode, angle, q).0,
            by,
        ),
        apart(
            gerber::arc::with_extreme(b, sweep, mode, angle, p).1,
            gerber::arc::with_extreme(c, sweep, mode, angle, q).1,
            by,
        ),
{
}

/// The corners are no further out than a few lengths.
pub open spec fn near(b: (Pos<Fixed>, Pos<Fixed>)) -> bool {
    &&& fixed::abs(b.0.x.raw as int) <= 4 * REACH && fixed::abs(b.0.y.raw as int) <= 4 * REACH
    &&& fixed::abs(b.1.x.raw as int) <= 4 * REACH && fixed::abs(b.1.y.raw as int) <= 4 * REACH
}

proof fn lemma_extreme_near(
    b: (Pos<Fixed>, Pos<Fixed>),
    sweep: (Fixed, Fixed),
    mode: InterpolationMode,
    angle: Fixed,
    p: Pos<Fixed>,
)
    requires
        near(b),
        near((p, p)),
    ensures
        near(gerber::arc::with_extreme(b, sweep, mode, angle, p)),
{
}

#[verifier::rlimit(60)]
proof fn lemma_arc_apart(
    start: (Pos<Fixed>, Pos<Fixed>),
    end: (Pos<Fixed>, Pos<Fixed>),
    offset: crate::gerber_types::CoordinateOffset,
    mode: InterpolationMode,
    by: Pos<Fixed>,
)
    requires
        apart(start.0, start.1, by),
        apart(end.0, end.1, by),
        small_move(by),
        small(start.0.x) && small(start.0.y) && small(end.0.x) && small(end.0.y),
        ({
            let i = gerber::arc::offset_axis::<Fixed>(offset.x, Unit::Millimeters);
            let j = gerber::arc::offset_axis::<Fixed>(offset.y, Unit::Millimeters);
            small(i) && small(j) && small(Fixed::norm_spec(i, j))
        }),
    ensures
        ({
            let a = gerber::arc::arc_box(start.0, end.0, offset, Unit::Millimeters, mode);
            let b = gerber::arc::arc_box(start.1, end.1, offset, Unit::Millimeters, mode);
            near(a) && apart(a.0, b.0, by) && apart(a.1, b.1, by)
        }),
{
    reveal(gerber::arc::arc_box);
    let i = gerber::arc::offset_axis::<Fixed>(offset.x, Unit::Millimeters);
    let j = gerber::arc::offset_axis::<Fixed>(offset.y, Unit::Millimeters);
    let r = Fixed::norm_spec(i, j);
    let c = Pos { x: start.0.x.plus_spec(i), y: start.0.y.plus_spec(j) };
    let d = Pos { x: start.1.x.plus_spec(i), y: start.1.y.plus_spec(j) };
    assert(apart(c, d, by));
    let sweep = (
        Fixed::angle_spec(start.0.y.minus_spec(c.y), start.0.x.minus_spec(c.x)),
        Fixed::angle_spec(end.0.y.minus_spec(c.y), end.0.x.minus_spec(c.x)),
    );
    assert(start.0.y.minus_spec(c.y) == start.1.y.minus_spec(d.y));
    assert(start.0.x.minus_spec(c.x) == start.1.x.minus_spec(d.x));
    assert(end.0.y.minus_spec(c.y) == end.1.y.minus_spec(d.y));
    assert(end.0.x.minus_spec(c.x) == end.1.x.minus_spec(d.x));
    let quarter = Fixed::quarter_turn_spec();
    let a0 = gerber::arc::span(start.0, end.0);
    let b0 = gerber::arc::span(start.1, end.1);
    let p1 = Pos { x: c.x.plus_spec(r), y: c.y };
    let q1 = Pos { x: d.x.plus_spec(r), y: d.y };
    lemma_extreme_apart(a0, b0, sweep, mode, Fixed::zero_spec(), p1, q1, by);
    lemma_extreme_near(a0, sweep, mode, Fixed::zero_spec(), p1);
    let a1 = gerber::arc::with_extreme(a0, sweep, mode, Fixed::zero_spec(), p1);
    let b1 = gerber::arc::with_extreme(b0, sweep, mode, Fixed::zero_spec(), q1);
    let p2 = Pos { x: c.x, y: c.y.plus_spec(r) };
    let q2 = Pos { x: d.x, y: d.y.plus_spec(r) };
    lemma_extreme_apart(a1, b1, sweep, mode, quarter, p2, q2, by);
    lemma_extreme_near(a1, sweep, mode, quarter, p2);
    let a2 = gerber::arc::with_extreme(a1, sweep, mode, quarter, p2);
    let b2 = gerber::arc::with_extreme(b1, sweep, mode, quarter, q2);
    let p3 = Pos { x: c.x.minus_spec(r), y: c.y };
    let q3 = Pos { x: d.x.minus_spec(r), y: d.y };
    lemma_extreme_apart(a2, b2, sweep, mode, Fixed::half_turn_spec(), p3, q3, by);
    lemma_extreme_near(a2, sweep, mode, Fixed::half_turn_spec(), p3);
    let a3 = gerber::arc::with_extreme(a2, sweep, mode, Fixed::half_turn_spec(), p3);
    let b3 = gerber::arc::with_extreme(b2, sweep, mode, Fixed::half_turn_spec(), q3);
    let p4 = Pos { x: c.x, y: c.y.minus_spec(r) };
    let q4 = Pos { x: d.x, y: d.y.minus_spec(r) };
    lemma_extreme_apart(a3, b3, sweep, mode, quarter.negated_spec(), p4, q4, by);
    lemma_extreme_near(a3, sweep, mode, quarter.negated_spec(), p4);
}

/// Two pens stand a move apart.
pub open spec fn pens_apart(p: Pen<Fixed>, q: Pen<Fixed>, by: Pos<Fixed>, k: (bool, bool)) -> bool {
    &&& p.tool == q.tool && small_tool(p.tool)
    &&& p.mode == q.mode
    &&& k.0 ==> q.current.x.raw == p.current.x.raw + by.x.raw && small(p.current.x)
    &&& k.1 ==> q.current.y.raw == p.current.y.raw + by.y.raw && small(p.current.y)
    &&& axes_apart(p.corners, q.corners, by, k)
}

proof fn lemma_arrived_apart(
    p: Pos<Fixed>,
    q: Pos<Fixed>,
    a: Coordinates,
    b: Coordinates,
    by: Pos<Fixed>,
    k: (bool, bool),
)
    requires
        step_move(by),
        small_number(a.x),
        small_number(a.y),
        b.x == gerber::edit::shifted(a.x, by.x, Unit::Millimeters),
        b.y == gerber::edit::shifted(a.y, by.y, Unit::Millimeters),
        k.0 ==> q.x.raw == p.x.raw + by.x.raw && small(p.x),
        k.1 ==> q.y.raw == p.y.raw + by.y.raw && small(p.y),
    ensures
        ({
            let c = gerber::corners::arrived(p, a, Unit::Millimeters);
            let d = gerber::corners::arrived(q, b, Unit::Millimeters);
            &&& k.0 || a.x is Some ==> d.x.raw == c.x.raw + by.x.raw && small(c.x)
            &&& k.1 || a.y is Some ==> d.y.raw == c.y.raw + by.y.raw && small(c.y)
        }),
{
    if let Some(x) = a.x {
        let w = lemma_point_apart(x, by.x);
    }
    if let Some(y) = a.y {
        let w = lemma_point_apart(y, by.y);
    }
}

proof fn lemma_arcs_apart(
    b: (Pos<Fixed>, Pos<Fixed>),
    c: (Pos<Fixed>, Pos<Fixed>),
    arc: (Pos<Fixed>, Pos<Fixed>),
    brc: (Pos<Fixed>, Pos<Fixed>),
    tool: Option<(Pos<Fixed>, Pos<Fixed>)>,
    by: Pos<Fixed>,
)
    requires
        axes_apart(b, c, by, (true, true)),
        small_move(by),
        small_tool(tool),
        near(arc),
        apart(arc.0, brc.0, by),
        apart(arc.1, brc.1, by),
    ensures
        axes_apart(
            gerber::corners::with_box(b, arc, tool),
            gerber::corners::with_box(c, brc, tool),
            by,
            (true, true),
        ),
{
}

/// A pen behind a point that it has reached, with `tool`.
pub open spec fn pen_at(p: Pen<Fixed>, a: Coordinates, tool: Option<(Pos<Fixed>, Pos<Fixed>)>) -> Pen<
    Fixed,
> {
    Pen {
        corners: gerber::corners::with_coordinates(p.corners, a, Unit::Millimeters, tool),
        current: gerber::corners::arrived(p.current, a, Unit::Millimeters),
        ..p
    }
}

/// A pen behind an arc.
pub open spec fn pen_behind(
    p: Pen<Fixed>,
    a: Coordinates,
    o: crate::gerber_types::CoordinateOffset,
) -> Pen<Fixed> {
    let end = gerber::corners::arrived(p.current, a, Unit::Millimeters);
    Pen {
        corners: gerber::corners::with_box(
            p.corners,
            gerber::arc::arc_box(p.current, end, o, Unit::Millimeters, p.mode),
            p.tool,
        ),
        current: end,
        ..p
    }
}

proof fn lemma_point_pens(
    p: Pen<Fixed>,
    q: Pen<Fixed>,
    a: Coordinates,
    b: Coordinates,
    tool: Option<(Pos<Fixed>, Pos<Fixed>)>,
    by: Pos<Fixed>,
    k: (bool, bool),
)
    requires
        pens_apart(p, q, by, k),
        step_move(by),
        small_tool(tool),
        small_number(a.x),
        small_number(a.y),
        b.x == gerber::edit::shifted(a.x, by.x, Unit::Millimeters),
        b.y == gerber::edit::shifted(a.y, by.y, Unit::Millimeters),
    ensures
        pens_apart(
            pen_at(p, a, tool),
            pen_at(q, b, tool),
            by,
            (k.0 || a.x is Some, k.1 || a.y is Some),
        ),
{
    lemma_arrived_apart(p.current, q.current, a, b, by, k);
    lemma_coordinates_apart(p.corners, q.corners, a, b, tool, by, k);
}

proof fn lemma_arc_pens(
    p: Pen<Fixed>,
    q: Pen<Fixed>,
    a: Coordinates,
    b: Coordinates,
    o: crate::gerber_types::CoordinateOffset,
    by: Pos<Fixed>,
)
    requires
        pens_apart(p, q, by, (true, true)),
        step_move(by),
        small_number(a.x),
        small_number(a.y),
        b.x == gerber::edit::shifted(a.x, by.x, Unit::Millimeters),
        b.y == gerber::edit::shifted(a.y, by.y, Unit::Millimeters),
        ({
            let i = gerber::arc::offset_axis::<Fixed>(o.x, Unit::Millimeters);
            let j = gerber::arc::offset_axis::<Fixed>(o.y, Unit::Millimeters);
            small(i) && small(j) && small(Fixed::norm_spec(i, j))
        }),
    ensures
        pens_apart(pen_behind(p, a, o), pen_behind(q, b, o), by, (true, true)),
{
    lemma_arrived_apart(p.current, q.current, a, b, by, (true, true));
    let end = (
        gerber::corners::arrived(p.current, a, Unit::Millimeters),
        gerber::corners::arrived(q.current, b, Unit::Millimeters),
    );
    lemma_arc_apart((p.current, q.current), end, o, p.mode, by);
    lemma_arcs_apart(
        p.corners,
        q.corners,
        gerber::arc::arc_box(p.current, end.0, o, Unit::Millimeters, p.mode),
        gerber::arc::arc_box(q.current, end.1, o, Unit::Millimeters, p.mode),
        p.tool,
        by,
    );
}

/// What a command that draws at a point does.
proof fn lemma_drawing_apart(
    p: Pen<Fixed>,
    q: Pen<Fixed>,
    op: Operation,
    a: Coordinates,
    apertures: Seq<(i32, ApertureView<Fixed>)>,
    by: Pos<Fixed>,
    k: (bool, bool),
)
    requires
        pens_apart(p, q, by, k),
        step_move(by),
        plain_point(
            Command::FunctionCode(FunctionCode::DCode(DCode::Operation(op))),
            p.mode,
            k,
        ),
        gerber::corners::command_point::<Fixed>(
            Command::FunctionCode(FunctionCode::DCode(DCode::Operation(op))),
        ) == Some(a),
    ensures
        pens_apart(
            p.after(
                Command::FunctionCode(FunctionCode::DCode(DCode::Operation(op))),
                apertures,
                Unit::Millimeters,
            ),
            q.after(
                Command::FunctionCode(
                    FunctionCode::DCode(
                        DCode::Operation(
                            gerber::edit::moved_operation(op, by, Unit::Millimeters),
                        ),
                    ),
                ),
                apertures,
                Unit::Millimeters,
            ),
            by,
            (k.0 || a.x is Some, k.1 || a.y is Some),
        ),
{
    let b = Coordinates {
        x: gerber::edit::shifted(a.x, by.x, Unit::Millimeters),
        y: gerber::edit::shifted(a.y, by.y, Unit::Millimeters),
        ..a
    };
    match op {
        Operation::Move(_) => {
            lemma_point_pens(p, q, a, b, None, by, k);
        },
        Operation::Flash(_) => {
            lemma_point_pens(p, q, a, b, p.tool, by, k);
        },
        Operation::Interpolate(_, o) => {
            if p.mode != InterpolationMode::Linear && o is Some {
                lemma_arc_pens(p, q, a, b, o->0, by);
            } else {
                lemma_point_pens(p, q, a, b, p.tool, by, k);
            }
        },
    }
}

proof fn lemma_pens_apart(
    p: Pen<Fixed>,
    q: Pen<Fixed>,
    c: CommandView<Fixed>,
    apertures: Seq<(i32, ApertureView<Fixed>)>,
    by: Pos<Fixed>,
    k: (bool, bool),
)
    requires
        pens_apart(p, q, by, k),
        step_move(by),
        plain_point(c, p.mode, k),
        forall|id: i32|
            #![trigger crate::table::lookup(apertures, id)]
            crate::table::lookup(apertures, id) matches Some(a) ==> small_tool(
                Some(gerber::corners::tool_box(a)),
            ),
    ensures
        pens_apart(
            p.after(c, apertures, Unit::Millimeters),
            q.after(gerber::edit::moved(c, by, Unit::Millimeters), apertures, Unit::Millimeters),
            by,
            match gerber::corners::command_point(c) {
                Some(p) => (k.0 || p.x is Some, k.1 || p.y is Some),
                None => k,
            },
        ),
{
    match c {
        Command::FunctionCode(FunctionCode::DCode(DCode::Operation(op))) => {
            match gerber::corners::command_point(c) {
                Some(a) => lemma_drawing_apart(p, q, op, a, apertures, by, k),
                None => {},
            }
        },
        _ => {},
    }
}

proof fn lemma_drawings_apart(v: GerberView<Fixed>, by: Pos<Fixed>, n: int)
    requires
        plain_layer(v),
        step_move(by),
        0 <= n <= v.commands.len(),
    ensures
        pens_apart(
            gerber::corners::drawn(v.commands.take(n), v.apertures, v.unit),
            gerber::corners::drawn(
                gerber::edit::moved_commands(v.commands, by, v.unit).take(n),
                v.apertures,
                v.unit,
            ),
            by,
            given(v.commands.take(n)),
        ),
    decreases n,
{
    if n > 0 {
        lemma_drawings_apart(v, by, n - 1);
        let s = v.commands.take(n);
        let t = gerber::edit::moved_commands(v.commands, by, v.unit).take(n);
        assert(s.drop_last() =~= v.commands.take(n - 1));
        assert(t.drop_last() =~= gerber::edit::moved_commands(v.commands, by, v.unit).take(n - 1));
        let c = v.commands[n - 1];
        let p = gerber::corners::drawn(s.drop_last(), v.apertures, v.unit);
        assert(plain_point(c, p.mode, given(s.drop_last())));
        lemma_pens_apart(
            p,
            gerber::corners::drawn(t.drop_last(), v.apertures, v.unit),
            c,
            v.apertures,
            by,
            given(s.drop_last()),
        );
    }
}

/// The bounding box of a layer moves with the layer.
pub proof fn law_box_moves(v: GerberView<Fixed>, by: Pos<Fixed>)
    requires
        plain_layer(v),
        given(v.commands) == (true, true),
        step_move(by),
    ensures
        gerber::corners::layer_corners(gerber::GerberLayerData::<Fixed>::transformed(v, by))
            == moved_box(gerber::corners::layer_corners(v), by),
{
    let t = gerber::edit::moved_commands(v.commands, by, v.unit);
    lemma_drawings_apart(v, by, v.commands.len() as int);
    assert(v.commands.take(v.commands.len() as int) =~= v.commands);
    assert(t.take(v.commands.len() as int) =~= t);
}

} // verus!
