//! What moving and scaling do to the holes of a drill layer, and where and how wide they are.
use crate::excellon_format;
use crate::excellon_format::corners::Plot;
use crate::excellon_format::{
    Command, CommandView, EntryView, ExcellonView, GeometricCode, InputMode,
};
use crate::fixed;
use crate::fixed::{Fixed, ONE};
use crate::gerber_types::Unit;
use crate::laws::boxes;
use crate::laws::drawings;
use crate::laws::edits;
use crate::laws::texts;
use crate::scalar::Scalar;
use crate::table;
use crate::unit_able::UnitAble;
use crate::{LayerScale, LayerTransform, Pos};
use vstd::prelude::*;

verus! {

pub open spec fn axes_related(
    a: Option<Fixed>,
    b: Option<Fixed>,
    r: spec_fn(int, int) -> bool,
) -> bool {
    match (a, b) {
        (Some(a), Some(b)) => r(a.raw as int, b.raw as int),
        (None, None) => true,
        _ => false,
    }
}

/// `d` is the command `c` with other coordinates, in the same format: a coordinate stays one, a slot
/// goes on from one point to another, each axis is there as it was, and what has no coordinates
/// stays as it is.
pub open spec fn commands_related(
    c: CommandView<Fixed>,
    d: CommandView<Fixed>,
    x: spec_fn(int, int) -> bool,
    y: spec_fn(int, int) -> bool,
) -> bool {
    match c {
        Command::Coordinate(a, b, fmt) => d matches Command::Coordinate(p, q, f) && (f == fmt
            && axes_related(a, p, x) && axes_related(b, q, y)),
        Command::Slot { from_x, from_y, to_x, to_y, fmt } => d matches Command::Slot {
            from_x: p,
            from_y: q,
            to_x: r,
            to_y: s,
            fmt: f,
        } && (f == fmt && axes_related(from_x, p, x) && axes_related(from_y, q, y) && axes_related(
            to_x,
            r,
            x,
        ) && axes_related(to_y, s, y)),
        _ => d == c,
    }
}

pub open spec fn unit_of(c: CommandView<Fixed>) -> Unit {
    match c {
        Command::Coordinate(_, _, fmt) => fmt.unit,
        Command::Slot { fmt, .. } => fmt.unit,
        _ => Unit::Millimeters,
    }
}

/// `b` is `a` and `d` millimetres more; an inch has 25.4 of them.
pub open spec fn more_by(d: int, unit: Unit) -> spec_fn(int, int) -> bool {
    |a: int, b: int|
        match unit {
            Unit::Millimeters => b == a + d,
            Unit::Inches => -140 <= 254 * b - (254 * a + 10 * d) <= 140,
        }
}

/// `b` is `a` times `f`, rounded.
pub open spec fn times_by(f: int) -> spec_fn(int, int) -> bool {
    |a: int, b: int| -500_000_000 <= 1_000_000_000 * b - a * f <= 500_000_000
}

/// At most 100 kilometres, or 100 million inches.
pub open spec fn modest_axis(v: Option<Fixed>) -> bool {
    v matches Some(v) ==> edits::modest_length(v)
}

pub open spec fn modest(c: CommandView<Fixed>) -> bool {
    match c {
        Command::Coordinate(x, y, _) => modest_axis(x) && modest_axis(y),
        Command::Slot { from_x, from_y, to_x, to_y, fmt } => modest_axis(from_x) && modest_axis(
            from_y,
        ) && modest_axis(to_x) && modest_axis(to_y),
        _ => true,
    }
}

pub open spec fn entries_modest(s: Seq<EntryView<Fixed>>) -> bool {
    forall|i: int| 0 <= i < s.len() ==> (#[trigger] s[i] matches Ok(c) ==> modest(c))
}

/// `mm` is `v` in millimetres.
pub open spec fn is_mm(v: Fixed, unit: Unit, mm: Fixed) -> bool {
    match unit {
        Unit::Millimeters => mm == v,
        Unit::Inches => -5 <= 10 * mm.raw - 254 * v.raw <= 5,
    }
}

proof fn lemma_mm(v: Fixed, unit: Unit)
    requires
        edits::modest_length(v),
    ensures
        is_mm(v, unit, Fixed::to_mm_spec(v, unit)),
{
    let inch = crate::unit_able::inch::<Fixed>();
    assert(inch.raw == 25_400_000_000);
    edits::lemma_round_div(v.raw * 25_400_000_000, ONE as int);
}

proof fn lemma_shifted(v: Fixed, d: Fixed, unit: Unit)
    requires
        edits::modest_length(v),
        edits::modest_length(d),
    ensures
        axes_related(
            Some(v),
            excellon_format::edit::shifted(Some(v), d, unit),
            more_by(d.raw as int, unit),
        ),
{
    lemma_mm(v, unit);
    let inch = crate::unit_able::inch::<Fixed>();
    assert(inch.raw == 25_400_000_000);
    let m = Fixed::to_mm_spec(v, unit).plus_spec(d);
    if unit == Unit::Inches {
        edits::lemma_round_div(m.raw * ONE, 25_400_000_000);
    }
}

proof fn lemma_moved(c: CommandView<Fixed>, by: Pos<Fixed>)
    requires
        modest(c),
        edits::modest_length(by.x),
        edits::modest_length(by.y),
    ensures
        commands_related(
            c,
            excellon_format::edit::moved(c, by),
            more_by(by.x.raw as int, unit_of(c)),
            more_by(by.y.raw as int, unit_of(c)),
        ),
{
    let unit = unit_of(c);
    assert forall|v: Fixed| edits::modest_length(v) implies axes_related(
        Some(v),
        #[trigger] excellon_format::edit::shifted(Some(v), by.x, unit),
        more_by(by.x.raw as int, unit),
    ) by {
        lemma_shifted(v, by.x, unit);
    }
    assert forall|v: Fixed| edits::modest_length(v) implies axes_related(
        Some(v),
        #[trigger] excellon_format::edit::shifted(Some(v), by.y, unit),
        more_by(by.y.raw as int, unit),
    ) by {
        lemma_shifted(v, by.y, unit);
    }
}

/// The entries are related one by one, and errors stay.
pub open spec fn entries_moved(
    s: Seq<EntryView<Fixed>>,
    t: Seq<EntryView<Fixed>>,
    by: Pos<Fixed>,
) -> bool {
    &&& t.len() == s.len()
    &&& forall|i: int|
        0 <= i < s.len() ==> match #[trigger] s[i] {
            Ok(c) => t[i] matches Ok(d) && commands_related(
                c,
                d,
                more_by(by.x.raw as int, unit_of(c)),
                more_by(by.y.raw as int, unit_of(c)),
            ),
            Err(_) => t[i] == s[i],
        }
}

pub open spec fn entries_scaled(
    s: Seq<EntryView<Fixed>>,
    t: Seq<EntryView<Fixed>>,
    x: Fixed,
    y: Fixed,
) -> bool {
    &&& t.len() == s.len()
    &&& forall|i: int|
        0 <= i < s.len() ==> match #[trigger] s[i] {
            Ok(c) => t[i] matches Ok(d) && commands_related(
                c,
                d,
                times_by(x.raw as int),
                times_by(y.raw as int),
            ),
            Err(_) => t[i] == s[i],
        }
}

proof fn lemma_entries_moved(s: Seq<EntryView<Fixed>>, by: Pos<Fixed>)
    requires
        entries_modest(s),
        edits::modest_length(by.x),
        edits::modest_length(by.y),
    ensures
        entries_moved(
            s,
            excellon_format::edit::on_commands(
                s,
                |c: CommandView<Fixed>| excellon_format::edit::moved(c, by),
            ),
            by,
        ),
{
    let f = |c: CommandView<Fixed>| excellon_format::edit::moved(c, by);
    let t = excellon_format::edit::on_commands(s, f);
    assert forall|i: int| 0 <= i < s.len() implies match #[trigger] s[i] {
        Ok(c) => t[i] matches Ok(d) && commands_related(
            c,
            d,
            more_by(by.x.raw as int, unit_of(c)),
            more_by(by.y.raw as int, unit_of(c)),
        ),
        Err(_) => t[i] == s[i],
    } by {
        if let Ok(c) = s[i] {
            lemma_moved(c, by);
        }
    }
}

/// Moving a drill layer adds the move to every coordinate, in the unit of the coordinate, and
/// changes nothing else.
pub proof fn law_drill_layer_moved(v: ExcellonView<Fixed>, by: Pos<Fixed>)
    requires
        entries_modest(v.header),
        entries_modest(v.commands),
        edits::modest_length(by.x),
        edits::modest_length(by.y),
    ensures
        ({
            let w = excellon_format::ExcellonLayerData::<Fixed>::transformed(v, by);
            &&& entries_moved(v.header, w.header, by)
            &&& entries_moved(v.commands, w.commands, by)
            &&& w.tools == v.tools
            &&& w.unit == v.unit
        }),
{
    lemma_entries_moved(v.header, by);
    lemma_entries_moved(v.commands, by);
}

proof fn lemma_times(v: Fixed, f: Fixed)
    requires
        edits::modest_length(v),
        -10_000_000_000 <= f.raw <= 10_000_000_000,
    ensures
        times_by(f.raw as int)(v.raw as int, v.times_spec(f).raw as int),
{
    let n = v.raw * f.raw;
    assert(-1_000_000_000_000_000_000_000_000_000 <= n <= 1_000_000_000_000_000_000_000_000_000)
        by (nonlinear_arith)
        requires
            n == v.raw * f.raw,
            -100_000_000_000_000_000 <= v.raw <= 100_000_000_000_000_000,
            -10_000_000_000 <= f.raw <= 10_000_000_000,
    ;
    edits::lemma_round_div(n, ONE as int);
}

proof fn lemma_entries_scaled(s: Seq<EntryView<Fixed>>, x: Fixed, y: Fixed)
    requires
        entries_modest(s),
        -10_000_000_000 <= x.raw <= 10_000_000_000,
        -10_000_000_000 <= y.raw <= 10_000_000_000,
    ensures
        entries_scaled(
            s,
            excellon_format::edit::on_commands(
                s,
                |c: CommandView<Fixed>| excellon_format::edit::stretched(c, x, y),
            ),
            x,
            y,
        ),
{
    let f = |c: CommandView<Fixed>| excellon_format::edit::stretched(c, x, y);
    let t = excellon_format::edit::on_commands(s, f);
    assert forall|v: Fixed| edits::modest_length(v) implies times_by(x.raw as int)(
        v.raw as int,
        (#[trigger] v.times_spec(x)).raw as int,
    ) by {
        lemma_times(v, x);
    }
    assert forall|v: Fixed| edits::modest_length(v) implies times_by(y.raw as int)(
        v.raw as int,
        (#[trigger] v.times_spec(y)).raw as int,
    ) by {
        lemma_times(v, y);
    }
    assert forall|i: int| 0 <= i < s.len() implies match #[trigger] s[i] {
        Ok(c) => t[i] matches Ok(d) && commands_related(
            c,
            d,
            times_by(x.raw as int),
            times_by(y.raw as int),
        ),
        Err(_) => t[i] == s[i],
    } by {}
}

/// Scaling a drill layer multiplies every coordinate by the factor of its axis, at most ten, and
/// changes nothing else: the holes keep their widths.
pub proof fn law_drill_layer_scaled(v: ExcellonView<Fixed>, x: Fixed, y: Fixed)
    requires
        entries_modest(v.header),
        entries_modest(v.commands),
        -10_000_000_000 <= x.raw <= 10_000_000_000,
        -10_000_000_000 <= y.raw <= 10_000_000_000,
    ensures
        ({
            let w = excellon_format::ExcellonLayerData::<Fixed>::scaled(v, x, y);
            &&& entries_scaled(v.header, w.header, x, y)
            &&& entries_scaled(v.commands, w.commands, x, y)
            &&& w.tools == v.tools
            &&& w.unit == v.unit
        }),
{
    lemma_entries_scaled(v.header, x, y);
    lemma_entries_scaled(v.commands, x, y);
}

/// The entry says whether coordinates are steps from where the program stands.
pub open spec fn is_input_mode(e: EntryView<Fixed>) -> bool {
    e matches Ok(Command::Geometric(GeometricCode::InputMode(_)))
}

pub open spec fn is_switch(e: EntryView<Fixed>) -> bool {
    e matches Ok(Command::Incremental(_))
}

/// The header ends with incremental input switched on.
pub open spec fn starts_incremental(header: Seq<EntryView<Fixed>>) -> bool {
    exists|k: int|
        0 <= k < header.len() && (#[trigger] header[k] matches Ok(Command::Incremental(true)))
            && forall|q: int| k < q < header.len() ==> !is_switch(#[trigger] header[q])
}

pub proof fn lemma_starts_incremental(header: Seq<EntryView<Fixed>>)
    ensures
        (excellon_format::merge::last_incremental(header) == Some(true)) == starts_incremental(
            header,
        ),
        excellon_format::merge::last_incremental(header) is None ==> forall|q: int|
            0 <= q < header.len() ==> !is_switch(#[trigger] header[q]),
    decreases header.len(),
{
    if header.len() > 0 {
        let t = header.drop_last();
        let n = header.len() - 1;
        lemma_starts_incremental(t);
        assert(header[n] == header.last());
        if is_switch(header.last()) {
            if starts_incremental(header) {
                let k = choose|k: int|
                    0 <= k < header.len() && (#[trigger] header[k] matches Ok(
                        Command::Incremental(true),
                    )) && forall|q: int| k < q < header.len() ==> !is_switch(#[trigger] header[q]);
                assert(k == n);
            }
        } else {
            if starts_incremental(t) {
                let k = choose|k: int|
                    0 <= k < t.len() && (#[trigger] t[k] matches Ok(Command::Incremental(true)))
                        && forall|q: int| k < q < t.len() ==> !is_switch(#[trigger] t[q]);
                assert(header[k] == t[k]);
                assert forall|q: int| k < q < header.len() implies !is_switch(
                    #[trigger] header[q],
                ) by {
                    if q < n {
                        assert(t[q] == header[q]);
                    }
                }
            }
            if starts_incremental(header) {
                let k = choose|k: int|
                    0 <= k < header.len() && (#[trigger] header[k] matches Ok(
                        Command::Incremental(true),
                    )) && forall|q: int| k < q < header.len() ==> !is_switch(#[trigger] header[q]);
                assert(t[k] == header[k]);
                assert forall|q: int| k < q < t.len() implies !is_switch(#[trigger] t[q]) by {
                    assert(t[q] == header[q]);
                }
            }
            if excellon_format::merge::last_incremental(header) is None {
                assert forall|q: int| 0 <= q < header.len() implies !is_switch(
                    #[trigger] header[q],
                ) by {
                    if q < n {
                        assert(t[q] == header[q]);
                    }
                }
            }
        }
    }
}

/// Coordinates are steps in front of entry `i` if the last code in front of it says so, `G91` or
/// `G90`; without one, if the header ends with `ICI,ON`.
pub open spec fn steps_in_force(v: ExcellonView<Fixed>, i: int, on: bool) -> bool {
    ||| on == starts_incremental(v.header) && forall|k: int|
        0 <= k < i ==> !is_input_mode(#[trigger] v.commands[k])
    ||| exists|k: int|
        0 <= k < i && (#[trigger] v.commands[k] matches Ok(
            Command::Geometric(GeometricCode::InputMode(mode)),
        ) && on == (mode == InputMode::Incremental)) && forall|q: int|
            k < q < i ==> !is_input_mode(#[trigger] v.commands[q])
}

pub open spec fn is_selection(e: EntryView<Fixed>) -> bool {
    e matches Ok(Command::Tool(_))
}

/// `r` is half the diameter of tool `id`, in millimetres; a tool that the layer does not have is
/// a point.
pub open spec fn is_radius(v: ExcellonView<Fixed>, id: u32, r: Fixed) -> bool {
    ||| r.raw == 0 && forall|e: int| 0 <= e < v.tools.len() ==> (#[trigger] v.tools[e]).0 != id
    ||| exists|e: int, d: Fixed|
        0 <= e < v.tools.len() && v.tools[e].0 == id && #[trigger] is_mm(
            v.tools[e].1,
            v.unit.unit,
            d,
        ) && -1 <= 2 * r.raw - d.raw <= 1
}

/// The tool in front of entry `i` is the last one that is selected; before any is, it is a point.
pub open spec fn radius_in_force(v: ExcellonView<Fixed>, i: int, r: Fixed) -> bool {
    ||| r.raw == 0 && forall|k: int| 0 <= k < i ==> !is_selection(#[trigger] v.commands[k])
    ||| exists|k: int|
        0 <= k < i && (#[trigger] v.commands[k] matches Ok(Command::Tool(id)) && is_radius(
            v,
            id,
            r,
        )) && forall|q: int| k < q < i ==> !is_selection(#[trigger] v.commands[q])
}

proof fn lemma_radius(v: ExcellonView<Fixed>, id: u32)
    requires
        table::ordered(v.tools),
        forall|e: int| 0 <= e < v.tools.len() ==> edits::modest_length((#[trigger] v.tools[e]).1),
    ensures
        is_radius(
            v,
            id,
            excellon_format::corners::tool_radius(v.tools, id, v.unit.unit),
        ),
{
    table::lemma_lookup(v.tools, id);
    match table::lookup(v.tools, id) {
        Some(d) => {
            let e = choose|e: int| 0 <= e < v.tools.len() && #[trigger] v.tools[e] == (id, d);
            lemma_mm(d, v.unit.unit);
            let mm = Fixed::to_mm_spec(d, v.unit.unit);
            texts::lemma_half(mm);
            assert(is_mm(v.tools[e].1, v.unit.unit, mm));
        },
        None => {},
    }
}

proof fn lemma_steps_step(v: ExcellonView<Fixed>, i: int, before: bool, on: bool)
    requires
        0 < i <= v.commands.len(),
        steps_in_force(v, i - 1, before),
        match v.commands[i - 1] {
            Ok(Command::Geometric(GeometricCode::InputMode(mode))) => on == (mode
                == InputMode::Incremental),
            _ => on == before,
        },
    ensures
        steps_in_force(v, i, on),
{
    let s = v.commands;
    if is_input_mode(s[i - 1]) {
        assert(s[i - 1] matches Ok(Command::Geometric(GeometricCode::InputMode(mode))) && on == (
        mode == InputMode::Incremental));
    } else if exists|k: int| 0 <= k < i - 1 && is_input_mode(#[trigger] s[k]) {
        let k = choose|k: int|
            0 <= k < i - 1 && (#[trigger] s[k] matches Ok(
                Command::Geometric(GeometricCode::InputMode(mode)),
            ) && before == (mode == InputMode::Incremental)) && forall|q: int|
                k < q < i - 1 ==> !is_input_mode(#[trigger] s[q]);
        assert forall|q: int| k < q < i implies !is_input_mode(#[trigger] s[q]) by {}
        assert(is_input_mode(s[k]));
    }
}

proof fn lemma_radius_step(v: ExcellonView<Fixed>, i: int, before: Fixed, r: Fixed)
    requires
        0 < i <= v.commands.len(),
        table::ordered(v.tools),
        forall|e: int| 0 <= e < v.tools.len() ==> edits::modest_length((#[trigger] v.tools[e]).1),
        radius_in_force(v, i - 1, before),
        match v.commands[i - 1] {
            Ok(Command::Tool(id)) => r == excellon_format::corners::tool_radius(
                v.tools,
                id,
                v.unit.unit,
            ),
            _ => r == before,
        },
    ensures
        radius_in_force(v, i, r),
{
    let s = v.commands;
    match s[i - 1] {
        Ok(Command::Tool(id)) => {
            lemma_radius(v, id);
            assert(s[i - 1] matches Ok(Command::Tool(id)) && is_radius(v, id, r));
        },
        _ => {
            if exists|k: int| 0 <= k < i - 1 && is_selection(#[trigger] s[k]) {
                let k = choose|k: int|
                    0 <= k < i - 1 && (#[trigger] s[k] matches Ok(Command::Tool(id)) && is_radius(
                        v,
                        id,
                        before,
                    )) && forall|q: int| k < q < i - 1 ==> !is_selection(#[trigger] s[q]);
                assert forall|q: int| k < q < i implies !is_selection(#[trigger] s[q]) by {}
                assert(is_selection(s[k]));
            }
        },
    }
}

/// The tool and the way to read coordinates in front of entry `i` of a drill layer.
pub proof fn law_plot(v: ExcellonView<Fixed>, i: int)
    requires
        0 <= i <= v.commands.len(),
        table::ordered(v.tools),
        forall|e: int| 0 <= e < v.tools.len() ==> edits::modest_length((#[trigger] v.tools[e]).1),
    ensures
        steps_in_force(v, i, boxes::plot_before(v, i).incremental),
        radius_in_force(v, i, boxes::plot_before(v, i).radius),
    decreases i,
{
    if i > 0 {
        law_plot(v, i - 1);
        boxes::lemma_plot_step(v, i - 1);
        let p = boxes::plot_before(v, i - 1);
        let q = boxes::plot_before(v, i);
        lemma_steps_step(v, i, p.incremental, q.incremental);
        lemma_radius_step(v, i, p.radius, q.radius);
    } else {
        assert(v.commands.take(0).len() == 0);
        lemma_starts_incremental(v.header);
    }
}

/// Where a coordinate leads from `from` on one axis: to the coordinate, in millimetres, or by it
/// where coordinates are steps; a missing one leads nowhere.
pub open spec fn leads(from: Fixed, v: Option<Fixed>, unit: Unit, steps: bool, to: Fixed) -> bool {
    match v {
        Some(v) => exists|mm: Fixed| #[trigger]
            is_mm(v, unit, mm) && to.raw == if steps {
                from.raw + mm.raw
            } else {
                mm.raw as int
            },
        None => to == from,
    }
}

proof fn lemma_leads(from: Fixed, v: Option<Fixed>, unit: Unit)
    requires
        modest_axis(v),
        fixed::abs(from.raw as int) <= 1_000_000_000_000_000_000,
    ensures
        leads(
            from,
            v,
            unit,
            true,
            from.plus_spec(excellon_format::corners::in_mm(v, unit, Fixed::zero_spec())),
        ),
        leads(from, v, unit, false, excellon_format::corners::in_mm(v, unit, from)),
{
    match v {
        Some(x) => {
            lemma_mm(x, unit);
            assert(is_mm(x, unit, Fixed::to_mm_spec(x, unit)));
        },
        None => {},
    }
}

/// Where entry `i` leads to: a coordinate to its point, a slot to its end, which is never a step.
/// The program begins at the origin, and nothing else moves it.
pub proof fn law_plot_leads(v: ExcellonView<Fixed>, i: int)
    requires
        0 <= i < v.commands.len(),
        v.commands[i] matches Ok(c) ==> modest(c),
        fixed::abs(boxes::plot_before(v, i).current.x.raw as int) <= 1_000_000_000_000_000_000,
        fixed::abs(boxes::plot_before(v, i).current.y.raw as int) <= 1_000_000_000_000_000_000,
    ensures
        boxes::plot_before(v, 0).current == Pos::<Fixed>::origin(),
        ({
            let p = boxes::plot_before(v, i);
            let from = p.current;
            let to = boxes::plot_before(v, i + 1).current;
            match v.commands[i] {
                Ok(Command::Coordinate(x, y, fmt)) => leads(
                    from.x,
                    x,
                    fmt.unit,
                    p.incremental,
                    to.x,
                ) && leads(from.y, y, fmt.unit, p.incremental, to.y) && boxes::drilled(
                    p,
                    v.commands[i],
                ) == seq![boxes::square(to, p.radius)],
                Ok(Command::Slot { from_x, from_y, to_x, to_y, fmt }) => leads(
                    from.x,
                    to_x,
                    fmt.unit,
                    false,
                    to.x,
                ) && leads(from.y, to_y, fmt.unit, false, to.y) && exists|a: Pos<Fixed>|
                    leads(from.x, from_x, fmt.unit, false, a.x) && leads(
                        from.y,
                        from_y,
                        fmt.unit,
                        false,
                        a.y,
                    ) && boxes::drilled(p, v.commands[i]) == seq![
                        #[trigger] boxes::square(a, p.radius),
                        boxes::square(to, p.radius),
                    ],
                _ => to == from && boxes::drilled(p, v.commands[i]).len() == 0,
            }
        }),
{
    assert(v.commands.take(0).len() == 0);
    boxes::lemma_plot_step(v, i);
    let p = boxes::plot_before(v, i);
    let from = p.current;
    match v.commands[i] {
        Ok(Command::Coordinate(x, y, fmt)) => {
            lemma_leads(from.x, x, fmt.unit);
            lemma_leads(from.y, y, fmt.unit);
        },
        Ok(Command::Slot { from_x, from_y, to_x, to_y, fmt }) => {
            lemma_leads(from.x, from_x, fmt.unit);
            lemma_leads(from.y, from_y, fmt.unit);
            lemma_leads(from.x, to_x, fmt.unit);
            lemma_leads(from.y, to_y, fmt.unit);
            let a = Pos {
                x: excellon_format::corners::in_mm(from_x, fmt.unit, from.x),
                y: excellon_format::corners::in_mm(from_y, fmt.unit, from.y),
            };
            let d = boxes::drilled(p, v.commands[i]);
            assert(d[0] == boxes::square(a, p.radius));
        },
        _ => {},
    }
}

/// A hole of entry `k` reaches exactly to `e` on that side.
pub open spec fn hole_reaches(
    v: ExcellonView<Fixed>,
    k: int,
    j: int,
    across: bool,
    high: bool,
    e: Fixed,
) -> bool {
    let d = boxes::drilled(boxes::plot_before(v, k), v.commands[k]);
    0 <= j < d.len() && drawings::edge(d[j], across, high) == e
}

proof fn lemma_hole_step(
    p: Plot<Fixed>,
    e: EntryView<Fixed>,
    tools: Seq<(u32, Fixed)>,
    unit: Unit,
    across: bool,
    high: bool,
) -> (j: int)
    ensures
        ({
            let before = drawings::edge(p.corners, across, high);
            let after = drawings::edge(p.after(e, tools, unit).corners, across, high);
            let d = boxes::drilled(p, e);
            after == before || (0 <= j < d.len() && drawings::edge(d[j], across, high) == after)
        }),
{
    let d = boxes::drilled(p, e);
    let after = drawings::edge(p.after(e, tools, unit).corners, across, high);
    if d.len() > 1 && drawings::edge(d[1], across, high) == after {
        1
    } else {
        0
    }
}

proof fn lemma_hole_reached(v: ExcellonView<Fixed>, i: int, across: bool, high: bool)
    requires
        0 <= i <= v.commands.len(),
    ensures
        ({
            let e = drawings::edge(boxes::plot_before(v, i).corners, across, high);
            drawings::is_empty_edge(e, high) || exists|k: int, j: int|
                0 <= k < i && #[trigger] hole_reaches(v, k, j, across, high, e)
        }),
    decreases i,
{
    if i > 0 {
        lemma_hole_reached(v, i - 1, across, high);
        boxes::lemma_plot_step(v, i - 1);
        let p = boxes::plot_before(v, i - 1);
        let j = lemma_hole_step(p, v.commands[i - 1], v.tools, v.unit.unit, across, high);
        let before = drawings::edge(p.corners, across, high);
        let e = drawings::edge(boxes::plot_before(v, i).corners, across, high);
        if e != before {
            assert(hole_reaches(v, i - 1, j, across, high, e));
        } else if !drawings::is_empty_edge(e, high) {
            let (k, j) = choose|k: int, j: int|
                0 <= k < i - 1 && #[trigger] hole_reaches(v, k, j, across, high, before);
            assert(hole_reaches(v, k, j, across, high, e));
        }
    } else {
        assert(v.commands.take(0).len() == 0);
    }
}

/// The bounding box of a drill layer is no larger than its holes: some hole reaches exactly to each
/// of its sides.
pub proof fn law_drill_box_reached(v: ExcellonView<Fixed>, across: bool, high: bool)
    ensures
        ({
            let e = drawings::edge(excellon_format::corners::layer_corners(v), across, high);
            drawings::is_empty_edge(e, high) || exists|k: int, j: int|
                0 <= k < v.commands.len() && #[trigger] hole_reaches(v, k, j, across, high, e)
        }),
{
    lemma_hole_reached(v, v.commands.len() as int, across, high);
    assert(v.commands.take(v.commands.len() as int) =~= v.commands);
}

} // verus!
