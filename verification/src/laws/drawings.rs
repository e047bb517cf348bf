//! Where the pen of an RS-274X layer stands, what it draws with, and how far its drawing reaches.
use crate::fixed::{Fixed, ONE};
use crate::gerber;
use crate::gerber::corners::Pen;
use crate::gerber::GerberView;
use crate::gerber_types::{
    ApertureView, Command, CommandView, CoordinateNumber, CoordinateOffset, DCode, FunctionCode,
    GCode, InterpolationMode, Operation, Unit,
};
use crate::laws::boxes;
use crate::laws::edits;
use crate::laws::glyphs;
use crate::laws::texts;
use crate::scalar::Scalar;
use crate::table;
use crate::Pos;
use vstd::prelude::*;

verus! {

/// `mm` is the coordinate in millimetres, cut to a millionth of one. An inch has 25.4 mm.
pub open spec fn is_mm(v: CoordinateNumber, unit: Unit, mm: Fixed) -> bool {
    &&& -1000 < mm.raw - edits::step(unit) * v.nano < 1000
    &&& unit == Unit::Millimeters ==> mm.raw == 1000 * v.nano
}

/// A coordinate is taken to millimetres by its unit.
pub proof fn law_coordinates_in_mm(v: CoordinateNumber, unit: Unit)
    requires
        edits::modest_axis(Some(v)),
    ensures
        is_mm(v, unit, gerber::corners::in_mm::<Fixed>(v, unit)),
{
    let a = Fixed::from_nano_spec(v.nano);
    assert(a.raw == v.nano * 1000);
    match unit {
        Unit::Millimeters => {},
        Unit::Inches => {
            let inch = crate::unit_able::inch::<Fixed>();
            assert(inch.raw == 25_400_000_000);
            assert(a.raw * inch.raw == v.nano * 25_400_000_000_000) by (nonlinear_arith)
                requires
                    a.raw == v.nano * 1000,
                    inch.raw == 25_400_000_000,
            ;
            edits::lemma_round_div(a.raw * inch.raw, ONE as int);
            assert(a.times_spec(inch).raw == v.nano * 25_400);
        },
    }
}

/// The size of an aperture across or up; an outline that is not a circle, a rectangle or an obround
/// has none.
pub open spec fn extent(a: ApertureView<Fixed>, across: bool) -> int {
    match a {
        ApertureView::Circle(c) => c.diameter.raw as int,
        ApertureView::Rectangle(r) => if across {
            r.x.raw as int
        } else {
            r.y.raw as int
        },
        ApertureView::Obround(r) => if across {
            r.x.raw as int
        } else {
            r.y.raw as int
        },
        _ => 0,
    }
}

/// The box of a tool reaches half of its size to each side; a tool of less than a tenth of a
/// millimetre on both axes has none.
pub open spec fn is_half(low: int, high: int, size: int, thin: bool) -> bool {
    &&& low == -high
    &&& if thin {
        high == 0
    } else {
        -1 <= 2 * high - size <= 1
    }
}

pub open spec fn is_tool_box(a: ApertureView<Fixed>, b: (Pos<Fixed>, Pos<Fixed>)) -> bool {
    let thin = extent(a, true) < 100_000_000 && extent(a, false) < 100_000_000;
    &&& is_half(b.0.x.raw as int, b.1.x.raw as int, extent(a, true), thin)
    &&& is_half(b.0.y.raw as int, b.1.y.raw as int, extent(a, false), thin)
}

/// The box of a tool.
pub proof fn law_tool_box(a: ApertureView<Fixed>)
    ensures
        is_tool_box(a, gerber::corners::tool_box(a)),
{
    assert(Fixed::ratio_spec(1, 10).raw == 100_000_000);
    texts::lemma_half(Fixed { raw: extent(a, true) as i64 });
    texts::lemma_half(Fixed { raw: extent(a, false) as i64 });
}

pub open spec fn is_mode(c: CommandView<Fixed>) -> bool {
    c matches Command::FunctionCode(FunctionCode::GCode(GCode::InterpolationMode(_)))
}

/// The way to interpolate in front of command `i` is that of the last command that sets one; a
/// drawing begins with straight lines.
pub open spec fn mode_in_force(s: Seq<CommandView<Fixed>>, i: int, mode: InterpolationMode) -> bool {
    ||| mode == InterpolationMode::Linear && forall|k: int| 0 <= k < i ==> !is_mode(#[trigger] s[k])
    ||| exists|k: int|
        0 <= k < i && (#[trigger] s[k] matches Command::FunctionCode(
            FunctionCode::GCode(GCode::InterpolationMode(m)),
        ) && m == mode) && forall|q: int| k < q < i ==> !is_mode(#[trigger] s[q])
}

/// The pen stands in front of command `i` at the last coordinate that is given, and at zero before
/// any is.
pub open spec fn place_in_force(
    s: Seq<CommandView<Fixed>>,
    i: int,
    across: bool,
    unit: Unit,
    at: Fixed,
) -> bool {
    ||| at.raw == 0 && forall|k: int| 0 <= k < i ==> glyphs::given(#[trigger] s[k], across) is None
    ||| exists|k: int|
        0 <= k < i && (glyphs::given(#[trigger] s[k], across) matches Some(n) && is_mm(n, unit, at))
            && forall|q: int| k < q < i ==> glyphs::given(#[trigger] s[q], across) is None
}

/// The command selects an aperture that the layer has.
pub open spec fn selects(c: CommandView<Fixed>, apertures: Seq<(i32, ApertureView<Fixed>)>) -> bool {
    c matches Command::FunctionCode(FunctionCode::DCode(DCode::SelectAperture(id))) && exists|
        e: int,
    |
        0 <= e < apertures.len() && (#[trigger] apertures[e]).0 == id
}

pub open spec fn selects_entry(
    c: CommandView<Fixed>,
    apertures: Seq<(i32, ApertureView<Fixed>)>,
    e: int,
) -> bool {
    c matches Command::FunctionCode(FunctionCode::DCode(DCode::SelectAperture(id))) && (0 <= e
        < apertures.len() && apertures[e].0 == id)
}

/// The tool in front of command `i` is that of the last aperture that is selected and that the layer
/// has.
pub open spec fn tool_in_force(
    v: GerberView<Fixed>,
    i: int,
    tool: Option<(Pos<Fixed>, Pos<Fixed>)>,
) -> bool {
    ||| tool is None && forall|k: int|
        0 <= k < i ==> !selects(#[trigger] v.commands[k], v.apertures)
    ||| tool is Some && exists|k: int, e: int|
        0 <= k < i && #[trigger] selects_entry(v.commands[k], v.apertures, e) && is_tool_box(
            v.apertures[e].1,
            tool->0,
        ) && forall|q: int| k < q < i ==> !selects(#[trigger] v.commands[q], v.apertures)
}

/// The pen in front of command `i`: the mode, the place and the tool that the commands before it
/// leave in force.
pub proof fn law_pen(v: GerberView<Fixed>, i: int)
    requires
        0 <= i <= v.commands.len(),
        table::ordered(v.apertures),
        forall|k: int| 0 <= k < v.commands.len() ==> edits::modest(#[trigger] v.commands[k]),
    ensures
        ({
            let p = boxes::pen_before(v, i);
            &&& mode_in_force(v.commands, i, p.mode)
            &&& place_in_force(v.commands, i, true, v.unit, p.current.x)
            &&& place_in_force(v.commands, i, false, v.unit, p.current.y)
            &&& tool_in_force(v, i, p.tool)
        }),
    decreases i,
{
    let s = v.commands;
    if i > 0 {
        law_pen(v, i - 1);
        boxes::lemma_pen_step(v, i - 1);
        let p = boxes::pen_before(v, i - 1);
        let q = boxes::pen_before(v, i);
        let c = s[i - 1];
        assert(edits::modest(c));
        lemma_mode_step(s, i, p.mode, q.mode);
        lemma_place_step(s, i, true, v.unit, p.current.x, q.current.x);
        lemma_place_step(s, i, false, v.unit, p.current.y, q.current.y);
        lemma_tool_step(v, i, p, q);
    } else {
        assert(v.commands.take(0).len() == 0);
    }
}

proof fn lemma_mode_step(
    s: Seq<CommandView<Fixed>>,
    i: int,
    before: InterpolationMode,
    mode: InterpolationMode,
)
    requires
        0 < i <= s.len(),
        mode_in_force(s, i - 1, before),
        match s[i - 1] {
            Command::FunctionCode(FunctionCode::GCode(GCode::InterpolationMode(m))) => mode == m,
            _ => mode == before,
        },
    ensures
        mode_in_force(s, i, mode),
{
    if is_mode(s[i - 1]) {
        assert(s[i - 1] matches Command::FunctionCode(
            FunctionCode::GCode(GCode::InterpolationMode(m)),
        ) && m == mode);
    } else if exists|k: int| 0 <= k < i - 1 && is_mode(#[trigger] s[k]) {
        let k = choose|k: int|
            0 <= k < i - 1 && (#[trigger] s[k] matches Command::FunctionCode(
                FunctionCode::GCode(GCode::InterpolationMode(m)),
            ) && m == before) && forall|q: int| k < q < i - 1 ==> !is_mode(#[trigger] s[q]);
        assert forall|q: int| k < q < i implies !is_mode(#[trigger] s[q]) by {}
        assert(is_mode(s[k]));
    }
}

proof fn lemma_place_step(
    s: Seq<CommandView<Fixed>>,
    i: int,
    across: bool,
    unit: Unit,
    before: Fixed,
    at: Fixed,
)
    requires
        0 < i <= s.len(),
        place_in_force(s, i - 1, across, unit, before),
        edits::modest(s[i - 1]),
        match glyphs::given(s[i - 1], across) {
            Some(n) => at == gerber::corners::in_mm::<Fixed>(n, unit),
            None => at == before,
        },
    ensures
        place_in_force(s, i, across, unit, at),
{
    match glyphs::given(s[i - 1], across) {
        Some(n) => {
            law_coordinates_in_mm(n, unit);
            assert(glyphs::given(s[i - 1], across) == Some(n));
        },
        None => {
            if exists|k: int| 0 <= k < i - 1 && glyphs::given(#[trigger] s[k], across) is Some {
                let k = choose|k: int|
                    0 <= k < i - 1 && (glyphs::given(#[trigger] s[k], across) matches Some(n)
                        && is_mm(n, unit, before)) && forall|q: int|
                        k < q < i - 1 ==> glyphs::given(#[trigger] s[q], across) is None;
                assert forall|q: int| k < q < i implies glyphs::given(#[trigger] s[q], across)
                    is None by {}
                assert(glyphs::given(s[k], across) is Some);
            }
        },
    }
}

proof fn lemma_tool_step(v: GerberView<Fixed>, i: int, p: Pen<Fixed>, q: Pen<Fixed>)
    requires
        0 < i <= v.commands.len(),
        table::ordered(v.apertures),
        tool_in_force(v, i - 1, p.tool),
        q == p.after(v.commands[i - 1], v.apertures, v.unit),
    ensures
        tool_in_force(v, i, q.tool),
{
    let c = v.commands[i - 1];
    if selects(c, v.apertures) {
        let id = c->FunctionCode_0->DCode_0->SelectAperture_0;
        table::lemma_lookup(v.apertures, id);
        let e = choose|e: int| 0 <= e < v.apertures.len() && (#[trigger] v.apertures[e]).0 == id;
        let a = v.apertures[e].1;
        assert(table::lookup(v.apertures, id) == Some(a));
        law_tool_box(a);
        assert(selects_entry(v.commands[i - 1], v.apertures, e));
    } else {
        match c {
            Command::FunctionCode(FunctionCode::DCode(DCode::SelectAperture(id))) => {
                table::lemma_lookup(v.apertures, id);
            },
            _ => {},
        }
        assert(q.tool == p.tool);
        if p.tool is Some {
            let (k, e) = choose|k: int, e: int|
                0 <= k < i - 1 && #[trigger] selects_entry(v.commands[k], v.apertures, e)
                    && is_tool_box(v.apertures[e].1, p.tool->0) && forall|q: int|
                    k < q < i - 1 ==> !selects(#[trigger] v.commands[q], v.apertures);
            assert forall|q: int| k < q < i implies !selects(
                #[trigger] v.commands[q],
                v.apertures,
            ) by {}
            assert(selects_entry(v.commands[k], v.apertures, e));
        }
    }
}

/// One side of a box.
pub open spec fn edge(b: (Pos<Fixed>, Pos<Fixed>), across: bool, high: bool) -> Fixed {
    match (across, high) {
        (true, false) => b.0.x,
        (true, true) => b.1.x,
        (false, false) => b.0.y,
        (false, true) => b.1.y,
    }
}

/// The command reaches exactly to `v` on that side: a move with its point, anything else with its
/// point or its arc and the tool.
pub open spec fn reaches(
    p: Pen<Fixed>,
    c: CommandView<Fixed>,
    unit: Unit,
    across: bool,
    high: bool,
    v: Fixed,
) -> bool {
    let tool = edge(boxes::tool_of(p.tool), across, high);
    match c {
        Command::FunctionCode(FunctionCode::DCode(DCode::Operation(op))) => match op {
            Operation::Move(Some(_)) => glyphs::given(c, across) matches Some(n) && v
                == gerber::corners::in_mm::<Fixed>(n, unit),
            Operation::Flash(Some(_)) => glyphs::given(c, across) matches Some(n) && v
                == gerber::corners::in_mm::<Fixed>(n, unit).plus_spec(tool),
            Operation::Interpolate(Some(a), o) => if p.mode != InterpolationMode::Linear
                && o is Some {
                v == edge(
                    gerber::arc::arc_box(
                        p.current,
                        gerber::corners::arrived(p.current, a, unit),
                        o->0,
                        unit,
                        p.mode,
                    ),
                    across,
                    high,
                ).plus_spec(tool)
            } else {
                glyphs::given(c, across) matches Some(n) && v == gerber::corners::in_mm::<Fixed>(
                    n,
                    unit,
                ).plus_spec(tool)
            },
            _ => false,
        },
        _ => false,
    }
}

/// A box without anything in it ends before it begins.
pub open spec fn is_empty_edge(v: Fixed, high: bool) -> bool {
    v.raw == if high {
        i64::MIN
    } else {
        i64::MAX
    }
}

proof fn lemma_edge_step(
    p: Pen<Fixed>,
    c: CommandView<Fixed>,
    apertures: Seq<(i32, ApertureView<Fixed>)>,
    unit: Unit,
    across: bool,
    high: bool,
)
    ensures
        ({
            let before = edge(p.corners, across, high);
            let v = edge(p.after(c, apertures, unit).corners, across, high);
            v == before || reaches(p, c, unit, across, high, v)
        }),
{
    let z = Pos::<Fixed>::origin();
    assert forall|v: Fixed| #[trigger] v.plus_spec(z.x) == v && v.plus_spec(z.y) == v by {}
}

proof fn lemma_edge_reached(v: GerberView<Fixed>, i: int, across: bool, high: bool)
    requires
        0 <= i <= v.commands.len(),
    ensures
        ({
            let e = edge(boxes::pen_before(v, i).corners, across, high);
            is_empty_edge(e, high) || exists|k: int|
                0 <= k < i && #[trigger] reaches(
                    boxes::pen_before(v, k),
                    v.commands[k],
                    v.unit,
                    across,
                    high,
                    e,
                )
        }),
    decreases i,
{
    if i > 0 {
        lemma_edge_reached(v, i - 1, across, high);
        boxes::lemma_pen_step(v, i - 1);
        let p = boxes::pen_before(v, i - 1);
        lemma_edge_step(p, v.commands[i - 1], v.apertures, v.unit, across, high);
        let before = edge(p.corners, across, high);
        let e = edge(boxes::pen_before(v, i).corners, across, high);
        if e == before && !is_empty_edge(e, high) {
            let k = choose|k: int|
                0 <= k < i - 1 && #[trigger] reaches(
                    boxes::pen_before(v, k),
                    v.commands[k],
                    v.unit,
                    across,
                    high,
                    before,
                );
            assert(reaches(
                boxes::pen_before(v, k),
                v.commands[k],
                v.unit,
                across,
                high,
                e,
            ));
        }
    } else {
        assert(v.commands.take(0).len() == 0);
    }
}

/// The bounding box of a layer is no larger than what the layer draws: some command reaches exactly
/// to each of its sides.
pub proof fn law_box_reached(v: GerberView<Fixed>, across: bool, high: bool)
    ensures
        ({
            let e = edge(gerber::corners::layer_corners(v), across, high);
            is_empty_edge(e, high) || exists|k: int|
                0 <= k < v.commands.len() && #[trigger] reaches(
                    boxes::pen_before(v, k),
                    v.commands[k],
                    v.unit,
                    across,
                    high,
                    e,
                )
        }),
{
    lemma_edge_reached(v, v.commands.len() as int, across, high);
    assert(v.commands.take(v.commands.len() as int) =~= v.commands);
}

/// The offset of the center of an arc is taken to millimetres by its unit; one that is not given is
/// zero. An arc in inches is the arc in millimetres with the same offset.
pub proof fn law_arc_offsets(
    start: Pos<Fixed>,
    end: Pos<Fixed>,
    o: CoordinateOffset,
    p: CoordinateOffset,
    mode: InterpolationMode,
    unit: Unit,
)
    requires
        edits::modest_axis(o.x),
        edits::modest_axis(o.y),
        gerber::arc::offset_axis::<Fixed>(o.x, unit) == gerber::arc::offset_axis::<Fixed>(
            p.x,
            Unit::Millimeters,
        ),
        gerber::arc::offset_axis::<Fixed>(o.y, unit) == gerber::arc::offset_axis::<Fixed>(
            p.y,
            Unit::Millimeters,
        ),
    ensures
        match o.x {
            Some(n) => is_mm(n, unit, gerber::arc::offset_axis::<Fixed>(o.x, unit)),
            None => gerber::arc::offset_axis::<Fixed>(o.x, unit).raw == 0,
        },
        match o.y {
            Some(n) => is_mm(n, unit, gerber::arc::offset_axis::<Fixed>(o.y, unit)),
            None => gerber::arc::offset_axis::<Fixed>(o.y, unit).raw == 0,
        },
        gerber::arc::arc_box(start, end, o, unit, mode) == gerber::arc::arc_box(
            start,
            end,
            p,
            Unit::Millimeters,
            mode,
        ),
{
    reveal(gerber::arc::arc_box);
    if let Some(n) = o.x {
        law_coordinates_in_mm(n, unit);
    }
    if let Some(n) = o.y {
        law_coordinates_in_mm(n, unit);
    }
}

} // verus!
