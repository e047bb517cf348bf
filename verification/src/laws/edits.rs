//! What moving and scaling do to each coordinate of an RS-274X layer.
use crate::fixed;
use crate::fixed::{Fixed, ONE};
use crate::gerber;
use crate::gerber::GerberView;
use crate::gerber_types::{
    Command, CommandView, CoordinateFormat, CoordinateNumber, CoordinateOffset, Coordinates, DCode,
    FunctionCode, Operation, Unit,
};
use crate::scalar::Scalar;
use crate::unit_able::UnitAble;
use crate::{LayerScale, LayerTransform, Pos};
use vstd::prelude::*;

verus! {

/// Two coordinates that are both missing, or both there and related by `r`.
pub open spec fn axes_related(
    a: Option<CoordinateNumber>,
    b: Option<CoordinateNumber>,
    r: spec_fn(int, int) -> bool,
) -> bool {
    match (a, b) {
        (Some(a), Some(b)) => r(a.nano as int, b.nano as int),
        (None, None) => true,
        _ => false,
    }
}

pub open spec fn points_related(
    a: Option<Coordinates>,
    b: Option<Coordinates>,
    x: spec_fn(int, int) -> bool,
    y: spec_fn(int, int) -> bool,
) -> bool {
    match (a, b) {
        (Some(a), Some(b)) => axes_related(a.x, b.x, x) && axes_related(a.y, b.y, y),
        (None, None) => true,
        _ => false,
    }
}

pub open spec fn offsets_related(
    a: Option<CoordinateOffset>,
    b: Option<CoordinateOffset>,
    x: spec_fn(int, int) -> bool,
    y: spec_fn(int, int) -> bool,
) -> bool {
    match (a, b) {
        (Some(a), Some(b)) => axes_related(a.x, b.x, x) && axes_related(a.y, b.y, y),
        (None, None) => true,
        _ => false,
    }
}

/// `d` is the operation `c` with other points: a move stays a move, a flash a flash and a line a
/// line, the points are related by `x` and `y`, and the offsets of arcs by `i` and `j`. A command
/// that is no operation stays as it is.
pub open spec fn commands_related(
    c: CommandView<Fixed>,
    d: CommandView<Fixed>,
    x: spec_fn(int, int) -> bool,
    y: spec_fn(int, int) -> bool,
    i: spec_fn(int, int) -> bool,
    j: spec_fn(int, int) -> bool,
) -> bool {
    match c {
        Command::FunctionCode(FunctionCode::DCode(DCode::Operation(op))) => {
            d matches Command::FunctionCode(FunctionCode::DCode(DCode::Operation(q))) && match (
                op,
                q,
            ) {
                (Operation::Move(a), Operation::Move(b)) => points_related(a, b, x, y),
                (Operation::Flash(a), Operation::Flash(b)) => points_related(a, b, x, y),
                (Operation::Interpolate(a, o), Operation::Interpolate(b, u)) => points_related(
                    a,
                    b,
                    x,
                    y,
                ) && offsets_related(o, u, i, j),
                _ => false,
            }
        },
        _ => d == c,
    }
}

/// The smallest coordinate, a millionth of the unit, in billionths of a millimetre. An inch has
/// 25.4 mm.
pub open spec fn step(unit: Unit) -> int {
    match unit {
        Unit::Millimeters => 1_000,
        Unit::Inches => 25_400,
    }
}

/// `b` is `a` and `d` more, to the smallest coordinate.
pub open spec fn more_by(d: int, unit: Unit) -> spec_fn(int, int) -> bool {
    |a: int, b: int|
        -(step(unit) + 100) < step(unit) * b - (step(unit) * a + d) < step(unit) + 100
}

/// `b` is `a` times `f`, to the smallest coordinate.
pub open spec fn times_by(f: int) -> spec_fn(int, int) -> bool {
    |a: int, b: int| -1_001_000_000 < 1_000_000_000 * b - a * f < 1_001_000_000
}

pub open spec fn unchanged() -> spec_fn(int, int) -> bool {
    |a: int, b: int| a == b
}

/// The coordinate is at most a million millimetres or inches.
pub open spec fn modest_axis(v: Option<CoordinateNumber>) -> bool {
    v matches Some(v) ==> -1_000_000_000_000 <= v.nano <= 1_000_000_000_000
}

pub open spec fn modest(c: CommandView<Fixed>) -> bool {
    c matches Command::FunctionCode(FunctionCode::DCode(DCode::Operation(op))) ==> {
        let (p, o) = match op {
            Operation::Move(p) => (p, None),
            Operation::Flash(p) => (p, None),
            Operation::Interpolate(p, o) => (p, o),
        };
        &&& p matches Some(p) ==> modest_axis(p.x) && modest_axis(p.y)
        &&& o matches Some(o) ==> modest_axis(o.x) && modest_axis(o.y)
    }
}

/// At most 100 kilometres.
pub open spec fn modest_length(d: Fixed) -> bool {
    -100_000_000_000_000_000 <= d.raw <= 100_000_000_000_000_000
}

/// At most a thousand.
pub open spec fn modest_factor(f: Fixed) -> bool {
    -1_000_000_000_000 <= f.raw <= 1_000_000_000_000
}

pub proof fn lemma_round_div(n: int, d: int)
    requires
        d > 0,
    ensures
        -d <= 2 * (d * fixed::round_div(n, d) - n) <= d,
{
    let a = fixed::abs(n);
    vstd::arithmetic::div_mod::lemma_fundamental_div_mod(a, d);
    let q = a / d;
    assert(d * (q + 1) == d * q + d) by (nonlinear_arith);
    assert(d * (-q) == -(d * q) && d * (-(q + 1)) == -(d * (q + 1))) by (nonlinear_arith);
    vstd::arithmetic::div_mod::lemma_mod_bound(a, d);
}

proof fn lemma_shifted(v: CoordinateNumber, d: Fixed, unit: Unit)
    requires
        modest_axis(Some(v)),
        modest_length(d),
    ensures
        axes_related(
            Some(v),
            gerber::edit::shifted(Some(v), d, unit),
            more_by(d.raw as int, unit),
        ),
{
    let a = Fixed::from_nano_spec(v.nano);
    assert(a.raw == v.nano * 1000);
    match unit {
        Unit::Millimeters => {},
        Unit::Inches => {
            let inch = crate::unit_able::inch::<Fixed>();
            assert(inch.raw == 25_400_000_000);
            let m = a.times_spec(inch);
            lemma_round_div(a.raw * inch.raw, ONE as int);
            assert(a.raw * inch.raw == v.nano * 25_400_000_000_000) by (nonlinear_arith)
                requires
                    a.raw == v.nano * 1000,
                    inch.raw == 25_400_000_000,
            ;
            assert(m.raw == v.nano * 25_400);
            let s = m.plus_spec(d);
            assert(s.raw == v.nano * 25_400 + d.raw);
            lemma_round_div(s.raw * ONE, inch.raw as int);
        },
    }
}

pub proof fn lemma_moved(c: CommandView<Fixed>, by: Pos<Fixed>, unit: Unit)
    requires
        modest(c),
        modest_length(by.x),
        modest_length(by.y),
    ensures
        commands_related(
            c,
            gerber::edit::moved(c, by, unit),
            more_by(by.x.raw as int, unit),
            more_by(by.y.raw as int, unit),
            unchanged(),
            unchanged(),
        ),
{
    match c {
        Command::FunctionCode(FunctionCode::DCode(DCode::Operation(op))) => {
            let p = match op {
                Operation::Move(p) => p,
                Operation::Flash(p) => p,
                Operation::Interpolate(p, _) => p,
            };
            if let Some(p) = p {
                if let Some(x) = p.x {
                    lemma_shifted(x, by.x, unit);
                }
                if let Some(y) = p.y {
                    lemma_shifted(y, by.y, unit);
                }
            }
        },
        _ => {},
    }
}

/// Moving a layer adds the move to every coordinate, whatever its unit, and changes nothing else.
pub proof fn law_layer_moved(v: GerberView<Fixed>, by: Pos<Fixed>)
    requires
        forall|i: int| 0 <= i < v.commands.len() ==> modest(#[trigger] v.commands[i]),
        modest_length(by.x),
        modest_length(by.y),
    ensures
        ({
            let w = gerber::GerberLayerData::<Fixed>::transformed(v, by);
            &&& w.commands.len() == v.commands.len()
            &&& forall|i: int|
                0 <= i < v.commands.len() ==> commands_related(
                    #[trigger] v.commands[i],
                    w.commands[i],
                    more_by(by.x.raw as int, v.unit),
                    more_by(by.y.raw as int, v.unit),
                    unchanged(),
                    unchanged(),
                )
            &&& w == GerberView { commands: w.commands, ..v }
        }),
{
    assert forall|i: int| 0 <= i < v.commands.len() implies commands_related(
        #[trigger] v.commands[i],
        gerber::edit::moved_commands(v.commands, by, v.unit)[i],
        more_by(by.x.raw as int, v.unit),
        more_by(by.y.raw as int, v.unit),
        unchanged(),
        unchanged(),
    ) by {
        lemma_moved(v.commands[i], by, v.unit);
    }
}

proof fn lemma_scaled_axis(v: CoordinateNumber, f: Fixed)
    requires
        modest_axis(Some(v)),
        modest_factor(f),
    ensures
        axes_related(
            Some(v),
            gerber::edit::scaled_axis(Some(v), f),
            times_by(f.raw as int),
        ),
{
    let a = Fixed::from_nano_spec(v.nano);
    assert(a.raw == v.nano * 1000);
    let n = a.raw * f.raw;
    assert(n == 1000 * (v.nano * f.raw)) by (nonlinear_arith)
        requires
            n == a.raw * f.raw,
            a.raw == v.nano * 1000,
    ;
    assert(-1_000_000_000_000_000_000_000_000 <= v.nano * f.raw
        <= 1_000_000_000_000_000_000_000_000) by (nonlinear_arith)
        requires
            -1_000_000_000_000 <= v.nano <= 1_000_000_000_000,
            -1_000_000_000_000 <= f.raw <= 1_000_000_000_000,
    ;
    lemma_round_div(n, ONE as int);
    let p = fixed::round_div(n, ONE as int);
    assert(a.times_spec(f).raw == p);
}

pub proof fn lemma_scaled(c: CommandView<Fixed>, format: CoordinateFormat, x: Fixed, y: Fixed)
    requires
        modest(c),
        modest_factor(x),
        modest_factor(y),
    ensures
        commands_related(
            c,
            gerber::edit::scaled_command(c, format, x, y),
            times_by(x.raw as int),
            times_by(y.raw as int),
            times_by(x.raw as int),
            times_by(y.raw as int),
        ),
{
    match c {
        Command::FunctionCode(FunctionCode::DCode(DCode::Operation(op))) => {
            let (p, o) = match op {
                Operation::Move(p) => (p, None),
                Operation::Flash(p) => (p, None),
                Operation::Interpolate(p, o) => (p, o),
            };
            if let Some(p) = p {
                if let Some(v) = p.x {
                    lemma_scaled_axis(v, x);
                }
                if let Some(v) = p.y {
                    lemma_scaled_axis(v, y);
                }
            }
            if let Some(o) = o {
                if let Some(v) = o.x {
                    lemma_scaled_axis(v, x);
                }
                if let Some(v) = o.y {
                    lemma_scaled_axis(v, y);
                }
            }
        },
        _ => {},
    }
}

/// Scaling a layer multiplies every coordinate and every offset by the factor of its axis, and
/// changes nothing else but the format in which they are written, which becomes that of the layer.
pub proof fn law_layer_scaled(v: GerberView<Fixed>, x: Fixed, y: Fixed)
    requires
        forall|i: int| 0 <= i < v.commands.len() ==> modest(#[trigger] v.commands[i]),
        modest_factor(x),
        modest_factor(y),
    ensures
        ({
            let w = gerber::GerberLayerData::<Fixed>::scaled(v, x, y);
            &&& w.commands.len() == v.commands.len()
            &&& forall|i: int|
                0 <= i < v.commands.len() ==> commands_related(
                    #[trigger] v.commands[i],
                    w.commands[i],
                    times_by(x.raw as int),
                    times_by(y.raw as int),
                    times_by(x.raw as int),
                    times_by(y.raw as int),
                ) && written_in(w.commands[i], v.coordinate_format)
            &&& w == GerberView { commands: w.commands, ..v }
        }),
{
    assert forall|i: int| 0 <= i < v.commands.len() implies commands_related(
        #[trigger] v.commands[i],
        gerber::edit::scaled_commands(v.commands, v.coordinate_format, x, y)[i],
        times_by(x.raw as int),
        times_by(y.raw as int),
        times_by(x.raw as int),
        times_by(y.raw as int),
    ) && written_in(
        gerber::edit::scaled_commands(v.commands, v.coordinate_format, x, y)[i],
        v.coordinate_format,
    ) by {
        lemma_scaled(v.commands[i], v.coordinate_format, x, y);
    }
}

/// The coordinates of the command are written in the format.
pub open spec fn written_in(c: CommandView<Fixed>, format: CoordinateFormat) -> bool {
    c matches Command::FunctionCode(FunctionCode::DCode(DCode::Operation(op))) ==> {
        let (p, o) = match op {
            Operation::Move(p) => (p, None),
            Operation::Flash(p) => (p, None),
            Operation::Interpolate(p, o) => (p, o),
        };
        &&& p matches Some(p) ==> p.format == format
        &&& o matches Some(o) ==> o.format == format
    }
}

} // verus!
