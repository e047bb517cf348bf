//! What the conversion between millimetres and inches does to each length.
use crate::fixed::{Fixed, ONE};
use crate::gerber;
use crate::gerber::GerberView;
use crate::gerber_types::{
    Aperture, ApertureMacro, ApertureMacroView, ApertureView, Command, CommandView,
    CoordinateFormat, CoordinateMode, CoordinateNumber, DCode, ExtendedCode, FunctionCode,
    MacroContent, MacroContentView, MacroDecimal, Operation, StepAndRepeat, Unit, ZeroOmission,
};
use crate::laws::edits;
use crate::scalar::Scalar;
use crate::unit_able;
use crate::unit_able::UnitAble;
use crate::Size;
use vstd::prelude::*;

verus! {

/// `a`, in the unit, is as long as `b` in millimetres: an inch has 25.4 of them.
pub open spec fn as_long(a: Fixed, b: Fixed, unit: Unit) -> bool {
    match unit {
        Unit::Millimeters => a == b,
        Unit::Inches => -127 <= 254 * a.raw - 10 * b.raw <= 127,
    }
}

/// A length is taken to millimetres and from millimetres by the length of its unit.
pub proof fn law_lengths_converted(v: Fixed, unit: Unit)
    requires
        edits::modest_length(v),
    ensures
        as_long(v, Fixed::to_mm_spec(v, unit), unit),
        as_long(Fixed::mm_to_unit_spec(v, unit), v, unit),
{
    let inch = crate::unit_able::inch::<Fixed>();
    assert(inch.raw == 25_400_000_000);
    edits::lemma_round_div(v.raw * 25_400_000_000, ONE as int);
    edits::lemma_round_div(v.raw * ONE, 25_400_000_000);
}

/// Sizes are converted on both axes.
pub proof fn law_sizes_converted(s: Size<Fixed>, unit: Unit)
    requires
        edits::modest_length(s.width),
        edits::modest_length(s.height),
    ensures
        ({
            let mm = Size::<Fixed>::to_mm_spec(s, unit);
            let back = Size::<Fixed>::mm_to_unit_spec(s, unit);
            &&& as_long(s.width, mm.width, unit) && as_long(s.height, mm.height, unit)
            &&& as_long(back.width, s.width, unit) && as_long(back.height, s.height, unit)
        }),
{
    law_lengths_converted(s.width, unit);
    law_lengths_converted(s.height, unit);
}

pub open spec fn holes_as_long(a: Option<Fixed>, b: Option<Fixed>, unit: Unit) -> bool {
    match (a, b) {
        (Some(a), Some(b)) => as_long(a, b, unit),
        (None, None) => true,
        _ => false,
    }
}

/// `a`, in the unit, is the aperture `b` in millimetres: of one kind, with every length as long, and
/// the same number of vertices and rotation. A macro is called as it is.
pub open spec fn apertures_as_large(
    a: ApertureView<Fixed>,
    b: ApertureView<Fixed>,
    unit: Unit,
) -> bool {
    match (a, b) {
        (ApertureView::Circle(p), ApertureView::Circle(q)) => as_long(p.diameter, q.diameter, unit)
            && holes_as_long(p.hole_diameter, q.hole_diameter, unit),
        (ApertureView::Rectangle(p), ApertureView::Rectangle(q)) => as_long(p.x, q.x, unit)
            && as_long(p.y, q.y, unit) && holes_as_long(p.hole_diameter, q.hole_diameter, unit),
        (ApertureView::Obround(p), ApertureView::Obround(q)) => as_long(p.x, q.x, unit) && as_long(
            p.y,
            q.y,
            unit,
        ) && holes_as_long(p.hole_diameter, q.hole_diameter, unit),
        (ApertureView::Polygon(p), ApertureView::Polygon(q)) => as_long(
            p.diameter,
            q.diameter,
            unit,
        ) && holes_as_long(p.hole_diameter, q.hole_diameter, unit) && p.vertices == q.vertices
            && p.rotation == q.rotation,
        (ApertureView::Macro(_, _), ApertureView::Macro(_, _)) => a == b,
        _ => false,
    }
}

pub open spec fn modest_hole(h: Option<Fixed>) -> bool {
    h matches Some(h) ==> edits::modest_length(h)
}

pub open spec fn modest_aperture(a: ApertureView<Fixed>) -> bool {
    match a {
        ApertureView::Circle(c) => edits::modest_length(c.diameter) && modest_hole(c.hole_diameter),
        ApertureView::Rectangle(r) => edits::modest_length(r.x) && edits::modest_length(r.y)
            && modest_hole(r.hole_diameter),
        ApertureView::Obround(r) => edits::modest_length(r.x) && edits::modest_length(r.y)
            && modest_hole(r.hole_diameter),
        ApertureView::Polygon(p) => edits::modest_length(p.diameter) && modest_hole(
            p.hole_diameter,
        ),
        ApertureView::Macro(_, _) => true,
    }
}

/// Apertures are converted with all their lengths.
pub proof fn law_apertures_converted(a: ApertureView<Fixed>, unit: Unit)
    requires
        modest_aperture(a),
    ensures
        apertures_as_large(a, <Aperture<Fixed> as UnitAble<Fixed>>::to_mm_spec(a, unit), unit),
        apertures_as_large(<Aperture<Fixed> as UnitAble<Fixed>>::mm_to_unit_spec(a, unit), a, unit),
{
    assert forall|v: Fixed| edits::modest_length(v) implies as_long(
        v,
        #[trigger] Fixed::to_mm_spec(v, unit),
        unit,
    ) by {
        law_lengths_converted(v, unit);
    }
    assert forall|v: Fixed| edits::modest_length(v) implies as_long(
        #[trigger] Fixed::mm_to_unit_spec(v, unit),
        v,
        unit,
    ) by {
        law_lengths_converted(v, unit);
    }
}

/// A value in a macro as long as another; variables and expressions are the same.
pub open spec fn decimals_as_long(
    a: MacroDecimal<Fixed>,
    b: MacroDecimal<Fixed>,
    unit: Unit,
) -> bool {
    match (a, b) {
        (MacroDecimal::Value(a), MacroDecimal::Value(b)) => as_long(a, b, unit),
        _ => a == b,
    }
}

pub open spec fn points_as_far(
    a: (MacroDecimal<Fixed>, MacroDecimal<Fixed>),
    b: (MacroDecimal<Fixed>, MacroDecimal<Fixed>),
    unit: Unit,
) -> bool {
    decimals_as_long(a.0, b.0, unit) && decimals_as_long(a.1, b.1, unit)
}

/// `a`, in the unit, is the part `b` of a macro in millimetres: of one kind, with every length as
/// long, and the same exposure, angles and counts.
pub open spec fn parts_as_large(
    a: MacroContentView<Fixed>,
    b: MacroContentView<Fixed>,
    unit: Unit,
) -> bool {
    match (a, b) {
        (
            MacroContentView::Outline { exposure: e, points: p, angle: g },
            MacroContentView::Outline { exposure: f, points: q, angle: h },
        ) => e == f && g == h && p.len() == q.len() && forall|i: int|
            0 <= i < p.len() ==> points_as_far(#[trigger] p[i], q[i], unit),
        (MacroContentView::Plain(a), MacroContentView::Plain(b)) => match (a, b) {
            (MacroContent::Circle(p), MacroContent::Circle(q)) => p.exposure == q.exposure
                && p.angle == q.angle && decimals_as_long(p.diameter, q.diameter, unit)
                && points_as_far(p.center, q.center, unit),
            (MacroContent::VectorLine(p), MacroContent::VectorLine(q)) => p.exposure == q.exposure
                && p.angle == q.angle && decimals_as_long(p.width, q.width, unit) && points_as_far(
                p.start,
                q.start,
                unit,
            ) && points_as_far(p.end, q.end, unit),
            (MacroContent::CenterLine(p), MacroContent::CenterLine(q)) => p.exposure == q.exposure
                && p.angle == q.angle && points_as_far(p.dimensions, q.dimensions, unit)
                && points_as_far(p.center, q.center, unit),
            (MacroContent::Polygon(p), MacroContent::Polygon(q)) => p.exposure == q.exposure
                && p.angle == q.angle && p.vertices == q.vertices && decimals_as_long(
                p.diameter,
                q.diameter,
                unit,
            ) && points_as_far(p.center, q.center, unit),
            (MacroContent::Moire(p), MacroContent::Moire(q)) => p.angle == q.angle && p.max_rings
                == q.max_rings && points_as_far(p.center, q.center, unit) && decimals_as_long(
                p.diameter,
                q.diameter,
                unit,
            ) && decimals_as_long(p.ring_thickness, q.ring_thickness, unit) && decimals_as_long(
                p.gap,
                q.gap,
                unit,
            ) && decimals_as_long(p.cross_hair_thickness, q.cross_hair_thickness, unit)
                && decimals_as_long(p.cross_hair_length, q.cross_hair_length, unit),
            (MacroContent::Thermal(p), MacroContent::Thermal(q)) => p.angle == q.angle
                && points_as_far(p.center, q.center, unit) && decimals_as_long(
                p.outer_diameter,
                q.outer_diameter,
                unit,
            ) && decimals_as_long(p.inner_diameter, q.inner_diameter, unit) && decimals_as_long(
                p.gap,
                q.gap,
                unit,
            ),
            _ => a == b,
        },
        _ => false,
    }
}

pub open spec fn modest_decimal(d: MacroDecimal<Fixed>) -> bool {
    d matches MacroDecimal::Value(v) ==> edits::modest_length(v)
}

pub open spec fn modest_point(p: (MacroDecimal<Fixed>, MacroDecimal<Fixed>)) -> bool {
    modest_decimal(p.0) && modest_decimal(p.1)
}

pub open spec fn modest_part(m: MacroContentView<Fixed>) -> bool {
    match m {
        MacroContentView::Outline { exposure, points, angle } => forall|i: int|
            0 <= i < points.len() ==> modest_point(#[trigger] points[i]),
        MacroContentView::Plain(m) => match m {
            MacroContent::Circle(c) => modest_decimal(c.diameter) && modest_point(c.center),
            MacroContent::VectorLine(l) => modest_decimal(l.width) && modest_point(l.start)
                && modest_point(l.end),
            MacroContent::CenterLine(l) => modest_point(l.dimensions) && modest_point(l.center),
            MacroContent::Polygon(p) => modest_decimal(p.diameter) && modest_point(p.center),
            MacroContent::Moire(r) => modest_point(r.center) && modest_decimal(r.diameter)
                && modest_decimal(r.ring_thickness) && modest_decimal(r.gap) && modest_decimal(
                r.cross_hair_thickness,
            ) && modest_decimal(r.cross_hair_length),
            MacroContent::Thermal(t) => modest_point(t.center) && modest_decimal(t.outer_diameter)
                && modest_decimal(t.inner_diameter) && modest_decimal(t.gap),
            _ => true,
        },
    }
}

/// Macros are converted part by part, with all their lengths, and keep their names.
pub proof fn law_macros_converted(m: ApertureMacroView<Fixed>, unit: Unit)
    requires
        forall|i: int| 0 <= i < m.content.len() ==> modest_part(#[trigger] m.content[i]),
    ensures
        ({
            let mm = <ApertureMacro<Fixed> as UnitAble<Fixed>>::to_mm_spec(m, unit);
            let back = <ApertureMacro<Fixed> as UnitAble<Fixed>>::mm_to_unit_spec(m, unit);
            &&& mm.name == m.name && mm.content.len() == m.content.len()
            &&& back.name == m.name && back.content.len() == m.content.len()
            &&& forall|i: int|
                0 <= i < m.content.len() ==> parts_as_large(
                    #[trigger] m.content[i],
                    mm.content[i],
                    unit,
                ) && parts_as_large(back.content[i], m.content[i], unit)
        }),
{
    let mm = <ApertureMacro<Fixed> as UnitAble<Fixed>>::to_mm_spec(m, unit);
    let back = <ApertureMacro<Fixed> as UnitAble<Fixed>>::mm_to_unit_spec(m, unit);
    assert forall|i: int| 0 <= i < m.content.len() implies parts_as_large(
        #[trigger] m.content[i],
        mm.content[i],
        unit,
    ) && parts_as_large(back.content[i], m.content[i], unit) by {
        lemma_part_to_mm(m.content[i], unit);
        lemma_part_from_mm(m.content[i], unit);
    }
}

proof fn lemma_part_to_mm(m: MacroContentView<Fixed>, unit: Unit)
    requires
        modest_part(m),
    ensures
        parts_as_large(
            m,
            unit_able::turned_content(m, unit_able::Direction::IntoMillimeters, unit),
            unit,
        ),
{
    assert forall|v: Fixed| edits::modest_length(v) implies as_long(
        v,
        #[trigger] Fixed::to_mm_spec(v, unit),
        unit,
    ) by {
        law_lengths_converted(v, unit);
    }
}

proof fn lemma_part_from_mm(m: MacroContentView<Fixed>, unit: Unit)
    requires
        modest_part(m),
    ensures
        parts_as_large(
            unit_able::turned_content(m, unit_able::Direction::FromMillimeters, unit),
            m,
            unit,
        ),
{
    assert forall|v: Fixed| edits::modest_length(v) implies as_long(
        #[trigger] Fixed::mm_to_unit_spec(v, unit),
        v,
        unit,
    ) by {
        law_lengths_converted(v, unit);
    }
}

pub open spec fn macros_as_large(
    a: ApertureMacroView<Fixed>,
    b: ApertureMacroView<Fixed>,
    unit: Unit,
) -> bool {
    &&& a.name == b.name
    &&& a.content.len() == b.content.len()
    &&& forall|i: int|
        0 <= i < a.content.len() ==> parts_as_large(#[trigger] a.content[i], b.content[i], unit)
}

pub open spec fn modest_macro(m: ApertureMacroView<Fixed>) -> bool {
    forall|i: int| 0 <= i < m.content.len() ==> modest_part(#[trigger] m.content[i])
}

/// `c`, in the unit, is the definition, the macro or the grid `d` in millimetres; any other extended
/// command stays as it is.
pub open spec fn codes_as_large(c: CommandView<Fixed>, d: CommandView<Fixed>, unit: Unit) -> bool {
    match (c, d) {
        (Command::ExtendedCode(e), Command::ExtendedCode(f)) => match (e, f) {
            (ExtendedCode::ApertureDefinition(p), ExtendedCode::ApertureDefinition(q)) => p.code
                == q.code && apertures_as_large(p.aperture, q.aperture, unit),
            (ExtendedCode::ApertureMacro(p), ExtendedCode::ApertureMacro(q)) => macros_as_large(
                p,
                q,
                unit,
            ),
            (ExtendedCode::StepAndRepeat(p), ExtendedCode::StepAndRepeat(q)) => match (p, q) {
                (
                    StepAndRepeat::Open { repeat_x: a, repeat_y: b, distance_x: x, distance_y: y },
                    StepAndRepeat::Open { repeat_x: g, repeat_y: h, distance_x: v, distance_y: w },
                ) => a == g && b == h && as_long(x, v, unit) && as_long(y, w, unit),
                (StepAndRepeat::Close, StepAndRepeat::Close) => true,
                _ => false,
            },
            _ => c == d,
        },
        _ => false,
    }
}

pub open spec fn modest_command(c: CommandView<Fixed>) -> bool {
    match c {
        Command::ExtendedCode(e) => match e {
            ExtendedCode::ApertureDefinition(d) => modest_aperture(d.aperture),
            ExtendedCode::ApertureMacro(m) => modest_macro(m),
            ExtendedCode::StepAndRepeat(
                StepAndRepeat::Open { distance_x, distance_y, .. },
            ) => edits::modest_length(distance_x) && edits::modest_length(distance_y),
            _ => true,
        },
        _ => edits::modest(c),
    }
}

pub open spec fn modest_layer(v: GerberView<Fixed>) -> bool {
    &&& forall|i: int| 0 <= i < v.commands.len() ==> modest_command(#[trigger] v.commands[i])
    &&& forall|i: int| 0 <= i < v.apertures.len() ==> modest_aperture((#[trigger] v.apertures[i]).1)
    &&& forall|i: int| 0 <= i < v.macros.len() ==> modest_macro(#[trigger] v.macros[i])
}

/// The factor that takes a coordinate from one unit to the other: 25.4, or its inverse to nine
/// decimal places.
pub open spec fn factor(to: Unit) -> int {
    match to {
        Unit::Millimeters => 25_400_000_000,
        Unit::Inches => 39_370_079,
    }
}

proof fn lemma_code_converted(c: CommandView<Fixed>, from: Unit)
    requires
        c is ExtendedCode,
        modest_command(c),
    ensures
        from == Unit::Inches ==> codes_as_large(
            c,
            gerber::load::command_in_unit(c, from, Unit::Millimeters),
            Unit::Inches,
        ),
        from == Unit::Millimeters ==> codes_as_large(
            gerber::load::command_in_unit(c, from, Unit::Inches),
            c,
            Unit::Inches,
        ),
{
    match c->ExtendedCode_0 {
        ExtendedCode::ApertureDefinition(d) => {
            lemma_aperture_converted(d.aperture);
        },
        ExtendedCode::ApertureMacro(m) => {
            lemma_macro_converted(m);
        },
        ExtendedCode::StepAndRepeat(s) => {
            if let StepAndRepeat::Open { repeat_x, repeat_y, distance_x, distance_y } = s {
                law_lengths_converted(distance_x, Unit::Inches);
                law_lengths_converted(distance_y, Unit::Inches);
            }
        },
        _ => {},
    }
}

proof fn lemma_aperture_converted(a: ApertureView<Fixed>)
    requires
        modest_aperture(a),
    ensures
        apertures_as_large(
            a,
            unit_able::converted::<Fixed, Aperture<Fixed>>(a, Unit::Inches, Unit::Millimeters),
            Unit::Inches,
        ),
        apertures_as_large(
            unit_able::converted::<Fixed, Aperture<Fixed>>(a, Unit::Millimeters, Unit::Inches),
            a,
            Unit::Inches,
        ),
{
    law_apertures_converted(a, Unit::Inches);
    assert(<Aperture<Fixed> as UnitAble<Fixed>>::to_mm_spec(a, Unit::Millimeters) == a);
    let b = <Aperture<Fixed> as UnitAble<Fixed>>::to_mm_spec(a, Unit::Inches);
    assert(<Aperture<Fixed> as UnitAble<Fixed>>::mm_to_unit_spec(b, Unit::Millimeters) == b);
}

proof fn lemma_part_kept(m: MacroContentView<Fixed>)
    ensures
        unit_able::turned_content(
            m,
            unit_able::Direction::IntoMillimeters,
            Unit::Millimeters,
        ) == m,
        unit_able::turned_content(
            m,
            unit_able::Direction::FromMillimeters,
            Unit::Millimeters,
        ) == m,
{
    if let MacroContentView::Outline { exposure, points, angle } = m {
        let a = unit_able::turned_content(
            m,
            unit_able::Direction::IntoMillimeters,
            Unit::Millimeters,
        );
        assert(a->points =~= points);
        let b = unit_able::turned_content(
            m,
            unit_able::Direction::FromMillimeters,
            Unit::Millimeters,
        );
        assert(b->points =~= points);
    }
}

proof fn lemma_macro_converted(m: ApertureMacroView<Fixed>)
    requires
        modest_macro(m),
    ensures
        macros_as_large(
            m,
            unit_able::converted::<Fixed, ApertureMacro<Fixed>>(
                m,
                Unit::Inches,
                Unit::Millimeters,
            ),
            Unit::Inches,
        ),
        macros_as_large(
            unit_able::converted::<Fixed, ApertureMacro<Fixed>>(
                m,
                Unit::Millimeters,
                Unit::Inches,
            ),
            m,
            Unit::Inches,
        ),
{
    law_macros_converted(m, Unit::Inches);
    let same = <ApertureMacro<Fixed> as UnitAble<Fixed>>::to_mm_spec(m, Unit::Millimeters);
    assert forall|i: int| 0 <= i < m.content.len() implies same.content[i] == m.content[i] by {
        lemma_part_kept(m.content[i]);
    }
    assert(same.content =~= m.content);
    let b = <ApertureMacro<Fixed> as UnitAble<Fixed>>::to_mm_spec(m, Unit::Inches);
    let c = <ApertureMacro<Fixed> as UnitAble<Fixed>>::mm_to_unit_spec(b, Unit::Millimeters);
    assert forall|i: int| 0 <= i < b.content.len() implies c.content[i] == b.content[i] by {
        lemma_part_kept(b.content[i]);
    }
    assert(c.content =~= b.content);
}

/// The two layers describe one thing, one in inches and the other in millimetres, but for the
/// coordinates of the drawing: apertures, macros, definitions and grids are as large.
pub open spec fn layers_as_large(inches: GerberView<Fixed>, mm: GerberView<Fixed>) -> bool {
    &&& inches.apertures.len() == mm.apertures.len()
    &&& forall|i: int|
        0 <= i < inches.apertures.len() ==> (#[trigger] inches.apertures[i]).0
            == mm.apertures[i].0 && apertures_as_large(
            inches.apertures[i].1,
            mm.apertures[i].1,
            Unit::Inches,
        )
    &&& inches.macros.len() == mm.macros.len()
    &&& forall|i: int|
        0 <= i < inches.macros.len() ==> macros_as_large(
            #[trigger] inches.macros[i],
            mm.macros[i],
            Unit::Inches,
        )
    &&& inches.commands.len() == mm.commands.len()
    &&& forall|i: int|
        0 <= i < inches.commands.len() ==> (#[trigger] inches.commands[i] is ExtendedCode
            <==> mm.commands[i] is ExtendedCode) && (inches.commands[i] is ExtendedCode
            ==> codes_as_large(inches.commands[i], mm.commands[i], Unit::Inches))
}

/// Four digits before the point, six behind it, leading zeros left out, no steps.
pub open spec fn is_4_6(f: CoordinateFormat) -> bool {
    &&& f.integer == 4
    &&& f.decimal == 6
    &&& f.zero_omission == ZeroOmission::Leading
    &&& f.coordinate_mode == CoordinateMode::Absolute
}

/// A layer in the other unit: every coordinate is multiplied by 25.4 or divided by it and written in
/// the format 4.6, everything else is as large as it was, and the type and the errors stay. In its
/// own unit a layer stays as it is.
pub proof fn law_layer_in_unit(v: GerberView<Fixed>, unit: Unit)
    requires
        modest_layer(v),
    ensures
        ({
            let w = gerber::load::layer_in_unit(v, unit);
            &&& v.unit == unit ==> w == v
            &&& v.unit != unit ==> {
                &&& w.unit == unit
                &&& is_4_6(w.coordinate_format)
                &&& w.layer_type == v.layer_type
                &&& w.parse_errors == v.parse_errors
                &&& unit == Unit::Millimeters ==> layers_as_large(v, w)
                &&& unit == Unit::Inches ==> layers_as_large(w, v)
                &&& forall|i: int|
                    0 <= i < v.commands.len() && !(#[trigger] v.commands[i] is ExtendedCode)
                        ==> edits::commands_related(
                        v.commands[i],
                        w.commands[i],
                        edits::times_by(factor(unit)),
                        edits::times_by(factor(unit)),
                        edits::times_by(factor(unit)),
                        edits::times_by(factor(unit)),
                    ) && edits::written_in(w.commands[i], w.coordinate_format)
            }
        }),
{
    let w = gerber::load::layer_in_unit(v, unit);
    if v.unit != unit {
        let f = gerber::load::unit_factor::<Fixed>(unit);
        lemma_factor(unit);
        assert forall|i: int|
            0 <= i < v.commands.len() && !(#[trigger] v.commands[i] is ExtendedCode) implies (
        edits::commands_related(
            v.commands[i],
            w.commands[i],
            edits::times_by(factor(unit)),
            edits::times_by(factor(unit)),
            edits::times_by(factor(unit)),
            edits::times_by(factor(unit)),
        ) && edits::written_in(w.commands[i], w.coordinate_format)) by {
            assert(modest_command(v.commands[i]));
            edits::lemma_scaled(v.commands[i], gerber::format_4_6(), f, f);
        }
        assert forall|i: int| 0 <= i < v.commands.len() && #[trigger] v.commands[i]
            is ExtendedCode implies (unit == Unit::Millimeters ==> codes_as_large(
            v.commands[i],
            w.commands[i],
            Unit::Inches,
        )) && (unit == Unit::Inches ==> codes_as_large(
            w.commands[i],
            v.commands[i],
            Unit::Inches,
        )) by {
            assert(modest_command(v.commands[i]));
            lemma_code_converted(v.commands[i], v.unit);
        }
        assert forall|i: int| 0 <= i < v.apertures.len() implies (unit == Unit::Millimeters
            ==> apertures_as_large(
            (#[trigger] v.apertures[i]).1,
            w.apertures[i].1,
            Unit::Inches,
        )) && (unit == Unit::Inches ==> apertures_as_large(
            w.apertures[i].1,
            v.apertures[i].1,
            Unit::Inches,
        )) by {
            lemma_aperture_converted(v.apertures[i].1);
        }
        assert forall|i: int| 0 <= i < v.macros.len() implies (unit == Unit::Millimeters
            ==> macros_as_large(#[trigger] v.macros[i], w.macros[i], Unit::Inches)) && (unit
            == Unit::Inches ==> macros_as_large(w.macros[i], v.macros[i], Unit::Inches)) by {
            lemma_macro_converted(v.macros[i]);
        }
        lemma_layers_as_large(v, w, unit);
    }
}

proof fn lemma_factor(unit: Unit)
    ensures
        gerber::load::unit_factor::<Fixed>(unit).raw == factor(unit),
{
    let one = Fixed::ratio_spec(1, 1);
    assert(one.raw == 1_000_000_000);
    let inch = Fixed::ratio_spec(254, 10);
    assert(inch.raw == 25_400_000_000);
    edits::lemma_round_div(1_000_000_000 * ONE, 25_400_000_000);
}

proof fn lemma_layers_as_large(v: GerberView<Fixed>, w: GerberView<Fixed>, unit: Unit)
    requires
        v.unit != unit,
        w == gerber::load::layer_in_unit(v, unit),
        forall|i: int|
            0 <= i < v.commands.len() && #[trigger] v.commands[i] is ExtendedCode ==> (unit
                == Unit::Millimeters ==> codes_as_large(
                v.commands[i],
                w.commands[i],
                Unit::Inches,
            )) && (unit == Unit::Inches ==> codes_as_large(
                w.commands[i],
                v.commands[i],
                Unit::Inches,
            )),
        forall|i: int|
            0 <= i < v.apertures.len() ==> (unit == Unit::Millimeters ==> apertures_as_large(
                (#[trigger] v.apertures[i]).1,
                w.apertures[i].1,
                Unit::Inches,
            )) && (unit == Unit::Inches ==> apertures_as_large(
                w.apertures[i].1,
                v.apertures[i].1,
                Unit::Inches,
            )),
        forall|i: int|
            0 <= i < v.macros.len() ==> (unit == Unit::Millimeters ==> macros_as_large(
                #[trigger] v.macros[i],
                w.macros[i],
                Unit::Inches,
            )) && (unit == Unit::Inches ==> macros_as_large(
                w.macros[i],
                v.macros[i],
                Unit::Inches,
            )),
    ensures
        unit == Unit::Millimeters ==> layers_as_large(v, w),
        unit == Unit::Inches ==> layers_as_large(w, v),
{
    if unit == Unit::Inches {
        assert forall|i: int| 0 <= i < w.apertures.len() implies (#[trigger] w.apertures[i]).0
            == v.apertures[i].0 && apertures_as_large(
            w.apertures[i].1,
            v.apertures[i].1,
            Unit::Inches,
        ) by {
            let e = v.apertures[i];
        }
        assert forall|i: int| 0 <= i < w.macros.len() implies macros_as_large(
            #[trigger] w.macros[i],
            v.macros[i],
            Unit::Inches,
        ) by {
            let e = v.macros[i];
        }
        assert forall|i: int| 0 <= i < w.commands.len() implies (#[trigger] w.commands[i]
            is ExtendedCode <==> v.commands[i] is ExtendedCode) && (w.commands[i] is ExtendedCode
            ==> codes_as_large(w.commands[i], v.commands[i], Unit::Inches)) by {
            let e = v.commands[i];
            assert(w.commands[i] == gerber::load::command_in_unit(e, v.unit, unit));
        }
    } else {
        assert forall|i: int| 0 <= i < v.commands.len() implies (#[trigger] v.commands[i]
            is ExtendedCode <==> w.commands[i] is ExtendedCode) by {
            assert(w.commands[i] == gerber::load::command_in_unit(v.commands[i], v.unit, unit));
        }
    }
}

/// A coordinate in the unit, and the same in millimetres, to the smallest coordinate.
pub open spec fn into_mm(unit: Unit) -> spec_fn(int, int) -> bool {
    |a: int, b: int|
        match unit {
            Unit::Millimeters => a == b,
            Unit::Inches => -10 < 10 * b - 254 * a < 10,
        }
}

/// A coordinate in millimetres, and the same in the unit, to the smallest coordinate.
pub open spec fn from_mm(unit: Unit) -> spec_fn(int, int) -> bool {
    |a: int, b: int|
        match unit {
            Unit::Millimeters => a == b,
            Unit::Inches => -255 < 254 * b - 10 * a < 255,
        }
}

proof fn lemma_axis_converted(v: CoordinateNumber, unit: Unit)
    requires
        edits::modest_axis(Some(v)),
    ensures
        into_mm(unit)(
            v.nano as int,
            <CoordinateNumber as UnitAble<Fixed>>::to_mm_spec(v, unit).nano as int,
        ),
        from_mm(unit)(
            v.nano as int,
            <CoordinateNumber as UnitAble<Fixed>>::mm_to_unit_spec(v, unit).nano as int,
        ),
{
    let a = Fixed::from_nano_spec(v.nano);
    assert(a.raw == v.nano * 1000);
    law_lengths_converted(a, unit);
    let inch = crate::unit_able::inch::<Fixed>();
    assert(inch.raw == 25_400_000_000);
    edits::lemma_round_div(a.raw * 25_400_000_000, ONE as int);
    edits::lemma_round_div(a.raw * ONE, 25_400_000_000);
}

/// The formats that the point and the offset of an operation are written in.
pub open spec fn formats(c: CommandView<Fixed>) -> (
    Option<CoordinateFormat>,
    Option<CoordinateFormat>,
) {
    match c {
        Command::FunctionCode(FunctionCode::DCode(DCode::Operation(op))) => {
            let (p, o) = match op {
                Operation::Move(p) => (p, None),
                Operation::Flash(p) => (p, None),
                Operation::Interpolate(p, o) => (p, o),
            };
            (
                match p {
                    Some(p) => Some(p.format),
                    None => None,
                },
                match o {
                    Some(o) => Some(o.format),
                    None => None,
                },
            )
        },
        _ => (None, None),
    }
}

/// A command is taken to millimetres and from millimetres with every coordinate and every length in
/// it, and stays what it is otherwise; the formats of coordinates stay, too.
pub proof fn law_commands_converted(c: CommandView<Fixed>, unit: Unit)
    requires
        modest_command(c),
    ensures
        ({
            let mm = <Command<Fixed> as UnitAble<Fixed>>::to_mm_spec(c, unit);
            let back = <Command<Fixed> as UnitAble<Fixed>>::mm_to_unit_spec(c, unit);
            if c is ExtendedCode {
                codes_as_large(c, mm, unit) && codes_as_large(back, c, unit)
            } else {
                &&& edits::commands_related(
                    c,
                    mm,
                    into_mm(unit),
                    into_mm(unit),
                    into_mm(unit),
                    into_mm(unit),
                )
                &&& edits::commands_related(
                    c,
                    back,
                    from_mm(unit),
                    from_mm(unit),
                    from_mm(unit),
                    from_mm(unit),
                )
                &&& formats(mm) == formats(c)
                &&& formats(back) == formats(c)
            }
        }),
{
    match c {
        Command::ExtendedCode(e) => match e {
            ExtendedCode::ApertureDefinition(d) => {
                law_apertures_converted(d.aperture, unit);
            },
            ExtendedCode::ApertureMacro(m) => {
                law_macros_converted(m, unit);
            },
            ExtendedCode::StepAndRepeat(s) => {
                if let StepAndRepeat::Open { repeat_x, repeat_y, distance_x, distance_y } = s {
                    law_lengths_converted(distance_x, unit);
                    law_lengths_converted(distance_y, unit);
                }
            },
            _ => {},
        },
        Command::FunctionCode(f) => {
            if let FunctionCode::DCode(DCode::Operation(op)) = f {
                let (p, o) = match op {
                    Operation::Move(p) => (p, None),
                    Operation::Flash(p) => (p, None),
                    Operation::Interpolate(p, o) => (p, o),
                };
                if let Some(p) = p {
                    lemma_axes_converted(p.x, p.y, unit);
                }
                if let Some(o) = o {
                    lemma_axes_converted(o.x, o.y, unit);
                }
            }
        },
        _ => {},
    }
}

proof fn lemma_axes_converted(
    x: Option<CoordinateNumber>,
    y: Option<CoordinateNumber>,
    unit: Unit,
)
    requires
        edits::modest_axis(x),
        edits::modest_axis(y),
    ensures
        ({
            let into = unit_able::Direction::IntoMillimeters;
            let from = unit_able::Direction::FromMillimeters;
            &&& edits::axes_related(
                x,
                unit_able::turned_axis::<Fixed>(x, into, unit),
                into_mm(unit),
            )
            &&& edits::axes_related(
                y,
                unit_able::turned_axis::<Fixed>(y, into, unit),
                into_mm(unit),
            )
            &&& edits::axes_related(
                x,
                unit_able::turned_axis::<Fixed>(x, from, unit),
                from_mm(unit),
            )
            &&& edits::axes_related(
                y,
                unit_able::turned_axis::<Fixed>(y, from, unit),
                from_mm(unit),
            )
        }),
{
    if let Some(v) = x {
        lemma_axis_converted(v, unit);
    }
    if let Some(v) = y {
        lemma_axis_converted(v, unit);
    }
}

} // verus!
