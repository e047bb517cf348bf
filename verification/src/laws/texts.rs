//! Where a text stands.
use crate::fixed;
use crate::fixed::{Fixed, ONE};
use crate::gerber;
use crate::gerber_ascii::{AsciiText, HAlign, VAlign};
use crate::gerber::corners::Pen;
use crate::gerber::GerberView;
use crate::gerber_types::{
    ApertureView, Command, CommandView, CoordinateNumber, Coordinates, DCode, FunctionCode, GCode,
    InterpolationMode, Unit,
};
use crate::laws::moves;
use crate::laws::moves::law_box_moves;
use crate::layer_type::LayerType;
use crate::scalar::Scalar;
use crate::Pos;
use vstd::prelude::*;

verus! {

/// Half of a number, to the nearest number.
pub proof fn lemma_half(v: Fixed)
    ensures
        -1 <= 2 * v.over_spec(Fixed::ratio_spec(2, 1)).raw - v.raw <= 1,
{
    let two = Fixed::ratio_spec(2, 1);
    assert(two.raw == 2 * ONE);
    let a = fixed::abs(v.raw as int);
    assert(fixed::abs(v.raw * ONE) == a * ONE) by (nonlinear_arith)
        requires
            a == fixed::abs(v.raw as int),
            ONE > 0,
    ;
    assert((a * ONE) / (2 * ONE) == a / 2 && (a * ONE) % (2 * ONE) == (a % 2) * ONE)
        by (nonlinear_arith)
        requires
            a >= 0,
            ONE == 1_000_000_000,
    ;
}

/// The origin of a text is its anchor exactly, where the anchor of the text as it is written lies on
/// the grid of coordinates.
pub proof fn law_text_anchor_on_grid(
    format: AsciiText<Fixed>,
    text: Seq<char>,
    layer_type: LayerType,
    font: Seq<Seq<CommandView<Fixed>>>,
)
    requires
        ({
            let v = format.unaligned(text, layer_type, font);
            &&& moves::plain_layer(v)
            &&& moves::given(v.commands) == (true, true)
            &&& moves::step_move(format.anchor_shift(gerber::corners::layer_corners(v)))
        }),
    ensures
        ({
            let (min, max) = gerber::corners::layer_corners(format.built(text, layer_type, font));
            &&& match format.h_align {
                HAlign::Left => min.x.raw == 0,
                HAlign::Center => -1 <= min.x.raw + max.x.raw <= 1,
                HAlign::Right => max.x.raw == 0,
            }
            &&& match format.v_align {
                VAlign::Bottom => min.y.raw == 0,
                VAlign::Middle => -1 <= min.y.raw + max.y.raw <= 1,
                VAlign::Top => max.y.raw == 0,
            }
        }),
{
    let v = format.unaligned(text, layer_type, font);
    let b = gerber::corners::layer_corners(v);
    let by = format.anchor_shift(b);
    law_box_moves(v, by);
    lemma_half(b.0.x.plus_spec(b.1.x).negated_spec());
    lemma_half(b.0.y.plus_spec(b.1.y).negated_spec());
}

/// The smallest step between two coordinates.
pub const STEP: i64 = 1_000;

/// `b` lies less than a step from `a`, moved.
pub open spec fn near_moved(a: Fixed, b: Fixed, d: Fixed) -> bool {
    -STEP < b.raw - (a.raw + d.raw) < STEP
}

/// An interval and one less than a step from it, moved; without a point both are empty.
pub open spec fn ends_near(
    low: (Fixed, Fixed),
    high: (Fixed, Fixed),
    d: Fixed,
    k: bool,
) -> bool {
    if k {
        near_moved(low.0, low.1, d) && near_moved(high.0, high.1, d)
    } else {
        low.0.raw == i64::MAX && low.1.raw == i64::MAX && high.0.raw == i64::MIN && high.1.raw
            == i64::MIN
    }
}

pub open spec fn boxes_near(
    b: (Pos<Fixed>, Pos<Fixed>),
    c: (Pos<Fixed>, Pos<Fixed>),
    by: Pos<Fixed>,
    k: (bool, bool),
) -> bool {
    &&& ends_near((b.0.x, c.0.x), (b.1.x, c.1.x), by.x, k.0)
    &&& ends_near((b.0.y, c.0.y), (b.1.y, c.1.y), by.y, k.1)
}

/// Two pens that draw straight lines with one tool, and whose boxes are nearly a move apart.
pub open spec fn pens_near(
    p: Pen<Fixed>,
    q: Pen<Fixed>,
    by: Pos<Fixed>,
    k: (bool, bool),
) -> bool {
    &&& p.tool == q.tool && moves::small_tool(p.tool)
    &&& p.mode == InterpolationMode::Linear && q.mode == InterpolationMode::Linear
    &&& boxes_near(p.corners, q.corners, by, k)
}

/// The command starts no arcs.
pub open spec fn is_straight(c: CommandView<Fixed>) -> bool {
    c matches Command::FunctionCode(FunctionCode::GCode(GCode::InterpolationMode(mode))) ==> mode
        == InterpolationMode::Linear
}

/// The commands of a character draw, and do nothing else.
pub open spec fn is_drawing(s: Seq<CommandView<Fixed>>) -> bool {
    forall|i: int|
        0 <= i < s.len() ==> #[trigger] s[i] matches Command::FunctionCode(
            FunctionCode::DCode(DCode::Operation(_)),
        )
}

/// A moved coordinate is cut to the step towards zero.
pub proof fn lemma_point_near(v: CoordinateNumber, d: Fixed) -> (w: CoordinateNumber)
    requires
        moves::small_number(Some(v)),
        moves::small(d),
    ensures
        gerber::edit::shifted(Some(v), d, Unit::Millimeters) == Some(w),
        near_moved(
            gerber::corners::in_mm::<Fixed>(v, Unit::Millimeters),
            gerber::corners::in_mm::<Fixed>(w, Unit::Millimeters),
            d,
        ),
        moves::small(gerber::corners::in_mm::<Fixed>(v, Unit::Millimeters)),
        gerber::corners::in_mm::<Fixed>(v, Unit::Millimeters).raw == v.nano * 1000,
        gerber::corners::in_mm::<Fixed>(w, Unit::Millimeters).raw == w.nano * 1000,
{
    let w = gerber::edit::shifted(Some(v), d, Unit::Millimeters)->0;
    let sum = v.nano * 1000 + d.raw;
    assert(gerber::corners::in_mm::<Fixed>(v, Unit::Millimeters).raw == v.nano * 1000);
    assert(w.nano == fixed::trunc_div(sum, 1000));
    assert(gerber::corners::in_mm::<Fixed>(w, Unit::Millimeters).raw == w.nano * 1000);
    w
}

proof fn lemma_coordinates_near(
    b: (Pos<Fixed>, Pos<Fixed>),
    c: (Pos<Fixed>, Pos<Fixed>),
    p: Coordinates,
    q: Coordinates,
    tool: Option<(Pos<Fixed>, Pos<Fixed>)>,
    by: Pos<Fixed>,
    k: (bool, bool),
)
    requires
        boxes_near(b, c, by, k),
        moves::small_move(by),
        moves::small_tool(tool),
        moves::small_number(p.x),
        moves::small_number(p.y),
        q.x == gerber::edit::shifted(p.x, by.x, Unit::Millimeters),
        q.y == gerber::edit::shifted(p.y, by.y, Unit::Millimeters),
    ensures
        boxes_near(
            gerber::corners::with_coordinates(b, p, Unit::Millimeters, tool),
            gerber::corners::with_coordinates(c, q, Unit::Millimeters, tool),
            by,
            (k.0 || p.x is Some, k.1 || p.y is Some),
        ),
{
    if let Some(x) = p.x {
        let w = lemma_point_near(x, by.x);
    }
    if let Some(y) = p.y {
        let w = lemma_point_near(y, by.y);
    }
}

proof fn lemma_pens_near(
    p: Pen<Fixed>,
    q: Pen<Fixed>,
    c: CommandView<Fixed>,
    apertures: Seq<(i32, ApertureView<Fixed>)>,
    by: Pos<Fixed>,
    k: (bool, bool),
)
    requires
        pens_near(p, q, by, k),
        moves::small_move(by),
        is_straight(c),
        moves::plain_point(c, InterpolationMode::Linear, k),
        forall|id: i32|
            #![trigger crate::table::lookup(apertures, id)]
            crate::table::lookup(apertures, id) matches Some(a) ==> moves::small_tool(
                Some(gerber::corners::tool_box(a)),
            ),
    ensures
        pens_near(
            p.after(c, apertures, Unit::Millimeters),
            q.after(gerber::edit::moved(c, by, Unit::Millimeters), apertures, Unit::Millimeters),
            by,
            match gerber::corners::command_point(c) {
                Some(p) => (k.0 || p.x is Some, k.1 || p.y is Some),
                None => k,
            },
        ),
{
    match c {
        Command::FunctionCode(FunctionCode::DCode(DCode::Operation(op))) => {
            if let Some(a) = gerber::corners::command_point(c) {
                let b = Coordinates {
                    x: gerber::edit::shifted(a.x, by.x, Unit::Millimeters),
                    y: gerber::edit::shifted(a.y, by.y, Unit::Millimeters),
                    ..a
                };
                let tool = if op is Move {
                    None
                } else {
                    p.tool
                };
                lemma_coordinates_near(p.corners, q.corners, a, b, tool, by, k);
            }
        },
        _ => {},
    }
}

proof fn lemma_drawings_near(v: GerberView<Fixed>, by: Pos<Fixed>, n: int)
    requires
        moves::plain_layer(v),
        forall|i: int| 0 <= i < v.commands.len() ==> is_straight(#[trigger] v.commands[i]),
        moves::small_move(by),
        0 <= n <= v.commands.len(),
    ensures
        pens_near(
            gerber::corners::drawn(v.commands.take(n), v.apertures, v.unit),
            gerber::corners::drawn(
                gerber::edit::moved_commands(v.commands, by, v.unit).take(n),
                v.apertures,
                v.unit,
            ),
            by,
            moves::given(v.commands.take(n)),
        ),
    decreases n,
{
    if n > 0 {
        lemma_drawings_near(v, by, n - 1);
        let s = v.commands.take(n);
        let t = gerber::edit::moved_commands(v.commands, by, v.unit).take(n);
        assert(s.drop_last() =~= v.commands.take(n - 1));
        assert(t.drop_last() =~= gerber::edit::moved_commands(v.commands, by, v.unit).take(n - 1));
        let c = v.commands[n - 1];
        let p = gerber::corners::drawn(s.drop_last(), v.apertures, v.unit);
        assert(moves::plain_point(c, p.mode, moves::given(s.drop_last())));
        lemma_pens_near(
            p,
            gerber::corners::drawn(t.drop_last(), v.apertures, v.unit),
            c,
            v.apertures,
            by,
            moves::given(s.drop_last()),
        );
    }
}

proof fn lemma_strokes_draw(s: Seq<CommandView<Fixed>>)
    ensures
        is_drawing(crate::gerber_ascii::strokes_of(s).current),
        forall|i: int|
            0 <= i < crate::gerber_ascii::strokes_of(s).done.len() ==> is_drawing(
                #[trigger] crate::gerber_ascii::strokes_of(s).done[i],
            ),
    decreases s.len(),
{
    if s.len() > 0 {
        lemma_strokes_draw(s.drop_last());
    }
}

proof fn lemma_glyphs_draw(strokes: Seq<Seq<CommandView<Fixed>>>)
    requires
        forall|i: int|
            0 <= i < strokes.len() ==> is_drawing(#[trigger] strokes[i])
                && crate::gerber_ascii::stroke_row(strokes[i]) < crate::gerber_ascii::CHAR_SIZE,
    ensures
        crate::gerber_ascii::glyphs_of(strokes).len() == crate::gerber_ascii::CHAR_SIZE,
        forall|i: int|
            0 <= i < crate::gerber_ascii::CHAR_SIZE ==> is_drawing(
                #[trigger] crate::gerber_ascii::glyphs_of(strokes)[i],
            ),
    decreases strokes.len(),
{
    if strokes.len() > 0 {
        lemma_glyphs_draw(strokes.drop_last());
        let stroke = strokes.last();
        let low = crate::gerber_ascii::lowered(stroke);
        assert(is_drawing(stroke));
        assert forall|i: int| 0 <= i < low.len() implies (
        #[trigger] low[i] matches Command::FunctionCode(
            FunctionCode::DCode(DCode::Operation(_)),
        )) by {
            assert(stroke[i] matches Command::FunctionCode(
                FunctionCode::DCode(DCode::Operation(_)),
            ));
        }
    }
}

/// The characters of a font draw, and do nothing else.
pub proof fn law_font_draws(s: Seq<CommandView<Fixed>>)
    requires
        crate::gerber_ascii::is_font(s),
    ensures
        crate::gerber_ascii::font_of(s).len() == crate::gerber_ascii::CHAR_SIZE,
        forall|i: int|
            0 <= i < crate::gerber_ascii::CHAR_SIZE ==> is_drawing(
                #[trigger] crate::gerber_ascii::font_of(s)[i],
            ),
{
    lemma_strokes_draw(s);
    let glyphs = crate::gerber_ascii::glyphs_of(crate::gerber_ascii::strokes_of(s).done);
    lemma_glyphs_draw(crate::gerber_ascii::strokes_of(s).done);
    assert forall|i: int| 0 <= i < crate::gerber_ascii::CHAR_SIZE implies is_drawing(
        #[trigger] crate::gerber_ascii::font_of(s)[i],
    ) by {
        let g = glyphs[i];
        let f = crate::gerber_ascii::font_of(s)[i];
        assert(is_drawing(g));
        assert(f == crate::gerber_ascii::left_aligned(g));
        assert forall|j: int| 0 <= j < f.len() implies (
        #[trigger] f[j] matches Command::FunctionCode(
            FunctionCode::DCode(DCode::Operation(_)),
        )) by {
            assert(g[j] matches Command::FunctionCode(FunctionCode::DCode(DCode::Operation(_))));
        }
    }
}

/// What a text is written with starts no arcs.
pub proof fn lemma_written_straight(
    format: AsciiText<Fixed>,
    text: Seq<char>,
    lines: nat,
    font: Seq<Seq<CommandView<Fixed>>>,
)
    requires
        font.len() == crate::gerber_ascii::CHAR_SIZE,
        forall|i: int| 0 <= i < font.len() ==> is_drawing(#[trigger] font[i]),
    ensures
        forall|i: int|
            0 <= i < format.written(text, lines, font).commands.len() ==> is_straight(
                #[trigger] format.written(text, lines, font).commands[i],
            ),
    decreases text.len(),
{
    if text.len() > 0 {
        lemma_written_straight(format, text.drop_last(), lines, font);
        let w = format.written(text.drop_last(), lines, font);
        let c = text.last();
        if c != ' ' && c != '\n' && crate::gerber_ascii::is_printable(c) {
            let g = font[crate::gerber_ascii::glyph_place(c)];
            assert(is_drawing(g));
            let m = gerber::edit::moved_commands(
                format.glyph(c, font),
                w.pos,
                Unit::Millimeters,
            );
            assert forall|i: int| 0 <= i < m.len() implies is_straight(#[trigger] m[i]) by {
                assert(g[i] matches Command::FunctionCode(
                    FunctionCode::DCode(DCode::Operation(_)),
                ));
            }
        }
    }
}

/// The origin of a text is its anchor: the side of the bounding box, or the middle between two
/// sides, that the alignment names, to less than the smallest step between two coordinates.
pub proof fn law_text_anchor(
    format: AsciiText<Fixed>,
    text: Seq<char>,
    layer_type: LayerType,
    font: Seq<Seq<CommandView<Fixed>>>,
)
    requires
        font.len() == crate::gerber_ascii::CHAR_SIZE,
        forall|i: int| 0 <= i < font.len() ==> is_drawing(#[trigger] font[i]),
        ({
            let v = format.unaligned(text, layer_type, font);
            &&& moves::plain_layer(v)
            &&& moves::given(v.commands) == (true, true)
            &&& moves::small_move(format.anchor_shift(gerber::corners::layer_corners(v)))
        }),
    ensures
        ({
            let (min, max) = gerber::corners::layer_corners(format.built(text, layer_type, font));
            &&& match format.h_align {
                HAlign::Left => -STEP < min.x.raw < STEP,
                HAlign::Center => -2 * STEP < min.x.raw + max.x.raw < 2 * STEP,
                HAlign::Right => -STEP < max.x.raw < STEP,
            }
            &&& match format.v_align {
                VAlign::Bottom => -STEP < min.y.raw < STEP,
                VAlign::Middle => -2 * STEP < min.y.raw + max.y.raw < 2 * STEP,
                VAlign::Top => -STEP < max.y.raw < STEP,
            }
        }),
{
    let v = format.unaligned(text, layer_type, font);
    let b = gerber::corners::layer_corners(v);
    let by = format.anchor_shift(b);
    lemma_written_straight(format, text, crate::gerber_ascii::line_count(text), font);
    lemma_drawings_near(v, by, v.commands.len() as int);
    let t = gerber::edit::moved_commands(v.commands, by, v.unit);
    assert(v.commands.take(v.commands.len() as int) =~= v.commands);
    assert(t.take(v.commands.len() as int) =~= t);
    lemma_half(b.0.x.plus_spec(b.1.x).negated_spec());
    lemma_half(b.0.y.plus_spec(b.1.y).negated_spec());
}

} // verus!
