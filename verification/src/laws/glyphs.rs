//! What the characters of a text are drawn with.
use crate::fixed;
use crate::fixed::{Fixed, ONE};
use crate::gerber;
use crate::gerber_ascii;
use crate::gerber_ascii::AsciiText;
use crate::gerber_types::{
    ApertureView, Command, CommandView, CoordinateNumber, DCode, FunctionCode, GCode,
    InterpolationMode, Operation, Unit,
};
use crate::laws::edits;
use crate::layer_type::LayerType;
use crate::scalar::Scalar;
use crate::Pos;
use vstd::prelude::*;

verus! {

/// The coordinate that a command gives, across or up.
pub open spec fn given(c: CommandView<Fixed>, across: bool) -> Option<CoordinateNumber> {
    match c {
        Command::FunctionCode(FunctionCode::DCode(DCode::Operation(op))) => {
            let p = match op {
                Operation::Move(p) => p,
                Operation::Flash(p) => p,
                Operation::Interpolate(p, _) => p,
            };
            match p {
                Some(p) => if across {
                    p.x
                } else {
                    p.y
                },
                None => None,
            }
        },
        _ => None,
    }
}

/// Some command gives the coordinate.
pub open spec fn gives(s: Seq<CommandView<Fixed>>, across: bool, v: int) -> bool {
    exists|i: int|
        0 <= i < s.len() && (given(#[trigger] s[i], across) matches Some(n) && n.nano == v)
}

/// `low` is the least coordinate of the commands, and `high` the greatest.
pub open spec fn spans(s: Seq<CommandView<Fixed>>, across: bool, low: int, high: int) -> bool {
    &&& forall|i: int|
        0 <= i < s.len() ==> (given(#[trigger] s[i], across) matches Some(n) ==> low <= n.nano
            <= high)
    &&& gives(s, across, low)
    &&& gives(s, across, high)
}

pub open spec fn side(b: (Pos<Fixed>, Pos<Fixed>), across: bool) -> (Fixed, Fixed) {
    if across {
        (b.0.x, b.1.x)
    } else {
        (b.0.y, b.1.y)
    }
}

/// The box around points is as small as it can be: on each axis it goes from the least coordinate
/// to the greatest.
pub proof fn law_points_box(s: Seq<CommandView<Fixed>>, across: bool)
    requires
        forall|i: int| 0 <= i < s.len() ==> edits::modest(#[trigger] s[i]),
    ensures
        ({
            let (low, high) = side(
                gerber::corners::points_box(s, Unit::Millimeters),
                across,
            );
            &&& (exists|i: int| 0 <= i < s.len() && given(#[trigger] s[i], across) is Some) ==> (
            low.raw as int % 1000 == 0 && high.raw as int % 1000 == 0 && spans(
                s,
                across,
                low.raw as int / 1000,
                high.raw as int / 1000,
            ))
            &&& (forall|i: int| 0 <= i < s.len() ==> given(#[trigger] s[i], across) is None) ==> (
            low.raw == i64::MAX && high.raw == i64::MIN)
        }),
    decreases s.len(),
{
    if s.len() > 0 {
        let t = s.drop_last();
        let c = s.last();
        assert(s[s.len() - 1] == c && edits::modest(c));
        assert forall|i: int| 0 <= i < t.len() implies edits::modest(#[trigger] t[i]) by {
            assert(t[i] == s[i]);
        }
        law_points_box(t, across);
        let (low, high) = side(gerber::corners::points_box(s, Unit::Millimeters), across);
        let (l, h) = side(gerber::corners::points_box(t, Unit::Millimeters), across);
        let some_before = exists|i: int| 0 <= i < t.len() && given(#[trigger] t[i], across) is Some;
        if some_before {
            let i = choose|i: int| 0 <= i < t.len() && given(#[trigger] t[i], across) is Some;
            assert(s[i] == t[i]);
            let a = choose|i: int|
                0 <= i < t.len() && (given(#[trigger] t[i], across) matches Some(n) && n.nano
                    == l.raw as int / 1000);
            let b = choose|i: int|
                0 <= i < t.len() && (given(#[trigger] t[i], across) matches Some(n) && n.nano
                    == h.raw as int / 1000);
            assert(given(s[a], across)->0.nano == l.raw as int / 1000);
            assert(given(s[b], across)->0.nano == h.raw as int / 1000);
        }
        match given(c, across) {
            Some(v) => {
                assert(gerber::corners::in_mm::<Fixed>(v, Unit::Millimeters).raw == v.nano * 1000);
                assert(given(s[s.len() - 1], across) == Some(v));
                if !some_before {
                    assert forall|i: int| 0 <= i < s.len() implies (given(
                        #[trigger] s[i],
                        across,
                    ) matches Some(n) ==> n == v) by {
                        if i < t.len() {
                            assert(t[i] == s[i]);
                        }
                    }
                } else {
                    assert forall|i: int| 0 <= i < s.len() implies (given(
                        #[trigger] s[i],
                        across,
                    ) matches Some(n) ==> low.raw as int / 1000 <= n.nano <= high.raw as int
                        / 1000) by {
                        if i < t.len() {
                            assert(t[i] == s[i]);
                        }
                    }
                }
            },
            None => {
                assert(low == l && high == h);
                if some_before {
                    assert forall|i: int| 0 <= i < s.len() implies (given(
                        #[trigger] s[i],
                        across,
                    ) matches Some(n) ==> low.raw as int / 1000 <= n.nano <= high.raw as int
                        / 1000) by {
                        if i < t.len() {
                            assert(t[i] == s[i]);
                        }
                    }
                } else {
                    assert forall|i: int| 0 <= i < t.len() implies given(#[trigger] t[i], across)
                        is None by {}
                    assert forall|i: int| 0 <= i < s.len() implies given(#[trigger] s[i], across)
                        is None by {
                        if i < t.len() {
                            assert(t[i] == s[i]);
                        }
                    }
                }
            },
        }
    }
}

/// `b` is `a` times `f` and `o` more, where coordinates count as a million and `f` as a billion, to
/// three of the smallest coordinates.
pub open spec fn placed(f: int, o: int) -> spec_fn(int, int) -> bool {
    |a: int, b: int| -3_000_000_000 < 1_000_000_000 * b - a * f - 1_000_000 * o < 3_000_000_000
}

/// The coordinate is at most `most` millionths of a millimetre.
pub open spec fn near_axis(v: Option<CoordinateNumber>, most: int) -> bool {
    v matches Some(v) ==> -most <= v.nano <= most
}

pub open spec fn near_command(c: CommandView<Fixed>, most: int) -> bool {
    c matches Command::FunctionCode(FunctionCode::DCode(DCode::Operation(op))) ==> {
        let (p, o) = match op {
            Operation::Move(p) => (p, None),
            Operation::Flash(p) => (p, None),
            Operation::Interpolate(p, o) => (p, o),
        };
        &&& p matches Some(p) ==> near_axis(p.x, most) && near_axis(p.y, most)
        &&& o matches Some(o) ==> near_axis(o.x, most) && near_axis(o.y, most)
    }
}

/// The coordinates of the commands are at most `most` millionths of a millimetre.
pub open spec fn near_commands(s: Seq<CommandView<Fixed>>, most: int) -> bool {
    forall|i: int| 0 <= i < s.len() ==> near_command(#[trigger] s[i], most)
}

/// One metre.
pub const METRE: i64 = 1_000_000_000;

/// The text is at most 100 mm high.
pub open spec fn near_size(size: Fixed) -> bool {
    -100_000_000_000 <= size.raw <= 100_000_000_000
}

proof fn lemma_factor(format: AsciiText<Fixed>)
    requires
        near_size(format.size),
    ensures
        -1 <= 3 * format.factor().raw - format.size.raw <= 1,
{
    let three = Fixed::ratio_spec(3, 1);
    assert(three.raw == 3 * ONE);
    edits::lemma_round_div(format.size.raw * ONE, 3_000_000_000);
    let q = fixed::round_div(format.size.raw * ONE, 3_000_000_000);
    assert(-1 <= 3 * q - format.size.raw <= 1);
    assert(format.factor().raw == q);
}

proof fn lemma_axis_modest(a: Option<CoordinateNumber>, b: Option<CoordinateNumber>, f: int)
    requires
        near_axis(a, 4 * METRE),
        -40_000_000_000 <= f <= 40_000_000_000,
        edits::axes_related(a, b, edits::times_by(f)),
    ensures
        edits::modest_axis(b),
{
    if let Some(v) = a {
        let n = v.nano as int;
        assert(-160_000_000_000_000_000_000 <= n * f <= 160_000_000_000_000_000_000)
            by (nonlinear_arith)
            requires
                -4_000_000_000 <= n <= 4_000_000_000,
                -40_000_000_000 <= f <= 40_000_000_000,
        ;
    }
}

proof fn lemma_scaled_modest(c: CommandView<Fixed>, f: Fixed)
    requires
        near_command(c, 4 * METRE),
        -40_000_000_000 <= f.raw <= 40_000_000_000,
    ensures
        edits::modest(gerber::edit::scaled_command(c, gerber::format_4_6(), f, f)),
{
    edits::lemma_scaled(c, gerber::format_4_6(), f, f);
    match c {
        Command::FunctionCode(FunctionCode::DCode(DCode::Operation(op))) => {
            let (p, o) = match op {
                Operation::Move(p) => (p, None),
                Operation::Flash(p) => (p, None),
                Operation::Interpolate(p, o) => (p, o),
            };
            if let Some(p) = p {
                lemma_axis_modest(p.x, gerber::edit::scaled_axis(p.x, f), f.raw as int);
                lemma_axis_modest(p.y, gerber::edit::scaled_axis(p.y, f), f.raw as int);
            }
            if let Some(o) = o {
                lemma_axis_modest(o.x, gerber::edit::scaled_axis(o.x, f), f.raw as int);
                lemma_axis_modest(o.y, gerber::edit::scaled_axis(o.y, f), f.raw as int);
            }
        },
        _ => {},
    }
}

/// A command that is scaled and then moved.
proof fn lemma_placed(c: CommandView<Fixed>, f: Fixed, by: Pos<Fixed>)
    requires
        near_command(c, 4 * METRE),
        -40_000_000_000 <= f.raw <= 40_000_000_000,
        edits::modest_length(by.x),
        edits::modest_length(by.y),
    ensures
        edits::commands_related(
            c,
            gerber::edit::moved(
                gerber::edit::scaled_command(c, gerber::format_4_6(), f, f),
                by,
                Unit::Millimeters,
            ),
            placed(f.raw as int, by.x.raw as int),
            placed(f.raw as int, by.y.raw as int),
            edits::times_by(f.raw as int),
            edits::times_by(f.raw as int),
        ),
{
    let d = gerber::edit::scaled_command(c, gerber::format_4_6(), f, f);
    edits::lemma_scaled(c, gerber::format_4_6(), f, f);
    lemma_scaled_modest(c, f);
    edits::lemma_moved(d, by, Unit::Millimeters);
}

/// Writing one more character of the font adds the commands of the font's character with that
/// number, counted from `!`, scaled to a third of the size and moved to where the text has got to.
pub proof fn law_character_written(
    format: AsciiText<Fixed>,
    text: Seq<char>,
    lines: nat,
    font: Seq<Seq<CommandView<Fixed>>>,
    c: char,
)
    requires
        33 <= c as int <= 126,
        near_size(format.size),
        near_commands(font[c as int - 33], 4 * METRE),
        edits::modest_length(format.written(text, lines, font).pos.x),
        edits::modest_length(format.written(text, lines, font).pos.y),
    ensures
        ({
            let w = format.written(text, lines, font);
            let u = format.written(text.push(c), lines, font);
            let g = font[c as int - 33];
            let n = w.commands.len() as int;
            let f = format.factor().raw as int;
            &&& -1 <= 3 * f - format.size.raw <= 1
            &&& u.commands.len() == n + g.len()
            &&& u.commands.take(n) == w.commands
            &&& forall|j: int|
                0 <= j < g.len() ==> edits::commands_related(
                    #[trigger] g[j],
                    u.commands[n + j],
                    placed(f, w.pos.x.raw as int),
                    placed(f, w.pos.y.raw as int),
                    edits::times_by(f),
                    edits::times_by(f),
                )
        }),
{
    let w = format.written(text, lines, font);
    let u = format.written(text.push(c), lines, font);
    let g = font[c as int - 33];
    let n = w.commands.len() as int;
    assert(text.push(c).drop_last() =~= text);
    lemma_factor(format);
    assert(u.commands.take(n) =~= w.commands);
    assert forall|j: int| 0 <= j < g.len() implies edits::commands_related(
        #[trigger] g[j],
        u.commands[n + j],
        placed(format.factor().raw as int, w.pos.x.raw as int),
        placed(format.factor().raw as int, w.pos.y.raw as int),
        edits::times_by(format.factor().raw as int),
        edits::times_by(format.factor().raw as int),
    ) by {
        lemma_placed(g[j], format.factor(), w.pos);
    }
}

/// The height of a row of the font.
pub const ROW: i64 = 9_657_700_000;

/// The stroke stands in the row `r`, counted from below: its lowest point is not more than 2.4 mm
/// below the bottom of the row, and more than 2.4 mm below the top.
pub open spec fn stands_in(stroke: Seq<CommandView<Fixed>>, r: int) -> bool {
    exists|low: int, high: int| #[trigger]
        spans(stroke, false, low, high) && r * ROW <= 1000 * low + 2_400_000_000 <= (r + 1) * ROW
            - 10
}

proof fn lemma_row(stroke: Seq<CommandView<Fixed>>, r: int)
    requires
        near_commands(stroke, METRE as int),
        0 <= r < 94,
        stands_in(stroke, r),
    ensures
        gerber_ascii::stroke_row(stroke) == r,
{
    let b = gerber::corners::points_box(stroke, Unit::Millimeters).0.y;
    assert forall|i: int| 0 <= i < stroke.len() implies edits::modest(#[trigger] stroke[i]) by {
        assert(near_command(stroke[i], METRE as int));
    }
    law_points_box(stroke, false);
    let (low, high) = choose|low: int, high: int| #[trigger]
        spans(stroke, false, low, high) && r * ROW <= 1000 * low + 2_400_000_000 <= (r + 1) * ROW
            - 10;
    let i = choose|i: int|
        0 <= i < stroke.len() && (given(#[trigger] stroke[i], false) matches Some(n) && n.nano
            == low);
    assert(given(stroke[i], false) is Some);
    let l = b.raw as int / 1000;
    let k = choose|i: int|
        0 <= i < stroke.len() && (given(#[trigger] stroke[i], false) matches Some(n) && n.nano == l);
    assert(given(stroke[k], false)->0.nano == l);
    assert(l == low);
    assert(near_command(stroke[i], METRE as int));
    let h = gerber_ascii::text_height::<Fixed>();
    assert(h.raw == ROW);
    let up = Fixed::ratio_spec(24, 10);
    assert(up.raw == 2_400_000_000);
    let m = b.plus_spec(up);
    assert(m.raw == 1000 * low + 2_400_000_000);
    edits::lemma_round_div(m.raw * ONE, ROW as int);
    let q = fixed::round_div(m.raw * ONE, ROW as int);
    assert(r * ONE <= q < (r + 1) * ONE);
    assert(m.over_spec(h).raw == q);
    assert(q / (ONE as int) == r);
}

/// The strokes in the row `r`, one behind the other.
pub open spec fn row_of(strokes: Seq<Seq<CommandView<Fixed>>>, r: int) -> Seq<CommandView<Fixed>>
    decreases strokes.len(),
{
    if strokes.len() == 0 {
        Seq::empty()
    } else if stands_in(strokes.last(), r) {
        row_of(strokes.drop_last(), r) + strokes.last()
    } else {
        row_of(strokes.drop_last(), r)
    }
}

/// Every stroke is near, gives a point and stands in one of the 94 rows.
pub open spec fn stroke_fine(stroke: Seq<CommandView<Fixed>>) -> bool {
    &&& near_commands(stroke, METRE as int)
    &&& exists|i: int| 0 <= i < stroke.len() && given(#[trigger] stroke[i], true) is Some
    &&& exists|r: int| 0 <= r < 94 && #[trigger] stands_in(stroke, r)
}

pub open spec fn strokes_fine(strokes: Seq<Seq<CommandView<Fixed>>>) -> bool {
    forall|i: int| 0 <= i < strokes.len() ==> stroke_fine(#[trigger] strokes[i])
}

proof fn lemma_lowered(stroke: Seq<CommandView<Fixed>>, r: int)
    requires
        stroke_fine(stroke),
        0 <= r < 94,
        stands_in(stroke, r),
    ensures
        gerber_ascii::lowered(stroke).len() == stroke.len(),
        forall|j: int|
            0 <= j < stroke.len() ==> edits::commands_related(
                #[trigger] stroke[j],
                gerber_ascii::lowered(stroke)[j],
                edits::more_by(0, Unit::Millimeters),
                edits::more_by(-r * ROW, Unit::Millimeters),
                edits::unchanged(),
                edits::unchanged(),
            ),
{
    lemma_row(stroke, r);
    let h = gerber_ascii::text_height::<Fixed>();
    assert(h.raw == ROW);
    let n = Fixed::count_spec(r as u64);
    assert(n.raw == r * ONE);
    let y = n.times_spec(h.negated_spec());
    edits::lemma_round_div(n.raw * (-ROW), ONE as int);
    assert(n.raw * (-ROW) == (-r * ROW) * ONE) by (nonlinear_arith)
        requires
            n.raw == r * ONE,
    ;
    assert(y.raw == -r * ROW);
    let by = Pos { x: Fixed::zero_spec(), y };
    assert forall|j: int| 0 <= j < stroke.len() implies edits::commands_related(
        #[trigger] stroke[j],
        gerber_ascii::lowered(stroke)[j],
        edits::more_by(0, Unit::Millimeters),
        edits::more_by(-r * ROW, Unit::Millimeters),
        edits::unchanged(),
        edits::unchanged(),
    ) by {
        assert(near_command(stroke[j], METRE as int));
        edits::lemma_moved(stroke[j], by, Unit::Millimeters);
    }
}

proof fn lemma_glyph(strokes: Seq<Seq<CommandView<Fixed>>>, r: int)
    requires
        strokes_fine(strokes),
        0 <= r < 94,
    ensures
        gerber_ascii::glyphs_of(strokes).len() == 94,
        gerber_ascii::glyphs_of(strokes)[93 - r].len() == row_of(strokes, r).len(),
        near_commands(row_of(strokes, r), METRE as int),
        row_of(strokes, r).len() > 0 ==> exists|i: int|
            0 <= i < row_of(strokes, r).len() && given(#[trigger] row_of(strokes, r)[i], true) is Some,
        forall|j: int|
            0 <= j < row_of(strokes, r).len() ==> edits::commands_related(
                #[trigger] row_of(strokes, r)[j],
                gerber_ascii::glyphs_of(strokes)[93 - r][j],
                edits::more_by(0, Unit::Millimeters),
                edits::more_by(-r * ROW, Unit::Millimeters),
                edits::unchanged(),
                edits::unchanged(),
            ),
    decreases strokes.len(),
{
    if strokes.len() > 0 {
        let t = strokes.drop_last();
        let stroke = strokes.last();
        assert(strokes[strokes.len() - 1] == stroke && stroke_fine(stroke));
        assert forall|i: int| 0 <= i < t.len() implies stroke_fine(#[trigger] t[i]) by {
            assert(t[i] == strokes[i]);
        }
        lemma_glyph(t, r);
        let q = choose|q: int| 0 <= q < 94 && #[trigger] stands_in(stroke, q);
        lemma_row(stroke, q);
        if stands_in(stroke, r) {
            lemma_row(stroke, r);
            lemma_lowered(stroke, r);
            let a = row_of(t, r);
            let all = row_of(strokes, r);
            assert(all == a + stroke);
            let g = gerber_ascii::glyphs_of(t)[93 - r];
            let low = gerber_ascii::lowered(stroke);
            assert(gerber_ascii::glyphs_of(strokes)[93 - r] == g + low);
            assert forall|i: int| 0 <= i < all.len() implies near_command(#[trigger] all[i], METRE as int) by {
                if i < a.len() {
                    assert(all[i] == a[i]);
                } else {
                    assert(all[i] == stroke[i - a.len()]);
                }
            }
            let i = choose|i: int|
                0 <= i < stroke.len() && given(#[trigger] stroke[i], true) is Some;
            assert(given(all[a.len() + i], true) is Some);
            assert forall|j: int| 0 <= j < all.len() implies edits::commands_related(
                #[trigger] all[j],
                (g + low)[j],
                edits::more_by(0, Unit::Millimeters),
                edits::more_by(-r * ROW, Unit::Millimeters),
                edits::unchanged(),
                edits::unchanged(),
            ) by {
                if j < a.len() {
                    assert(all[j] == a[j]);
                } else {
                    assert(all[j] == stroke[j - a.len()]);
                }
            }
        } else {
            assert(q != r);
            assert(gerber_ascii::glyphs_of(strokes)[93 - r] == gerber_ascii::glyphs_of(t)[93 - r]);
        }
    }
}

/// `b` is `a` and `o` more, to a few of the smallest coordinates.
pub open spec fn carried(o: int) -> spec_fn(int, int) -> bool {
    |a: int, b: int| -2_200 < 1_000 * b - 1_000 * a - o < 2_200
}

proof fn lemma_carried(
    c: CommandView<Fixed>,
    d: CommandView<Fixed>,
    e: CommandView<Fixed>,
    x: int,
    y: int,
)
    requires
        edits::commands_related(
            c,
            d,
            edits::more_by(0, Unit::Millimeters),
            edits::more_by(y, Unit::Millimeters),
            edits::unchanged(),
            edits::unchanged(),
        ),
        edits::commands_related(
            d,
            e,
            edits::more_by(x, Unit::Millimeters),
            edits::more_by(0, Unit::Millimeters),
            edits::unchanged(),
            edits::unchanged(),
        ),
    ensures
        edits::commands_related(c, e, carried(x), carried(y), edits::unchanged(), edits::unchanged()),
{
}

proof fn lemma_row_modest(c: CommandView<Fixed>, d: CommandView<Fixed>, r: int)
    requires
        0 <= r < 94,
        near_command(c, METRE as int),
        edits::commands_related(
            c,
            d,
            edits::more_by(0, Unit::Millimeters),
            edits::more_by(-r * ROW, Unit::Millimeters),
            edits::unchanged(),
            edits::unchanged(),
        ),
    ensures
        edits::modest(d),
        given(d, true) matches Some(n) ==> -1_000_000_002 <= n.nano <= 1_000_000_002,
{
}

/// `e` is `c`, carried to the lowest row and by `dx` to the right, and does not lie to the left of
/// zero.
pub open spec fn is_left_aligned(
    c: CommandView<Fixed>,
    e: CommandView<Fixed>,
    dx: int,
    r: int,
) -> bool {
    &&& edits::commands_related(
        c,
        e,
        carried(dx),
        carried(-r * ROW),
        edits::unchanged(),
        edits::unchanged(),
    )
    &&& given(e, true) matches Some(n) ==> n.nano >= -1
    &&& near_command(e, 4 * METRE)
}

proof fn lemma_left_aligned(
    c: CommandView<Fixed>,
    d: CommandView<Fixed>,
    by: Pos<Fixed>,
    low: int,
    r: int,
)
    requires
        0 <= r < 94,
        near_command(c, METRE as int),
        edits::commands_related(
            c,
            d,
            edits::more_by(0, Unit::Millimeters),
            edits::more_by(-r * ROW, Unit::Millimeters),
            edits::unchanged(),
            edits::unchanged(),
        ),
        by.x.raw == -1000 * low,
        by.y.raw == 0,
        -1_000_000_010 <= low <= 1_000_000_010,
        given(d, true) matches Some(n) ==> low <= n.nano,
    ensures
        is_left_aligned(c, gerber::edit::moved(d, by, Unit::Millimeters), -1000 * low, r),
{
    lemma_row_modest(c, d, r);
    edits::lemma_moved(d, by, Unit::Millimeters);
    let e = gerber::edit::moved(d, by, Unit::Millimeters);
    lemma_carried(c, d, e, -1000 * low, -r * ROW);
}

proof fn lemma_at_left(d: CommandView<Fixed>, by: Pos<Fixed>, low: int)
    requires
        edits::modest(d),
        by.x.raw == -1000 * low,
        by.y.raw == 0,
        -1_000_000_010 <= low <= 1_000_000_010,
        given(d, true) matches Some(n) && n.nano == low,
    ensures
        given(gerber::edit::moved(d, by, Unit::Millimeters), true) matches Some(n) && n.nano <= 1,
{
    edits::lemma_moved(d, by, Unit::Millimeters);
}

/// The characters of a font. The drawing of the font has one character in each of 94 rows; the
/// character `i` is, moved, what stands in the row `i` counted from above, and begins at zero on the
/// left.
pub proof fn law_font_rows(s: Seq<CommandView<Fixed>>, i: int) -> (dx: int)
    requires
        0 <= i < 94,
        strokes_fine(gerber_ascii::strokes_of(s).done),
    ensures
        ({
            let g = gerber_ascii::font_of(s)[i];
            let d = row_of(gerber_ascii::strokes_of(s).done, 93 - i);
            &&& gerber_ascii::font_of(s).len() == 94
            &&& g.len() == d.len()
            &&& near_commands(d, METRE as int)
            &&& near_commands(g, 4 * METRE)
            &&& forall|j: int|
                0 <= j < d.len() ==> edits::commands_related(
                    #[trigger] d[j],
                    g[j],
                    carried(dx),
                    carried(-(93 - i) * ROW),
                    edits::unchanged(),
                    edits::unchanged(),
                )
            &&& -2_000_000_000_000 <= dx <= 2_000_000_000_000
            &&& forall|j: int|
                0 <= j < g.len() ==> (given(#[trigger] g[j], true) matches Some(n) ==> n.nano >= -1)
            &&& g.len() > 0 ==> exists|j: int|
                0 <= j < g.len() && (given(#[trigger] g[j], true) matches Some(n) && n.nano <= 1)
        }),
{
    let r = 93 - i;
    let strokes = gerber_ascii::strokes_of(s).done;
    let d = row_of(strokes, r);
    let m = gerber_ascii::glyphs_of(strokes)[i];
    lemma_glyph(strokes, r);
    let g = gerber_ascii::left_aligned(m);
    assert(gerber_ascii::font_of(s)[i] == g);
    if d.len() == 0 {
        0
    } else {
        assert forall|j: int| 0 <= j < m.len() implies edits::modest(#[trigger] m[j]) by {
            lemma_row_modest(d[j], m[j], r);
        }
        law_points_box(m, true);
        let k = choose|k: int| 0 <= k < d.len() && given(#[trigger] d[k], true) is Some;
        assert(given(m[k], true) is Some);
        let left = gerber::corners::points_box(m, Unit::Millimeters).0.x;
        let low = left.raw as int / 1000;
        let q = choose|q: int|
            0 <= q < m.len() && (given(#[trigger] m[q], true) matches Some(n) && n.nano == low);
        lemma_row_modest(d[q], m[q], r);
        assert(-1_000_000_010 <= low <= 1_000_000_010);
        let by = Pos { x: left.negated_spec(), y: Fixed::zero_spec() };
        let dx = -1000 * low;
        assert(by.x.raw == dx);
        assert forall|j: int| 0 <= j < d.len() implies is_left_aligned(
            #[trigger] d[j],
            g[j],
            dx,
            r,
        ) by {
            lemma_left_aligned(d[j], m[j], by, low, r);
        }
        assert forall|j: int| 0 <= j < g.len() implies (given(
            #[trigger] g[j],
            true,
        ) matches Some(n) ==> n.nano >= -1) by {
            assert(0 <= j < d.len());
            let e = d[j];
        }
        assert forall|j: int| 0 <= j < g.len() implies near_command(#[trigger] g[j], 4 * METRE) by {
            let e = d[j];
        }
        lemma_at_left(m[q], by, low);
        assert(given(g[q], true)->0.nano <= 1);
        dx
    }
}

/// `b` is `a` times `f` and a common length more, to a few of the smallest coordinates in the size
/// of the font and in that of the text.
pub open spec fn drawn_like(f: int, o: int) -> spec_fn(int, int) -> bool {
    |a: int, b: int|
        -(5_000_000_000 + 3 * fixed::abs(f)) < 1_000_000_000 * b - a * f - o < 5_000_000_000 + 3
            * fixed::abs(f)
}

/// The length common to the points of a character: that by which the font moved them, scaled, and
/// that by which the text did.
pub open spec fn common(f: int, in_font: int, in_text: int) -> int {
    (in_font * f) / 1000 + 1_000_000 * in_text
}

proof fn lemma_axis_drawn(
    a: Option<CoordinateNumber>,
    g: Option<CoordinateNumber>,
    u: Option<CoordinateNumber>,
    b: Option<CoordinateNumber>,
    f: int,
    d: int,
    p: int,
    q: int,
)
    requires
        edits::axes_related(a, g, carried(d)),
        edits::axes_related(g, u, placed(f, p)),
        edits::axes_related(u, b, edits::more_by(q, Unit::Millimeters)),
    ensures
        edits::axes_related(a, b, drawn_like(f, common(f, d, p + q))),
{
    if let Some(v) = a {
        let x = v.nano as int;
        let y = g->0.nano as int;
        let e = 1000 * y - 1000 * x - d;
        assert(1000 * (y * f) - 1000 * (x * f) - d * f == e * f) by (nonlinear_arith)
            requires
                e == 1000 * y - 1000 * x - d,
        ;
        let m = fixed::abs(f);
        assert(-2200 * m <= e * f <= 2200 * m) by (nonlinear_arith)
            requires
                -2200 <= e <= 2200,
                m == fixed::abs(f),
        ;
        let h = (d * f) / 1000;
        assert(1000 * h <= d * f < 1000 * h + 1000);
        assert(u is Some && b is Some);
    }
}

proof fn lemma_drawn(
    c: CommandView<Fixed>,
    g: CommandView<Fixed>,
    u: CommandView<Fixed>,
    b: CommandView<Fixed>,
    f: int,
    x: (int, int, int),
    y: (int, int, int),
)
    requires
        edits::commands_related(
            c,
            g,
            carried(x.0),
            carried(y.0),
            edits::unchanged(),
            edits::unchanged(),
        ),
        edits::commands_related(
            g,
            u,
            placed(f, x.1),
            placed(f, y.1),
            edits::times_by(f),
            edits::times_by(f),
        ),
        edits::commands_related(
            u,
            b,
            edits::more_by(x.2, Unit::Millimeters),
            edits::more_by(y.2, Unit::Millimeters),
            edits::unchanged(),
            edits::unchanged(),
        ),
    ensures
        edits::commands_related(
            c,
            b,
            drawn_like(f, common(f, x.0, x.1 + x.2)),
            drawn_like(f, common(f, y.0, y.1 + y.2)),
            edits::times_by(f),
            edits::times_by(f),
        ),
{
    let (gx, gy) = (given(g, true), given(g, false));
    let (ux, uy) = (given(u, true), given(u, false));
    let (bx, by) = (given(b, true), given(b, false));
    if given(c, true) is Some {
        lemma_axis_drawn(given(c, true), gx, ux, bx, f, x.0, x.1, x.2);
    }
    if given(c, false) is Some {
        lemma_axis_drawn(given(c, false), gy, uy, by, f, y.0, y.1, y.2);
    }
}

/// What is written stays as it is when the text goes on.
proof fn lemma_written_on(
    format: AsciiText<Fixed>,
    text: Seq<char>,
    lines: nat,
    font: Seq<Seq<CommandView<Fixed>>>,
    i: int,
)
    requires
        0 <= i <= text.len(),
    ensures
        format.written(text.take(i), lines, font).commands.is_prefix_of(
            format.written(text, lines, font).commands,
        ),
    decreases text.len() - i,
{
    if i < text.len() {
        let t = text.take(i + 1);
        lemma_written_on(format, text, lines, font, i + 1);
        assert(t.drop_last() =~= text.take(i));
        let a = format.written(text.take(i), lines, font).commands;
        let b = format.written(t, lines, font).commands;
        let c = format.written(text, lines, font).commands;
        assert(a =~= b.take(a.len() as int));
        assert(a =~= c.take(a.len() as int));
    } else {
        assert(text.take(i) =~= text);
        let a = format.written(text, lines, font).commands;
        assert(a =~= a.take(a.len() as int));
    }
}

/// The place is at most 50 metres from the origin.
pub open spec fn near_place(p: Pos<Fixed>) -> bool {
    &&& -50_000_000_000_000 <= p.x.raw <= 50_000_000_000_000
    &&& -50_000_000_000_000 <= p.y.raw <= 50_000_000_000_000
}

proof fn lemma_written_modest(c: CommandView<Fixed>, d: CommandView<Fixed>, f: int, p: Pos<Fixed>)
    requires
        near_command(c, 4 * METRE),
        -40_000_000_000 <= f <= 40_000_000_000,
        near_place(p),
        edits::commands_related(
            c,
            d,
            placed(f, p.x.raw as int),
            placed(f, p.y.raw as int),
            edits::times_by(f),
            edits::times_by(f),
        ),
    ensures
        edits::modest(d),
{
    assert forall|n: int| -4_000_000_000 <= n <= 4_000_000_000 implies -160_000_000_000_000_000_000
        <= #[trigger] (n * f) <= 160_000_000_000_000_000_000 by {
        assert(-160_000_000_000_000_000_000 <= n * f <= 160_000_000_000_000_000_000)
            by (nonlinear_arith)
            requires
                -4_000_000_000 <= n <= 4_000_000_000,
                -40_000_000_000 <= f <= 40_000_000_000,
        ;
    }
}

proof fn lemma_aligned(
    a: Seq<CommandView<Fixed>>,
    b: Seq<CommandView<Fixed>>,
    shift: Pos<Fixed>,
    q: int,
)
    requires
        0 <= q < a.len(),
        edits::modest(a[q]),
        near_place(shift),
        b == a && shift.x.raw == 0 && shift.y.raw == 0 || b == gerber::edit::moved_commands(
            a,
            shift,
            Unit::Millimeters,
        ),
    ensures
        b.len() == a.len(),
        edits::commands_related(
            a[q],
            b[q],
            edits::more_by(shift.x.raw as int, Unit::Millimeters),
            edits::more_by(shift.y.raw as int, Unit::Millimeters),
            edits::unchanged(),
            edits::unchanged(),
        ),
{
    edits::lemma_moved(a[q], shift, Unit::Millimeters);
}

/// A text in a font that is drawn with one character in each of 94 rows. For every character with
/// the code `k`, from 33 for `!` to 126 for `~`, the layer has, one for one, the commands that stand
/// in the row `k - 33` of the drawing, counted from above: scaled to a third of the size and moved
/// by a common length `o`.
pub proof fn law_text_drawn(
    format: AsciiText<Fixed>,
    text: Seq<char>,
    layer_type: LayerType,
    s: Seq<CommandView<Fixed>>,
    i: int,
) -> (o: (int, int))
    requires
        0 <= i < text.len(),
        33 <= text[i] as int <= 126,
        near_size(format.size),
        strokes_fine(gerber_ascii::strokes_of(s).done),
        ({
            let font = gerber_ascii::font_of(s);
            let v = format.unaligned(text, layer_type, font);
            &&& near_place(
                format.written(text.take(i), gerber_ascii::line_count(text), font).pos,
            )
            &&& near_place(format.anchor_shift(gerber::corners::layer_corners(v)))
        }),
    ensures
        ({
            let font = gerber_ascii::font_of(s);
            let lines = gerber_ascii::line_count(text);
            let d = row_of(gerber_ascii::strokes_of(s).done, 93 - (text[i] as int - 33));
            let b = format.built(text, layer_type, font).commands;
            let from = format.written(text.take(i), lines, font).commands.len() as int;
            let f = format.factor().raw as int;
            &&& -1 <= 3 * f - format.size.raw <= 1
            &&& from + d.len() == format.written(text.take(i + 1), lines, font).commands.len()
            &&& from + d.len() <= b.len()
            &&& forall|j: int|
                0 <= j < d.len() ==> edits::commands_related(
                    #[trigger] d[j],
                    b[from + j],
                    drawn_like(f, o.0),
                    drawn_like(f, o.1),
                    edits::times_by(f),
                    edits::times_by(f),
                )
        }),
{
    let font = gerber_ascii::font_of(s);
    let lines = gerber_ascii::line_count(text);
    let k = text[i] as int - 33;
    let d = row_of(gerber_ascii::strokes_of(s).done, 93 - k);
    let t = text.take(i);
    let w = format.written(t, lines, font);
    let from = w.commands.len() as int;
    let dx = law_font_rows(s, k);
    let g = font[k];
    law_character_written(format, t, lines, font, text[i]);
    assert(t.push(text[i]) =~= text.take(i + 1));
    lemma_written_on(format, text, lines, font, i + 1);
    let u = format.written(text.take(i + 1), lines, font).commands;
    let v = format.unaligned(text, layer_type, font);
    let shift = format.anchor_shift(gerber::corners::layer_corners(v));
    let b = format.built(text, layer_type, font).commands;
    let f = format.factor().raw as int;
    assert(b == v.commands && shift.x.raw == 0 && shift.y.raw == 0 || b
        == gerber::edit::moved_commands(v.commands, shift, Unit::Millimeters));
    let x = (dx, w.pos.x.raw as int, shift.x.raw as int);
    let y = (-(93 - k) * ROW, w.pos.y.raw as int, shift.y.raw as int);
    assert(v.unit == Unit::Millimeters);
    assert forall|j: int| 0 <= j < d.len() implies edits::commands_related(
        #[trigger] d[j],
        b[from + j],
        drawn_like(f, common(f, x.0, x.1 + x.2)),
        drawn_like(f, common(f, y.0, y.1 + y.2)),
        edits::times_by(f),
        edits::times_by(f),
    ) by {
        let c = u[from + j];
        assert(near_command(g[j], 4 * METRE));
        lemma_written_modest(g[j], c, f, w.pos);
        assert(v.commands[from + j] == c);
        lemma_aligned(v.commands, b, shift, from + j);
        lemma_drawn(d[j], g[j], c, b[from + j], f, x, y);
    }
    (common(f, x.0, x.1 + x.2), common(f, y.0, y.1 + y.2))
}

/// The command moves without drawing.
pub open spec fn is_move(c: CommandView<Fixed>) -> bool {
    c matches Command::FunctionCode(FunctionCode::DCode(DCode::Operation(Operation::Move(_))))
}

/// The operations from the first move on.
pub open spec fn from_first_move(s: Seq<CommandView<Fixed>>) -> Seq<CommandView<Fixed>>
    decreases s.len(),
{
    if s.len() == 0 {
        Seq::empty()
    } else {
        let rest = from_first_move(s.drop_last());
        if (s.last() matches Command::FunctionCode(FunctionCode::DCode(DCode::Operation(_)))) && (
        is_move(s.last()) || rest.len() > 0) {
            rest.push(s.last())
        } else {
            rest
        }
    }
}

/// The strokes, one behind the other.
pub open spec fn joined(strokes: Seq<Seq<CommandView<Fixed>>>) -> Seq<CommandView<Fixed>>
    decreases strokes.len(),
{
    if strokes.len() == 0 {
        Seq::empty()
    } else {
        joined(strokes.drop_last()) + strokes.last()
    }
}

/// A move, and behind it no other.
pub open spec fn is_stroke(s: Seq<CommandView<Fixed>>) -> bool {
    &&& s.len() > 0
    &&& is_move(s[0])
    &&& forall|i: int| 0 < i < s.len() ==> !is_move(#[trigger] s[i])
}

/// The strokes of a drawing. Together with the one that is not complete they are all operations
/// from the first move on, and each is a move and what is drawn behind it.
pub proof fn law_strokes_split(s: Seq<CommandView<Fixed>>)
    ensures
        ({
            let st = gerber_ascii::strokes_of(s);
            &&& joined(st.done) + st.current == from_first_move(s)
            &&& forall|i: int| 0 <= i < st.done.len() ==> is_stroke(#[trigger] st.done[i])
            &&& st.current.len() > 0 ==> is_stroke(st.current)
            &&& st.current.len() == 0 ==> st.done.len() == 0
        }),
    decreases s.len(),
{
    let st = gerber_ascii::strokes_of(s);
    if s.len() > 0 {
        law_strokes_split(s.drop_last());
        let c = s.last();
        let before = gerber_ascii::strokes_of(s.drop_last());
        if before.current.len() == 0 {
            assert(joined(before.done) =~= Seq::empty());
        }
        if is_move(c) {
            if before.current.len() > 0 {
                assert(st.done.drop_last() =~= before.done);
                assert(joined(st.done) =~= joined(before.done) + before.current);
            }
        }
        assert(joined(st.done) + st.current =~= from_first_move(s));
    } else {
        assert(joined(st.done) + st.current =~= from_first_move(s));
    }
}

/// Where a text goes on: a space moves by six tenths of the size, a line feed to the start of the
/// line below, and a character by its width and three tenths of the size. The lines are a sixth of
/// the rows of the font apart, times the size.
pub proof fn law_text_goes_on(
    format: AsciiText<Fixed>,
    text: Seq<char>,
    lines: nat,
    font: Seq<Seq<CommandView<Fixed>>>,
)
    requires
        near_size(format.size),
        near_place(format.written(text, lines, font).pos),
    ensures
        ({
            let w = format.written(text, lines, font).pos;
            let space = format.written(text.push(' '), lines, font);
            let feed = format.written(text.push('\n'), lines, font);
            let size = format.size.raw as int;
            let down = w.y.raw - feed.pos.y.raw;
            &&& space.commands == format.written(text, lines, font).commands
            &&& space.pos.y == w.y
            &&& -10 <= 10 * (space.pos.x.raw - w.x.raw) - 6 * size <= 10
            &&& feed.commands == format.written(text, lines, font).commands
            &&& feed.pos.x.raw == 0
            &&& -(3_000_000_000 + 3 * fixed::abs(size)) <= 6_000_000_000 * down - ROW * size
                <= 3_000_000_000 + 3 * fixed::abs(size)
        }),
{
    assert(text.push(' ').drop_last() =~= text);
    assert(text.push('\n').drop_last() =~= text);
    let size = format.size.raw as int;
    let tenth = Fixed::ratio_spec(6, 10);
    assert(tenth.raw == 600_000_000);
    edits::lemma_round_div(600_000_000 * size, ONE as int);
    lemma_line_height(format);
}

proof fn lemma_line_height(format: AsciiText<Fixed>)
    requires
        near_size(format.size),
    ensures
        ({
            let size = format.size.raw as int;
            let h = format.line_height().raw as int;
            &&& -(3_000_000_000 + 3 * fixed::abs(size)) <= 6_000_000_000 * h - ROW * size
                <= 3_000_000_000 + 3 * fixed::abs(size)
            &&& -200_000_000_000 <= h <= 200_000_000_000
        }),
{
    let size = format.size.raw as int;
    let row = gerber_ascii::text_height::<Fixed>();
    assert(row.raw == ROW);
    let six = Fixed::ratio_spec(6, 1);
    assert(six.raw == 6_000_000_000);
    let part = row.over_spec(six);
    edits::lemma_round_div(ROW * ONE, 6_000_000_000);
    assert(part.raw == 1_609_616_667);
    edits::lemma_round_div(1_609_616_667 * size, ONE as int);
    assert(format.line_height().raw == fixed::round_div(1_609_616_667 * size, ONE as int));
}

/// The width of the tool is the size times the ratio, rounded.
pub open spec fn is_width(format: AsciiText<Fixed>, d: Fixed) -> bool {
    -1_000_000_000 <= 2 * (1_000_000_000 * d.raw - format.size.raw * format.ratio.raw)
        <= 1_000_000_000
}

proof fn lemma_width(format: AsciiText<Fixed>)
    requires
        near_size(format.size),
        edits::modest_factor(format.ratio),
    ensures
        is_width(format, format.size.times_spec(format.ratio)),
{
    let a = format.size.raw as int;
    let b = format.ratio.raw as int;
    assert(-100_000_000_000_000_000_000_000 <= a * b <= 100_000_000_000_000_000_000_000)
        by (nonlinear_arith)
        requires
            -100_000_000_000 <= a <= 100_000_000_000,
            -1_000_000_000_000 <= b <= 1_000_000_000_000,
    ;
    edits::lemma_round_div(a * b, ONE as int);
}

/// A move leaves the width of a box, to the smallest coordinates.
proof fn lemma_moved_span(
    m: Seq<CommandView<Fixed>>,
    a: Seq<CommandView<Fixed>>,
    by: Pos<Fixed>,
    low: int,
    high: int,
)
    requires
        near_place(by),
        forall|j: int| 0 <= j < m.len() ==> edits::modest(#[trigger] m[j]),
        a == gerber::edit::moved_commands(m, by, Unit::Millimeters),
        spans(a, true, low, high),
    ensures
        ({
            let b = gerber::corners::points_box(m, Unit::Millimeters);
            &&& -2_200 < b.1.x.raw - b.0.x.raw - 1000 * (high - low) < 2_200
            &&& -1_000_000_000_000_000 <= b.0.x.raw <= 1_000_000_000_000_000
            &&& -1_000_000_000_000_000 <= b.1.x.raw <= 1_000_000_000_000_000
        }),
{
    let p = by.x.raw as int;
    law_points_box(m, true);
    assert forall|j: int| 0 <= j < a.len() implies match (
        given(m[j], true),
        given(#[trigger] a[j], true),
    ) {
        (Some(x), Some(y)) => -1100 < 1000 * y.nano - (1000 * x.nano + p) < 1100,
        (None, None) => true,
        _ => false,
    } by {
        assert(edits::modest(m[j]));
        edits::lemma_moved(m[j], by, Unit::Millimeters);
    }
    let b = gerber::corners::points_box(m, Unit::Millimeters);
    let (l, h) = (b.0.x.raw as int / 1000, b.1.x.raw as int / 1000);
    let i = choose|i: int|
        0 <= i < a.len() && (given(#[trigger] a[i], true) matches Some(n) && n.nano == low);
    let j = choose|i: int|
        0 <= i < a.len() && (given(#[trigger] a[i], true) matches Some(n) && n.nano == high);
    assert(given(m[i], true) is Some && given(m[j], true) is Some);
    let q = choose|i: int|
        0 <= i < m.len() && (given(#[trigger] m[i], true) matches Some(n) && n.nano == l);
    let r = choose|i: int|
        0 <= i < m.len() && (given(#[trigger] m[i], true) matches Some(n) && n.nano == h);
    assert(given(a[q], true) is Some && given(a[r], true) is Some);
    assert(edits::modest(m[q]) && edits::modest(m[r]));
}

proof fn lemma_gap(size: Fixed)
    requires
        near_size(size),
    ensures
        -10 <= 10 * Fixed::ratio_spec(3, 10).times_spec(size).raw - 3 * size.raw <= 10,
{
    let tenths = Fixed::ratio_spec(3, 10);
    assert(tenths.raw == 300_000_000);
    edits::lemma_round_div(300_000_000 * size.raw, ONE as int);
}

/// Behind a character that reaches from `low` to `high` the text goes on by the width of the
/// character and three tenths of the size, on the same line.
pub proof fn law_character_width(
    format: AsciiText<Fixed>,
    text: Seq<char>,
    lines: nat,
    font: Seq<Seq<CommandView<Fixed>>>,
    c: char,
    low: int,
    high: int,
)
    requires
        33 <= c as int <= 126,
        near_size(format.size),
        near_commands(font[c as int - 33], 4 * METRE),
        near_place(format.written(text, lines, font).pos),
        ({
            let w = format.written(text, lines, font);
            let u = format.written(text.push(c), lines, font);
            spans(u.commands.skip(w.commands.len() as int), true, low, high)
        }),
    ensures
        ({
            let w = format.written(text, lines, font);
            let u = format.written(text.push(c), lines, font);
            let dx = u.pos.x.raw - w.pos.x.raw;
            &&& u.pos.y == w.pos.y
            &&& -25_000 < 10 * (dx - 1000 * (high - low)) - 3 * format.size.raw < 25_000
        }),
{
    let w = format.written(text, lines, font);
    let u = format.written(text.push(c), lines, font);
    let n = w.commands.len() as int;
    assert(text.push(c).drop_last() =~= text);
    let f = format.factor();
    lemma_factor(format);
    let g = font[c as int - 33];
    let m = format.glyph(c, font);
    let a = u.commands.skip(n);
    assert forall|j: int| 0 <= j < m.len() implies edits::modest(#[trigger] m[j]) by {
        assert(near_command(g[j], 4 * METRE));
        lemma_scaled_modest(g[j], f);
    }
    assert(a =~= gerber::edit::moved_commands(m, w.pos, Unit::Millimeters));
    lemma_moved_span(m, a, w.pos, low, high);
    lemma_gap(format.size);
    let gap = Fixed::ratio_spec(3, 10).times_spec(format.size);
    let b = gerber::corners::points_box(m, Unit::Millimeters);
    let width = crate::box_size(b).width;
    assert(width.raw == b.1.x.raw - b.0.x.raw);
    assert(format.advance(c, font).raw == width.raw + gap.raw);
    assert(u.pos.x.raw == w.pos.x.raw + format.advance(c, font).raw);
}

/// A text begins on the left, as many line feeds above the origin as it has lines behind the first:
/// each line feed leads to where a text with one line less begins.
pub proof fn law_lines_end_at_origin(
    format: AsciiText<Fixed>,
    lines: nat,
    font: Seq<Seq<CommandView<Fixed>>>,
)
    requires
        near_size(format.size),
        2 <= lines <= 1_000_000,
    ensures
        format.written(Seq::empty(), 1, font).pos == Pos::<Fixed>::origin(),
        format.written(seq!['\n'], lines, font).pos == format.written(
            Seq::empty(),
            (lines - 1) as nat,
            font,
        ).pos,
{
    lemma_line_height(format);
    let h = format.line_height().raw as int;
    assert(Fixed::count_spec(0).raw == 0);
    edits::lemma_round_div(0 * h, ONE as int);
    lemma_lines_up(format, lines);
    let fewer = (lines - 1) as nat;
    lemma_lines_up(format, fewer);
    assert(fewer * h == lines * h - h) by (nonlinear_arith)
        requires
            fewer == lines - 1,
    ;
    assert(seq!['\n'].drop_last() =~= Seq::<char>::empty());
    reveal_with_fuel(AsciiText::<_>::written, 2);
}

proof fn lemma_lines_up(format: AsciiText<Fixed>, lines: nat)
    requires
        near_size(format.size),
        1 <= lines <= 1_000_000,
    ensures
        format.first(lines).pos.y.raw == lines * format.line_height().raw
            - format.line_height().raw,
        fixed::abs(lines * format.line_height().raw) <= 200_000_000_000_000_000,
{
    lemma_line_height(format);
    let h = format.line_height().raw as int;
    let n = lines - 1;
    assert(Fixed::count_spec(n as u64).raw == n * ONE);
    edits::lemma_round_div((n * ONE) * h, ONE as int);
    assert((n * ONE) * h == ONE * (n * h)) by (nonlinear_arith);
    assert(n * h == lines * h - h) by (nonlinear_arith)
        requires
            n == lines - 1,
    ;
    assert(-200_000_000_000_000_000 <= lines * h <= 200_000_000_000_000_000) by (nonlinear_arith)
        requires
            1 <= lines <= 1_000_000,
            -200_000_000_000 <= h <= 200_000_000_000,
    ;
}

/// A text begins with a round tool as wide as the size times the ratio, and with straight lines. Its
/// layer is in millimetres.
pub proof fn law_text_begins(
    format: AsciiText<Fixed>,
    text: Seq<char>,
    layer_type: LayerType,
    font: Seq<Seq<CommandView<Fixed>>>,
)
    requires
        near_size(format.size),
        edits::modest_factor(format.ratio),
    ensures
        ({
            let v = format.unaligned(text, layer_type, font);
            &&& v.commands.len() >= 2
            &&& v.commands[0] matches Command::FunctionCode(
                FunctionCode::DCode(DCode::SelectAperture(id)),
            ) && id == 10
            &&& v.commands[1] matches Command::FunctionCode(
                FunctionCode::GCode(GCode::InterpolationMode(mode)),
            ) && mode == InterpolationMode::Linear
            &&& v.apertures.len() == 1
            &&& v.apertures[0].0 == 10
            &&& v.apertures[0].1 matches ApertureView::Circle(c) && (c.hole_diameter is None
                && is_width(format, c.diameter))
            &&& v.unit == Unit::Millimeters
            &&& v.layer_type == layer_type
        }),
{
    let none = Seq::<char>::empty();
    assert(text.take(0) =~= none);
    let lines = gerber_ascii::line_count(text);
    lemma_written_on(format, text, lines, font, 0);
    let v = format.unaligned(text, layer_type, font);
    assert(v.commands[0] == format.first(lines).commands[0]);
    assert(v.commands[1] == format.first(lines).commands[1]);
    lemma_width(format);
}

/// A line feed ends a line: behind one that ends a line there is a line only if something follows.
pub proof fn law_lines_counted(a: Seq<char>, b: Seq<char>)
    requires
        !b.contains('\n'),
        b.len() > 0,
    ensures
        gerber_ascii::line_count(Seq::empty()) == 0,
        gerber_ascii::line_count(b) == 1,
        gerber_ascii::line_count(a.push('\n')) == gerber_ascii::line_count(a) + if a.len() == 0
            || a.last() == '\n' {
            1nat
        } else {
            0nat
        },
        gerber_ascii::line_count(a.push('\n') + b) == gerber_ascii::line_count(a.push('\n')) + 1,
{
    assert(a.push('\n').drop_last() =~= a);
    assert(a.len() == 0 ==> gerber_ascii::line_feeds(a) == 0);
    assert(gerber_ascii::line_feeds(a.push('\n')) == gerber_ascii::line_feeds(a) + 1);
    lemma_line_feeds(a.push('\n'), b);
    lemma_line_feeds(Seq::empty(), b);
    assert(Seq::<char>::empty() + b =~= b);
    assert(b.contains(b.last()));
    assert((a.push('\n') + b).last() == b.last());
}

proof fn lemma_line_feeds(a: Seq<char>, b: Seq<char>)
    requires
        !b.contains('\n'),
    ensures
        gerber_ascii::line_feeds(a + b) == gerber_ascii::line_feeds(a),
    decreases b.len(),
{
    if b.len() == 0 {
        assert(a + b =~= a);
    } else {
        let t = b.drop_last();
        assert(!t.contains('\n')) by {
            if t.contains('\n') {
                let i = choose|i: int| 0 <= i < t.len() && t[i] == '\n';
                assert(b[i] == '\n');
            }
        }
        lemma_line_feeds(a, t);
        assert((a + b).drop_last() =~= a + t);
        assert(b.contains(b.last()));
        assert((a + b).last() == b.last());
    }
}

} // verus!
