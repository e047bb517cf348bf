//! Every text that is not too large stands on its anchor.
use crate::fixed;
use crate::fixed::{Fixed, ONE};
use crate::gerber;
use crate::gerber::corners::Pen;
use crate::gerber::GerberView;
use crate::gerber_ascii;
use crate::gerber_ascii::{AsciiText, HAlign, VAlign, Writing};
use crate::gerber_types::{
    ApertureView, CommandView, CoordinateNumber, Coordinates, InterpolationMode, Unit,
};
use crate::laws::moves;
use crate::laws::texts;
use crate::laws::texts::{law_font_draws, law_text_anchor, lemma_half, STEP};
use crate::layer_type::LayerType;
use crate::scalar::Scalar;
use crate::Pos;
use vstd::prelude::*;

verus! {

/// How far the points of a character of a font may lie from its origin: 100 mm.
pub const MAX_GLYPH: i64 = 100_000_000_000;

/// What the size of a text times its length may come to: 10 km.
pub const MAX_EXTENT: i64 = 10_000_000_000_000_000;

/// How many characters a text may have.
pub const MAX_LENGTH: i64 = 1_000_000_000;

/// The lines of a text are at most ten times as thick as it is high.
pub const MAX_RATIO: i64 = 10_000_000_000;

/// How far the points of a text lie from the start of its last line, at most.
pub const TEXT_REACH: i64 = 700_000_000_000_000_000;

/// How far a pen reaches, at most.
pub const PEN_REACH: i64 = 100_000_000_000_000_000;

/// How far the points of a scaled character lie from its origin, at most.
pub open spec fn glyph_reach(size: int) -> int {
    34 * size + 101
}

/// How far a character moves the next one, at most.
pub open spec fn stride(size: int) -> int {
    69 * size + 2000
}

/// How far two lines are apart, at most.
pub open spec fn pitch(size: int) -> int {
    2 * size + 1
}

/// A coordinate, in nine decimal places.
pub open spec fn axis_within(v: Option<CoordinateNumber>, r: int) -> bool {
    v matches Some(v) ==> -r <= v.nano * 1000 <= r
}

pub open spec fn point_within(c: CommandView<Fixed>, r: int, s: int) -> bool {
    gerber::corners::command_point(c) matches Some(p) ==> axis_within(p.x, r) && axis_within(p.y, s)
}

pub open spec fn points_within(s: Seq<CommandView<Fixed>>, r: int) -> bool {
    forall|i: int| 0 <= i < s.len() ==> point_within(#[trigger] s[i], r, r)
}

/// A character that is drawn: it has points on both axes, none of them far from its origin.
pub open spec fn is_drawn(glyph: Seq<CommandView<Fixed>>) -> bool {
    moves::given(glyph) == (true, true) && points_within(glyph, MAX_GLYPH as int)
}

/// The size of the text is positive, and neither it nor the text is out of all proportion.
pub open spec fn is_moderate(format: AsciiText<Fixed>, text: Seq<char>) -> bool {
    &&& 0 < format.size.raw
    &&& format.size.raw * (text.len() + 1) <= MAX_EXTENT
    &&& text.len() <= MAX_LENGTH
    &&& 0 <= format.ratio.raw <= MAX_RATIO
}

proof fn lemma_round_div(n: int, d: int, most: int)
    requires
        d > 0,
        most >= 0,
        -most * d <= n <= most * d,
    ensures
        -most - 1 <= fixed::round_div(n, d) <= most + 1,
        n >= 0 ==> fixed::round_div(n, d) >= 0,
{
    let q = fixed::abs(n) / d;
    assert(-most * d == -(most * d)) by (nonlinear_arith);
    assert(0 <= q <= most) by (nonlinear_arith)
        requires
            q == fixed::abs(n) / d,
            0 <= fixed::abs(n) <= most * d,
            d > 0,
    ;
}

/// A product with a number from zero on.
proof fn lemma_product(a: Fixed, b: Fixed, most: int)
    requires
        0 <= most < i64::MAX,
        -most * ONE <= a.raw * b.raw <= most * ONE,
    ensures
        -most - 1 <= a.times_spec(b).raw <= most + 1,
        a.raw * b.raw >= 0 ==> a.times_spec(b).raw >= 0,
{
    lemma_round_div(a.raw * b.raw, ONE as int, most);
}

proof fn lemma_factor(format: AsciiText<Fixed>)
    requires
        0 < format.size.raw <= MAX_EXTENT,
    ensures
        0 <= format.factor().raw,
        3 * format.factor().raw <= format.size.raw + 6,
{
    let s = format.size.raw as int;
    let three = Fixed::ratio_spec(3, 1);
    assert(three.raw == 3 * ONE);
    let most = s / 3 + 1;
    assert(0 <= s * ONE <= most * (3 * ONE)) by (nonlinear_arith)
        requires
            most == s / 3 + 1,
            s > 0,
            ONE == 1_000_000_000,
    ;
    assert(-most * (3 * ONE) <= 0) by (nonlinear_arith)
        requires
            most >= 0,
            ONE == 1_000_000_000,
    ;
    lemma_round_div(s * ONE, 3 * ONE, most);
}

/// A coordinate of a character in the size of the text.
proof fn lemma_scaled_axis(format: AsciiText<Fixed>, v: Option<CoordinateNumber>)
    requires
        0 < format.size.raw <= MAX_EXTENT,
        axis_within(v, MAX_GLYPH as int),
    ensures
        gerber::edit::scaled_axis(v, format.factor()) is Some <==> v is Some,
        axis_within(
            gerber::edit::scaled_axis(v, format.factor()),
            glyph_reach(format.size.raw as int),
        ),
{
    if let Some(n) = v {
        let f = format.factor();
        let a = Fixed::from_nano_spec(n.nano);
        lemma_factor(format);
        assert(a.raw == n.nano * 1000);
        let most = 100 * f.raw;
        assert(-most * ONE <= a.raw * f.raw <= most * ONE) by (nonlinear_arith)
            requires
                -MAX_GLYPH <= a.raw <= MAX_GLYPH,
                f.raw >= 0,
                most == 100 * f.raw,
                ONE == 1_000_000_000,
                MAX_GLYPH == 100_000_000_000,
        ;
        lemma_product(a, f, most);
        let p = a.times_spec(f);
        assert(-glyph_reach(format.size.raw as int) <= p.raw <= glyph_reach(
            format.size.raw as int,
        ));
        assert(p.to_nano_spec() == Some(fixed::trunc_div(p.raw as int, 1000) as i64));
    }
}

/// A character in the size of the text.
proof fn lemma_glyph(format: AsciiText<Fixed>, c: char, font: Seq<Seq<CommandView<Fixed>>>)
    requires
        0 < format.size.raw <= MAX_EXTENT,
        is_drawn(font[gerber_ascii::glyph_place(c)]),
    ensures
        points_within(format.glyph(c, font), glyph_reach(format.size.raw as int)),
        moves::given(format.glyph(c, font)) == (true, true),
{
    let g = font[gerber_ascii::glyph_place(c)];
    let t = format.glyph(c, font);
    assert forall|i: int| 0 <= i < t.len() implies point_within(
        #[trigger] t[i],
        glyph_reach(format.size.raw as int),
        glyph_reach(format.size.raw as int),
    ) && same_axes(g[i], t[i]) by {
        assert(point_within(g[i], MAX_GLYPH as int, MAX_GLYPH as int));
        if let Some(p) = gerber::corners::command_point(g[i]) {
            lemma_scaled_axis(format, p.x);
            lemma_scaled_axis(format, p.y);
        }
    }
    lemma_same_given(g, t);
}

/// The two commands give points on the same axes.
pub open spec fn same_axes(c: CommandView<Fixed>, d: CommandView<Fixed>) -> bool {
    match gerber::corners::command_point(c) {
        Some(p) => gerber::corners::command_point(d) matches Some(q) && (p.x is Some) == (
        q.x is Some) && (p.y is Some) == (q.y is Some),
        None => gerber::corners::command_point(d) is None,
    }
}

proof fn lemma_same_given(s: Seq<CommandView<Fixed>>, t: Seq<CommandView<Fixed>>)
    requires
        s.len() == t.len(),
        forall|i: int| 0 <= i < s.len() ==> same_axes(s[i], #[trigger] t[i]),
    ensures
        moves::given(s) == moves::given(t),
    decreases s.len(),
{
    if s.len() > 0 {
        let a = s.drop_last();
        let b = t.drop_last();
        assert forall|i: int| 0 <= i < a.len() implies same_axes(a[i], #[trigger] b[i]) by {
            assert(same_axes(s[i], t[i]));
        }
        lemma_same_given(a, b);
        assert(same_axes(s[s.len() - 1], t[t.len() - 1]));
    }
}

proof fn lemma_given_concat(a: Seq<CommandView<Fixed>>, b: Seq<CommandView<Fixed>>)
    ensures
        moves::given(a + b).0 == (moves::given(a).0 || moves::given(b).0),
        moves::given(a + b).1 == (moves::given(a).1 || moves::given(b).1),
    decreases b.len(),
{
    if b.len() == 0 {
        assert(a + b =~= a);
    } else {
        lemma_given_concat(a, b.drop_last());
        assert((a + b).drop_last() =~= a + b.drop_last());
        assert((a + b).last() == b.last());
    }
}

/// The box lies within `r` of the origin; on an axis that is not given it is empty.
pub open spec fn box_within(b: (Pos<Fixed>, Pos<Fixed>), k: (bool, bool), r: int) -> bool {
    &&& if k.0 {
        -r <= b.0.x.raw <= r && -r <= b.1.x.raw <= r
    } else {
        b.0.x.raw == i64::MAX && b.1.x.raw == i64::MIN
    }
    &&& if k.1 {
        -r <= b.0.y.raw <= r && -r <= b.1.y.raw <= r
    } else {
        b.0.y.raw == i64::MAX && b.1.y.raw == i64::MIN
    }
}

pub open spec fn tool_within(tool: Option<(Pos<Fixed>, Pos<Fixed>)>, t: int) -> bool {
    tool matches Some((a, b)) ==> -t <= a.x.raw <= t && -t <= a.y.raw <= t && -t <= b.x.raw <= t
        && -t <= b.y.raw <= t
}

proof fn lemma_box_grows(
    b: (Pos<Fixed>, Pos<Fixed>),
    p: Coordinates,
    tool: Option<(Pos<Fixed>, Pos<Fixed>)>,
    k: (bool, bool),
    r: int,
    t: int,
)
    requires
        0 <= t,
        0 <= r,
        r + t <= moves::REACH,
        box_within(b, k, r + t),
        axis_within(p.x, r),
        axis_within(p.y, r),
        tool_within(tool, t),
    ensures
        box_within(
            gerber::corners::with_coordinates(b, p, Unit::Millimeters, tool),
            (k.0 || p.x is Some, k.1 || p.y is Some),
            r + t,
        ),
{
    if let Some(x) = p.x {
        assert(gerber::corners::in_mm::<Fixed>(x, Unit::Millimeters).raw == x.nano * 1000);
    }
    if let Some(y) = p.y {
        assert(gerber::corners::in_mm::<Fixed>(y, Unit::Millimeters).raw == y.nano * 1000);
    }
}

proof fn lemma_points_box(s: Seq<CommandView<Fixed>>, r: int)
    requires
        0 <= r <= moves::REACH,
        points_within(s, r),
    ensures
        box_within(gerber::corners::points_box(s, Unit::Millimeters), moves::given(s), r),
    decreases s.len(),
{
    if s.len() > 0 {
        let d = s.drop_last();
        assert forall|i: int| 0 <= i < d.len() implies point_within(#[trigger] d[i], r, r) by {
            assert(d[i] == s[i]);
        }
        lemma_points_box(d, r);
        assert(point_within(s[s.len() - 1], r, r));
        if let Some(p) = gerber::corners::command_point(s.last()) {
            lemma_box_grows(
                gerber::corners::points_box(d, Unit::Millimeters),
                p,
                None,
                moves::given(d),
                r,
                0,
            );
        }
    }
}

/// What was written behind `k` of `n` characters.
pub open spec fn writes_within(w: Writing<Fixed>, k: int, n: int, size: int) -> bool {
    &&& -k * stride(size) <= w.pos.x.raw <= k * stride(size)
    &&& -(n + k) * pitch(size) <= w.pos.y.raw <= (n + k) * pitch(size)
    &&& points_within(w.commands, TEXT_REACH as int)
}

/// Nothing leaves the reach of a text of moderate size.
proof fn lemma_room(size: int, n: int, k: int)
    requires
        0 < size,
        size * (n + 1) <= MAX_EXTENT,
        n <= MAX_LENGTH,
        0 <= k < n,
    ensures
        size <= MAX_EXTENT,
        0 <= k * stride(size),
        k * stride(size) + stride(size) == (k + 1) * stride(size),
        -k * stride(size) == -(k * stride(size)),
        k * stride(size) + stride(size) <= TEXT_REACH,
        0 <= (n + k) * pitch(size),
        (n + k) * pitch(size) + pitch(size) == (n + k + 1) * pitch(size),
        -(n + k) * pitch(size) == -((n + k) * pitch(size)),
        (n + k) * pitch(size) + glyph_reach(size) + STEP <= TEXT_REACH,
{
    let a = stride(size);
    let h = pitch(size);
    assert(size <= MAX_EXTENT) by (nonlinear_arith)
        requires
            0 < size,
            0 <= n,
            size * (n + 1) <= MAX_EXTENT,
    ;
    assert((k + 1) * size <= MAX_EXTENT) by (nonlinear_arith)
        requires
            0 < size,
            0 <= k < n,
            size * (n + 1) <= MAX_EXTENT,
    ;
    assert((k + 1) * a == 69 * ((k + 1) * size) + 2000 * (k + 1)) by (nonlinear_arith)
        requires
            a == 69 * size + 2000,
    ;
    assert(k * a + a == (k + 1) * a && -k * a == -(k * a)) by (nonlinear_arith);
    assert(0 <= k * a) by (nonlinear_arith)
        requires
            0 <= k,
            0 <= a,
    ;
    let m = n + k;
    assert(m * size <= 2 * MAX_EXTENT) by (nonlinear_arith)
        requires
            0 < size,
            0 <= m <= 2 * n,
            size * (n + 1) <= MAX_EXTENT,
    ;
    assert(m * h == 2 * (m * size) + m) by (nonlinear_arith)
        requires
            h == 2 * size + 1,
    ;
    assert(m * h + h == (m + 1) * h && -m * h == -(m * h)) by (nonlinear_arith);
    assert(0 <= m * h) by (nonlinear_arith)
        requires
            0 <= m,
            0 <= h,
    ;
}

proof fn lemma_line_height(format: AsciiText<Fixed>)
    requires
        0 < format.size.raw <= MAX_EXTENT,
    ensures
        0 <= format.line_height().raw <= pitch(format.size.raw as int),
{
    let s = format.size.raw as int;
    let high = gerber_ascii::text_height::<Fixed>().over_spec(Fixed::ratio_spec(6, 1));
    assert(gerber_ascii::text_height::<Fixed>().raw == 9_657_700_000);
    assert(Fixed::ratio_spec(6, 1).raw == 6 * ONE);
    assert(high.raw == 1_609_616_667);
    let most = 2 * s;
    assert(0 <= high.raw * s <= most * ONE && -most * ONE <= 0) by (nonlinear_arith)
        requires
            high.raw == 1_609_616_667,
            0 < s,
            most == 2 * s,
            ONE == 1_000_000_000,
    ;
    lemma_product(high, format.size, most);
}

/// A part of the size of the text.
proof fn lemma_part(format: AsciiText<Fixed>, tenths: i64)
    requires
        0 < format.size.raw <= MAX_EXTENT,
        0 <= tenths <= 10,
    ensures
        0 <= Fixed::ratio_spec(tenths, 10).times_spec(format.size).raw <= format.size.raw + 1,
{
    let s = format.size.raw as int;
    let f = Fixed::ratio_spec(tenths, 10);
    assert(0 <= tenths * ONE <= ONE * 10 && -ONE * 10 <= 0);
    lemma_round_div(tenths * ONE, 10, tenths * 100_000_000);
    assert(f.raw == tenths * 100_000_000) by {
        assert(fixed::abs(tenths * ONE) / 10 == tenths * 100_000_000);
        assert(fixed::abs(tenths * ONE) % 10 == 0);
    }
    assert(0 <= f.raw * s <= s * ONE && -s * ONE <= 0) by (nonlinear_arith)
        requires
            0 <= f.raw <= ONE,
            0 < s,
            ONE == 1_000_000_000,
    ;
    lemma_product(f, format.size, s);
}

/// A coordinate of a character where it is written.
proof fn lemma_moved_axis(v: Option<CoordinateNumber>, d: Fixed, r: int, p: int)
    requires
        0 <= r,
        0 <= p,
        r + p + STEP <= moves::REACH,
        axis_within(v, r),
        -p <= d.raw <= p,
    ensures
        gerber::edit::shifted(v, d, Unit::Millimeters) is Some <==> v is Some,
        axis_within(gerber::edit::shifted(v, d, Unit::Millimeters), r + p + STEP),
{
    if let Some(x) = v {
        let w = texts::lemma_point_near(x, d);
    }
}

/// A character where it is written.
proof fn lemma_moved_glyph(g: Seq<CommandView<Fixed>>, by: Pos<Fixed>, r: int, px: int, py: int)
    requires
        points_within(g, r),
        0 <= r,
        0 <= px,
        0 <= py,
        -px <= by.x.raw <= px,
        -py <= by.y.raw <= py,
        r + px + STEP <= TEXT_REACH,
        r + py + STEP <= TEXT_REACH,
    ensures
        points_within(
            gerber::edit::moved_commands(g, by, Unit::Millimeters),
            TEXT_REACH as int,
        ),
        moves::given(gerber::edit::moved_commands(g, by, Unit::Millimeters)) == moves::given(g),
{
    let m = gerber::edit::moved_commands(g, by, Unit::Millimeters);
    assert forall|i: int| 0 <= i < m.len() implies point_within(
        #[trigger] m[i],
        TEXT_REACH as int,
        TEXT_REACH as int,
    ) && same_axes(g[i], m[i]) by {
        assert(point_within(g[i], r, r));
        if let Some(p) = gerber::corners::command_point(g[i]) {
            lemma_moved_axis(p.x, by.x, r, px);
            lemma_moved_axis(p.y, by.y, r, py);
        }
    }
    lemma_same_given(g, m);
}

/// How far a character moves the next one.
proof fn lemma_advance(format: AsciiText<Fixed>, c: char, font: Seq<Seq<CommandView<Fixed>>>)
    requires
        0 < format.size.raw <= MAX_EXTENT,
        is_drawn(font[gerber_ascii::glyph_place(c)]),
    ensures
        -stride(format.size.raw as int) <= format.advance(c, font).raw <= stride(
            format.size.raw as int,
        ),
{
    lemma_glyph(format, c, font);
    lemma_points_box(format.glyph(c, font), glyph_reach(format.size.raw as int));
    lemma_part(format, 3);
}

/// A character is written.
proof fn lemma_character(
    format: AsciiText<Fixed>,
    w: Writing<Fixed>,
    c: char,
    font: Seq<Seq<CommandView<Fixed>>>,
    k: int,
    n: int,
)
    requires
        0 < format.size.raw,
        format.size.raw * (n + 1) <= MAX_EXTENT,
        n <= MAX_LENGTH,
        0 <= k < n,
        writes_within(w, k, n, format.size.raw as int),
        gerber_ascii::is_printable(c),
        is_drawn(font[gerber_ascii::glyph_place(c)]),
    ensures
        writes_within(format.after(w, c, font), k + 1, n, format.size.raw as int),
        moves::given(format.after(w, c, font).commands) == (true, true),
{
    let s = format.size.raw as int;
    let g = format.glyph(c, font);
    let m = gerber::edit::moved_commands(g, w.pos, Unit::Millimeters);
    let px = k * stride(s);
    let py = (n + k) * pitch(s);
    lemma_room(s, n, k);
    lemma_glyph(format, c, font);
    lemma_moved_glyph(g, w.pos, glyph_reach(s), px, py);
    lemma_advance(format, c, font);
    lemma_given_concat(w.commands, m);
    let all = w.commands + m;
    assert forall|i: int| 0 <= i < all.len() implies point_within(
        #[trigger] all[i],
        TEXT_REACH as int,
        TEXT_REACH as int,
    ) by {
        if i < w.commands.len() {
            assert(all[i] == w.commands[i]);
        } else {
            assert(all[i] == m[i - w.commands.len()]);
        }
    }
    assert(-(k + 1) * stride(s) == -((k + 1) * stride(s))) by (nonlinear_arith);
    assert(-(n + k + 1) * pitch(s) == -((n + k + 1) * pitch(s))) by (nonlinear_arith);
    assert(n + (k + 1) == n + k + 1);
}

/// Anything but a character of the font is written.
proof fn lemma_gap(
    format: AsciiText<Fixed>,
    w: Writing<Fixed>,
    c: char,
    font: Seq<Seq<CommandView<Fixed>>>,
    k: int,
    n: int,
)
    requires
        0 < format.size.raw,
        format.size.raw * (n + 1) <= MAX_EXTENT,
        n <= MAX_LENGTH,
        0 <= k < n,
        writes_within(w, k, n, format.size.raw as int),
        !gerber_ascii::is_printable(c),
    ensures
        writes_within(format.after(w, c, font), k + 1, n, format.size.raw as int),
        format.after(w, c, font).commands == w.commands,
{
    let s = format.size.raw as int;
    lemma_room(s, n, k);
    lemma_part(format, 6);
    lemma_line_height(format);
    assert(-(k + 1) * stride(s) == -((k + 1) * stride(s))) by (nonlinear_arith);
    assert(-(n + k + 1) * pitch(s) == -((n + k + 1) * pitch(s))) by (nonlinear_arith);
    assert(n + (k + 1) == n + k + 1);
}

/// Where the first line starts.
proof fn lemma_first(format: AsciiText<Fixed>, lines: nat, n: int)
    requires
        0 < format.size.raw,
        format.size.raw * (n + 1) <= MAX_EXTENT,
        n <= MAX_LENGTH,
        lines <= n,
    ensures
        writes_within(format.first(lines), 0, n, format.size.raw as int),
        moves::given(format.first(lines).commands) == (false, false),
{
    let s = format.size.raw as int;
    let w = format.first(lines);
    let h = format.line_height();
    let c: int = if lines > 0 {
        lines - 1
    } else {
        0
    };
    assert(s <= MAX_EXTENT) by (nonlinear_arith)
        requires
            0 < s,
            0 <= n,
            s * (n + 1) <= MAX_EXTENT,
    ;
    lemma_line_height(format);
    let count = Fixed::count_spec(c as u64);
    assert(count.raw == c * ONE);
    let most = c * pitch(s);
    assert(0 <= count.raw * h.raw <= most * ONE && -most * ONE <= 0 && 0 <= most)
        by (nonlinear_arith)
        requires
            count.raw == c * ONE,
            0 <= c,
            0 <= h.raw <= pitch(s),
            most == c * pitch(s),
            ONE == 1_000_000_000,
    ;
    assert(c * s <= MAX_EXTENT) by (nonlinear_arith)
        requires
            0 < s,
            0 <= c <= n,
            s * (n + 1) <= MAX_EXTENT,
    ;
    assert(most == 2 * (c * s) + c) by (nonlinear_arith)
        requires
            most == c * pitch(s),
            pitch(s) == 2 * s + 1,
    ;
    lemma_product(count, h, most);
    assert(n >= 1 ==> most + 1 <= n * pitch(s)) by (nonlinear_arith)
        requires
            most == c * pitch(s),
            c <= n - 1 || n == 0,
            1 <= pitch(s),
    ;
    assert(n == 0 ==> count.times_spec(h).raw == 0) by {
        if n == 0 {
            assert(count.raw == 0);
            assert(count.raw * h.raw == 0);
        }
    }
    assert(-(n + 0) * pitch(s) == -(n * pitch(s))) by (nonlinear_arith);
    assert(0 * stride(s) == 0 && -0 * stride(s) == 0);
    reveal_with_fuel(moves::given, 3);
}

proof fn lemma_written(
    format: AsciiText<Fixed>,
    text: Seq<char>,
    lines: nat,
    font: Seq<Seq<CommandView<Fixed>>>,
    n: int,
)
    requires
        0 < format.size.raw,
        format.size.raw * (n + 1) <= MAX_EXTENT,
        n <= MAX_LENGTH,
        lines <= n,
        text.len() <= n,
        forall|i: int|
            0 <= i < text.len() && gerber_ascii::is_printable(#[trigger] text[i]) ==> is_drawn(
                font[gerber_ascii::glyph_place(text[i])],
            ),
    ensures
        writes_within(
            format.written(text, lines, font),
            text.len() as int,
            n,
            format.size.raw as int,
        ),
        (exists|i: int| 0 <= i < text.len() && gerber_ascii::is_printable(#[trigger] text[i]))
            ==> moves::given(format.written(text, lines, font).commands) == (true, true),
    decreases text.len(),
{
    if text.len() == 0 {
        lemma_first(format, lines, n);
    } else {
        let d = text.drop_last();
        let c = text.last();
        let w = format.written(d, lines, font);
        assert forall|i: int|
            0 <= i < d.len() && gerber_ascii::is_printable(#[trigger] d[i]) implies is_drawn(
            font[gerber_ascii::glyph_place(d[i])],
        ) by {
            assert(d[i] == text[i]);
        }
        lemma_written(format, d, lines, font, n);
        assert(c == text[text.len() - 1]);
        if gerber_ascii::is_printable(c) {
            lemma_character(format, w, c, font, d.len() as int, n);
        } else {
            lemma_gap(format, w, c, font, d.len() as int, n);
            if exists|i: int| 0 <= i < text.len() && gerber_ascii::is_printable(#[trigger] text[i]) {
                let i = choose|i: int|
                    0 <= i < text.len() && gerber_ascii::is_printable(#[trigger] text[i]);
                assert(d[i] == text[i]);
            }
        }
    }
}

/// The pen draws straight lines within the reach of a text.
pub open spec fn pen_within(p: Pen<Fixed>, k: (bool, bool)) -> bool {
    &&& p.mode == InterpolationMode::Linear
    &&& tool_within(p.tool, PEN_REACH as int)
    &&& box_within(p.corners, k, TEXT_REACH + PEN_REACH)
}

proof fn lemma_drawn(v: GerberView<Fixed>, n: int)
    requires
        v.unit == Unit::Millimeters,
        points_within(v.commands, TEXT_REACH as int),
        forall|i: int| 0 <= i < v.commands.len() ==> texts::is_straight(#[trigger] v.commands[i]),
        forall|id: i32|
            #![trigger crate::table::lookup(v.apertures, id)]
            crate::table::lookup(v.apertures, id) matches Some(a) ==> tool_within(
                Some(gerber::corners::tool_box(a)),
                PEN_REACH as int,
            ),
        0 <= n <= v.commands.len(),
    ensures
        pen_within(
            gerber::corners::drawn(v.commands.take(n), v.apertures, v.unit),
            moves::given(v.commands.take(n)),
        ),
    decreases n,
{
    let s = v.commands.take(n);
    if n > 0 {
        lemma_drawn(v, n - 1);
        assert(s.drop_last() =~= v.commands.take(n - 1));
        let c = v.commands[n - 1];
        let p = gerber::corners::drawn(s.drop_last(), v.apertures, v.unit);
        assert(texts::is_straight(c) && point_within(c, TEXT_REACH as int, TEXT_REACH as int));
        if let Some(a) = gerber::corners::command_point(c) {
            let k = moves::given(s.drop_last());
            lemma_box_grows(p.corners, a, None, k, TEXT_REACH as int, PEN_REACH as int);
            lemma_box_grows(p.corners, a, p.tool, k, TEXT_REACH as int, PEN_REACH as int);
        }
    }
}

/// The pen of a text.
proof fn lemma_pen(format: AsciiText<Fixed>)
    requires
        0 < format.size.raw <= MAX_EXTENT,
        0 <= format.ratio.raw <= MAX_RATIO,
    ensures
        tool_within(
            Some(
                gerber::corners::tool_box(
                    ApertureView::Circle(
                        crate::gerber_types::Circle {
                            diameter: format.size.times_spec(format.ratio),
                            hole_diameter: None,
                        },
                    ),
                ),
            ),
            PEN_REACH as int,
        ),
{
    let s = format.size.raw as int;
    let r = format.ratio.raw as int;
    let most = 10 * s;
    assert(0 <= s * r <= most * ONE && -most * ONE <= 0) by (nonlinear_arith)
        requires
            0 < s,
            0 <= r <= 10 * ONE,
            most == 10 * s,
            ONE == 1_000_000_000,
    ;
    lemma_product(format.size, format.ratio, most);
    lemma_half(format.size.times_spec(format.ratio));
}

/// The text is written with points on both axes, and so that it can be moved to its anchor.
proof fn lemma_can_be_moved(
    format: AsciiText<Fixed>,
    text: Seq<char>,
    layer_type: LayerType,
    font: Seq<Seq<CommandView<Fixed>>>,
)
    requires
        font.len() == gerber_ascii::CHAR_SIZE,
        forall|i: int| 0 <= i < font.len() ==> texts::is_drawing(#[trigger] font[i]),
        is_moderate(format, text),
        forall|i: int|
            0 <= i < text.len() && gerber_ascii::is_printable(#[trigger] text[i]) ==> is_drawn(
                font[gerber_ascii::glyph_place(text[i])],
            ),
        exists|i: int| 0 <= i < text.len() && gerber_ascii::is_printable(#[trigger] text[i]),
    ensures
        ({
            let v = format.unaligned(text, layer_type, font);
            &&& moves::plain_layer(v)
            &&& moves::given(v.commands) == (true, true)
            &&& moves::small_move(format.anchor_shift(gerber::corners::layer_corners(v)))
        }),
{
    let v = format.unaligned(text, layer_type, font);
    let lines = gerber_ascii::line_count(text);
    gerber_ascii::lemma_fewer_line_feeds(text);
    assert(format.size.raw <= MAX_EXTENT) by (nonlinear_arith)
        requires
            0 < format.size.raw,
            format.size.raw * (text.len() + 1) <= MAX_EXTENT,
    ;
    lemma_written(format, text, lines, font, text.len() as int);
    texts::lemma_written_straight(format, text, lines, font);
    lemma_pen(format);
    assert forall|id: i32|
        #![trigger crate::table::lookup(v.apertures, id)]
        crate::table::lookup(v.apertures, id) matches Some(a) implies tool_within(
        Some(gerber::corners::tool_box(crate::table::lookup(v.apertures, id)->0)),
        PEN_REACH as int,
    ) by {
        reveal_with_fuel(crate::table::place, 2);
    }
    assert forall|i: int| 0 <= i < v.commands.len() implies moves::plain_point(
        #[trigger] v.commands[i],
        gerber::corners::drawn(v.commands.take(i), v.apertures, v.unit).mode,
        moves::given(v.commands.take(i)),
    ) by {
        lemma_drawn(v, i);
        assert(point_within(v.commands[i], TEXT_REACH as int, TEXT_REACH as int));
    }
    lemma_drawn(v, v.commands.len() as int);
    assert(v.commands.take(v.commands.len() as int) =~= v.commands);
    let b = gerber::corners::layer_corners(v);
    lemma_half(b.0.x.plus_spec(b.1.x).negated_spec());
    lemma_half(b.0.y.plus_spec(b.1.y).negated_spec());
}

/// The origin of a text with a character in it is its anchor: the side of the bounding box, or the
/// middle between two sides, that the alignment names, to less than the smallest step between two
/// coordinates. `s` is the drawing of the font.
pub proof fn law_text_stands_on_anchor(
    format: AsciiText<Fixed>,
    text: Seq<char>,
    layer_type: LayerType,
    s: Seq<CommandView<Fixed>>,
)
    requires
        gerber_ascii::is_font(s),
        is_moderate(format, text),
        forall|i: int|
            0 <= i < text.len() && gerber_ascii::is_printable(#[trigger] text[i]) ==> is_drawn(
                gerber_ascii::font_of(s)[gerber_ascii::glyph_place(text[i])],
            ),
        exists|i: int| 0 <= i < text.len() && gerber_ascii::is_printable(#[trigger] text[i]),
    ensures
        ({
            let (min, max) = gerber::corners::layer_corners(
                format.built(text, layer_type, gerber_ascii::font_of(s)),
            );
            &&& match format.h_align {
                HAlign::Left => -STEP < min.x.raw < STEP,
                HAlign::Center => -2 * STEP < min.x.raw + max.x.raw < 2 * STEP,
                HAlign::Right => -STEP < max.x.raw < STEP,
            }
            &&& match format.v_align {
                VAlign::Bottom => -STEP < min.y.raw < STEP,
                VAlign::Middle => -2 * STEP < min.y.raw + max.y.raw < 2 * STEP,
                VAlign::Top => -STEP < max.y.raw < STEP,
            }
        }),
{
    law_font_draws(s);
    lemma_can_be_moved(format, text, layer_type, gerber_ascii::font_of(s));
    law_text_anchor(format, text, layer_type, gerber_ascii::font_of(s));
}

} // verus!
