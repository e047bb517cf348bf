//! Vector text rendering for Gerber layers.
//!
//! Converts ASCII strings into RS-274X draw commands using a stroke font.
//!
//! The entry point is [`AsciiText`]: create it once with the desired size and
//! alignment, then call [`AsciiText::build`] as many times as needed to produce
//! independent [`GerberLayerData`] layers.
use crate::gerber::corners::{commands_corners, in_range};
use crate::gerber::edit::{are_scalable, scale_commands, transform_commands};
use crate::gerber::load::{DocumentView, GerberDocument};
use crate::gerber::{GerberLayerData, GerberView};
use crate::gerber_types::{
    clone_commands, Aperture, ApertureView, Circle, Command, CommandView, CoordinateFormat,
    CoordinateMode, DCode, FunctionCode, GCode, InterpolationMode, Operation, Unit, ZeroOmission,
};
use crate::layer_type::LayerType;
use crate::scalar::Scalar;
use crate::{LayerCorners, LayerTransform, Pos};
use vstd::prelude::*;

verus! {

/// How many characters a font has: those from `!` to `~`.
pub const CHAR_SIZE: u8 = 94;

/// Horizontal text alignment relative to the origin (0, 0)
#[derive(Clone, Copy, Debug, PartialEq, Eq, Structural)]
pub enum HAlign {
    /// Origin is at the left edge of the text block
    Left,
    /// Origin is at the horizontal center of the text block
    Center,
    /// Origin is at the right edge of the text block
    Right,
}

/// Vertical text alignment relative to the origin (0, 0)
#[derive(Clone, Copy, Debug, PartialEq, Eq, Structural)]
pub enum VAlign {
    /// Origin is at the bottom edge of the text block
    Bottom,
    /// Origin is at the vertical center of the text block
    Middle,
    /// Origin is at the top edge of the text block
    Top,
}

impl Default for HAlign {
    fn default() -> (r: HAlign)
        ensures
            r == HAlign::Left,
    {
        HAlign::Left
    }
}

impl Default for VAlign {
    fn default() -> (r: VAlign)
        ensures
            r == VAlign::Bottom,
    {
        VAlign::Bottom
    }
}

/// Reusable format configuration for rendering ASCII text as a Gerber layer
#[derive(Copy)]
pub struct AsciiText<N> {
    pub size: N,
    pub ratio: N,
    pub h_align: HAlign,
    pub v_align: VAlign,
}

impl<N: Copy> Clone for AsciiText<N> {
    fn clone(&self) -> (r: Self)
        ensures
            r == *self,
    {
        *self
    }
}

/// The height of a row of the font.
pub open spec fn text_height<N: Scalar>() -> N {
    N::ratio_spec(96577, 10000)
}

/// How many lines a text has. A line feed at the end starts no new line.
pub open spec fn line_count(s: Seq<char>) -> nat
    decreases s.len(),
{
    if s.len() == 0 {
        0
    } else {
        line_feeds(s) + if s.last() == '\n' {
            0nat
        } else {
            1nat
        }
    }
}

pub open spec fn line_feeds(s: Seq<char>) -> nat
    decreases s.len(),
{
    if s.len() == 0 {
        0
    } else {
        line_feeds(s.drop_last()) + if s.last() == '\n' {
            1nat
        } else {
            0nat
        }
    }
}

fn count_lines(s: &[char]) -> (n: usize)
    ensures
        n == line_count(s@),
{
    let end: usize = s.len();
    let mut n: usize = 0;
    let mut i: usize = 0;
    while i < end
        invariant
            i <= end,
            end == s@.len(),
            n == line_feeds(s@.take(i as int)),
            n <= i,
        decreases end - i,
    {
        proof {
            assert(s@.take(i + 1).drop_last() =~= s@.take(i as int));
            assert(s@.take(i + 1).last() == s@[i as int]);
        }
        if s[i] == '\n' {
            n = n + 1;
        }
        i = i + 1;
    }
    proof {
        assert(s@.take(i as int) =~= s@);
        if end > 0 && s@.last() != '\n' {
            lemma_fewer_line_feeds(s@);
        }
    }
    if end > 0 && s[end - 1] != '\n' {
        n + 1
    } else {
        n
    }
}

pub proof fn lemma_fewer_line_feeds(s: Seq<char>)
    ensures
        line_feeds(s) <= s.len(),
        s.len() > 0 && s.last() != '\n' ==> line_feeds(s) < s.len(),
    decreases s.len(),
{
    if s.len() > 0 {
        lemma_fewer_line_feeds(s.drop_last());
    }
}

/// The characters that the font has.
pub open spec fn is_printable(c: char) -> bool {
    '!' <= c && c <= '~'
}

/// The place of a character in the font.
pub open spec fn glyph_place(c: char) -> int {
    c as int - '!' as int
}

/// What has been written, and where the next character goes.
#[verifier::ext_equal]
pub ghost struct Writing<N> {
    pub commands: Seq<CommandView<N>>,
    pub pos: Pos<N>,
}

impl<N: Scalar> AsciiText<N> {
    /// The distance between two lines.
    pub open spec fn line_height(self) -> N {
        text_height::<N>().over_spec(N::ratio_spec(6, 1)).times_spec(self.size)
    }

    /// The factor from the font to the text.
    pub open spec fn factor(self) -> N {
        self.size.over_spec(N::ratio_spec(3, 1))
    }

    /// A character of the font in the size of the text, at the origin.
    pub open spec fn glyph(self, c: char, font: Seq<Seq<CommandView<N>>>) -> Seq<CommandView<N>> {
        crate::gerber::edit::scaled_commands(
            font[glyph_place(c)],
            crate::gerber::format_4_6(),
            self.factor(),
            self.factor(),
        )
    }

    /// How far a character of the font moves the next one.
    pub open spec fn advance(self, c: char, font: Seq<Seq<CommandView<N>>>) -> N {
        crate::box_size(
            crate::gerber::corners::points_box(self.glyph(c, font), Unit::Millimeters),
        ).width.plus_spec(N::ratio_spec(3, 10).times_spec(self.size))
    }

    /// A space moves on; a line feed goes to the start of the line below; a character that the font
    /// does not have is left out.
    pub open spec fn after(
        self,
        w: Writing<N>,
        c: char,
        font: Seq<Seq<CommandView<N>>>,
    ) -> Writing<N> {
        if c == ' ' {
            Writing {
                pos: Pos {
                    x: w.pos.x.plus_spec(N::ratio_spec(6, 10).times_spec(self.size)),
                    ..w.pos
                },
                ..w
            }
        } else if c == '\n' {
            Writing {
                pos: Pos { x: N::zero_spec(), y: w.pos.y.minus_spec(self.line_height()) },
                ..w
            }
        } else if is_printable(c) {
            Writing {
                commands: w.commands + crate::gerber::edit::moved_commands(
                    self.glyph(c, font),
                    w.pos,
                    Unit::Millimeters,
                ),
                pos: Pos { x: w.pos.x.plus_spec(self.advance(c, font)), ..w.pos },
            }
        } else {
            w
        }
    }

    /// The first line is the highest; the last one stands on the origin.
    pub open spec fn first(self, lines: nat) -> Writing<N> {
        Writing {
            commands: seq![
                Command::FunctionCode(FunctionCode::DCode(DCode::SelectAperture(10))),
                Command::FunctionCode(
                    FunctionCode::GCode(GCode::InterpolationMode(InterpolationMode::Linear)),
                ),
            ],
            pos: Pos {
                x: N::zero_spec(),
                y: N::count_spec(
                    if lines > 0 {
                        (lines - 1) as u64
                    } else {
                        0
                    },
                ).times_spec(self.line_height()),
            },
        }
    }

    pub open spec fn written(
        self,
        text: Seq<char>,
        lines: nat,
        font: Seq<Seq<CommandView<N>>>,
    ) -> Writing<N>
        decreases text.len(),
    {
        if text.len() == 0 {
            self.first(lines)
        } else {
            self.after(self.written(text.drop_last(), lines, font), text.last(), font)
        }
    }

    /// The layer with the text, its last line on the origin.
    pub open spec fn unaligned(
        self,
        text: Seq<char>,
        layer_type: LayerType,
        font: Seq<Seq<CommandView<N>>>,
    ) -> GerberView<N> {
        GerberView {
            commands: self.written(text, line_count(text), font).commands,
            apertures: seq![
                (
                    10i32,
                    ApertureView::Circle(
                        Circle {
                            diameter: self.size.times_spec(self.ratio),
                            hole_diameter: None,
                        },
                    ),
                ),
            ],
            ..crate::gerber::empty_layer(layer_type)
        }
    }

    /// How far a box is moved to bring its anchor to the origin.
    pub open spec fn anchor_shift(self, corners: (Pos<N>, Pos<N>)) -> Pos<N> {
        Pos {
            x: match self.h_align {
                HAlign::Left => corners.0.x.negated_spec(),
                HAlign::Center => corners.0.x.plus_spec(corners.1.x).negated_spec().over_spec(
                    N::ratio_spec(2, 1),
                ),
                HAlign::Right => corners.1.x.negated_spec(),
            },
            y: match self.v_align {
                VAlign::Bottom => corners.0.y.negated_spec(),
                VAlign::Middle => corners.0.y.plus_spec(corners.1.y).negated_spec().over_spec(
                    N::ratio_spec(2, 1),
                ),
                VAlign::Top => corners.1.y.negated_spec(),
            },
        }
    }

    /// The layer with the text, moved so that its anchor is the origin.
    pub open spec fn built(
        self,
        text: Seq<char>,
        layer_type: LayerType,
        font: Seq<Seq<CommandView<N>>>,
    ) -> GerberView<N> {
        self.aligned(self.unaligned(text, layer_type, font))
    }

    /// A layer, moved so that its anchor is the origin.
    pub open spec fn aligned(self, v: GerberView<N>) -> GerberView<N> {
        let shift = self.anchor_shift(crate::gerber::corners::layer_corners(v));
        if shift.x.same_spec(N::zero_spec()) && shift.y.same_spec(N::zero_spec()) {
            v
        } else {
            GerberLayerData::<N>::transformed(v, shift)
        }
    }

    /// The font has all characters, and those of the text stay within the range of coordinates.
    pub open spec fn can_build(
        self,
        text: Seq<char>,
        layer_type: LayerType,
        font: Seq<Seq<CommandView<N>>>,
    ) -> bool {
        &&& self.can_write(text, font)
        &&& crate::gerber::corners::layer_fits(self.unaligned(text, layer_type, font))
    }

    /// The character stays within the range of coordinates in the size of the text.
    pub open spec fn glyph_fits(self, c: char, font: Seq<Seq<CommandView<N>>>) -> bool {
        is_printable(c) ==> {
            &&& crate::gerber::edit::commands_scalable(
                font[glyph_place(c)],
                self.factor(),
                self.factor(),
            )
            &&& crate::gerber::corners::commands_fit(self.glyph(c, font), Unit::Millimeters)
        }
    }

    /// The font has all characters, and each of those of the text fits.
    pub open spec fn can_write(self, text: Seq<char>, font: Seq<Seq<CommandView<N>>>) -> bool {
        &&& font.len() == CHAR_SIZE
        &&& forall|i: int| 0 <= i < text.len() ==> self.glyph_fits(#[trigger] text[i], font)
    }

    /// Creates a new `AsciiText` format.
    ///
    /// - `size`: character height in mm
    pub fn new(size: N) -> (r: Self)
        ensures
            r == (AsciiText {
                size,
                ratio: N::ratio_spec(1, 1),
                h_align: HAlign::Left,
                v_align: VAlign::Bottom,
            }),
    {
        AsciiText {
            size,
            ratio: N::ratio(1, 1),
            h_align: HAlign::default(),
            v_align: VAlign::default(),
        }
    }

    /// Line thickness as a ratio of the text size (default: `1.0`)
    pub fn ratio(self, ratio: N) -> (r: Self)
        ensures
            r == (AsciiText { ratio, ..self }),
    {
        AsciiText { size: self.size, ratio, h_align: self.h_align, v_align: self.v_align }
    }

    /// Horizontal alignment of the text relative to the origin (default: `Left`)
    pub fn h_align(self, align: HAlign) -> (r: Self)
        ensures
            r == (AsciiText { h_align: align, ..self }),
    {
        AsciiText { size: self.size, ratio: self.ratio, h_align: align, v_align: self.v_align }
    }

    /// Vertical alignment of the text relative to the origin (default: `Bottom`)
    pub fn v_align(self, align: VAlign) -> (r: Self)
        ensures
            r == (AsciiText { v_align: align, ..self }),
    {
        AsciiText { size: self.size, ratio: self.ratio, h_align: self.h_align, v_align: align }
    }

    /// Writes one character.
    fn write_char(
        &self,
        c: char,
        pos: &mut Pos<N>,
        commands: &mut Vec<Command<N>>,
        height: N,
        font: &Vec<Vec<Command<N>>>,
    )
        requires
            height == self.line_height(),
            font@.len() == CHAR_SIZE,
            self.glyph_fits(c, font_view(font@)),
        ensures
            (Writing {
                commands: crate::gerber_types::views(final(commands)@),
                pos: *final(pos),
            }) == self.after(
                Writing { commands: crate::gerber_types::views(old(commands)@), pos: *old(pos) },
                c,
                font_view(font@),
            ),
    {
        if c == ' ' {
            pos.x = pos.x.plus(N::ratio(6, 10).times(self.size));
        } else if c == '\n' {
            pos.y = pos.y.minus(height);
            pos.x = N::zero();
        } else if '!' <= c && c <= '~' {
            let i: usize = glyph_index(c);
            assert(font_view(font@)[i as int] == crate::gerber_types::views(font@[i as int]@));
            let mut glyph = clone_commands(&font[i]);
            let scale = self.size.over(N::ratio(3, 1));
            scale_commands(&file_format(), &mut glyph, scale, scale);
            let (min, max) = commands_corners(&Unit::Millimeters, &glyph);
            let width = max.x.minus(min.x);
            let here = *pos;
            transform_commands(&Unit::Millimeters, &mut glyph, &here);
            let ghost before = commands@;
            let ghost added = glyph@;
            commands.append(&mut glyph);
            assert(crate::gerber_types::views(commands@) =~= crate::gerber_types::views(before)
                + crate::gerber_types::views(added));
            pos.x = pos.x.plus(width.plus(N::ratio(3, 10).times(self.size)));
        }
    }

    /// Whether a character stays within the range of coordinates in the size of the text.
    fn has_room(&self, c: char, font: &Vec<Vec<Command<N>>>) -> (r: bool)
        requires
            font@.len() == CHAR_SIZE,
        ensures
            r == self.glyph_fits(c, font_view(font@)),
    {
        if c < '!' || '~' < c {
            return true;
        }
        let i: usize = glyph_index(c);
        assert(font_view(font@)[i as int] == crate::gerber_types::views(font@[i as int]@));
        let scale = self.size.over(N::ratio(3, 1));
        if !are_scalable(&font[i], scale, scale) {
            return false;
        }
        let mut glyph = clone_commands(&font[i]);
        scale_commands(&file_format(), &mut glyph, scale, scale);
        in_range(&Unit::Millimeters, &glyph)
    }

    /// The layer with the text, its last line on the origin.
    fn compose(
        &self,
        text: &str,
        layer_type: LayerType,
        font: &Vec<Vec<Command<N>>>,
    ) -> (r: GerberLayerData<N>)
        requires
            self.can_write(text@, font_view(font@)),
        ensures
            r@ == self.unaligned(text@, layer_type, font_view(font@)),
    {
        let ghost f = font_view(font@);
        let height = N::ratio(96577, 10000).over(N::ratio(6, 1)).times(self.size);
        let mut layer: GerberLayerData<N> = GerberLayerData::empty(layer_type);
        let pen = Aperture::Circle(
            Circle {
                diameter: self.size.times(self.ratio),
                hole_diameter: None,
            },
        );
        let ghost none = layer.apertures@;
        proof {
            assert(layer@ == crate::gerber::empty_layer::<N>(layer_type));
            assert(layer@.commands == Seq::<CommandView<N>>::empty());
            assert(crate::gerber_types::views(layer.commands@).len() == layer.commands@.len());
            assert(layer@.apertures == crate::gerber::aperture_views(none));
            assert(crate::gerber::aperture_views(none).len() == none.len());
        }
        layer.apertures.insert(10, pen);
        layer.commands.push(
            Command::FunctionCode(FunctionCode::DCode(DCode::SelectAperture(10))),
        );
        layer.commands.push(
            Command::FunctionCode(
                FunctionCode::GCode(GCode::InterpolationMode(InterpolationMode::Linear)),
            ),
        );
        let chars = crate::text::chars_of(text);
        let lines: usize = count_lines(&chars);
        let ghost all = chars@;
        let mut pos = Pos {
            x: N::zero(),
            y: N::count(
                if lines > 0 {
                    (lines - 1) as u64
                } else {
                    0
                },
            ).times(height),
        };
        proof {
            assert(layer@.apertures =~= self.unaligned(all, layer_type, f).apertures);
            assert(layer@.commands =~= self.first(lines as nat).commands);
            assert(all.take(0).len() == 0);
        }
        let ghost start = layer@;
        let mut i: usize = 0;
        while i < chars.len()
            invariant
                i <= chars@.len(),
                chars@ == all,
                all == text@,
                lines == line_count(all),
                height == self.line_height(),
                f == font_view(font@),
                self.can_write(all, f),
                layer@ == (GerberView { commands: layer@.commands, ..start }),
                (Writing { commands: layer@.commands, pos }) == self.written(
                    all.take(i as int),
                    lines as nat,
                    f,
                ),
            decreases chars@.len() - i,
        {
            proof {
                assert(all.take(i + 1).drop_last() =~= all.take(i as int));
                assert(all.take(i + 1).last() == all[i as int]);
            }
            self.write_char(chars[i], &mut pos, &mut layer.commands, height, font);
            i = i + 1;
        }
        assert(all.take(i as int) =~= all);
        assert(layer@ =~= self.unaligned(all, layer_type, f));
        layer
    }

    /// Moves a layer so that its anchor is the origin.
    fn align(&self, layer: GerberLayerData<N>) -> (r: GerberLayerData<N>)
        requires
            crate::gerber::corners::layer_fits(layer@),
        ensures
            r@ == self.aligned(layer@),
    {
        let mut layer = layer;
        let (min, max) = layer.get_corners();
        let x_shift = match self.h_align {
            HAlign::Left => min.x.negated(),
            HAlign::Center => min.x.plus(max.x).negated().over(N::ratio(2, 1)),
            HAlign::Right => max.x.negated(),
        };
        let y_shift = match self.v_align {
            VAlign::Bottom => min.y.negated(),
            VAlign::Middle => min.y.plus(max.y).negated().over(N::ratio(2, 1)),
            VAlign::Top => max.y.negated(),
        };
        if !x_shift.same(N::zero()) || !y_shift.same(N::zero()) {
            layer.transform(&Pos { x: x_shift, y: y_shift });
        }
        layer
    }

    /// Renders `text` into a Gerber layer of the given type, with the characters of `font`.
    ///
    /// The resulting layer is positioned so that the origin (0, 0) corresponds
    /// to the alignment anchor specified by [`h_align`](Self::h_align) and
    /// [`v_align`](Self::v_align).
    pub fn build(
        &self,
        text: &str,
        layer_type: LayerType,
        font: &Vec<Vec<Command<N>>>,
    ) -> (r: GerberLayerData<N>)
        requires
            self.can_build(text@, layer_type, font_view(font@)),
        ensures
            r@ == self.built(text@, layer_type, font_view(font@)),
    {
        let layer = self.compose(text, layer_type, font);
        self.align(layer)
    }

    /// Renders `text` as [`AsciiText::build`] does, if the font has all characters and the text
    /// stays within the range of coordinates.
    pub fn try_build(
        &self,
        text: &str,
        layer_type: LayerType,
        font: &Vec<Vec<Command<N>>>,
    ) -> (r: Option<GerberLayerData<N>>)
        ensures
            r is Some <==> self.can_build(text@, layer_type, font_view(font@)),
            r matches Some(layer) ==> layer@ == self.built(text@, layer_type, font_view(font@)),
    {
        if font.len() != CHAR_SIZE as usize {
            return None;
        }
        let chars = crate::text::chars_of(text);
        let ghost f = font_view(font@);
        let mut i: usize = 0;
        while i < chars.len()
            invariant
                i <= chars@.len(),
                chars@ == text@,
                font@.len() == CHAR_SIZE,
                f == font_view(font@),
                forall|k: int| 0 <= k < i ==> self.glyph_fits(#[trigger] text@[k], f),
            decreases chars@.len() - i,
        {
            if !self.has_room(chars[i], font) {
                assert(!self.glyph_fits(text@[i as int], f));
                return None;
            }
            i = i + 1;
        }
        let layer = self.compose(text, layer_type, font);
        if layer.is_bounded() {
            Some(self.align(layer))
        } else {
            None
        }
    }
}

/// The format of the coordinates of a text.
fn file_format() -> (r: CoordinateFormat)
    ensures
        r == crate::gerber::format_4_6(),
{
    CoordinateFormat::new(ZeroOmission::Leading, CoordinateMode::Absolute, 4, 6)
}

fn glyph_index(c: char) -> (i: usize)
    requires
        is_printable(c),
    ensures
        i == glyph_place(c),
        i < CHAR_SIZE,
{
    (c as u32 - '!' as u32) as usize
}

pub open spec fn font_view<N>(font: Seq<Vec<Command<N>>>) -> Seq<Seq<CommandView<N>>> {
    font.map_values(|g: Vec<Command<N>>| crate::gerber_types::views(g@))
}

/// The strokes that are complete, and the one that is being drawn.
#[verifier::ext_equal]
pub ghost struct Strokes<N> {
    pub done: Seq<Seq<CommandView<N>>>,
    pub current: Seq<CommandView<N>>,
}

impl<N> Strokes<N> {
    /// A stroke starts with a move and goes on with what is drawn. What is drawn before the first
    /// move belongs to none.
    pub open spec fn after(self, c: CommandView<N>) -> Strokes<N> {
        match c {
            Command::FunctionCode(FunctionCode::DCode(DCode::Operation(op))) => {
                if op is Move {
                    Strokes {
                        done: if self.current.len() > 0 {
                            self.done.push(self.current)
                        } else {
                            self.done
                        },
                        current: seq![c],
                    }
                } else if self.current.len() > 0 {
                    Strokes { current: self.current.push(c), ..self }
                } else {
                    self
                }
            },
            _ => self,
        }
    }
}

pub open spec fn strokes_of<N>(s: Seq<CommandView<N>>) -> Strokes<N>
    decreases s.len(),
{
    if s.len() == 0 {
        Strokes { done: Seq::empty(), current: Seq::empty() }
    } else {
        strokes_of(s.drop_last()).after(s.last())
    }
}

/// The row of the font that a stroke stands in, counted from below.
pub open spec fn stroke_row<N: Scalar>(stroke: Seq<CommandView<N>>) -> u8 {
    crate::gerber::corners::points_box(stroke, Unit::Millimeters).0.y.plus_spec(
        N::ratio_spec(24, 10),
    ).over_spec(text_height()).to_u8_spec()
}

/// A stroke moved from its row to the lowest one.
pub open spec fn lowered<N: Scalar>(stroke: Seq<CommandView<N>>) -> Seq<CommandView<N>> {
    crate::gerber::edit::moved_commands(
        stroke,
        Pos {
            x: N::zero_spec(),
            y: N::count_spec(stroke_row(stroke) as u64).times_spec(
                text_height::<N>().negated_spec(),
            ),
        },
        Unit::Millimeters,
    )
}

/// The strokes of each character. The characters stand in the rows from above.
pub open spec fn glyphs_of<N: Scalar>(strokes: Seq<Seq<CommandView<N>>>) -> Seq<
    Seq<CommandView<N>>,
>
    decreases strokes.len(),
{
    if strokes.len() == 0 {
        Seq::new(CHAR_SIZE as nat, |i: int| Seq::empty())
    } else {
        let glyphs = glyphs_of(strokes.drop_last());
        let i = CHAR_SIZE - 1 - stroke_row(strokes.last());
        glyphs.update(i, glyphs[i] + lowered(strokes.last()))
    }
}

/// A character moved so that its left edge is at zero.
pub open spec fn left_aligned<N: Scalar>(glyph: Seq<CommandView<N>>) -> Seq<CommandView<N>> {
    crate::gerber::edit::moved_commands(
        glyph,
        Pos {
            x: crate::gerber::corners::points_box(
                glyph,
                Unit::Millimeters,
            ).0.x.negated_spec(),
            y: N::zero_spec(),
        },
        Unit::Millimeters,
    )
}

/// The characters of a font that is drawn with one character in each row.
pub open spec fn font_of<N: Scalar>(s: Seq<CommandView<N>>) -> Seq<Seq<CommandView<N>>> {
    glyphs_of(strokes_of(s).done).map_values(|g: Seq<CommandView<N>>| left_aligned(g))
}

/// Every stroke stands in a row of the font, and every coordinate has a value in millimetres.
pub open spec fn is_font<N: Scalar>(s: Seq<CommandView<N>>) -> bool {
    let strokes = strokes_of(s).done;
    &&& forall|i: int|
        0 <= i < strokes.len() ==> crate::gerber::corners::commands_fit(
            #[trigger] strokes[i],
            Unit::Millimeters,
        ) && stroke_row(strokes[i]) < CHAR_SIZE
    &&& forall|i: int|
        0 <= i < CHAR_SIZE ==> crate::gerber::corners::commands_fit(
            #[trigger] glyphs_of(strokes)[i],
            Unit::Millimeters,
        )
}

fn split_strokes<N: Scalar>(commands: &Vec<Command<N>>) -> (r: Vec<Vec<Command<N>>>)
    ensures
        font_view(r@) == strokes_of(crate::gerber_types::views(commands@)).done,
{
    let ghost s = crate::gerber_types::views(commands@);
    let mut done: Vec<Vec<Command<N>>> = Vec::new();
    let mut current: Vec<Command<N>> = Vec::new();
    let mut i: usize = 0;
    proof {
        assert(font_view(done@) =~= strokes_of(s.take(0)).done);
        assert(crate::gerber_types::views(current@) =~= strokes_of(s.take(0)).current);
    }
    while i < commands.len()
        invariant
            i <= commands@.len(),
            s == crate::gerber_types::views(commands@),
            font_view(done@) == strokes_of(s.take(i as int)).done,
            crate::gerber_types::views(current@) == strokes_of(s.take(i as int)).current,
        decreases commands@.len() - i,
    {
        let ghost d0 = done@;
        let ghost c0 = current@;
        proof {
            assert(s.take(i + 1).drop_last() =~= s.take(i as int));
            assert(s.take(i + 1).last() == commands@[i as int]@);
        }
        if let Command::FunctionCode(FunctionCode::DCode(DCode::Operation(op))) = &commands[i] {
            let copy = commands[i].clone();
            match op {
                Operation::Interpolate(_, _) | Operation::Flash(_) => {
                    if current.len() > 0 {
                        current.push(copy);
                        assert(crate::gerber_types::views(current@)
                            =~= crate::gerber_types::views(c0).push(commands@[i as int]@));
                    }
                },
                Operation::Move(_) => {
                    if current.len() > 0 {
                        done.push(current);
                        assert(font_view(done@) =~= font_view(d0).push(
                            crate::gerber_types::views(c0),
                        ));
                    }
                    current = Vec::new();
                    current.push(copy);
                    assert(crate::gerber_types::views(current@) =~= seq![commands@[i as int]@]);
                },
            }
        }
        i = i + 1;
    }
    assert(s.take(i as int) =~= s);
    done
}

/// Every stroke stands in a row of the font and has coordinates in millimetres.
pub open spec fn in_rows<N: Scalar>(strokes: Seq<Seq<CommandView<N>>>) -> bool {
    forall|i: int|
        0 <= i < strokes.len() ==> crate::gerber::corners::commands_fit(
            #[trigger] strokes[i],
            Unit::Millimeters,
        ) && stroke_row(strokes[i]) < CHAR_SIZE
}

fn find_row<N: Scalar>(stroke: &Vec<Command<N>>) -> (r: u8)
    requires
        crate::gerber::corners::commands_fit(
            crate::gerber_types::views(stroke@),
            Unit::Millimeters,
        ),
    ensures
        r == stroke_row(crate::gerber_types::views(stroke@)),
{
    let (min, _) = commands_corners(&Unit::Millimeters, stroke);
    min.y.plus(N::ratio(24, 10)).over(N::ratio(96577, 10000)).to_u8()
}

fn group_strokes<N: Scalar>(strokes: &Vec<Vec<Command<N>>>) -> (r: Vec<Vec<Command<N>>>)
    requires
        in_rows(font_view(strokes@)),
    ensures
        font_view(r@) == glyphs_of(font_view(strokes@)),
        r@.len() == CHAR_SIZE,
{
    let ghost all = font_view(strokes@);
    let mut chars: Vec<Vec<Command<N>>> = Vec::new();
    let mut i: usize = 0;
    while i < CHAR_SIZE as usize
        invariant
            i <= CHAR_SIZE,
            chars@.len() == i,
            forall|k: int| 0 <= k < i ==> (#[trigger] chars@[k])@.len() == 0,
        decreases CHAR_SIZE - i,
    {
        chars.push(Vec::new());
        i = i + 1;
    }
    proof {
        assert forall|k: int| 0 <= k < CHAR_SIZE implies #[trigger] font_view(chars@)[k]
            =~= glyphs_of(all.take(0))[k] by {
            assert(chars@[k]@.len() == 0);
        }
        assert(font_view(chars@) =~= glyphs_of(all.take(0)));
    }
    let text_height = N::ratio(96577, 10000);
    let mut i: usize = 0;
    while i < strokes.len()
        invariant
            i <= strokes@.len(),
            all == font_view(strokes@),
            text_height == self::text_height::<N>(),
            in_rows(all),
            chars@.len() == CHAR_SIZE,
            font_view(chars@) == glyphs_of(all.take(i as int)),
        decreases strokes@.len() - i,
    {
        let ghost before = chars@;
        proof {
            assert(all.take(i + 1).drop_last() =~= all.take(i as int));
            assert(all.take(i + 1).last() == all[i as int]);
            assert(all[i as int] == crate::gerber_types::views(strokes@[i as int]@));
        }
        let mut stroke = clone_commands(&strokes[i]);
        let key: u8 = find_row(&stroke);
        transform_commands(
            &Unit::Millimeters,
            &mut stroke,
            &Pos { x: N::zero(), y: N::count(key as u64).times(text_height.negated()) },
        );
        let place: usize = (CHAR_SIZE - key - 1) as usize;
        let mut glyph = clone_commands(&chars[place]);
        let ghost g0 = glyph@;
        let ghost s0 = stroke@;
        glyph.append(&mut stroke);
        proof {
            assert(crate::gerber_types::views(glyph@) =~= crate::gerber_types::views(g0)
                + crate::gerber_types::views(s0));
        }
        chars.set(place, glyph);
        assert(font_view(chars@) =~= font_view(before).update(
            place as int,
            crate::gerber_types::views(glyph@),
        ));
        i = i + 1;
    }
    assert(all.take(i as int) =~= all);
    chars
}

fn align_glyphs<N: Scalar>(chars: &Vec<Vec<Command<N>>>) -> (r: Vec<Vec<Command<N>>>)
    requires
        forall|k: int|
            0 <= k < chars@.len() ==> crate::gerber::corners::commands_fit(
                #[trigger] font_view(chars@)[k],
                Unit::Millimeters,
            ),
    ensures
        font_view(r@) == font_view(chars@).map_values(
            |g: Seq<CommandView<N>>| left_aligned(g),
        ),
        r@.len() == chars@.len(),
{
    let ghost glyphs = font_view(chars@);
    let mut font: Vec<Vec<Command<N>>> = Vec::new();
    let mut i: usize = 0;
    while i < chars.len()
        invariant
            i <= chars@.len(),
            glyphs == font_view(chars@),
            forall|k: int|
                0 <= k < chars@.len() ==> crate::gerber::corners::commands_fit(
                    #[trigger] glyphs[k],
                    Unit::Millimeters,
                ),
            font@.len() == i,
            forall|k: int|
                0 <= k < i ==> crate::gerber_types::views((#[trigger] font@[k])@) == left_aligned(
                    glyphs[k],
                ),
        decreases chars@.len() - i,
    {
        assert(glyphs[i as int] == crate::gerber_types::views(chars@[i as int]@));
        let mut glyph = clone_commands(&chars[i]);
        let (min, _) = commands_corners(&Unit::Millimeters, &glyph);
        transform_commands(
            &Unit::Millimeters,
            &mut glyph,
            &Pos { x: min.x.negated(), y: N::zero() },
        );
        font.push(glyph);
        i = i + 1;
    }
    assert(font_view(font@) =~= glyphs.map_values(|g: Seq<CommandView<N>>| left_aligned(g)));
    font
}

/// Takes a font apart that is drawn with one character in each row, from `~` up to `!`.
pub fn load_ascii<N: Scalar>(commands: &Vec<Command<N>>) -> (r: Vec<Vec<Command<N>>>)
    requires
        is_font(crate::gerber_types::views(commands@)),
    ensures
        font_view(r@) == font_of(crate::gerber_types::views(commands@)),
        r@.len() == CHAR_SIZE,
{
    let strokes = split_strokes(commands);
    let chars = group_strokes(&strokes);
    align_glyphs(&chars)
}

fn all_in_rows<N: Scalar>(strokes: &Vec<Vec<Command<N>>>) -> (r: bool)
    ensures
        r == in_rows(font_view(strokes@)),
{
    let ghost all = font_view(strokes@);
    let mut i: usize = 0;
    while i < strokes.len()
        invariant
            i <= strokes@.len(),
            all == font_view(strokes@),
            forall|k: int|
                0 <= k < i ==> crate::gerber::corners::commands_fit(
                    #[trigger] all[k],
                    Unit::Millimeters,
                ) && stroke_row(all[k]) < CHAR_SIZE,
        decreases strokes@.len() - i,
    {
        assert(all[i as int] == crate::gerber_types::views(strokes@[i as int]@));
        if !in_range(&Unit::Millimeters, &strokes[i]) || find_row(&strokes[i]) >= CHAR_SIZE {
            return false;
        }
        i = i + 1;
    }
    true
}

fn all_in_range<N: Scalar>(chars: &Vec<Vec<Command<N>>>) -> (r: bool)
    ensures
        r == forall|k: int|
            0 <= k < chars@.len() ==> crate::gerber::corners::commands_fit(
                #[trigger] font_view(chars@)[k],
                Unit::Millimeters,
            ),
{
    let ghost all = font_view(chars@);
    let mut i: usize = 0;
    while i < chars.len()
        invariant
            i <= chars@.len(),
            all == font_view(chars@),
            forall|k: int|
                0 <= k < i ==> crate::gerber::corners::commands_fit(
                    #[trigger] all[k],
                    Unit::Millimeters,
                ),
        decreases chars@.len() - i,
    {
        assert(all[i as int] == crate::gerber_types::views(chars@[i as int]@));
        if !in_range(&Unit::Millimeters, &chars[i]) {
            return false;
        }
        i = i + 1;
    }
    true
}

/// What the commands of a document are as a font, if they are one.
pub open spec fn font_in<N: Scalar>(s: Seq<CommandView<N>>) -> Option<Seq<Seq<CommandView<N>>>> {
    if is_font(s) {
        Some(font_of(s))
    } else {
        None
    }
}

/// Loads font from the bytes of a gerber file. `read` takes over the document that the bytes were
/// parsed into. Bytes that cannot be parsed, or that hold no font, give none.
pub fn load_font<N: Scalar, R: Fn(gerber_parser::GerberDoc) -> GerberDocument<N>>(
    bytes: &[u8],
    read: &R,
) -> (r: Option<Vec<Vec<Command<N>>>>)
    requires
        crate::gerber::read::reads(*read),
        crate::gerber::guard::parsable(bytes@),
    ensures
        match crate::gerber::read::parse_failure(bytes@) {
            Some(_) => r is None,
            None => exists|doc: DocumentView<N>| #[trigger]
                crate::gerber::read::read_as(*read, bytes@, doc) && font_in(
                    crate::gerber::load::commands_of(doc.commands),
                ) == (match r {
                    Some(font) => Some(font_view(font@)),
                    None => None,
                }),
        },
{
    match crate::gerber::read::parse_with(bytes, read) {
        None => None,
        Some(doc) => {
            let (commands, _) = crate::gerber::load::split_elements(&doc.commands);
            assert(crate::gerber::read::read_as(*read, bytes@, doc@));
            let strokes = split_strokes(&commands);
            if !all_in_rows(&strokes) {
                return None;
            }
            let chars = group_strokes(&strokes);
            if !all_in_range(&chars) {
                return None;
            }
            Some(align_glyphs(&chars))
        },
    }
}

} // verus!
