//! The commands of an RS-274X file, as far as the library works with them.
//!
//! The types have the shape of those in the `gerber_types` crate, with lengths as numbers of any
//! [`Scalar`](crate::scalar::Scalar) type. A command that the library only carries along is held as
//! its text.
use vstd::prelude::*;

verus! {

/// The unit of the lengths in a file.
#[derive(Clone, Copy, Debug, PartialEq, Eq, Structural)]
pub enum Unit {
    Inches,
    Millimeters,
}

/// Whether coordinates are absolute or relative to the one before.
#[derive(Clone, Copy, Debug, PartialEq, Eq, Structural)]
pub enum CoordinateMode {
    Absolute,
    Incremental,
}

/// Which zeros are left out of a coordinate.
#[derive(Clone, Copy, Debug, PartialEq, Eq, Structural)]
pub enum ZeroOmission {
    Leading,
    Trailing,
}

/// How many digits a coordinate has before and behind the point that is not written.
#[derive(Clone, Copy, Debug, PartialEq, Eq, Structural)]
pub struct CoordinateFormat {
    pub zero_omission: ZeroOmission,
    pub coordinate_mode: CoordinateMode,
    pub integer: u8,
    pub decimal: u8,
}

/// A coordinate, in millionths of the unit.
#[derive(Clone, Copy, Debug, PartialEq, Eq, Structural)]
pub struct CoordinateNumber {
    pub nano: i64,
}

/// A point. An axis that is left out keeps the value it had.
#[derive(Clone, Copy, Debug, PartialEq, Eq)]
pub struct Coordinates {
    pub x: Option<CoordinateNumber>,
    pub y: Option<CoordinateNumber>,
    pub format: CoordinateFormat,
}

/// The vector from the start of an arc to its center.
#[derive(Clone, Copy, Debug, PartialEq, Eq)]
pub struct CoordinateOffset {
    pub x: Option<CoordinateNumber>,
    pub y: Option<CoordinateNumber>,
    pub format: CoordinateFormat,
}

/// What is done at a point.
#[derive(Clone, Copy, Debug, PartialEq, Eq)]
pub enum Operation {
    /// D01
    Interpolate(Option<Coordinates>, Option<CoordinateOffset>),
    /// D02
    Move(Option<Coordinates>),
    /// D03
    Flash(Option<Coordinates>),
}

#[derive(Clone, Copy, Debug, PartialEq, Eq)]
pub enum DCode {
    Operation(Operation),
    SelectAperture(i32),
}

#[derive(Clone, Copy, Debug, PartialEq, Eq, Structural)]
pub enum InterpolationMode {
    Linear,
    ClockwiseCircular,
    CounterclockwiseCircular,
}

#[derive(Clone, Copy, Debug, PartialEq, Eq, Structural)]
pub enum QuadrantMode {
    Single,
    Multi,
}

#[derive(Clone, Copy, Debug, PartialEq, Eq, Structural)]
pub enum Position {
    Top,
    Bottom,
}

#[derive(Clone, Copy, Debug, PartialEq, Eq, Structural)]
pub enum ExtendedPosition {
    Top,
    Inner,
    Bottom,
}

#[derive(Clone, Copy, Debug, PartialEq, Eq, Structural)]
pub enum CopperType {
    Plane,
    Signal,
    Mixed,
    Hatched,
}

#[derive(Clone, Copy, Debug, PartialEq, Eq, Structural)]
pub enum Profile {
    Plated,
    NonPlated,
}

/// What a file is for.
#[derive(Debug, PartialEq)]
#[verifier::ext_equal]
#[allow(inconsistent_fields)]
pub enum FileFunction<S = String> {
    Copper { layer: i32, pos: ExtendedPosition, copper_type: Option<CopperType> },
    Profile(Option<Profile>),
    KeepOut(Position),
    SolderMask { pos: Position, index: Option<i32> },
    Legend { pos: Position, index: Option<i32> },
    Paste(Position),
    VCut(Option<Position>),
    DrillMap,
    Other(S),
    /// A function that no layer type stands for, as the text of the command that names it.
    Unmapped(S),
}

/// A point in time, by its distance from the start of 1970 (UTC), with the offset of the place
/// where it was taken.
#[derive(Clone, Copy, Debug, PartialEq, Eq, Structural)]
pub struct GerberDate {
    pub seconds: i64,
    pub nanoseconds: u32,
    pub offset_seconds: i32,
}

#[derive(Debug, PartialEq)]
#[verifier::ext_equal]
pub enum FileAttribute<S = String> {
    FileFunction(FileFunction<S>),
    CreationDate(GerberDate),
}

#[derive(Debug, PartialEq)]
#[verifier::ext_equal]
pub enum StandardComment<S = String> {
    FileAttribute(FileAttribute<S>),
}

#[derive(Debug, PartialEq)]
#[verifier::ext_equal]
pub enum CommentContent<S = String> {
    String(S),
    Standard(StandardComment<S>),
}

#[derive(Debug, PartialEq)]
#[verifier::ext_equal]
pub enum GCode<S = String> {
    InterpolationMode(InterpolationMode),
    RegionMode(bool),
    QuadrantMode(QuadrantMode),
    Comment(CommentContent<S>),
    Unit(Unit),
    CoordinateMode(CoordinateMode),
    SelectAperture,
}

#[derive(Clone, Copy, Debug, PartialEq, Eq, Structural)]
pub enum MCode {
    EndOfFile,
}

#[derive(Debug, PartialEq)]
#[verifier::ext_equal]
pub enum FunctionCode<S = String> {
    DCode(DCode),
    GCode(GCode<S>),
    MCode(MCode),
}

/// A decimal parameter of a macro.
#[derive(Debug, PartialEq)]
pub enum MacroDecimal<N> {
    Value(N),
    Variable(u32),
    Expression(String),
}

#[derive(Debug, PartialEq)]
pub enum MacroBoolean {
    Value(bool),
    Variable(u32),
    Expression(String),
}

#[derive(Debug, PartialEq)]
pub enum MacroInteger {
    Value(u32),
    Variable(u32),
    Expression(String),
}

#[derive(Debug, PartialEq)]
pub struct CirclePrimitive<N> {
    pub exposure: MacroBoolean,
    pub diameter: MacroDecimal<N>,
    pub center: (MacroDecimal<N>, MacroDecimal<N>),
    pub angle: Option<MacroDecimal<N>>,
}

#[derive(Debug, PartialEq)]
pub struct VectorLinePrimitive<N> {
    pub exposure: MacroBoolean,
    pub width: MacroDecimal<N>,
    pub start: (MacroDecimal<N>, MacroDecimal<N>),
    pub end: (MacroDecimal<N>, MacroDecimal<N>),
    pub angle: MacroDecimal<N>,
}

#[derive(Debug, PartialEq)]
pub struct CenterLinePrimitive<N> {
    pub exposure: MacroBoolean,
    pub dimensions: (MacroDecimal<N>, MacroDecimal<N>),
    pub center: (MacroDecimal<N>, MacroDecimal<N>),
    pub angle: MacroDecimal<N>,
}

#[derive(Debug, PartialEq)]
pub struct OutlinePrimitive<N> {
    pub exposure: MacroBoolean,
    pub points: Vec<(MacroDecimal<N>, MacroDecimal<N>)>,
    pub angle: MacroDecimal<N>,
}

#[derive(Debug, PartialEq)]
pub struct PolygonPrimitive<N> {
    pub exposure: MacroBoolean,
    pub vertices: MacroInteger,
    pub center: (MacroDecimal<N>, MacroDecimal<N>),
    pub diameter: MacroDecimal<N>,
    pub angle: MacroDecimal<N>,
}

#[derive(Debug, PartialEq)]
pub struct MoirePrimitive<N> {
    pub center: (MacroDecimal<N>, MacroDecimal<N>),
    pub diameter: MacroDecimal<N>,
    pub ring_thickness: MacroDecimal<N>,
    pub gap: MacroDecimal<N>,
    pub max_rings: u32,
    pub cross_hair_thickness: MacroDecimal<N>,
    pub cross_hair_length: MacroDecimal<N>,
    pub angle: MacroDecimal<N>,
}

#[derive(Debug, PartialEq)]
pub struct ThermalPrimitive<N> {
    pub center: (MacroDecimal<N>, MacroDecimal<N>),
    pub outer_diameter: MacroDecimal<N>,
    pub inner_diameter: MacroDecimal<N>,
    pub gap: MacroDecimal<N>,
    pub angle: MacroDecimal<N>,
}

#[derive(Debug, PartialEq)]
pub struct VariableDefinition {
    pub number: u32,
    pub expression: String,
}

/// A part of an aperture macro.
#[derive(Debug, PartialEq)]
pub enum MacroContent<N> {
    Circle(CirclePrimitive<N>),
    VectorLine(VectorLinePrimitive<N>),
    CenterLine(CenterLinePrimitive<N>),
    Outline(OutlinePrimitive<N>),
    Polygon(PolygonPrimitive<N>),
    Moire(MoirePrimitive<N>),
    Thermal(ThermalPrimitive<N>),
    VariableDefinition(VariableDefinition),
    Comment(String),
}

/// What a [`MacroContent`] holds. The points of an outline are a sequence; every other part is
/// taken as it is.
#[verifier::ext_equal]
pub ghost enum MacroContentView<N> {
    Outline {
        exposure: MacroBoolean,
        points: Seq<(MacroDecimal<N>, MacroDecimal<N>)>,
        angle: MacroDecimal<N>,
    },
    Plain(MacroContent<N>),
}

impl<N> View for MacroContent<N> {
    type V = MacroContentView<N>;

    open spec fn view(&self) -> MacroContentView<N> {
        match *self {
            MacroContent::Outline(o) => MacroContentView::Outline {
                exposure: o.exposure,
                points: o.points@,
                angle: o.angle,
            },
            other => MacroContentView::Plain(other),
        }
    }
}

#[derive(Debug, PartialEq)]
pub struct ApertureMacro<N> {
    pub name: String,
    pub content: Vec<MacroContent<N>>,
}

pub open spec fn contents<N>(s: Seq<MacroContent<N>>) -> Seq<MacroContentView<N>> {
    s.map_values(|c: MacroContent<N>| c@)
}

/// What an [`ApertureMacro`] holds.
#[verifier::ext_equal]
pub ghost struct ApertureMacroView<N> {
    pub name: Seq<char>,
    pub content: Seq<MacroContentView<N>>,
}

impl<N> View for ApertureMacro<N> {
    type V = ApertureMacroView<N>;

    open spec fn view(&self) -> ApertureMacroView<N> {
        ApertureMacroView { name: self.name@, content: contents(self.content@) }
    }
}

#[derive(Copy, Debug, PartialEq)]
pub struct Circle<N> {
    pub diameter: N,
    pub hole_diameter: Option<N>,
}

#[derive(Copy, Debug, PartialEq)]
pub struct Rectangular<N> {
    pub x: N,
    pub y: N,
    pub hole_diameter: Option<N>,
}

#[derive(Copy, Debug, PartialEq)]
pub struct Polygon<N> {
    pub diameter: N,
    pub vertices: u8,
    pub rotation: Option<N>,
    pub hole_diameter: Option<N>,
}

/// The shape of a tool.
#[derive(Debug, PartialEq)]
pub enum Aperture<N> {
    Circle(Circle<N>),
    Rectangle(Rectangular<N>),
    Obround(Rectangular<N>),
    Polygon(Polygon<N>),
    Macro(String, Option<Vec<MacroDecimal<N>>>),
}

/// What an [`Aperture`] holds.
#[verifier::ext_equal]
pub ghost enum ApertureView<N> {
    Circle(Circle<N>),
    Rectangle(Rectangular<N>),
    Obround(Rectangular<N>),
    Polygon(Polygon<N>),
    Macro(Seq<char>, Option<Seq<MacroDecimal<N>>>),
}

impl<N> View for Aperture<N> {
    type V = ApertureView<N>;

    open spec fn view(&self) -> ApertureView<N> {
        match *self {
            Aperture::Circle(c) => ApertureView::Circle(c),
            Aperture::Rectangle(r) => ApertureView::Rectangle(r),
            Aperture::Obround(r) => ApertureView::Obround(r),
            Aperture::Polygon(p) => ApertureView::Polygon(p),
            Aperture::Macro(name, None) => ApertureView::Macro(name@, None),
            Aperture::Macro(name, Some(args)) => ApertureView::Macro(name@, Some(args@)),
        }
    }
}

#[derive(Debug, PartialEq)]
#[verifier::ext_equal]
pub struct ApertureDefinition<A> {
    pub code: i32,
    pub aperture: A,
}

#[derive(Clone, Copy, Debug, PartialEq, Eq, Structural)]
pub enum Polarity {
    Clear,
    Dark,
}

#[derive(Copy, Debug, PartialEq)]
pub enum StepAndRepeat<N> {
    Open { repeat_x: u32, repeat_y: u32, distance_x: N, distance_y: N },
    Close,
}

#[derive(Debug, PartialEq)]
#[verifier::ext_equal]
pub struct ImageName<S = String> {
    pub name: S,
}

/// `S` is the type of texts, `A` that of apertures and `M` that of macros.
#[derive(Debug, PartialEq)]
#[verifier::ext_equal]
pub enum ExtendedCode<N, S = String, A = Aperture<N>, M = ApertureMacro<N>> {
    CoordinateFormat(CoordinateFormat),
    Unit(Unit),
    ApertureDefinition(ApertureDefinition<A>),
    ApertureMacro(M),
    LoadPolarity(Polarity),
    StepAndRepeat(StepAndRepeat<N>),
    FileAttribute(FileAttribute<S>),
    ImageName(ImageName<S>),
}

/// A command of an RS-274X file. `S` is the type of texts, `A` that of apertures and `M` that of
/// macros.
#[derive(Debug, PartialEq)]
#[verifier::ext_equal]
pub enum Command<N, S = String, A = Aperture<N>, M = ApertureMacro<N>> {
    FunctionCode(FunctionCode<S>),
    ExtendedCode(ExtendedCode<N, S, A, M>),
    /// A command that the library carries along unread, as its text.
    Other(S),
}

/// What a [`Command`] holds: the same command, with its texts and lists as sequences.
pub type CommandView<N> = Command<N, Seq<char>, ApertureView<N>, ApertureMacroView<N>>;

impl View for FileFunction {
    type V = FileFunction<Seq<char>>;

    open spec fn view(&self) -> FileFunction<Seq<char>> {
        match *self {
            FileFunction::Copper { layer, pos, copper_type } => FileFunction::Copper {
                layer,
                pos,
                copper_type,
            },
            FileFunction::Profile(p) => FileFunction::Profile(p),
            FileFunction::KeepOut(p) => FileFunction::KeepOut(p),
            FileFunction::SolderMask { pos, index } => FileFunction::SolderMask { pos, index },
            FileFunction::Legend { pos, index } => FileFunction::Legend { pos, index },
            FileFunction::Paste(p) => FileFunction::Paste(p),
            FileFunction::VCut(p) => FileFunction::VCut(p),
            FileFunction::DrillMap => FileFunction::DrillMap,
            FileFunction::Other(s) => FileFunction::Other(s@),
            FileFunction::Unmapped(s) => FileFunction::Unmapped(s@),
        }
    }
}

impl View for FileAttribute {
    type V = FileAttribute<Seq<char>>;

    open spec fn view(&self) -> FileAttribute<Seq<char>> {
        match *self {
            FileAttribute::FileFunction(f) => FileAttribute::FileFunction(f@),
            FileAttribute::CreationDate(d) => FileAttribute::CreationDate(d),
        }
    }
}

impl View for CommentContent {
    type V = CommentContent<Seq<char>>;

    open spec fn view(&self) -> CommentContent<Seq<char>> {
        match *self {
            CommentContent::String(s) => CommentContent::String(s@),
            CommentContent::Standard(StandardComment::FileAttribute(a)) => CommentContent::Standard(
                StandardComment::FileAttribute(a@),
            ),
        }
    }
}

impl View for FunctionCode {
    type V = FunctionCode<Seq<char>>;

    open spec fn view(&self) -> FunctionCode<Seq<char>> {
        match *self {
            FunctionCode::DCode(d) => FunctionCode::DCode(d),
            FunctionCode::MCode(m) => FunctionCode::MCode(m),
            FunctionCode::GCode(GCode::InterpolationMode(m)) => FunctionCode::GCode(
                GCode::InterpolationMode(m),
            ),
            FunctionCode::GCode(GCode::RegionMode(on)) => FunctionCode::GCode(GCode::RegionMode(on)),
            FunctionCode::GCode(GCode::QuadrantMode(m)) => FunctionCode::GCode(
                GCode::QuadrantMode(m),
            ),
            FunctionCode::GCode(GCode::Comment(c)) => FunctionCode::GCode(GCode::Comment(c@)),
            FunctionCode::GCode(GCode::Unit(u)) => FunctionCode::GCode(GCode::Unit(u)),
            FunctionCode::GCode(GCode::CoordinateMode(m)) => FunctionCode::GCode(
                GCode::CoordinateMode(m),
            ),
            FunctionCode::GCode(GCode::SelectAperture) => FunctionCode::GCode(GCode::SelectAperture),
        }
    }
}

impl<N> View for ExtendedCode<N> {
    type V = ExtendedCode<N, Seq<char>, ApertureView<N>, ApertureMacroView<N>>;

    open spec fn view(&self) -> ExtendedCode<N, Seq<char>, ApertureView<N>, ApertureMacroView<N>> {
        match *self {
            ExtendedCode::CoordinateFormat(f) => ExtendedCode::CoordinateFormat(f),
            ExtendedCode::Unit(u) => ExtendedCode::Unit(u),
            ExtendedCode::ApertureDefinition(d) => ExtendedCode::ApertureDefinition(
                ApertureDefinition { code: d.code, aperture: d.aperture@ },
            ),
            ExtendedCode::ApertureMacro(m) => ExtendedCode::ApertureMacro(m@),
            ExtendedCode::LoadPolarity(p) => ExtendedCode::LoadPolarity(p),
            ExtendedCode::StepAndRepeat(s) => ExtendedCode::StepAndRepeat(s),
            ExtendedCode::FileAttribute(a) => ExtendedCode::FileAttribute(a@),
            ExtendedCode::ImageName(i) => ExtendedCode::ImageName(ImageName { name: i.name@ }),
        }
    }
}

impl<N> View for Command<N> {
    type V = CommandView<N>;

    open spec fn view(&self) -> CommandView<N> {
        match *self {
            Command::FunctionCode(f) => Command::FunctionCode(f@),
            Command::ExtendedCode(e) => Command::ExtendedCode(e@),
            Command::Other(s) => Command::Other(s@),
        }
    }
}

pub open spec fn views<N>(s: Seq<Command<N>>) -> Seq<CommandView<N>> {
    s.map_values(|c: Command<N>| c@)
}

impl CoordinateFormat {
    pub fn new(
        zero_omission: ZeroOmission,
        coordinate_mode: CoordinateMode,
        integer: u8,
        decimal: u8,
    ) -> (r: CoordinateFormat)
        ensures
            r == (CoordinateFormat { zero_omission, coordinate_mode, integer, decimal }),
    {
        CoordinateFormat { zero_omission, coordinate_mode, integer, decimal }
    }
}

impl<N: Copy> Clone for Circle<N> {
    fn clone(&self) -> (r: Self)
        ensures
            r == *self,
    {
        *self
    }
}

impl<N: Copy> Clone for Rectangular<N> {
    fn clone(&self) -> (r: Self)
        ensures
            r == *self,
    {
        *self
    }
}

impl<N: Copy> Clone for Polygon<N> {
    fn clone(&self) -> (r: Self)
        ensures
            r == *self,
    {
        *self
    }
}

impl<N: Copy> Clone for StepAndRepeat<N> {
    fn clone(&self) -> (r: Self)
        ensures
            r == *self,
    {
        *self
    }
}

impl<N: Copy> Clone for MacroDecimal<N> {
    fn clone(&self) -> (r: Self)
        ensures
            r == *self,
    {
        match self {
            MacroDecimal::Value(v) => MacroDecimal::Value(*v),
            MacroDecimal::Variable(n) => MacroDecimal::Variable(*n),
            MacroDecimal::Expression(s) => MacroDecimal::Expression(s.clone()),
        }
    }
}

impl Clone for MacroBoolean {
    fn clone(&self) -> (r: Self)
        ensures
            r == *self,
    {
        match self {
            MacroBoolean::Value(v) => MacroBoolean::Value(*v),
            MacroBoolean::Variable(n) => MacroBoolean::Variable(*n),
            MacroBoolean::Expression(s) => MacroBoolean::Expression(s.clone()),
        }
    }
}

impl Clone for MacroInteger {
    fn clone(&self) -> (r: Self)
        ensures
            r == *self,
    {
        match self {
            MacroInteger::Value(v) => MacroInteger::Value(*v),
            MacroInteger::Variable(n) => MacroInteger::Variable(*n),
            MacroInteger::Expression(s) => MacroInteger::Expression(s.clone()),
        }
    }
}

fn clone_pair<N: Copy>(p: &(MacroDecimal<N>, MacroDecimal<N>)) -> (r: (
    MacroDecimal<N>,
    MacroDecimal<N>,
))
    ensures
        r == *p,
{
    (p.0.clone(), p.1.clone())
}

impl<N: Copy> Clone for MacroContent<N> {
    fn clone(&self) -> (r: Self)
        ensures
            r@ == self@,
    {
        match self {
            MacroContent::Circle(c) => MacroContent::Circle(
                CirclePrimitive {
                    exposure: c.exposure.clone(),
                    diameter: c.diameter.clone(),
                    center: clone_pair(&c.center),
                    angle: match &c.angle {
                        Some(a) => Some(a.clone()),
                        None => None,
                    },
                },
            ),
            MacroContent::VectorLine(v) => MacroContent::VectorLine(
                VectorLinePrimitive {
                    exposure: v.exposure.clone(),
                    width: v.width.clone(),
                    start: clone_pair(&v.start),
                    end: clone_pair(&v.end),
                    angle: v.angle.clone(),
                },
            ),
            MacroContent::CenterLine(l) => MacroContent::CenterLine(
                CenterLinePrimitive {
                    exposure: l.exposure.clone(),
                    dimensions: clone_pair(&l.dimensions),
                    center: clone_pair(&l.center),
                    angle: l.angle.clone(),
                },
            ),
            MacroContent::Outline(o) => {
                let mut points: Vec<(MacroDecimal<N>, MacroDecimal<N>)> = Vec::new();
                let mut i: usize = 0;
                while i < o.points.len()
                    invariant
                        i <= o.points@.len(),
                        points@ == o.points@.take(i as int),
                    decreases o.points@.len() - i,
                {
                    points.push(clone_pair(&o.points[i]));
                    i = i + 1;
                    assert(points@ =~= o.points@.take(i as int));
                }
                assert(points@ =~= o.points@);
                MacroContent::Outline(
                    OutlinePrimitive {
                        exposure: o.exposure.clone(),
                        points,
                        angle: o.angle.clone(),
                    },
                )
            },
            MacroContent::Polygon(p) => MacroContent::Polygon(
                PolygonPrimitive {
                    exposure: p.exposure.clone(),
                    vertices: p.vertices.clone(),
                    center: clone_pair(&p.center),
                    diameter: p.diameter.clone(),
                    angle: p.angle.clone(),
                },
            ),
            MacroContent::Moire(m) => MacroContent::Moire(
                MoirePrimitive {
                    center: clone_pair(&m.center),
                    diameter: m.diameter.clone(),
                    ring_thickness: m.ring_thickness.clone(),
                    gap: m.gap.clone(),
                    max_rings: m.max_rings,
                    cross_hair_thickness: m.cross_hair_thickness.clone(),
                    cross_hair_length: m.cross_hair_length.clone(),
                    angle: m.angle.clone(),
                },
            ),
            MacroContent::Thermal(t) => MacroContent::Thermal(
                ThermalPrimitive {
                    center: clone_pair(&t.center),
                    outer_diameter: t.outer_diameter.clone(),
                    inner_diameter: t.inner_diameter.clone(),
                    gap: t.gap.clone(),
                    angle: t.angle.clone(),
                },
            ),
            MacroContent::VariableDefinition(v) => MacroContent::VariableDefinition(
                VariableDefinition { number: v.number, expression: v.expression.clone() },
            ),
            MacroContent::Comment(s) => MacroContent::Comment(s.clone()),
        }
    }
}

impl<N: Copy> Clone for ApertureMacro<N> {
    fn clone(&self) -> (r: Self)
        ensures
            r@ == self@,
    {
        let content = self.content.clone();
        assert(contents(content@) =~= contents(self.content@));
        ApertureMacro { name: self.name.clone(), content }
    }
}

impl<N: Copy> Clone for Aperture<N> {
    fn clone(&self) -> (r: Self)
        ensures
            r@ == self@,
    {
        match self {
            Aperture::Circle(c) => Aperture::Circle(*c),
            Aperture::Rectangle(r) => Aperture::Rectangle(*r),
            Aperture::Obround(r) => Aperture::Obround(*r),
            Aperture::Polygon(p) => Aperture::Polygon(*p),
            Aperture::Macro(name, None) => Aperture::Macro(name.clone(), None),
            Aperture::Macro(name, Some(args)) => {
                let copies = args.clone();
                assert(copies@ =~= args@);
                Aperture::Macro(name.clone(), Some(copies))
            },
        }
    }
}

impl Clone for FileFunction {
    fn clone(&self) -> (r: Self)
        ensures
            r@ == self@,
    {
        match self {
            FileFunction::Copper { layer, pos, copper_type } => FileFunction::Copper {
                layer: *layer,
                pos: *pos,
                copper_type: *copper_type,
            },
            FileFunction::Profile(p) => FileFunction::Profile(*p),
            FileFunction::KeepOut(p) => FileFunction::KeepOut(*p),
            FileFunction::SolderMask { pos, index } => FileFunction::SolderMask {
                pos: *pos,
                index: *index,
            },
            FileFunction::Legend { pos, index } => FileFunction::Legend { pos: *pos, index: *index },
            FileFunction::Paste(p) => FileFunction::Paste(*p),
            FileFunction::VCut(p) => FileFunction::VCut(*p),
            FileFunction::DrillMap => FileFunction::DrillMap,
            FileFunction::Other(s) => FileFunction::Other(s.clone()),
            FileFunction::Unmapped(s) => FileFunction::Unmapped(s.clone()),
        }
    }
}

impl Clone for FileAttribute {
    fn clone(&self) -> (r: Self)
        ensures
            r@ == self@,
    {
        match self {
            FileAttribute::FileFunction(f) => FileAttribute::FileFunction(f.clone()),
            FileAttribute::CreationDate(d) => FileAttribute::CreationDate(*d),
        }
    }
}

impl Clone for FunctionCode {
    fn clone(&self) -> (r: Self)
        ensures
            r@ == self@,
    {
        match self {
            FunctionCode::DCode(d) => FunctionCode::DCode(*d),
            FunctionCode::MCode(m) => FunctionCode::MCode(*m),
            FunctionCode::GCode(g) => FunctionCode::GCode(
                match g {
                    GCode::InterpolationMode(m) => GCode::InterpolationMode(*m),
                    GCode::RegionMode(on) => GCode::RegionMode(*on),
                    GCode::QuadrantMode(m) => GCode::QuadrantMode(*m),
                    GCode::Comment(CommentContent::String(s)) => GCode::Comment(
                        CommentContent::String(s.clone()),
                    ),
                    GCode::Comment(
                        CommentContent::Standard(StandardComment::FileAttribute(a)),
                    ) => GCode::Comment(
                        CommentContent::Standard(StandardComment::FileAttribute(a.clone())),
                    ),
                    GCode::Unit(u) => GCode::Unit(*u),
                    GCode::CoordinateMode(m) => GCode::CoordinateMode(*m),
                    GCode::SelectAperture => GCode::SelectAperture,
                },
            ),
        }
    }
}

impl<N: Copy> Clone for ExtendedCode<N> {
    fn clone(&self) -> (r: Self)
        ensures
            r@ == self@,
    {
        match self {
            ExtendedCode::CoordinateFormat(f) => ExtendedCode::CoordinateFormat(*f),
            ExtendedCode::Unit(u) => ExtendedCode::Unit(*u),
            ExtendedCode::ApertureDefinition(d) => ExtendedCode::ApertureDefinition(
                ApertureDefinition { code: d.code, aperture: d.aperture.clone() },
            ),
            ExtendedCode::ApertureMacro(m) => ExtendedCode::ApertureMacro(m.clone()),
            ExtendedCode::LoadPolarity(p) => ExtendedCode::LoadPolarity(*p),
            ExtendedCode::StepAndRepeat(s) => ExtendedCode::StepAndRepeat(*s),
            ExtendedCode::FileAttribute(a) => ExtendedCode::FileAttribute(a.clone()),
            ExtendedCode::ImageName(i) => ExtendedCode::ImageName(
                ImageName { name: i.name.clone() },
            ),
        }
    }
}

impl<N: Copy> Clone for Command<N> {
    fn clone(&self) -> (r: Self)
        ensures
            r@ == self@,
    {
        match self {
            Command::FunctionCode(f) => Command::FunctionCode(f.clone()),
            Command::ExtendedCode(e) => Command::ExtendedCode(e.clone()),
            Command::Other(s) => Command::Other(s.clone()),
        }
    }
}

/// The same commands once more.
pub fn clone_commands<N: Copy>(commands: &Vec<Command<N>>) -> (r: Vec<Command<N>>)
    ensures
        views(r@) == views(commands@),
{
    let r = commands.clone();
    assert(views(r@) =~= views(commands@));
    r
}

} // verus!
