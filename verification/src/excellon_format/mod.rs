//! Excellon drill and routing files.
pub mod corners;
pub mod edit;
pub mod line;
pub mod merge;
pub mod message;
pub mod number;
pub mod parse;
pub mod write;

pub use crate::excellon_format::parse::parse_excellon;

use crate::gerber_types::Unit;
use crate::scalar::Scalar;
use crate::table::Table;
use vstd::prelude::*;

verus! {

/// Which zeros a number keeps.
#[derive(Clone, Copy, Debug, PartialEq, Eq, Structural)]
pub enum ZeroSuppression {
    Leading,
    Trailing,
}

/// How the coordinates of a file are written.
#[derive(Clone, Copy, Debug, PartialEq, Eq, Structural)]
pub struct UnitDefinition {
    pub unit: Unit,
    pub ty: ZeroSuppression,
    pub leading: u8,
    pub trailing: u8,
    /// Decimal-point coordinate mode (XNC): coords written as floats, no zero suppression.
    pub decimal: bool,
}

#[derive(Clone, Copy, Debug, PartialEq, Eq, Structural)]
pub enum CutterComp {
    Off,
    Left,
    Right,
}

#[derive(Clone, Copy, Debug, PartialEq, Eq, Structural)]
pub enum InputMode {
    Absolute,
    Incremental,
}

#[derive(Clone, Copy, Debug, PartialEq, Eq, Structural)]
pub enum Mode {
    Route,
    Linear,
    CircularCW,
    CircularCWW,
    DrillMode,
    CannedDrill,
}

#[derive(Clone, Copy, Debug, PartialEq, Eq, Structural)]
pub enum GeometricCode {
    Mode(Mode),
    /// G04X#: sleep time in seconds
    VariableDwell(u16),
    /// G07
    OverrideFeed,
    /// G90, G91
    InputMode(InputMode),
    /// G40, G41, G42
    CutterCompensation(CutterComp),
}

#[derive(Clone, Copy, Debug, PartialEq, Eq, Structural)]
pub enum MachineCode {
    /// M30
    EndOfProgram,
    /// M48
    HeaderStart,
    /// M71, M72
    Scale(Unit),
    /// M95
    HeaderEnd,
    /// %
    RewindStop,
    /// M15
    RouterDown,
    /// M17
    RouterUp,
}

#[derive(Copy, Debug, PartialEq)]
pub struct ToolDefinition<N> {
    pub tool_number: u32,
    pub diameter: N,
}

/// A single parsed Excellon command. `S` is the type of texts.
#[derive(Debug, PartialEq)]
#[verifier::ext_equal]
pub enum Command<N, S = String> {
    /// `FMAT,<version>` — file format version declaration.
    FormatCode(u8),
    /// `ICI,ON` / `ICI,OFF` — incremental (`true`) or absolute (`false`) input.
    Incremental(bool),
    /// `METRIC` / `INCH` — unit, zero-suppression and digit-count declaration.
    UnitDefinition(UnitDefinition),
    /// G-code (mode, dwell, input mode).
    Geometric(GeometricCode),
    /// M-code (header delimiters, scale, end-of-program).
    Machine(MachineCode),
    /// `X<n>Y<n>` — a drill-hit coordinate pair plus its format context.
    Coordinate(Option<N>, Option<N>, UnitDefinition),
    /// `T<n>` — select tool by number.
    Tool(u32),
    /// `T<n>C<diam>` — define a tool (number + diameter).
    ToolDefinition(ToolDefinition<N>),
    /// `;…` — comment line.
    Comment(S),
    /// `F<n>` — feed-rate setting.
    FeedRate(u32),
    /// `[X<a>Y<b>]G85X<c>Y<d>` — route (mill) a slot between two points.
    Slot {
        from_x: Option<N>,
        from_y: Option<N>,
        to_x: Option<N>,
        to_y: Option<N>,
        fmt: UnitDefinition,
    },
}

/// Structured error type for individual Excellon parse failures. `S` is the type of texts.
#[derive(Debug, PartialEq)]
#[verifier::ext_equal]
pub enum ExcellonError<S = String> {
    InvalidCicOption(S),
    InvalidCmd(S),
    InvalidToolDefinition(S),
    InvalidCoordinate(S),
    InvalidUnitDefinition,
    InvalidGeometricCode(u8),
    InvalidMachineCode(u8),
    /// Referenced tool number has no matching `T<n>C<diam>` definition.
    InvalidToolNumber(u32),
    /// No `M95` or `%`
    MissingHeaderEnd,
    /// No `M48`
    MissingHeaderStart,
    /// No `M30`
    MissingEndOfProgram,
    CoordinateBeforeUnit,
    FloatParse(S),
    IntParse(S),
    InvalidVersion,
    Custom(S),
}

/// A parse error annotated with its source line number and raw text. `S` is the type of texts.
#[derive(Debug, PartialEq)]
#[verifier::ext_equal]
pub struct ExcellonParseFormat<S = String> {
    pub source: ExcellonError<S>,
    pub line: usize,
    pub content: S,
}

/// A command, or why there is none.
pub type Entry<N> = Result<Command<N>, ExcellonParseFormat>;

/// A parsed Excellon drill file, split into header and body sections.
///
/// Parse errors on individual lines are stored inline as `Err` variants rather
/// than aborting the whole parse, so callers can decide how to handle them.
pub struct ExcellonLayerData<N> {
    /// Header commands (everything before `M95`/`%`), including unit and format definitions.
    pub header: Vec<Entry<N>>,
    /// Body commands (drill hits, tool changes, end-of-program, …).
    pub commands: Vec<Entry<N>>,
    /// Coordinate format derived from the header (unit, zero-suppression, digit counts).
    pub unit: UnitDefinition,
    /// Tool definitions: tool number → drill diameter in the file's native unit.
    pub tools: Table<u32, N>,
}

/// What a [`Command`] holds: the same command, with its text as a sequence of characters.
pub type CommandView<N> = Command<N, Seq<char>>;

/// What an [`Entry`] holds.
pub type EntryView<N> = Result<CommandView<N>, ExcellonParseFormat<Seq<char>>>;

/// What an [`ExcellonLayerData`] holds.
#[verifier::ext_equal]
pub ghost struct ExcellonView<N> {
    pub header: Seq<EntryView<N>>,
    pub commands: Seq<EntryView<N>>,
    pub unit: UnitDefinition,
    pub tools: Seq<(u32, N)>,
}

impl<N> View for Command<N> {
    type V = CommandView<N>;

    open spec fn view(&self) -> CommandView<N> {
        match *self {
            Command::FormatCode(v) => Command::FormatCode(v),
            Command::Incremental(i) => Command::Incremental(i),
            Command::UnitDefinition(u) => Command::UnitDefinition(u),
            Command::Geometric(g) => Command::Geometric(g),
            Command::Machine(m) => Command::Machine(m),
            Command::Coordinate(x, y, fmt) => Command::Coordinate(x, y, fmt),
            Command::Tool(id) => Command::Tool(id),
            Command::ToolDefinition(t) => Command::ToolDefinition(t),
            Command::Comment(s) => Command::Comment(s@),
            Command::FeedRate(r) => Command::FeedRate(r),
            Command::Slot { from_x, from_y, to_x, to_y, fmt } => Command::Slot {
                from_x,
                from_y,
                to_x,
                to_y,
                fmt,
            },
        }
    }
}

impl View for ExcellonError {
    type V = ExcellonError<Seq<char>>;

    open spec fn view(&self) -> ExcellonError<Seq<char>> {
        match *self {
            ExcellonError::InvalidCicOption(s) => ExcellonError::InvalidCicOption(s@),
            ExcellonError::InvalidCmd(s) => ExcellonError::InvalidCmd(s@),
            ExcellonError::InvalidToolDefinition(s) => ExcellonError::InvalidToolDefinition(s@),
            ExcellonError::InvalidCoordinate(s) => ExcellonError::InvalidCoordinate(s@),
            ExcellonError::InvalidUnitDefinition => ExcellonError::InvalidUnitDefinition,
            ExcellonError::InvalidGeometricCode(c) => ExcellonError::InvalidGeometricCode(c),
            ExcellonError::InvalidMachineCode(c) => ExcellonError::InvalidMachineCode(c),
            ExcellonError::InvalidToolNumber(n) => ExcellonError::InvalidToolNumber(n),
            ExcellonError::MissingHeaderEnd => ExcellonError::MissingHeaderEnd,
            ExcellonError::MissingHeaderStart => ExcellonError::MissingHeaderStart,
            ExcellonError::MissingEndOfProgram => ExcellonError::MissingEndOfProgram,
            ExcellonError::CoordinateBeforeUnit => ExcellonError::CoordinateBeforeUnit,
            ExcellonError::FloatParse(s) => ExcellonError::FloatParse(s@),
            ExcellonError::IntParse(s) => ExcellonError::IntParse(s@),
            ExcellonError::InvalidVersion => ExcellonError::InvalidVersion,
            ExcellonError::Custom(s) => ExcellonError::Custom(s@),
        }
    }
}

impl View for ExcellonParseFormat {
    type V = ExcellonParseFormat<Seq<char>>;

    open spec fn view(&self) -> ExcellonParseFormat<Seq<char>> {
        ExcellonParseFormat { source: self.source@, line: self.line, content: self.content@ }
    }
}

pub open spec fn entry_view<N>(e: Entry<N>) -> EntryView<N> {
    match e {
        Ok(c) => Ok(c@),
        Err(e) => Err(e@),
    }
}

pub open spec fn entries<N>(s: Seq<Entry<N>>) -> Seq<EntryView<N>> {
    s.map_values(|e: Entry<N>| entry_view(e))
}

impl<N> View for ExcellonLayerData<N> {
    type V = ExcellonView<N>;

    open spec fn view(&self) -> ExcellonView<N> {
        ExcellonView {
            header: entries(self.header@),
            commands: entries(self.commands@),
            unit: self.unit,
            tools: self.tools@,
        }
    }
}

impl<N: Copy> Clone for ToolDefinition<N> {
    fn clone(&self) -> (r: Self)
        ensures
            r == *self,
    {
        *self
    }
}

impl<N: Copy> Clone for Command<N> {
    fn clone(&self) -> (r: Self)
        ensures
            r@ == self@,
    {
        match self {
            Command::FormatCode(v) => Command::FormatCode(*v),
            Command::Incremental(i) => Command::Incremental(*i),
            Command::UnitDefinition(u) => Command::UnitDefinition(*u),
            Command::Geometric(g) => Command::Geometric(*g),
            Command::Machine(m) => Command::Machine(*m),
            Command::Coordinate(x, y, fmt) => Command::Coordinate(*x, *y, *fmt),
            Command::Tool(id) => Command::Tool(*id),
            Command::ToolDefinition(t) => Command::ToolDefinition(*t),
            Command::Comment(s) => Command::Comment(s.clone()),
            Command::FeedRate(r) => Command::FeedRate(*r),
            Command::Slot { from_x, from_y, to_x, to_y, fmt } => Command::Slot {
                from_x: *from_x,
                from_y: *from_y,
                to_x: *to_x,
                to_y: *to_y,
                fmt: *fmt,
            },
        }
    }
}

impl Clone for ExcellonError {
    fn clone(&self) -> (r: Self)
        ensures
            r == *self,
    {
        match self {
            ExcellonError::InvalidCicOption(s) => ExcellonError::InvalidCicOption(s.clone()),
            ExcellonError::InvalidCmd(s) => ExcellonError::InvalidCmd(s.clone()),
            ExcellonError::InvalidToolDefinition(s) => ExcellonError::InvalidToolDefinition(
                s.clone(),
            ),
            ExcellonError::InvalidCoordinate(s) => ExcellonError::InvalidCoordinate(s.clone()),
            ExcellonError::InvalidUnitDefinition => ExcellonError::InvalidUnitDefinition,
            ExcellonError::InvalidGeometricCode(c) => ExcellonError::InvalidGeometricCode(*c),
            ExcellonError::InvalidMachineCode(c) => ExcellonError::InvalidMachineCode(*c),
            ExcellonError::InvalidToolNumber(n) => ExcellonError::InvalidToolNumber(*n),
            ExcellonError::MissingHeaderEnd => ExcellonError::MissingHeaderEnd,
            ExcellonError::MissingHeaderStart => ExcellonError::MissingHeaderStart,
            ExcellonError::MissingEndOfProgram => ExcellonError::MissingEndOfProgram,
            ExcellonError::CoordinateBeforeUnit => ExcellonError::CoordinateBeforeUnit,
            ExcellonError::FloatParse(s) => ExcellonError::FloatParse(s.clone()),
            ExcellonError::IntParse(s) => ExcellonError::IntParse(s.clone()),
            ExcellonError::InvalidVersion => ExcellonError::InvalidVersion,
            ExcellonError::Custom(s) => ExcellonError::Custom(s.clone()),
        }
    }
}

impl Clone for ExcellonParseFormat {
    fn clone(&self) -> (r: Self)
        ensures
            r == *self,
    {
        ExcellonParseFormat {
            source: self.source.clone(),
            line: self.line,
            content: self.content.clone(),
        }
    }
}

pub fn clone_entry<N: Copy>(e: &Entry<N>) -> (r: Entry<N>)
    ensures
        entry_view(r) == entry_view(*e),
{
    match e {
        Ok(c) => Ok(c.clone()),
        Err(e) => Err(e.clone()),
    }
}

pub fn clone_entries<N: Copy>(s: &[Entry<N>]) -> (r: Vec<Entry<N>>)
    ensures
        entries(r@) == entries(s@),
{
    let mut r: Vec<Entry<N>> = Vec::new();
    let mut i: usize = 0;
    while i < s.len()
        invariant
            i <= s@.len(),
            entries(r@) == entries(s@.take(i as int)),
        decreases s@.len() - i,
    {
        let ghost before = r@;
        r.push(clone_entry(&s[i]));
        i = i + 1;
        proof {
            assert(entries(r@) =~= entries(before).push(entry_view(s@[i - 1])));
            assert(entries(s@.take(i as int)) =~= entries(s@.take(i - 1)).push(
                entry_view(s@[i - 1]),
            ));
        }
    }
    assert(s@.take(i as int) =~= s@);
    r
}

impl<N: Scalar> Clone for ExcellonLayerData<N> {
    fn clone(&self) -> (r: Self)
        ensures
            r@ == self@,
    {
        ExcellonLayerData {
            header: clone_entries(&self.header),
            commands: clone_entries(&self.commands),
            unit: self.unit,
            tools: self.tools.copied(),
        }
    }
}

} // verus!
