//! Writing a file.
use crate::excellon_format::{
    Command, CommandView, CutterComp, Entry, EntryView, ExcellonLayerData, ExcellonView,
    GeometricCode, InputMode, MachineCode, Mode, ToolDefinition, UnitDefinition, ZeroSuppression,
};
use crate::gerber_types::Unit;
use crate::scalar::Scalar;
use crate::table::Table;
use crate::text;
use crate::text::{push_number, push_zeros};
use vstd::prelude::*;

verus! {

impl ZeroSuppression {
    pub open spec fn text_spec(self) -> Seq<char> {
        match self {
            ZeroSuppression::Leading => "LZ"@,
            ZeroSuppression::Trailing => "TZ"@,
        }
    }

    pub fn text(&self) -> (r: &'static str)
        ensures
            r@ == self.text_spec(),
    {
        match self {
            ZeroSuppression::Leading => "LZ",
            ZeroSuppression::Trailing => "TZ",
        }
    }
}

impl CutterComp {
    pub open spec fn text_spec(self) -> Seq<char> {
        match self {
            CutterComp::Off => "G40"@,
            CutterComp::Left => "G41"@,
            CutterComp::Right => "G42"@,
        }
    }

    pub fn text(&self) -> (r: &'static str)
        ensures
            r@ == self.text_spec(),
    {
        match self {
            CutterComp::Off => "G40",
            CutterComp::Left => "G41",
            CutterComp::Right => "G42",
        }
    }
}

impl InputMode {
    pub open spec fn text_spec(self) -> Seq<char> {
        match self {
            InputMode::Absolute => "G90"@,
            InputMode::Incremental => "G91"@,
        }
    }

    pub fn text(&self) -> (r: &'static str)
        ensures
            r@ == self.text_spec(),
    {
        match self {
            InputMode::Absolute => "G90",
            InputMode::Incremental => "G91",
        }
    }
}

impl Mode {
    pub open spec fn text_spec(self) -> Seq<char> {
        match self {
            Mode::Route => "G00"@,
            Mode::Linear => "G01"@,
            Mode::CircularCW => "G02"@,
            Mode::CircularCWW => "G03"@,
            Mode::DrillMode => "G05"@,
            Mode::CannedDrill => "G81"@,
        }
    }

    pub fn text(&self) -> (r: &'static str)
        ensures
            r@ == self.text_spec(),
    {
        match self {
            Mode::Route => "G00",
            Mode::Linear => "G01",
            Mode::CircularCW => "G02",
            Mode::CircularCWW => "G03",
            Mode::DrillMode => "G05",
            Mode::CannedDrill => "G81",
        }
    }
}

impl GeometricCode {
    pub open spec fn text_spec(self) -> Seq<char> {
        match self {
            GeometricCode::Mode(mode) => mode.text_spec(),
            GeometricCode::VariableDwell(time) => "G04X"@ + text::dec_digits(time as nat),
            GeometricCode::OverrideFeed => "G07"@,
            GeometricCode::InputMode(mode) => mode.text_spec(),
            GeometricCode::CutterCompensation(c) => c.text_spec(),
        }
    }

    pub fn write(&self, out: &mut String)
        ensures
            final(out)@ == old(out)@ + self.text_spec(),
    {
        match self {
            GeometricCode::Mode(mode) => {
                out.append(mode.text());
            },
            GeometricCode::VariableDwell(time) => {
                out.append("G04X");
                push_number(out, *time as u64);
                assert(out@ =~= old(out)@ + self.text_spec());
            },
            GeometricCode::OverrideFeed => {
                out.append("G07");
            },
            GeometricCode::InputMode(mode) => {
                out.append(mode.text());
            },
            GeometricCode::CutterCompensation(c) => {
                out.append(c.text());
            },
        }
    }
}

impl MachineCode {
    pub open spec fn text_spec(self) -> Seq<char> {
        match self {
            MachineCode::EndOfProgram => "M30"@,
            MachineCode::HeaderStart => "M48"@,
            MachineCode::Scale(Unit::Millimeters) => "M71"@,
            MachineCode::Scale(Unit::Inches) => "M72"@,
            MachineCode::HeaderEnd => "M95"@,
            MachineCode::RewindStop => "%"@,
            MachineCode::RouterDown => "M15"@,
            MachineCode::RouterUp => "M17"@,
        }
    }

    pub fn text(&self) -> (r: &'static str)
        ensures
            r@ == self.text_spec(),
    {
        match self {
            MachineCode::EndOfProgram => "M30",
            MachineCode::HeaderStart => "M48",
            MachineCode::Scale(Unit::Millimeters) => "M71",
            MachineCode::Scale(Unit::Inches) => "M72",
            MachineCode::HeaderEnd => "M95",
            MachineCode::RewindStop => "%",
            MachineCode::RouterDown => "M15",
            MachineCode::RouterUp => "M17",
        }
    }
}

impl UnitDefinition {
    pub open spec fn unit_text(unit: Unit) -> Seq<char> {
        match unit {
            Unit::Inches => "INCH"@,
            Unit::Millimeters => "METRIC"@,
        }
    }

    /// The unit; without a decimal point in the coordinates also the zero suppression and, as runs
    /// of zeros, the digit counts.
    pub open spec fn text_spec(self) -> Seq<char> {
        if self.decimal {
            UnitDefinition::unit_text(self.unit)
        } else {
            UnitDefinition::unit_text(self.unit) + seq![','] + self.ty.text_spec() + seq![',']
                + text::zeros(self.leading as nat) + seq!['.'] + text::zeros(self.trailing as nat)
        }
    }

    pub fn write(&self, out: &mut String)
        ensures
            final(out)@ == old(out)@ + self.text_spec(),
    {
        out.append(
            match self.unit {
                Unit::Inches => "INCH",
                Unit::Millimeters => "METRIC",
            },
        );
        if !self.decimal {
            out.push(',');
            out.append(self.ty.text());
            out.push(',');
            push_zeros(out, self.leading as usize);
            out.push('.');
            push_zeros(out, self.trailing as usize);
        }
        assert(out@ =~= old(out)@ + self.text_spec());
    }
}

/// A letter and a number behind it, or nothing.
pub open spec fn axis_text<N: Scalar>(letter: char, v: Option<N>, fmt: UnitDefinition) -> Seq<char> {
    match v {
        Some(v) => seq![letter] + fmt.serialize_spec(v),
        None => Seq::empty(),
    }
}

pub open spec fn axis_writable<N: Scalar>(v: Option<N>, fmt: UnitDefinition) -> bool {
    v matches Some(v) ==> fmt.writes(v)
}

fn write_axis<N: Scalar>(letter: char, v: Option<N>, fmt: &UnitDefinition, out: &mut String)
    requires
        axis_writable(v, *fmt),
    ensures
        final(out)@ == old(out)@ + axis_text(letter, v, *fmt),
{
    if let Some(v) = v {
        out.push(letter);
        out.append(fmt.serialize(v).as_str());
    }
    assert(out@ =~= old(out)@ + axis_text(letter, v, *fmt));
}

/// A command without the end of its line.
pub open spec fn command_body<N: Scalar>(c: CommandView<N>) -> Seq<char> {
    match c {
        Command::FormatCode(v) => "FMAT,"@ + text::dec_digits(v as nat),
        Command::Incremental(true) => "ICI,ON"@,
        Command::Incremental(false) => "ICI,OFF"@,
        Command::UnitDefinition(u) => u.text_spec(),
        Command::Geometric(g) => g.text_spec(),
        Command::Machine(m) => m.text_spec(),
        Command::Coordinate(x, y, fmt) => axis_text('X', x, fmt) + axis_text('Y', y, fmt),
        Command::Tool(id) => seq!['T'] + text::dec_digits(id as nat),
        Command::ToolDefinition(t) => seq!['T'] + text::dec_digits(t.tool_number as nat) + seq!['C']
            + t.diameter.text_spec(3),
        Command::Comment(s) => seq![';'] + s,
        Command::FeedRate(r) => seq!['F'] + text::dec_digits(r as nat),
        Command::Slot { from_x, from_y, to_x, to_y, fmt } => axis_text('X', from_x, fmt)
            + axis_text('Y', from_y, fmt) + "G85"@ + axis_text('X', to_x, fmt) + axis_text(
            'Y',
            to_y,
            fmt,
        ),
    }
}

/// The line for a command. A coordinate without both axes has none.
pub open spec fn command_text<N: Scalar>(c: CommandView<N>) -> Seq<char> {
    match c {
        Command::Coordinate(None, None, _) => Seq::empty(),
        _ => command_body(c).push('\n'),
    }
}

/// Every coordinate can be written.
pub open spec fn command_writable<N: Scalar>(c: CommandView<N>) -> bool {
    match c {
        Command::Coordinate(x, y, fmt) => axis_writable(x, fmt) && axis_writable(y, fmt),
        Command::Slot { from_x, from_y, to_x, to_y, fmt } => axis_writable(from_x, fmt)
            && axis_writable(from_y, fmt) && axis_writable(to_x, fmt) && axis_writable(to_y, fmt),
        _ => true,
    }
}

impl<N: Scalar> Command<N> {
    /// Appends the line for the command.
    pub fn write(&self, out: &mut String)
        requires
            command_writable(self@),
        ensures
            final(out)@ == old(out)@ + command_text(self@),
    {
        match self {
            Command::FormatCode(v) => {
                out.append("FMAT,");
                push_number(out, *v as u64);
            },
            Command::Incremental(on) => {
                out.append(
                    if *on {
                        "ICI,ON"
                    } else {
                        "ICI,OFF"
                    },
                );
            },
            Command::UnitDefinition(u) => {
                u.write(out);
            },
            Command::Geometric(g) => {
                g.write(out);
            },
            Command::Machine(m) => {
                out.append(m.text());
            },
            Command::Coordinate(x, y, fmt) => {
                write_axis('X', *x, fmt, out);
                write_axis('Y', *y, fmt, out);
                if x.is_none() && y.is_none() {
                    assert(out@ =~= old(out)@ + command_text(self@));
                    return;
                }
            },
            Command::Tool(id) => {
                out.push('T');
                push_number(out, *id as u64);
            },
            Command::ToolDefinition(t) => {
                out.push('T');
                push_number(out, t.tool_number as u64);
                out.push('C');
                out.append(t.diameter.text(3).as_str());
            },
            Command::Comment(s) => {
                out.push(';');
                out.append(s.as_str());
            },
            Command::FeedRate(rate) => {
                out.push('F');
                push_number(out, *rate as u64);
            },
            Command::Slot { from_x, from_y, to_x, to_y, fmt } => {
                write_axis('X', *from_x, fmt, out);
                write_axis('Y', *from_y, fmt, out);
                out.append("G85");
                write_axis('X', *to_x, fmt, out);
                write_axis('Y', *to_y, fmt, out);
            },
        }
        assert(out@ =~= old(out)@ + command_body(self@));
        out.push('\n');
        assert(out@ =~= old(out)@ + command_text(self@));
    }
}

/// The mark that ends the header: the last one in it, or `M95`.
pub open spec fn header_mark<N>(header: Seq<EntryView<N>>) -> MachineCode
    decreases header.len(),
{
    if header.len() == 0 {
        MachineCode::HeaderEnd
    } else {
        match header.last() {
            Ok(Command::Machine(MachineCode::HeaderEnd)) => MachineCode::HeaderEnd,
            Ok(Command::Machine(MachineCode::RewindStop)) => MachineCode::RewindStop,
            _ => header_mark(header.drop_last()),
        }
    }
}

/// What an entry of the header adds to the text. Tools and the end of the header come later.
pub open spec fn header_entry_text<N: Scalar>(e: EntryView<N>) -> Seq<char> {
    match e {
        Ok(Command::ToolDefinition(_)) => Seq::empty(),
        Ok(Command::Machine(MachineCode::HeaderEnd)) => Seq::empty(),
        Ok(Command::Machine(MachineCode::RewindStop)) => Seq::empty(),
        Ok(c) => command_text(c),
        Err(_) => Seq::empty(),
    }
}

pub open spec fn header_text<N: Scalar>(header: Seq<EntryView<N>>) -> Seq<char>
    decreases header.len(),
{
    if header.len() == 0 {
        Seq::empty()
    } else {
        header_text(header.drop_last()) + header_entry_text(header.last())
    }
}

pub open spec fn tools_text<N: Scalar>(tools: Seq<(u32, N)>) -> Seq<char>
    decreases tools.len(),
{
    if tools.len() == 0 {
        Seq::empty()
    } else {
        let (tool_number, diameter) = tools.last();
        tools_text(tools.drop_last()) + command_text(
            Command::ToolDefinition(ToolDefinition { tool_number, diameter }),
        )
    }
}

/// The lines of the commands; an error has none.
pub open spec fn body_text<N: Scalar>(commands: Seq<EntryView<N>>) -> Seq<char>
    decreases commands.len(),
{
    if commands.len() == 0 {
        Seq::empty()
    } else {
        body_text(commands.drop_last()) + match commands.last() {
            Ok(c) => command_text(c),
            Err(_) => Seq::empty(),
        }
    }
}

/// The header, the tools in the order of their numbers, the end of the header, and the body.
pub open spec fn layer_text<N: Scalar>(v: ExcellonView<N>) -> Seq<char> {
    header_text(v.header) + tools_text(v.tools) + command_text::<N>(
        Command::Machine(header_mark(v.header)),
    ) + body_text(v.commands)
}

pub open spec fn entries_writable<N: Scalar>(s: Seq<EntryView<N>>) -> bool {
    forall|i: int| 0 <= i < s.len() ==> (#[trigger] s[i] matches Ok(c) ==> command_writable(c))
}

/// Every coordinate of the layer can be written.
pub open spec fn layer_writable<N: Scalar>(v: ExcellonView<N>) -> bool {
    entries_writable(v.header) && entries_writable(v.commands)
}

fn write_header<N: Scalar>(header: &[Entry<N>], out: &mut String) -> (mark: MachineCode)
    requires
        entries_writable(crate::excellon_format::entries(header@)),
    ensures
        final(out)@ == old(out)@ + header_text(crate::excellon_format::entries(header@)),
        mark == header_mark(crate::excellon_format::entries(header@)),
{
    let ghost s = crate::excellon_format::entries(header@);
    let mut mark = MachineCode::HeaderEnd;
    let mut i: usize = 0;
    assert(out@ =~= old(out)@ + header_text(s.take(0)));
    while i < header.len()
        invariant
            i <= header@.len(),
            s == crate::excellon_format::entries(header@),
            entries_writable(s),
            out@ == old(out)@ + header_text(s.take(i as int)),
            mark == header_mark(s.take(i as int)),
        decreases header@.len() - i,
    {
        let ghost before = out@;
        proof {
            let now = s.take(i + 1);
            assert(now.drop_last() =~= s.take(i as int));
            assert(now.last() == s[i as int]);
            assert(s[i as int] == crate::excellon_format::entry_view(header@[i as int]));
        }
        match &header[i] {
            Ok(Command::ToolDefinition(_)) => {},
            Ok(Command::Machine(MachineCode::RewindStop)) => {
                mark = MachineCode::RewindStop;
            },
            Ok(Command::Machine(MachineCode::HeaderEnd)) => {
                mark = MachineCode::HeaderEnd;
            },
            Ok(command) => {
                command.write(out);
            },
            Err(_) => {},
        }
        assert(out@ =~= before + header_entry_text(s[i as int]));
        assert(out@ =~= old(out)@ + header_text(s.take(i + 1)));
        i = i + 1;
    }
    assert(s.take(i as int) =~= s);
    mark
}

fn write_tools<N: Scalar>(tools: &Table<u32, N>, out: &mut String)
    ensures
        final(out)@ == old(out)@ + tools_text(tools@),
{
    let mut i: usize = 0;
    assert(out@ =~= old(out)@ + tools_text(tools@.take(0)));
    while i < tools.len()
        invariant
            i <= tools@.len(),
            out@ == old(out)@ + tools_text(tools@.take(i as int)),
        decreases tools@.len() - i,
    {
        let ghost before = out@;
        proof {
            let now = tools@.take(i + 1);
            assert(now.drop_last() =~= tools@.take(i as int));
            assert(now.last() == tools@[i as int]);
        }
        let td: Command<N> = Command::ToolDefinition(
            ToolDefinition { tool_number: tools.key_at(i), diameter: *tools.value_at(i) },
        );
        td.write(out);
        assert(out@ =~= old(out)@ + tools_text(tools@.take(i + 1)));
        i = i + 1;
    }
    assert(tools@.take(i as int) =~= tools@);
}

fn write_body<N: Scalar>(commands: &[Entry<N>], out: &mut String)
    requires
        entries_writable(crate::excellon_format::entries(commands@)),
    ensures
        final(out)@ == old(out)@ + body_text(crate::excellon_format::entries(commands@)),
{
    let ghost s = crate::excellon_format::entries(commands@);
    let mut i: usize = 0;
    assert(out@ =~= old(out)@ + body_text(s.take(0)));
    while i < commands.len()
        invariant
            i <= commands@.len(),
            s == crate::excellon_format::entries(commands@),
            entries_writable(s),
            out@ == old(out)@ + body_text(s.take(i as int)),
        decreases commands@.len() - i,
    {
        proof {
            let now = s.take(i + 1);
            assert(now.drop_last() =~= s.take(i as int));
            assert(now.last() == s[i as int]);
            assert(s[i as int] == crate::excellon_format::entry_view(commands@[i as int]));
        }
        if let Ok(command) = &commands[i] {
            command.write(out);
        }
        assert(out@ =~= old(out)@ + body_text(s.take(i + 1)));
        i = i + 1;
    }
    assert(s.take(i as int) =~= s);
}

fn axis_is_writable<N: Scalar>(v: Option<N>, fmt: &UnitDefinition) -> (r: bool)
    ensures
        r == axis_writable(v, *fmt),
{
    match v {
        Some(v) => fmt.decimal || v.same(N::zero()) || fmt.trailing <= 9,
        None => true,
    }
}

fn entries_are_writable<N: Scalar>(s: &[Entry<N>]) -> (r: bool)
    ensures
        r == entries_writable(crate::excellon_format::entries(s@)),
{
    let ghost all = crate::excellon_format::entries(s@);
    let mut i: usize = 0;
    while i < s.len()
        invariant
            i <= s@.len(),
            all == crate::excellon_format::entries(s@),
            forall|k: int|
                0 <= k < i ==> (#[trigger] all[k] matches Ok(c) ==> command_writable(c)),
        decreases s@.len() - i,
    {
        assert(all[i as int] == crate::excellon_format::entry_view(s@[i as int]));
        let writable = match &s[i] {
            Ok(Command::Coordinate(x, y, fmt)) => axis_is_writable(*x, fmt) && axis_is_writable(
                *y,
                fmt,
            ),
            Ok(Command::Slot { from_x, from_y, to_x, to_y, fmt }) => axis_is_writable(*from_x, fmt)
                && axis_is_writable(*from_y, fmt) && axis_is_writable(*to_x, fmt)
                && axis_is_writable(*to_y, fmt),
            _ => true,
        };
        if !writable {
            return false;
        }
        i = i + 1;
    }
    true
}

impl<N: Scalar> ExcellonLayerData<N> {
    /// Whether every coordinate of the layer can be written: its format has at most nine decimal
    /// places.
    pub fn is_writable(&self) -> (r: bool)
        ensures
            r == layer_writable(self@),
    {
        entries_are_writable(&self.header) && entries_are_writable(&self.commands)
    }

    /// Serialises the layer back to Excellon text format.
    ///
    /// Tool definitions are always written in sorted order immediately before
    /// the header-end marker, regardless of their original position.
    pub fn write_to(&self, out: &mut String)
        requires
            layer_writable(self@),
        ensures
            final(out)@ == old(out)@ + layer_text(self@),
    {
        let mark = write_header(&self.header, out);
        write_tools(&self.tools, out);
        let header_end: Command<N> = Command::Machine(mark);
        header_end.write(out);
        write_body(&self.commands, out);
        assert(out@ =~= old(out)@ + layer_text(self@));
    }
}

} // verus!
