//! Reading a whole file.
use crate::excellon_format::line::{parse_line, LineResult};
use crate::excellon_format::{
    Command, Entry, EntryView, ExcellonError, ExcellonLayerData, ExcellonParseFormat, ExcellonView,
    MachineCode, UnitDefinition,
};
use crate::gerber_types::Unit;
use crate::scalar::Scalar;
use crate::table;
use crate::table::Table;
use crate::text;
use crate::text::{split_lines, text_of, trim};
use vstd::prelude::*;

verus! {

/// What has been read so far.
#[verifier::ext_equal]
pub ghost struct Progress<N> {
    pub commands: Seq<EntryView<N>>,
    /// The format that the next coordinate is written in.
    pub format: UnitDefinition,
    pub unit_set: bool,
    pub tools: Seq<(u32, N)>,
}

impl<N: Scalar> Progress<N> {
    pub open spec fn start() -> Progress<N> {
        Progress {
            commands: Seq::empty(),
            format: UnitDefinition::default_spec(Unit::Inches),
            unit_set: false,
            tools: Seq::empty(),
        }
    }

    pub open spec fn pushed(self, e: EntryView<N>) -> Progress<N> {
        Progress { commands: self.commands.push(e), ..self }
    }

    /// A unit definition sets the format, a scale code its unit, and a tool definition adds to the
    /// tools. A tool that was not defined before ends the reading.
    pub open spec fn after(self, r: LineResult<N, Seq<char>>, line: nat, content: Seq<char>) -> Result<
        Progress<N>,
        ExcellonError<Seq<char>>,
    > {
        match r {
            LineResult::Command(c) => {
                match c {
                    Command::UnitDefinition(unit) => Ok(
                        Progress { format: unit, unit_set: true, ..self.pushed(Ok(c)) },
                    ),
                    Command::Machine(MachineCode::Scale(unit)) => Ok(
                        Progress {
                            format: UnitDefinition { unit, ..self.format },
                            ..self.pushed(Ok(c))
                        },
                    ),
                    Command::ToolDefinition(t) => Ok(
                        Progress {
                            tools: table::inserted(self.tools, t.tool_number, t.diameter),
                            ..self.pushed(Ok(c))
                        },
                    ),
                    Command::Tool(id) => if table::lookup(self.tools, id) is Some {
                        Ok(self.pushed(Ok(c)))
                    } else {
                        Err(ExcellonError::InvalidToolNumber(id))
                    },
                    _ => Ok(self.pushed(Ok(c))),
                }
            },
            LineResult::RawCoordinate(x, y) => if self.unit_set {
                Ok(self.pushed(Ok(Command::Coordinate(x, y, self.format))))
            } else {
                Ok(
                    self.pushed(
                        Err(
                            ExcellonParseFormat {
                                source: ExcellonError::CoordinateBeforeUnit,
                                line: line as usize,
                                content,
                            },
                        ),
                    ),
                )
            },
        }
    }

    /// One line may say several things, one after the other.
    pub open spec fn after_all(
        self,
        rs: Seq<LineResult<N, Seq<char>>>,
        line: nat,
        content: Seq<char>,
    ) -> Result<Progress<N>, ExcellonError<Seq<char>>>
        decreases rs.len(),
    {
        if rs.len() == 0 {
            Ok(self)
        } else {
            match self.after_all(rs.drop_last(), line, content) {
                Err(e) => Err(e),
                Ok(p) => p.after(rs.last(), line, content),
            }
        }
    }

    /// A line that says nothing valid is kept as an error.
    pub open spec fn after_line(self, raw: Seq<char>, line: nat) -> Result<
        Progress<N>,
        ExcellonError<Seq<char>>,
    > {
        let content = text::trimmed(raw);
        if content.len() == 0 {
            Ok(self)
        } else {
            match crate::excellon_format::line::line_results::<N>(content, self.format) {
                Ok(rs) => self.after_all(rs, line, content),
                Err(source) => Ok(
                    self.pushed(
                        Err(ExcellonParseFormat { source, line: line as usize, content }),
                    ),
                ),
            }
        }
    }
}

/// What the lines of a file say, line by line.
pub open spec fn after_lines<N: Scalar>(lines: Seq<Seq<char>>) -> Result<
    Progress<N>,
    ExcellonError<Seq<char>>,
>
    decreases lines.len(),
{
    if lines.len() == 0 {
        Ok(Progress::start())
    } else {
        match after_lines::<N>(lines.drop_last()) {
            Err(e) => Err(e),
            Ok(p) => p.after_line(lines.last(), (lines.len() - 1) as nat),
        }
    }
}

pub open spec fn is_comment<N>(e: EntryView<N>) -> bool {
    e matches Ok(Command::Comment(_))
}

/// The first entry that is no comment.
pub open spec fn first_significant<N>(s: Seq<EntryView<N>>) -> Option<EntryView<N>>
    decreases s.len(),
{
    if s.len() == 0 {
        None
    } else if is_comment(s[0]) {
        first_significant(s.skip(1))
    } else {
        Some(s[0])
    }
}

/// The last entry that is no comment.
pub open spec fn last_significant<N>(s: Seq<EntryView<N>>) -> Option<EntryView<N>>
    decreases s.len(),
{
    if s.len() == 0 {
        None
    } else if is_comment(s.last()) {
        last_significant(s.drop_last())
    } else {
        Some(s.last())
    }
}

pub open spec fn ends_header<N>(e: EntryView<N>) -> bool {
    e == Ok::<_, ExcellonParseFormat<Seq<char>>>(
        Command::<N, Seq<char>>::Machine(MachineCode::HeaderEnd),
    ) || e == Ok::<_, ExcellonParseFormat<Seq<char>>>(
        Command::<N, Seq<char>>::Machine(MachineCode::RewindStop),
    )
}

/// How many entries stand before the end of the header.
pub open spec fn header_length<N>(s: Seq<EntryView<N>>) -> nat
    decreases s.len(),
{
    if s.len() == 0 || ends_header(s[0]) {
        0
    } else {
        1 + header_length(s.skip(1))
    }
}

/// The first unit definition.
pub open spec fn declared_unit<N>(s: Seq<EntryView<N>>) -> Option<UnitDefinition>
    decreases s.len(),
{
    if s.len() == 0 {
        None
    } else {
        match s[0] {
            Ok(Command::UnitDefinition(u)) => Some(u),
            _ => declared_unit(s.skip(1)),
        }
    }
}

/// A program starts with the start of its header, ends with the end of the program and has an end
/// of its header in between.
pub open spec fn program<N>(p: Progress<N>) -> Result<ExcellonView<N>, ExcellonError<Seq<char>>> {
    let s = p.commands;
    let n = header_length(s) as int;
    let header = s.take(n + 1);
    if !(first_significant(s) matches Some(Ok(Command::Machine(MachineCode::HeaderStart)))) {
        Err(ExcellonError::MissingHeaderStart)
    } else if !(last_significant(s) matches Some(Ok(Command::Machine(MachineCode::EndOfProgram)))) {
        Err(ExcellonError::MissingEndOfProgram)
    } else if n == s.len() {
        Err(ExcellonError::MissingHeaderEnd)
    } else {
        Ok(
            ExcellonView {
                header,
                commands: s.skip(n + 1),
                unit: match declared_unit(header) {
                    Some(u) => u,
                    None => UnitDefinition::default_spec(Unit::Inches),
                },
                tools: p.tools,
            },
        )
    }
}

/// The layer that a text describes.
pub open spec fn parsed_layer<N: Scalar>(text: Seq<char>) -> Result<
    ExcellonView<N>,
    ExcellonError<Seq<char>>,
> {
    match after_lines::<N>(text::lines(text)) {
        Err(e) => Err(e),
        Ok(p) => program(p),
    }
}

struct Reading<N> {
    commands: Vec<Entry<N>>,
    format: UnitDefinition,
    unit_set: bool,
    tools: Table<u32, N>,
}

impl<N: Scalar> Reading<N> {
    spec fn progress(self) -> Progress<N> {
        Progress {
            commands: crate::excellon_format::entries(self.commands@),
            format: self.format,
            unit_set: self.unit_set,
            tools: self.tools@,
        }
    }

    fn push(&mut self, e: Entry<N>)
        ensures
            final(self).progress() == old(self).progress().pushed(
                crate::excellon_format::entry_view(e),
            ),
    {
        self.commands.push(e);
        assert(crate::excellon_format::entries(self.commands@) =~= crate::excellon_format::entries(
            old(self).commands@,
        ).push(crate::excellon_format::entry_view(e)));
    }

    fn take(&mut self, r: LineResult<N>, line: usize, content: &[char]) -> (failed: Option<u32>)
        ensures
            match old(self).progress().after(r@, line as nat, content@) {
                Ok(p) => failed is None && final(self).progress() == p,
                Err(e) => failed is Some && e == ExcellonError::<Seq<char>>::InvalidToolNumber(
                    failed->0,
                ),
            },
    {
        match r {
            LineResult::Command(c) => {
                match &c {
                    Command::UnitDefinition(unit) => {
                        self.format = *unit;
                        self.unit_set = true;
                    },
                    Command::Machine(MachineCode::Scale(unit)) => {
                        self.format.unit = *unit;
                    },
                    Command::ToolDefinition(t) => {
                        self.tools.insert(t.tool_number, t.diameter);
                    },
                    Command::Tool(id) => {
                        if !self.tools.contains_key(*id) {
                            return Some(*id);
                        }
                    },
                    _ => {},
                }
                self.push(Ok(c));
            },
            LineResult::RawCoordinate(x, y) => {
                if self.unit_set {
                    self.push(Ok(Command::Coordinate(x, y, self.format)));
                } else {
                    self.push(
                        Err(
                            ExcellonParseFormat {
                                source: ExcellonError::CoordinateBeforeUnit,
                                line,
                                content: text_of(content),
                            },
                        ),
                    );
                }
            },
        }
        None
    }

    fn take_line(&mut self, raw: &[char], line: usize) -> (failed: Option<u32>)
        ensures
            match old(self).progress().after_line(raw@, line as nat) {
                Ok(p) => failed is None && final(self).progress() == p,
                Err(e) => failed is Some && e == ExcellonError::<Seq<char>>::InvalidToolNumber(
                    failed->0,
                ),
            },
    {
        let content = trim(raw);
        if content.len() == 0 {
            return None;
        }
        match parse_line::<N>(content, &self.format) {
            Ok(mut results) => {
                let ghost all = results@;
                let ghost seen = all.map_values(|l: LineResult<N>| l@);
                let ghost start = self.progress();
                assert(start.after_all(seen.take(0), line as nat, content@) == Ok::<
                    Progress<N>,
                    ExcellonError<Seq<char>>,
                >(start));
                let mut i: usize = 0;
                while results.len() > 0
                    invariant
                        i + results@.len() == all.len(),
                        results@ == all.skip(i as int),
                        seen == all.map_values(|l: LineResult<N>| l@),
                        start.after_all(seen.take(i as int), line as nat, content@) == Ok::<
                            Progress<N>,
                            ExcellonError<Seq<char>>,
                        >(self.progress()),
                        start == old(self).progress(),
                        content@ == text::trimmed(raw@),
                        content@.len() > 0,
                        crate::excellon_format::line::line_results::<N>(content@, start.format)
                            == Ok::<Seq<LineResult<N, Seq<char>>>, ExcellonError<Seq<char>>>(seen),
                    decreases results@.len(),
                {
                    let r = results.remove(0);
                    let ghost now = seen.take(i + 1);
                    proof {
                        assert(now.drop_last() =~= seen.take(i as int));
                        assert(now.last() == r@);
                        assert(results@ =~= all.skip(i + 1));
                    }
                    if let Some(id) = self.take(r, line, content) {
                        proof {
                            lemma_after_all_error(
                                start,
                                seen,
                                i + 1,
                                line as nat,
                                content@,
                                ExcellonError::InvalidToolNumber(id),
                            );
                        }
                        return Some(id);
                    }
                    i = i + 1;
                }
                assert(seen.take(i as int) =~= seen);
                None
            },
            Err(source) => {
                self.push(Err(ExcellonParseFormat { source, line, content: text_of(content) }));
                None
            },
        }
    }
}

/// What ends the reading of a part of the results ends that of all of them.
proof fn lemma_after_all_error<N: Scalar>(
    p: Progress<N>,
    rs: Seq<LineResult<N, Seq<char>>>,
    n: int,
    line: nat,
    content: Seq<char>,
    e: ExcellonError<Seq<char>>,
)
    requires
        0 <= n <= rs.len(),
        p.after_all(rs.take(n), line, content) == Err::<Progress<N>, _>(e),
    ensures
        p.after_all(rs, line, content) == Err::<Progress<N>, _>(e),
    decreases rs.len() - n,
{
    if n < rs.len() {
        assert(rs.take(n + 1).drop_last() =~= rs.take(n));
        lemma_after_all_error(p, rs, n + 1, line, content, e);
    } else {
        assert(rs.take(n) =~= rs);
    }
}

/// What ends the reading of the first lines ends that of all of them.
proof fn lemma_after_lines_error<N: Scalar>(
    lines: Seq<Seq<char>>,
    n: int,
    e: ExcellonError<Seq<char>>,
)
    requires
        0 <= n <= lines.len(),
        after_lines::<N>(lines.take(n)) == Err::<Progress<N>, _>(e),
    ensures
        after_lines::<N>(lines) == Err::<Progress<N>, _>(e),
    decreases lines.len() - n,
{
    if n < lines.len() {
        assert(lines.take(n + 1).drop_last() =~= lines.take(n));
        lemma_after_lines_error::<N>(lines, n + 1, e);
    } else {
        assert(lines.take(n) =~= lines);
    }
}

pub open spec fn layer_view<N>(r: Result<ExcellonLayerData<N>, ExcellonError>) -> Result<
    ExcellonView<N>,
    ExcellonError<Seq<char>>,
> {
    match r {
        Ok(layer) => Ok(layer@),
        Err(e) => Err(e@),
    }
}

fn starts_header<N>(commands: &[Entry<N>]) -> (r: bool)
    ensures
        r == (first_significant(crate::excellon_format::entries(commands@)) matches Some(
            Ok(Command::Machine(MachineCode::HeaderStart)),
        )),
{
    let ghost s = crate::excellon_format::entries(commands@);
    let mut i: usize = 0;
    assert(s.skip(0) =~= s);
    while i < commands.len()
        invariant
            i <= commands@.len(),
            s == crate::excellon_format::entries(commands@),
            first_significant(s) == first_significant(s.skip(i as int)),
        decreases commands@.len() - i,
    {
        assert(s.skip(i as int)[0] == s[i as int]);
        assert(s.skip(i as int).skip(1) =~= s.skip(i + 1));
        match &commands[i] {
            Ok(Command::Comment(_)) => {},
            Ok(Command::Machine(MachineCode::HeaderStart)) => {
                return true;
            },
            _ => {
                return false;
            },
        }
        i = i + 1;
    }
    false
}

fn ends_program<N>(commands: &[Entry<N>]) -> (r: bool)
    ensures
        r == (last_significant(crate::excellon_format::entries(commands@)) matches Some(
            Ok(Command::Machine(MachineCode::EndOfProgram)),
        )),
{
    let ghost s = crate::excellon_format::entries(commands@);
    let mut i: usize = commands.len();
    assert(s.take(i as int) =~= s);
    while i > 0
        invariant
            i <= commands@.len(),
            s == crate::excellon_format::entries(commands@),
            last_significant(s) == last_significant(s.take(i as int)),
        decreases i,
    {
        assert(s.take(i as int).last() == s[i - 1]);
        assert(s.take(i as int).drop_last() =~= s.take(i - 1));
        match &commands[i - 1] {
            Ok(Command::Comment(_)) => {},
            Ok(Command::Machine(MachineCode::EndOfProgram)) => {
                return true;
            },
            _ => {
                return false;
            },
        }
        i = i - 1;
    }
    false
}

fn measure_header<N>(commands: &[Entry<N>]) -> (n: usize)
    ensures
        n == header_length(crate::excellon_format::entries(commands@)),
        n <= commands@.len(),
{
    let ghost s = crate::excellon_format::entries(commands@);
    let mut i: usize = 0;
    assert(s.skip(0) =~= s);
    while i < commands.len()
        invariant
            i <= commands@.len(),
            s == crate::excellon_format::entries(commands@),
            header_length(s) == i + header_length(s.skip(i as int)),
        decreases commands@.len() - i,
    {
        assert(s.skip(i as int)[0] == s[i as int]);
        assert(s.skip(i as int).skip(1) =~= s.skip(i + 1));
        match &commands[i] {
            Ok(Command::Machine(MachineCode::HeaderEnd)) => {
                return i;
            },
            Ok(Command::Machine(MachineCode::RewindStop)) => {
                return i;
            },
            _ => {},
        }
        i = i + 1;
    }
    i
}

fn find_unit<N>(header: &[Entry<N>]) -> (r: UnitDefinition)
    ensures
        r == (match declared_unit(crate::excellon_format::entries(header@)) {
            Some(u) => u,
            None => UnitDefinition::default_spec(Unit::Inches),
        }),
{
    let ghost s = crate::excellon_format::entries(header@);
    let mut i: usize = 0;
    assert(s.skip(0) =~= s);
    while i < header.len()
        invariant
            i <= header@.len(),
            s == crate::excellon_format::entries(header@),
            declared_unit(s) == declared_unit(s.skip(i as int)),
        decreases header@.len() - i,
    {
        assert(s.skip(i as int)[0] == s[i as int]);
        assert(s.skip(i as int).skip(1) =~= s.skip(i + 1));
        if let Ok(Command::UnitDefinition(u)) = &header[i] {
            return *u;
        }
        i = i + 1;
    }
    UnitDefinition::default()
}

/// Reads an Excellon file.
///
/// A line that cannot be read becomes an `Err` entry. The use of a tool that was not defined, and a
/// file without the start of the header, the end of the header or the end of the program, give an
/// error for the whole.
pub fn parse_excellon<N: Scalar>(text: &str) -> (r: Result<ExcellonLayerData<N>, ExcellonError>)
    ensures
        layer_view(r) == parsed_layer::<N>(text@),
{
    let lines = split_lines(text);
    let ghost all = text::lines(text@);
    let mut reading: Reading<N> = Reading {
        commands: Vec::new(),
        format: UnitDefinition::default(),
        unit_set: false,
        tools: Table::new(),
    };
    let mut line_number: usize = 0;
    assert(reading.progress() =~= Progress::<N>::start());
    assert(all.take(0).len() == 0);
    while line_number < lines.len()
        invariant
            line_number <= lines@.len(),
            lines@.len() == all.len(),
            forall|i: int| 0 <= i < lines@.len() ==> #[trigger] lines@[i]@ == all[i],
            all == text::lines(text@),
            after_lines::<N>(all.take(line_number as int)) == Ok::<
                Progress<N>,
                ExcellonError<Seq<char>>,
            >(reading.progress()),
        decreases lines@.len() - line_number,
    {
        let ghost now = all.take(line_number + 1);
        assert(now.drop_last() =~= all.take(line_number as int));
        assert(now.last() == lines@[line_number as int]@);
        if let Some(id) = reading.take_line(&lines[line_number], line_number) {
            proof {
                lemma_after_lines_error::<N>(
                    all,
                    line_number + 1,
                    ExcellonError::InvalidToolNumber(id),
                );
            }
            return Err(ExcellonError::InvalidToolNumber(id));
        }
        line_number = line_number + 1;
    }
    assert(all.take(line_number as int) =~= all);
    let ghost p = reading.progress();
    let mut commands = reading.commands;
    if !starts_header(&commands) {
        return Err(ExcellonError::MissingHeaderStart);
    }
    if !ends_program(&commands) {
        return Err(ExcellonError::MissingEndOfProgram);
    }
    let n: usize = measure_header(&commands);
    if n == commands.len() {
        return Err(ExcellonError::MissingHeaderEnd);
    }
    let body = commands.split_off(n + 1);
    let unit = find_unit(&commands);
    let layer = ExcellonLayerData { header: commands, commands: body, unit, tools: reading.tools };
    proof {
        assert(layer@.header =~= p.commands.take(n + 1));
        assert(layer@.commands =~= p.commands.skip(n + 1));
    }
    Ok(layer)
}

} // verus!
