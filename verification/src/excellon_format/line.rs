//! The grammar of a line.
use crate::excellon_format::{
    Command, CutterComp, ExcellonError, GeometricCode, InputMode, MachineCode, Mode, ToolDefinition,
    UnitDefinition, ZeroSuppression,
};
use crate::gerber_types::Unit;
use crate::scalar::Scalar;
use crate::text;
use crate::text::{
    digits_from, find_text, is_caseless, is_digit_exec, is_text, parse_number, strip_prefix, text_of,
};
use vstd::prelude::*;

verus! {

/// What a part of a line says. `S` is the type of texts.
#[verifier::ext_equal]
pub enum LineResult<N, S = String> {
    Command(Command<N, S>),
    /// A coordinate pair that still has no format.
    RawCoordinate(Option<N>, Option<N>),
}

impl<N> View for LineResult<N> {
    type V = LineResult<N, Seq<char>>;

    open spec fn view(&self) -> LineResult<N, Seq<char>> {
        match *self {
            LineResult::Command(c) => LineResult::Command(c@),
            LineResult::RawCoordinate(x, y) => LineResult::RawCoordinate(x, y),
        }
    }
}

pub type LineView<N> = LineResult<N, Seq<char>>;

pub type ErrorView = ExcellonError<Seq<char>>;

pub open spec fn result_view<N>(r: Result<LineResult<N>, ExcellonError>) -> Result<
    LineView<N>,
    ErrorView,
> {
    match r {
        Ok(l) => Ok(l@),
        Err(e) => Err(e@),
    }
}

pub open spec fn results_view<N>(r: Result<Vec<LineResult<N>>, ExcellonError>) -> Result<
    Seq<LineView<N>>,
    ErrorView,
> {
    match r {
        Ok(v) => Ok(v@.map_values(|l: LineResult<N>| l@)),
        Err(e) => Err(e@),
    }
}

/// Behind `FMAT,`: a number of one byte.
pub open spec fn fmat<N>(tail: Seq<char>) -> Result<LineView<N>, ErrorView> {
    match text::number(tail, 255) {
        Some(v) => Ok(LineResult::Command(Command::FormatCode(v as u8))),
        None => Err(ExcellonError::InvalidVersion),
    }
}

fn parse_fmat<N>(tail: &[char]) -> (r: Result<LineResult<N>, ExcellonError>)
    ensures
        result_view(r) == fmat::<N>(tail@),
{
    match parse_number(tail, 255) {
        Some(v) => Ok(LineResult::Command(Command::FormatCode(v as u8))),
        None => Err(ExcellonError::InvalidVersion),
    }
}

/// Behind `ICI`: `,ON` or `,OFF`.
pub open spec fn ici<N>(tail: Seq<char>) -> Result<LineView<N>, ErrorView> {
    if tail == ",ON"@ {
        Ok(LineResult::Command(Command::Incremental(true)))
    } else if tail == ",OFF"@ {
        Ok(LineResult::Command(Command::Incremental(false)))
    } else {
        Err(ExcellonError::InvalidCicOption(tail))
    }
}

fn parse_ici<N>(tail: &[char]) -> (r: Result<LineResult<N>, ExcellonError>)
    ensures
        result_view(r) == ici::<N>(tail@),
{
    if is_text(tail, ",ON") {
        Ok(LineResult::Command(Command::Incremental(true)))
    } else if is_text(tail, ",OFF") {
        Ok(LineResult::Command(Command::Incremental(false)))
    } else {
        Err(ExcellonError::InvalidCicOption(text_of(tail)))
    }
}

/// `METRIC` or `INCH`, and what follows it.
pub open spec fn unit_name(line: Seq<char>) -> Option<(Unit, Seq<char>)> {
    match text::after_prefix(line, "METRIC"@) {
        Some(rest) => Some((Unit::Millimeters, rest)),
        None => match text::after_prefix(line, "INCH"@) {
            Some(rest) => Some((Unit::Inches, rest)),
            None => None,
        },
    }
}

/// An optional `,TZ` or `,LZ`, and what follows it.
pub open spec fn zero_type(s: Seq<char>) -> (Option<ZeroSuppression>, Seq<char>) {
    match text::after_prefix(s, ",TZ"@) {
        Some(rest) => (Some(ZeroSuppression::Trailing), rest),
        None => match text::after_prefix(s, ",LZ"@) {
            Some(rest) => (Some(ZeroSuppression::Leading), rest),
            None => (None, s),
        },
    }
}

/// `,` and two runs of digits with a point between them, to the end: the lengths of the runs, each
/// as a byte.
pub open spec fn digit_counts(s: Seq<char>) -> Option<(u8, u8)> {
    let n = text::digit_run(s.skip(1)) as int;
    let m = text::digit_run(s.skip(n + 2)) as int;
    if s.len() > 0 && s[0] == ',' && n > 0 && n + 1 < s.len() && s[n + 1] == '.' && m > 0 && n + 2
        + m == s.len() {
        Some(((n % 256) as u8, (m % 256) as u8))
    } else {
        None
    }
}

/// `METRIC` or `INCH`, with an optional zero suppression and an optional digit count. With neither,
/// the coordinates are written with a point.
pub open spec fn unit_line<N>(line: Seq<char>) -> Result<LineView<N>, ErrorView> {
    match unit_name(line) {
        None => Err(ExcellonError::InvalidUnitDefinition),
        Some((unit, rest)) => {
            let (ty, behind) = zero_type(rest);
            let default = UnitDefinition::default_spec(unit);
            if behind.len() == 0 {
                Ok(
                    LineResult::Command(
                        Command::UnitDefinition(
                            UnitDefinition {
                                ty: match ty {
                                    Some(ty) => ty,
                                    None => default.ty,
                                },
                                decimal: ty is None,
                                ..default
                            },
                        ),
                    ),
                )
            } else {
                match digit_counts(behind) {
                    None => Err(ExcellonError::InvalidUnitDefinition),
                    Some((leading, trailing)) => Ok(
                        LineResult::Command(
                            Command::UnitDefinition(
                                UnitDefinition {
                                    ty: match ty {
                                        Some(ty) => ty,
                                        None => default.ty,
                                    },
                                    leading,
                                    trailing,
                                    ..default
                                },
                            ),
                        ),
                    ),
                }
            }
        },
    }
}

fn parse_digit_counts(s: &[char]) -> (r: Option<(u8, u8)>)
    ensures
        r == digit_counts(s@),
{
    let end: usize = s.len();
    if end == 0 || s[0] != ',' {
        return None;
    }
    let n: usize = digits_from(s, 1);
    if n == 0 || n + 1 == end || s[n + 1] != '.' {
        return None;
    }
    let m: usize = digits_from(s, n + 2);
    if m == 0 || m != end - 2 - n {
        return None;
    }
    Some(((n % 256) as u8, (m % 256) as u8))
}

fn parse_unit<N>(line: &[char]) -> (r: Result<LineResult<N>, ExcellonError>)
    ensures
        result_view(r) == unit_line::<N>(line@),
{
    let (unit, rest) = if let Some(rest) = strip_prefix(line, "METRIC") {
        (Unit::Millimeters, rest)
    } else if let Some(rest) = strip_prefix(line, "INCH") {
        (Unit::Inches, rest)
    } else {
        return Err(ExcellonError::InvalidUnitDefinition);
    };
    let (ty, behind) = if let Some(behind) = strip_prefix(rest, ",TZ") {
        (Some(ZeroSuppression::Trailing), behind)
    } else if let Some(behind) = strip_prefix(rest, ",LZ") {
        (Some(ZeroSuppression::Leading), behind)
    } else {
        (None, rest)
    };
    assert(unit_name(line@) == Some((unit, rest@)));
    assert(zero_type(rest@) == (ty, behind@));
    let mut definition = UnitDefinition::default_for(unit);
    if let Some(ty) = ty {
        definition.ty = ty;
    }
    if behind.len() == 0 {
        definition.decimal = ty.is_none();
    } else {
        match parse_digit_counts(behind) {
            None => {
                return Err(ExcellonError::InvalidUnitDefinition);
            },
            Some((leading, trailing)) => {
                definition.leading = leading;
                definition.trailing = trailing;
            },
        }
    }
    Ok(LineResult::Command(Command::UnitDefinition(definition)))
}

pub open spec fn machine_code(code: u8) -> Option<MachineCode> {
    if code == 15 {
        Some(MachineCode::RouterDown)
    } else if code == 17 {
        Some(MachineCode::RouterUp)
    } else if code == 30 {
        Some(MachineCode::EndOfProgram)
    } else if code == 48 {
        Some(MachineCode::HeaderStart)
    } else if code == 71 {
        Some(MachineCode::Scale(Unit::Millimeters))
    } else if code == 72 {
        Some(MachineCode::Scale(Unit::Inches))
    } else if code == 95 {
        Some(MachineCode::HeaderEnd)
    } else {
        None
    }
}

/// Behind `M`: the number of a machine code.
pub open spec fn machine<N>(tail: Seq<char>, line: Seq<char>) -> Result<LineView<N>, ErrorView> {
    match text::number(tail, 255) {
        None => Err(ExcellonError::InvalidCmd(line)),
        Some(code) => match machine_code(code as u8) {
            None => Err(ExcellonError::InvalidMachineCode(code as u8)),
            Some(code) => Ok(LineResult::Command(Command::Machine(code))),
        },
    }
}

fn parse_machine<N>(tail: &[char], line: &[char]) -> (r: Result<LineResult<N>, ExcellonError>)
    ensures
        result_view(r) == machine::<N>(tail@, line@),
{
    let code: u8 = match parse_number(tail, 255) {
        Some(code) => code as u8,
        None => {
            return Err(ExcellonError::InvalidCmd(text_of(line)));
        },
    };
    let mc = match code {
        15 => MachineCode::RouterDown,
        17 => MachineCode::RouterUp,
        30 => MachineCode::EndOfProgram,
        48 => MachineCode::HeaderStart,
        71 => MachineCode::Scale(Unit::Millimeters),
        72 => MachineCode::Scale(Unit::Inches),
        95 => MachineCode::HeaderEnd,
        c => {
            return Err(ExcellonError::InvalidMachineCode(c));
        },
    };
    Ok(LineResult::Command(Command::Machine(mc)))
}

/// An exponent, or nothing.
pub open spec fn is_exponent(s: Seq<char>) -> bool {
    s.len() == 0 || ((s[0] == 'e' || s[0] == 'E') && {
        let t = s.skip(1);
        let digits = if t.len() > 0 && (t[0] == '+' || t[0] == '-') {
            t.skip(1)
        } else {
            t
        };
        digits.len() > 0 && text::all_digits(digits)
    })
}

/// A number in the notation of floating-point literals, without a sign.
pub open spec fn is_unsigned_float(s: Seq<char>) -> bool {
    if s.len() > 0 && (s[0] == 'i' || s[0] == 'I') {
        text::caseless(s, "inf"@) || text::caseless(s, "infinity"@)
    } else {
        let n = text::digit_run(s) as int;
        let rest = s.skip(n);
        if rest.len() > 0 && rest[0] == '.' {
            let m = text::digit_run(rest.skip(1)) as int;
            n + m > 0 && is_exponent(rest.skip(1 + m))
        } else {
            n > 0 && is_exponent(rest)
        }
    }
}

/// A number in the notation of floating-point literals.
pub open spec fn is_float(s: Seq<char>) -> bool {
    if s.len() > 0 && (s[0] == 'n' || s[0] == 'N') {
        text::caseless(s, "nan"@)
    } else if s.len() > 0 && (s[0] == '+' || s[0] == '-') {
        is_unsigned_float(s.skip(1))
    } else {
        is_unsigned_float(s)
    }
}

proof fn lemma_all_digits_run(s: Seq<char>)
    ensures
        text::all_digits(s) <==> text::digit_run(s) == s.len(),
{
    text::lemma_digit_run(s);
    if text::digit_run(s) == s.len() {
        assert(s.take(s.len() as int) =~= s);
    } else if text::all_digits(s) {
        assert(text::is_digit(s[text::digit_run(s) as int]));
    }
}

fn check_exponent(s: &[char], from: usize) -> (r: bool)
    requires
        from <= s@.len(),
    ensures
        r == is_exponent(s@.skip(from as int)),
{
    let end: usize = s.len();
    if from == end {
        return true;
    }
    if s[from] != 'e' && s[from] != 'E' {
        return false;
    }
    let signed = from + 1 < end && (s[from + 1] == '+' || s[from + 1] == '-');
    let start: usize = if signed {
        from + 2
    } else {
        from + 1
    };
    proof {
        let t = s@.skip(from as int).skip(1);
        assert(t =~= s@.skip(from + 1));
        if signed {
            assert(t.skip(1) =~= s@.skip(from + 2));
        }
        lemma_all_digits_run(s@.skip(start as int));
    }
    start < end && digits_from(s, start) == end - start
}

fn check_unsigned_float(s: &[char], from: usize) -> (r: bool)
    requires
        from <= s@.len(),
    ensures
        r == is_unsigned_float(s@.skip(from as int)),
{
    let end: usize = s.len();
    let ghost t = s@.skip(from as int);
    if from < end && (s[from] == 'i' || s[from] == 'I') {
        let word = &s[from..end];
        assert(word@ =~= t);
        return is_caseless(word, "inf") || is_caseless(word, "infinity");
    }
    let n: usize = digits_from(s, from);
    let point: usize = from + n;
    assert(t.skip(n as int) =~= s@.skip(point as int));
    if point < end && s[point] == '.' {
        let m: usize = digits_from(s, point + 1);
        assert(t.skip(n as int).skip(1) =~= s@.skip(point + 1));
        assert(t.skip(n as int).skip(1 + m as int) =~= s@.skip(point + 1 + m));
        (n > 0 || m > 0) && check_exponent(s, point + 1 + m)
    } else {
        n > 0 && check_exponent(s, point)
    }
}

fn check_float(s: &[char]) -> (r: bool)
    ensures
        r == is_float(s@),
{
    assert(s@.skip(0) =~= s@);
    if s.len() > 0 && (s[0] == 'n' || s[0] == 'N') {
        is_caseless(s, "nan")
    } else if s.len() > 0 && (s[0] == '+' || s[0] == '-') {
        check_unsigned_float(s, 1)
    } else {
        check_unsigned_float(s, 0)
    }
}

/// Behind `T`: the number of a tool, and optionally `C` and its diameter.
pub open spec fn tool<N: Scalar>(tail: Seq<char>, line: Seq<char>) -> Result<LineView<N>, ErrorView> {
    let n = text::digit_run(tail) as int;
    let rest = tail.skip(n);
    match text::number(tail.take(n), u32::MAX as nat) {
        None => Err(ExcellonError::InvalidToolDefinition(line)),
        Some(id) => {
            if rest.len() == 0 {
                Ok(LineResult::Command(Command::Tool(id as u32)))
            } else if rest[0] == 'C' && is_float(rest.skip(1)) {
                match N::parsed_spec(rest.skip(1), 0) {
                    Some(diameter) => Ok(
                        LineResult::Command(
                            Command::ToolDefinition(
                                ToolDefinition { tool_number: id as u32, diameter },
                            ),
                        ),
                    ),
                    None => Err(ExcellonError::InvalidToolDefinition(line)),
                }
            } else {
                Err(ExcellonError::InvalidToolDefinition(line))
            }
        },
    }
}

fn parse_tool<N: Scalar>(tail: &[char], line: &[char]) -> (r: Result<LineResult<N>, ExcellonError>)
    ensures
        result_view(r) == tool::<N>(tail@, line@),
{
    assert(tail@.skip(0) =~= tail@);
    let n: usize = digits_from(tail, 0);
    let head = &tail[0..n];
    assert(head@ =~= tail@.take(n as int));
    let tool_number: u32 = match parse_number(head, u32::MAX as u64) {
        Some(id) => id as u32,
        None => {
            return Err(ExcellonError::InvalidToolDefinition(text_of(line)));
        },
    };
    let end: usize = tail.len();
    if n == end {
        return Ok(LineResult::Command(Command::Tool(tool_number)));
    }
    if tail[n] == 'C' {
        let number = &tail[n + 1..end];
        assert(number@ =~= tail@.skip(n as int).skip(1));
        if check_float(number) {
            if let Some(diameter) = N::parsed(text_of(number).as_str(), 0) {
                return Ok(
                    LineResult::Command(
                        Command::ToolDefinition(ToolDefinition { tool_number, diameter }),
                    ),
                );
            }
        }
    }
    Err(ExcellonError::InvalidToolDefinition(text_of(line)))
}

/// The codes with a `G`. A dwell time belongs to `G04` alone, which needs one.
pub open spec fn geometric_code(id: u8, dwell: Option<u16>) -> Result<GeometricCode, ErrorView> {
    if id == 0 {
        Ok(GeometricCode::Mode(Mode::Route))
    } else if id == 1 {
        Ok(GeometricCode::Mode(Mode::Linear))
    } else if id == 2 {
        Ok(GeometricCode::Mode(Mode::CircularCW))
    } else if id == 3 {
        Ok(GeometricCode::Mode(Mode::CircularCWW))
    } else if id == 4 {
        match dwell {
            Some(t) => Ok(GeometricCode::VariableDwell(t)),
            None => Err(ExcellonError::Custom("Does not start with `G04X`"@)),
        }
    } else if id == 5 {
        Ok(GeometricCode::Mode(Mode::DrillMode))
    } else if id == 7 {
        Ok(GeometricCode::OverrideFeed)
    } else if id == 40 {
        Ok(GeometricCode::CutterCompensation(CutterComp::Off))
    } else if id == 41 {
        Ok(GeometricCode::CutterCompensation(CutterComp::Left))
    } else if id == 42 {
        Ok(GeometricCode::CutterCompensation(CutterComp::Right))
    } else if id == 81 {
        Ok(GeometricCode::Mode(Mode::CannedDrill))
    } else if id == 90 {
        Ok(GeometricCode::InputMode(InputMode::Absolute))
    } else if id == 91 {
        Ok(GeometricCode::InputMode(InputMode::Incremental))
    } else {
        Err(ExcellonError::InvalidGeometricCode(id))
    }
}

/// Behind `G`: the two digits of the code, and optionally `X` and a dwell time.
pub open spec fn geometric<N>(tail: Seq<char>, line: Seq<char>) -> Result<LineView<N>, ErrorView> {
    let id = text::dec_value(tail.take(2));
    let dwell = text::number(tail.skip(3), 65535);
    if tail.len() < 2 || !text::all_digits(tail.take(2)) || (tail.len() > 2 && (tail[2] != 'X'
        || dwell is None)) {
        Err(ExcellonError::InvalidCmd(line))
    } else {
        let code = geometric_code(
            id as u8,
            if tail.len() > 2 {
                Some(dwell->0 as u16)
            } else {
                None
            },
        );
        match code {
            Ok(code) => Ok(LineResult::Command(Command::Geometric(code))),
            Err(e) => Err(e),
        }
    }
}

fn find_geometric_code(id: u8, dwell: Option<u16>) -> (r: Result<GeometricCode, ExcellonError>)
    ensures
        match r {
            Ok(code) => geometric_code(id, dwell) == Ok::<GeometricCode, ErrorView>(code),
            Err(e) => geometric_code(id, dwell) == Err::<GeometricCode, ErrorView>(e@),
        },
{
    let code = match id {
        0 => GeometricCode::Mode(Mode::Route),
        1 => GeometricCode::Mode(Mode::Linear),
        2 => GeometricCode::Mode(Mode::CircularCW),
        3 => GeometricCode::Mode(Mode::CircularCWW),
        4 => match dwell {
            Some(t) => GeometricCode::VariableDwell(t),
            None => {
                return Err(ExcellonError::Custom("Does not start with `G04X`".to_string()));
            },
        },
        5 => GeometricCode::Mode(Mode::DrillMode),
        7 => GeometricCode::OverrideFeed,
        40 => GeometricCode::CutterCompensation(CutterComp::Off),
        41 => GeometricCode::CutterCompensation(CutterComp::Left),
        42 => GeometricCode::CutterCompensation(CutterComp::Right),
        81 => GeometricCode::Mode(Mode::CannedDrill),
        90 => GeometricCode::InputMode(InputMode::Absolute),
        91 => GeometricCode::InputMode(InputMode::Incremental),
        c => {
            return Err(ExcellonError::InvalidGeometricCode(c));
        },
    };
    Ok(code)
}

fn parse_geometric<N>(tail: &[char], line: &[char]) -> (r: Result<LineResult<N>, ExcellonError>)
    ensures
        result_view(r) == geometric::<N>(tail@, line@),
{
    let end: usize = tail.len();
    if end < 2 || !is_digit_exec(tail[0]) || !is_digit_exec(tail[1]) {
        proof {
            if end >= 2 && text::all_digits(tail@.take(2)) {
                assert(text::is_digit(tail@.take(2)[0]));
                assert(text::is_digit(tail@.take(2)[1]));
            }
        }
        return Err(ExcellonError::InvalidCmd(text_of(line)));
    }
    let head = &tail[0..2];
    assert(head@ =~= tail@.take(2));
    proof {
        let two = tail@.take(2);
        assert(text::all_digits(two));
        assert(two.drop_last().drop_last() =~= Seq::<char>::empty());
        reveal_with_fuel(text::dec_value, 3);
        assert(two.drop_last().last() == two[0]);
        assert(text::dec_value(two) < 100);
    }
    let id: u8 = match parse_number(head, 255) {
        Some(id) => id as u8,
        None => {
            return Err(ExcellonError::InvalidCmd(text_of(line)));
        },
    };
    let dwell: Option<u16> = if end == 2 {
        None
    } else {
        if tail[2] != 'X' {
            return Err(ExcellonError::InvalidCmd(text_of(line)));
        }
        let time = &tail[3..end];
        assert(time@ =~= tail@.skip(3));
        match parse_number(time, 65535) {
            Some(t) => Some(t as u16),
            None => {
                return Err(ExcellonError::InvalidCmd(text_of(line)));
            },
        }
    };
    match find_geometric_code(id, dwell) {
        Ok(code) => Ok(LineResult::Command(Command::Geometric(code))),
        Err(e) => Err(e),
    }
}

/// How far the number at the start of `s` goes: an optional minus sign, digits, and optionally a
/// point and more digits.
pub open spec fn value_length(s: Seq<char>) -> Option<int> {
    let sign: int = if s.len() > 0 && s[0] == '-' {
        1
    } else {
        0
    };
    let n = text::digit_run(s.skip(sign)) as int;
    let point = sign + n;
    let m = text::digit_run(s.skip(point + 1)) as int;
    if n == 0 {
        None
    } else if point < s.len() && s[point] == '.' && m > 0 {
        Some(point + 1 + m)
    } else {
        Some(point)
    }
}

/// An optional value behind `letter`, and what follows it.
pub open spec fn axis(s: Seq<char>, letter: char) -> (Option<Seq<char>>, Seq<char>) {
    if s.len() > 0 && s[0] == letter {
        match value_length(s.skip(1)) {
            Some(n) => (Some(s.subrange(1, 1 + n)), s.skip(1 + n)),
            None => (None, s),
        }
    } else {
        (None, s)
    }
}

pub open spec fn axis_value<N: Scalar>(raw: Option<Seq<char>>, fmt: UnitDefinition) -> Option<N> {
    match raw {
        Some(raw) => fmt.parse_num_spec(raw),
        None => None,
    }
}

/// An `X<n>Y<n>` coordinate fragment. Either axis may be absent; an empty fragment has neither, so
/// that a missing slot endpoint can carry over the current position.
pub open spec fn xy<N: Scalar>(fragment: Seq<char>, fmt: UnitDefinition) -> Result<
    (Option<N>, Option<N>),
    ErrorView,
> {
    let (x, behind_x) = axis(fragment, 'X');
    let (y, behind_y) = axis(behind_x, 'Y');
    if behind_y.len() > 0 {
        Err(ExcellonError::InvalidCoordinate(fragment))
    } else {
        Ok((axis_value(x, fmt), axis_value(y, fmt)))
    }
}

fn measure_value(s: &[char], from: usize) -> (r: Option<usize>)
    requires
        from <= s@.len(),
    ensures
        r is Some <==> value_length(s@.skip(from as int)) is Some,
        r matches Some(n) ==> value_length(s@.skip(from as int)) == Some(n as int) && from + n
            <= s@.len(),
{
    let end: usize = s.len();
    let ghost t = s@.skip(from as int);
    let start: usize = if from < end && s[from] == '-' {
        from + 1
    } else {
        from
    };
    assert(t.skip(start - from) =~= s@.skip(start as int));
    let n: usize = digits_from(s, start);
    if n == 0 {
        return None;
    }
    let point: usize = start + n;
    if point < end && s[point] == '.' {
        assert(t.skip(point - from + 1) =~= s@.skip(point + 1));
        let m: usize = digits_from(s, point + 1);
        if m > 0 {
            return Some(point + 1 + m - from);
        }
    }
    Some(point - from)
}

fn take_axis(s: &[char], from: usize, letter: char) -> (r: (Option<String>, usize))
    requires
        from <= s@.len(),
    ensures
        r.1 <= s@.len(),
        s@.skip(r.1 as int) == axis(s@.skip(from as int), letter).1,
        r.0 is Some <==> axis(s@.skip(from as int), letter).0 is Some,
        r.0 matches Some(raw) ==> axis(s@.skip(from as int), letter).0 == Some(raw@),
{
    let end: usize = s.len();
    let ghost t = s@.skip(from as int);
    if from < end && s[from] == letter {
        assert(t.skip(1) =~= s@.skip(from + 1));
        if let Some(n) = measure_value(s, from + 1) {
            let raw = &s[from + 1..from + 1 + n];
            assert(raw@ =~= t.subrange(1, 1 + n));
            assert(t.skip(1 + n) =~= s@.skip(from + 1 + n));
            return (Some(text_of(raw)), from + 1 + n);
        }
    }
    (None, from)
}

fn parse_axis<N: Scalar>(raw: &Option<String>, fmt: &UnitDefinition, Ghost(g): Ghost<
    Option<Seq<char>>,
>) -> (r: Option<N>)
    requires
        raw is Some <==> g is Some,
        raw matches Some(t) ==> g == Some(t@),
    ensures
        r == axis_value::<N>(g, *fmt),
{
    match raw {
        Some(raw) => fmt.parse_num(raw.as_str()),
        None => None,
    }
}

pub open spec fn xy_view<N>(r: Result<(Option<N>, Option<N>), ExcellonError>) -> Result<
    (Option<N>, Option<N>),
    ErrorView,
> {
    match r {
        Ok(p) => Ok(p),
        Err(e) => Err(e@),
    }
}

fn parse_xy<N: Scalar>(fragment: &[char], fmt: &UnitDefinition) -> (r: Result<
    (Option<N>, Option<N>),
    ExcellonError,
>)
    ensures
        xy_view(r) == xy::<N>(fragment@, *fmt),
{
    assert(fragment@.skip(0) =~= fragment@);
    let (x, behind_x) = take_axis(fragment, 0, 'X');
    let (y, behind_y) = take_axis(fragment, behind_x, 'Y');
    if behind_y != fragment.len() {
        return Err(ExcellonError::InvalidCoordinate(text_of(fragment)));
    }
    let ghost gx = axis(fragment@, 'X');
    let ghost gy = axis(gx.1, 'Y');
    Ok((parse_axis(&x, fmt, Ghost(gx.0)), parse_axis(&y, fmt, Ghost(gy.0))))
}

/// A line with a coordinate pair.
pub open spec fn coord<N: Scalar>(line: Seq<char>, fmt: UnitDefinition) -> Result<
    LineView<N>,
    ErrorView,
> {
    match xy::<N>(line, fmt) {
        Ok((x, y)) => Ok(LineResult::RawCoordinate(x, y)),
        Err(e) => Err(e),
    }
}

fn parse_coord<N: Scalar>(line: &[char], fmt: &UnitDefinition) -> (r: Result<
    LineResult<N>,
    ExcellonError,
>)
    ensures
        result_view(r) == coord::<N>(line@, *fmt),
{
    match parse_xy(line, fmt) {
        Ok((x, y)) => Ok(LineResult::RawCoordinate(x, y)),
        Err(e) => Err(e),
    }
}

/// Behind `F`: a feed rate.
pub open spec fn feed<N>(tail: Seq<char>, line: Seq<char>) -> Result<LineView<N>, ErrorView> {
    match text::number(tail, u32::MAX as nat) {
        Some(rate) => Ok(LineResult::Command(Command::FeedRate(rate as u32))),
        None => Err(ExcellonError::InvalidCmd(line)),
    }
}

fn parse_feed<N>(tail: &[char], line: &[char]) -> (r: Result<LineResult<N>, ExcellonError>)
    ensures
        result_view(r) == feed::<N>(tail@, line@),
{
    match parse_number(tail, u32::MAX as u64) {
        Some(rate) => Ok(LineResult::Command(Command::FeedRate(rate as u32))),
        None => Err(ExcellonError::InvalidCmd(text_of(line))),
    }
}

/// One result as the whole of a line.
pub open spec fn only<N>(r: Result<LineView<N>, ErrorView>) -> Result<Seq<LineView<N>>, ErrorView> {
    match r {
        Ok(l) => Ok(seq![l]),
        Err(e) => Err(e),
    }
}

fn single<N>(r: Result<LineResult<N>, ExcellonError>) -> (v: Result<
    Vec<LineResult<N>>,
    ExcellonError,
>)
    ensures
        results_view(v) == only(result_view(r)),
{
    match r {
        Ok(l) => {
            let mut v: Vec<LineResult<N>> = Vec::new();
            v.push(l);
            assert(v@.map_values(|l: LineResult<N>| l@) =~= seq![l@]);
            Ok(v)
        },
        Err(e) => Err(e),
    }
}

/// A `G`-prefixed line. Most G-codes stand alone, but routing files pack
/// a coordinate onto the same line (`G00X111Y3114`, `G01Y9019`); those yield
/// both the geometric command and the coordinate. `G04X<n>` keeps its dwell
/// argument and is taken whole.
pub open spec fn geometric_line<N: Scalar>(line: Seq<char>, fmt: UnitDefinition) -> Result<
    Seq<LineView<N>>,
    ErrorView,
> {
    let n = 1 + text::digit_run(line.skip(1)) as int;
    let code = line.take(n);
    let rest = line.skip(n);
    if code == "G04"@ || rest.len() == 0 {
        only(geometric(line.skip(1), line))
    } else {
        match geometric::<N>(code.skip(1), code) {
            Err(e) => Err(e),
            Ok(first) => match coord::<N>(rest, fmt) {
                Err(e) => Err(e),
                Ok(second) => Ok(seq![first, second]),
            },
        }
    }
}

fn parse_geometric_line<N: Scalar>(line: &[char], fmt: &UnitDefinition) -> (r: Result<
    Vec<LineResult<N>>,
    ExcellonError,
>)
    requires
        line@.len() > 0,
    ensures
        results_view(r) == geometric_line::<N>(line@, *fmt),
{
    let end: usize = line.len();
    let n: usize = 1 + digits_from(line, 1);
    let code = &line[0..n];
    let rest = &line[n..end];
    assert(code@ =~= line@.take(n as int));
    assert(rest@ =~= line@.skip(n as int));
    if is_text(code, "G04") || rest.len() == 0 {
        let tail = &line[1..end];
        assert(tail@ =~= line@.skip(1));
        return single(parse_geometric(tail, line));
    }
    let id = &code[1..n];
    assert(id@ =~= code@.skip(1));
    match parse_geometric(id, code) {
        Err(e) => Err(e),
        Ok(first) => match parse_coord(rest, fmt) {
            Err(e) => Err(e),
            Ok(second) => {
                let mut v: Vec<LineResult<N>> = Vec::new();
                v.push(first);
                v.push(second);
                assert(v@.map_values(|l: LineResult<N>| l@) =~= seq![first@, second@]);
                Ok(v)
            },
        },
    }
}

/// `[X<a>Y<b>]G85X<c>Y<d>` — a routed slot (canned milling cycle).
pub open spec fn slot<N: Scalar>(
    before: Seq<char>,
    after: Seq<char>,
    fmt: UnitDefinition,
) -> Result<LineView<N>, ErrorView> {
    match xy::<N>(before, fmt) {
        Err(e) => Err(e),
        Ok((from_x, from_y)) => match xy::<N>(after, fmt) {
            Err(e) => Err(e),
            Ok((to_x, to_y)) => Ok(
                LineResult::Command(Command::Slot { from_x, from_y, to_x, to_y, fmt }),
            ),
        },
    }
}

fn parse_slot<N: Scalar>(before: &[char], after: &[char], fmt: &UnitDefinition) -> (r: Result<
    LineResult<N>,
    ExcellonError,
>)
    ensures
        result_view(r) == slot::<N>(before@, after@, *fmt),
{
    match parse_xy(before, fmt) {
        Err(e) => Err(e),
        Ok((from_x, from_y)) => match parse_xy(after, fmt) {
            Err(e) => Err(e),
            Ok((to_x, to_y)) => Ok(
                LineResult::Command(Command::Slot { from_x, from_y, to_x, to_y, fmt: *fmt }),
            ),
        },
    }
}

/// What a line without white space at its ends says.
pub open spec fn line_results<N: Scalar>(line: Seq<char>, fmt: UnitDefinition) -> Result<
    Seq<LineView<N>>,
    ErrorView,
> {
    if line.len() > 0 && line[0] == ';' {
        Ok(seq![LineResult::Command(Command::Comment(line.skip(1)))])
    } else if line == "%"@ {
        Ok(seq![LineResult::Command(Command::Machine(MachineCode::RewindStop))])
    } else if "FMAT,"@.is_prefix_of(line) {
        only(fmat(line.skip("FMAT,"@.len() as int)))
    } else if "ICI"@.is_prefix_of(line) {
        only(ici(line.skip("ICI"@.len() as int)))
    } else if "METRIC"@.is_prefix_of(line) || "INCH"@.is_prefix_of(line) {
        only(unit_line(line))
    } else if text::find(line, "G85"@) is Some {
        let i = text::find(line, "G85"@)->0;
        only(slot(line.take(i), line.skip(i + "G85"@.len()), fmt))
    } else if line.len() > 0 && line[0] == 'M' {
        only(machine(line.skip(1), line))
    } else if line.len() > 0 && line[0] == 'T' {
        only(tool(line.skip(1), line))
    } else if line.len() > 0 && line[0] == 'F' {
        only(feed(line.skip(1), line))
    } else if line.len() > 0 && line[0] == 'G' {
        geometric_line(line, fmt)
    } else if line.len() > 0 && (line[0] == 'X' || line[0] == 'Y') {
        only(coord(line, fmt))
    } else {
        Err(ExcellonError::InvalidCmd(line))
    }
}

pub fn parse_line<N: Scalar>(line: &[char], fmt: &UnitDefinition) -> (r: Result<
    Vec<LineResult<N>>,
    ExcellonError,
>)
    ensures
        results_view(r) == line_results::<N>(line@, *fmt),
{
    let end: usize = line.len();
    if end == 0 {
        proof {
            reveal_strlit("%");
            reveal_strlit("FMAT,");
            reveal_strlit("ICI");
            reveal_strlit("METRIC");
            reveal_strlit("INCH");
            reveal_strlit("G85");
        }
        return Err(ExcellonError::InvalidCmd(text_of(line)));
    }
    let tail = &line[1..end];
    assert(tail@ =~= line@.skip(1));
    if line[0] == ';' {
        return single(Ok(LineResult::Command(Command::Comment(text_of(tail)))));
    }
    if is_text(line, "%") {
        return single(Ok(LineResult::Command(Command::Machine(MachineCode::RewindStop))));
    }
    if let Some(tail) = strip_prefix(line, "FMAT,") {
        return single(parse_fmat(tail));
    }
    if let Some(tail) = strip_prefix(line, "ICI") {
        return single(parse_ici(tail));
    }
    if strip_prefix(line, "METRIC").is_some() || strip_prefix(line, "INCH").is_some() {
        return single(parse_unit(line));
    }
    if let Some(i) = find_text(line, "G85") {
        proof {
            reveal_strlit("G85");
        }
        let before = &line[0..i];
        let after = &line[i + 3..end];
        assert(before@ =~= line@.take(i as int));
        assert(after@ =~= line@.skip(i + 3));
        return single(parse_slot(before, after, fmt));
    }
    if line[0] == 'M' {
        return single(parse_machine(tail, line));
    }
    if line[0] == 'T' {
        return single(parse_tool(tail, line));
    }
    if line[0] == 'F' {
        return single(parse_feed(tail, line));
    }
    if line[0] == 'G' {
        return parse_geometric_line(line, fmt);
    }
    if line[0] == 'X' || line[0] == 'Y' {
        return single(parse_coord(line, fmt));
    }
    Err(ExcellonError::InvalidCmd(text_of(line)))
}

} // verus!
