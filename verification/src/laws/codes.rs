//! What the lines of an Excellon file say and how its commands are written, character by character.
use crate::excellon_format::line;
use crate::excellon_format::line::LineResult;
use crate::excellon_format::parse::Progress;
use crate::excellon_format::{
    Command, CommandView, CutterComp, ExcellonError, ExcellonParseFormat, GeometricCode, InputMode,
    MachineCode, Mode, ToolDefinition, UnitDefinition, ZeroSuppression,
};
use crate::fixed::Fixed;
use crate::gerber_types::Unit;
use crate::laws::lines;
use crate::laws::numbers;
use crate::scalar::Scalar;
use crate::table;
use crate::text;
use vstd::prelude::*;

verus! {

/// The line gives the command, and leaves the format and the tools as they were.
pub open spec fn gives<N: Scalar>(
    p: Progress<N>,
    line: Seq<char>,
    number: nat,
    c: CommandView<N>,
) -> bool {
    gives_with(p, line, number, c, p.format)
}

/// The line gives the command and leaves the format `fmt`.
pub open spec fn gives_with<N: Scalar>(
    p: Progress<N>,
    line: Seq<char>,
    number: nat,
    c: CommandView<N>,
    fmt: UnitDefinition,
) -> bool {
    p.after_line(line, number) matches Ok(q) && (q.commands == p.commands.push(Ok(c)) && q.format
        == fmt && q.tools == p.tools && q.unit_set == p.unit_set)
}

/// The command is written in one line with this text.
pub open spec fn is_written<N: Scalar>(c: CommandView<N>, s: Seq<char>) -> bool {
    crate::excellon_format::write::command_text(c) == s.push('\n')
}

/// The machine codes, as they stand in a file. `M71` makes the millimetre the unit of what
/// follows, and `M72` the inch.
pub proof fn law_machine_lines<N: Scalar>(p: Progress<N>, number: nat)
    ensures
        gives(p, "M15"@, number, Command::Machine(MachineCode::RouterDown)),
        gives(p, "M17"@, number, Command::Machine(MachineCode::RouterUp)),
        gives(p, "M30"@, number, Command::Machine(MachineCode::EndOfProgram)),
        gives(p, "M48"@, number, Command::Machine(MachineCode::HeaderStart)),
        gives(p, "M95"@, number, Command::Machine(MachineCode::HeaderEnd)),
        gives(p, "%"@, number, Command::Machine(MachineCode::RewindStop)),
        gives_with(
            p,
            "M71"@,
            number,
            Command::Machine(MachineCode::Scale(Unit::Millimeters)),
            (UnitDefinition { unit: Unit::Millimeters, ..p.format }),
        ),
        gives_with(
            p,
            "M72"@,
            number,
            Command::Machine(MachineCode::Scale(Unit::Inches)),
            (UnitDefinition { unit: Unit::Inches, ..p.format }),
        ),
{
    lines::law_command_read_back(Command::Machine(MachineCode::RouterDown), p, number);
    lines::law_command_read_back(Command::Machine(MachineCode::RouterUp), p, number);
    lines::law_command_read_back(Command::Machine(MachineCode::EndOfProgram), p, number);
    lines::law_command_read_back(Command::Machine(MachineCode::HeaderStart), p, number);
    lines::law_command_read_back(Command::Machine(MachineCode::HeaderEnd), p, number);
    lines::law_command_read_back(Command::Machine(MachineCode::RewindStop), p, number);
    let mm = MachineCode::Scale(Unit::Millimeters);
    lines::law_command_read_back(Command::Machine(mm), p, number);
    lines::law_command_read_back(Command::Machine(MachineCode::Scale(Unit::Inches)), p, number);
}

/// How the machine codes are written.
pub proof fn law_machine_texts<N: Scalar>()
    ensures
        is_written::<N>(Command::Machine(MachineCode::RouterDown), "M15"@),
        is_written::<N>(Command::Machine(MachineCode::RouterUp), "M17"@),
        is_written::<N>(Command::Machine(MachineCode::EndOfProgram), "M30"@),
        is_written::<N>(Command::Machine(MachineCode::HeaderStart), "M48"@),
        is_written::<N>(Command::Machine(MachineCode::Scale(Unit::Millimeters)), "M71"@),
        is_written::<N>(Command::Machine(MachineCode::Scale(Unit::Inches)), "M72"@),
        is_written::<N>(Command::Machine(MachineCode::HeaderEnd), "M95"@),
        is_written::<N>(Command::Machine(MachineCode::RewindStop), "%"@),
{
}

/// The machine codes that there are, by their numbers.
pub open spec fn machine_number(n: int, m: MachineCode) -> bool {
    match m {
        MachineCode::RouterDown => n == 15,
        MachineCode::RouterUp => n == 17,
        MachineCode::EndOfProgram => n == 30,
        MachineCode::HeaderStart => n == 48,
        MachineCode::Scale(Unit::Millimeters) => n == 71,
        MachineCode::Scale(Unit::Inches) => n == 72,
        MachineCode::HeaderEnd => n == 95,
        MachineCode::RewindStop => false,
    }
}

/// `M` and a number is the machine code with that number, however many zeros stand before it. A
/// number that no code has is kept as an error with the number and the line.
pub proof fn law_machine_numbers<N: Scalar>(p: Progress<N>, d: Seq<char>, number: usize)
    requires
        d.len() > 0,
        text::all_digits(d),
        text::dec_value(d) <= 255,
    ensures
        p.after_line(seq!['M'] + d, number as nat) matches Ok(q) && (q.commands.len()
            == p.commands.len() + 1 && q.commands.drop_last() == p.commands && match q.commands.last() {
            Ok(c) => c matches Command::Machine(m) && machine_number(text::dec_value(d) as int, m),
            Err(e) => e.source == ExcellonError::<Seq<char>>::InvalidMachineCode(
                text::dec_value(d) as u8,
            ) && e.line == number && e.content == seq!['M'] + d && (forall|m: MachineCode|
                !machine_number(text::dec_value(d) as int, m)),
        }),
{
    let s = seq!['M'] + d;
    assert(s[1] == d[0] && text::is_digit(d[0]));
    lines::lemma_no_word(s);
    lines::lemma_graphic_digits(d);
    assert forall|i: int| 0 <= i < s.len() implies #[trigger] s[i] != 'G' by {
        if i > 0 {
            assert(s[i] == d[i - 1]);
            assert(text::is_digit(d[i - 1]));
        }
    }
    lines::lemma_no_g(s);
    lines::lemma_graphic_concat(seq!['M'], d);
    lines::lemma_graphic_line(s);
    lines::lemma_not_trimmed(s);
    assert(s.skip(1) =~= d);
    reveal_with_fuel(Progress::<_>::after_all, 2);
    match line::line_results::<N>(s, p.format) {
        Ok(rs) => {
            assert(rs.drop_last() =~= Seq::empty());
            let q = p.after_line(s, number as nat)->Ok_0;
            assert(q.commands.drop_last() =~= p.commands);
        },
        Err(e) => {
            let q = p.after_line(s, number as nat)->Ok_0;
            assert(q.commands.drop_last() =~= p.commands);
        },
    }
}

/// The geometric codes, as they stand in a file.
pub proof fn law_geometric_lines<N: Scalar>(p: Progress<N>, number: nat, time: u16)
    ensures
        gives(p, "G00"@, number, Command::Geometric(GeometricCode::Mode(Mode::Route))),
        gives(p, "G01"@, number, Command::Geometric(GeometricCode::Mode(Mode::Linear))),
        gives(p, "G02"@, number, Command::Geometric(GeometricCode::Mode(Mode::CircularCW))),
        gives(p, "G03"@, number, Command::Geometric(GeometricCode::Mode(Mode::CircularCWW))),
        gives(
            p,
            "G04X"@ + text::dec_digits(time as nat),
            number,
            Command::Geometric(GeometricCode::VariableDwell(time)),
        ),
        gives(p, "G05"@, number, Command::Geometric(GeometricCode::Mode(Mode::DrillMode))),
        gives(p, "G07"@, number, Command::Geometric(GeometricCode::OverrideFeed)),
        gives(
            p,
            "G40"@,
            number,
            Command::Geometric(GeometricCode::CutterCompensation(CutterComp::Off)),
        ),
        gives(
            p,
            "G41"@,
            number,
            Command::Geometric(GeometricCode::CutterCompensation(CutterComp::Left)),
        ),
        gives(
            p,
            "G42"@,
            number,
            Command::Geometric(GeometricCode::CutterCompensation(CutterComp::Right)),
        ),
        gives(p, "G81"@, number, Command::Geometric(GeometricCode::Mode(Mode::CannedDrill))),
        gives(
            p,
            "G90"@,
            number,
            Command::Geometric(GeometricCode::InputMode(InputMode::Absolute)),
        ),
        gives(
            p,
            "G91"@,
            number,
            Command::Geometric(GeometricCode::InputMode(InputMode::Incremental)),
        ),
{
    lemma_geometric(p, number, GeometricCode::Mode(Mode::Route));
    lemma_geometric(p, number, GeometricCode::Mode(Mode::Linear));
    lemma_geometric(p, number, GeometricCode::Mode(Mode::CircularCW));
    lemma_geometric(p, number, GeometricCode::Mode(Mode::CircularCWW));
    lemma_geometric(p, number, GeometricCode::VariableDwell(time));
    lemma_geometric(p, number, GeometricCode::Mode(Mode::DrillMode));
    lemma_geometric(p, number, GeometricCode::OverrideFeed);
    lemma_geometric(p, number, GeometricCode::CutterCompensation(CutterComp::Off));
    lemma_geometric(p, number, GeometricCode::CutterCompensation(CutterComp::Left));
    lemma_geometric(p, number, GeometricCode::CutterCompensation(CutterComp::Right));
    lemma_geometric(p, number, GeometricCode::Mode(Mode::CannedDrill));
    lemma_geometric(p, number, GeometricCode::InputMode(InputMode::Absolute));
    lemma_geometric(p, number, GeometricCode::InputMode(InputMode::Incremental));
}

proof fn lemma_geometric<N: Scalar>(p: Progress<N>, number: nat, g: GeometricCode)
    ensures
        gives(p, g.text_spec(), number, Command::Geometric(g)),
{
    lines::law_command_read_back(Command::Geometric(g), p, number);
}

/// How the geometric codes are written.
pub proof fn law_geometric_texts<N: Scalar>(time: u16)
    ensures
        is_written::<N>(Command::Geometric(GeometricCode::Mode(Mode::Route)), "G00"@),
        is_written::<N>(Command::Geometric(GeometricCode::Mode(Mode::Linear)), "G01"@),
        is_written::<N>(Command::Geometric(GeometricCode::Mode(Mode::CircularCW)), "G02"@),
        is_written::<N>(Command::Geometric(GeometricCode::Mode(Mode::CircularCWW)), "G03"@),
        is_written::<N>(
            Command::Geometric(GeometricCode::VariableDwell(time)),
            "G04X"@ + text::dec_digits(time as nat),
        ),
        is_written::<N>(Command::Geometric(GeometricCode::Mode(Mode::DrillMode)), "G05"@),
        is_written::<N>(Command::Geometric(GeometricCode::OverrideFeed), "G07"@),
        is_written::<N>(
            Command::Geometric(GeometricCode::CutterCompensation(CutterComp::Off)),
            "G40"@,
        ),
        is_written::<N>(
            Command::Geometric(GeometricCode::CutterCompensation(CutterComp::Left)),
            "G41"@,
        ),
        is_written::<N>(
            Command::Geometric(GeometricCode::CutterCompensation(CutterComp::Right)),
            "G42"@,
        ),
        is_written::<N>(Command::Geometric(GeometricCode::Mode(Mode::CannedDrill)), "G81"@),
        is_written::<N>(
            Command::Geometric(GeometricCode::InputMode(InputMode::Absolute)),
            "G90"@,
        ),
        is_written::<N>(
            Command::Geometric(GeometricCode::InputMode(InputMode::Incremental)),
            "G91"@,
        ),
{
}

/// The line sets the format.
pub open spec fn sets_format<N: Scalar>(
    p: Progress<N>,
    line: Seq<char>,
    number: nat,
    fmt: UnitDefinition,
) -> bool {
    p.after_line(line, number) matches Ok(q) && (q.commands == p.commands.push(
        Ok(Command::UnitDefinition(fmt)),
    ) && q.format == fmt && q.unit_set && q.tools == p.tools)
}

proof fn lemma_bare_unit<N: Scalar>(
    p: Progress<N>,
    number: nat,
    unit: Unit,
    ty: Option<ZeroSuppression>,
)
    ensures
        sets_format(
            p,
            UnitDefinition::unit_text(unit) + match ty {
                Some(ty) => lines::type_text(ty),
                None => Seq::empty(),
            },
            number,
            UnitDefinition {
                unit,
                ty: match ty {
                    Some(ty) => ty,
                    None => ZeroSuppression::Leading,
                },
                leading: if unit == Unit::Inches {
                    2
                } else {
                    3
                },
                trailing: if unit == Unit::Inches {
                    4
                } else {
                    3
                },
                decimal: ty is None,
            },
        ),
{
    let none = Seq::<char>::empty();
    let rest = match ty {
        Some(ty) => lines::type_text(ty),
        None => none,
    };
    let name = UnitDefinition::unit_text(unit);
    let s = name + rest;
    lines::lemma_unit_name::<N>(unit, rest, p.format);
    match ty {
        Some(ty) => {
            lines::lemma_zero_type(ty, none);
            assert(rest + none =~= rest);
        },
        None => {
            reveal_strlit(",TZ");
            reveal_strlit(",LZ");
            assert(line::zero_type(none) == (None::<ZeroSuppression>, none));
        },
    }
    lines::lemma_graphic_concat(name, rest);
    lines::lemma_graphic_line(s);
    lines::lemma_not_trimmed(s);
    reveal_with_fuel(Progress::<_>::after_all, 2);
    let rs = line::line_results::<N>(s, p.format)->Ok_0;
    assert(rs.drop_last() =~= Seq::empty());
}

proof fn lemma_unit_names()
    ensures
        UnitDefinition::unit_text(Unit::Millimeters) + Seq::<char>::empty() == "METRIC"@,
        UnitDefinition::unit_text(Unit::Inches) + Seq::<char>::empty() == "INCH"@,
        UnitDefinition::unit_text(Unit::Millimeters) + lines::type_text(ZeroSuppression::Leading)
            == "METRIC,LZ"@,
        UnitDefinition::unit_text(Unit::Millimeters) + lines::type_text(ZeroSuppression::Trailing)
            == "METRIC,TZ"@,
        UnitDefinition::unit_text(Unit::Inches) + lines::type_text(ZeroSuppression::Leading)
            == "INCH,LZ"@,
        UnitDefinition::unit_text(Unit::Inches) + lines::type_text(ZeroSuppression::Trailing)
            == "INCH,TZ"@,
{
    reveal_strlit("METRIC");
    reveal_strlit("INCH");
    reveal_strlit("LZ");
    reveal_strlit("TZ");
    reveal_strlit("METRIC,LZ");
    reveal_strlit("METRIC,TZ");
    reveal_strlit("INCH,LZ");
    reveal_strlit("INCH,TZ");
}

/// The unit definitions, as they stand in a file. Without digit counts the numbers have two digits
/// before the point and four behind it in inches, and three and three in millimetres; without `LZ`
/// or `TZ` they are written with the point.
pub proof fn law_unit_lines<N: Scalar>(p: Progress<N>, number: nat)
    ensures
        sets_format(
            p,
            "METRIC"@,
            number,
            (UnitDefinition {
                unit: Unit::Millimeters,
                ty: ZeroSuppression::Leading,
                leading: 3,
                trailing: 3,
                decimal: true,
            }),
        ),
        sets_format(
            p,
            "INCH"@,
            number,
            (UnitDefinition {
                unit: Unit::Inches,
                ty: ZeroSuppression::Leading,
                leading: 2,
                trailing: 4,
                decimal: true,
            }),
        ),
        sets_format(
            p,
            "METRIC,LZ"@,
            number,
            (UnitDefinition {
                unit: Unit::Millimeters,
                ty: ZeroSuppression::Leading,
                leading: 3,
                trailing: 3,
                decimal: false,
            }),
        ),
        sets_format(
            p,
            "METRIC,TZ"@,
            number,
            (UnitDefinition {
                unit: Unit::Millimeters,
                ty: ZeroSuppression::Trailing,
                leading: 3,
                trailing: 3,
                decimal: false,
            }),
        ),
        sets_format(
            p,
            "INCH,LZ"@,
            number,
            (UnitDefinition {
                unit: Unit::Inches,
                ty: ZeroSuppression::Leading,
                leading: 2,
                trailing: 4,
                decimal: false,
            }),
        ),
        sets_format(
            p,
            "INCH,TZ"@,
            number,
            (UnitDefinition {
                unit: Unit::Inches,
                ty: ZeroSuppression::Trailing,
                leading: 2,
                trailing: 4,
                decimal: false,
            }),
        ),
{
    lemma_unit_names();
    lemma_bare_unit(p, number, Unit::Millimeters, None);
    lemma_bare_unit(p, number, Unit::Inches, None);
    lemma_bare_unit(p, number, Unit::Millimeters, Some(ZeroSuppression::Leading));
    lemma_bare_unit(p, number, Unit::Millimeters, Some(ZeroSuppression::Trailing));
    lemma_bare_unit(p, number, Unit::Inches, Some(ZeroSuppression::Leading));
    lemma_bare_unit(p, number, Unit::Inches, Some(ZeroSuppression::Trailing));
}

/// The name of a unit, how zeros are suppressed, and a zero for each place of a number.
pub open spec fn counted_unit(u: UnitDefinition) -> Seq<char> {
    (if u.unit == Unit::Inches {
        "INCH"@
    } else {
        "METRIC"@
    }) + (if u.ty == ZeroSuppression::Leading {
        ",LZ,"@
    } else {
        ",TZ,"@
    }) + Seq::new(u.leading as nat, |i: int| '0') + seq!['.'] + Seq::new(
        u.trailing as nat,
        |i: int| '0',
    )
}

proof fn lemma_counted_unit(u: UnitDefinition)
    requires
        !u.decimal,
    ensures
        counted_unit(u) == u.text_spec(),
{
    reveal_strlit("LZ");
    reveal_strlit("TZ");
    reveal_strlit(",LZ,");
    reveal_strlit(",TZ,");
    assert(Seq::new(u.leading as nat, |i: int| '0') =~= text::zeros(u.leading as nat));
    assert(Seq::new(u.trailing as nat, |i: int| '0') =~= text::zeros(u.trailing as nat));
    assert(",LZ,"@ =~= seq![','] + "LZ"@ + seq![',']);
    assert(",TZ,"@ =~= seq![','] + "TZ"@ + seq![',']);
    assert(counted_unit(u) =~= u.text_spec());
}

/// A unit definition with digit counts: the run before the point is as long as the whole part of a
/// number, and the run behind it as long as its fraction. That is how it is read and how it is
/// written.
pub proof fn law_counted_unit_line<N: Scalar>(p: Progress<N>, number: nat, u: UnitDefinition)
    requires
        !u.decimal,
        u.leading > 0,
        u.trailing > 0,
    ensures
        sets_format(p, counted_unit(u), number, u),
        is_written::<N>(Command::UnitDefinition(u), counted_unit(u)),
{
    lemma_counted_unit(u);
    lines::law_command_read_back(Command::UnitDefinition(u), p, number);
}

/// A unit definition for numbers with a point is the name of the unit.
pub proof fn law_decimal_unit_text<N: Scalar>(u: UnitDefinition)
    requires
        u.decimal,
    ensures
        is_written::<N>(
            Command::UnitDefinition(u),
            if u.unit == Unit::Inches {
                "INCH"@
            } else {
                "METRIC"@
            },
        ),
{
}

/// The settings, the tools, the feed rate and the comments: how they are read.
pub proof fn law_setting_lines<N: Scalar>(
    p: Progress<N>,
    number: nat,
    version: u8,
    id: u32,
    comment: Seq<char>,
)
    requires
        !comment.contains('\n'),
        comment.len() == 0 || !text::is_space(comment.last()),
    ensures
        gives(p, "ICI,ON"@, number, Command::Incremental(true)),
        gives(p, "ICI,OFF"@, number, Command::Incremental(false)),
        gives(
            p,
            "FMAT,"@ + text::dec_digits(version as nat),
            number,
            Command::FormatCode(version),
        ),
        gives(p, seq!['F'] + text::dec_digits(id as nat), number, Command::FeedRate(id)),
        gives(p, seq![';'] + comment, number, Command::Comment(comment)),
        table::lookup(p.tools, id) is Some ==> gives(
            p,
            seq!['T'] + text::dec_digits(id as nat),
            number,
            Command::Tool(id),
        ),
{
    lines::law_command_read_back(Command::Incremental(true), p, number);
    lines::law_command_read_back(Command::Incremental(false), p, number);
    lines::law_command_read_back(Command::FormatCode(version), p, number);
    lines::law_command_read_back(Command::FeedRate(id), p, number);
    lines::law_command_read_back(Command::Comment(comment), p, number);
    if table::lookup(p.tools, id) is Some {
        lines::law_command_read_back(Command::Tool(id), p, number);
    }
}

/// The settings, the tools, the feed rate and the comments: how they are written. The diameter of a
/// tool has three decimal places.
pub proof fn law_setting_texts<N: Scalar>(version: u8, id: u32, diameter: N, comment: Seq<char>)
    ensures
        is_written::<N>(Command::Incremental(true), "ICI,ON"@),
        is_written::<N>(Command::Incremental(false), "ICI,OFF"@),
        is_written::<N>(Command::FormatCode(version), "FMAT,"@ + text::dec_digits(version as nat)),
        is_written::<N>(Command::FeedRate(id), seq!['F'] + text::dec_digits(id as nat)),
        is_written::<N>(Command::Comment(comment), seq![';'] + comment),
        is_written::<N>(Command::Tool(id), seq!['T'] + text::dec_digits(id as nat)),
        is_written::<N>(
            Command::ToolDefinition(ToolDefinition { tool_number: id, diameter }),
            seq!['T'] + text::dec_digits(id as nat) + seq!['C'] + diameter.text_spec(3),
        ),
{
}

/// What a numeral stands for, in the smallest steps of a fixed-point number: its digits, with nine
/// of them behind the point.
pub open spec fn steps(negative: bool, digits: Seq<char>, behind: nat) -> int {
    numbers::signed(
        negative,
        (text::dec_value(digits) * text::pow10((9 - behind) as nat)) as int,
    )
}

pub open spec fn fits(v: int) -> bool {
    i64::MIN <= v <= i64::MAX
}

/// What the numbers of a coordinate stand for. A number with a point is what it says. One without
/// has, under `TZ`, its last digits behind the point; under `LZ`, its first digits before the
/// point, and the zeros at its end left out; and in a format with a point it is a whole number.
pub proof fn law_numbers_read(
    fmt: UnitDefinition,
    negative: bool,
    whole: Seq<char>,
    fraction: Seq<char>,
)
    requires
        whole.len() > 0,
        text::all_digits(whole),
        text::all_digits(fraction),
        fraction.len() <= 9,
        fmt.trailing <= 9,
    ensures
        ({
            let v = steps(negative, whole + fraction, fraction.len());
            fraction.len() > 0 && fits(v) ==> fmt.parse_num_spec::<Fixed>(
                numbers::numeral(negative, whole, fraction),
            ) == Some(Fixed { raw: v as i64 })
        }),
        ({
            let behind = if fmt.decimal {
                0
            } else {
                fmt.trailing as nat
            };
            let missing = if fmt.decimal || fmt.ty == ZeroSuppression::Trailing || whole.len()
                >= fmt.leading + fmt.trailing {
                0
            } else {
                (fmt.leading + fmt.trailing - whole.len()) as nat
            };
            let v = steps(negative, whole, behind) * text::pow10(missing);
            fits(v) ==> fmt.parse_num_spec::<Fixed>(
                numbers::numeral(negative, whole, Seq::empty()),
            ) == Some(Fixed { raw: v as i64 })
        }),
{
    let none = Seq::<char>::empty();
    let s = numbers::sign(negative) + whole;
    numbers::lemma_numeral(negative, whole, fraction);
    numbers::lemma_numeral(negative, whole, none);
    if fraction.len() > 0 {
        let t = numbers::numeral(negative, whole, fraction);
        assert(t[(numbers::sign(negative).len() + whole.len()) as int] == '.');
        numbers::lemma_decimal_numeral(negative, whole, fraction);
    }
    assert forall|i: int| 0 <= i < s.len() implies s[i] != '.' by {
        if i >= numbers::sign(negative).len() {
            assert(text::is_digit(whole[i - numbers::sign(negative).len()]));
        }
    }
    assert(text::is_digit(whole[0]));
    let behind = if fmt.decimal {
        0
    } else {
        fmt.trailing as nat
    };
    let k = if fmt.decimal || fmt.ty == ZeroSuppression::Trailing || whole.len() >= fmt.leading
        + fmt.trailing {
        0
    } else {
        (fmt.leading + fmt.trailing - whole.len()) as nat
    };
    let z = text::zeros(k);
    let all = whole + z;
    text::lemma_zeros_value(k);
    text::lemma_dec_value_concat(whole, z);
    text::lemma_all_digits_concat(whole, z);
    numbers::lemma_whole_numeral(negative, all, behind);
    let a = text::dec_value(whole);
    let b = text::pow10(k);
    let c = text::pow10((9 - behind) as nat);
    assert((a * b) * c == (a * c) * b && (-(a * c)) * b == -((a * c) * b)) by (nonlinear_arith);
    let raw = numbers::numeral(negative, whole, none);
    assert(raw =~= s);
    if negative {
        assert(raw.skip(1) =~= whole);
    }
    assert(numbers::sign(negative) + all =~= raw + z);
    if k == 0 {
        assert(raw + z =~= raw);
    }
}

/// One axis of a coordinate: nothing, or its letter and a numeral.
pub open spec fn axis_line(letter: char, v: Option<(bool, Seq<char>, Seq<char>)>) -> Seq<char> {
    match v {
        Some((negative, whole, fraction)) => seq![letter] + numbers::numeral(
            negative,
            whole,
            fraction,
        ),
        None => Seq::empty(),
    }
}

pub open spec fn axis_fine(v: Option<(bool, Seq<char>, Seq<char>)>) -> bool {
    v matches Some((negative, whole, fraction)) ==> numbers::is_numeral(negative, whole, fraction)
}

/// The number on an axis.
pub open spec fn axis_number<N: Scalar>(
    v: Option<(bool, Seq<char>, Seq<char>)>,
    fmt: UnitDefinition,
) -> Option<N> {
    match v {
        Some((negative, whole, fraction)) => fmt.parse_num_spec::<N>(
            numbers::numeral(negative, whole, fraction),
        ),
        None => None,
    }
}

proof fn lemma_axis_line(
    letter: char,
    v: Option<(bool, Seq<char>, Seq<char>)>,
    rest: Seq<char>,
)
    requires
        axis_fine(v),
        letter == 'X' || letter == 'Y',
        rest.len() == 0 || (letter == 'X' && rest[0] == 'Y'),
    ensures
        ({
            let t = axis_line(letter, v);
            &&& line::axis(t + rest, letter).1 == rest
            &&& line::axis(t + rest, letter).0 == match v {
                Some((negative, whole, fraction)) => Some(
                    numbers::numeral(negative, whole, fraction),
                ),
                None => None,
            }
            &&& lines::graphic(t)
            &&& !t.contains('G')
            &&& t.len() > 0 <==> v is Some
            &&& t.len() > 0 ==> t[0] == letter
        }),
{
    let t = axis_line(letter, v);
    let s = t + rest;
    match v {
        None => {
            assert(s =~= rest);
        },
        Some((negative, whole, fraction)) => {
            let num = numbers::numeral(negative, whole, fraction);
            lines::lemma_numeral_chars(negative, whole, fraction);
            lines::lemma_value_length(negative, whole, fraction, rest);
            assert(s.skip(1) =~= num + rest);
            assert(s.subrange(1, 1 + num.len() as int) =~= num);
            assert(s.skip(1 + num.len() as int) =~= rest);
            lines::lemma_graphic_concat(seq![letter], num);
            assert forall|i: int| 0 <= i < t.len() implies t[i] != 'G' by {
                if i > 0 {
                    assert(t[i] == num[i - 1]);
                }
            }
        },
    }
}

proof fn lemma_pair_line<N: Scalar>(
    x: Option<(bool, Seq<char>, Seq<char>)>,
    y: Option<(bool, Seq<char>, Seq<char>)>,
    fmt: UnitDefinition,
)
    requires
        axis_fine(x),
        axis_fine(y),
    ensures
        ({
            let s = axis_line('X', x) + axis_line('Y', y);
            &&& line::xy::<N>(s, fmt) == Ok::<(Option<N>, Option<N>), line::ErrorView>(
                (axis_number(x, fmt), axis_number(y, fmt)),
            )
            &&& lines::graphic(s)
            &&& !s.contains('G')
            &&& s.len() > 0 <==> x is Some || y is Some
            &&& s.len() > 0 ==> s[0] == 'X' || s[0] == 'Y'
        }),
{
    let a = axis_line('X', x);
    let b = axis_line('Y', y);
    let s = a + b;
    let none = Seq::<char>::empty();
    lemma_axis_line('Y', y, none);
    assert(b + none =~= b);
    lemma_axis_line('X', x, b);
    lines::lemma_graphic_concat(a, b);
    assert forall|i: int| 0 <= i < s.len() implies s[i] != 'G' by {
        if i < a.len() {
            assert(s[i] == a[i]);
        } else {
            assert(s[i] == b[i - a.len()]);
        }
    }
}

/// A line with `X` and `Y` is a coordinate: the number behind `X` is its first, the one behind `Y`
/// its second, either may be missing, and both are in the format in force. Before any unit
/// definition it is an error.
pub proof fn law_coordinate_lines<N: Scalar>(
    p: Progress<N>,
    number: nat,
    x: Option<(bool, Seq<char>, Seq<char>)>,
    y: Option<(bool, Seq<char>, Seq<char>)>,
)
    requires
        axis_fine(x),
        axis_fine(y),
        x is Some || y is Some,
    ensures
        ({
            let s = axis_line('X', x) + axis_line('Y', y);
            let c = Command::Coordinate(
                axis_number(x, p.format),
                axis_number(y, p.format),
                p.format,
            );
            &&& p.unit_set ==> gives(p, s, number, c)
            &&& !p.unit_set ==> (p.after_line(s, number) matches Ok(q) && q.commands
                == p.commands.push(
                Err(
                    ExcellonParseFormat {
                        source: ExcellonError::CoordinateBeforeUnit,
                        line: number as usize,
                        content: s,
                    },
                ),
            ))
        }),
{
    let s = axis_line('X', x) + axis_line('Y', y);
    lemma_pair_line::<N>(x, y, p.format);
    lines::lemma_no_word(s);
    lines::lemma_no_g(s);
    lines::lemma_graphic_line(s);
    lines::lemma_not_trimmed(s);
    reveal_with_fuel(Progress::<_>::after_all, 2);
    let rs = line::line_results::<N>(s, p.format)->Ok_0;
    assert(rs.drop_last() =~= Seq::empty());
}

/// A line with `G85` is a slot: from the coordinate before it to the one behind it.
pub proof fn law_slot_lines<N: Scalar>(
    p: Progress<N>,
    number: nat,
    from_x: Option<(bool, Seq<char>, Seq<char>)>,
    from_y: Option<(bool, Seq<char>, Seq<char>)>,
    to_x: Option<(bool, Seq<char>, Seq<char>)>,
    to_y: Option<(bool, Seq<char>, Seq<char>)>,
)
    requires
        axis_fine(from_x),
        axis_fine(from_y),
        axis_fine(to_x),
        axis_fine(to_y),
    ensures
        gives(
            p,
            (axis_line('X', from_x) + axis_line('Y', from_y)) + "G85"@ + (axis_line('X', to_x)
                + axis_line('Y', to_y)),
            number,
            (Command::Slot {
                from_x: axis_number(from_x, p.format),
                from_y: axis_number(from_y, p.format),
                to_x: axis_number(to_x, p.format),
                to_y: axis_number(to_y, p.format),
                fmt: p.format,
            }),
        ),
{
    let a = axis_line('X', from_x) + axis_line('Y', from_y);
    let b = axis_line('X', to_x) + axis_line('Y', to_y);
    let s = a + "G85"@ + b;
    lemma_pair_line::<N>(from_x, from_y, p.format);
    lemma_pair_line::<N>(to_x, to_y, p.format);
    lines::lemma_slot_sides::<N>(a, b, p.format);
    lines::lemma_not_trimmed(s);
    reveal_with_fuel(Progress::<_>::after_all, 2);
    let rs = line::line_results::<N>(s, p.format)->Ok_0;
    assert(rs.drop_last() =~= Seq::empty());
}

/// Behind a line `M71` the coordinates are in millimetres, and behind `M72` in inches.
pub proof fn law_scale_in_force<N: Scalar>(
    p: Progress<N>,
    number: nat,
    x: Option<(bool, Seq<char>, Seq<char>)>,
    y: Option<(bool, Seq<char>, Seq<char>)>,
)
    requires
        p.unit_set,
        axis_fine(x),
        axis_fine(y),
        x is Some || y is Some,
    ensures
        ({
            let s = axis_line('X', x) + axis_line('Y', y);
            &&& p.after_line("M71"@, number) matches Ok(q) && (q.after_line(s, number + 1) matches Ok(
                r,
            ) && (r.commands.last() matches Ok(Command::Coordinate(_, _, fmt)) && fmt.unit
                == Unit::Millimeters))
            &&& p.after_line("M72"@, number) matches Ok(q) && (q.after_line(s, number + 1) matches Ok(
                r,
            ) && (r.commands.last() matches Ok(Command::Coordinate(_, _, fmt)) && fmt.unit
                == Unit::Inches))
        }),
{
    law_machine_lines(p, number);
    let q = p.after_line("M71"@, number)->Ok_0;
    law_coordinate_lines(q, number + 1, x, y);
    let r = p.after_line("M72"@, number)->Ok_0;
    law_coordinate_lines(r, number + 1, x, y);
}

/// A geometric code with a coordinate behind it says both: the code that it is without the
/// coordinate, and then the coordinate, in the format in force. `G04` and `G85` are read otherwise.
pub proof fn law_code_with_coordinate<N: Scalar>(
    p: Progress<N>,
    number: nat,
    code: Seq<char>,
    c: CommandView<N>,
    x: Option<(bool, Seq<char>, Seq<char>)>,
    y: Option<(bool, Seq<char>, Seq<char>)>,
)
    requires
        p.unit_set,
        code.len() == 3,
        code[0] == 'G',
        text::is_digit(code[1]),
        text::is_digit(code[2]),
        code != "G04"@,
        code != "G85"@,
        gives(p, code, number, c),
        axis_fine(x),
        axis_fine(y),
        x is Some || y is Some,
    ensures
        p.after_line(code + (axis_line('X', x) + axis_line('Y', y)), number) matches Ok(q)
            && q.commands == p.commands.push(Ok(c)).push(
            Ok(
                Command::Coordinate(
                    axis_number(x, p.format),
                    axis_number(y, p.format),
                    p.format,
                ),
            ),
        ),
{
    let pair = axis_line('X', x) + axis_line('Y', y);
    let s = code + pair;
    let d = code.skip(1);
    lemma_pair_line::<N>(x, y, p.format);
    lemma_code_alone::<N>(code, p.format);
    lemma_code_and_pair::<N>(code, pair, p.format);
    lemma_one_result(p, number, code, c);
    let rs = line::line_results::<N>(s, p.format)->Ok_0;
    let first = line::geometric::<N>(d, code)->Ok_0;
    assert(seq![first][0] == seq![LineResult::<N, Seq<char>>::Command(c)][0]);
    lemma_two_results(
        p,
        number,
        s,
        rs,
        c,
        axis_number(x, p.format),
        axis_number(y, p.format),
    );
}

/// A code and a coordinate, one behind the other.
proof fn lemma_two_results<N: Scalar>(
    p: Progress<N>,
    number: nat,
    s: Seq<char>,
    rs: Seq<line::LineView<N>>,
    c: CommandView<N>,
    x: Option<N>,
    y: Option<N>,
)
    requires
        p.unit_set,
        c is Geometric,
        rs == seq![LineResult::Command(c), LineResult::RawCoordinate(x, y)],
    ensures
        p.after_all(rs, number, s) matches Ok(q) && q.commands == p.commands.push(Ok(c)).push(
            Ok(Command::Coordinate(x, y, p.format)),
        ),
{
    let one: Seq<line::LineView<N>> = seq![LineResult::Command(c)];
    assert(rs.drop_last() =~= one);
    assert(one.drop_last() =~= Seq::empty());
    reveal_with_fuel(Progress::<_>::after_all, 3);
    assert(p.after_all(one, number, s) == p.after(one.last(), number, s));
}

proof fn lemma_code_alone<N: Scalar>(code: Seq<char>, fmt: UnitDefinition)
    requires
        code.len() == 3,
        code[0] == 'G',
        text::is_digit(code[1]),
        text::is_digit(code[2]),
        code != "G85"@,
    ensures
        line::line_results::<N>(code, fmt) == line::only(
            line::geometric::<N>(code.skip(1), code),
        ),
        text::trimmed(code) == code,
        !(code[1] == '8' && code[2] == '5'),
{
    reveal_strlit("G85");
    if code[1] == '8' && code[2] == '5' {
        assert(code =~= "G85"@);
    }
    let d = code.skip(1);
    lines::lemma_no_word(code);
    lines::lemma_no_slot(code);
    assert(d =~= seq![code[1], code[2]]);
    lines::lemma_graphic_digits(d);
    lines::lemma_graphic_concat(seq!['G'], d);
    assert(code =~= seq!['G'] + d);
    lines::lemma_graphic_line(code);
    lines::lemma_not_trimmed(code);
    assert(d.take(2) =~= d);
    text::lemma_digit_run_unique(d, 2);
    assert(code.take(3) =~= code);
    assert(code.skip(3).len() == 0);
}

proof fn lemma_code_and_pair<N: Scalar>(code: Seq<char>, pair: Seq<char>, fmt: UnitDefinition)
    requires
        code.len() == 3,
        code[0] == 'G',
        text::is_digit(code[1]),
        text::is_digit(code[2]),
        !(code[1] == '8' && code[2] == '5'),
        code != "G04"@,
        pair.len() > 0,
        pair[0] == 'X' || pair[0] == 'Y',
        lines::graphic(pair),
        !pair.contains('G'),
    ensures
        text::trimmed(code + pair) == code + pair,
        line::line_results::<N>(code + pair, fmt) == match line::geometric::<N>(
            code.skip(1),
            code,
        ) {
            Err(e) => Err(e),
            Ok(first) => match line::coord::<N>(pair, fmt) {
                Err(e) => Err(e),
                Ok(second) => Ok(seq![first, second]),
            },
        },
{
    let s = code + pair;
    let d = code.skip(1);
    lines::lemma_no_word(s);
    assert forall|i: int| 0 <= i < s.len() - 2 implies !(#[trigger] s[i] == 'G' && s[i + 1] == '8'
        && s[i + 2] == '5') by {
        if i >= 3 {
            assert(s[i] == pair[i - 3]);
            assert(pair.contains(pair[i - 3]));
        }
    }
    lines::lemma_no_slot(s);
    assert(d =~= seq![code[1], code[2]]);
    lines::lemma_graphic_digits(d);
    lines::lemma_graphic_concat(seq!['G'], d);
    assert(code =~= seq!['G'] + d);
    lines::lemma_graphic_concat(code, pair);
    lines::lemma_graphic_line(s);
    lines::lemma_not_trimmed(s);
    assert(s.skip(1).take(2) =~= d);
    assert(s[3] == pair[0]);
    text::lemma_digit_run_unique(s.skip(1), 2);
    assert(s.take(3) =~= code);
    assert(s.skip(3) =~= pair);
}

/// A line that gives a geometric command says that and nothing else.
proof fn lemma_one_result<N: Scalar>(p: Progress<N>, number: nat, code: Seq<char>, c: CommandView<N>)
    requires
        gives(p, code, number, c),
        text::trimmed(code) == code,
        code.len() > 0,
        exists|r: Result<line::LineView<N>, line::ErrorView>|
            line::line_results::<N>(code, p.format) == #[trigger] line::only(r) && (r matches Ok(l)
                ==> (l matches LineResult::Command(Command::Geometric(_)))),
    ensures
        line::line_results::<N>(code, p.format) == Ok::<Seq<line::LineView<N>>, line::ErrorView>(
            seq![LineResult::Command(c)],
        ),
        c is Geometric,
{
    let r = choose|r: Result<line::LineView<N>, line::ErrorView>|
        line::line_results::<N>(code, p.format) == #[trigger] line::only(r) && (r matches Ok(l)
            ==> (l matches LineResult::Command(Command::Geometric(_))));
    let q = p.after_line(code, number)->Ok_0;
    reveal_with_fuel(Progress::<_>::after_all, 2);
    match r {
        Ok(l) => {
            let rs = seq![l];
            assert(rs.drop_last() =~= Seq::empty());
            assert(q.commands == p.commands.push(Ok(l->Command_0)));
            assert(q.commands.last() == Ok::<CommandView<N>, ExcellonParseFormat<Seq<char>>>(
                l->Command_0,
            ));
            assert(p.commands.push(Ok(c)).last() == Ok::<
                CommandView<N>,
                ExcellonParseFormat<Seq<char>>,
            >(c));
        },
        Err(e) => {
            assert(q.commands.last() is Err);
            assert(p.commands.push(Ok(c)).last() is Ok);
        },
    }
}

/// A tool that was not defined ends the reading.
pub proof fn law_undefined_tool<N: Scalar>(p: Progress<N>, number: nat, id: u32)
    requires
        table::lookup(p.tools, id) is None,
    ensures
        p.after_line(seq!['T'] + text::dec_digits(id as nat), number) == Err::<
            Progress<N>,
            line::ErrorView,
        >(ExcellonError::InvalidToolNumber(id)),
{
    let s = seq!['T'] + text::dec_digits(id as nat);
    lines::lemma_tool_line::<N>(id, p.format);
    lines::lemma_not_trimmed(s);
    reveal_with_fuel(Progress::<_>::after_all, 2);
    let rs = line::line_results::<N>(s, p.format)->Ok_0;
    assert(rs.drop_last() =~= Seq::empty());
}

/// `T`, a number, `C` and a numeral define a tool: its number and its diameter, and nothing but that
/// tool is changed among the tools.
pub proof fn law_tool_definitions(
    p: Progress<Fixed>,
    number: nat,
    id: u32,
    whole: Seq<char>,
    fraction: Seq<char>,
)
    requires
        numbers::is_numeral(false, whole, fraction),
        0 < fraction.len() <= 9,
        fits(steps(false, whole + fraction, fraction.len())),
        table::ordered(p.tools),
    ensures
        ({
            let s = seq!['T'] + text::dec_digits(id as nat) + seq!['C'] + (whole + seq!['.']
                + fraction);
            let diameter = Fixed { raw: steps(false, whole + fraction, fraction.len()) as i64 };
            p.after_line(s, number) matches Ok(q) && {
                &&& q.commands == p.commands.push(
                    Ok(Command::ToolDefinition(ToolDefinition { tool_number: id, diameter })),
                )
                &&& q.format == p.format
                &&& q.unit_set == p.unit_set
                &&& table::lookup(q.tools, id) == Some(diameter)
                &&& forall|k: u32|
                    k != id ==> #[trigger] table::lookup(q.tools, k) == table::lookup(p.tools, k)
            }
        }),
{
    let s = seq!['T'] + text::dec_digits(id as nat) + seq!['C'] + (whole + seq!['.'] + fraction);
    let diameter = Fixed { raw: steps(false, whole + fraction, fraction.len()) as i64 };
    lemma_definition(id, whole, fraction, p.format);
    lines::lemma_not_trimmed(s);
    reveal_with_fuel(Progress::<_>::after_all, 2);
    let rs = line::line_results::<Fixed>(s, p.format)->Ok_0;
    assert(rs.drop_last() =~= Seq::empty());
    table::lemma_inserted(p.tools, id, diameter);
}

proof fn lemma_definition(id: u32, whole: Seq<char>, fraction: Seq<char>, fmt: UnitDefinition)
    requires
        numbers::is_numeral(false, whole, fraction),
        0 < fraction.len() <= 9,
        fits(steps(false, whole + fraction, fraction.len())),
    ensures
        ({
            let s = seq!['T'] + text::dec_digits(id as nat) + seq!['C'] + (whole + seq!['.']
                + fraction);
            let diameter = Fixed { raw: steps(false, whole + fraction, fraction.len()) as i64 };
            lines::says::<Fixed>(
                s,
                Command::ToolDefinition(ToolDefinition { tool_number: id, diameter }),
                fmt,
            ) && lines::is_line(s)
        }),
{
    let d = text::dec_digits(id as nat);
    let num = whole + seq!['.'] + fraction;
    lines::lemma_number(id as nat, u32::MAX as nat);
    assert(numbers::sign(false) + whole + seq!['.'] + fraction =~= num);
    numbers::lemma_numeral(false, whole, fraction);
    lines::lemma_numeral_chars(false, whole, fraction);
    lines::lemma_definition_parts::<Fixed>(d, num, fmt);
    numbers::lemma_decimal_numeral(false, whole, fraction);
    lemma_plain_float(whole, fraction);
    assert((seq!['C'] + num).skip(1) =~= num);
}

proof fn lemma_plain_float(whole: Seq<char>, fraction: Seq<char>)
    requires
        numbers::is_numeral(false, whole, fraction),
        fraction.len() > 0,
    ensures
        line::is_float(whole + seq!['.'] + fraction),
{
    let num = whole + seq!['.'] + fraction;
    let n = whole.len() as int;
    let m = fraction.len() as int;
    assert(text::is_digit(whole[0]));
    assert(num[0] == whole[0]);
    assert(num.take(n) =~= whole);
    text::lemma_digit_run_unique(num, n);
    assert(num.skip(n).skip(1) =~= fraction);
    assert(fraction.take(m) =~= fraction);
    text::lemma_digit_run_unique(fraction, m);
    assert(num.skip(n).skip(1 + m).len() == 0);
}

/// The line is kept as an error, with its number and as it stands.
pub open spec fn refused<N: Scalar>(
    p: Progress<N>,
    line: Seq<char>,
    number: usize,
    e: ExcellonError<Seq<char>>,
) -> bool {
    p.after_line(line, number as nat) matches Ok(q) && q == (Progress {
        commands: p.commands.push(
            Err(ExcellonParseFormat { source: e, line: number, content: line }),
        ),
        ..p
    })
}

/// A line that starts with none of the characters that a command starts with is refused.
pub proof fn law_unknown_line<N: Scalar>(p: Progress<N>, s: Seq<char>, number: usize)
    requires
        lines::is_line(s),
        s[0] != ';' && s[0] != '%' && s[0] != 'F' && s[0] != 'I' && s[0] != 'M' && s[0] != 'G'
            && s[0] != 'T' && s[0] != 'X' && s[0] != 'Y',
        !s.contains('G'),
    ensures
        refused(p, s, number, ExcellonError::InvalidCmd(s)),
{
    lines::lemma_no_word(s);
    assert forall|i: int| 0 <= i < s.len() implies #[trigger] s[i] != 'G' by {
        assert(s.contains(s[i]));
    }
    lines::lemma_no_g(s);
    lines::lemma_not_trimmed(s);
}

/// `ICI` is followed by `,ON` or `,OFF`; anything else is refused.
pub proof fn law_unknown_switch<N: Scalar>(p: Progress<N>, tail: Seq<char>, number: usize)
    requires
        lines::is_line("ICI"@ + tail),
        tail != ",ON"@,
        tail != ",OFF"@,
    ensures
        refused(p, "ICI"@ + tail, number, ExcellonError::InvalidCicOption(tail)),
{
    reveal_strlit("ICI");
    reveal_strlit("%");
    reveal_strlit("FMAT,");
    let s = "ICI"@ + tail;
    assert(s != "%"@) by {
        assert(s.len() > 1 && "%"@.len() == 1);
    }
    if "FMAT,"@.is_prefix_of(s) {
        assert("FMAT,"@[0] == s[0]);
    }
    assert("ICI"@.is_prefix_of(s));
    assert(s.skip(3) =~= tail);
    lines::lemma_not_trimmed(s);
}

/// The geometric codes that there are, by their numbers.
pub open spec fn is_geometric_number(n: int) -> bool {
    ||| 0 <= n <= 5
    ||| n == 7
    ||| 40 <= n <= 42
    ||| n == 81
    ||| n == 90
    ||| n == 91
}

/// `G` and two digits that no code has are refused with the number, but for `G85`, which makes a
/// slot.
pub proof fn law_unknown_geometric<N: Scalar>(p: Progress<N>, a: char, b: char, number: usize)
    requires
        text::is_digit(a),
        text::is_digit(b),
        !is_geometric_number(10 * (a as int - 48) + (b as int - 48)),
        !(a == '8' && b == '5'),
    ensures
        refused(
            p,
            seq!['G', a, b],
            number,
            ExcellonError::InvalidGeometricCode(
                (10 * (a as int - 48) + (b as int - 48)) as u8,
            ),
        ),
{
    let s = seq!['G', a, b];
    let d = seq![a, b];
    reveal_strlit("G04");
    lines::lemma_no_word(s);
    lines::lemma_no_slot(s);
    lines::lemma_graphic_digits(d);
    lines::lemma_graphic_concat(seq!['G'], d);
    assert(s =~= seq!['G'] + d);
    lines::lemma_graphic_line(s);
    lines::lemma_not_trimmed(s);
    assert(s.skip(1) =~= d);
    assert(d.take(2) =~= d);
    text::lemma_digit_run_unique(d, 2);
    assert(s.take(3) =~= s);
    lines::lemma_two_digits(d);
    assert(text::dec_value(d) == 10 * (a as int - 48) + (b as int - 48));
}

/// What follows a number in a coordinate is another axis, or refused; a point without digits behind
/// it belongs to no number.
pub proof fn law_coordinate_tail<N: Scalar>(
    p: Progress<N>,
    letter: char,
    d: Seq<char>,
    tail: Seq<char>,
    number: usize,
)
    requires
        letter == 'X' || letter == 'Y',
        d.len() > 0,
        text::all_digits(d),
        tail.len() > 0,
        !text::is_digit(tail[0]) && tail[0] != 'Y',
        tail[0] == '.' ==> tail.len() == 1 || !text::is_digit(tail[1]),
        !tail.contains('G'),
        lines::is_line(seq![letter] + d + tail),
    ensures
        refused(
            p,
            seq![letter] + d + tail,
            number,
            ExcellonError::InvalidCoordinate(seq![letter] + d + tail),
        ),
{
    let s = seq![letter] + d + tail;
    let t = s.skip(1);
    assert(t =~= d + tail);
    assert(t.skip(0) =~= t);
    assert(t.take(d.len() as int) =~= d);
    assert(text::is_digit(d[0]));
    assert(t[0] == d[0] && t[d.len() as int] == tail[0]);
    text::lemma_digit_run_unique(t, d.len() as int);
    let behind = t.skip(d.len() as int + 1);
    assert(behind =~= tail.skip(1));
    if tail[0] == '.' {
        assert(behind.take(0) =~= Seq::<char>::empty());
        if tail.len() > 1 {
            assert(behind[0] == tail[1]);
        }
        text::lemma_digit_run_unique(behind, 0);
    }
    assert(line::value_length(t) == Some(d.len() as int));
    assert(s.skip(1 + d.len() as int) =~= tail);
    assert forall|i: int| 0 <= i < s.len() implies #[trigger] s[i] != 'G' by {
        if 1 <= i < 1 + d.len() {
            assert(text::is_digit(d[i - 1]));
        } else if i > d.len() {
            assert(tail.contains(tail[i - 1 - d.len()]));
        }
    }
    lines::lemma_no_word(s);
    lines::lemma_no_g(s);
    lines::lemma_not_trimmed(s);
}

/// A tool starts with its number; its diameter stands behind a `C`.
pub proof fn law_tool_refused<N: Scalar>(p: Progress<N>, tail: Seq<char>, number: usize)
    requires
        tail.len() > 0 ==> !text::is_digit(tail[0]),
        !tail.contains('G'),
        lines::is_line(seq!['T'] + tail),
    ensures
        refused(
            p,
            seq!['T'] + tail,
            number,
            ExcellonError::InvalidToolDefinition(seq!['T'] + tail),
        ),
{
    let s = seq!['T'] + tail;
    assert(s.skip(1) =~= tail);
    assert(tail.take(0) =~= Seq::<char>::empty());
    text::lemma_digit_run_unique(tail, 0);
    lemma_without_g(s, tail);
    lines::lemma_no_word(s);
    lines::lemma_not_trimmed(s);
}

/// A feed rate is a number.
pub proof fn law_feed_refused<N: Scalar>(p: Progress<N>, tail: Seq<char>, number: usize)
    requires
        tail.len() > 0,
        text::is_digit(tail[0]),
        !text::all_digits(tail),
        !tail.contains('G'),
        lines::is_line(seq!['F'] + tail),
    ensures
        refused(p, seq!['F'] + tail, number, ExcellonError::InvalidCmd(seq!['F'] + tail)),
{
    let s = seq!['F'] + tail;
    assert(s.skip(1) =~= tail);
    assert(s[1] == tail[0]);
    lemma_without_g(s, tail);
    lines::lemma_no_word(s);
    lines::lemma_not_trimmed(s);
}

/// The version of the format is a number of one byte.
pub proof fn law_version_refused<N: Scalar>(p: Progress<N>, tail: Seq<char>, number: usize)
    requires
        tail.len() == 0 || !text::all_digits(tail) || text::dec_value(tail) > 255,
        lines::is_line("FMAT,"@ + tail),
    ensures
        refused(p, "FMAT,"@ + tail, number, ExcellonError::InvalidVersion),
{
    reveal_strlit("FMAT,");
    reveal_strlit("%");
    let s = "FMAT,"@ + tail;
    assert(s.len() > 1 && "%"@.len() == 1);
    assert("FMAT,"@.is_prefix_of(s));
    assert(s.skip(5) =~= tail);
    lines::lemma_not_trimmed(s);
}

/// Behind the name of a unit stands nothing, or a comma.
pub proof fn law_unit_refused<N: Scalar>(p: Progress<N>, tail: Seq<char>, number: usize)
    requires
        tail.len() > 0,
        tail[0] != ',',
        lines::is_line("METRIC"@ + tail),
        lines::is_line("INCH"@ + tail),
    ensures
        refused(p, "METRIC"@ + tail, number, ExcellonError::InvalidUnitDefinition),
        refused(p, "INCH"@ + tail, number, ExcellonError::InvalidUnitDefinition),
{
    reveal_strlit("METRIC");
    reveal_strlit("INCH");
    reveal_strlit("FMAT,");
    reveal_strlit("ICI");
    reveal_strlit("%");
    reveal_strlit(",TZ");
    reveal_strlit(",LZ");
    let m = "METRIC"@ + tail;
    let i = "INCH"@ + tail;
    assert(m.len() > 1 && i.len() > 1 && "%"@.len() == 1);
    assert("METRIC"@.is_prefix_of(m) && "INCH"@.is_prefix_of(i));
    assert(m[0] == 'M' && i[0] == 'I' && i[1] == 'N');
    assert("FMAT,"@[0] == 'F' && "ICI"@[1] == 'C' && "METRIC"@[0] == 'M');
    assert(m.skip(6) =~= tail && i.skip(4) =~= tail);
    assert(",TZ"@[0] == ',' && ",LZ"@[0] == ',');
    assert(!",TZ"@.is_prefix_of(tail) && !",LZ"@.is_prefix_of(tail));
    assert(!"METRIC"@.is_prefix_of(i));
    lines::lemma_not_trimmed(m);
    lines::lemma_not_trimmed(i);
}

proof fn lemma_without_g(s: Seq<char>, tail: Seq<char>)
    requires
        s.len() > 0,
        s[0] != 'G',
        s.skip(1) == tail,
        !tail.contains('G'),
    ensures
        text::find(s, "G85"@) is None,
{
    assert forall|i: int| 0 <= i < s.len() implies #[trigger] s[i] != 'G' by {
        if i > 0 {
            assert(tail[i - 1] == s[i]);
            assert(tail.contains(tail[i - 1]));
        }
    }
    lines::lemma_no_g(s);
}

} // verus!
