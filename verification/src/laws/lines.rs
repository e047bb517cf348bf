//! Reading what was written: the commands of an Excellon file.
use crate::excellon_format::line;
use crate::excellon_format::line::LineResult;
use crate::excellon_format::parse::Progress;
use crate::excellon_format::{
    Command, CommandView, GeometricCode, MachineCode, UnitDefinition, ZeroSuppression,
};
use crate::gerber_types::Unit;
use crate::laws::numbers;
use crate::scalar::Scalar;
use crate::table;
use crate::text;
use vstd::prelude::*;

verus! {

pub open spec fn axis_held<N: Scalar>(v: Option<N>, fmt: UnitDefinition) -> bool {
    v matches Some(v) ==> numbers::format_holds(fmt, v)
}

/// The line of the command says all of it, to a reader who has got as far as `p`. A unit definition
/// has digit counts, or a decimal point and the defaults of its unit; a coordinate is written in
/// the format in force, which can hold it; a tool was defined before it is selected; the diameter
/// of a tool has three decimal places; and a comment is one line without white space at its end.
pub open spec fn restorable<N: Scalar>(c: CommandView<N>, p: Progress<N>) -> bool {
    match c {
        Command::UnitDefinition(u) => if u.decimal {
            u == (UnitDefinition { decimal: true, ..UnitDefinition::default_spec(u.unit) })
        } else {
            u.leading > 0 && u.trailing > 0
        },
        Command::Coordinate(x, y, fmt) => p.unit_set && fmt == p.format && (x is Some || y is Some)
            && axis_held(x, fmt) && axis_held(y, fmt),
        Command::Slot { from_x, from_y, to_x, to_y, fmt } => fmt == p.format && axis_held(
            from_x,
            fmt,
        ) && axis_held(from_y, fmt) && axis_held(to_x, fmt) && axis_held(to_y, fmt),
        Command::Tool(id) => table::lookup(p.tools, id) is Some,
        Command::ToolDefinition(t) => numbers::exact_text(t.diameter, 3),
        Command::Comment(s) => !s.contains('\n') && (s.len() == 0 || !text::is_space(s.last())),
        _ => true,
    }
}

/// What is known behind a command: the command, the format that it leaves, and its tool.
pub open spec fn noted<N: Scalar>(p: Progress<N>, c: CommandView<N>) -> Progress<N> {
    let q = p.pushed(Ok(c));
    match c {
        Command::UnitDefinition(unit) => Progress { format: unit, unit_set: true, ..q },
        Command::Machine(MachineCode::Scale(unit)) => Progress {
            format: UnitDefinition { unit, ..p.format },
            ..q
        },
        Command::ToolDefinition(t) => Progress {
            tools: table::inserted(p.tools, t.tool_number, t.diameter),
            ..q
        },
        _ => q,
    }
}

/// What the line of a command says of it: a coordinate is read without its format.
pub open spec fn spoken<N: Scalar>(c: CommandView<N>) -> LineResult<N, Seq<char>> {
    match c {
        Command::Coordinate(x, y, fmt) => LineResult::RawCoordinate(x, y),
        _ => LineResult::Command(c),
    }
}

/// The line says the command and nothing else.
pub open spec fn says<N: Scalar>(s: Seq<char>, c: CommandView<N>, fmt: UnitDefinition) -> bool {
    line::line_results::<N>(s, fmt) == Ok::<Seq<LineResult<N, Seq<char>>>, line::ErrorView>(
        seq![spoken(c)],
    )
}

/// A text that stands in one line, with no white space at its ends.
pub open spec fn is_line(s: Seq<char>) -> bool {
    s.len() > 0 && !text::is_space(s[0]) && !text::is_space(s.last()) && !s.contains('\n')
}

proof fn lemma_find_none(s: Seq<char>, pattern: Seq<char>)
    requires
        pattern.len() > 0,
        forall|i: int| 0 <= i <= s.len() ==> !pattern.is_prefix_of(#[trigger] s.skip(i)),
    ensures
        text::find(s, pattern) is None,
    decreases s.len(),
{
    assert(s.skip(0) =~= s);
    if s.len() > 0 {
        let t = s.skip(1);
        assert forall|i: int| 0 <= i <= t.len() implies !pattern.is_prefix_of(
            #[trigger] t.skip(i),
        ) by {
            assert(t.skip(i) =~= s.skip(i + 1));
        }
        lemma_find_none(t, pattern);
    }
}

/// No slot: no `G` stands before `85`.
pub proof fn lemma_no_slot(s: Seq<char>)
    requires
        forall|i: int|
            0 <= i < s.len() - 2 ==> !(#[trigger] s[i] == 'G' && s[i + 1] == '8' && s[i + 2] == '5'),
    ensures
        text::find(s, "G85"@) is None,
{
    reveal_strlit("G85");
    let p = "G85"@;
    assert forall|i: int| 0 <= i <= s.len() implies !p.is_prefix_of(#[trigger] s.skip(i)) by {
        if p.is_prefix_of(s.skip(i)) {
            let t = s.skip(i);
            assert(p[0] == t[0] && p[1] == t[1] && p[2] == t[2]);
            assert(s[i] == 'G' && s[i + 1] == '8' && s[i + 2] == '5');
        }
    }
    lemma_find_none(s, p);
}

/// A slot is found where no `G` stands before it.
proof fn lemma_slot_found(a: Seq<char>, b: Seq<char>)
    requires
        !a.contains('G'),
    ensures
        text::find(a + "G85"@ + b, "G85"@) == Some(a.len() as int),
    decreases a.len(),
{
    reveal_strlit("G85");
    let p = "G85"@;
    let s = a + p + b;
    if a.len() == 0 {
        assert(s =~= p + b);
        assert(p.is_prefix_of(s));
    } else {
        assert(s[0] == a[0] && a[0] != 'G');
        if p.is_prefix_of(s) {
            assert(p[0] == s[0]);
        }
        let t = a.skip(1);
        assert forall|i: int| 0 <= i < t.len() implies t[i] != 'G' by {
            assert(t[i] == a[i + 1]);
        }
        lemma_slot_found(t, b);
        assert(s.skip(1) =~= t + p + b);
    }
}

/// A text that neither starts nor ends with white space is not trimmed.
pub proof fn lemma_not_trimmed(s: Seq<char>)
    requires
        is_line(s),
    ensures
        text::trimmed(s) == s,
{
}

/// A number written in decimal is read back.
pub proof fn lemma_number(n: nat, max: nat)
    requires
        n <= max,
    ensures
        text::number(text::dec_digits(n), max) == Some(n),
        text::dec_digits(n).len() > 0,
        text::all_digits(text::dec_digits(n)),
{
    text::lemma_dec_digits(n);
}

/// A line that starts with none of the words.
pub proof fn lemma_no_word(s: Seq<char>)
    requires
        s.len() > 0,
        s[0] != '%' && s[0] != 'I',
        s[0] == 'F' || s[0] == 'M' ==> s.len() > 1 && text::is_digit(s[1]),
    ensures
        s != "%"@,
        !"FMAT,"@.is_prefix_of(s),
        !"ICI"@.is_prefix_of(s),
        !"METRIC"@.is_prefix_of(s),
        !"INCH"@.is_prefix_of(s),
{
    reveal_strlit("%");
    reveal_strlit("FMAT,");
    reveal_strlit("ICI");
    reveal_strlit("METRIC");
    reveal_strlit("INCH");
    assert("%"@[0] == '%');
    if "FMAT,"@.is_prefix_of(s) {
        assert("FMAT,"@[0] == s[0] && "FMAT,"@[1] == s[1]);
    }
    if "ICI"@.is_prefix_of(s) {
        assert("ICI"@[0] == s[0]);
    }
    if "METRIC"@.is_prefix_of(s) {
        assert("METRIC"@[0] == s[0] && "METRIC"@[1] == s[1]);
    }
    if "INCH"@.is_prefix_of(s) {
        assert("INCH"@[0] == s[0]);
    }
}

/// The number of a code with two digits.
pub proof fn lemma_two_digits(d: Seq<char>)
    requires
        d.len() == 2,
        text::is_digit(d[0]),
        text::is_digit(d[1]),
    ensures
        text::all_digits(d),
        text::dec_value(d) == 10 * text::digit_value(d[0]) + text::digit_value(d[1]),
{
    reveal_with_fuel(text::dec_value, 3);
    assert(d.drop_last() =~= seq![d[0]]);
    assert(d.drop_last().drop_last() =~= Seq::<char>::empty());
}

proof fn lemma_machine_line<N: Scalar>(m: MachineCode, fmt: UnitDefinition)
    ensures
        says::<N>(m.text_spec(), Command::Machine(m), fmt),
        is_line(m.text_spec()),
{
    reveal_strlit("M30");
    reveal_strlit("M48");
    reveal_strlit("M71");
    reveal_strlit("M72");
    reveal_strlit("M95");
    reveal_strlit("%");
    reveal_strlit("M15");
    reveal_strlit("M17");
    let s = m.text_spec();
    if m != MachineCode::RewindStop {
        lemma_no_word(s);
        lemma_no_slot(s);
        assert(s.skip(1) =~= seq![s[1], s[2]]);
        lemma_two_digits(s.skip(1));
    }
}

proof fn lemma_geometric_line<N: Scalar>(g: GeometricCode, fmt: UnitDefinition)
    ensures
        says::<N>(g.text_spec(), Command::Geometric(g), fmt),
        is_line(g.text_spec()),
{
    reveal_strlit("G00");
    reveal_strlit("G01");
    reveal_strlit("G02");
    reveal_strlit("G03");
    reveal_strlit("G04");
    reveal_strlit("G04X");
    reveal_strlit("G05");
    reveal_strlit("G07");
    reveal_strlit("G40");
    reveal_strlit("G41");
    reveal_strlit("G42");
    reveal_strlit("G81");
    reveal_strlit("G90");
    reveal_strlit("G91");
    let s = g.text_spec();
    lemma_no_word(s);
    let code = s.skip(1).take(2);
    assert(code =~= seq![s[1], s[2]]);
    lemma_two_digits(code);
    match g {
        GeometricCode::VariableDwell(time) => {
            let d = text::dec_digits(time as nat);
            lemma_number(time as nat, 65535);
            assert forall|i: int| 0 <= i < s.len() - 2 implies !(#[trigger] s[i] == 'G' && s[i + 1]
                == '8' && s[i + 2] == '5') by {
                if i >= 4 {
                    assert(text::is_digit(d[i - 4]));
                }
            }
            lemma_no_slot(s);
            assert(s.skip(1).take(2) =~= s.subrange(1, 3));
            text::lemma_digit_run_unique(s.skip(1), 2);
            assert(s.take(3) =~= "G04"@);
            assert(s.skip(1).skip(3) =~= d);
            assert(text::is_digit(d[d.len() - 1]));
            assert(s.last() == d.last());
            assert forall|i: int| 0 <= i < s.len() implies s[i] != '\n' by {
                if i >= 4 {
                    assert(text::is_digit(d[i - 4]));
                }
            }
        },
        _ => {
            lemma_no_slot(s);
            assert(s.len() == 3);
            assert(s.skip(1) =~= code);
            assert(s.skip(1).take(2) =~= code);
            text::lemma_digit_run_unique(s.skip(1), 2);
            assert(s.skip(3).len() == 0);
        },
    }
}

/// Only visible ASCII characters.
pub open spec fn graphic(s: Seq<char>) -> bool {
    forall|i: int| 0 <= i < s.len() ==> 33 <= #[trigger] s[i] as int <= 126
}

pub proof fn lemma_graphic_concat(a: Seq<char>, b: Seq<char>)
    requires
        graphic(a),
        graphic(b),
    ensures
        graphic(a + b),
{
    let s = a + b;
    assert forall|i: int| 0 <= i < s.len() implies 33 <= #[trigger] s[i] as int <= 126 by {
        if i < a.len() {
            assert(s[i] == a[i]);
        } else {
            assert(s[i] == b[i - a.len()]);
        }
    }
}

pub proof fn lemma_graphic_digits(s: Seq<char>)
    requires
        text::all_digits(s),
    ensures
        graphic(s),
        !s.contains('G'),
{
    assert forall|i: int| 0 <= i < s.len() implies 33 <= #[trigger] s[i] as int <= 126 by {
        assert(text::is_digit(s[i]));
    }
}

pub proof fn lemma_graphic_line(s: Seq<char>)
    requires
        s.len() > 0,
        graphic(s),
    ensures
        is_line(s),
{
    assert(33 <= s[0] as int <= 126);
    assert(33 <= s[s.len() - 1] as int <= 126);
    if s.contains('\n') {
        let i = choose|i: int| 0 <= i < s.len() && s[i] == '\n';
        assert(33 <= s[i] as int <= 126);
    }
}

/// Without a `G` there is no slot.
pub proof fn lemma_no_g(s: Seq<char>)
    requires
        forall|i: int| 0 <= i < s.len() ==> #[trigger] s[i] != 'G',
    ensures
        text::find(s, "G85"@) is None,
{
    lemma_no_slot(s);
}

proof fn lemma_format_line<N: Scalar>(v: u8, fmt: UnitDefinition)
    ensures
        says::<N>("FMAT,"@ + text::dec_digits(v as nat), Command::FormatCode(v), fmt),
        is_line("FMAT,"@ + text::dec_digits(v as nat)),
{
    reveal_strlit("FMAT,");
    reveal_strlit("%");
    let d = text::dec_digits(v as nat);
    let s = "FMAT,"@ + d;
    lemma_number(v as nat, 255);
    lemma_graphic_digits(d);
    lemma_graphic_concat("FMAT,"@, d);
    lemma_graphic_line(s);
    assert(s != "%"@) by {
        assert(s.len() > 1 && "%"@.len() == 1);
    }
    assert("FMAT,"@.is_prefix_of(s));
    assert(s.skip(5) =~= d);
}

proof fn lemma_incremental_line<N: Scalar>(on: bool, fmt: UnitDefinition)
    ensures
        ({
            let s = if on {
                "ICI,ON"@
            } else {
                "ICI,OFF"@
            };
            says::<N>(s, Command::Incremental(on), fmt) && is_line(s)
        }),
{
    reveal_strlit("ICI,ON");
    reveal_strlit("ICI,OFF");
    reveal_strlit("ICI");
    reveal_strlit(",ON");
    reveal_strlit(",OFF");
    reveal_strlit("%");
    reveal_strlit("FMAT,");
    let s = if on {
        "ICI,ON"@
    } else {
        "ICI,OFF"@
    };
    lemma_graphic_line(s);
    assert(s != "%"@) by {
        assert(s.len() > 1 && "%"@.len() == 1);
    }
    if "FMAT,"@.is_prefix_of(s) {
        assert("FMAT,"@[0] == s[0]);
    }
    assert("ICI"@.is_prefix_of(s));
    if on {
        assert(s.skip(3) =~= ",ON"@);
    } else {
        assert(s.skip(3) =~= ",OFF"@);
        assert(",ON"@.len() != ",OFF"@.len());
    }
}

pub open spec fn counts_text(leading: u8, trailing: u8) -> Seq<char> {
    seq![','] + text::zeros(leading as nat) + seq!['.'] + text::zeros(trailing as nat)
}

pub proof fn lemma_counts(leading: u8, trailing: u8)
    requires
        leading > 0,
        trailing > 0,
    ensures
        line::digit_counts(counts_text(leading, trailing)) == Some((leading, trailing)),
        graphic(counts_text(leading, trailing)),
        counts_text(leading, trailing).len() > 0,
{
    let a = text::zeros(leading as nat);
    let b = text::zeros(trailing as nat);
    text::lemma_zeros_value(leading as nat);
    text::lemma_zeros_value(trailing as nat);
    let s = counts_text(leading, trailing);
    let n = a.len() as int;
    assert(s.skip(1).take(n) =~= a);
    text::lemma_digit_run_unique(s.skip(1), n);
    assert(s.skip(n + 2) =~= b);
    assert(b.take(b.len() as int) =~= b);
    text::lemma_digit_run_unique(b, b.len() as int);
    assert forall|i: int| 0 <= i < s.len() implies 33 <= #[trigger] s[i] as int <= 126 by {}
}

pub open spec fn type_text(ty: ZeroSuppression) -> Seq<char> {
    seq![','] + ty.text_spec()
}

pub proof fn lemma_zero_type(ty: ZeroSuppression, rest: Seq<char>)
    ensures
        line::zero_type(type_text(ty) + rest) == (Some(ty), rest),
        graphic(type_text(ty)),
{
    reveal_strlit(",TZ");
    reveal_strlit(",LZ");
    reveal_strlit("TZ");
    reveal_strlit("LZ");
    let t = type_text(ty);
    let s = t + rest;
    if ty == ZeroSuppression::Trailing {
        assert(t =~= ",TZ"@);
        assert(",TZ"@.is_prefix_of(s));
    } else {
        assert(t =~= ",LZ"@);
        assert(",LZ"@.is_prefix_of(s));
        if ",TZ"@.is_prefix_of(s) {
            assert(",TZ"@[1] == s[1]);
        }
    }
    assert(s.skip(3) =~= rest);
}

/// A line that starts with the name of a unit.
pub proof fn lemma_unit_name<N: Scalar>(unit: Unit, rest: Seq<char>, fmt: UnitDefinition)
    ensures
        ({
            let s = UnitDefinition::unit_text(unit) + rest;
            &&& line::unit_name(s) == Some((unit, rest))
            &&& line::line_results::<N>(s, fmt) == line::only(line::unit_line::<N>(s))
        }),
        graphic(UnitDefinition::unit_text(unit)),
        UnitDefinition::unit_text(unit).len() > 0,
{
    reveal_strlit("METRIC");
    reveal_strlit("INCH");
    reveal_strlit("ICI");
    reveal_strlit("%");
    reveal_strlit("FMAT,");
    let name = UnitDefinition::unit_text(unit);
    let s = name + rest;
    assert(name.is_prefix_of(s));
    assert(s[0] == name[0] && s[1] == name[1]);
    assert(s.len() > 1 && "%"@.len() == 1);
    if "FMAT,"@.is_prefix_of(s) {
        assert("FMAT,"@[0] == s[0]);
    }
    if "ICI"@.is_prefix_of(s) {
        assert("ICI"@[1] == s[1] && "ICI"@[0] == s[0]);
    }
    if unit == Unit::Inches && "METRIC"@.is_prefix_of(s) {
        assert("METRIC"@[0] == s[0]);
    }
    assert(s.skip(name.len() as int) =~= rest);
}

proof fn lemma_unit_text(u: UnitDefinition)
    requires
        !u.decimal,
    ensures
        u.text_spec() == UnitDefinition::unit_text(u.unit) + (type_text(u.ty) + counts_text(
            u.leading,
            u.trailing,
        )),
{
    let name = UnitDefinition::unit_text(u.unit);
    let ty = u.ty.text_spec();
    let a = text::zeros(u.leading as nat);
    let b = text::zeros(u.trailing as nat);
    assert(name + seq![','] + ty + seq![','] + a + seq!['.'] + b =~= name + ((seq![','] + ty) + (
    seq![','] + a + seq!['.'] + b)));
}

proof fn lemma_unit_line<N: Scalar>(u: UnitDefinition, fmt: UnitDefinition)
    requires
        if u.decimal {
            u == (UnitDefinition { decimal: true, ..UnitDefinition::default_spec(u.unit) })
        } else {
            u.leading > 0 && u.trailing > 0
        },
    ensures
        says::<N>(u.text_spec(), Command::UnitDefinition(u), fmt),
        is_line(u.text_spec()),
{
    let s = u.text_spec();
    let name = UnitDefinition::unit_text(u.unit);
    if u.decimal {
        let none = Seq::<char>::empty();
        lemma_unit_name::<N>(u.unit, none, fmt);
        assert(s =~= name + none);
        reveal_strlit(",TZ");
        reveal_strlit(",LZ");
        assert(line::zero_type(none) == (None::<ZeroSuppression>, none));
    } else {
        let behind = counts_text(u.leading, u.trailing);
        let rest = type_text(u.ty) + behind;
        lemma_counts(u.leading, u.trailing);
        lemma_zero_type(u.ty, behind);
        lemma_unit_name::<N>(u.unit, rest, fmt);
        lemma_unit_text(u);
        lemma_graphic_concat(type_text(u.ty), behind);
        lemma_graphic_concat(name, rest);
    }
    lemma_graphic_line(s);
}

proof fn lemma_feed_line<N: Scalar>(rate: u32, fmt: UnitDefinition)
    ensures
        says::<N>(seq!['F'] + text::dec_digits(rate as nat), Command::FeedRate(rate), fmt),
        is_line(seq!['F'] + text::dec_digits(rate as nat)),
{
    let d = text::dec_digits(rate as nat);
    let s = seq!['F'] + d;
    lemma_number(rate as nat, u32::MAX as nat);
    assert(text::is_digit(d[0]));
    assert(s[1] == d[0]);
    lemma_no_word(s);
    lemma_graphic_digits(d);
    lemma_graphic_concat(seq!['F'], d);
    lemma_graphic_line(s);
    assert forall|i: int| 0 <= i < s.len() implies #[trigger] s[i] != 'G' by {
        if i > 0 {
            assert(text::is_digit(d[i - 1]));
        }
    }
    lemma_no_g(s);
    assert(s.skip(1) =~= d);
}

pub proof fn lemma_tool_line<N: Scalar>(id: u32, fmt: UnitDefinition)
    ensures
        says::<N>(seq!['T'] + text::dec_digits(id as nat), Command::Tool(id), fmt),
        is_line(seq!['T'] + text::dec_digits(id as nat)),
{
    let d = text::dec_digits(id as nat);
    let s = seq!['T'] + d;
    lemma_number(id as nat, u32::MAX as nat);
    lemma_no_word(s);
    lemma_graphic_digits(d);
    lemma_graphic_concat(seq!['T'], d);
    lemma_graphic_line(s);
    assert forall|i: int| 0 <= i < s.len() implies #[trigger] s[i] != 'G' by {
        if i > 0 {
            assert(text::is_digit(d[i - 1]));
        }
    }
    lemma_no_g(s);
    assert(s.skip(1) =~= d);
    assert(d.take(d.len() as int) =~= d);
    text::lemma_digit_run_unique(d, d.len() as int);
    assert(d.skip(d.len() as int).len() == 0);
}

proof fn lemma_comment_line<N: Scalar>(c: Seq<char>, fmt: UnitDefinition)
    requires
        !c.contains('\n'),
        c.len() == 0 || !text::is_space(c.last()),
    ensures
        says::<N>(seq![';'] + c, Command::Comment(c), fmt),
        is_line(seq![';'] + c),
{
    let s = seq![';'] + c;
    assert(s.skip(1) =~= c);
    if c.len() > 0 {
        assert(s.last() == c.last());
    }
    if s.contains('\n') {
        let i = choose|i: int| 0 <= i < s.len() && s[i] == '\n';
        assert(c[i - 1] == '\n');
    }
}

/// A numeral is visible and has no `G`.
pub proof fn lemma_numeral_chars(negative: bool, whole: Seq<char>, fraction: Seq<char>)
    requires
        numbers::is_numeral(negative, whole, fraction),
    ensures
        graphic(numbers::numeral(negative, whole, fraction)),
        !numbers::numeral(negative, whole, fraction).contains('G'),
        numbers::numeral(negative, whole, fraction).len() > 0,
{
    let s = numbers::numeral(negative, whole, fraction);
    let a = numbers::sign(negative).len() as int;
    let b = a + whole.len();
    assert forall|i: int| 0 <= i < s.len() implies 33 <= #[trigger] s[i] as int <= 126 && s[i]
        != 'G' by {
        if a <= i < b {
            assert(text::is_digit(whole[i - a]));
        } else if i > b {
            assert(text::is_digit(fraction[i - b - 1]));
        }
    }
}

/// A numeral before the next axis, or at the end, is read to its end.
pub proof fn lemma_value_length(negative: bool, whole: Seq<char>, fraction: Seq<char>, rest: Seq<char>)
    requires
        numbers::is_numeral(negative, whole, fraction),
        rest.len() == 0 || rest[0] == 'Y',
    ensures
        line::value_length(numbers::numeral(negative, whole, fraction) + rest) == Some(
            numbers::numeral(negative, whole, fraction).len() as int,
        ),
{
    let num = numbers::numeral(negative, whole, fraction);
    let s = num + rest;
    let a = numbers::sign(negative).len() as int;
    let n = whole.len() as int;
    assert(text::is_digit(whole[0]));
    assert(s[a] == whole[0]);
    assert(s.skip(a).take(n) =~= whole);
    text::lemma_digit_run_unique(s.skip(a), n);
    if fraction.len() > 0 {
        let m = fraction.len() as int;
        let t = s.skip(a + n + 1);
        assert(s[a + n] == '.');
        assert(t =~= fraction + rest);
        assert(t.take(m) =~= fraction);
        text::lemma_digit_run_unique(t, m);
    }
}

proof fn lemma_axis<N: Scalar>(letter: char, v: Option<N>, fmt: UnitDefinition, rest: Seq<char>)
    requires
        axis_held(v, fmt),
        letter == 'X' || letter == 'Y',
        rest.len() == 0 || (letter == 'X' && rest[0] == 'Y'),
    ensures
        ({
            let t = crate::excellon_format::write::axis_text(letter, v, fmt);
            &&& line::axis(t + rest, letter).1 == rest
            &&& line::axis_value::<N>(line::axis(t + rest, letter).0, fmt) == v
            &&& graphic(t)
            &&& !t.contains('G')
            &&& t.len() > 0 <==> v is Some
            &&& t.len() > 0 ==> t[0] == letter
        }),
{
    let t = crate::excellon_format::write::axis_text(letter, v, fmt);
    let s = t + rest;
    match v {
        None => {
            assert(s =~= rest);
        },
        Some(x) => {
            let (negative, whole, fraction) = numbers::lemma_serialized(fmt, x);
            let num = numbers::numeral(negative, whole, fraction);
            lemma_numeral_chars(negative, whole, fraction);
            lemma_value_length(negative, whole, fraction, rest);
            assert(s.skip(1) =~= num + rest);
            assert(s.subrange(1, 1 + num.len() as int) =~= num);
            assert(s.skip(1 + num.len() as int) =~= rest);
            lemma_graphic_concat(seq![letter], num);
            assert forall|i: int| 0 <= i < t.len() implies t[i] != 'G' by {
                if i > 0 {
                    assert(t[i] == num[i - 1]);
                }
            }
        },
    }
}

/// A pair of coordinates is read back.
proof fn lemma_pair<N: Scalar>(x: Option<N>, y: Option<N>, fmt: UnitDefinition)
    requires
        axis_held(x, fmt),
        axis_held(y, fmt),
    ensures
        ({
            let s = crate::excellon_format::write::axis_text('X', x, fmt)
                + crate::excellon_format::write::axis_text('Y', y, fmt);
            &&& line::xy::<N>(s, fmt) == Ok::<(Option<N>, Option<N>), line::ErrorView>(
                (x, y),
            )
            &&& graphic(s)
            &&& !s.contains('G')
            &&& s.len() > 0 <==> x is Some || y is Some
            &&& s.len() > 0 ==> s[0] == 'X' || s[0] == 'Y'
        }),
{
    let a = crate::excellon_format::write::axis_text('X', x, fmt);
    let b = crate::excellon_format::write::axis_text('Y', y, fmt);
    let s = a + b;
    let none = Seq::<char>::empty();
    lemma_axis('Y', y, fmt, none);
    assert(b + none =~= b);
    lemma_axis('X', x, fmt, b);
    lemma_graphic_concat(a, b);
    assert forall|i: int| 0 <= i < s.len() implies s[i] != 'G' by {
        if i < a.len() {
            assert(s[i] == a[i]);
        } else {
            assert(s[i] == b[i - a.len()]);
        }
    }
}

proof fn lemma_coordinate_line<N: Scalar>(x: Option<N>, y: Option<N>, fmt: UnitDefinition)
    requires
        axis_held(x, fmt),
        axis_held(y, fmt),
        x is Some || y is Some,
    ensures
        ({
            let c = Command::Coordinate(x, y, fmt);
            let s = crate::excellon_format::write::command_body::<N>(c);
            says::<N>(s, c, fmt) && is_line(s)
        }),
{
    let s = crate::excellon_format::write::axis_text('X', x, fmt)
        + crate::excellon_format::write::axis_text('Y', y, fmt);
    lemma_pair(x, y, fmt);
    lemma_no_word(s);
    lemma_no_g(s);
    lemma_graphic_line(s);
}

/// A line with a slot reads the pairs on both sides of `G85`.
pub proof fn lemma_slot_sides<N: Scalar>(a: Seq<char>, b: Seq<char>, fmt: UnitDefinition)
    requires
        graphic(a),
        graphic(b),
        !a.contains('G'),
        a.len() > 0 ==> a[0] == 'X' || a[0] == 'Y',
    ensures
        line::line_results::<N>(a + "G85"@ + b, fmt) == line::only(
            line::slot::<N>(a, b, fmt),
        ),
        is_line(a + "G85"@ + b),
{
    reveal_strlit("G85");
    let s = a + "G85"@ + b;
    lemma_slot_found(a, b);
    assert(s[0] == 'X' || s[0] == 'Y' || s[0] == 'G') by {
        if a.len() > 0 {
            assert(s[0] == a[0]);
        }
    }
    lemma_no_word(s);
    assert(s.take(a.len() as int) =~= a);
    assert(s.skip(a.len() as int + 3) =~= b);
    lemma_graphic_concat(a, "G85"@);
    lemma_graphic_concat(a + "G85"@, b);
    lemma_graphic_line(s);
}

proof fn lemma_slot_text<N: Scalar>(
    from_x: Option<N>,
    from_y: Option<N>,
    to_x: Option<N>,
    to_y: Option<N>,
    fmt: UnitDefinition,
)
    ensures
        crate::excellon_format::write::command_body::<N>(
            Command::Slot { from_x, from_y, to_x, to_y, fmt },
        ) == (crate::excellon_format::write::axis_text('X', from_x, fmt)
            + crate::excellon_format::write::axis_text('Y', from_y, fmt)) + "G85"@ + (
        crate::excellon_format::write::axis_text('X', to_x, fmt)
            + crate::excellon_format::write::axis_text('Y', to_y, fmt)),
{
    let a = crate::excellon_format::write::axis_text('X', from_x, fmt);
    let b = crate::excellon_format::write::axis_text('Y', from_y, fmt);
    let c = crate::excellon_format::write::axis_text('X', to_x, fmt);
    let d = crate::excellon_format::write::axis_text('Y', to_y, fmt);
    assert(a + b + "G85"@ + c + d =~= (a + b) + "G85"@ + (c + d));
}

proof fn lemma_slot_line<N: Scalar>(
    from_x: Option<N>,
    from_y: Option<N>,
    to_x: Option<N>,
    to_y: Option<N>,
    fmt: UnitDefinition,
)
    requires
        axis_held(from_x, fmt),
        axis_held(from_y, fmt),
        axis_held(to_x, fmt),
        axis_held(to_y, fmt),
    ensures
        ({
            let c = Command::Slot { from_x, from_y, to_x, to_y, fmt };
            let s = crate::excellon_format::write::command_body::<N>(c);
            says::<N>(s, c, fmt) && is_line(s)
        }),
{
    let a = crate::excellon_format::write::axis_text('X', from_x, fmt)
        + crate::excellon_format::write::axis_text('Y', from_y, fmt);
    let b = crate::excellon_format::write::axis_text('X', to_x, fmt)
        + crate::excellon_format::write::axis_text('Y', to_y, fmt);
    lemma_pair(from_x, from_y, fmt);
    lemma_pair(to_x, to_y, fmt);
    lemma_slot_sides::<N>(a, b, fmt);
    lemma_slot_text(from_x, from_y, to_x, to_y, fmt);
}

/// A line with a tool and its diameter.
pub proof fn lemma_definition_parts<N: Scalar>(d: Seq<char>, num: Seq<char>, fmt: UnitDefinition)
    requires
        text::all_digits(d),
        graphic(num),
        !num.contains('G'),
    ensures
        ({
            let s = seq!['T'] + d + seq!['C'] + num;
            &&& line::line_results::<N>(s, fmt) == line::only(
                line::tool::<N>(s.skip(1), s),
            )
            &&& text::digit_run(s.skip(1)) == d.len()
            &&& s.skip(1).take(d.len() as int) == d
            &&& s.skip(1).skip(d.len() as int) == seq!['C'] + num
            &&& is_line(s)
        }),
{
    let s = seq!['T'] + d + seq!['C'] + num;
    lemma_no_word(s);
    lemma_graphic_digits(d);
    lemma_graphic_concat(seq!['T'], d);
    lemma_graphic_concat(seq!['T'] + d, seq!['C']);
    lemma_graphic_concat(seq!['T'] + d + seq!['C'], num);
    lemma_graphic_line(s);
    assert forall|i: int| 0 <= i < s.len() implies #[trigger] s[i] != 'G' by {
        if 0 < i <= d.len() {
            assert(text::is_digit(d[i - 1]));
        } else if i > d.len() + 1 {
            assert(s[i] == num[i - d.len() - 2]);
        }
    }
    lemma_no_g(s);
    let tail = s.skip(1);
    let n = d.len() as int;
    assert(tail.take(n) =~= d);
    text::lemma_digit_run_unique(tail, n);
    assert(tail.skip(n) =~= seq!['C'] + num);
}

#[verifier::rlimit(40)]
proof fn lemma_definition_line<N: Scalar>(id: u32, diameter: N, fmt: UnitDefinition)
    requires
        numbers::exact_text(diameter, 3),
    ensures
        ({
            let c = Command::ToolDefinition(
                crate::excellon_format::ToolDefinition { tool_number: id, diameter },
            );
            let s = crate::excellon_format::write::command_body::<N>(c);
            says::<N>(s, c, fmt) && is_line(s)
        }),
{
    let d = text::dec_digits(id as nat);
    lemma_number(id as nat, u32::MAX as nat);
    let (negative, whole, fraction) = lemma_diameter(diameter);
    let num = numbers::numeral(negative, whole, fraction);
    lemma_numeral_chars(negative, whole, fraction);
    lemma_definition_parts::<N>(d, num, fmt);
    assert((seq!['C'] + num).skip(1) =~= num);
}

/// The text of a diameter is a numeral in the notation of floating-point literals.
proof fn lemma_diameter<N: Scalar>(x: N) -> (parts: (bool, Seq<char>, Seq<char>))
    requires
        numbers::exact_text(x, 3),
    ensures
        numbers::is_numeral(parts.0, parts.1, parts.2),
        x.text_spec(3) == numbers::numeral(parts.0, parts.1, parts.2),
        line::is_float(x.text_spec(3)),
        N::parsed_spec(x.text_spec(3), 0) == Some(x),
{
    let (negative, whole, fraction) = choose|
        negative: bool,
        whole: Seq<char>,
        fraction: Seq<char>,
    | #[trigger] numbers::writes_as(x, 3, negative, whole, fraction);
    numbers::lemma_numeral(negative, whole, fraction);
    assert(fraction.skip(3) =~= text::zeros(0));
    assert(fraction.take(3) =~= fraction);
    assert(N::parsed_spec(numbers::numeral(negative, whole, fraction.take(3)), 0) == Some(x));
    let s = x.text_spec(3);
    let a = numbers::sign(negative).len() as int;
    let t = s.skip(a);
    let n = whole.len() as int;
    assert(t =~= whole + (seq!['.'] + fraction));
    assert(text::is_digit(whole[0]));
    assert(t[0] == whole[0]);
    assert(t.take(n) =~= whole);
    text::lemma_digit_run_unique(t, n);
    assert(t.skip(n).skip(1) =~= fraction);
    text::lemma_digit_run_unique(fraction, 3);
    assert(t.skip(n).skip(4int).len() == 0);
    assert(line::is_unsigned_float(t));
    if !negative {
        assert(t =~= s);
    } else {
        assert(s[0] == '-');
    }
    (negative, whole, fraction)
}

proof fn lemma_says<N: Scalar>(c: CommandView<N>, p: Progress<N>)
    requires
        restorable(c, p),
    ensures
        says::<N>(crate::excellon_format::write::command_body(c), c, p.format),
        is_line(crate::excellon_format::write::command_body(c)),
{
    match c {
        Command::FormatCode(v) => lemma_format_line::<N>(v, p.format),
        Command::Incremental(on) => lemma_incremental_line::<N>(on, p.format),
        Command::UnitDefinition(u) => lemma_unit_line::<N>(u, p.format),
        Command::Geometric(g) => lemma_geometric_line::<N>(g, p.format),
        Command::Machine(m) => lemma_machine_line::<N>(m, p.format),
        Command::Coordinate(x, y, fmt) => lemma_coordinate_line(x, y, fmt),
        Command::Tool(id) => lemma_tool_line::<N>(id, p.format),
        Command::ToolDefinition(t) => lemma_definition_line(t.tool_number, t.diameter, p.format),
        Command::Comment(s) => lemma_comment_line::<N>(s, p.format),
        Command::FeedRate(rate) => lemma_feed_line::<N>(rate, p.format),
        Command::Slot { from_x, from_y, to_x, to_y, fmt } => {
            lemma_slot_line(from_x, from_y, to_x, to_y, fmt)
        },
    }
}

/// The line of a command is read back as that command.
pub proof fn law_command_read_back<N: Scalar>(c: CommandView<N>, p: Progress<N>, number: nat)
    requires
        restorable(c, p),
    ensures
        p.after_line(crate::excellon_format::write::command_body(c), number) == Ok::<
            Progress<N>,
            line::ErrorView,
        >(noted(p, c)),
        is_line(crate::excellon_format::write::command_body(c)),
{
    let s = crate::excellon_format::write::command_body(c);
    lemma_says(c, p);
    lemma_not_trimmed(s);
    let rs = seq![spoken(c)];
    assert(rs.drop_last() =~= Seq::empty());
    reveal_with_fuel(Progress::<_>::after_all, 2);
    assert(p.after_all(rs, number, s) == p.after(spoken(c), number, s));
}

} // verus!
