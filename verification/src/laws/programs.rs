//! Reading what was written: drill files that were read before.
use crate::excellon_format::line;
use crate::excellon_format::line::{ErrorView, LineResult};
use crate::excellon_format::parse;
use crate::excellon_format::parse::Progress;
use crate::excellon_format::{
    Command, CommandView, EntryView, ExcellonView, MachineCode, UnitDefinition,
};
use crate::laws::drills::{law_parsed_tools_defined, lemma_header_length_bound};
use crate::laws::files;
use crate::laws::files::law_file_read_back;
use crate::laws::lines;
use crate::laws::numbers;
use crate::scalar::Scalar;
use crate::table;
use crate::text;
use vstd::prelude::*;

verus! {

pub open spec fn without_errors<N: Scalar>(s: Seq<EntryView<N>>) -> bool {
    forall|i: int| 0 <= i < s.len() ==> #[trigger] s[i] is Ok
}

/// The commands among entries without errors.
pub open spec fn understood<N: Scalar>(s: Seq<EntryView<N>>) -> Seq<CommandView<N>> {
    s.map_values(|e: EntryView<N>| e->Ok_0)
}

pub open spec fn is_one_line(s: Seq<char>) -> bool {
    !s.contains('\n') && (s.len() == 0 || !text::is_space(s.last()))
}

/// A unit definition with a decimal point has the defaults of its unit.
pub open spec fn is_usual(u: UnitDefinition) -> bool {
    u.decimal ==> u == (UnitDefinition { decimal: true, ..UnitDefinition::default_spec(u.unit) })
}

/// What holds of a command that was read behind `p`.
pub open spec fn read_behind<N: Scalar>(c: CommandView<N>, p: Progress<N>) -> bool {
    match c {
        Command::UnitDefinition(u) => is_usual(u),
        Command::Coordinate(_, _, fmt) => p.unit_set && fmt == p.format,
        Command::Slot { fmt, .. } => fmt == p.format,
        Command::Tool(id) => table::lookup(p.tools, id) is Some,
        Command::Comment(s) => is_one_line(s),
        _ => true,
    }
}

pub open spec fn all_read_behind<N: Scalar>(
    before: Seq<CommandView<N>>,
    cs: Seq<CommandView<N>>,
) -> bool {
    forall|i: int|
        0 <= i < cs.len() ==> #[trigger] read_behind(cs[i], files::replayed(before + cs.take(i)))
}

/// A reader that met no error knows what its commands say, and no more.
pub open spec fn follows<N: Scalar>(p: Progress<N>) -> bool {
    without_errors(p.commands) ==> {
        &&& p == files::replayed(understood(p.commands))
        &&& all_read_behind(Seq::empty(), understood(p.commands))
    }
}

proof fn lemma_noted<N: Scalar>(p: Progress<N>, c: CommandView<N>)
    requires
        follows(p),
        read_behind(c, p),
    ensures
        follows(lines::noted(p, c)),
{
    let q = lines::noted(p, c);
    let none = Seq::<CommandView<N>>::empty();
    if without_errors(q.commands) {
        assert forall|i: int| 0 <= i < p.commands.len() implies #[trigger] p.commands[i] is Ok by {
            assert(q.commands[i] == p.commands[i]);
        }
        let cs = understood(p.commands);
        let ds = understood(q.commands);
        assert(ds =~= cs.push(c));
        assert(ds.drop_last() =~= cs);
        assert forall|i: int| 0 <= i < ds.len() implies #[trigger] read_behind(
            ds[i],
            files::replayed(none + ds.take(i)),
        ) by {
            if i < cs.len() {
                assert(read_behind(cs[i], files::replayed(none + cs.take(i))));
                assert(ds.take(i) =~= cs.take(i));
            } else {
                assert(none + ds.take(i) =~= cs);
            }
        }
    }
}

proof fn lemma_failed<N: Scalar>(p: Progress<N>, e: EntryView<N>)
    requires
        e is Err,
    ensures
        follows(p.pushed(e)),
{
    let q = p.pushed(e);
    assert(q.commands[p.commands.len() as int] == e);
}

/// What holds of what a line says in the format `fmt`.
pub open spec fn said<N: Scalar>(r: LineResult<N, Seq<char>>, fmt: UnitDefinition) -> bool {
    r matches LineResult::Command(c) ==> match c {
        Command::UnitDefinition(u) => is_usual(u),
        Command::Coordinate(_, _, _) => false,
        Command::Slot { fmt: f, .. } => f == fmt,
        Command::Comment(s) => is_one_line(s),
        _ => true,
    }
}

proof fn lemma_line_said<N: Scalar>(content: Seq<char>, fmt: UnitDefinition)
    requires
        is_one_line(content),
    ensures
        line::line_results::<N>(content, fmt) matches Ok(rs) ==> {
            ||| rs.len() == 1 && said(rs[0], fmt)
            ||| rs.len() == 2 && (rs[0] matches LineResult::Command(Command::Geometric(_)))
                && rs[1] is RawCoordinate
        },
{
    if content.len() > 0 && content[0] == ';' {
        let s = content.skip(1);
        assert forall|i: int| 0 <= i < s.len() implies s[i] != '\n' by {
            assert(s[i] == content[i + 1]);
        }
    }
}

proof fn lemma_after_follows<N: Scalar>(
    p: Progress<N>,
    r: LineResult<N, Seq<char>>,
    n: nat,
    content: Seq<char>,
)
    requires
        follows(p),
        said(r, p.format),
    ensures
        p.after(r, n, content) matches Ok(q) ==> follows(q),
{
    match r {
        LineResult::Command(c) => {
            if c matches Command::Tool(id) && table::lookup(p.tools, id) is None {
            } else {
                lemma_noted(p, c);
                assert(p.after(r, n, content) == Ok::<Progress<N>, ErrorView>(lines::noted(p, c)));
            }
        },
        LineResult::RawCoordinate(x, y) => {
            if p.unit_set {
                lemma_noted(p, Command::Coordinate(x, y, p.format));
            } else {
                lemma_failed(p, p.after(r, n, content)->Ok_0.commands.last());
            }
        },
    }
}

proof fn lemma_trimmed_line(raw: Seq<char>)
    requires
        !raw.contains('\n'),
    ensures
        is_one_line(text::trimmed(raw)),
{
    lemma_trim_start_line(raw);
    lemma_trim_end_line(text::trim_start(raw));
}

proof fn lemma_trim_start_line(s: Seq<char>)
    requires
        !s.contains('\n'),
    ensures
        !text::trim_start(s).contains('\n'),
    decreases s.len(),
{
    if s.len() > 0 && text::is_space(s[0]) {
        let t = s.skip(1);
        assert forall|i: int| 0 <= i < t.len() implies t[i] != '\n' by {
            assert(t[i] == s[i + 1]);
        }
        lemma_trim_start_line(t);
    }
}

proof fn lemma_trim_end_line(s: Seq<char>)
    requires
        !s.contains('\n'),
    ensures
        is_one_line(text::trim_end(s)),
    decreases s.len(),
{
    if s.len() > 0 && text::is_space(s.last()) {
        let t = s.drop_last();
        assert forall|i: int| 0 <= i < t.len() implies t[i] != '\n' by {
            assert(t[i] == s[i]);
        }
        lemma_trim_end_line(t);
    }
}

proof fn lemma_lines_single(s: Seq<char>)
    ensures
        forall|i: int|
            0 <= i < text::lines(s).len() ==> !(#[trigger] text::lines(s)[i]).contains('\n'),
    decreases s.len(),
{
    text::lemma_lines_nonempty(s);
    if s.len() > 0 {
        let d = s.drop_last();
        lemma_lines_single(d);
        text::lemma_lines_nonempty(d);
        let rest = text::lines(d);
        let all = text::lines(s);
        assert forall|i: int| 0 <= i < all.len() implies !(#[trigger] all[i]).contains('\n') by {
            if i < all.len() - 1 {
                assert(all[i] == rest[i]);
            } else if s.last() != '\n' {
                let l = rest[rest.len() - 1];
                assert(all[i] == l.push(s.last()));
                assert forall|j: int| 0 <= j < all[i].len() implies all[i][j] != '\n' by {
                    if j < l.len() {
                        assert(all[i][j] == l[j]);
                    }
                }
            }
        }
    }
}

proof fn lemma_lines_follow<N: Scalar>(ls: Seq<Seq<char>>)
    requires
        forall|i: int| 0 <= i < ls.len() ==> !(#[trigger] ls[i]).contains('\n'),
    ensures
        parse::after_lines::<N>(ls) matches Ok(p) ==> follows(p),
    decreases ls.len(),
{
    if ls.len() == 0 {
        let p = Progress::<N>::start();
        assert(understood(p.commands) =~= Seq::empty());
    } else {
        let d = ls.drop_last();
        assert forall|i: int| 0 <= i < d.len() implies !(#[trigger] d[i]).contains('\n') by {
            assert(d[i] == ls[i]);
        }
        lemma_lines_follow::<N>(d);
        assert(!ls[ls.len() - 1].contains('\n'));
        lemma_trimmed_line(ls.last());
        if let Ok(p) = parse::after_lines::<N>(d) {
            let n = (ls.len() - 1) as nat;
            let content = text::trimmed(ls.last());
            lemma_line_said::<N>(content, p.format);
            match line::line_results::<N>(content, p.format) {
                Ok(rs) => {
                    reveal_with_fuel(Progress::after_all, 3);
                    lemma_after_follows(p, rs[0], n, content);
                    if rs.len() == 2 {
                        assert(rs.drop_last()[0] == rs[0]);
                        if let Ok(q) = p.after(rs[0], n, content) {
                            lemma_after_follows(q, rs[1], n, content);
                        }
                    }
                },
                Err(source) => {
                    if content.len() > 0 {
                        let q = p.after_line(ls.last(), n)->Ok_0;
                        lemma_failed(p, q.commands.last());
                    }
                },
            }
        }
    }
}

/// The text of the command says all of it. A coordinate has an axis, and the format can hold it; a
/// unit definition has digits on both sides of the point; and a diameter has three decimal places.
pub open spec fn exact<N: Scalar>(c: CommandView<N>) -> bool {
    match c {
        Command::UnitDefinition(u) => u.decimal || (u.leading > 0 && u.trailing > 0),
        Command::Coordinate(x, y, fmt) => (x is Some || y is Some) && lines::axis_held(x, fmt)
            && lines::axis_held(y, fmt),
        Command::Slot { from_x, from_y, to_x, to_y, fmt } => lines::axis_held(from_x, fmt)
            && lines::axis_held(from_y, fmt) && lines::axis_held(to_x, fmt) && lines::axis_held(
            to_y,
            fmt,
        ),
        Command::ToolDefinition(t) => numbers::exact_text(t.diameter, 3),
        _ => true,
    }
}

/// The entry of a header can be written before the tools.
pub open spec fn exact_in_header<N: Scalar>(e: EntryView<N>) -> bool {
    e matches Ok(c) && !(c is Tool) && (c is ToolDefinition || exact(c))
}

pub open spec fn exact_entry<N: Scalar>(e: EntryView<N>) -> bool {
    e matches Ok(c) && exact(c)
}

/// The layer was read without errors, and its text says all of it.
pub open spec fn exact_layer<N: Scalar>(v: ExcellonView<N>) -> bool {
    &&& forall|i: int| 0 <= i < v.header.len() ==> exact_in_header(#[trigger] v.header[i])
    &&& forall|i: int| 0 <= i < v.commands.len() ==> exact_entry(#[trigger] v.commands[i])
    &&& forall|i: int| 0 <= i < v.tools.len() ==> numbers::exact_text((#[trigger] v.tools[i]).1, 3)
}

/// Two readers expect coordinates in the same format.
pub open spec fn same_format<N: Scalar>(p: Progress<N>, q: Progress<N>) -> bool {
    p.format == q.format && p.unit_set == q.unit_set
}

proof fn lemma_push_restorable<N: Scalar>(cs: Seq<CommandView<N>>, c: CommandView<N>)
    requires
        files::all_restorable(cs),
        lines::restorable(c, files::replayed(cs)),
    ensures
        files::all_restorable(cs.push(c)),
        files::replayed(cs.push(c)) == lines::noted(files::replayed(cs), c),
{
    let s = cs.push(c);
    assert(s.drop_last() =~= cs);
    assert forall|i: int| 0 <= i < s.len() implies #[trigger] lines::restorable(
        s[i],
        files::replayed(s.take(i)),
    ) by {
        if i < cs.len() {
            assert(lines::restorable(cs[i], files::replayed(cs.take(i))));
            assert(s.take(i) =~= cs.take(i));
        } else {
            assert(s.take(i) =~= cs);
        }
    }
}

proof fn lemma_header_restorable<N: Scalar>(header: Seq<EntryView<N>>)
    requires
        forall|i: int| 0 <= i < header.len() ==> exact_in_header(#[trigger] header[i]),
        all_read_behind(Seq::empty(), understood(header)),
    ensures
        files::all_restorable(files::header_commands(header)),
        same_format(
            files::replayed(files::header_commands(header)),
            files::replayed(understood(header)),
        ),
    decreases header.len(),
{
    let none = Seq::<CommandView<N>>::empty();
    if header.len() == 0 {
        assert(understood(header) =~= none);
    } else {
        let d = header.drop_last();
        let cs = understood(header);
        assert(understood(d) =~= cs.drop_last());
        assert forall|i: int| 0 <= i < d.len() implies exact_in_header(#[trigger] d[i]) by {
            assert(d[i] == header[i]);
        }
        assert forall|i: int| 0 <= i < understood(d).len() implies #[trigger] read_behind(
            understood(d)[i],
            files::replayed(none + understood(d).take(i)),
        ) by {
            assert(read_behind(cs[i], files::replayed(none + cs.take(i))));
            assert(understood(d).take(i) =~= cs.take(i));
        }
        lemma_header_restorable(d);
        let n = header.len() - 1;
        assert(exact_in_header(header[n]));
        assert(read_behind(cs[n], files::replayed(none + cs.take(n))));
        assert(none + cs.take(n) =~= cs.drop_last());
        let c = header.last()->Ok_0;
        assert(cs.last() == c);
        if files::stays_in_header(c) {
            lemma_push_restorable(files::header_commands(d), c);
        }
    }
}

/// Tools with three decimal places, and the end of the header.
pub open spec fn ends_a_header<N: Scalar>(c: CommandView<N>) -> bool {
    match c {
        Command::ToolDefinition(t) => numbers::exact_text(t.diameter, 3),
        Command::Machine(m) => m == MachineCode::HeaderEnd || m == MachineCode::RewindStop,
        _ => false,
    }
}

proof fn lemma_ends_restorable<N: Scalar>(a: Seq<CommandView<N>>, b: Seq<CommandView<N>>)
    requires
        files::all_restorable(a),
        forall|i: int| 0 <= i < b.len() ==> ends_a_header(#[trigger] b[i]),
    ensures
        files::all_restorable(a + b),
        same_format(files::replayed(a + b), files::replayed(a)),
    decreases b.len(),
{
    if b.len() == 0 {
        assert(a + b =~= a);
    } else {
        let d = b.drop_last();
        assert forall|i: int| 0 <= i < d.len() implies ends_a_header(#[trigger] d[i]) by {
            assert(d[i] == b[i]);
        }
        lemma_ends_restorable(a, d);
        assert(ends_a_header(b[b.len() - 1]));
        lemma_push_restorable(a + d, b.last());
        assert((a + d).push(b.last()) =~= a + b);
    }
}

/// The diameter that the commands give the tool last.
pub open spec fn last_defined<N: Scalar>(cs: Seq<CommandView<N>>, k: u32) -> Option<N>
    decreases cs.len(),
{
    if cs.len() == 0 {
        None
    } else {
        match cs.last() {
            Command::ToolDefinition(t) => if t.tool_number == k {
                Some(t.diameter)
            } else {
                last_defined(cs.drop_last(), k)
            },
            _ => last_defined(cs.drop_last(), k),
        }
    }
}

proof fn lemma_defined<N: Scalar>(tools: Seq<(u32, N)>, cs: Seq<CommandView<N>>)
    requires
        table::ordered(tools),
    ensures
        table::ordered(files::defined(tools, cs)),
        forall|k: u32|
            #[trigger] table::lookup(files::defined(tools, cs), k) == match last_defined(cs, k) {
                Some(d) => Some(d),
                None => table::lookup(tools, k),
            },
    decreases cs.len(),
{
    if cs.len() > 0 {
        let d = cs.drop_last();
        lemma_defined(tools, d);
        if let Command::ToolDefinition(t) = cs.last() {
            table::lemma_inserted(files::defined(tools, d), t.tool_number, t.diameter);
        }
    }
}

/// Commands that define tools a second time change nothing.
proof fn lemma_defined_twice<N: Scalar>(tools: Seq<(u32, N)>, cs: Seq<CommandView<N>>)
    requires
        table::ordered(tools),
    ensures
        files::defined(files::defined(tools, cs), cs) == files::defined(tools, cs),
{
    let once = files::defined(tools, cs);
    lemma_defined(tools, cs);
    lemma_defined(once, cs);
    let twice = files::defined(once, cs);
    assert forall|k: u32| #[trigger] table::lookup(twice, k) == table::lookup(once, k) by {}
    table::lemma_equal(twice, once);
}

proof fn lemma_body_restorable<N: Scalar>(
    header: Seq<CommandView<N>>,
    settled: Seq<CommandView<N>>,
    body: Seq<CommandView<N>>,
)
    requires
        files::all_restorable(settled),
        same_format(files::replayed(settled), files::replayed(header)),
        table::ordered(files::replayed(settled).tools),
        all_read_behind(header, body),
        forall|i: int| 0 <= i < body.len() ==> exact(#[trigger] body[i]),
        forall|i: int|
            0 <= i < body.len() ==> (#[trigger] body[i] matches Command::Tool(id) ==> table::lookup(
                files::replayed(settled).tools,
                id,
            ) is Some),
    ensures
        files::all_restorable(settled + body),
        same_format(files::replayed(settled + body), files::replayed(header + body)),
    decreases body.len(),
{
    if body.len() == 0 {
        assert(settled + body =~= settled);
        assert(header + body =~= header);
    } else {
        let d = body.drop_last();
        let c = body.last();
        let n = body.len() - 1;
        assert forall|i: int| 0 <= i < d.len() implies #[trigger] read_behind(
            d[i],
            files::replayed(header + d.take(i)),
        ) by {
            assert(read_behind(body[i], files::replayed(header + body.take(i))));
            assert(d.take(i) =~= body.take(i));
        }
        assert forall|i: int| 0 <= i < d.len() implies exact(#[trigger] d[i]) by {
            assert(d[i] == body[i]);
        }
        assert forall|i: int| 0 <= i < d.len() implies (#[trigger] d[i] matches Command::Tool(id)
            ==> table::lookup(files::replayed(settled).tools, id) is Some) by {
            assert(d[i] == body[i]);
        }
        lemma_body_restorable(header, settled, d);
        assert(exact(body[n]));
        assert(read_behind(body[n], files::replayed(header + body.take(n))));
        assert(body.take(n) =~= d);
        files::lemma_replayed_tools(settled, d);
        lemma_defined(files::replayed(settled).tools, d);
        if let Command::Tool(id) = body[n] {
            assert(table::lookup(files::replayed(settled + d).tools, id) is Some);
        }
        lemma_push_restorable(settled + d, c);
        assert((settled + d).push(c) =~= settled + body);
        assert((header + body).drop_last() =~= header + d);
        assert((header + body).last() == c);
    }
}

proof fn lemma_first_kept<N: Scalar>(header: Seq<EntryView<N>>)
    requires
        without_errors(header),
        parse::first_significant(header) matches Some(Ok(Command::Machine(MachineCode::HeaderStart))),
    ensures
        parse::first_significant(files::accepted(files::header_commands(header)))
            == parse::first_significant(header),
    decreases header.len(),
{
    let one = header.take(1);
    let rest = header.skip(1);
    assert(header =~= one + rest);
    files::lemma_header_commands_concat(one, rest);
    let a = files::header_commands(one);
    let b = files::header_commands(rest);
    assert(header[0] is Ok);
    let c = header[0]->Ok_0;
    assert(one.last() == header[0]);
    let none = Seq::<EntryView<N>>::empty();
    assert(one.drop_last() =~= none);
    assert(files::header_commands(none) =~= Seq::empty());
    assert(a =~= seq![c]);
    let all = files::accepted(a + b);
    assert(all[0] == header[0]);
    assert(all.skip(1) =~= files::accepted(b));
    if parse::is_comment(header[0]) {
        assert forall|i: int| 0 <= i < rest.len() implies #[trigger] rest[i] is Ok by {
            assert(rest[i] == header[i + 1]);
        }
        lemma_first_kept(rest);
    }
}

proof fn lemma_first_found<N: Scalar>(s: Seq<EntryView<N>>)
    requires
        s.len() > 0,
        !parse::is_comment(s.last()),
    ensures
        parse::first_significant(s) is Some,
    decreases s.len(),
{
    if parse::is_comment(s[0]) {
        assert(s.len() > 1);
        assert(s.skip(1).last() == s.last());
        lemma_first_found(s.skip(1));
    }
}

proof fn lemma_last_before<N: Scalar>(a: Seq<EntryView<N>>, b: Seq<EntryView<N>>)
    requires
        parse::last_significant(b) is None,
    ensures
        parse::last_significant(a + b) == parse::last_significant(a),
    decreases b.len(),
{
    if b.len() == 0 {
        assert(a + b =~= a);
    } else {
        assert((a + b).last() == b.last());
        assert((a + b).drop_last() =~= a + b.drop_last());
        lemma_last_before(a, b.drop_last());
    }
}

proof fn lemma_unit_concat<N: Scalar>(a: Seq<EntryView<N>>, b: Seq<EntryView<N>>)
    ensures
        parse::declared_unit(a + b) == match parse::declared_unit(a) {
            Some(u) => Some(u),
            None => parse::declared_unit(b),
        },
    decreases a.len(),
{
    if a.len() == 0 {
        assert(a + b =~= b);
    } else {
        assert((a + b)[0] == a[0]);
        assert((a + b).skip(1) =~= a.skip(1) + b);
        lemma_unit_concat(a.skip(1), b);
    }
}

proof fn lemma_unit_kept<N: Scalar>(header: Seq<EntryView<N>>)
    ensures
        parse::declared_unit(files::accepted(files::header_commands(header)))
            == parse::declared_unit(header),
    decreases header.len(),
{
    if header.len() > 0 {
        let d = header.drop_last();
        let before = files::header_commands(d);
        let last = seq![header.last()];
        lemma_unit_kept(d);
        lemma_unit_concat(d, last);
        assert(d + last =~= header);
        let none = Seq::<EntryView<N>>::empty();
        assert(last.skip(1) =~= none);
        assert(parse::declared_unit(none) is None);
        if let Ok(c) = header.last() {
            if files::stays_in_header(c) {
                lemma_unit_concat(files::accepted(before), last);
                assert(files::accepted(before) + last =~= files::accepted(before.push(c)));
            }
        }
    }
}

proof fn lemma_no_unit<N: Scalar>(cs: Seq<CommandView<N>>)
    requires
        forall|i: int| 0 <= i < cs.len() ==> ends_a_header(#[trigger] cs[i]),
    ensures
        parse::declared_unit(files::accepted(cs)) is None,
    decreases cs.len(),
{
    if cs.len() > 0 {
        let t = cs.skip(1);
        assert forall|i: int| 0 <= i < t.len() implies ends_a_header(#[trigger] t[i]) by {
            assert(t[i] == cs[i + 1]);
        }
        lemma_no_unit(t);
        assert(ends_a_header(cs[0]));
        assert(files::accepted(cs).skip(1) =~= files::accepted(t));
    }
}

proof fn lemma_understood<N: Scalar>(s: Seq<EntryView<N>>)
    requires
        forall|i: int| 0 <= i < s.len() ==> exact_entry(#[trigger] s[i]),
    ensures
        files::body_commands(s) == understood(s),
        files::accepted(understood(s)) == s,
        forall|i: int| 0 <= i < s.len() ==> exact(#[trigger] understood(s)[i]),
{
    let cs = understood(s);
    assert forall|i: int| 0 <= i < cs.len() implies files::has_line(#[trigger] cs[i]) && exact(
        cs[i],
    ) by {
        assert(exact_entry(s[i]));
    }
    assert(files::accepted(cs) =~= s) by {
        assert forall|i: int| 0 <= i < s.len() implies files::accepted(cs)[i] == s[i] by {
            assert(exact_entry(s[i]));
        }
    }
    files::lemma_body_commands_kept(cs);
}

/// The end of the header stands where it was found.
proof fn lemma_header_end<N: Scalar>(s: Seq<EntryView<N>>)
    requires
        parse::header_length(s) < s.len(),
    ensures
        parse::ends_header(s[parse::header_length(s) as int]),
    decreases s.len(),
{
    if s.len() > 0 && !parse::ends_header(s[0]) {
        lemma_header_end(s.skip(1));
        assert(s.skip(1)[parse::header_length(s.skip(1)) as int] == s[parse::header_length(
            s,
        ) as int]);
    }
}

/// What is known of a layer that was read without errors.
proof fn lemma_parsed<N: Scalar>(text: Seq<char>, v: ExcellonView<N>)
    requires
        parse::parsed_layer::<N>(text) == Ok::<ExcellonView<N>, ErrorView>(v),
        exact_layer(v),
    ensures
        v.header.len() > 0,
        without_errors(v.header),
        parse::first_significant(v.header) matches Some(
            Ok(Command::Machine(MachineCode::HeaderStart)),
        ),
        parse::last_significant(v.commands) matches Some(
            Ok(Command::Machine(MachineCode::EndOfProgram)),
        ),
        v.unit == (match parse::declared_unit(v.header) {
            Some(u) => u,
            None => UnitDefinition::default_spec(crate::gerber_types::Unit::Inches),
        }),
        v.tools == files::replayed(understood(v.header) + understood(v.commands)).tools,
        all_read_behind(Seq::empty(), understood(v.header)),
        all_read_behind(understood(v.header), understood(v.commands)),
{
    let none = Seq::<CommandView<N>>::empty();
    lemma_lines_single(text);
    lemma_lines_follow::<N>(text::lines(text));
    let p = parse::after_lines::<N>(text::lines(text))->Ok_0;
    let s = p.commands;
    let n = parse::header_length(s) as int;
    lemma_header_length_bound(s);
    lemma_header_end(s);
    assert(s =~= v.header + v.commands);
    assert forall|i: int| 0 <= i < s.len() implies #[trigger] s[i] is Ok by {
        if i <= n {
            assert(exact_in_header(v.header[i]));
        } else {
            assert(exact_entry(v.commands[i - n - 1]));
        }
    }
    assert forall|i: int| 0 <= i < v.header.len() implies #[trigger] v.header[i] is Ok by {
        assert(exact_in_header(v.header[i]));
    }
    let cs = understood(s);
    let h = understood(v.header);
    let b = understood(v.commands);
    assert(cs =~= h + b);
    assert forall|i: int| 0 <= i < h.len() implies #[trigger] read_behind(
        h[i],
        files::replayed(none + h.take(i)),
    ) by {
        assert(read_behind(cs[i], files::replayed(none + cs.take(i))));
        assert(cs.take(i) =~= h.take(i));
    }
    assert forall|i: int| 0 <= i < b.len() implies #[trigger] read_behind(
        b[i],
        files::replayed(h + b.take(i)),
    ) by {
        let j = h.len() + i;
        assert(read_behind(cs[j], files::replayed(none + cs.take(j))));
        assert(none + cs.take(j) =~= h + b.take(i));
    }
    assert(v.header.last() == s[n]);
    lemma_first_found(v.header);
    files::lemma_first_significant(v.header, v.commands);
    if parse::last_significant(v.commands) is None {
        lemma_last_before(v.header, v.commands);
        assert(parse::last_significant(v.header) == Some(v.header.last()));
    } else {
        files::lemma_last_significant(v.header, v.commands);
    }
}

/// The settled header of a layer that was read is restored, and defines its tools.
proof fn lemma_settled_header<N: Scalar>(v: ExcellonView<N>)
    requires
        exact_layer(v),
        table::ordered(v.tools),
        all_read_behind(Seq::empty(), understood(v.header)),
    ensures
        files::all_restorable(files::settled_header(v)),
        same_format(
            files::replayed(files::settled_header(v)),
            files::replayed(understood(v.header)),
        ),
        files::replayed(files::settled_header(v)).tools == v.tools,
        parse::declared_unit(files::accepted(files::settled_header(v))) == parse::declared_unit(
            v.header,
        ),
{
    let none = Seq::<CommandView<N>>::empty();
    let h = files::header_commands(v.header);
    let t = files::tool_commands(v.tools);
    let mark: CommandView<N> = Command::Machine(
        crate::excellon_format::write::header_mark(v.header),
    );
    let ends = t.push(mark);
    lemma_header_restorable(v.header);
    files::lemma_mark(v.header);
    assert forall|i: int| 0 <= i < ends.len() implies ends_a_header(#[trigger] ends[i]) by {
        if i < t.len() {
            assert(numbers::exact_text(v.tools[i].1, 3));
        }
    }
    lemma_ends_restorable(h, ends);
    assert(h + ends =~= files::settled_header(v));
    files::lemma_header_commands_stay(v.header);
    files::lemma_replayed_tools(none, h);
    assert(none + h =~= h);
    assert forall|i: int| 0 <= i < h.len() implies !(#[trigger] h[i] is ToolDefinition) by {
        assert(files::stays_in_header(h[i]));
    }
    files::lemma_defined_none(Seq::empty(), h);
    files::lemma_replayed_tools(h, t);
    files::lemma_defined_all(v.tools);
    files::lemma_replayed_tools(h + t, seq![mark]);
    files::lemma_defined_none(v.tools, seq![mark]);
    assert(h + t + seq![mark] =~= files::settled_header(v));
    lemma_unit_kept(v.header);
    lemma_no_unit(ends);
    lemma_unit_concat(files::accepted(h), files::accepted(ends));
    assert(files::accepted(h) + files::accepted(ends) =~= files::accepted(
        files::settled_header(v),
    ));
}

/// A drill file that was read without errors can be written and read again: the commands of its
/// body, its tools and its unit are the same.
pub proof fn law_parsed_read_back<N: Scalar>(text: Seq<char>)
    ensures
        parse::parsed_layer::<N>(text) matches Ok(v) ==> exact_layer(v)
            ==> match parse::parsed_layer::<N>(crate::excellon_format::write::layer_text(v)) {
            Ok(w) => w.commands == v.commands && w.tools == v.tools && w.unit == v.unit,
            Err(_) => false,
        },
{
    if let Ok(v) = parse::parsed_layer::<N>(text) {
        if exact_layer(v) {
            let none = Seq::<CommandView<N>>::empty();
            let h = understood(v.header);
            let b = understood(v.commands);
            law_parsed_tools_defined::<N>(text);
            lemma_parsed(text, v);
            lemma_understood(v.commands);
            lemma_first_kept(v.header);
            lemma_settled_header(v);
            assert forall|i: int| 0 <= i < b.len() implies (#[trigger] b[i] matches Command::Tool(id)
                ==> table::lookup(v.tools, id) is Some) by {
                assert(exact_entry(v.commands[i]));
            }
            lemma_body_restorable(h, files::settled_header(v), b);
            law_file_read_back(v);
            files::lemma_replayed_tools(none, h);
            assert(none + h =~= h);
            lemma_defined::<N>(Seq::empty(), h);
            files::lemma_replayed_tools(h, b);
            lemma_defined_twice(files::replayed(h).tools, b);
        }
    }
}

} // verus!
