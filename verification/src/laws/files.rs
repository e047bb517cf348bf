//! Reading what was written: whole Excellon files.
use crate::excellon_format::line::ErrorView;
use crate::excellon_format::parse;
use crate::excellon_format::parse::Progress;
use crate::excellon_format::{
    Command, CommandView, EntryView, ExcellonView, MachineCode, ToolDefinition, UnitDefinition,
};
use crate::gerber_types::Unit;
use crate::laws::lines;
use crate::laws::lines::law_command_read_back;
use crate::scalar::Scalar;
use crate::table;
use crate::text;
use vstd::prelude::*;

verus! {

/// What is known behind the commands of a file.
pub open spec fn replayed<N: Scalar>(cs: Seq<CommandView<N>>) -> Progress<N>
    decreases cs.len(),
{
    if cs.len() == 0 {
        Progress::start()
    } else {
        lines::noted(replayed(cs.drop_last()), cs.last())
    }
}

/// Every command can be read back where it stands.
pub open spec fn all_restorable<N: Scalar>(cs: Seq<CommandView<N>>) -> bool {
    forall|i: int| 0 <= i < cs.len() ==> #[trigger] lines::restorable(cs[i], replayed(cs.take(i)))
}

/// The lines of the commands.
pub open spec fn bodies<N: Scalar>(cs: Seq<CommandView<N>>) -> Seq<Seq<char>> {
    cs.map_values(|c: CommandView<N>| crate::excellon_format::write::command_body(c))
}

/// The commands, each on a line of its own.
pub open spec fn stream_text<N: Scalar>(cs: Seq<CommandView<N>>) -> Seq<char>
    decreases cs.len(),
{
    if cs.len() == 0 {
        Seq::empty()
    } else {
        stream_text(cs.drop_last()) + crate::excellon_format::write::command_body(cs.last()).push(
            '\n',
        )
    }
}

pub open spec fn accepted<N: Scalar>(cs: Seq<CommandView<N>>) -> Seq<EntryView<N>> {
    cs.map_values(|c: CommandView<N>| Ok(c))
}

/// Text without the end of a line goes to the last line.
proof fn lemma_lines_extended(s: Seq<char>, b: Seq<char>)
    requires
        !b.contains('\n'),
    ensures
        text::lines(s).len() > 0,
        text::lines(s + b) == text::lines(s).drop_last().push(text::lines(s).last() + b),
    decreases b.len(),
{
    text::lemma_lines_nonempty(s);
    let all = text::lines(s);
    if b.len() == 0 {
        assert(s + b =~= s);
        assert(all.last() + b =~= all.last());
        assert(all =~= all.drop_last().push(all.last()));
    } else {
        let t = b.drop_last();
        assert forall|i: int| 0 <= i < t.len() implies t[i] != '\n' by {
            assert(t[i] == b[i]);
        }
        lemma_lines_extended(s, t);
        assert(b[b.len() - 1] != '\n');
        assert((s + b).drop_last() =~= s + t);
        assert((s + b).last() == b.last());
        let before = all.drop_last().push(all.last() + t);
        assert(before.drop_last() =~= all.drop_last());
        assert((all.last() + t).push(b.last()) =~= all.last() + b);
    }
}

proof fn lemma_prefix_restorable<N: Scalar>(cs: Seq<CommandView<N>>)
    requires
        cs.len() > 0,
        all_restorable(cs),
    ensures
        all_restorable(cs.drop_last()),
        lines::restorable(cs.last(), replayed(cs.drop_last())),
{
    let n = cs.len() - 1;
    assert(lines::restorable(cs[n], replayed(cs.take(n))));
    assert(cs.take(n) =~= cs.drop_last());
    let d = cs.drop_last();
    assert forall|i: int| 0 <= i < d.len() implies #[trigger] lines::restorable(
        d[i],
        replayed(d.take(i)),
    ) by {
        assert(lines::restorable(cs[i], replayed(cs.take(i))));
        assert(d.take(i) =~= cs.take(i));
    }
}

/// The lines of a written file are the commands, and an empty one.
proof fn lemma_stream_lines<N: Scalar>(cs: Seq<CommandView<N>>)
    requires
        all_restorable(cs),
    ensures
        text::lines(stream_text(cs)) == bodies(cs).push(Seq::empty()),
        parse::after_lines::<N>(bodies(cs)) == Ok::<Progress<N>, ErrorView>(replayed(cs)),
    decreases cs.len(),
{
    let none = Seq::<char>::empty();
    if cs.len() == 0 {
        assert(bodies(cs) =~= Seq::<Seq<char>>::empty());
        assert(bodies(cs).push(none) =~= seq![none]);
    } else {
        let d = cs.drop_last();
        let c = cs.last();
        let body = crate::excellon_format::write::command_body(c);
        lemma_prefix_restorable(cs);
        lemma_stream_lines(d);
        law_command_read_back(c, replayed(d), d.len());
        let s = stream_text(d);
        lemma_lines_extended(s, body);
        assert(stream_text(cs) =~= (s + body).push('\n'));
        assert((s + body).push('\n').drop_last() =~= s + body);
        assert(bodies(d).push(none).drop_last() =~= bodies(d));
        assert(none + body =~= body);
        assert(text::lines(s + body) =~= bodies(d).push(body));
        assert(bodies(cs) =~= bodies(d).push(body));
        assert(bodies(cs).drop_last() =~= bodies(d));
    }
}

/// Commands that are written one to a line are read back.
pub proof fn law_stream_read_back<N: Scalar>(cs: Seq<CommandView<N>>)
    requires
        all_restorable(cs),
    ensures
        parse::after_lines::<N>(text::lines(stream_text(cs))) == Ok::<
            Progress<N>,
            ErrorView,
        >(replayed(cs)),
{
    lemma_stream_lines(cs);
    let none = Seq::<char>::empty();
    let all = bodies(cs).push(none);
    assert(all.drop_last() =~= bodies(cs));
    assert(text::trimmed(none) =~= none);
}

/// The command is written at all: a coordinate without both axes is not.
pub open spec fn has_line<N: Scalar>(c: CommandView<N>) -> bool {
    !(c matches Command::Coordinate(None, None, _))
}

/// The command stays where it is in the header: a tool definition and the end of the header do not.
pub open spec fn stays_in_header<N: Scalar>(c: CommandView<N>) -> bool {
    &&& has_line(c)
    &&& !(c is ToolDefinition)
    &&& c != Command::<N, Seq<char>>::Machine(MachineCode::HeaderEnd)
    &&& c != Command::<N, Seq<char>>::Machine(MachineCode::RewindStop)
}

/// The commands of the header that stay where they are.
pub open spec fn header_commands<N: Scalar>(header: Seq<EntryView<N>>) -> Seq<CommandView<N>>
    decreases header.len(),
{
    if header.len() == 0 {
        Seq::empty()
    } else {
        let before = header_commands(header.drop_last());
        match header.last() {
            Ok(c) => if stays_in_header(c) {
                before.push(c)
            } else {
                before
            },
            Err(_) => before,
        }
    }
}

/// The commands of the body that are written.
pub open spec fn body_commands<N: Scalar>(commands: Seq<EntryView<N>>) -> Seq<CommandView<N>>
    decreases commands.len(),
{
    if commands.len() == 0 {
        Seq::empty()
    } else {
        let before = body_commands(commands.drop_last());
        match commands.last() {
            Ok(c) => if has_line(c) {
                before.push(c)
            } else {
                before
            },
            Err(_) => before,
        }
    }
}

pub open spec fn tool_commands<N: Scalar>(tools: Seq<(u32, N)>) -> Seq<CommandView<N>> {
    tools.map_values(
        |t: (u32, N)|
            Command::ToolDefinition(ToolDefinition { tool_number: t.0, diameter: t.1 }),
    )
}

/// The header as it is written: its commands, the tools, and its end.
pub open spec fn settled_header<N: Scalar>(v: ExcellonView<N>) -> Seq<CommandView<N>> {
    header_commands(v.header) + tool_commands(v.tools) + seq![
        Command::Machine(crate::excellon_format::write::header_mark(v.header)),
    ]
}

/// The commands of a written file.
pub open spec fn written<N: Scalar>(v: ExcellonView<N>) -> Seq<CommandView<N>> {
    settled_header(v) + body_commands(v.commands)
}

/// The tools behind the commands, with `tools` before them.
pub open spec fn defined<N: Scalar>(tools: Seq<(u32, N)>, cs: Seq<CommandView<N>>) -> Seq<(u32, N)>
    decreases cs.len(),
{
    if cs.len() == 0 {
        tools
    } else {
        let before = defined(tools, cs.drop_last());
        match cs.last() {
            Command::ToolDefinition(t) => table::inserted(before, t.tool_number, t.diameter),
            _ => before,
        }
    }
}

/// The layer that a written file describes: what cannot be written is gone, the tools stand at the
/// end of the header in the order of their numbers, and the header has one end.
pub open spec fn settled<N: Scalar>(v: ExcellonView<N>) -> ExcellonView<N> {
    let header = accepted(settled_header(v));
    ExcellonView {
        header,
        commands: accepted(body_commands(v.commands)),
        unit: match parse::declared_unit(header) {
            Some(u) => u,
            None => UnitDefinition::default_spec(Unit::Inches),
        },
        tools: defined(v.tools, body_commands(v.commands)),
    }
}

proof fn lemma_stream_concat<N: Scalar>(a: Seq<CommandView<N>>, b: Seq<CommandView<N>>)
    ensures
        stream_text(a + b) == stream_text(a) + stream_text(b),
    decreases b.len(),
{
    if b.len() == 0 {
        assert(a + b =~= a);
        assert(stream_text(a) + stream_text(b) =~= stream_text(a));
    } else {
        lemma_stream_concat(a, b.drop_last());
        assert((a + b).drop_last() =~= a + b.drop_last());
        assert((a + b).last() == b.last());
        let l = crate::excellon_format::write::command_body(b.last()).push('\n');
        assert(stream_text(a) + stream_text(b.drop_last()) + l =~= stream_text(a) + (stream_text(
            b.drop_last(),
        ) + l));
    }
}

proof fn lemma_stream_push<N: Scalar>(a: Seq<CommandView<N>>, c: CommandView<N>)
    ensures
        stream_text(a.push(c)) == stream_text(a)
            + crate::excellon_format::write::command_body(c).push('\n'),
{
    assert(a.push(c).drop_last() =~= a);
}

proof fn lemma_header_text<N: Scalar>(header: Seq<EntryView<N>>)
    ensures
        crate::excellon_format::write::header_text(header) == stream_text(header_commands(header)),
    decreases header.len(),
{
    if header.len() > 0 {
        lemma_header_text(header.drop_last());
        let before = header_commands(header.drop_last());
        let e = header.last();
        let added = crate::excellon_format::write::header_entry_text(e);
        match e {
            Ok(c) => {
                if stays_in_header(c) {
                    lemma_stream_push(before, c);
                } else {
                    assert(stream_text(before) + added =~= stream_text(before));
                }
            },
            Err(_) => {
                assert(stream_text(before) + added =~= stream_text(before));
            },
        }
    }
}

proof fn lemma_body_text<N: Scalar>(commands: Seq<EntryView<N>>)
    ensures
        crate::excellon_format::write::body_text(commands) == stream_text(body_commands(commands)),
    decreases commands.len(),
{
    if commands.len() > 0 {
        lemma_body_text(commands.drop_last());
        let before = body_commands(commands.drop_last());
        let none = Seq::<char>::empty();
        match commands.last() {
            Ok(c) => {
                if has_line(c) {
                    lemma_stream_push(before, c);
                } else {
                    assert(stream_text(before) + none =~= stream_text(before));
                }
            },
            Err(_) => {
                assert(stream_text(before) + none =~= stream_text(before));
            },
        }
    }
}

proof fn lemma_tools_text<N: Scalar>(tools: Seq<(u32, N)>)
    ensures
        crate::excellon_format::write::tools_text(tools) == stream_text(tool_commands(tools)),
    decreases tools.len(),
{
    if tools.len() > 0 {
        let d = tools.drop_last();
        lemma_tools_text(d);
        let c = tool_commands(tools).last();
        lemma_stream_push(tool_commands(d), c);
        assert(tool_commands(tools) =~= tool_commands(d).push(c));
    }
}

/// A file is written as the lines of its commands.
pub proof fn lemma_written<N: Scalar>(v: ExcellonView<N>)
    ensures
        crate::excellon_format::write::layer_text(v) == stream_text(written(v)),
{
    let h = header_commands(v.header);
    let t = tool_commands(v.tools);
    let mark: CommandView<N> = Command::Machine(
        crate::excellon_format::write::header_mark(v.header),
    );
    let b = body_commands(v.commands);
    lemma_header_text(v.header);
    lemma_tools_text(v.tools);
    lemma_body_text(v.commands);
    lemma_stream_concat(h, t);
    lemma_stream_push(h + t, mark);
    assert((h + t).push(mark) =~= settled_header(v));
    lemma_stream_concat(settled_header(v), b);
}

proof fn lemma_replayed_commands<N: Scalar>(cs: Seq<CommandView<N>>)
    ensures
        replayed(cs).commands == accepted(cs),
    decreases cs.len(),
{
    if cs.len() > 0 {
        lemma_replayed_commands(cs.drop_last());
        assert(accepted(cs) =~= accepted(cs.drop_last()).push(Ok(cs.last())));
    } else {
        assert(accepted(cs) =~= Seq::empty());
    }
}

pub proof fn lemma_replayed_tools<N: Scalar>(a: Seq<CommandView<N>>, b: Seq<CommandView<N>>)
    ensures
        replayed(a + b).tools == defined(replayed(a).tools, b),
    decreases b.len(),
{
    if b.len() == 0 {
        assert(a + b =~= a);
    } else {
        lemma_replayed_tools(a, b.drop_last());
        assert((a + b).drop_last() =~= a + b.drop_last());
        assert((a + b).last() == b.last());
    }
}

/// No tool is defined by commands that define none.
pub proof fn lemma_defined_none<N: Scalar>(tools: Seq<(u32, N)>, cs: Seq<CommandView<N>>)
    requires
        forall|i: int| 0 <= i < cs.len() ==> !(#[trigger] cs[i] is ToolDefinition),
    ensures
        defined(tools, cs) == tools,
    decreases cs.len(),
{
    if cs.len() > 0 {
        assert(!(cs[cs.len() - 1] is ToolDefinition));
        let d = cs.drop_last();
        assert forall|i: int| 0 <= i < d.len() implies !(#[trigger] d[i] is ToolDefinition) by {
            assert(!(cs[i] is ToolDefinition));
        }
        lemma_defined_none(tools, d);
    }
}

/// Tools that are defined in the order of their numbers come out as they are.
pub proof fn lemma_defined_all<N: Scalar>(tools: Seq<(u32, N)>)
    requires
        table::ordered(tools),
    ensures
        defined(Seq::empty(), tool_commands(tools)) == tools,
    decreases tools.len(),
{
    let none = Seq::<(u32, N)>::empty();
    if tools.len() == 0 {
        assert(tools =~= none);
    } else {
        let d = tools.drop_last();
        let (k, v) = tools.last();
        assert forall|i: int, j: int| 0 <= i < j < d.len() implies table::Key::rank_spec(
            (#[trigger] d[i]).0,
        ) < table::Key::rank_spec((#[trigger] d[j]).0) by {
            assert(d[i] == tools[i] && d[j] == tools[j]);
        }
        lemma_defined_all(d);
        assert(tool_commands(tools).drop_last() =~= tool_commands(d));
        assert forall|i: int| 0 <= i < d.len() implies table::Key::rank_spec((#[trigger] d[i]).0)
            < table::Key::rank_spec(k) by {
            assert(d[i] == tools[i]);
            assert(tools[i].0 < tools[tools.len() - 1].0);
        }
        table::lemma_place_unique(d, k, d.len() as int);
        assert(d.insert(d.len() as int, (k, v)) =~= tools);
    }
}

pub proof fn lemma_header_commands_stay<N: Scalar>(header: Seq<EntryView<N>>)
    ensures
        forall|i: int|
            0 <= i < header_commands(header).len() ==> stays_in_header(
                #[trigger] header_commands(header)[i],
            ),
    decreases header.len(),
{
    if header.len() > 0 {
        lemma_header_commands_stay(header.drop_last());
        let before = header_commands(header.drop_last());
        let s = header_commands(header);
        assert forall|i: int| 0 <= i < s.len() implies stays_in_header(#[trigger] s[i]) by {
            if i < before.len() {
                assert(s[i] == before[i]);
            }
        }
    }
}

proof fn lemma_header_length<N: Scalar>(a: Seq<EntryView<N>>, mark: EntryView<N>, b: Seq<EntryView<N>>)
    requires
        forall|i: int| 0 <= i < a.len() ==> !parse::ends_header(#[trigger] a[i]),
        parse::ends_header(mark),
    ensures
        parse::header_length(a.push(mark) + b) == a.len(),
    decreases a.len(),
{
    let s = a.push(mark) + b;
    if a.len() == 0 {
        assert(s[0] == mark);
    } else {
        assert(s[0] == a[0]);
        let t = a.skip(1);
        assert forall|i: int| 0 <= i < t.len() implies !parse::ends_header(#[trigger] t[i]) by {
            assert(t[i] == a[i + 1]);
        }
        lemma_header_length(t, mark, b);
        assert(s.skip(1) =~= t.push(mark) + b);
    }
}

pub proof fn lemma_first_significant<N: Scalar>(a: Seq<EntryView<N>>, b: Seq<EntryView<N>>)
    requires
        parse::first_significant(a) is Some,
    ensures
        parse::first_significant(a + b) == parse::first_significant(a),
    decreases a.len(),
{
    assert((a + b)[0] == a[0]);
    if parse::is_comment(a[0]) {
        lemma_first_significant(a.skip(1), b);
        assert((a + b).skip(1) =~= a.skip(1) + b);
    }
}

pub proof fn lemma_last_significant<N: Scalar>(a: Seq<EntryView<N>>, b: Seq<EntryView<N>>)
    requires
        parse::last_significant(b) is Some,
    ensures
        parse::last_significant(a + b) == parse::last_significant(b),
    decreases b.len(),
{
    assert((a + b).last() == b.last());
    if parse::is_comment(b.last()) {
        lemma_last_significant(a, b.drop_last());
        assert((a + b).drop_last() =~= a + b.drop_last());
    }
}

/// The layer starts with the start of its header and ends with the end of the program, comments
/// aside.
pub open spec fn is_program<N: Scalar>(v: ExcellonView<N>) -> bool {
    &&& parse::first_significant(accepted(header_commands(v.header))) == Some(
        Ok::<_, crate::excellon_format::ExcellonParseFormat<Seq<char>>>(
            Command::<N, Seq<char>>::Machine(MachineCode::HeaderStart),
        ),
    )
    &&& parse::last_significant(accepted(body_commands(v.commands))) == Some(
        Ok::<_, crate::excellon_format::ExcellonParseFormat<Seq<char>>>(
            Command::<N, Seq<char>>::Machine(MachineCode::EndOfProgram),
        ),
    )
}

pub proof fn lemma_mark<N: Scalar>(header: Seq<EntryView<N>>)
    ensures
        crate::excellon_format::write::header_mark(header) == MachineCode::HeaderEnd
            || crate::excellon_format::write::header_mark(header) == MachineCode::RewindStop,
    decreases header.len(),
{
    if header.len() > 0 {
        lemma_mark(header.drop_last());
    }
}

/// A program whose commands can each be read back where they are written is read back as a whole.
pub proof fn law_file_read_back<N: Scalar>(v: ExcellonView<N>)
    requires
        table::ordered(v.tools),
        is_program(v),
        all_restorable(written(v)),
    ensures
        parse::parsed_layer::<N>(crate::excellon_format::write::layer_text(v)) == Ok::<
            ExcellonView<N>,
            ErrorView,
        >(settled(v)),
{
    lemma_written(v);
    law_stream_read_back(written(v));
    let h = header_commands(v.header);
    let t = tool_commands(v.tools);
    let mark: CommandView<N> = Command::Machine(
        crate::excellon_format::write::header_mark(v.header),
    );
    let b = body_commands(v.commands);
    let p = replayed(written(v));
    let all = accepted(written(v));
    lemma_replayed_commands(written(v));
    lemma_mark(v.header);
    lemma_header_commands_stay(v.header);
    let front = accepted(h + t);
    assert forall|i: int| 0 <= i < front.len() implies !parse::ends_header(#[trigger] front[i]) by {
        if i < h.len() {
            assert(stays_in_header(h[i]));
        }
    }
    lemma_header_length(front, Ok(mark), accepted(b));
    assert(all =~= front.push(Ok(mark)) + accepted(b));
    assert(all =~= accepted(h) + accepted(t.push(mark) + b));
    lemma_first_significant(accepted(h), accepted(t.push(mark) + b));
    assert(all =~= accepted(settled_header(v)) + accepted(b));
    lemma_last_significant(accepted(settled_header(v)), accepted(b));
    let n = front.len() as int;
    assert(all.take(n + 1) =~= accepted(settled_header(v)));
    assert(all.skip(n + 1) =~= accepted(b));
    assert(p.tools == settled(v).tools) by {
        let none = Seq::<CommandView<N>>::empty();
        lemma_replayed_tools(none, h);
        assert(none + h =~= h);
        lemma_defined_none(Seq::empty(), h);
        lemma_replayed_tools(h, t);
        lemma_defined_all(v.tools);
        lemma_replayed_tools(h + t, seq![mark]);
        lemma_defined_none(v.tools, seq![mark]);
        lemma_replayed_tools(settled_header(v), b);
    }
}

pub proof fn lemma_header_commands_concat<N: Scalar>(a: Seq<EntryView<N>>, b: Seq<EntryView<N>>)
    ensures
        header_commands(a + b) == header_commands(a) + header_commands(b),
    decreases b.len(),
{
    if b.len() == 0 {
        assert(a + b =~= a);
        assert(header_commands(a) + header_commands(b) =~= header_commands(a));
    } else {
        lemma_header_commands_concat(a, b.drop_last());
        assert((a + b).drop_last() =~= a + b.drop_last());
        assert((a + b).last() == b.last());
        let x = header_commands(a);
        let y = header_commands(b.drop_last());
        match b.last() {
            Ok(c) => {
                if stays_in_header(c) {
                    assert((x + y).push(c) =~= x + y.push(c));
                }
            },
            Err(_) => {},
        }
    }
}

proof fn lemma_header_commands_kept<N: Scalar>(cs: Seq<CommandView<N>>)
    requires
        forall|i: int| 0 <= i < cs.len() ==> stays_in_header(#[trigger] cs[i]),
    ensures
        header_commands(accepted(cs)) == cs,
    decreases cs.len(),
{
    if cs.len() > 0 {
        let d = cs.drop_last();
        assert forall|i: int| 0 <= i < d.len() implies stays_in_header(#[trigger] d[i]) by {
            assert(d[i] == cs[i]);
        }
        lemma_header_commands_kept(d);
        assert(accepted(cs).drop_last() =~= accepted(d));
        assert(stays_in_header(cs[cs.len() - 1]));
        assert(d.push(cs.last()) =~= cs);
    } else {
        assert(header_commands(accepted(cs)) =~= cs);
    }
}

proof fn lemma_header_commands_dropped<N: Scalar>(cs: Seq<CommandView<N>>)
    requires
        forall|i: int| 0 <= i < cs.len() ==> !stays_in_header(#[trigger] cs[i]),
    ensures
        header_commands(accepted(cs)) == Seq::<CommandView<N>>::empty(),
    decreases cs.len(),
{
    if cs.len() > 0 {
        let d = cs.drop_last();
        assert forall|i: int| 0 <= i < d.len() implies !stays_in_header(#[trigger] d[i]) by {
            assert(d[i] == cs[i]);
        }
        lemma_header_commands_dropped(d);
        assert(accepted(cs).drop_last() =~= accepted(d));
        assert(!stays_in_header(cs[cs.len() - 1]));
    }
}

proof fn lemma_body_commands_stay<N: Scalar>(commands: Seq<EntryView<N>>)
    ensures
        forall|i: int|
            0 <= i < body_commands(commands).len() ==> has_line(
                #[trigger] body_commands(commands)[i],
            ),
    decreases commands.len(),
{
    if commands.len() > 0 {
        lemma_body_commands_stay(commands.drop_last());
        let before = body_commands(commands.drop_last());
        let s = body_commands(commands);
        assert forall|i: int| 0 <= i < s.len() implies has_line(#[trigger] s[i]) by {
            if i < before.len() {
                assert(s[i] == before[i]);
            }
        }
    }
}

pub proof fn lemma_body_commands_kept<N: Scalar>(cs: Seq<CommandView<N>>)
    requires
        forall|i: int| 0 <= i < cs.len() ==> has_line(#[trigger] cs[i]),
    ensures
        body_commands(accepted(cs)) == cs,
    decreases cs.len(),
{
    if cs.len() > 0 {
        let d = cs.drop_last();
        assert forall|i: int| 0 <= i < d.len() implies has_line(#[trigger] d[i]) by {
            assert(d[i] == cs[i]);
        }
        lemma_body_commands_kept(d);
        assert(accepted(cs).drop_last() =~= accepted(d));
        assert(has_line(cs[cs.len() - 1]));
        assert(d.push(cs.last()) =~= cs);
    } else {
        assert(body_commands(accepted(cs)) =~= cs);
    }
}

/// A layer that was written and read once does not change again: it is written as the same text,
/// and is what that text describes. Its body leaves the tools as they are.
pub proof fn law_settled<N: Scalar>(v: ExcellonView<N>)
    requires
        defined(v.tools, body_commands(v.commands)) == v.tools,
    ensures
        settled(settled(v)) == settled(v),
        crate::excellon_format::write::layer_text(settled(v))
            == crate::excellon_format::write::layer_text(v),
{
    let w = settled(v);
    let h = header_commands(v.header);
    let t = tool_commands(v.tools);
    let mark: CommandView<N> = Command::Machine(
        crate::excellon_format::write::header_mark(v.header),
    );
    let b = body_commands(v.commands);
    lemma_mark(v.header);
    lemma_header_commands_stay(v.header);
    lemma_header_commands_kept(h);
    lemma_header_commands_dropped(t.push(mark));
    lemma_header_commands_concat(accepted(h), accepted(t.push(mark)));
    assert(w.header =~= accepted(h) + accepted(t.push(mark)));
    assert(header_commands(w.header) =~= h);
    lemma_body_commands_stay(v.commands);
    lemma_body_commands_kept(b);
    assert(w.header.last() == Ok::<_, crate::excellon_format::ExcellonParseFormat<Seq<char>>>(mark));
    assert(settled_header(w) == settled_header(v));
    lemma_written(v);
    lemma_written(w);
}

/// What closes the header in a file is what closed it last; where nothing did, it is `M95`.
pub proof fn law_header_closed<N: Scalar>(v: ExcellonView<N>, n: int)
    requires
        0 <= n <= v.header.len(),
        forall|i: int| n <= i < v.header.len() ==> !parse::ends_header(#[trigger] v.header[i]),
    ensures
        ({
            let mark = if n == 0 {
                Some("M95\n"@)
            } else {
                match v.header[n - 1] {
                    Ok(Command::Machine(MachineCode::HeaderEnd)) => Some("M95\n"@),
                    Ok(Command::Machine(MachineCode::RewindStop)) => Some("%\n"@),
                    _ => None,
                }
            };
            mark matches Some(m) ==> crate::excellon_format::write::layer_text(v)
                == crate::excellon_format::write::header_text(v.header)
                + crate::excellon_format::write::tools_text(v.tools) + m
                + crate::excellon_format::write::body_text(v.commands)
        }),
{
    reveal_strlit("M95");
    reveal_strlit("M95\n");
    reveal_strlit("%");
    reveal_strlit("%\n");
    assert("M95"@.push('\n') =~= "M95\n"@);
    assert("%"@.push('\n') =~= "%\n"@);
    lemma_header_mark(v.header, n);
    let h = v.header.take(n);
    if n > 0 {
        assert(h.last() == v.header[n - 1]);
    }
}

proof fn lemma_header_mark<N>(header: Seq<EntryView<N>>, n: int)
    requires
        0 <= n <= header.len(),
        forall|i: int| n <= i < header.len() ==> !parse::ends_header(#[trigger] header[i]),
    ensures
        crate::excellon_format::write::header_mark(header)
            == crate::excellon_format::write::header_mark(header.take(n)),
    decreases header.len(),
{
    if n == header.len() {
        assert(header.take(n) =~= header);
    } else {
        let t = header.drop_last();
        assert(!parse::ends_header(header[header.len() - 1]));
        assert forall|i: int| n <= i < t.len() implies !parse::ends_header(#[trigger] t[i]) by {
            assert(t[i] == header[i]);
        }
        lemma_header_mark(t, n);
        assert(t.take(n) =~= header.take(n));
    }
}

} // verus!
