//! What holds of drill layers.
use crate::excellon_format;
use crate::excellon_format::line::LineResult;
use crate::excellon_format::merge as drill;
use crate::excellon_format::parse;
use crate::excellon_format::parse::Progress;
use crate::excellon_format::{Command, EntryView, ExcellonView};
use crate::fixed::Fixed;
use crate::laws::merges;
use crate::laws::merges::law_merged_hits;
use crate::scalar::Scalar;
use crate::table;
use crate::Pos;
use vstd::prelude::*;

verus! {

/// The tools stand in the order of their numbers, and every tool that was selected is among them.
pub open spec fn tools_hold<N: Scalar>(p: Progress<N>) -> bool {
    &&& table::ordered(p.tools)
    &&& forall|i: int|
        0 <= i < p.commands.len() ==> (#[trigger] p.commands[i] matches Ok(Command::Tool(t))
            ==> table::lookup(p.tools, t) is Some)
}

proof fn lemma_pushed_hold<N: Scalar>(p: Progress<N>, e: EntryView<N>)
    requires
        tools_hold(p),
        e matches Ok(Command::Tool(t)) ==> table::lookup(p.tools, t) is Some,
    ensures
        tools_hold(p.pushed(e)),
{
    let q = p.pushed(e);
    assert forall|i: int| 0 <= i < q.commands.len() implies (#[trigger] q.commands[i] matches Ok(
        Command::Tool(t),
    ) ==> table::lookup(q.tools, t) is Some) by {
        if i < p.commands.len() {
            assert(q.commands[i] == p.commands[i]);
        }
    }
}

proof fn lemma_after_holds<N: Scalar>(
    p: Progress<N>,
    r: LineResult<N, Seq<char>>,
    line: nat,
    content: Seq<char>,
)
    requires
        tools_hold(p),
    ensures
        p.after(r, line, content) matches Ok(q) ==> tools_hold(q),
{
    match r {
        LineResult::Command(c) => {
            match c {
                Command::ToolDefinition(t) => {
                    table::lemma_inserted(p.tools, t.tool_number, t.diameter);
                    let q = Progress {
                        tools: table::inserted(p.tools, t.tool_number, t.diameter),
                        ..p
                    };
                    assert forall|i: int|
                        0 <= i < q.commands.len() implies (#[trigger] q.commands[i] matches Ok(
                        Command::Tool(t),
                    ) ==> table::lookup(q.tools, t) is Some) by {
                        assert(q.commands[i] == p.commands[i]);
                    }
                    lemma_pushed_hold(q, Ok(c));
                },
                Command::Tool(id) => {
                    if table::lookup(p.tools, id) is Some {
                        lemma_pushed_hold(p, Ok(c));
                    }
                },
                _ => lemma_pushed_hold(p, Ok(c)),
            }
        },
        LineResult::RawCoordinate(x, y) => {
            lemma_pushed_hold(p, Ok(Command::Coordinate(x, y, p.format)));
            lemma_pushed_hold(
                p,
                Err(
                    excellon_format::ExcellonParseFormat {
                        source: excellon_format::ExcellonError::CoordinateBeforeUnit,
                        line: line as usize,
                        content,
                    },
                ),
            );
        },
    }
}

proof fn lemma_after_all_holds<N: Scalar>(
    p: Progress<N>,
    rs: Seq<LineResult<N, Seq<char>>>,
    line: nat,
    content: Seq<char>,
)
    requires
        tools_hold(p),
    ensures
        p.after_all(rs, line, content) matches Ok(q) ==> tools_hold(q),
    decreases rs.len(),
{
    if rs.len() > 0 {
        lemma_after_all_holds(p, rs.drop_last(), line, content);
        match p.after_all(rs.drop_last(), line, content) {
            Ok(q) => lemma_after_holds(q, rs.last(), line, content),
            Err(_) => {},
        }
    }
}

proof fn lemma_lines_hold<N: Scalar>(lines: Seq<Seq<char>>)
    ensures
        parse::after_lines::<N>(lines) matches Ok(p) ==> tools_hold(p),
    decreases lines.len(),
{
    if lines.len() > 0 {
        lemma_lines_hold::<N>(lines.drop_last());
        match parse::after_lines::<N>(lines.drop_last()) {
            Ok(p) => {
                let line = (lines.len() - 1) as nat;
                let content = crate::text::trimmed(lines.last());
                match excellon_format::line::line_results::<N>(content, p.format) {
                    Ok(rs) => lemma_after_all_holds(p, rs, line, content),
                    Err(source) => lemma_pushed_hold(
                        p,
                        Err(
                            excellon_format::ExcellonParseFormat {
                                source,
                                line: line as usize,
                                content,
                            },
                        ),
                    ),
                }
            },
            Err(_) => {},
        }
    }
}

/// A layer that was read defines every tool that it selects, and so can be merged.
pub proof fn law_parsed_tools_defined<N: Scalar>(text: Seq<char>)
    ensures
        parse::parsed_layer::<N>(text) matches Ok(v) ==> table::ordered(v.tools)
            && drill::tools_defined(v),
{
    lemma_lines_hold::<N>(crate::text::lines(text));
    match parse::after_lines::<N>(crate::text::lines(text)) {
        Ok(p) => {
            match parse::program(p) {
                Ok(v) => {
                    let n = parse::header_length(p.commands) as int + 1;
                    lemma_header_length_bound(p.commands);
                    assert forall|i: int|
                        0 <= i < v.commands.len() implies (#[trigger] v.commands[i] matches Ok(
                        Command::Tool(t),
                    ) ==> table::lookup(v.tools, t) is Some) by {
                        assert(v.commands[i] == p.commands[n + i]);
                    }
                },
                Err(_) => {},
            }
        },
        Err(_) => {},
    }
}

pub proof fn lemma_header_length_bound<N>(s: Seq<EntryView<N>>)
    ensures
        parse::header_length(s) <= s.len(),
    decreases s.len(),
{
    if s.len() > 0 && !parse::ends_header(s[0]) {
        lemma_header_length_bound(s.skip(1));
    }
}

/// A layer in a grid of one cell is the layer.
pub proof fn law_repeated_once<N: Scalar>(v: ExcellonView<N>, offset: Pos<N>)
    ensures
        drill::repeated_layer(v, 1, 1, offset) == v,
{
}

/// The hits of a layer in one more cell of a grid: those of the cells before it, and those of the
/// layer, moved to the cell.
pub proof fn law_repeated_hits(v: ExcellonView<Fixed>, nx: nat, cells: nat, offset: Pos<Fixed>)
    requires
        cells >= 1,
    ensures
        merges::hits(drill::repeated_layer(v, nx, (cells + 1) as nat, offset).commands)
            == merges::hits(drill::repeated_layer(v, nx, cells, offset).commands) + merges::hits(
            excellon_format::edit::moved_layer(
                v,
                drill::cell_offset(cells, nx, offset),
            ).commands,
        ).map_values(|e: EntryView<Fixed>| merges::adopted_hit(e, v.unit)),
        drill::repeated_layer(v, nx, cells, offset).unit == v.unit,
    decreases cells,
{
    lemma_repeated_unit(v, nx, cells, offset);
    law_merged_hits(
        drill::repeated_layer(v, nx, cells, offset),
        excellon_format::edit::moved_layer(v, drill::cell_offset(cells, nx, offset)),
    );
}

proof fn lemma_repeated_unit(v: ExcellonView<Fixed>, nx: nat, cells: nat, offset: Pos<Fixed>)
    ensures
        drill::repeated_layer(v, nx, cells, offset).unit == v.unit,
    decreases cells,
{
    if cells > 1 {
        lemma_repeated_unit(v, nx, (cells - 1) as nat, offset);
    }
}

proof fn lemma_moved_hits(s: Seq<EntryView<Fixed>>, by: Pos<Fixed>)
    ensures
        ({
            let f = |c: excellon_format::CommandView<Fixed>| excellon_format::edit::moved(c, by);
            merges::hits(excellon_format::edit::on_commands(s, f)).len() == merges::hits(s).len()
        }),
    decreases s.len(),
{
    let f = |c: excellon_format::CommandView<Fixed>| excellon_format::edit::moved(c, by);
    let t = excellon_format::edit::on_commands(s, f);
    if s.len() > 0 {
        lemma_moved_hits(s.drop_last(), by);
        assert(t.drop_last() =~= excellon_format::edit::on_commands(s.drop_last(), f));
        assert(t.last() == excellon_format::edit::on_command(s.last(), f));
    }
}

/// A grid drills every hit once in each of its cells.
pub proof fn law_repeated_count(v: ExcellonView<Fixed>, nx: nat, cells: nat, offset: Pos<Fixed>)
    requires
        cells >= 1,
    ensures
        merges::hits(drill::repeated_layer(v, nx, cells, offset).commands).len() == cells
            * merges::hits(v.commands).len(),
    decreases cells,
{
    let n = merges::hits(v.commands).len();
    if cells == 1 {
        assert(1 * n == n) by (nonlinear_arith);
    } else {
        let k = (cells - 1) as nat;
        law_repeated_count(v, nx, k, offset);
        law_repeated_hits(v, nx, k, offset);
        lemma_moved_hits(v.commands, drill::cell_offset(k, nx, offset));
        assert(cells * n == k * n + n) by (nonlinear_arith)
            requires
                cells == k + 1,
        ;
    }
}

} // verus!
