//! What a merged drill layer does, and with which tool, mode and unit.
use crate::excellon_format::merge as drill;
use crate::excellon_format::{
    Command, EntryView, ExcellonView, GeometricCode, InputMode, MachineCode, Mode, UnitDefinition,
};
use crate::fixed::{Fixed, ONE};
use crate::gerber;
use crate::gerber::GerberView;
use crate::gerber_types;
use crate::gerber_types::{ExtendedCode, StepAndRepeat, Unit};
use crate::laws::edits;
use crate::laws::holes;
use crate::laws::merges;
use crate::laws::units;
use crate::scalar::Scalar;
use crate::table;
use crate::unit_able;
use crate::{LayerStepAndRepeat, Pos};
use vstd::prelude::*;

verus! {

/// What is in force at a place of a program: the diameter of the tool, the mode, whether coordinates
/// are steps, and the unit.
#[verifier::ext_equal]
pub ghost struct Settings {
    pub diameter: Option<Fixed>,
    pub mode: Option<Mode>,
    pub steps: bool,
    pub unit: Unit,
}

/// The entry only sets what is in force.
pub open spec fn is_setting(e: EntryView<Fixed>) -> bool {
    match e {
        Ok(Command::Tool(_)) => true,
        Ok(Command::Geometric(GeometricCode::Mode(_))) => true,
        Ok(Command::Geometric(GeometricCode::InputMode(_))) => true,
        Ok(Command::Machine(MachineCode::Scale(_))) => true,
        _ => false,
    }
}

/// What is in force behind an entry. The tools are given by their diameters.
pub open spec fn set_by(
    s: Settings,
    e: EntryView<Fixed>,
    tools: spec_fn(u32) -> Option<Fixed>,
) -> Settings {
    match e {
        Ok(Command::Tool(id)) => Settings { diameter: tools(id), ..s },
        Ok(Command::Geometric(GeometricCode::Mode(m))) => Settings { mode: Some(m), ..s },
        Ok(Command::Geometric(GeometricCode::InputMode(m))) => Settings {
            steps: m == InputMode::Incremental,
            ..s
        },
        Ok(Command::Machine(MachineCode::Scale(u))) => Settings { unit: u, ..s },
        _ => s,
    }
}

/// What is in force behind the entries.
pub open spec fn in_force(
    start: Settings,
    s: Seq<EntryView<Fixed>>,
    tools: spec_fn(u32) -> Option<Fixed>,
) -> Settings
    decreases s.len(),
{
    if s.len() == 0 {
        start
    } else {
        set_by(in_force(start, s.drop_last(), tools), s.last(), tools)
    }
}

/// What a program does: its entries that are no settings, each with what is in force.
pub open spec fn acts(
    start: Settings,
    s: Seq<EntryView<Fixed>>,
    tools: spec_fn(u32) -> Option<Fixed>,
) -> Seq<(EntryView<Fixed>, Settings)>
    decreases s.len(),
{
    if s.len() == 0 {
        Seq::empty()
    } else {
        let rest = acts(start, s.drop_last(), tools);
        if is_setting(s.last()) {
            rest
        } else {
            rest.push((s.last(), in_force(start, s.drop_last(), tools)))
        }
    }
}

/// The diameter under a number.
pub open spec fn diameters(tools: Seq<(u32, Fixed)>) -> spec_fn(u32) -> Option<Fixed> {
    |id: u32| table::lookup(tools, id)
}

/// The diameter under a number, in another unit.
pub open spec fn diameters_in(tools: Seq<(u32, Fixed)>, from: Unit, to: Unit) -> spec_fn(
    u32,
) -> Option<Fixed> {
    |id: u32|
        match table::lookup(tools, id) {
            Some(d) => Some(unit_able::converted::<Fixed, Fixed>(d, from, to)),
            None => None,
        }
}

/// The entry with the digit counts of another format in its coordinates.
pub open spec fn with_counts(e: EntryView<Fixed>, of: UnitDefinition) -> EntryView<Fixed> {
    match e {
        Ok(Command::Coordinate(x, y, fmt)) => Ok(
            Command::Coordinate(
                x,
                y,
                UnitDefinition { leading: of.leading, trailing: of.trailing, ..fmt },
            ),
        ),
        Ok(Command::Slot { from_x, from_y, to_x, to_y, fmt }) => Ok(
            Command::Slot {
                from_x,
                from_y,
                to_x,
                to_y,
                fmt: UnitDefinition { leading: of.leading, trailing: of.trailing, ..fmt },
            },
        ),
        _ => e,
    }
}

pub open spec fn with_counts_all(
    s: Seq<(EntryView<Fixed>, Settings)>,
    of: UnitDefinition,
) -> Seq<(EntryView<Fixed>, Settings)> {
    s.map_values(|a: (EntryView<Fixed>, Settings)| (with_counts(a.0, of), a.1))
}

/// The end of a program.
pub open spec fn is_end(e: EntryView<Fixed>) -> bool {
    e matches Ok(Command::Machine(MachineCode::EndOfProgram))
}

/// What is in force in front of the commands of a layer.
pub open spec fn at_start(v: ExcellonView<Fixed>) -> Settings {
    Settings {
        diameter: None,
        mode: None,
        steps: holes::starts_incremental(v.header),
        unit: v.unit.unit,
    }
}

proof fn lemma_acts_concat(
    start: Settings,
    a: Seq<EntryView<Fixed>>,
    b: Seq<EntryView<Fixed>>,
    tools: spec_fn(u32) -> Option<Fixed>,
)
    ensures
        in_force(start, a + b, tools) == in_force(in_force(start, a, tools), b, tools),
        acts(start, a + b, tools) == acts(start, a, tools) + acts(
            in_force(start, a, tools),
            b,
            tools,
        ),
    decreases b.len(),
{
    if b.len() == 0 {
        assert(a + b =~= a);
        assert(acts(start, a, tools) + acts(in_force(start, a, tools), b, tools) =~= acts(
            start,
            a,
            tools,
        ));
    } else {
        let d = b.drop_last();
        lemma_acts_concat(start, a, d, tools);
        assert((a + b).drop_last() =~= a + d);
        assert((a + b).last() == b.last());
        assert(acts(start, a + b, tools) =~= acts(start, a, tools) + acts(
            in_force(start, a, tools),
            b,
            tools,
        ));
    }
}

/// The settings stand for the state of the merge.
pub open spec fn stands_for(
    m: drill::Modal,
    s: Settings,
    tools: spec_fn(u32) -> Option<Fixed>,
) -> bool {
    &&& m.unit == s.unit
    &&& m.mode == s.mode
    &&& (m.input_mode == InputMode::Incremental) == s.steps
    &&& m.tool matches Some(id) ==> tools(id) == s.diameter
}

proof fn lemma_end_state(s: Seq<EntryView<Fixed>>, start: Settings, tools: Seq<(u32, Fixed)>)
    ensures
        ({
            let e = in_force(start, s, diameters(tools));
            &&& e.unit == match drill::last_scale(s) {
                Some(u) => u,
                None => start.unit,
            }
            &&& e.mode == match drill::last_mode(s) {
                Some(m) => Some(m),
                None => start.mode,
            }
            &&& e.steps == match drill::last_input_mode(s) {
                Some(m) => m == InputMode::Incremental,
                None => start.steps,
            }
            &&& drill::last_tool(s) matches Some(id) ==> e.diameter == table::lookup(tools, id)
        }),
    decreases s.len(),
{
    if s.len() > 0 {
        lemma_end_state(s.drop_last(), start, tools);
    }
}

proof fn lemma_without_end(
    start: Settings,
    s: Seq<EntryView<Fixed>>,
    tools: spec_fn(u32) -> Option<Fixed>,
)
    ensures
        in_force(start, s.filter(|e: EntryView<Fixed>| !is_end(e)), tools) == in_force(
            start,
            s,
            tools,
        ),
    decreases s.len(),
{
    reveal(Seq::filter);
    let f = |e: EntryView<Fixed>| !is_end(e);
    if s.len() > 0 {
        lemma_without_end(start, s.drop_last(), tools);
        let t = s.drop_last().filter(f);
        if f(s.last()) {
            assert(t.push(s.last()).drop_last() =~= t);
        }
    }
}

proof fn lemma_adopted(
    s: Seq<EntryView<Fixed>>,
    m: drill::Modal,
    start: Settings,
    ids: Seq<(u32, u32)>,
    fmt: UnitDefinition,
    theirs: spec_fn(u32) -> Option<Fixed>,
    all: spec_fn(u32) -> Option<Fixed>,
)
    requires
        stands_for(m, start, all),
        forall|i: int|
            0 <= i < s.len() ==> (#[trigger] s[i] matches Ok(Command::Tool(t)) ==> theirs(t)
                == all(table::lookup(ids, t)->0)),
    ensures
        ({
            let (more, n) = drill::adopted_all(s, m, ids, fmt);
            &&& stands_for(n, in_force(start, s, theirs), all)
            &&& in_force(start, more, all) == in_force(start, s, theirs)
            &&& acts(start, more, all) == with_counts_all(acts(start, s, theirs), fmt)
        }),
    decreases s.len(),
{
    let (more, n) = drill::adopted_all(s, m, ids, fmt);
    if s.len() == 0 {
        assert(acts(start, more, all) =~= with_counts_all(acts(start, s, theirs), fmt));
    } else {
        let t = s.drop_last();
        let e = s.last();
        assert(s[s.len() - 1] == e);
        assert forall|i: int| 0 <= i < t.len() implies (#[trigger] t[i] matches Ok(
            Command::Tool(t),
        ) ==> theirs(t) == all(table::lookup(ids, t)->0)) by {
            assert(t[i] == s[i]);
        }
        lemma_adopted(t, m, start, ids, fmt, theirs, all);
        let (before, state) = drill::adopted_all(t, m, ids, fmt);
        let (last, next) = drill::adopted(e, state, ids, fmt);
        assert(more == before + last);
        lemma_acts_concat(start, before, last, all);
        let here = in_force(start, before, all);
        if last.len() > 0 {
            assert(last.len() == 1);
            assert(last.drop_last() =~= Seq::empty());
            assert(in_force(here, last.drop_last(), all) == here);
            assert(acts(here, last.drop_last(), all) =~= Seq::empty());
        }
        assert(acts(start, more, all) =~= with_counts_all(acts(start, s, theirs), fmt));
    }
}

/// A merged drill layer does what the first layer does, without its end, and then what the other one
/// does: each entry with a tool of the same diameter, in the unit of the first layer, in the same
/// mode, with the same way to read coordinates and the same unit in force. What the other layer does
/// not set before it does something is as the first layer leaves it.
pub proof fn law_merged_acts(v: ExcellonView<Fixed>, other: ExcellonView<Fixed>)
    requires
        table::ordered(v.tools),
        table::ordered(other.tools),
        drill::tools_defined(v),
        drill::layers_mergeable(v, other),
    ensures
        ({
            let w = drill::merged_layers(v, other);
            let kept = v.commands.filter(|e: EntryView<Fixed>| !is_end(e));
            let own = diameters(v.tools);
            let theirs = diameters_in(other.tools, other.unit.unit, v.unit.unit);
            &&& acts(at_start(v), w.commands, diameters(w.tools)) == acts(at_start(v), kept, own)
                + with_counts_all(
                acts(in_force(at_start(v), kept, own), other.commands, theirs),
                v.unit,
            )
            &&& w.header == v.header
            &&& w.unit == v.unit
        }),
{
    let w = drill::merged_layers(v, other);
    let (all, ids) = drill::merged_tools(v.tools, other.tools, other.unit.unit, v.unit.unit);
    merges::law_merged_tools(v.tools, other.tools, other.unit.unit, v.unit.unit);
    let start = at_start(v);
    let own = diameters(v.tools);
    let joint = diameters(all);
    let theirs = diameters_in(other.tools, other.unit.unit, v.unit.unit);
    let kept = v.commands.filter(|e: EntryView<Fixed>| !is_end(e));
    assert(kept =~= v.commands.filter(|e: EntryView<Fixed>| !drill::ends_program(e))) by {
        lemma_same_filter(v.commands);
    }
    let more = drill::adopted_all(other.commands, drill::end_state(v), ids, v.unit).0;
    assert(w.commands == kept + more);
    lemma_acts_concat(start, kept, more, joint);
    lemma_filter_tools(v.commands, v.tools);
    lemma_more_tools(start, kept, v.tools, all);
    lemma_without_end(start, v.commands, own);
    lemma_end_state(v.commands, start, v.tools);
    holes::lemma_starts_incremental(v.header);
    let here = in_force(start, kept, own);
    lemma_last_tool_defined(v);
    assert(stands_for(drill::end_state(v), here, joint));
    assert forall|i: int| 0 <= i < other.commands.len() implies (
    #[trigger] other.commands[i] matches Ok(Command::Tool(t)) ==> theirs(t) == joint(
        table::lookup(ids, t)->0,
    )) by {}
    lemma_adopted(other.commands, drill::end_state(v), here, ids, v.unit, theirs, joint);
}

proof fn lemma_same_filter(s: Seq<EntryView<Fixed>>)
    ensures
        s.filter(|e: EntryView<Fixed>| !is_end(e)) == s.filter(
            |e: EntryView<Fixed>| !drill::ends_program(e),
        ),
    decreases s.len(),
{
    reveal(Seq::filter);
    if s.len() > 0 {
        lemma_same_filter(s.drop_last());
    }
}

proof fn lemma_filter_tools(s: Seq<EntryView<Fixed>>, tools: Seq<(u32, Fixed)>)
    requires
        forall|i: int|
            0 <= i < s.len() ==> (#[trigger] s[i] matches Ok(Command::Tool(t)) ==> table::lookup(
                tools,
                t,
            ) is Some),
    ensures
        ({
            let kept = s.filter(|e: EntryView<Fixed>| !is_end(e));
            forall|i: int|
                0 <= i < kept.len() ==> (#[trigger] kept[i] matches Ok(Command::Tool(t))
                    ==> table::lookup(tools, t) is Some)
        }),
{
    let f = |e: EntryView<Fixed>| !is_end(e);
    let kept = s.filter(f);
    assert forall|i: int| 0 <= i < kept.len() implies (#[trigger] kept[i] matches Ok(
        Command::Tool(t),
    ) ==> table::lookup(tools, t) is Some) by {
        s.lemma_filter_contains_rev(f, kept[i]);
        let j = choose|j: int| 0 <= j < s.len() && s[j] == kept[i];
        assert(s[j] == kept[i]);
    }
}

/// More tools change nothing where the tools of a program are defined.
proof fn lemma_more_tools(
    start: Settings,
    s: Seq<EntryView<Fixed>>,
    tools: Seq<(u32, Fixed)>,
    all: Seq<(u32, Fixed)>,
)
    requires
        forall|k: u32|
            #[trigger] table::lookup(tools, k) is Some ==> table::lookup(all, k) == table::lookup(
                tools,
                k,
            ),
        forall|i: int|
            0 <= i < s.len() ==> (#[trigger] s[i] matches Ok(Command::Tool(t)) ==> table::lookup(
                tools,
                t,
            ) is Some),
    ensures
        in_force(start, s, diameters(all)) == in_force(start, s, diameters(tools)),
        acts(start, s, diameters(all)) == acts(start, s, diameters(tools)),
    decreases s.len(),
{
    if s.len() > 0 {
        let t = s.drop_last();
        assert forall|i: int| 0 <= i < t.len() implies (#[trigger] t[i] matches Ok(
            Command::Tool(t),
        ) ==> table::lookup(tools, t) is Some) by {
            assert(t[i] == s[i]);
        }
        lemma_more_tools(start, t, tools, all);
        assert(s[s.len() - 1] == s.last());
    }
}

proof fn lemma_last_tool_defined(v: ExcellonView<Fixed>)
    requires
        drill::tools_defined(v),
    ensures
        drill::last_tool(v.commands) matches Some(id) ==> table::lookup(v.tools, id) is Some,
{
    lemma_last_tool(v.commands, v.tools);
}

proof fn lemma_last_tool(s: Seq<EntryView<Fixed>>, tools: Seq<(u32, Fixed)>)
    requires
        forall|i: int|
            0 <= i < s.len() ==> (#[trigger] s[i] matches Ok(Command::Tool(t)) ==> table::lookup(
                tools,
                t,
            ) is Some),
    ensures
        drill::last_tool(s) matches Some(id) ==> table::lookup(tools, id) is Some,
    decreases s.len(),
{
    if s.len() > 0 {
        let t = s.drop_last();
        assert forall|i: int| 0 <= i < t.len() implies (#[trigger] t[i] matches Ok(
            Command::Tool(t),
        ) ==> table::lookup(tools, t) is Some) by {
            assert(t[i] == s[i]);
        }
        lemma_last_tool(t, tools);
        assert(s[s.len() - 1] == s.last());
    }
}

/// A layer in a grid: the grid, with its counts and its distances in the unit of the layer, the
/// commands of the layer as they are, a grid of one cell and the end of the grid. Nothing else
/// changes.
pub proof fn law_grid(v: GerberView<Fixed>, nx: u32, ny: u32, offset: Pos<Fixed>)
    requires
        edits::modest_length(offset.x),
        edits::modest_length(offset.y),
    ensures
        ({
            let w = gerber::GerberLayerData::<Fixed>::repeated(v, nx, ny, offset);
            let n = v.commands.len() as int;
            &&& w == GerberView { commands: w.commands, ..v }
            &&& w.commands.len() == n + 3
            &&& w.commands[0] matches gerber_types::Command::ExtendedCode(
                ExtendedCode::StepAndRepeat(
                    StepAndRepeat::Open { repeat_x, repeat_y, distance_x, distance_y },
                ),
            ) && (repeat_x == nx && repeat_y == ny && units::as_long(distance_x, offset.x, v.unit)
                && units::as_long(distance_y, offset.y, v.unit))
            &&& w.commands.subrange(1, n + 1) == v.commands
            &&& w.commands[n + 1] matches gerber_types::Command::ExtendedCode(
                ExtendedCode::StepAndRepeat(
                    StepAndRepeat::Open { repeat_x, repeat_y, distance_x, distance_y },
                ),
            ) && (repeat_x == 1 && repeat_y == 1 && distance_x.raw == 0 && distance_y.raw == 0)
            &&& w.commands[n + 2] matches gerber_types::Command::ExtendedCode(
                ExtendedCode::StepAndRepeat(StepAndRepeat::Close),
            )
        }),
{
    units::law_lengths_converted(offset.x, v.unit);
    units::law_lengths_converted(offset.y, v.unit);
    let w = gerber::GerberLayerData::<Fixed>::repeated(v, nx, ny, offset);
    assert(w.commands.subrange(1, 1 + v.commands.len() as int) =~= v.commands);
}

/// The cells of a grid of holes, row by row: the cell in column `i` of row `j` is moved by `i` and
/// `j` times the distance.
pub proof fn law_cells(i: nat, j: nat, nx: nat, offset: Pos<Fixed>)
    requires
        i < nx,
        nx <= u32::MAX,
        j <= u32::MAX,
        -1_000_000_000_000_000_000 <= i * offset.x.raw <= 1_000_000_000_000_000_000,
        -1_000_000_000_000_000_000 <= j * offset.y.raw <= 1_000_000_000_000_000_000,
    ensures
        ({
            let p = drill::cell_offset((j * nx + i) as nat, nx, offset);
            p.x.raw == i * offset.x.raw && p.y.raw == j * offset.y.raw
        }),
{
    assert(((j * nx + i) as nat) % nx == i && ((j * nx + i) as nat) / nx == j)
        by (nonlinear_arith)
        requires
            i < nx,
    ;
    lemma_multiple(i, offset.x);
    lemma_multiple(j, offset.y);
}

proof fn lemma_multiple(n: nat, d: Fixed)
    requires
        n <= u32::MAX,
        -1_000_000_000_000_000_000 <= n * d.raw <= 1_000_000_000_000_000_000,
    ensures
        Fixed::count_spec(n as u64).times_spec(d).raw == n * d.raw,
{
    let c = Fixed::count_spec(n as u64);
    assert(c.raw == n * ONE);
    assert(c.raw * d.raw == ONE * (n * d.raw)) by (nonlinear_arith)
        requires
            c.raw == n * ONE,
    ;
    edits::lemma_round_div(c.raw * d.raw, ONE as int);
}

proof fn lemma_no_diameter(tools: Seq<(u32, Fixed)>, d: Fixed)
    requires
        drill::same_diameter(tools, d) is None,
    ensures
        forall|i: int| 0 <= i < tools.len() ==> (#[trigger] tools[i]).1 != d,
    decreases tools.len(),
{
    if tools.len() > 0 {
        let t = tools.skip(1);
        lemma_no_diameter(t, d);
        assert forall|i: int| 0 <= i < tools.len() implies (#[trigger] tools[i]).1 != d by {
            if i > 0 {
                assert(t[i - 1] == tools[i]);
            }
        }
    }
}

/// A tool is added only for a diameter that no other tool has: its number is from 1 on, and it is a
/// tool of the other layer in the unit of the first.
pub proof fn law_tools_shared(
    tools: Seq<(u32, Fixed)>,
    other: Seq<(u32, Fixed)>,
    from: Unit,
    to: Unit,
)
    requires
        table::ordered(tools),
        table::ordered(other),
        drill::merged_tools(tools, other, from, to).0.len() < u32::MAX,
    ensures
        ({
            let all = drill::merged_tools(tools, other, from, to).0;
            forall|k: u32|
                (#[trigger] table::lookup(all, k) is Some && table::lookup(tools, k) is None)
                    ==> is_added(all, other, from, to, k)
        }),
    decreases other.len(),
{
    let all = drill::merged_tools(tools, other, from, to).0;
    if other.len() > 0 {
        let rest = other.drop_last();
        merges::lemma_ordered_prefix(other);
        drill::lemma_tools_kept(tools, other, rest.len() as int, from, to);
        assert(other.take(rest.len() as int) =~= rest);
        law_tools_shared(tools, rest, from, to);
        drill::lemma_merged_tools(tools, rest, from, to);
        let before = drill::merged_tools(tools, rest, from, to).0;
        let d = unit_able::converted::<Fixed, Fixed>(other.last().1, from, to);
        let id = drill::tool_for(before, d);
        merges::lemma_tool_for(before, d);
        table::lemma_inserted(before, id, d);
        if drill::same_diameter(before, d) is None {
            lemma_no_diameter(before, d);
            table::lemma_free_exists(before, 1);
            table::lemma_taken(before, id);
        } else {
            let i = merges::lemma_same_diameter(before, d);
            table::lemma_lookup(before, id);
            assert(before[i].0 == id);
        }
        assert forall|k: u32|
            (#[trigger] table::lookup(all, k) is Some && table::lookup(tools, k)
                is None) implies is_added(all, other, from, to, k) by {
            let b = table::lookup(all, k)->0;
            if table::lookup(before, k) is Some {
                assert(table::lookup(before, k) == Some(b));
                assert(is_added(before, rest, from, to, k));
                let i = choose|i: int|
                    0 <= i < rest.len() && b == unit_able::converted::<Fixed, Fixed>(
                        (#[trigger] rest[i]).1,
                        from,
                        to,
                    );
                assert(other[i] == rest[i]);
            } else {
                assert(k == id);
                assert(other[other.len() - 1].1 == other.last().1);
            }
            assert forall|q: u32| q != k implies #[trigger] table::lookup(all, q) != Some(b) by {
                if table::lookup(all, q) is Some && table::lookup(all, q)->0 == b {
                    if q == id && table::lookup(before, id) is None {
                        table::lemma_lookup(before, k);
                        let j = choose|j: int|
                            0 <= j < before.len() && #[trigger] before[j] == (k, b);
                        assert(before[j].1 != d);
                    } else if k == id && table::lookup(before, id) is None {
                        table::lemma_lookup(before, q);
                        let j = choose|j: int|
                            0 <= j < before.len() && #[trigger] before[j] == (q, b);
                        assert(before[j].1 != d);
                    } else {
                        assert(table::lookup(before, q) == Some(b));
                    }
                }
            }
        }
    }
}

pub open spec fn is_added(
    all: Seq<(u32, Fixed)>,
    other: Seq<(u32, Fixed)>,
    from: Unit,
    to: Unit,
    k: u32,
) -> bool {
    let d = table::lookup(all, k)->0;
    &&& k >= 1
    &&& exists|i: int|
        0 <= i < other.len() && d == unit_able::converted::<Fixed, Fixed>(
            (#[trigger] other[i]).1,
            from,
            to,
        )
    &&& forall|q: u32| q != k ==> #[trigger] table::lookup(all, q) != Some(d)
}

} // verus!
