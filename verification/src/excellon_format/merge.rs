//! Appending one drill layer to another.
use crate::excellon_format::{
    clone_entry, Command, Entry, EntryView, ExcellonLayerData, ExcellonView, GeometricCode,
    InputMode, MachineCode, Mode, UnitDefinition,
};
use crate::gerber_types::Unit;
use crate::scalar::Scalar;
use crate::table;
use crate::table::{Key, Table};
use crate::unit_able;
use crate::unit_able::UnitAble;
use crate::{LayerMerge, LayerStepAndRepeat, LayerTransform, Pos};
use vstd::prelude::*;

verus! {

/// The first tool of diameter `d`.
pub open spec fn same_diameter<N: Scalar>(tools: Seq<(u32, N)>, d: N) -> Option<u32>
    decreases tools.len(),
{
    if tools.len() == 0 {
        None
    } else if tools[0].1.same_spec(d) {
        Some(tools[0].0)
    } else {
        same_diameter(tools.skip(1), d)
    }
}

/// The number for a tool of diameter `d`: that of a tool of the same diameter, or the lowest that is
/// free.
pub open spec fn tool_for<N: Scalar>(tools: Seq<(u32, N)>, d: N) -> u32 {
    match same_diameter(tools, d) {
        Some(id) => id,
        None => table::lowest_free(tools, 1) as u32,
    }
}

/// The tools of both layers, and the number that each tool of `other` has among them.
pub open spec fn merged_tools<N: Scalar>(
    tools: Seq<(u32, N)>,
    other: Seq<(u32, N)>,
    from: Unit,
    to: Unit,
) -> (Seq<(u32, N)>, Seq<(u32, u32)>)
    decreases other.len(),
{
    if other.len() == 0 {
        (tools, Seq::empty())
    } else {
        let (all, ids) = merged_tools(tools, other.drop_last(), from, to);
        let d = unit_able::converted::<N, N>(other.last().1, from, to);
        let id = tool_for(all, d);
        (table::inserted(all, id, d), table::inserted(ids, other.last().0, id))
    }
}

/// The state that a program is in.
#[verifier::ext_equal]
pub ghost struct Modal {
    pub unit: Unit,
    pub tool: Option<u32>,
    pub mode: Option<Mode>,
    pub input_mode: InputMode,
}

pub open spec fn last_scale<N>(s: Seq<EntryView<N>>) -> Option<Unit>
    decreases s.len(),
{
    if s.len() == 0 {
        None
    } else {
        match s.last() {
            Ok(Command::Machine(MachineCode::Scale(u))) => Some(u),
            _ => last_scale(s.drop_last()),
        }
    }
}

pub open spec fn last_tool<N>(s: Seq<EntryView<N>>) -> Option<u32>
    decreases s.len(),
{
    if s.len() == 0 {
        None
    } else {
        match s.last() {
            Ok(Command::Tool(id)) => Some(id),
            _ => last_tool(s.drop_last()),
        }
    }
}

pub open spec fn last_mode<N>(s: Seq<EntryView<N>>) -> Option<Mode>
    decreases s.len(),
{
    if s.len() == 0 {
        None
    } else {
        match s.last() {
            Ok(Command::Geometric(GeometricCode::Mode(m))) => Some(m),
            _ => last_mode(s.drop_last()),
        }
    }
}

pub open spec fn last_input_mode<N>(s: Seq<EntryView<N>>) -> Option<InputMode>
    decreases s.len(),
{
    if s.len() == 0 {
        None
    } else {
        match s.last() {
            Ok(Command::Geometric(GeometricCode::InputMode(m))) => Some(m),
            _ => last_input_mode(s.drop_last()),
        }
    }
}

/// Whether the last `ICI` switches incremental input on.
pub open spec fn last_incremental<N>(s: Seq<EntryView<N>>) -> Option<bool>
    decreases s.len(),
{
    if s.len() == 0 {
        None
    } else {
        match s.last() {
            Ok(Command::Incremental(i)) => Some(i),
            _ => last_incremental(s.drop_last()),
        }
    }
}

/// The state at the end of a layer.
pub open spec fn end_state<N>(v: ExcellonView<N>) -> Modal {
    Modal {
        unit: match last_scale(v.commands) {
            Some(u) => u,
            None => v.unit.unit,
        },
        tool: last_tool(v.commands),
        mode: last_mode(v.commands),
        input_mode: match last_input_mode(v.commands) {
            Some(m) => m,
            None => match last_incremental(v.header) {
                Some(true) => InputMode::Incremental,
                _ => InputMode::Absolute,
            },
        },
    }
}

/// `fmt` with the digit counts of `of`.
pub open spec fn with_digits(fmt: UnitDefinition, of: UnitDefinition) -> UnitDefinition {
    UnitDefinition { leading: of.leading, trailing: of.trailing, ..fmt }
}

/// What an appended entry becomes, and the state behind it. Coordinates take over the digit counts
/// of the layer, tools their new numbers, and what sets the state to what it is already falls away.
pub open spec fn adopted<N>(
    e: EntryView<N>,
    m: Modal,
    ids: Seq<(u32, u32)>,
    fmt: UnitDefinition,
) -> (Seq<EntryView<N>>, Modal) {
    match e {
        Ok(Command::Coordinate(x, y, f)) => (
            seq![Ok(Command::Coordinate(x, y, with_digits(f, fmt)))],
            m,
        ),
        Ok(Command::Slot { from_x, from_y, to_x, to_y, fmt: f }) => (
            seq![Ok(Command::Slot { from_x, from_y, to_x, to_y, fmt: with_digits(f, fmt) })],
            m,
        ),
        Ok(Command::Tool(t)) => {
            let id = table::lookup(ids, t)->0;
            if m.tool == Some(id) {
                (Seq::empty(), m)
            } else {
                (seq![Ok(Command::Tool(id))], Modal { tool: Some(id), ..m })
            }
        },
        Ok(Command::Geometric(GeometricCode::InputMode(im))) => if m.input_mode == im {
            (Seq::empty(), m)
        } else {
            (seq![e], Modal { input_mode: im, ..m })
        },
        Ok(Command::Geometric(GeometricCode::Mode(mode))) => if m.mode == Some(mode) {
            (Seq::empty(), m)
        } else {
            (seq![e], Modal { mode: Some(mode), ..m })
        },
        Ok(Command::Machine(MachineCode::Scale(u))) => if m.unit == u {
            (Seq::empty(), m)
        } else {
            (seq![e], Modal { unit: u, ..m })
        },
        _ => (seq![e], m),
    }
}

pub open spec fn adopted_all<N>(
    s: Seq<EntryView<N>>,
    m: Modal,
    ids: Seq<(u32, u32)>,
    fmt: UnitDefinition,
) -> (Seq<EntryView<N>>, Modal)
    decreases s.len(),
{
    if s.len() == 0 {
        (Seq::empty(), m)
    } else {
        let (before, state) = adopted_all(s.drop_last(), m, ids, fmt);
        let (more, next) = adopted(s.last(), state, ids, fmt);
        (before + more, next)
    }
}

pub open spec fn ends_program<N>(e: EntryView<N>) -> bool {
    e matches Ok(Command::Machine(MachineCode::EndOfProgram))
}

/// `other` behind `v`, whose end of program falls away.
pub open spec fn merged_layers<N: Scalar>(v: ExcellonView<N>, other: ExcellonView<N>) -> ExcellonView<
    N,
> {
    let (tools, ids) = merged_tools(v.tools, other.tools, other.unit.unit, v.unit.unit);
    ExcellonView {
        commands: v.commands.filter(|e: EntryView<N>| !ends_program(e)) + adopted_all(
            other.commands,
            end_state(v),
            ids,
            v.unit,
        ).0,
        tools,
        ..v
    }
}

/// Every tool that the layer selects is one that it defines.
pub open spec fn tools_defined<N>(v: ExcellonView<N>) -> bool {
    forall|i: int|
        0 <= i < v.commands.len() ==> (#[trigger] v.commands[i] matches Ok(Command::Tool(t))
            ==> table::lookup(v.tools, t) is Some)
}

/// The tools that `other` selects are defined, and there is a number for every tool of the two.
pub open spec fn layers_mergeable<N: Scalar>(v: ExcellonView<N>, other: ExcellonView<N>) -> bool {
    tools_defined(other) && merged_tools(
        v.tools,
        other.tools,
        other.unit.unit,
        v.unit.unit,
    ).0.len() < u32::MAX
}

/// The tools that `other` selects are defined, and there are numbers for as many tools as the two
/// have, even if they share none.
pub open spec fn layers_join<N>(v: ExcellonView<N>, other: ExcellonView<N>) -> bool {
    tools_defined(other) && v.tools.len() + other.tools.len() < u32::MAX
}

impl<N: Scalar> ExcellonLayerData<N> {
    /// Whether `other` can be merged into the layer, whatever tools the two share.
    pub fn joins(&self, other: &Self) -> (r: bool)
        ensures
            r == layers_join(self@, other@),
            r ==> layers_mergeable(self@, other@),
    {
        let have: usize = self.tools.len();
        let more: usize = other.tools.len();
        proof {
            lemma_merged_tools(self@.tools, other@.tools, other.unit.unit, self.unit.unit);
        }
        if have >= 0xffff_ffff || more >= 0xffff_ffff - have {
            return false;
        }
        let ghost s = other@.commands;
        let mut i: usize = 0;
        while i < other.commands.len()
            invariant
                i <= other.commands@.len(),
                s == crate::excellon_format::entries(other.commands@),
                s == other@.commands,
                forall|k: int|
                    0 <= k < i ==> (#[trigger] s[k] matches Ok(Command::Tool(t)) ==> table::lookup(
                        other@.tools,
                        t,
                    ) is Some),
            decreases other.commands@.len() - i,
        {
            assert(s[i as int] == crate::excellon_format::entry_view(other.commands@[i as int]));
            if let Ok(Command::Tool(t)) = &other.commands[i] {
                if !other.tools.contains_key(*t) {
                    return false;
                }
            }
            i = i + 1;
        }
        true
    }
}

fn find_diameter<N: Scalar>(tools: &Table<u32, N>, d: N) -> (r: Option<u32>)
    ensures
        r == same_diameter(tools@, d),
{
    let mut i: usize = 0;
    assert(tools@.skip(0) =~= tools@);
    while i < tools.len()
        invariant
            i <= tools@.len(),
            same_diameter(tools@, d) == same_diameter(tools@.skip(i as int), d),
        decreases tools@.len() - i,
    {
        assert(tools@.skip(i as int).skip(1) =~= tools@.skip(i + 1));
        if tools.value_at(i).same(d) {
            return Some(tools.key_at(i));
        }
        i = i + 1;
    }
    None
}

/// There are no more tools than the two layers have.
pub proof fn lemma_merged_tools<N: Scalar>(
    tools: Seq<(u32, N)>,
    other: Seq<(u32, N)>,
    from: Unit,
    to: Unit,
)
    requires
        table::ordered(tools),
        table::ordered(other),
    ensures
        ({
            let (all, ids) = merged_tools(tools, other, from, to);
            &&& table::ordered(all)
            &&& table::ordered(ids)
            &&& all.len() <= tools.len() + other.len()
            &&& forall|i: int|
                0 <= i < other.len() ==> table::lookup(ids, (#[trigger] other[i]).0) is Some
        }),
    decreases other.len(),
{
    if other.len() > 0 {
        let rest = other.drop_last();
        assert(table::ordered(rest)) by {
            assert forall|i: int, j: int| 0 <= i < j < rest.len() implies (
            #[trigger] rest[i]).0.rank_spec() < (#[trigger] rest[j]).0.rank_spec() by {
                assert(rest[i] == other[i] && rest[j] == other[j]);
            }
        }
        lemma_merged_tools(tools, rest, from, to);
        let (all, ids) = merged_tools(tools, rest, from, to);
        let d = unit_able::converted::<N, N>(other.last().1, from, to);
        let id = tool_for(all, d);
        table::lemma_place(all, id);
        table::lemma_inserted(all, id, d);
        table::lemma_inserted(ids, other.last().0, id);
        let more = table::inserted(ids, other.last().0, id);
        assert forall|i: int| 0 <= i < other.len() implies table::lookup(
            more,
            (#[trigger] other[i]).0,
        ) is Some by {
            if i < rest.len() {
                assert(rest[i] == other[i]);
                assert(table::lookup(ids, rest[i].0) is Some);
            }
        }
    }
}

/// A merge does not lose tools.
pub proof fn lemma_tools_kept<N: Scalar>(
    tools: Seq<(u32, N)>,
    other: Seq<(u32, N)>,
    n: int,
    from: Unit,
    to: Unit,
)
    requires
        table::ordered(tools),
        table::ordered(other),
        0 <= n <= other.len(),
    ensures
        merged_tools(tools, other.take(n), from, to).0.len() <= merged_tools(
            tools,
            other,
            from,
            to,
        ).0.len(),
    decreases other.len(),
{
    if n == other.len() {
        assert(other.take(n) =~= other);
    } else {
        let rest = other.drop_last();
        assert(table::ordered(rest)) by {
            assert forall|i: int, j: int| 0 <= i < j < rest.len() implies (
            #[trigger] rest[i]).0.rank_spec() < (#[trigger] rest[j]).0.rank_spec() by {
                assert(rest[i] == other[i] && rest[j] == other[j]);
            }
        }
        lemma_tools_kept(tools, rest, n, from, to);
        assert(rest.take(n) =~= other.take(n));
        lemma_merged_tools(tools, rest, from, to);
        let all = merged_tools(tools, rest, from, to).0;
        let d = unit_able::converted::<N, N>(other.last().1, from, to);
        table::lemma_place(all, tool_for(all, d));
    }
}

fn merge_tools<N: Scalar>(
    tools: &mut Table<u32, N>,
    other: &Table<u32, N>,
    from: &Unit,
    to: &Unit,
) -> (ids: Table<u32, u32>)
    requires
        merged_tools(old(tools)@, other@, *from, *to).0.len() < u32::MAX,
    ensures
        (final(tools)@, ids@) == merged_tools(old(tools)@, other@, *from, *to),
{
    let mut ids: Table<u32, u32> = Table::new();
    let mut i: usize = 0;
    let count: usize = other.len();
    let ghost start = tools@;
    let have: usize = tools.len();
    assert(other@.take(0).len() == 0);
    while i < count
        invariant
            i <= count,
            count == other@.len(),
            table::ordered(start),
            table::ordered(other@),
            merged_tools(start, other@, *from, *to).0.len() < u32::MAX,
            (tools@, ids@) == merged_tools(start, other@.take(i as int), *from, *to),
        decreases count - i,
    {
        proof {
            let now = other@.take(i + 1);
            assert(now.drop_last() =~= other@.take(i as int));
            assert(now.last() == other@[i as int]);
            lemma_tools_kept(start, other@, i as int, *from, *to);
        }
        let dir: N = other.value_at(i).to_unit(from, to);
        let id: u32 = match find_diameter(tools, dir) {
            Some(id) => id,
            None => tools.lowest_free(1) as u32,
        };
        ids.insert(other.key_at(i), id);
        let ghost before = tools@;
        tools.insert(id, dir);
        proof {
            table::lemma_place(before, id);
        }
        i = i + 1;
    }
    assert(other@.take(i as int) =~= other@);
    ids
}

struct State {
    unit: Unit,
    tool: Option<u32>,
    mode: Option<Mode>,
    input_mode: InputMode,
}

impl State {
    spec fn modal(self) -> Modal {
        Modal {
            unit: self.unit,
            tool: self.tool,
            mode: self.mode,
            input_mode: self.input_mode,
        }
    }
}

fn find_state<N: Scalar>(layer: &ExcellonLayerData<N>) -> (r: State)
    ensures
        r.modal() == end_state(layer@),
{
    let ghost h = layer@.header;
    let mut incremental: Option<bool> = None;
    let mut i: usize = 0;
    while i < layer.header.len()
        invariant
            i <= layer.header@.len(),
            h == crate::excellon_format::entries(layer.header@),
            incremental == last_incremental(h.take(i as int)),
        decreases layer.header@.len() - i,
    {
        proof {
            assert(h.take(i + 1).drop_last() =~= h.take(i as int));
            assert(h.take(i + 1).last() == crate::excellon_format::entry_view(
                layer.header@[i as int],
            ));
        }
        if let Ok(Command::Incremental(on)) = &layer.header[i] {
            incremental = Some(*on);
        }
        i = i + 1;
    }
    assert(h.take(i as int) =~= h);
    let ghost s = layer@.commands;
    let mut unit: Option<Unit> = None;
    let mut tool: Option<u32> = None;
    let mut mode: Option<Mode> = None;
    let mut input_mode: Option<InputMode> = None;
    let mut i: usize = 0;
    while i < layer.commands.len()
        invariant
            i <= layer.commands@.len(),
            s == crate::excellon_format::entries(layer.commands@),
            unit == last_scale(s.take(i as int)),
            tool == last_tool(s.take(i as int)),
            mode == last_mode(s.take(i as int)),
            input_mode == last_input_mode(s.take(i as int)),
        decreases layer.commands@.len() - i,
    {
        proof {
            assert(s.take(i + 1).drop_last() =~= s.take(i as int));
            assert(s.take(i + 1).last() == crate::excellon_format::entry_view(
                layer.commands@[i as int],
            ));
        }
        match &layer.commands[i] {
            Ok(Command::Machine(MachineCode::Scale(u))) => {
                unit = Some(*u);
            },
            Ok(Command::Tool(id)) => {
                tool = Some(*id);
            },
            Ok(Command::Geometric(GeometricCode::Mode(m))) => {
                mode = Some(*m);
            },
            Ok(Command::Geometric(GeometricCode::InputMode(m))) => {
                input_mode = Some(*m);
            },
            _ => {},
        }
        i = i + 1;
    }
    assert(s.take(i as int) =~= s);
    State {
        unit: match unit {
            Some(u) => u,
            None => layer.unit.unit,
        },
        tool,
        mode,
        input_mode: match input_mode {
            Some(m) => m,
            None => match incremental {
                Some(true) => InputMode::Incremental,
                _ => InputMode::Absolute,
            },
        },
    }
}

fn without_end<N: Scalar>(commands: &Vec<Entry<N>>) -> (r: Vec<Entry<N>>)
    ensures
        crate::excellon_format::entries(r@) == crate::excellon_format::entries(commands@).filter(
            |e: EntryView<N>| !ends_program(e),
        ),
{
    let ghost s = crate::excellon_format::entries(commands@);
    let ghost keep = |e: EntryView<N>| !ends_program(e);
    let mut r: Vec<Entry<N>> = Vec::new();
    let mut i: usize = 0;
    proof {
        reveal(Seq::filter);
        assert(crate::excellon_format::entries(r@) =~= s.take(0).filter(keep));
    }
    while i < commands.len()
        invariant
            i <= commands@.len(),
            s == crate::excellon_format::entries(commands@),
            keep == (|e: EntryView<N>| !ends_program(e)),
            crate::excellon_format::entries(r@) == s.take(i as int).filter(keep),
        decreases commands@.len() - i,
    {
        let ghost before = r@;
        proof {
            reveal(Seq::filter);
            assert(s.take(i + 1).drop_last() =~= s.take(i as int));
            assert(s.take(i + 1).last() == crate::excellon_format::entry_view(
                commands@[i as int],
            ));
        }
        let end = match &commands[i] {
            Ok(Command::Machine(MachineCode::EndOfProgram)) => true,
            _ => false,
        };
        if !end {
            r.push(clone_entry(&commands[i]));
            assert(crate::excellon_format::entries(r@) =~= crate::excellon_format::entries(
                before,
            ).push(s[i as int]));
        }
        i = i + 1;
    }
    assert(s.take(i as int) =~= s);
    r
}

fn copy_digits(fmt: &UnitDefinition, of: &UnitDefinition) -> (r: UnitDefinition)
    ensures
        r == with_digits(*fmt, *of),
{
    UnitDefinition {
        unit: fmt.unit,
        ty: fmt.ty,
        leading: of.leading,
        trailing: of.trailing,
        decimal: fmt.decimal,
    }
}

/// What becomes of an appended entry, or `None` where it falls away.
fn adopt<N: Scalar>(
    e: &Entry<N>,
    state: &mut State,
    ids: &Table<u32, u32>,
    fmt: &UnitDefinition,
) -> (r: Option<Entry<N>>)
    requires
        e matches Ok(Command::Tool(t)) ==> table::lookup(ids@, *t) is Some,
    ensures
        ({
            let (more, next) = adopted(
                crate::excellon_format::entry_view(*e),
                old(state).modal(),
                ids@,
                *fmt,
            );
            &&& final(state).modal() == next
            &&& r is None ==> more.len() == 0
            &&& r matches Some(e) ==> more == seq![crate::excellon_format::entry_view(e)]
        }),
{
    match e {
        Ok(Command::Coordinate(x, y, f)) => {
            let c: Command<N> = Command::Coordinate(*x, *y, copy_digits(f, fmt));
            return Some(Ok(c));
        },
        Ok(Command::Slot { from_x, from_y, to_x, to_y, fmt: f }) => {
            let c: Command<N> = Command::Slot {
                from_x: *from_x,
                from_y: *from_y,
                to_x: *to_x,
                to_y: *to_y,
                fmt: copy_digits(f, fmt),
            };
            return Some(Ok(c));
        },
        Ok(Command::Tool(t)) => {
            let id: u32 = *ids.get(*t).unwrap();
            if let Some(current) = state.tool {
                if current == id {
                    return None;
                }
            }
            state.tool = Some(id);
            let c: Command<N> = Command::Tool(id);
            return Some(Ok(c));
        },
        Ok(Command::Geometric(GeometricCode::InputMode(im))) => {
            if state.input_mode == *im {
                return None;
            }
            state.input_mode = *im;
        },
        Ok(Command::Geometric(GeometricCode::Mode(mode))) => {
            if let Some(current) = state.mode {
                if current == *mode {
                    return None;
                }
            }
            state.mode = Some(*mode);
        },
        Ok(Command::Machine(MachineCode::Scale(u))) => {
            if state.unit == *u {
                return None;
            }
            state.unit = *u;
        },
        _ => {},
    }
    Some(clone_entry(e))
}

impl<N: Scalar> LayerMerge for ExcellonLayerData<N> {
    open spec fn merged(v: ExcellonView<N>, other: ExcellonView<N>) -> ExcellonView<N> {
        merged_layers(v, other)
    }

    open spec fn mergeable(v: ExcellonView<N>, other: ExcellonView<N>) -> bool {
        layers_mergeable(v, other)
    }

    fn merge(&mut self, other: &Self) {
        let ghost v = self@;
        let unit = self.unit;
        let mut state = find_state(self);
        let mut commands = without_end(&self.commands);
        let ghost kept = crate::excellon_format::entries(commands@);
        let have: usize = self.tools.len();
        let more: usize = other.tools.len();
        let ids = merge_tools(&mut self.tools, &other.tools, &other.unit.unit, &unit.unit);
        let ghost s = other@.commands;
        let ghost start = state.modal();
        proof {
            lemma_merged_tools(v.tools, other@.tools, other.unit.unit, unit.unit);
            assert(kept =~= kept + adopted_all(s.take(0), start, ids@, unit).0);
        }
        let mut i: usize = 0;
        while i < other.commands.len()
            invariant
                i <= other.commands@.len(),
                s == crate::excellon_format::entries(other.commands@),
                s == other@.commands,
                tools_defined(other@),
                table::ordered(other@.tools),
                forall|k: int|
                    0 <= k < other@.tools.len() ==> table::lookup(
                        ids@,
                        (#[trigger] other@.tools[k]).0,
                    ) is Some,
                crate::excellon_format::entries(commands@) == kept + adopted_all(
                    s.take(i as int),
                    start,
                    ids@,
                    unit,
                ).0,
                state.modal() == adopted_all(s.take(i as int), start, ids@, unit).1,
            decreases other.commands@.len() - i,
        {
            let ghost before = commands@;
            proof {
                assert(s.take(i + 1).drop_last() =~= s.take(i as int));
                assert(s.take(i + 1).last() == crate::excellon_format::entry_view(
                    other.commands@[i as int],
                ));
                assert(s[i as int] == crate::excellon_format::entry_view(
                    other.commands@[i as int],
                ));
                if let Ok(Command::Tool(t)) = s[i as int] {
                    table::lemma_lookup(other@.tools, t);
                    let k = choose|k: int|
                        0 <= k < other@.tools.len() && (#[trigger] other@.tools[k]).0 == t;
                    assert(table::lookup(ids@, other@.tools[k].0) is Some);
                }
            }
            if let Some(e) = adopt(&other.commands[i], &mut state, &ids, &unit) {
                commands.push(e);
                assert(crate::excellon_format::entries(commands@)
                    =~= crate::excellon_format::entries(before).push(
                    crate::excellon_format::entry_view(e),
                ));
            }
            assert(crate::excellon_format::entries(commands@) =~= kept + adopted_all(
                s.take(i + 1),
                start,
                ids@,
                unit,
            ).0);
            i = i + 1;
        }
        assert(s.take(i as int) =~= s);
        self.commands = commands;
    }
}

/// How far the copy in cell `c` of a grid of `nx` columns is moved.
pub open spec fn cell_offset<N: Scalar>(c: nat, nx: nat, offset: Pos<N>) -> Pos<N> {
    Pos {
        x: N::count_spec((c % nx) as u64).times_spec(offset.x),
        y: N::count_spec((c / nx) as u64).times_spec(offset.y),
    }
}

/// `v` in the first cells of a grid, row by row.
pub open spec fn repeated_layer<N: Scalar>(
    v: ExcellonView<N>,
    nx: nat,
    cells: nat,
    offset: Pos<N>,
) -> ExcellonView<N>
    decreases cells,
{
    if cells <= 1 {
        v
    } else {
        merged_layers(
            repeated_layer(v, nx, (cells - 1) as nat, offset),
            crate::excellon_format::edit::moved_layer(
                v,
                cell_offset((cells - 1) as nat, nx, offset),
            ),
        )
    }
}

/// A move leaves the tools as they are.
proof fn lemma_moved_tools<N: Scalar>(v: ExcellonView<N>, by: Pos<N>)
    requires
        tools_defined(v),
    ensures
        tools_defined(crate::excellon_format::edit::moved_layer(v, by)),
        crate::excellon_format::edit::moved_layer(v, by).tools == v.tools,
{
    let w = crate::excellon_format::edit::moved_layer(v, by);
    assert forall|i: int| 0 <= i < w.commands.len() implies (
    #[trigger] w.commands[i] matches Ok(Command::Tool(t)) ==> table::lookup(w.tools, t) is Some) by {
        assert(w.commands[i] == crate::excellon_format::edit::on_command(
            v.commands[i],
            |c: Command<N, Seq<char>>| crate::excellon_format::edit::moved(c, by),
        ));
        if let Ok(Command::Tool(t)) = w.commands[i] {
            assert(v.commands[i] == w.commands[i]);
        }
    }
}

/// More cells have no fewer tools.
proof fn lemma_repeated_tools<N: Scalar>(
    v: ExcellonView<N>,
    nx: nat,
    few: nat,
    many: nat,
    offset: Pos<N>,
)
    requires
        table::ordered(v.tools),
        tools_defined(v),
        1 <= few <= many,
    ensures
        table::ordered(repeated_layer(v, nx, many, offset).tools),
        repeated_layer(v, nx, few, offset).tools.len() <= repeated_layer(
            v,
            nx,
            many,
            offset,
        ).tools.len(),
    decreases many,
{
    if many > 1 {
        let less = (many - 1) as nat;
        if few < many {
            lemma_repeated_tools(v, nx, few, less, offset);
        } else {
            lemma_repeated_tools(v, nx, less, less, offset);
        }
        let r = repeated_layer(v, nx, less, offset);
        lemma_moved_tools(v, cell_offset(less, nx, offset));
        lemma_merged_tools(r.tools, v.tools, v.unit.unit, r.unit.unit);
        lemma_tools_kept(r.tools, v.tools, 0, v.unit.unit, r.unit.unit);
    }
}

impl<N: Scalar> LayerStepAndRepeat<N> for ExcellonLayerData<N> {
    open spec fn repeated(
        v: ExcellonView<N>,
        x_repetitions: u32,
        y_repetitions: u32,
        offset: Pos<N>,
    ) -> ExcellonView<N> {
        repeated_layer(
            v,
            x_repetitions as nat,
            x_repetitions as nat * y_repetitions as nat,
            offset,
        )
    }

    open spec fn repeatable(
        v: ExcellonView<N>,
        x_repetitions: u32,
        y_repetitions: u32,
        offset: Pos<N>,
    ) -> bool {
        let cells = x_repetitions as nat * y_repetitions as nat;
        cells <= 1 || (tools_defined(v) && repeated_layer(
            v,
            x_repetitions as nat,
            cells,
            offset,
        ).tools.len() < u32::MAX)
    }

    fn step_and_repeat(&mut self, x_repetitions: u32, y_repetitions: u32, offset: &Pos<N>) {
        let copy = self.clone();
        let ghost v = self@;
        let ghost nx = x_repetitions as nat;
        proof {
            assert(0 <= x_repetitions * y_repetitions <= 0xffff_ffff * 0xffff_ffff)
                by (nonlinear_arith)
                requires
                    0 <= x_repetitions <= 0xffff_ffff,
                    0 <= y_repetitions <= 0xffff_ffff,
            ;
        }
        let cells: u64 = x_repetitions as u64 * y_repetitions as u64;
        let have: usize = self.tools.len();
        if cells <= 1 {
            return;
        }
        let mut c: u64 = 1;
        while c < cells
            invariant
                1 <= c <= cells,
                cells == x_repetitions * y_repetitions,
                nx == x_repetitions as nat,
                nx > 0,
                copy@ == v,
                tools_defined(v),
                table::ordered(v.tools),
                repeated_layer(v, nx, cells as nat, *offset).tools.len() < u32::MAX,
                self@ == repeated_layer(v, nx, c as nat, *offset),
                table::ordered(self@.tools),
            decreases cells - c,
        {
            let pos = Pos {
                x: N::count(c % x_repetitions as u64).times(offset.x),
                y: N::count(c / x_repetitions as u64).times(offset.y),
            };
            assert(pos == cell_offset(c as nat, nx, *offset));
            let mut next = copy.clone();
            next.transform(&pos);
            proof {
                lemma_moved_tools(v, pos);
                lemma_repeated_tools(v, nx, (c + 1) as nat, cells as nat, *offset);
                lemma_merged_tools(self@.tools, v.tools, v.unit.unit, self@.unit.unit);
            }
            self.merge(&next);
            c = c + 1;
        }
    }
}

} // verus!
