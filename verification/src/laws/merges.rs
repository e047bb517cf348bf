//! What merging keeps.
use crate::excellon_format;
use crate::excellon_format::merge as drill;
use crate::excellon_format::corners::Plot;
use crate::excellon_format::{
    Command, EntryView, ExcellonView, GeometricCode, InputMode, UnitDefinition,
};
use crate::fixed::Fixed;
use crate::gerber_types::Unit;
use crate::scalar::Scalar;
use crate::table;
use crate::unit_able;
use crate::Pos;
use vstd::prelude::*;

verus! {

pub proof fn lemma_ordered_prefix<V>(s: Seq<(u32, V)>)
    requires
        s.len() > 0,
        table::ordered(s),
    ensures
        table::ordered(s.drop_last()),
{
    let t = s.drop_last();
    assert forall|i: int, j: int| 0 <= i < j < t.len() implies table::Key::rank_spec(
        (#[trigger] t[i]).0,
    ) < table::Key::rank_spec((#[trigger] t[j]).0) by {
        assert(t[i] == s[i] && t[j] == s[j]);
    }
}

/// A tool of the same diameter is a tool of that diameter.
pub proof fn lemma_same_diameter(tools: Seq<(u32, Fixed)>, d: Fixed) -> (i: int)
    requires
        drill::same_diameter(tools, d) is Some,
    ensures
        0 <= i < tools.len(),
        tools[i] == (drill::same_diameter(tools, d)->0, d),
    decreases tools.len(),
{
    if tools[0].1.same_spec(d) {
        0
    } else {
        let i = lemma_same_diameter(tools.skip(1), d);
        i + 1
    }
}

/// The number for a tool is that of an equal tool, or free.
pub proof fn lemma_tool_for(tools: Seq<(u32, Fixed)>, d: Fixed)
    requires
        table::ordered(tools),
        tools.len() < u32::MAX,
    ensures
        ({
            let id = drill::tool_for(tools, d);
            table::lookup(tools, id) == Some(d) || table::lookup(tools, id) is None
        }),
{
    let id = drill::tool_for(tools, d);
    match drill::same_diameter(tools, d) {
        Some(_) => {
            let i = lemma_same_diameter(tools, d);
            table::lemma_lookup(tools, id);
            assert(tools[i].0 == id);
        },
        None => {
            table::lemma_free_exists(tools, 1);
            table::lemma_taken(tools, id);
        },
    }
}

/// Every tool keeps its number and its diameter, and every tool of the other layer is found, in the
/// unit of the first, under the number that it is given.
pub proof fn law_merged_tools(
    tools: Seq<(u32, Fixed)>,
    other: Seq<(u32, Fixed)>,
    from: Unit,
    to: Unit,
)
    requires
        table::ordered(tools),
        table::ordered(other),
        drill::merged_tools(tools, other, from, to).0.len() < u32::MAX,
    ensures
        ({
            let (all, ids) = drill::merged_tools(tools, other, from, to);
            &&& forall|k: u32|
                #[trigger] table::lookup(tools, k) is Some ==> table::lookup(all, k)
                    == table::lookup(tools, k)
            &&& forall|k: u32|
                #[trigger] table::lookup(other, k) matches Some(d) ==> table::lookup(ids, k) is Some
                    && table::lookup(all, table::lookup(ids, k)->0) == Some(
                    unit_able::converted::<Fixed, Fixed>(d, from, to),
                )
        }),
    decreases other.len(),
{
    let (all, ids) = drill::merged_tools(tools, other, from, to);
    if other.len() == 0 {
        assert forall|k: u32| #[trigger] table::lookup(other, k) is None by {}
    } else {
        let rest = other.drop_last();
        lemma_ordered_prefix(other);
        drill::lemma_tools_kept(tools, other, rest.len() as int, from, to);
        assert(other.take(rest.len() as int) =~= rest);
        law_merged_tools(tools, rest, from, to);
        drill::lemma_merged_tools(tools, rest, from, to);
        let (before, known) = drill::merged_tools(tools, rest, from, to);
        let (last, diameter) = other.last();
        let d = unit_able::converted::<Fixed, Fixed>(diameter, from, to);
        let id = drill::tool_for(before, d);
        lemma_tool_for(before, d);
        table::lemma_inserted(before, id, d);
        table::lemma_inserted(known, last, id);
        assert forall|k: u32| #[trigger] table::lookup(tools, k) is Some implies table::lookup(
            all,
            k,
        ) == table::lookup(tools, k) by {
            assert(table::lookup(before, k) == table::lookup(tools, k));
        }
        assert forall|k: u32| #[trigger] table::lookup(other, k) is Some implies table::lookup(
            ids,
            k,
        ) is Some && table::lookup(all, table::lookup(ids, k)->0) == Some(
            unit_able::converted::<Fixed, Fixed>(table::lookup(other, k)->0, from, to),
        ) by {
            table::lemma_lookup(other, k);
            table::lemma_lookup(rest, k);
            let v = table::lookup(other, k)->0;
            let i = choose|i: int| 0 <= i < other.len() && #[trigger] other[i] == (k, v);
            if i < rest.len() {
                assert(rest[i] == other[i]);
                assert(table::lookup(rest, k) == Some(v));
                if k == last {
                    assert(other[i].0 < other[other.len() - 1].0);
                }
            } else {
                assert(k == last);
            }
        }
    }
}

/// A hit, with the digit counts of `fmt`.
pub open spec fn adopted_hit(e: EntryView<Fixed>, fmt: UnitDefinition) -> EntryView<Fixed> {
    match e {
        Ok(Command::Coordinate(x, y, f)) => Ok(Command::Coordinate(x, y, drill::with_digits(f, fmt))),
        Ok(Command::Slot { from_x, from_y, to_x, to_y, fmt: f }) => Ok(
            Command::Slot { from_x, from_y, to_x, to_y, fmt: drill::with_digits(f, fmt) },
        ),
        other => other,
    }
}

/// The drill hits and slots among the entries.
pub open spec fn hits(s: Seq<EntryView<Fixed>>) -> Seq<EntryView<Fixed>>
    decreases s.len(),
{
    if s.len() == 0 {
        Seq::empty()
    } else if excellon_format::edit::is_hit(s.last()) {
        hits(s.drop_last()).push(s.last())
    } else {
        hits(s.drop_last())
    }
}

proof fn lemma_hits_concat(a: Seq<EntryView<Fixed>>, b: Seq<EntryView<Fixed>>)
    ensures
        hits(a + b) == hits(a) + hits(b),
    decreases b.len(),
{
    if b.len() == 0 {
        assert(a + b =~= a);
        assert(hits(a) + hits(b) =~= hits(a));
    } else {
        lemma_hits_concat(a, b.drop_last());
        assert((a + b).drop_last() =~= a + b.drop_last());
        assert((a + b).last() == b.last());
        assert((hits(a) + hits(b.drop_last())).push(b.last()) =~= hits(a) + hits(
            b.drop_last(),
        ).push(b.last()));
    }
}

/// The end of the program falls away.
pub open spec fn without_end(s: Seq<EntryView<Fixed>>) -> Seq<EntryView<Fixed>> {
    s.filter(|e: EntryView<Fixed>| !drill::ends_program(e))
}

proof fn lemma_without_end(s: Seq<EntryView<Fixed>>)
    requires
        s.len() > 0,
    ensures
        without_end(s) == if drill::ends_program(s.last()) {
            without_end(s.drop_last())
        } else {
            without_end(s.drop_last()).push(s.last())
        },
{
    reveal(Seq::filter);
}

proof fn lemma_hits_without_end(s: Seq<EntryView<Fixed>>)
    ensures
        hits(without_end(s)) == hits(s),
    decreases s.len(),
{
    if s.len() == 0 {
        reveal(Seq::filter);
    } else {
        lemma_without_end(s);
        lemma_hits_without_end(s.drop_last());
        let t = without_end(s.drop_last());
        assert(t.push(s.last()).drop_last() =~= t);
    }
}

proof fn lemma_hits_adopted(
    s: Seq<EntryView<Fixed>>,
    m: drill::Modal,
    ids: Seq<(u32, u32)>,
    fmt: UnitDefinition,
)
    ensures
        hits(drill::adopted_all(s, m, ids, fmt).0) == hits(s).map_values(
            |e: EntryView<Fixed>| adopted_hit(e, fmt),
        ),
    decreases s.len(),
{
    let f = |e: EntryView<Fixed>| adopted_hit(e, fmt);
    if s.len() == 0 {
        assert(hits(s).map_values(f) =~= Seq::empty());
    } else {
        lemma_hits_adopted(s.drop_last(), m, ids, fmt);
        let (before, state) = drill::adopted_all(s.drop_last(), m, ids, fmt);
        let e = s.last();
        let (more, next) = drill::adopted(e, state, ids, fmt);
        lemma_hits_concat(before, more);
        reveal_with_fuel(hits, 2);
        if more.len() > 0 {
            assert(more.drop_last() =~= Seq::empty());
        }
        if excellon_format::edit::is_hit(e) {
            assert(more =~= seq![f(e)]);
            assert(hits(more) =~= seq![f(e)]);
            assert(hits(s).map_values(f) =~= hits(s.drop_last()).map_values(f).push(f(e)));
        } else {
            assert(hits(more) =~= Seq::empty());
        }
    }
}

/// A merged layer drills what the first layer drills and then what the other one does; the others
/// take over the digit counts of the layer.
pub proof fn law_merged_hits(v: ExcellonView<Fixed>, other: ExcellonView<Fixed>)
    ensures
        hits(drill::merged_layers(v, other).commands) == hits(v.commands) + hits(
            other.commands,
        ).map_values(|e: EntryView<Fixed>| adopted_hit(e, v.unit)),
{
    let (tools, ids) = drill::merged_tools(
        v.tools,
        other.tools,
        other.unit.unit,
        v.unit.unit,
    );
    let more = drill::adopted_all(other.commands, drill::end_state(v), ids, v.unit).0;
    lemma_hits_without_end(v.commands);
    lemma_hits_adopted(other.commands, drill::end_state(v), ids, v.unit);
    lemma_hits_concat(without_end(v.commands), more);
}

proof fn lemma_adopted_tools(
    s: Seq<EntryView<Fixed>>,
    m: drill::Modal,
    ids: Seq<(u32, u32)>,
    fmt: UnitDefinition,
    other: Seq<(u32, Fixed)>,
    all: Seq<(u32, Fixed)>,
)
    requires
        forall|i: int|
            0 <= i < s.len() ==> (#[trigger] s[i] matches Ok(Command::Tool(t)) ==> table::lookup(
                other,
                t,
            ) is Some),
        forall|k: u32|
            #[trigger] table::lookup(other, k) is Some ==> table::lookup(ids, k) is Some
                && table::lookup(all, table::lookup(ids, k)->0) is Some,
    ensures
        ({
            let r = drill::adopted_all(s, m, ids, fmt).0;
            forall|i: int|
                0 <= i < r.len() ==> (#[trigger] r[i] matches Ok(Command::Tool(t))
                    ==> table::lookup(all, t) is Some)
        }),
    decreases s.len(),
{
    if s.len() > 0 {
        let d = s.drop_last();
        assert forall|i: int| 0 <= i < d.len() implies (#[trigger] d[i] matches Ok(Command::Tool(t))
            ==> table::lookup(other, t) is Some) by {
            assert(d[i] == s[i]);
        }
        lemma_adopted_tools(d, m, ids, fmt, other, all);
        let (before, state) = drill::adopted_all(d, m, ids, fmt);
        assert(s[s.len() - 1] == s.last());
        let (more, next) = drill::adopted(s.last(), state, ids, fmt);
        let r = before + more;
        assert forall|i: int| 0 <= i < r.len() implies (#[trigger] r[i] matches Ok(Command::Tool(t))
            ==> table::lookup(all, t) is Some) by {
            if i < before.len() {
                assert(r[i] == before[i]);
            } else {
                assert(r[i] == more[i - before.len()]);
            }
        }
    }
}

/// Merging leaves no tool undefined.
pub proof fn law_merged_tools_defined(v: ExcellonView<Fixed>, other: ExcellonView<Fixed>)
    requires
        table::ordered(v.tools),
        table::ordered(other.tools),
        drill::tools_defined(v),
        drill::layers_mergeable(v, other),
    ensures
        drill::tools_defined(drill::merged_layers(v, other)),
        table::ordered(drill::merged_layers(v, other).tools),
{
    let w = drill::merged_layers(v, other);
    let (all, ids) = drill::merged_tools(v.tools, other.tools, other.unit.unit, v.unit.unit);
    law_merged_tools(v.tools, other.tools, other.unit.unit, v.unit.unit);
    drill::lemma_merged_tools(v.tools, other.tools, other.unit.unit, v.unit.unit);
    lemma_adopted_tools(
        other.commands,
        drill::end_state(v),
        ids,
        v.unit,
        other.tools,
        all,
    );
    let kept = without_end(v.commands);
    let more = drill::adopted_all(other.commands, drill::end_state(v), ids, v.unit).0;
    assert forall|i: int|
        0 <= i < w.commands.len() implies (#[trigger] w.commands[i] matches Ok(Command::Tool(t))
        ==> table::lookup(all, t) is Some) by {
        if i < kept.len() {
            assert(w.commands[i] == kept[i]);
            v.commands.lemma_filter_contains_rev(
                |e: EntryView<Fixed>| !drill::ends_program(e),
                kept[i],
            );
            let j = choose|j: int| 0 <= j < v.commands.len() && v.commands[j] == kept[i];
            assert(v.commands[j] == kept[i]);
        } else {
            assert(w.commands[i] == more[i - kept.len()]);
        }
    }
}

/// The box around two boxes.
#[verifier::opaque]
pub open spec fn hull(a: (Pos<Fixed>, Pos<Fixed>), b: (Pos<Fixed>, Pos<Fixed>)) -> (
    Pos<Fixed>,
    Pos<Fixed>,
) {
    (
        Pos { x: a.0.x.lower_spec(b.0.x), y: a.0.y.lower_spec(b.0.y) },
        Pos { x: a.1.x.higher_spec(b.1.x), y: a.1.y.higher_spec(b.1.y) },
    )
}

/// What a program does not take over from the one in front of it: whether a tool is selected, and
/// the axes on which it has said where it is.
#[verifier::ext_equal]
pub ghost struct Footing {
    pub tool: bool,
    pub x: bool,
    pub y: bool,
}

pub open spec fn footing(s: Seq<EntryView<Fixed>>) -> Footing
    decreases s.len(),
{
    if s.len() == 0 {
        Footing { tool: false, x: false, y: false }
    } else {
        let f = footing(s.drop_last());
        match s.last() {
            Ok(Command::Tool(_)) => Footing { tool: true, ..f },
            Ok(Command::Coordinate(x, y, _)) => Footing {
                x: f.x || x is Some,
                y: f.y || y is Some,
                ..f
            },
            Ok(Command::Slot { to_x, to_y, .. }) => Footing {
                x: f.x || to_x is Some,
                y: f.y || to_y is Some,
                ..f
            },
            _ => f,
        }
    }
}

/// The entry takes nothing from what stands in front of the program, and stays with absolute input.
pub open spec fn stands_alone(e: EntryView<Fixed>, f: Footing) -> bool {
    match e {
        Ok(Command::Coordinate(x, y, _)) => f.tool && (x is Some || f.x) && (y is Some || f.y),
        Ok(Command::Slot { from_x, from_y, to_x, to_y, .. }) => f.tool && ((from_x is Some
            && to_x is Some) || f.x) && ((from_y is Some && to_y is Some) || f.y),
        Ok(Command::Geometric(GeometricCode::InputMode(im))) => im == InputMode::Absolute,
        _ => true,
    }
}

/// A program with absolute input that selects a tool and says where it is before it drills.
pub open spec fn self_contained(v: ExcellonView<Fixed>) -> bool {
    &&& drill::last_incremental(v.header) != Some(true)
    &&& forall|i: int|
        0 <= i < v.commands.len() ==> stands_alone(
            #[trigger] v.commands[i],
            footing(v.commands.take(i)),
        )
}

/// Every input mode is absolute.
pub open spec fn stays_absolute(v: ExcellonView<Fixed>) -> bool {
    &&& drill::last_incremental(v.header) != Some(true)
    &&& forall|i: int|
        0 <= i < v.commands.len() ==> (#[trigger] v.commands[i] matches Ok(
            Command::Geometric(GeometricCode::InputMode(im)),
        ) ==> im == InputMode::Absolute)
}

proof fn lemma_last_input_mode(s: Seq<EntryView<Fixed>>)
    requires
        forall|i: int|
            0 <= i < s.len() ==> (#[trigger] s[i] matches Ok(
                Command::Geometric(GeometricCode::InputMode(im)),
            ) ==> im == InputMode::Absolute),
    ensures
        drill::last_input_mode(s) matches Some(im) ==> im == InputMode::Absolute,
    decreases s.len(),
{
    if s.len() > 0 {
        let d = s.drop_last();
        assert(s[s.len() - 1] == s.last());
        assert forall|i: int| 0 <= i < d.len() implies (#[trigger] d[i] matches Ok(
            Command::Geometric(GeometricCode::InputMode(im)),
        ) ==> im == InputMode::Absolute) by {
            assert(d[i] == s[i]);
        }
        lemma_last_input_mode(d);
    }
}

/// The first program, with the tools of the merged layer and without its end: it plots the same,
/// and the radius in force is that of its last tool.
proof fn lemma_first_plot(
    start: Plot<Fixed>,
    s: Seq<EntryView<Fixed>>,
    tools: Seq<(u32, Fixed)>,
    all: Seq<(u32, Fixed)>,
    unit: Unit,
)
    requires
        !start.incremental,
        forall|k: u32|
            #[trigger] table::lookup(tools, k) is Some ==> table::lookup(all, k) == table::lookup(
                tools,
                k,
            ),
        forall|i: int|
            0 <= i < s.len() ==> (#[trigger] s[i] matches Ok(Command::Tool(t)) ==> table::lookup(
                tools,
                t,
            ) is Some),
        forall|i: int|
            0 <= i < s.len() ==> (#[trigger] s[i] matches Ok(
                Command::Geometric(GeometricCode::InputMode(im)),
            ) ==> im == InputMode::Absolute),
    ensures
        ({
            let p = excellon_format::corners::plotted(start, without_end(s), all, unit);
            &&& p == excellon_format::corners::plotted(start, s, tools, unit)
            &&& !p.incremental
            &&& drill::last_tool(s) matches Some(id) ==> p.radius
                == excellon_format::corners::tool_radius(all, id, unit)
        }),
    decreases s.len(),
{
    if s.len() == 0 {
        reveal(Seq::filter);
    } else {
        let d = s.drop_last();
        assert(s[s.len() - 1] == s.last());
        assert forall|i: int| 0 <= i < d.len() implies (#[trigger] d[i] matches Ok(Command::Tool(t))
            ==> table::lookup(tools, t) is Some) by {
            assert(d[i] == s[i]);
        }
        assert forall|i: int| 0 <= i < d.len() implies (#[trigger] d[i] matches Ok(
            Command::Geometric(GeometricCode::InputMode(im)),
        ) ==> im == InputMode::Absolute) by {
            assert(d[i] == s[i]);
        }
        lemma_first_plot(start, d, tools, all, unit);
        lemma_without_end(s);
        let t = without_end(d);
        assert(t.push(s.last()).drop_last() =~= t);
    }
}

/// The plot of a program behind another one, `p`, and of the program alone, `q`.
pub open spec fn continues(
    p: Plot<Fixed>,
    q: Plot<Fixed>,
    first: (Pos<Fixed>, Pos<Fixed>),
    m: drill::Modal,
    f: Footing,
    all: Seq<(u32, Fixed)>,
    unit: Unit,
) -> bool {
    &&& p.corners == hull(first, q.corners)
    &&& !p.incremental && !q.incremental
    &&& m.input_mode == InputMode::Absolute
    &&& f.tool ==> p.radius == q.radius
    &&& f.x ==> p.current.x == q.current.x
    &&& f.y ==> p.current.y == q.current.y
    &&& m.tool matches Some(id) ==> p.radius == excellon_format::corners::tool_radius(all, id, unit)
}

/// A hit widens the box around two boxes as it widens one of them.
proof fn lemma_hit_hull(
    first: (Pos<Fixed>, Pos<Fixed>),
    b: (Pos<Fixed>, Pos<Fixed>),
    at: Pos<Fixed>,
    radius: Fixed,
)
    ensures
        excellon_format::corners::with_hit(hull(first, b), at, radius) == hull(
            first,
            excellon_format::corners::with_hit(b, at, radius),
        ),
{
    reveal(hull);
}

/// A plot behind one adopted entry.
proof fn lemma_plotted_one(
    p: Plot<Fixed>,
    more: Seq<EntryView<Fixed>>,
    all: Seq<(u32, Fixed)>,
    unit: Unit,
)
    requires
        more.len() <= 1,
    ensures
        excellon_format::corners::plotted(p, more, all, unit) == if more.len() == 0 {
            p
        } else {
            p.after(more[0], all, unit)
        },
{
    reveal_with_fuel(excellon_format::corners::plotted, 2);
    if more.len() > 0 {
        assert(more.drop_last() =~= Seq::empty());
    }
}

proof fn lemma_coordinate_continues(
    p: Plot<Fixed>,
    q: Plot<Fixed>,
    first: (Pos<Fixed>, Pos<Fixed>),
    m: drill::Modal,
    s: Seq<EntryView<Fixed>>,
    all: Seq<(u32, Fixed)>,
    tools: Seq<(u32, Fixed)>,
    ids: Seq<(u32, u32)>,
    fmt: UnitDefinition,
    unit: Unit,
)
    requires
        s.len() > 0,
        s.last() is Ok && s.last()->Ok_0 is Coordinate,
        continues(p, q, first, m, footing(s.drop_last()), all, unit),
        stands_alone(s.last(), footing(s.drop_last())),
        s.last() matches Ok(Command::Tool(t)) ==> table::lookup(tools, t) is Some,
        forall|k: u32|
            #[trigger] table::lookup(tools, k) is Some ==> table::lookup(ids, k) is Some
                && table::lookup(all, table::lookup(ids, k)->0) == table::lookup(tools, k),
    ensures
        ({
            let (more, next) = drill::adopted(s.last(), m, ids, fmt);
            continues(
                excellon_format::corners::plotted(p, more, all, unit),
                q.after(s.last(), tools, unit),
                first,
                next,
                footing(s),
                all,
                unit,
            )
        }),
{
    let e = s.last();
    let (more, next) = drill::adopted(e, m, ids, fmt);
    lemma_plotted_one(p, more, all, unit);
    match e {
        Ok(Command::Coordinate(x, y, g)) => {
            lemma_hit_hull(first, q.corners, p.target(x, y, g.unit), p.radius);
        },
        _ => {},
    }
}

proof fn lemma_slot_continues(
    p: Plot<Fixed>,
    q: Plot<Fixed>,
    first: (Pos<Fixed>, Pos<Fixed>),
    m: drill::Modal,
    s: Seq<EntryView<Fixed>>,
    all: Seq<(u32, Fixed)>,
    tools: Seq<(u32, Fixed)>,
    ids: Seq<(u32, u32)>,
    fmt: UnitDefinition,
    unit: Unit,
)
    requires
        s.len() > 0,
        s.last() is Ok && s.last()->Ok_0 is Slot,
        continues(p, q, first, m, footing(s.drop_last()), all, unit),
        stands_alone(s.last(), footing(s.drop_last())),
        s.last() matches Ok(Command::Tool(t)) ==> table::lookup(tools, t) is Some,
        forall|k: u32|
            #[trigger] table::lookup(tools, k) is Some ==> table::lookup(ids, k) is Some
                && table::lookup(all, table::lookup(ids, k)->0) == table::lookup(tools, k),
    ensures
        ({
            let (more, next) = drill::adopted(s.last(), m, ids, fmt);
            continues(
                excellon_format::corners::plotted(p, more, all, unit),
                q.after(s.last(), tools, unit),
                first,
                next,
                footing(s),
                all,
                unit,
            )
        }),
{
    let e = s.last();
    let (more, next) = drill::adopted(e, m, ids, fmt);
    lemma_plotted_one(p, more, all, unit);
    match e {
        Ok(Command::Slot { from_x, from_y, to_x, to_y, fmt: g }) => {
            let from = Pos {
                x: excellon_format::corners::in_mm(from_x, g.unit, p.current.x),
                y: excellon_format::corners::in_mm(from_y, g.unit, p.current.y),
            };
            let to = Pos {
                x: excellon_format::corners::in_mm(to_x, g.unit, p.current.x),
                y: excellon_format::corners::in_mm(to_y, g.unit, p.current.y),
            };
            let c = excellon_format::corners::with_hit(q.corners, from, q.radius);
            lemma_hit_hull(first, q.corners, from, p.radius);
            lemma_hit_hull(first, c, to, p.radius);
        },
        _ => {},
    }
}

proof fn lemma_other_continues(
    p: Plot<Fixed>,
    q: Plot<Fixed>,
    first: (Pos<Fixed>, Pos<Fixed>),
    m: drill::Modal,
    s: Seq<EntryView<Fixed>>,
    all: Seq<(u32, Fixed)>,
    tools: Seq<(u32, Fixed)>,
    ids: Seq<(u32, u32)>,
    fmt: UnitDefinition,
    unit: Unit,
)
    requires
        s.len() > 0,
        !excellon_format::edit::is_hit(s.last()),
        continues(p, q, first, m, footing(s.drop_last()), all, unit),
        stands_alone(s.last(), footing(s.drop_last())),
        s.last() matches Ok(Command::Tool(t)) ==> table::lookup(tools, t) is Some,
        forall|k: u32|
            #[trigger] table::lookup(tools, k) is Some ==> table::lookup(ids, k) is Some
                && table::lookup(all, table::lookup(ids, k)->0) == table::lookup(tools, k),
    ensures
        ({
            let (more, next) = drill::adopted(s.last(), m, ids, fmt);
            continues(
                excellon_format::corners::plotted(p, more, all, unit),
                q.after(s.last(), tools, unit),
                first,
                next,
                footing(s),
                all,
                unit,
            )
        }),
{
    let e = s.last();
    let (more, next) = drill::adopted(e, m, ids, fmt);
    lemma_plotted_one(p, more, all, unit);
    match e {
        Ok(Command::Tool(t)) => {
            assert(table::lookup(tools, t) is Some);
        },
        _ => {},
    }
}

proof fn lemma_continues(
    p: Plot<Fixed>,
    q: Plot<Fixed>,
    first: (Pos<Fixed>, Pos<Fixed>),
    m: drill::Modal,
    s: Seq<EntryView<Fixed>>,
    all: Seq<(u32, Fixed)>,
    tools: Seq<(u32, Fixed)>,
    ids: Seq<(u32, u32)>,
    fmt: UnitDefinition,
    unit: Unit,
)
    requires
        s.len() > 0,
        continues(p, q, first, m, footing(s.drop_last()), all, unit),
        stands_alone(s.last(), footing(s.drop_last())),
        s.last() matches Ok(Command::Tool(t)) ==> table::lookup(tools, t) is Some,
        forall|k: u32|
            #[trigger] table::lookup(tools, k) is Some ==> table::lookup(ids, k) is Some
                && table::lookup(all, table::lookup(ids, k)->0) == table::lookup(tools, k),
    ensures
        ({
            let (more, next) = drill::adopted(s.last(), m, ids, fmt);
            continues(
                excellon_format::corners::plotted(p, more, all, unit),
                q.after(s.last(), tools, unit),
                first,
                next,
                footing(s),
                all,
                unit,
            )
        }),
{
    let e = s.last();
    if !excellon_format::edit::is_hit(e) {
        lemma_other_continues(p, q, first, m, s, all, tools, ids, fmt, unit);
    } else if e->Ok_0 is Coordinate {
        lemma_coordinate_continues(p, q, first, m, s, all, tools, ids, fmt, unit);
    } else {
        lemma_slot_continues(p, q, first, m, s, all, tools, ids, fmt, unit);
    }
}

proof fn lemma_plotted_concat(
    start: Plot<Fixed>,
    a: Seq<EntryView<Fixed>>,
    b: Seq<EntryView<Fixed>>,
    tools: Seq<(u32, Fixed)>,
    unit: Unit,
)
    ensures
        excellon_format::corners::plotted(start, a + b, tools, unit)
            == excellon_format::corners::plotted(
            excellon_format::corners::plotted(start, a, tools, unit),
            b,
            tools,
            unit,
        ),
    decreases b.len(),
{
    if b.len() == 0 {
        assert(a + b =~= a);
    } else {
        lemma_plotted_concat(start, a, b.drop_last(), tools, unit);
        assert((a + b).drop_last() =~= a + b.drop_last());
        assert((a + b).last() == b.last());
    }
}

proof fn lemma_all_continues(
    p: Plot<Fixed>,
    q: Plot<Fixed>,
    first: (Pos<Fixed>, Pos<Fixed>),
    m: drill::Modal,
    s: Seq<EntryView<Fixed>>,
    all: Seq<(u32, Fixed)>,
    tools: Seq<(u32, Fixed)>,
    ids: Seq<(u32, u32)>,
    fmt: UnitDefinition,
    unit: Unit,
)
    requires
        continues(p, q, first, m, footing(Seq::empty()), all, unit),
        forall|i: int| 0 <= i < s.len() ==> stands_alone(#[trigger] s[i], footing(s.take(i))),
        forall|i: int|
            0 <= i < s.len() ==> (#[trigger] s[i] matches Ok(Command::Tool(t)) ==> table::lookup(
                tools,
                t,
            ) is Some),
        forall|k: u32|
            #[trigger] table::lookup(tools, k) is Some ==> table::lookup(ids, k) is Some
                && table::lookup(all, table::lookup(ids, k)->0) == table::lookup(tools, k),
    ensures
        ({
            let (more, next) = drill::adopted_all(s, m, ids, fmt);
            continues(
                excellon_format::corners::plotted(p, more, all, unit),
                excellon_format::corners::plotted(q, s, tools, unit),
                first,
                next,
                footing(s),
                all,
                unit,
            )
        }),
    decreases s.len(),
{
    if s.len() == 0 {
        assert(s =~= Seq::empty());
    } else {
        let d = s.drop_last();
        let n = s.len() - 1;
        assert(stands_alone(s[n], footing(s.take(n))));
        assert(s.take(n) =~= d);
        assert forall|i: int| 0 <= i < d.len() implies stands_alone(
            #[trigger] d[i],
            footing(d.take(i)),
        ) by {
            assert(stands_alone(s[i], footing(s.take(i))));
            assert(d.take(i) =~= s.take(i));
        }
        assert forall|i: int| 0 <= i < d.len() implies (#[trigger] d[i] matches Ok(Command::Tool(t))
            ==> table::lookup(tools, t) is Some) by {
            assert(d[i] == s[i]);
        }
        lemma_all_continues(p, q, first, m, d, all, tools, ids, fmt, unit);
        let (before, state) = drill::adopted_all(d, m, ids, fmt);
        let (more, next) = drill::adopted(s.last(), state, ids, fmt);
        lemma_continues(
            excellon_format::corners::plotted(p, before, all, unit),
            excellon_format::corners::plotted(q, d, tools, unit),
            first,
            state,
            s,
            all,
            tools,
            ids,
            fmt,
            unit,
        );
        lemma_plotted_concat(p, before, more, all, unit);
    }
}

/// The bounding box of a merged layer is the box around the boxes of its parts. Both layers are in
/// millimetres with absolute input, and the appended one selects a tool and says where it is before
/// it drills.
pub proof fn law_merged_box(v: ExcellonView<Fixed>, other: ExcellonView<Fixed>)
    requires
        table::ordered(v.tools),
        table::ordered(other.tools),
        v.unit.unit == Unit::Millimeters,
        other.unit.unit == Unit::Millimeters,
        drill::tools_defined(v),
        drill::layers_mergeable(v, other),
        stays_absolute(v),
        self_contained(other),
    ensures
        excellon_format::corners::layer_corners(drill::merged_layers(v, other)) == hull(
            excellon_format::corners::layer_corners(v),
            excellon_format::corners::layer_corners(other),
        ),
{
    let unit = Unit::Millimeters;
    let (all, ids) = drill::merged_tools(v.tools, other.tools, unit, unit);
    law_merged_tools(v.tools, other.tools, unit, unit);
    let m = drill::end_state(v);
    let start = excellon_format::corners::plot_start(v.header);
    lemma_first_plot(start, v.commands, v.tools, all, unit);
    lemma_last_input_mode(v.commands);
    let p = excellon_format::corners::plotted(start, without_end(v.commands), all, unit);
    let q = excellon_format::corners::plot_start(other.header);
    assert(hull(p.corners, q.corners) == p.corners) by {
        reveal(hull);
    }
    lemma_all_continues(
        p,
        q,
        p.corners,
        m,
        other.commands,
        all,
        other.tools,
        ids,
        v.unit,
        unit,
    );
    let more = drill::adopted_all(other.commands, m, ids, v.unit).0;
    lemma_plotted_concat(start, without_end(v.commands), more, all, unit);
}

} // verus!
