//! What merging keeps of RS-274X layers.
use crate::fixed::Fixed;
use crate::gerber;
use crate::gerber::corners::Pen;
use crate::gerber::merge;
use crate::gerber::GerberView;
use crate::gerber_types::{
    ApertureView, Command, CommandView, CoordinateFormat, CoordinateOffset, Coordinates, DCode,
    FunctionCode, GCode, InterpolationMode, Operation, Unit,
};
use crate::laws::merges;
use crate::scalar::Scalar;
use crate::table;
use crate::Pos;
use vstd::prelude::*;

verus! {

/// To be of one shape and size is an equivalence.
pub proof fn lemma_same_aperture(
    a: ApertureView<Fixed>,
    b: ApertureView<Fixed>,
    c: ApertureView<Fixed>,
)
    ensures
        merge::same_aperture(a, a),
        merge::same_aperture(a, b) ==> merge::same_aperture(b, a),
        merge::same_aperture(a, b) && merge::same_aperture(b, c) ==> merge::same_aperture(a, c),
        merge::same_aperture(a, b) ==> gerber::corners::tool_box(a) == gerber::corners::tool_box(b),
{
    match (a, b) {
        (ApertureView::Macro(_, Some(x)), ApertureView::Macro(_, Some(y))) => {
            if merge::same_decimals(x, y) {
                assert forall|i: int| 0 <= i < y.len() implies merge::same_decimal::<Fixed>(
                    #[trigger] y[i],
                    x[i],
                ) by {
                    assert(merge::same_decimal(x[i], y[i]));
                }
                match c {
                    ApertureView::Macro(_, Some(z)) => {
                        if merge::same_decimals(y, z) {
                            assert forall|i: int| 0 <= i < x.len() implies merge::same_decimal::<
                                Fixed,
                            >(#[trigger] x[i], z[i]) by {
                                assert(merge::same_decimal(x[i], y[i]));
                                assert(merge::same_decimal(y[i], z[i]));
                            }
                        }
                    },
                    _ => {},
                }
            }
        },
        _ => {},
    }
}

pub proof fn lemma_equal_aperture(s: Seq<(i32, ApertureView<Fixed>)>, a: ApertureView<Fixed>) -> (i: int)
    requires
        merge::equal_aperture(s, a) is Some,
    ensures
        0 <= i < s.len(),
        s[i].0 == merge::equal_aperture(s, a)->0,
        merge::same_aperture(s[i].1, a),
    decreases s.len(),
{
    if merge::same_aperture(s[0].1, a) {
        0
    } else {
        let i = lemma_equal_aperture(s.skip(1), a);
        i + 1
    }
}

/// The number for an aperture is that of an equal one, or free.
pub proof fn lemma_aperture_for(s: Seq<(i32, ApertureView<Fixed>)>, a: ApertureView<Fixed>)
    requires
        table::ordered(s),
        s.len() <= i32::MAX - 10,
    ensures
        table::lookup(s, merge::aperture_for(s, a)) matches Some(b) ==> merge::same_aperture(b, a),
{
    let id = merge::aperture_for(s, a);
    match merge::equal_aperture(s, a) {
        Some(_) => {
            let i = lemma_equal_aperture(s, a);
            table::lemma_lookup(s, id);
            assert(s[i].0 == id);
        },
        None => {
            table::lemma_free_exists(s, 10);
            table::lemma_taken(s, id);
        },
    }
}

/// There is an aperture under `k`, of the shape and size of `a`.
pub open spec fn stands_under(
    s: Seq<(i32, ApertureView<Fixed>)>,
    k: i32,
    a: ApertureView<Fixed>,
) -> bool {
    table::lookup(s, k) matches Some(b) && merge::same_aperture(a, b)
}

/// Every aperture keeps its number, its shape and its size, and every aperture of the other layer is
/// found under the number that it is given.
pub proof fn law_merged_apertures(
    apertures: Seq<(i32, ApertureView<Fixed>)>,
    other: Seq<(i32, ApertureView<Fixed>)>,
)
    requires
        table::ordered(apertures),
        table::ordered(other),
        apertures.len() + other.len() <= i32::MAX - 10,
    ensures
        ({
            let (all, ids) = merge::merged_apertures(apertures, other);
            &&& forall|k: i32|
                #[trigger] table::lookup(apertures, k) matches Some(a) ==> stands_under(all, k, a)
            &&& forall|k: i32|
                #[trigger] table::lookup(other, k) matches Some(a) ==> table::lookup(ids, k) is Some
                    && stands_under(all, table::lookup(ids, k)->0, a)
        }),
    decreases other.len(),
{
    let (all, ids) = merge::merged_apertures(apertures, other);
    if other.len() == 0 {
        assert forall|k: i32| #[trigger] table::lookup(apertures, k) is Some implies stands_under(
            all,
            k,
            table::lookup(apertures, k)->0,
        ) by {
            let a = table::lookup(apertures, k)->0;
            lemma_same_aperture(a, a, a);
        }
        assert forall|k: i32| #[trigger] table::lookup(other, k) is None by {}
    } else {
        let rest = other.drop_last();
        assert forall|i: int, j: int| 0 <= i < j < rest.len() implies table::Key::rank_spec(
            (#[trigger] rest[i]).0,
        ) < table::Key::rank_spec((#[trigger] rest[j]).0) by {
            assert(rest[i] == other[i] && rest[j] == other[j]);
        }
        law_merged_apertures(apertures, rest);
        merge::lemma_merged_apertures(apertures, rest);
        let (before, known) = merge::merged_apertures(apertures, rest);
        let (last, new) = other.last();
        let id = merge::aperture_for(before, new);
        lemma_aperture_for(before, new);
        table::lemma_inserted(before, id, new);
        table::lemma_inserted(known, last, id);
        assert forall|k: i32, a: ApertureView<Fixed>|
            stands_under(before, k, a) implies #[trigger] stands_under(all, k, a) by {
            if k == id {
                let b = table::lookup(before, k)->0;
                lemma_same_aperture(a, b, new);
            } else {
                assert(table::lookup(all, k) == table::lookup(before, k));
            }
        }
        assert forall|k: i32| #[trigger] table::lookup(apertures, k) is Some implies stands_under(
            all,
            k,
            table::lookup(apertures, k)->0,
        ) by {
            assert(stands_under(before, k, table::lookup(apertures, k)->0));
        }
        assert forall|k: i32| #[trigger] table::lookup(other, k) is Some implies table::lookup(
            ids,
            k,
        ) is Some && stands_under(all, table::lookup(ids, k)->0, table::lookup(other, k)->0) by {
            table::lemma_lookup(other, k);
            table::lemma_lookup(rest, k);
            let a = table::lookup(other, k)->0;
            let i = choose|i: int| 0 <= i < other.len() && #[trigger] other[i] == (k, a);
            if i < rest.len() {
                assert(rest[i] == other[i]);
                assert(table::lookup(rest, k) == Some(a));
                if k == last {
                    assert(other[i].0 < other[other.len() - 1].0);
                }
                assert(stands_under(before, table::lookup(known, k)->0, a));
            } else {
                lemma_same_aperture(new, new, new);
            }
        }
    }
}

/// Merging leaves no aperture undefined.
pub proof fn law_merged_apertures_defined(v: GerberView<Fixed>, other: GerberView<Fixed>)
    requires
        table::ordered(v.apertures),
        table::ordered(other.apertures),
        merge::apertures_defined(v),
        merge::layers_mergeable(v, other),
    ensures
        merge::apertures_defined(merge::merged_layers(v, other)),
        table::ordered(merge::merged_layers(v, other).apertures),
{
    let w = merge::merged_layers(v, other);
    let o = gerber::load::layer_in_unit(other, v.unit);
    merge::lemma_unit_keeps_ids(other, v.unit);
    let (all, ids) = merge::merged_apertures(v.apertures, o.apertures);
    law_merged_apertures(v.apertures, o.apertures);
    merge::lemma_merged_apertures(v.apertures, o.apertures);
    assert forall|i: int|
        0 <= i < w.commands.len() implies (#[trigger] w.commands[i] matches Command::FunctionCode(
        FunctionCode::DCode(DCode::SelectAperture(id)),
    ) ==> table::lookup(w.apertures, id) is Some) by {
        if i < v.commands.len() {
            assert(w.commands[i] == v.commands[i]);
        } else {
            let c = o.commands[i - v.commands.len()];
            assert(w.commands[i] == merge::adopted(c, ids, v.coordinate_format));
        }
    }
}

/// What a drawing does not take over from the one in front of it: whether an aperture is selected,
/// whether the way to interpolate is set, and the axes on which it has given a point.
#[verifier::ext_equal]
pub ghost struct Footing {
    pub tool: bool,
    pub mode: bool,
    pub x: bool,
    pub y: bool,
}

pub open spec fn footing(s: Seq<CommandView<Fixed>>) -> Footing
    decreases s.len(),
{
    if s.len() == 0 {
        Footing { tool: false, mode: false, x: false, y: false }
    } else {
        let f = footing(s.drop_last());
        match s.last() {
            Command::FunctionCode(FunctionCode::DCode(DCode::SelectAperture(_))) => Footing {
                tool: true,
                ..f
            },
            Command::FunctionCode(FunctionCode::GCode(GCode::InterpolationMode(_))) => Footing {
                mode: true,
                ..f
            },
            c => match gerber::corners::command_point(c) {
                Some(p) => Footing { x: f.x || p.x is Some, y: f.y || p.y is Some, ..f },
                None => f,
            },
        }
    }
}

/// The command takes nothing from what stands in front of the drawing.
pub open spec fn stands_alone(c: CommandView<Fixed>, f: Footing) -> bool {
    match c {
        Command::FunctionCode(
            FunctionCode::DCode(DCode::Operation(Operation::Flash(Some(_)))),
        ) => f.tool,
        Command::FunctionCode(
            FunctionCode::DCode(DCode::Operation(Operation::Interpolate(Some(_), offset))),
        ) => f.tool && (offset is Some ==> f.mode && f.x && f.y),
        _ => true,
    }
}

/// A drawing that selects an aperture before it draws, and says how to interpolate and where it is
/// before it draws an arc.
pub open spec fn self_contained(v: GerberView<Fixed>) -> bool {
    forall|i: int|
        0 <= i < v.commands.len() ==> stands_alone(
            #[trigger] v.commands[i],
            footing(v.commands.take(i)),
        )
}

proof fn lemma_coordinates_hull(
    first: (Pos<Fixed>, Pos<Fixed>),
    b: (Pos<Fixed>, Pos<Fixed>),
    p: Coordinates,
    unit: Unit,
    tool: Option<(Pos<Fixed>, Pos<Fixed>)>,
)
    ensures
        gerber::corners::with_coordinates(merges::hull(first, b), p, unit, tool) == merges::hull(
            first,
            gerber::corners::with_coordinates(b, p, unit, tool),
        ),
{
    reveal(merges::hull);
}

proof fn lemma_box_hull(
    first: (Pos<Fixed>, Pos<Fixed>),
    b: (Pos<Fixed>, Pos<Fixed>),
    a: (Pos<Fixed>, Pos<Fixed>),
    tool: Option<(Pos<Fixed>, Pos<Fixed>)>,
)
    ensures
        gerber::corners::with_box(merges::hull(first, b), a, tool) == merges::hull(
            first,
            gerber::corners::with_box(b, a, tool),
        ),
{
    reveal(merges::hull);
}

/// The format in which an offset is written does not change the arc.
proof fn lemma_arc_format(
    start: Pos<Fixed>,
    end: Pos<Fixed>,
    o: CoordinateOffset,
    format: CoordinateFormat,
    unit: Unit,
    mode: InterpolationMode,
)
    ensures
        gerber::arc::arc_box(start, end, (CoordinateOffset { format, ..o }), unit, mode)
            == gerber::arc::arc_box(start, end, o, unit, mode),
{
    reveal(gerber::arc::arc_box);
}

/// A drawing with the apertures of a merged layer.
proof fn lemma_first_drawing(
    s: Seq<CommandView<Fixed>>,
    apertures: Seq<(i32, ApertureView<Fixed>)>,
    all: Seq<(i32, ApertureView<Fixed>)>,
    unit: Unit,
)
    requires
        forall|k: i32|
            #[trigger] table::lookup(apertures, k) matches Some(a) ==> stands_under(all, k, a),
        forall|i: int|
            0 <= i < s.len() ==> (#[trigger] s[i] matches Command::FunctionCode(
                FunctionCode::DCode(DCode::SelectAperture(id)),
            ) ==> table::lookup(apertures, id) is Some),
    ensures
        gerber::corners::drawn(s, all, unit) == gerber::corners::drawn(s, apertures, unit),
    decreases s.len(),
{
    if s.len() > 0 {
        let d = s.drop_last();
        assert(s[s.len() - 1] == s.last());
        assert forall|i: int| 0 <= i < d.len() implies (#[trigger] d[i] matches Command::FunctionCode(
            FunctionCode::DCode(DCode::SelectAperture(id)),
        ) ==> table::lookup(apertures, id) is Some) by {
            assert(d[i] == s[i]);
        }
        lemma_first_drawing(d, apertures, all, unit);
        match s.last() {
            Command::FunctionCode(FunctionCode::DCode(DCode::SelectAperture(id))) => {
                let a = table::lookup(apertures, id)->0;
                assert(stands_under(all, id, a));
                lemma_same_aperture(a, table::lookup(all, id)->0, a);
            },
            _ => {},
        }
    }
}

/// The pen of a drawing behind another one, `p`, and of the drawing alone, `q`.
pub open spec fn continues(
    p: Pen<Fixed>,
    q: Pen<Fixed>,
    first: (Pos<Fixed>, Pos<Fixed>),
    f: Footing,
) -> bool {
    &&& p.corners == merges::hull(first, q.corners)
    &&& f.tool ==> p.tool == q.tool
    &&& f.mode ==> p.mode == q.mode
    &&& f.x ==> p.current.x == q.current.x
    &&& f.y ==> p.current.y == q.current.y
}

/// The pens behind an operation.
proof fn lemma_operation_continues(
    p: Pen<Fixed>,
    q: Pen<Fixed>,
    first: (Pos<Fixed>, Pos<Fixed>),
    s: Seq<CommandView<Fixed>>,
    op: Operation,
    all: Seq<(i32, ApertureView<Fixed>)>,
    apertures: Seq<(i32, ApertureView<Fixed>)>,
    format: CoordinateFormat,
    unit: Unit,
)
    requires
        s.len() > 0,
        s.last() == CommandView::<Fixed>::FunctionCode(FunctionCode::DCode(DCode::Operation(op))),
        continues(p, q, first, footing(s.drop_last())),
        stands_alone(s.last(), footing(s.drop_last())),
    ensures
        continues(
            p.after(
                Command::FunctionCode(
                    FunctionCode::DCode(DCode::Operation(merge::in_format(op, format))),
                ),
                all,
                unit,
            ),
            q.after(s.last(), apertures, unit),
            first,
            footing(s),
        ),
{
    match op {
        Operation::Move(Some(c)) => {
            lemma_coordinates_hull(first, q.corners, c, unit, None);
        },
        Operation::Flash(Some(c)) => {
            lemma_coordinates_hull(first, q.corners, c, unit, q.tool);
        },
        Operation::Interpolate(Some(c), offset) => {
            lemma_coordinates_hull(first, q.corners, c, unit, q.tool);
            if let Some(o) = offset {
                let end = gerber::corners::arrived(q.current, c, unit);
                lemma_arc_format(q.current, end, o, format, unit, q.mode);
                lemma_box_hull(
                    first,
                    q.corners,
                    gerber::arc::arc_box(q.current, end, o, unit, q.mode),
                    q.tool,
                );
            }
        },
        _ => {},
    }
}

proof fn lemma_continues(
    p: Pen<Fixed>,
    q: Pen<Fixed>,
    first: (Pos<Fixed>, Pos<Fixed>),
    s: Seq<CommandView<Fixed>>,
    all: Seq<(i32, ApertureView<Fixed>)>,
    apertures: Seq<(i32, ApertureView<Fixed>)>,
    ids: Seq<(i32, i32)>,
    format: CoordinateFormat,
    unit: Unit,
)
    requires
        s.len() > 0,
        continues(p, q, first, footing(s.drop_last())),
        stands_alone(s.last(), footing(s.drop_last())),
        s.last() matches Command::FunctionCode(FunctionCode::DCode(DCode::SelectAperture(id)))
            ==> table::lookup(apertures, id) is Some,
        forall|k: i32|
            #[trigger] table::lookup(apertures, k) matches Some(a) ==> table::lookup(ids, k) is Some
                && stands_under(all, table::lookup(ids, k)->0, a),
    ensures
        continues(
            p.after(merge::adopted(s.last(), ids, format), all, unit),
            q.after(s.last(), apertures, unit),
            first,
            footing(s),
        ),
{
    match s.last() {
        Command::FunctionCode(FunctionCode::DCode(DCode::SelectAperture(id))) => {
            let a = table::lookup(apertures, id)->0;
            let n = table::lookup(ids, id)->0;
            assert(stands_under(all, n, a));
            lemma_same_aperture(a, table::lookup(all, n)->0, a);
        },
        Command::FunctionCode(FunctionCode::DCode(DCode::Operation(op))) => {
            lemma_operation_continues(p, q, first, s, op, all, apertures, format, unit);
        },
        _ => {},
    }
}

/// The commands of the appended drawing, from `p` on.
pub open spec fn drawn_from(
    p: Pen<Fixed>,
    s: Seq<CommandView<Fixed>>,
    apertures: Seq<(i32, ApertureView<Fixed>)>,
    unit: Unit,
) -> Pen<Fixed>
    decreases s.len(),
{
    if s.len() == 0 {
        p
    } else {
        drawn_from(p, s.drop_last(), apertures, unit).after(s.last(), apertures, unit)
    }
}

proof fn lemma_drawn_from(
    a: Seq<CommandView<Fixed>>,
    b: Seq<CommandView<Fixed>>,
    apertures: Seq<(i32, ApertureView<Fixed>)>,
    unit: Unit,
)
    ensures
        gerber::corners::drawn(a + b, apertures, unit) == drawn_from(
            gerber::corners::drawn(a, apertures, unit),
            b,
            apertures,
            unit,
        ),
    decreases b.len(),
{
    if b.len() == 0 {
        assert(a + b =~= a);
    } else {
        lemma_drawn_from(a, b.drop_last(), apertures, unit);
        assert((a + b).drop_last() =~= a + b.drop_last());
        assert((a + b).last() == b.last());
    }
}

proof fn lemma_all_continues(
    p: Pen<Fixed>,
    first: (Pos<Fixed>, Pos<Fixed>),
    s: Seq<CommandView<Fixed>>,
    all: Seq<(i32, ApertureView<Fixed>)>,
    apertures: Seq<(i32, ApertureView<Fixed>)>,
    ids: Seq<(i32, i32)>,
    format: CoordinateFormat,
    unit: Unit,
)
    requires
        p.corners == first,
        merges::hull(first, crate::empty_box::<Fixed>()) == first,
        forall|i: int| 0 <= i < s.len() ==> stands_alone(#[trigger] s[i], footing(s.take(i))),
        forall|i: int|
            0 <= i < s.len() ==> (#[trigger] s[i] matches Command::FunctionCode(
                FunctionCode::DCode(DCode::SelectAperture(id)),
            ) ==> table::lookup(apertures, id) is Some),
        forall|k: i32|
            #[trigger] table::lookup(apertures, k) matches Some(a) ==> table::lookup(ids, k) is Some
                && stands_under(all, table::lookup(ids, k)->0, a),
    ensures
        continues(
            drawn_from(
                p,
                s.map_values(|c: CommandView<Fixed>| merge::adopted(c, ids, format)),
                all,
                unit,
            ),
            gerber::corners::drawn(s, apertures, unit),
            first,
            footing(s),
        ),
    decreases s.len(),
{
    let f = |c: CommandView<Fixed>| merge::adopted(c, ids, format);
    if s.len() > 0 {
        let d = s.drop_last();
        let n = s.len() - 1;
        assert(stands_alone(s[n], footing(s.take(n))));
        assert(s.take(n) =~= d);
        assert forall|i: int| 0 <= i < d.len() implies stands_alone(
            #[trigger] d[i],
            footing(d.take(i)),
        ) by {
            assert(stands_alone(s[i], footing(s.take(i))));
            assert(d.take(i) =~= s.take(i));
        }
        assert forall|i: int| 0 <= i < d.len() implies (#[trigger] d[i] matches Command::FunctionCode(
            FunctionCode::DCode(DCode::SelectAperture(id)),
        ) ==> table::lookup(apertures, id) is Some) by {
            assert(d[i] == s[i]);
        }
        lemma_all_continues(p, first, d, all, apertures, ids, format, unit);
        assert(s.map_values(f).drop_last() =~= d.map_values(f));
        lemma_continues(
            drawn_from(p, d.map_values(f), all, unit),
            gerber::corners::drawn(d, apertures, unit),
            first,
            s,
            all,
            apertures,
            ids,
            format,
            unit,
        );
    }
}

/// The bounding box of a merged layer is the box around the boxes of its parts. The appended layer
/// selects an aperture before it draws, and says how to interpolate and where it is before it draws
/// an arc.
pub proof fn law_merged_box(v: GerberView<Fixed>, other: GerberView<Fixed>)
    requires
        table::ordered(v.apertures),
        table::ordered(other.apertures),
        merge::apertures_defined(v),
        merge::layers_mergeable(v, other),
        self_contained(gerber::load::layer_in_unit(other, v.unit)),
    ensures
        gerber::corners::layer_corners(merge::merged_layers(v, other)) == merges::hull(
            gerber::corners::layer_corners(v),
            gerber::corners::layer_corners(gerber::load::layer_in_unit(other, v.unit)),
        ),
{
    let o = gerber::load::layer_in_unit(other, v.unit);
    merge::lemma_unit_keeps_ids(other, v.unit);
    let (all, ids) = merge::merged_apertures(v.apertures, o.apertures);
    law_merged_apertures(v.apertures, o.apertures);
    lemma_first_drawing(v.commands, v.apertures, all, v.unit);
    let p = gerber::corners::drawn(v.commands, all, v.unit);
    assert(merges::hull(p.corners, crate::empty_box::<Fixed>()) == p.corners) by {
        reveal(merges::hull);
    }
    let more = o.commands.map_values(
        |c: CommandView<Fixed>| merge::adopted(c, ids, v.coordinate_format),
    );
    lemma_drawn_from(v.commands, more, all, v.unit);
    lemma_all_continues(
        p,
        p.corners,
        o.commands,
        all,
        o.apertures,
        ids,
        v.coordinate_format,
        v.unit,
    );
}

} // verus!
