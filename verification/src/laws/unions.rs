//! What a merged RS-274X layer holds, entry by entry.
use crate::fixed::Fixed;
use crate::gerber;
use crate::gerber::merge;
use crate::gerber::GerberView;
use crate::gerber_types::{
    ApertureView, Command, CommandView, CoordinateFormat, Coordinates, DCode,
    FunctionCode, MacroDecimal, Operation,
};
use crate::laws::layer_merges;
use crate::scalar::Scalar;
use crate::table;
use vstd::prelude::*;

verus! {

/// Two arguments of a macro are one: equal, or expressions of one text.
pub open spec fn equal_argument(a: MacroDecimal<Fixed>, b: MacroDecimal<Fixed>) -> bool {
    match (a, b) {
        (MacroDecimal::Expression(s), MacroDecimal::Expression(t)) => s@ == t@,
        _ => a == b,
    }
}

/// Two apertures are one: they are equal, or they are one macro with equal arguments.
pub open spec fn equal_shape(a: ApertureView<Fixed>, b: ApertureView<Fixed>) -> bool {
    match (a, b) {
        (ApertureView::Macro(n, Some(x)), ApertureView::Macro(m, Some(y))) => n == m && x.len()
            == y.len() && (forall|i: int|
            0 <= i < x.len() ==> equal_argument(#[trigger] x[i], y[i])),
        _ => a == b,
    }
}

/// The layer has the aperture `a` under the number `k`.
pub open spec fn has(s: Seq<(i32, ApertureView<Fixed>)>, k: i32, a: ApertureView<Fixed>) -> bool {
    exists|i: int| 0 <= i < s.len() && (#[trigger] s[i]).0 == k && equal_shape(s[i].1, a)
}

/// The layer has the aperture `a`.
pub open spec fn is_there(s: Seq<(i32, ApertureView<Fixed>)>, a: ApertureView<Fixed>) -> bool {
    exists|k: i32| has(s, k, a)
}

/// The numbers are in ascending order, so that none stands twice.
pub open spec fn ascending(s: Seq<(i32, ApertureView<Fixed>)>) -> bool {
    forall|i: int, j: int| 0 <= i < j < s.len() ==> (#[trigger] s[i]).0 < (#[trigger] s[j]).0
}

/// To be merged as one is to be one.
proof fn lemma_equal_shape(a: ApertureView<Fixed>, b: ApertureView<Fixed>)
    ensures
        merge::same_aperture(a, b) == equal_shape(a, b),
{
    match (a, b) {
        (ApertureView::Macro(n, Some(x)), ApertureView::Macro(m, Some(y))) => {
            if merge::same_aperture(a, b) {
                assert forall|i: int| 0 <= i < x.len() implies equal_argument(
                    #[trigger] x[i],
                    y[i],
                ) by {
                    assert(merge::same_decimal(x[i], y[i]));
                }
            } else if equal_shape(a, b) {
                assert forall|i: int| 0 <= i < x.len() implies merge::same_decimal::<Fixed>(
                    #[trigger] x[i],
                    y[i],
                ) by {
                    assert(equal_argument(x[i], y[i]));
                }
            }
        },
        _ => {},
    }
}

proof fn lemma_unequal(s: Seq<(i32, ApertureView<Fixed>)>, a: ApertureView<Fixed>)
    requires
        merge::equal_aperture(s, a) is None,
    ensures
        forall|i: int| 0 <= i < s.len() ==> !merge::same_aperture((#[trigger] s[i]).1, a),
    decreases s.len(),
{
    if s.len() > 0 {
        let t = s.skip(1);
        lemma_unequal(t, a);
        assert forall|i: int| 0 <= i < s.len() implies !merge::same_aperture(
            (#[trigger] s[i]).1,
            a,
        ) by {
            if i > 0 {
                assert(t[i - 1] == s[i]);
            }
        }
    }
}

/// The aperture `b` under the number `k` came with the other layer: the number is from 10 on, the
/// other layer has the aperture, and it stands under no other number.
pub open spec fn came(
    all: Seq<(i32, ApertureView<Fixed>)>,
    other: Seq<(i32, ApertureView<Fixed>)>,
    k: i32,
    b: ApertureView<Fixed>,
) -> bool {
    &&& k >= 10
    &&& exists|i: int| 0 <= i < other.len() && equal_shape((#[trigger] other[i]).1, b)
    &&& forall|q: i32|
        q != k ==> (#[trigger] table::lookup(all, q) matches Some(c) ==> !equal_shape(b, c))
}

proof fn lemma_new_numbers(
    apertures: Seq<(i32, ApertureView<Fixed>)>,
    other: Seq<(i32, ApertureView<Fixed>)>,
)
    requires
        table::ordered(apertures),
        table::ordered(other),
        apertures.len() + other.len() <= i32::MAX - 10,
    ensures
        ({
            let all = merge::merged_apertures(apertures, other).0;
            forall|k: i32|
                (#[trigger] table::lookup(all, k) matches Some(b) && table::lookup(apertures, k)
                    is None) ==> came(all, other, k, table::lookup(all, k)->0)
        }),
    decreases other.len(),
{
    let all = merge::merged_apertures(apertures, other).0;
    if other.len() > 0 {
        let rest = other.drop_last();
        assert forall|i: int, j: int| 0 <= i < j < rest.len() implies table::Key::rank_spec(
            (#[trigger] rest[i]).0,
        ) < table::Key::rank_spec((#[trigger] rest[j]).0) by {
            assert(rest[i] == other[i] && rest[j] == other[j]);
        }
        lemma_new_numbers(apertures, rest);
        merge::lemma_merged_apertures(apertures, rest);
        let before = merge::merged_apertures(apertures, rest).0;
        let new = other.last().1;
        let id = merge::aperture_for(before, new);
        layer_merges::lemma_aperture_for(before, new);
        table::lemma_inserted(before, id, new);
        if merge::equal_aperture(before, new) is None {
            lemma_unequal(before, new);
            table::lemma_free_exists(before, 10);
            table::lemma_taken(before, id);
        } else {
            let i = layer_merges::lemma_equal_aperture(before, new);
            table::lemma_lookup(before, id);
            lemma_equal_shape(before[i].1, new);
        }
        assert forall|k: i32|
            (#[trigger] table::lookup(all, k) is Some && table::lookup(apertures, k)
                is None) implies came(all, other, k, table::lookup(all, k)->0) by {
            let b = table::lookup(all, k)->0;
            if k != id {
                let old = table::lookup(before, k)->0;
                assert(came(before, rest, k, old));
                let i = choose|i: int|
                    0 <= i < rest.len() && equal_shape((#[trigger] rest[i]).1, old);
                assert(other[i] == rest[i]);
                assert forall|q: i32| q != k implies (#[trigger] table::lookup(
                    all,
                    q,
                ) matches Some(c) ==> !equal_shape(b, c)) by {
                    if q == id {
                        match table::lookup(before, id) {
                            Some(c) => {
                                lemma_equal_shape(b, c);
                                lemma_equal_shape(b, new);
                                lemma_equal_shape(new, c);
                                lemma_equal_shape(c, new);
                                layer_merges::lemma_same_aperture(b, new, c);
                                layer_merges::lemma_same_aperture(c, new, c);
                            },
                            None => {
                                table::lemma_lookup(before, k);
                                let j = choose|j: int|
                                    0 <= j < before.len() && #[trigger] before[j] == (k, b);
                                lemma_equal_shape(before[j].1, new);
                            },
                        }
                    } else {
                        assert(table::lookup(all, q) == table::lookup(before, q));
                    }
                }
            } else {
                assert(b == new);
                lemma_equal_shape(new, new);
                layer_merges::lemma_same_aperture(new, new, new);
                assert(equal_shape(other[other.len() - 1].1, b));
                if table::lookup(before, k) is Some {
                    assert(came(before, rest, k, table::lookup(before, k)->0));
                }
                assert forall|q: i32| q != k implies (#[trigger] table::lookup(
                    all,
                    q,
                ) matches Some(c) ==> !equal_shape(b, c)) by {
                    assert(table::lookup(all, q) == table::lookup(before, q));
                    if table::lookup(all, q) is Some {
                        let c = table::lookup(all, q)->0;
                        match table::lookup(before, id) {
                            Some(old) => {
                                assert(!equal_shape(old, c));
                                lemma_equal_shape(old, c);
                                lemma_equal_shape(new, c);
                                lemma_equal_shape(old, new);
                                layer_merges::lemma_same_aperture(old, new, c);
                            },
                            None => {
                                table::lemma_lookup(before, q);
                                let j = choose|j: int|
                                    0 <= j < before.len() && #[trigger] before[j] == (q, c);
                                lemma_equal_shape(new, c);
                                layer_merges::lemma_same_aperture(new, c, c);
                            },
                        }
                    }
                }
            }
        }
    }
}

/// An operation with its points kept and written in `format`.
pub open spec fn keeps_points(op: Operation, q: Operation, format: CoordinateFormat) -> bool {
    match op {
        Operation::Move(c) => q matches Operation::Move(d) && keeps_point(c, d, format),
        Operation::Flash(c) => q matches Operation::Flash(d) && keeps_point(c, d, format),
        Operation::Interpolate(c, o) => q matches Operation::Interpolate(d, u) && (keeps_point(
            c,
            d,
            format,
        ) && match (o, u) {
            (None, None) => true,
            (Some(o), Some(u)) => u.x == o.x && u.y == o.y && u.format == format,
            _ => false,
        }),
    }
}

pub open spec fn keeps_point(
    c: Option<Coordinates>,
    d: Option<Coordinates>,
    format: CoordinateFormat,
) -> bool {
    match (c, d) {
        (None, None) => true,
        (Some(c), Some(d)) => d.x == c.x && d.y == c.y && d.format == format,
        _ => false,
    }
}

/// `d` does in the merged layer, with the apertures `all`, what `c` does in a layer with the
/// apertures `own`: it selects the same aperture, or is the same operation at the same points, or
/// is `c` itself.
pub open spec fn does_the_same(
    c: CommandView<Fixed>,
    own: Seq<(i32, ApertureView<Fixed>)>,
    d: CommandView<Fixed>,
    all: Seq<(i32, ApertureView<Fixed>)>,
    format: CoordinateFormat,
) -> bool {
    match c {
        Command::FunctionCode(FunctionCode::DCode(DCode::SelectAperture(id))) => {
            d matches Command::FunctionCode(FunctionCode::DCode(DCode::SelectAperture(k))) && (
            exists|i: int| 0 <= i < own.len() && (#[trigger] own[i]).0 == id && has(all, k, own[i].1))
        },
        Command::FunctionCode(FunctionCode::DCode(DCode::Operation(op))) => {
            d matches Command::FunctionCode(FunctionCode::DCode(DCode::Operation(q)))
                && keeps_points(op, q, format)
        },
        _ => d == c,
    }
}

/// The entry was added for an aperture of the other layer, which no other entry has.
pub open spec fn added(
    all: Seq<(i32, ApertureView<Fixed>)>,
    other: Seq<(i32, ApertureView<Fixed>)>,
    e: (i32, ApertureView<Fixed>),
) -> bool {
    &&& e.0 >= 10
    &&& exists|i: int| 0 <= i < other.len() && equal_shape((#[trigger] other[i]).1, e.1)
    &&& forall|j: int|
        0 <= j < all.len() && (#[trigger] all[j]).0 != e.0 ==> !equal_shape(e.1, all[j].1)
}

/// The apertures of a merged layer. Every number of the first layer has the aperture that it had;
/// every aperture of the other layer is there; a number is added only for an aperture of the other
/// layer that stands under no other number, and is from 10 on. A layer in another unit is first
/// brought into that of `v`.
pub proof fn law_apertures_kept(
    v: GerberView<Fixed>,
    other: GerberView<Fixed>,
    o: GerberView<Fixed>,
)
    requires
        ascending(v.apertures),
        ascending(other.apertures),
        merge::layers_mergeable(v, other),
        o == gerber::load::layer_in_unit(other, v.unit),
    ensures
        v.unit == other.unit ==> o == other,
        ({
            let all = merge::merged_layers(v, other).apertures;
            &&& ascending(all)
            &&& forall|i: int|
                0 <= i < v.apertures.len() ==> has(
                    all,
                    (#[trigger] v.apertures[i]).0,
                    v.apertures[i].1,
                )
            &&& forall|i: int|
                0 <= i < o.apertures.len() ==> is_there(all, (#[trigger] o.apertures[i]).1)
            &&& forall|j: int|
                0 <= j < all.len() && (forall|i: int|
                    0 <= i < v.apertures.len() ==> (#[trigger] v.apertures[i]).0 != all[j].0)
                    ==> added(all, o.apertures, #[trigger] all[j])
        }),
{
    let all = merge::merged_layers(v, other).apertures;
    lemma_ascending(other.apertures);
    lemma_ascending(o.apertures);
    merge::lemma_unit_keeps_ids(other, v.unit);
    lemma_union(v.apertures, o.apertures);
    let ids = merge::merged_apertures(v.apertures, o.apertures).1;
    assert forall|i: int| 0 <= i < o.apertures.len() implies is_there(
        all,
        (#[trigger] o.apertures[i]).1,
    ) by {
        assert(has(all, table::lookup(ids, o.apertures[i].0)->0, o.apertures[i].1));
    }
}

proof fn lemma_ascending(s: Seq<(i32, ApertureView<Fixed>)>)
    ensures
        ascending(s) == table::ordered(s),
{
    if ascending(s) {
        assert forall|i: int, j: int| 0 <= i < j < s.len() implies table::Key::rank_spec(
            (#[trigger] s[i]).0,
        ) < table::Key::rank_spec((#[trigger] s[j]).0) by {}
    }
    if table::ordered(s) {
        assert forall|i: int, j: int| 0 <= i < j < s.len() implies (#[trigger] s[i]).0 < (
        #[trigger] s[j]).0 by {
            assert(table::Key::rank_spec(s[i].0) < table::Key::rank_spec(s[j].0));
        }
    }
}

proof fn lemma_has(s: Seq<(i32, ApertureView<Fixed>)>, k: i32, a: ApertureView<Fixed>)
    requires
        table::ordered(s),
        layer_merges::stands_under(s, k, a),
    ensures
        has(s, k, a),
{
    table::lemma_lookup(s, k);
    let b = table::lookup(s, k)->0;
    let i = choose|i: int| 0 <= i < s.len() && #[trigger] s[i] == (k, b);
    layer_merges::lemma_same_aperture(a, b, a);
    lemma_equal_shape(b, a);
    assert(s[i].0 == k);
}

proof fn lemma_union(
    apertures: Seq<(i32, ApertureView<Fixed>)>,
    other: Seq<(i32, ApertureView<Fixed>)>,
)
    requires
        ascending(apertures),
        ascending(other),
        apertures.len() + other.len() <= i32::MAX - 10,
    ensures
        ({
            let (all, ids) = merge::merged_apertures(apertures, other);
            &&& ascending(all)
            &&& forall|i: int|
                0 <= i < apertures.len() ==> has(all, (#[trigger] apertures[i]).0, apertures[i].1)
            &&& forall|i: int|
                0 <= i < other.len() ==> has(
                    all,
                    table::lookup(ids, (#[trigger] other[i]).0)->0,
                    other[i].1,
                )
            &&& forall|j: int|
                0 <= j < all.len() && (forall|i: int|
                    0 <= i < apertures.len() ==> (#[trigger] apertures[i]).0 != all[j].0) ==> added(
                    all,
                    other,
                    #[trigger] all[j],
                )
        }),
{
    let (all, ids) = merge::merged_apertures(apertures, other);
    lemma_ascending(apertures);
    lemma_ascending(other);
    lemma_ascending(all);
    merge::lemma_merged_apertures(apertures, other);
    layer_merges::law_merged_apertures(apertures, other);
    lemma_new_numbers(apertures, other);
    assert forall|i: int| 0 <= i < apertures.len() implies has(
        all,
        (#[trigger] apertures[i]).0,
        apertures[i].1,
    ) by {
        let (k, a) = apertures[i];
        table::lemma_lookup(apertures, k);
        lemma_has(all, k, a);
    }
    assert forall|i: int| 0 <= i < other.len() implies has(
        all,
        table::lookup(ids, (#[trigger] other[i]).0)->0,
        other[i].1,
    ) by {
        let (k, a) = other[i];
        table::lemma_lookup(other, k);
        lemma_has(all, table::lookup(ids, k)->0, a);
    }
    assert forall|j: int|
        0 <= j < all.len() && (forall|i: int|
            0 <= i < apertures.len() ==> (#[trigger] apertures[i]).0 != all[j].0) implies added(
        all,
        other,
        #[trigger] all[j],
    ) by {
        let (k, b) = all[j];
        table::lemma_lookup(all, k);
        table::lemma_lookup(apertures, k);
        assert(table::lookup(all, k) == Some(b));
        assert(came(all, other, k, b));
        assert forall|q: int| 0 <= q < all.len() && (#[trigger] all[q]).0 != k implies !equal_shape(
            b,
            all[q].1,
        ) by {
            table::lemma_lookup(all, all[q].0);
            assert(table::lookup(all, all[q].0) == Some(all[q].1));
        }
    }
}

/// The drawing of a merged layer: that of the first layer as it was, and behind it that of the other
/// layer, command by command, with the same apertures and the same points. Unit, format, layer type
/// and macros are those of the first layer.
pub proof fn law_drawings_kept(v: GerberView<Fixed>, other: GerberView<Fixed>, o: GerberView<Fixed>)
    requires
        ascending(v.apertures),
        ascending(other.apertures),
        merge::layers_mergeable(v, other),
        o == gerber::load::layer_in_unit(other, v.unit),
    ensures
        v.unit == other.unit ==> o == other,
        ({
            let w = merge::merged_layers(v, other);
            &&& w.commands.len() == v.commands.len() + o.commands.len()
            &&& w.commands.take(v.commands.len() as int) == v.commands
            &&& forall|i: int|
                0 <= i < o.commands.len() ==> does_the_same(
                    #[trigger] o.commands[i],
                    o.apertures,
                    w.commands[v.commands.len() + i],
                    w.apertures,
                    v.coordinate_format,
                )
            &&& w.unit == v.unit
            &&& w.coordinate_format == v.coordinate_format
            &&& w.layer_type == v.layer_type
            &&& w.macros == v.macros
            &&& w.parse_errors == v.parse_errors
        }),
{
    let w = merge::merged_layers(v, other);
    let (all, ids) = merge::merged_apertures(v.apertures, o.apertures);
    lemma_ascending(other.apertures);
    lemma_ascending(o.apertures);
    merge::lemma_unit_keeps_ids(other, v.unit);
    lemma_union(v.apertures, o.apertures);
    assert(w.commands.take(v.commands.len() as int) =~= v.commands);
    assert forall|i: int| 0 <= i < o.commands.len() implies does_the_same(
        #[trigger] o.commands[i],
        o.apertures,
        w.commands[v.commands.len() + i],
        w.apertures,
        v.coordinate_format,
    ) by {
        let c = o.commands[i];
        let d = w.commands[v.commands.len() + i];
        assert(d == merge::adopted(c, ids, v.coordinate_format));
        match c {
            Command::FunctionCode(FunctionCode::DCode(DCode::SelectAperture(id))) => {
                table::lemma_lookup(o.apertures, id);
                let j = choose|j: int|
                    0 <= j < o.apertures.len() && (#[trigger] o.apertures[j]).0 == id;
                assert(has(all, table::lookup(ids, id)->0, o.apertures[j].1));
            },
            _ => {},
        }
    }
}

} // verus!
