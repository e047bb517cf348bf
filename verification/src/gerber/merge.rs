//! Appending one layer to another.
use crate::gerber::{GerberLayerData, GerberView};
use crate::gerber_types::{
    Aperture, ApertureView, Circle, Command, CommandView, CoordinateFormat, CoordinateOffset,
    Coordinates, DCode, FunctionCode, MacroDecimal, Operation, Polygon, Rectangular, Unit,
};
use crate::scalar::Scalar;
use crate::table;
use crate::table::{Key, Table};
use crate::LayerMerge;
use vstd::prelude::*;

verus! {

pub open spec fn same_option<N: Scalar>(a: Option<N>, b: Option<N>) -> bool {
    match (a, b) {
        (Some(a), Some(b)) => a.same_spec(b),
        (None, None) => true,
        _ => false,
    }
}

fn is_same_option<N: Scalar>(a: Option<N>, b: Option<N>) -> (r: bool)
    ensures
        r == same_option(a, b),
{
    match (a, b) {
        (Some(a), Some(b)) => a.same(b),
        (None, None) => true,
        _ => false,
    }
}

pub open spec fn same_decimal<N: Scalar>(a: MacroDecimal<N>, b: MacroDecimal<N>) -> bool {
    match (a, b) {
        (MacroDecimal::Value(a), MacroDecimal::Value(b)) => a.same_spec(b),
        (MacroDecimal::Variable(a), MacroDecimal::Variable(b)) => a == b,
        (MacroDecimal::Expression(a), MacroDecimal::Expression(b)) => a@ == b@,
        _ => false,
    }
}

fn is_same_decimal<N: Scalar>(a: &MacroDecimal<N>, b: &MacroDecimal<N>) -> (r: bool)
    ensures
        r == same_decimal(*a, *b),
{
    match (a, b) {
        (MacroDecimal::Value(a), MacroDecimal::Value(b)) => a.same(*b),
        (MacroDecimal::Variable(a), MacroDecimal::Variable(b)) => *a == *b,
        (MacroDecimal::Expression(a), MacroDecimal::Expression(b)) => *a == *b,
        _ => false,
    }
}

pub open spec fn same_decimals<N: Scalar>(
    a: Seq<MacroDecimal<N>>,
    b: Seq<MacroDecimal<N>>,
) -> bool {
    a.len() == b.len() && forall|i: int|
        0 <= i < a.len() ==> same_decimal(#[trigger] a[i], b[i])
}

fn are_same_decimals<N: Scalar>(a: &Vec<MacroDecimal<N>>, b: &Vec<MacroDecimal<N>>) -> (r: bool)
    ensures
        r == same_decimals(a@, b@),
{
    if a.len() != b.len() {
        return false;
    }
    let mut i: usize = 0;
    while i < a.len()
        invariant
            i <= a@.len(),
            a@.len() == b@.len(),
            forall|k: int| 0 <= k < i ==> same_decimal(#[trigger] a@[k], b@[k]),
        decreases a@.len() - i,
    {
        if !is_same_decimal(&a[i], &b[i]) {
            assert(!same_decimal(a@[i as int], b@[i as int]));
            return false;
        }
        i = i + 1;
    }
    true
}

pub open spec fn same_rectangle<N: Scalar>(a: Rectangular<N>, b: Rectangular<N>) -> bool {
    a.x.same_spec(b.x) && a.y.same_spec(b.y) && same_option(a.hole_diameter, b.hole_diameter)
}

fn is_same_rectangle<N: Scalar>(a: &Rectangular<N>, b: &Rectangular<N>) -> (r: bool)
    ensures
        r == same_rectangle(*a, *b),
{
    a.x.same(b.x) && a.y.same(b.y) && is_same_option(a.hole_diameter, b.hole_diameter)
}

/// Two apertures are of one shape and size.
pub open spec fn same_aperture<N: Scalar>(a: ApertureView<N>, b: ApertureView<N>) -> bool {
    match (a, b) {
        (ApertureView::Circle(a), ApertureView::Circle(b)) => a.diameter.same_spec(b.diameter)
            && same_option(a.hole_diameter, b.hole_diameter),
        (ApertureView::Rectangle(a), ApertureView::Rectangle(b)) => same_rectangle(a, b),
        (ApertureView::Obround(a), ApertureView::Obround(b)) => same_rectangle(a, b),
        (ApertureView::Polygon(a), ApertureView::Polygon(b)) => a.diameter.same_spec(b.diameter)
            && a.vertices == b.vertices && same_option(a.rotation, b.rotation) && same_option(
            a.hole_diameter,
            b.hole_diameter,
        ),
        (ApertureView::Macro(n, None), ApertureView::Macro(m, None)) => n == m,
        (ApertureView::Macro(n, Some(a)), ApertureView::Macro(m, Some(b))) => n == m
            && same_decimals(a, b),
        _ => false,
    }
}

fn is_same_aperture<N: Scalar>(a: &Aperture<N>, b: &Aperture<N>) -> (r: bool)
    ensures
        r == same_aperture(a@, b@),
{
    match (a, b) {
        (Aperture::Circle(a), Aperture::Circle(b)) => a.diameter.same(b.diameter) && is_same_option(
            a.hole_diameter,
            b.hole_diameter,
        ),
        (Aperture::Rectangle(a), Aperture::Rectangle(b)) => is_same_rectangle(a, b),
        (Aperture::Obround(a), Aperture::Obround(b)) => is_same_rectangle(a, b),
        (Aperture::Polygon(a), Aperture::Polygon(b)) => a.diameter.same(b.diameter) && a.vertices
            == b.vertices && is_same_option(a.rotation, b.rotation) && is_same_option(
            a.hole_diameter,
            b.hole_diameter,
        ),
        (Aperture::Macro(n, None), Aperture::Macro(m, None)) => *n == *m,
        (Aperture::Macro(n, Some(a)), Aperture::Macro(m, Some(b))) => *n == *m
            && are_same_decimals(a, b),
        _ => false,
    }
}

/// The first aperture of the same shape and size.
pub open spec fn equal_aperture<N: Scalar>(
    apertures: Seq<(i32, ApertureView<N>)>,
    a: ApertureView<N>,
) -> Option<i32>
    decreases apertures.len(),
{
    if apertures.len() == 0 {
        None
    } else if same_aperture(apertures[0].1, a) {
        Some(apertures[0].0)
    } else {
        equal_aperture(apertures.skip(1), a)
    }
}

/// The number for an aperture: that of an equal one, or the lowest from 10 on that is free.
pub open spec fn aperture_for<N: Scalar>(
    apertures: Seq<(i32, ApertureView<N>)>,
    a: ApertureView<N>,
) -> i32 {
    match equal_aperture(apertures, a) {
        Some(id) => id,
        None => table::lowest_free(apertures, 10) as i32,
    }
}

/// The apertures of both layers, and the number that each aperture of `other` has among them.
pub open spec fn merged_apertures<N: Scalar>(
    apertures: Seq<(i32, ApertureView<N>)>,
    other: Seq<(i32, ApertureView<N>)>,
) -> (Seq<(i32, ApertureView<N>)>, Seq<(i32, i32)>)
    decreases other.len(),
{
    if other.len() == 0 {
        (apertures, Seq::empty())
    } else {
        let (all, ids) = merged_apertures(apertures, other.drop_last());
        let a = other.last().1;
        let id = aperture_for(all, a);
        (table::inserted(all, id, a), table::inserted(ids, other.last().0, id))
    }
}

/// An operation that is written in `format`.
pub open spec fn in_format(op: Operation, format: CoordinateFormat) -> Operation {
    match op {
        Operation::Move(Some(c)) => Operation::Move(Some(Coordinates { format, ..c })),
        Operation::Flash(Some(c)) => Operation::Flash(Some(Coordinates { format, ..c })),
        Operation::Interpolate(c, o) => Operation::Interpolate(
            match c {
                Some(c) => Some(Coordinates { format, ..c }),
                None => None,
            },
            match o {
                Some(o) => Some(CoordinateOffset { format, ..o }),
                None => None,
            },
        ),
        other => other,
    }
}

fn set_format(op: &Operation, format: &CoordinateFormat) -> (r: Operation)
    ensures
        r == in_format(*op, *format),
{
    match op {
        Operation::Move(Some(c)) => Operation::Move(
            Some(Coordinates { x: c.x, y: c.y, format: *format }),
        ),
        Operation::Flash(Some(c)) => Operation::Flash(
            Some(Coordinates { x: c.x, y: c.y, format: *format }),
        ),
        Operation::Interpolate(c, o) => Operation::Interpolate(
            match c {
                Some(c) => Some(Coordinates { x: c.x, y: c.y, format: *format }),
                None => None,
            },
            match o {
                Some(o) => Some(CoordinateOffset { x: o.x, y: o.y, format: *format }),
                None => None,
            },
        ),
        other => *other,
    }
}

/// An appended command. A selected aperture takes its new number, and an operation the format of
/// the layer.
pub open spec fn adopted<N>(
    c: CommandView<N>,
    ids: Seq<(i32, i32)>,
    format: CoordinateFormat,
) -> CommandView<N> {
    match c {
        Command::FunctionCode(FunctionCode::DCode(DCode::SelectAperture(id))) =>
        Command::FunctionCode(
            FunctionCode::DCode(DCode::SelectAperture(table::lookup(ids, id)->0)),
        ),
        Command::FunctionCode(FunctionCode::DCode(DCode::Operation(op))) => Command::FunctionCode(
            FunctionCode::DCode(DCode::Operation(in_format(op, format))),
        ),
        other => other,
    }
}

/// `other`, in the unit of `v`, behind `v`.
pub open spec fn merged_layers<N: Scalar>(v: GerberView<N>, other: GerberView<N>) -> GerberView<N> {
    let o = crate::gerber::load::layer_in_unit(other, v.unit);
    let (apertures, ids) = merged_apertures(v.apertures, o.apertures);
    GerberView {
        commands: v.commands + o.commands.map_values(
            |c: CommandView<N>| adopted(c, ids, v.coordinate_format),
        ),
        apertures,
        ..v
    }
}

/// Every aperture that the layer selects is one that it defines.
pub open spec fn apertures_defined<N>(v: GerberView<N>) -> bool {
    forall|i: int|
        0 <= i < v.commands.len() ==> (#[trigger] v.commands[i] matches Command::FunctionCode(
            FunctionCode::DCode(DCode::SelectAperture(id)),
        ) ==> table::lookup(v.apertures, id) is Some)
}

/// `other` has a value in the unit of `v` and defines the apertures that it selects, and there are
/// numbers left for all apertures.
pub open spec fn layers_mergeable<N: Scalar>(v: GerberView<N>, other: GerberView<N>) -> bool {
    &&& crate::gerber::load::unit_reachable(other, v.unit)
    &&& apertures_defined(other)
    &&& v.apertures.len() + other.apertures.len() <= i32::MAX - 10
}

impl<N: Scalar> GerberLayerData<N> {
    /// Whether `other` can be merged into the layer.
    pub fn joins(&self, other: &Self) -> (r: bool)
        ensures
            r == layers_mergeable(self@, other@),
    {
        let have: usize = self.apertures.len();
        let more: usize = other.apertures.len();
        assert(self@.apertures.len() == have && other@.apertures.len() == more);
        if have > 0x7fff_fff5 || more > 0x7fff_fff5 - have {
            return false;
        }
        if self.unit != other.unit {
            let factor: N = crate::gerber::load::factor_to(&self.unit);
            if !crate::gerber::edit::are_scalable(&other.commands, factor, factor) {
                return false;
            }
        }
        let ghost s = other@.commands;
        let mut i: usize = 0;
        while i < other.commands.len()
            invariant
                i <= other.commands@.len(),
                s == crate::gerber_types::views(other.commands@),
                s == other@.commands,
                forall|k: int|
                    0 <= k < i ==> (#[trigger] s[k] matches Command::FunctionCode(
                        FunctionCode::DCode(DCode::SelectAperture(id)),
                    ) ==> table::lookup(other@.apertures, id) is Some),
            decreases other.commands@.len() - i,
        {
            assert(s[i as int] == other.commands@[i as int]@);
            if let Command::FunctionCode(FunctionCode::DCode(DCode::SelectAperture(id))) =
                &other.commands[i] {
                proof {
                    table::lemma_mapped(other.apertures@, |a: Aperture<N>| a@, *id);
                }
                if !other.apertures.contains_key(*id) {
                    assert(s[i as int] matches Command::FunctionCode(
                        FunctionCode::DCode(DCode::SelectAperture(id)),
                    ) && table::lookup(other@.apertures, id) is None);
                    return false;
                }
            }
            i = i + 1;
        }
        true
    }
}

/// There are no more apertures than the two layers have.
pub proof fn lemma_merged_apertures<N: Scalar>(
    apertures: Seq<(i32, ApertureView<N>)>,
    other: Seq<(i32, ApertureView<N>)>,
)
    requires
        table::ordered(apertures),
        table::ordered(other),
    ensures
        ({
            let (all, ids) = merged_apertures(apertures, other);
            &&& table::ordered(all)
            &&& table::ordered(ids)
            &&& all.len() <= apertures.len() + other.len()
            &&& forall|i: int|
                0 <= i < other.len() ==> table::lookup(ids, (#[trigger] other[i]).0) is Some
        }),
    decreases other.len(),
{
    if other.len() > 0 {
        let rest = other.drop_last();
        assert(table::ordered(rest)) by {
            assert forall|i: int, j: int| 0 <= i < j < rest.len() implies (
            #[trigger] rest[i]).0.rank_spec() < (#[trigger] rest[j]).0.rank_spec() by {
                assert(rest[i] == other[i] && rest[j] == other[j]);
            }
        }
        lemma_merged_apertures(apertures, rest);
        let (all, ids) = merged_apertures(apertures, rest);
        let a = other.last().1;
        let id = aperture_for(all, a);
        table::lemma_place(all, id);
        table::lemma_inserted(all, id, a);
        table::lemma_inserted(ids, other.last().0, id);
        let more = table::inserted(ids, other.last().0, id);
        assert forall|i: int| 0 <= i < other.len() implies table::lookup(
            more,
            (#[trigger] other[i]).0,
        ) is Some by {
            if i < rest.len() {
                assert(rest[i] == other[i]);
                assert(table::lookup(ids, rest[i].0) is Some);
            }
        }
    }
}

fn find_aperture<N: Scalar>(apertures: &Table<i32, Aperture<N>>, a: &Aperture<N>) -> (r: Option<
    i32,
>)
    ensures
        r == equal_aperture(crate::gerber::aperture_views(apertures@), a@),
{
    let ghost s = crate::gerber::aperture_views(apertures@);
    let mut i: usize = 0;
    assert(s.skip(0) =~= s);
    while i < apertures.len()
        invariant
            i <= apertures@.len(),
            s == crate::gerber::aperture_views(apertures@),
            equal_aperture(s, a@) == equal_aperture(s.skip(i as int), a@),
        decreases apertures@.len() - i,
    {
        assert(s.skip(i as int)[0] == (apertures@[i as int].0, apertures@[i as int].1@));
        assert(s.skip(i as int).skip(1) =~= s.skip(i + 1));
        if is_same_aperture(apertures.value_at(i), a) {
            return Some(apertures.key_at(i));
        }
        i = i + 1;
    }
    None
}

fn merge_apertures<N: Scalar>(
    apertures: &mut Table<i32, Aperture<N>>,
    other: &Table<i32, Aperture<N>>,
) -> (ids: Table<i32, i32>)
    requires
        old(apertures)@.len() + other@.len() <= i32::MAX - 10,
    ensures
        (crate::gerber::aperture_views(final(apertures)@), ids@) == merged_apertures(
            crate::gerber::aperture_views(old(apertures)@),
            crate::gerber::aperture_views(other@),
        ),
{
    let mut ids: Table<i32, i32> = Table::new();
    let mut i: usize = 0;
    let count: usize = other.len();
    let ghost start = crate::gerber::aperture_views(apertures@);
    let ghost s = crate::gerber::aperture_views(other@);
    assert(s.take(0).len() == 0);
    while i < count
        invariant
            i <= count,
            count == other@.len(),
            s == crate::gerber::aperture_views(other@),
            start.len() + other@.len() <= i32::MAX - 10,
            apertures@.len() <= start.len() + i,
            (crate::gerber::aperture_views(apertures@), ids@) == merged_apertures(
                start,
                s.take(i as int),
            ),
        decreases count - i,
    {
        let ghost before = apertures@;
        proof {
            assert(s.take(i + 1).drop_last() =~= s.take(i as int));
            assert(s.take(i + 1).last() == (other@[i as int].0, other@[i as int].1@));
        }
        let found = find_aperture(apertures, other.value_at(i));
        let id: i32 = match found {
            Some(id) => id,
            None => {
                let free: i64 = apertures.lowest_free(10);
                let have: usize = apertures.len();
                proof {
                    table::lemma_mapped_free(before, |a: Aperture<N>| a@, 10);
                }
                free as i32
            },
        };
        ids.insert(other.key_at(i), id);
        let copy = other.value_at(i).clone();
        apertures.insert(id, copy);
        proof {
            table::lemma_place(before, id);
            table::lemma_mapped(before, |a: Aperture<N>| a@, id);
            assert(table::mapped(table::inserted(before, id, copy), |a: Aperture<N>| a@)
                == table::inserted(crate::gerber::aperture_views(before), id, copy@));
        }
        i = i + 1;
    }
    assert(s.take(i as int) =~= s);
    ids
}

fn adopt<N: Scalar>(c: &Command<N>, ids: &Table<i32, i32>, format: &CoordinateFormat) -> (r: Command<
    N,
>)
    requires
        c matches Command::FunctionCode(FunctionCode::DCode(DCode::SelectAperture(id)))
            ==> table::lookup(ids@, *id) is Some,
    ensures
        r@ == adopted(c@, ids@, *format),
{
    match c {
        Command::FunctionCode(FunctionCode::DCode(DCode::SelectAperture(id))) => {
            let d_code: i32 = *ids.get(*id).unwrap();
            Command::FunctionCode(FunctionCode::DCode(DCode::SelectAperture(d_code)))
        },
        Command::FunctionCode(FunctionCode::DCode(DCode::Operation(op))) => Command::FunctionCode(
            FunctionCode::DCode(DCode::Operation(set_format(op, format))),
        ),
        other => other.clone(),
    }
}

/// A change of the unit keeps the numbers of apertures.
pub proof fn lemma_unit_keeps_ids<N: Scalar>(v: GerberView<N>, unit: Unit)
    requires
        apertures_defined(v),
    ensures
        apertures_defined(crate::gerber::load::layer_in_unit(v, unit)),
        table::ordered(v.apertures) ==> table::ordered(
            crate::gerber::load::layer_in_unit(v, unit).apertures,
        ),
        crate::gerber::load::layer_in_unit(v, unit).apertures.len() == v.apertures.len(),
{
    let w = crate::gerber::load::layer_in_unit(v, unit);
    if unit != v.unit {
        let f = |a: ApertureView<N>|
            crate::unit_able::converted::<N, Aperture<N>>(a, v.unit, unit);
        table::lemma_mapped(v.apertures, f, 0);
        assert forall|i: int| 0 <= i < w.commands.len() implies (
        #[trigger] w.commands[i] matches Command::FunctionCode(
            FunctionCode::DCode(DCode::SelectAperture(id)),
        ) ==> table::lookup(w.apertures, id) is Some) by {
            assert(w.commands[i] == crate::gerber::load::command_in_unit(
                v.commands[i],
                v.unit,
                unit,
            ));
            if let Command::FunctionCode(FunctionCode::DCode(DCode::SelectAperture(id))) =
                w.commands[i] {
                assert(v.commands[i] == w.commands[i]);
                table::lemma_mapped(v.apertures, f, id);
            }
        }
    }
}

impl<N: Scalar> LayerMerge for GerberLayerData<N> {
    open spec fn merged(v: GerberView<N>, other: GerberView<N>) -> GerberView<N> {
        merged_layers(v, other)
    }

    open spec fn mergeable(v: GerberView<N>, other: GerberView<N>) -> bool {
        layers_mergeable(v, other)
    }

    fn merge(&mut self, other: &Self) {
        let ghost v = self@;
        let unit = self.unit;
        let format = self.coordinate_format;
        proof {
            lemma_unit_keeps_ids(other@, unit);
        }
        let other = other.clone().to_unit(&unit);
        let ghost o = other@;
        let have: usize = self.apertures.len();
        let more: usize = other.apertures.len();
        proof {
            table::lemma_mapped(self.apertures@, |a: Aperture<N>| a@, 0);
            table::lemma_mapped(other.apertures@, |a: Aperture<N>| a@, 0);
            lemma_merged_apertures(v.apertures, o.apertures);
        }
        let ids = merge_apertures(&mut self.apertures, &other.apertures);
        let ghost g = |c: CommandView<N>| adopted(c, ids@, format);
        let ghost start = v.commands;
        let mut i: usize = 0;
        assert(crate::gerber_types::views(self.commands@) =~= start + o.commands.take(0).map_values(g));
        while i < other.commands.len()
            invariant
                i <= other.commands@.len(),
                o.commands == crate::gerber_types::views(other.commands@),
                apertures_defined(o),
                table::ordered(o.apertures),
                g == (|c: CommandView<N>| adopted(c, ids@, format)),
                forall|k: int|
                    0 <= k < o.apertures.len() ==> table::lookup(
                        ids@,
                        (#[trigger] o.apertures[k]).0,
                    ) is Some,
                crate::gerber_types::views(self.commands@) == start + o.commands.take(
                    i as int,
                ).map_values(g),
                self.unit == v.unit,
                self.coordinate_format == format,
                self.layer_type == v.layer_type,
                self.macros@ == v.macros,
                crate::gerber::texts(self.parse_errors@) == v.parse_errors,
                (crate::gerber::aperture_views(self.apertures@), ids@) == merged_apertures(
                    v.apertures,
                    o.apertures,
                ),
            decreases other.commands@.len() - i,
        {
            let ghost before = self.commands@;
            proof {
                assert(o.commands[i as int] == other.commands@[i as int]@);
                if let Command::FunctionCode(FunctionCode::DCode(DCode::SelectAperture(id))) =
                    o.commands[i as int] {
                    table::lemma_lookup(o.apertures, id);
                    let k = choose|k: int|
                        0 <= k < o.apertures.len() && (#[trigger] o.apertures[k]).0 == id;
                    assert(table::lookup(ids@, o.apertures[k].0) is Some);
                }
            }
            let command = adopt(&other.commands[i], &ids, &format);
            self.commands.push(command);
            proof {
                assert(crate::gerber_types::views(self.commands@) =~= crate::gerber_types::views(
                    before,
                ).push(g(o.commands[i as int])));
                assert(o.commands.take(i + 1).map_values(g) =~= o.commands.take(
                    i as int,
                ).map_values(g).push(g(o.commands[i as int])));
                assert(crate::gerber_types::views(self.commands@) =~= start + o.commands.take(
                    i + 1,
                ).map_values(g));
            }
            i = i + 1;
        }
        assert(o.commands.take(i as int) =~= o.commands);
    }
}

} // verus!
