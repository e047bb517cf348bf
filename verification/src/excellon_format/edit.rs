//! Moving and scaling drill layers.
use crate::excellon_format::{Command, Entry, EntryView, ExcellonLayerData, ExcellonView};
use crate::gerber_types::Unit;
use crate::scalar::Scalar;
use crate::unit_able::UnitAble;
use crate::{LayerScale, LayerTransform, Pos};
use vstd::prelude::*;

verus! {

/// An entry with a function applied to its command.
pub open spec fn on_command<N>(
    e: EntryView<N>,
    f: spec_fn(Command<N, Seq<char>>) -> Command<N, Seq<char>>,
) -> EntryView<N> {
    match e {
        Ok(c) => Ok(f(c)),
        Err(e) => Err(e),
    }
}

pub open spec fn on_commands<N>(
    s: Seq<EntryView<N>>,
    f: spec_fn(Command<N, Seq<char>>) -> Command<N, Seq<char>>,
) -> Seq<EntryView<N>> {
    s.map_values(|e: EntryView<N>| on_command(e, f))
}

fn map_entries<N: Scalar, F: Fn(&Command<N>) -> Command<N>>(
    v: &Vec<Entry<N>>,
    f: F,
    Ghost(g): Ghost<spec_fn(Command<N, Seq<char>>) -> Command<N, Seq<char>>>,
) -> (r: Vec<Entry<N>>)
    requires
        forall|c: &Command<N>| #[trigger] call_requires(f, (c,)),
        forall|c: &Command<N>, d: Command<N>| #[trigger] call_ensures(f, (c,), d) ==> d@ == g(c@),
    ensures
        crate::excellon_format::entries(r@) == on_commands(
            crate::excellon_format::entries(v@),
            g,
        ),
{
    let mut r: Vec<Entry<N>> = Vec::new();
    let mut i: usize = 0;
    while i < v.len()
        invariant
            i <= v@.len(),
            r@.len() == i,
            forall|c: &Command<N>| #[trigger] call_requires(f, (c,)),
            forall|c: &Command<N>, d: Command<N>|
                #[trigger] call_ensures(f, (c,), d) ==> d@ == g(c@),
            forall|k: int|
                0 <= k < i ==> crate::excellon_format::entry_view(#[trigger] r@[k]) == on_command(
                    crate::excellon_format::entry_view(v@[k]),
                    g,
                ),
        decreases v@.len() - i,
    {
        let e: Entry<N> = match &v[i] {
            Ok(c) => Ok(f(c)),
            Err(e) => Err(e.clone()),
        };
        r.push(e);
        i = i + 1;
    }
    assert(crate::excellon_format::entries(r@) =~= on_commands(
        crate::excellon_format::entries(v@),
        g,
    ));
    r
}

/// A coordinate in `unit`, moved by a length in millimetres.
pub open spec fn shifted<N: Scalar>(v: Option<N>, delta: N, unit: Unit) -> Option<N> {
    match v {
        Some(v) => Some(N::mm_to_unit_spec(N::to_mm_spec(v, unit).plus_spec(delta), unit)),
        None => None,
    }
}

fn shift<N: Scalar>(v: Option<N>, delta: N, unit: &Unit) -> (r: Option<N>)
    ensures
        r == shifted(v, delta, *unit),
{
    match v {
        Some(v) => Some(v.to_mm(unit).plus(delta).mm_to_unit(unit)),
        None => None,
    }
}

/// A command with its coordinates moved.
pub open spec fn moved<N: Scalar>(c: Command<N, Seq<char>>, by: Pos<N>) -> Command<N, Seq<char>> {
    match c {
        Command::Coordinate(x, y, fmt) => Command::Coordinate(
            shifted(x, by.x, fmt.unit),
            shifted(y, by.y, fmt.unit),
            fmt,
        ),
        Command::Slot { from_x, from_y, to_x, to_y, fmt } => Command::Slot {
            from_x: shifted(from_x, by.x, fmt.unit),
            from_y: shifted(from_y, by.y, fmt.unit),
            to_x: shifted(to_x, by.x, fmt.unit),
            to_y: shifted(to_y, by.y, fmt.unit),
            fmt,
        },
        other => other,
    }
}

fn move_command<N: Scalar>(c: &Command<N>, by: &Pos<N>) -> (r: Command<N>)
    ensures
        r@ == moved(c@, *by),
{
    match c {
        Command::Coordinate(x, y, fmt) => Command::Coordinate(
            shift(*x, by.x, &fmt.unit),
            shift(*y, by.y, &fmt.unit),
            *fmt,
        ),
        Command::Slot { from_x, from_y, to_x, to_y, fmt } => Command::Slot {
            from_x: shift(*from_x, by.x, &fmt.unit),
            from_y: shift(*from_y, by.y, &fmt.unit),
            to_x: shift(*to_x, by.x, &fmt.unit),
            to_y: shift(*to_y, by.y, &fmt.unit),
            fmt: *fmt,
        },
        other => other.clone(),
    }
}

/// A layer with the coordinates of its header and of its body moved.
pub open spec fn moved_layer<N: Scalar>(v: ExcellonView<N>, by: Pos<N>) -> ExcellonView<N> {
    let f = |c: Command<N, Seq<char>>| moved(c, by);
    ExcellonView { header: on_commands(v.header, f), commands: on_commands(v.commands, f), ..v }
}

impl<N: Scalar> LayerTransform<N> for ExcellonLayerData<N> {
    open spec fn transformed(v: ExcellonView<N>, by: Pos<N>) -> ExcellonView<N> {
        moved_layer(v, by)
    }

    fn transform(&mut self, transform: &Pos<N>) {
        let ghost g = |c: Command<N, Seq<char>>| moved(c, *transform);
        let f = |c: &Command<N>| -> (d: Command<N>)
            ensures
                d@ == moved(c@, *transform),
            { move_command(c, transform) };
        self.header = map_entries(&self.header, f, Ghost(g));
        let f = |c: &Command<N>| -> (d: Command<N>)
            ensures
                d@ == moved(c@, *transform),
            { move_command(c, transform) };
        self.commands = map_entries(&self.commands, f, Ghost(g));
    }
}

pub open spec fn multiplied<N: Scalar>(v: Option<N>, factor: N) -> Option<N> {
    match v {
        Some(v) => Some(v.times_spec(factor)),
        None => None,
    }
}

fn multiply<N: Scalar>(v: Option<N>, factor: N) -> (r: Option<N>)
    ensures
        r == multiplied(v, factor),
{
    match v {
        Some(v) => Some(v.times(factor)),
        None => None,
    }
}

/// A command with its coordinates multiplied.
pub open spec fn stretched<N: Scalar>(c: Command<N, Seq<char>>, fx: N, fy: N) -> Command<
    N,
    Seq<char>,
> {
    match c {
        Command::Coordinate(x, y, fmt) => Command::Coordinate(
            multiplied(x, fx),
            multiplied(y, fy),
            fmt,
        ),
        Command::Slot { from_x, from_y, to_x, to_y, fmt } => Command::Slot {
            from_x: multiplied(from_x, fx),
            from_y: multiplied(from_y, fy),
            to_x: multiplied(to_x, fx),
            to_y: multiplied(to_y, fy),
            fmt,
        },
        other => other,
    }
}

fn stretch_command<N: Scalar>(c: &Command<N>, fx: N, fy: N) -> (r: Command<N>)
    ensures
        r@ == stretched(c@, fx, fy),
{
    match c {
        Command::Coordinate(x, y, fmt) => Command::Coordinate(
            multiply(*x, fx),
            multiply(*y, fy),
            *fmt,
        ),
        Command::Slot { from_x, from_y, to_x, to_y, fmt } => Command::Slot {
            from_x: multiply(*from_x, fx),
            from_y: multiply(*from_y, fy),
            to_x: multiply(*to_x, fx),
            to_y: multiply(*to_y, fy),
            fmt: *fmt,
        },
        other => other.clone(),
    }
}

/// A layer with the coordinates of its header and of its body multiplied.
pub open spec fn stretched_layer<N: Scalar>(v: ExcellonView<N>, fx: N, fy: N) -> ExcellonView<N> {
    let f = |c: Command<N, Seq<char>>| stretched(c, fx, fy);
    ExcellonView { header: on_commands(v.header, f), commands: on_commands(v.commands, f), ..v }
}

impl<N: Scalar> LayerScale<N> for ExcellonLayerData<N> {
    open spec fn scaled(v: ExcellonView<N>, x: N, y: N) -> ExcellonView<N> {
        stretched_layer(v, x, y)
    }

    open spec fn scalable(v: ExcellonView<N>, x: N, y: N) -> bool {
        true
    }

    fn scale(&mut self, x: N, y: N) {
        let ghost g = |c: Command<N, Seq<char>>| stretched(c, x, y);
        let f = |c: &Command<N>| -> (d: Command<N>)
            ensures
                d@ == stretched(c@, x, y),
            { stretch_command(c, x, y) };
        self.header = map_entries(&self.header, f, Ghost(g));
        let f = |c: &Command<N>| -> (d: Command<N>)
            ensures
                d@ == stretched(c@, x, y),
            { stretch_command(c, x, y) };
        self.commands = map_entries(&self.commands, f, Ghost(g));
    }
}

pub open spec fn is_hit<N>(e: EntryView<N>) -> bool {
    e is Ok && (e->Ok_0 is Coordinate || e->Ok_0 is Slot)
}

impl<N: Scalar> ExcellonLayerData<N> {
    /// Returns `true` if the layer contains no drill hit coordinates.
    pub fn is_empty(&self) -> (r: bool)
        ensures
            r == forall|i: int| 0 <= i < self@.commands.len() ==> !is_hit(#[trigger] self@.commands[i]),
    {
        let mut i: usize = 0;
        while i < self.commands.len()
            invariant
                i <= self.commands@.len(),
                forall|k: int| 0 <= k < i ==> !is_hit(#[trigger] self@.commands[k]),
            decreases self.commands@.len() - i,
        {
            assert(self@.commands[i as int] == crate::excellon_format::entry_view(
                self.commands@[i as int],
            ));
            match &self.commands[i] {
                Ok(Command::Coordinate(_, _, _)) => {
                    return false;
                },
                Ok(Command::Slot { .. }) => {
                    return false;
                },
                _ => {},
            }
            i = i + 1;
        }
        true
    }
}

} // verus!
