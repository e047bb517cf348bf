//! Moving, scaling and repeating layers.
use crate::gerber::{GerberLayerData, GerberView};
use crate::gerber_types::{
    Command, CommandView, CoordinateFormat, CoordinateNumber, CoordinateOffset, Coordinates, DCode,
    ExtendedCode, FunctionCode, Operation, StepAndRepeat, Unit,
};
use crate::scalar::Scalar;
use crate::unit_able::UnitAble;
use crate::{LayerScale, LayerStepAndRepeat, LayerTransform, Pos};
use vstd::prelude::*;

verus! {

/// The commands with a function applied to each of them.
pub(crate) fn map_commands<N: Scalar, F: Fn(&Command<N>) -> Command<N>>(
    v: &Vec<Command<N>>,
    f: F,
    Ghost(g): Ghost<spec_fn(CommandView<N>) -> CommandView<N>>,
) -> (r: Vec<Command<N>>)
    requires
        forall|i: int| 0 <= i < v@.len() ==> call_requires(f, (&#[trigger] v@[i],)),
        forall|c: &Command<N>, d: Command<N>| #[trigger] call_ensures(f, (c,), d) ==> d@ == g(c@),
    ensures
        crate::gerber_types::views(r@) == crate::gerber_types::views(v@).map_values(g),
{
    let mut r: Vec<Command<N>> = Vec::new();
    let mut i: usize = 0;
    while i < v.len()
        invariant
            i <= v@.len(),
            r@.len() == i,
            forall|k: int| 0 <= k < v@.len() ==> call_requires(f, (&#[trigger] v@[k],)),
            forall|c: &Command<N>, d: Command<N>|
                #[trigger] call_ensures(f, (c,), d) ==> d@ == g(c@),
            forall|k: int| 0 <= k < i ==> (#[trigger] r@[k])@ == g(v@[k]@),
        decreases v@.len() - i,
    {
        assert(call_requires(f, (&v@[i as int],)));
        r.push(f(&v[i]));
        i = i + 1;
    }
    assert(crate::gerber_types::views(r@) =~= crate::gerber_types::views(v@).map_values(g));
    r
}

/// A coordinate moved by a length in millimetres. One that leaves the range of coordinates is left
/// out.
pub open spec fn shifted<N: Scalar>(
    v: Option<CoordinateNumber>,
    delta: N,
    unit: Unit,
) -> Option<CoordinateNumber> {
    match v {
        Some(v) => match N::mm_to_unit_spec(
            N::to_mm_spec(N::from_nano_spec(v.nano), unit).plus_spec(delta),
            unit,
        ).to_nano_spec() {
            Some(nano) => Some(CoordinateNumber { nano }),
            None => None,
        },
        None => None,
    }
}

fn shift<N: Scalar>(v: Option<CoordinateNumber>, delta: N, unit: &Unit) -> (r: Option<
    CoordinateNumber,
>)
    ensures
        r == shifted(v, delta, *unit),
{
    match v {
        Some(v) => match N::from_nano(v.nano).to_mm(unit).plus(delta).mm_to_unit(unit).to_nano() {
            Some(nano) => Some(CoordinateNumber { nano }),
            None => None,
        },
        None => None,
    }
}

pub open spec fn moved_point<N: Scalar>(c: Option<Coordinates>, by: Pos<N>, unit: Unit) -> Option<
    Coordinates,
> {
    match c {
        Some(c) => Some(
            Coordinates { x: shifted(c.x, by.x, unit), y: shifted(c.y, by.y, unit), ..c },
        ),
        None => None,
    }
}

fn move_point<N: Scalar>(c: &Option<Coordinates>, by: &Pos<N>, unit: &Unit) -> (r: Option<
    Coordinates,
>)
    ensures
        r == moved_point(*c, *by, *unit),
{
    match c {
        Some(c) => Some(
            Coordinates {
                x: shift(c.x, by.x, unit),
                y: shift(c.y, by.y, unit),
                format: c.format,
            },
        ),
        None => None,
    }
}

/// An operation with its point moved. The offset of an arc is relative and stays.
pub open spec fn moved_operation<N: Scalar>(op: Operation, by: Pos<N>, unit: Unit) -> Operation {
    match op {
        Operation::Move(c) => Operation::Move(moved_point(c, by, unit)),
        Operation::Flash(c) => Operation::Flash(moved_point(c, by, unit)),
        Operation::Interpolate(c, o) => Operation::Interpolate(moved_point(c, by, unit), o),
    }
}

/// A command with its point moved.
pub open spec fn moved<N: Scalar>(c: CommandView<N>, by: Pos<N>, unit: Unit) -> CommandView<N> {
    match c {
        Command::FunctionCode(FunctionCode::DCode(DCode::Operation(op))) => Command::FunctionCode(
            FunctionCode::DCode(DCode::Operation(moved_operation(op, by, unit))),
        ),
        other => other,
    }
}

fn move_command<N: Scalar>(c: &Command<N>, by: &Pos<N>, unit: &Unit) -> (r: Command<N>)
    ensures
        r@ == moved(c@, *by, *unit),
{
    match c {
        Command::FunctionCode(FunctionCode::DCode(DCode::Operation(op))) => {
            let op = match op {
                Operation::Move(c) => Operation::Move(move_point(c, by, unit)),
                Operation::Flash(c) => Operation::Flash(move_point(c, by, unit)),
                Operation::Interpolate(c, o) => Operation::Interpolate(move_point(c, by, unit), *o),
            };
            Command::FunctionCode(FunctionCode::DCode(DCode::Operation(op)))
        },
        other => other.clone(),
    }
}

/// The commands with their points moved.
pub open spec fn moved_commands<N: Scalar>(
    s: Seq<CommandView<N>>,
    by: Pos<N>,
    unit: Unit,
) -> Seq<CommandView<N>> {
    s.map_values(|c: CommandView<N>| moved(c, by, unit))
}

/// Shifts the points of a list of commands by `transform` (mm).
pub fn transform_commands<N: Scalar>(unit: &Unit, cmds: &mut Vec<Command<N>>, transform: &Pos<N>)
    ensures
        crate::gerber_types::views(final(cmds)@) == moved_commands(
            crate::gerber_types::views(old(cmds)@),
            *transform,
            *unit,
        ),
{
    let ghost g = |c: CommandView<N>| moved(c, *transform, *unit);
    let f = |c: &Command<N>| -> (d: Command<N>)
        ensures
            d@ == moved(c@, *transform, *unit),
        { move_command(c, transform, unit) };
    let moved_cmds = map_commands(cmds, f, Ghost(g));
    *cmds = moved_cmds;
}

impl<N: Scalar> LayerTransform<N> for GerberLayerData<N> {
    open spec fn transformed(v: GerberView<N>, by: Pos<N>) -> GerberView<N> {
        GerberView { commands: moved_commands(v.commands, by, v.unit), ..v }
    }

    fn transform(&mut self, transform: &Pos<N>) {
        let unit = self.unit;
        transform_commands(&unit, &mut self.commands, transform);
    }
}

pub open spec fn axis_scalable<N: Scalar>(v: Option<CoordinateNumber>, factor: N) -> bool {
    v matches Some(v) ==> N::from_nano_spec(v.nano).times_spec(factor).to_nano_spec() is Some
}

pub open spec fn scaled_axis<N: Scalar>(v: Option<CoordinateNumber>, factor: N) -> Option<
    CoordinateNumber,
> {
    match v {
        Some(v) => Some(
            CoordinateNumber {
                nano: N::from_nano_spec(v.nano).times_spec(factor).to_nano_spec()->0,
            },
        ),
        None => None,
    }
}

fn scale_axis<N: Scalar>(v: Option<CoordinateNumber>, factor: N) -> (r: Option<CoordinateNumber>)
    requires
        axis_scalable(v, factor),
    ensures
        r == scaled_axis(v, factor),
{
    match v {
        Some(v) => Some(
            CoordinateNumber { nano: N::from_nano(v.nano).times(factor).to_nano().unwrap() },
        ),
        None => None,
    }
}

impl View for Coordinates {
    type V = Coordinates;

    open spec fn view(&self) -> Coordinates {
        *self
    }
}

impl View for CoordinateOffset {
    type V = CoordinateOffset;

    open spec fn view(&self) -> CoordinateOffset {
        *self
    }
}

impl<N: Scalar> LayerScale<N> for Coordinates {
    open spec fn scaled(v: Coordinates, x: N, y: N) -> Coordinates {
        Coordinates { x: scaled_axis(v.x, x), y: scaled_axis(v.y, y), ..v }
    }

    open spec fn scalable(v: Coordinates, x: N, y: N) -> bool {
        axis_scalable(v.x, x) && axis_scalable(v.y, y)
    }

    fn scale(&mut self, x: N, y: N) {
        self.x = scale_axis(self.x, x);
        self.y = scale_axis(self.y, y);
    }
}

impl<N: Scalar> LayerScale<N> for CoordinateOffset {
    open spec fn scaled(v: CoordinateOffset, x: N, y: N) -> CoordinateOffset {
        CoordinateOffset { x: scaled_axis(v.x, x), y: scaled_axis(v.y, y), ..v }
    }

    open spec fn scalable(v: CoordinateOffset, x: N, y: N) -> bool {
        axis_scalable(v.x, x) && axis_scalable(v.y, y)
    }

    fn scale(&mut self, x: N, y: N) {
        self.x = scale_axis(self.x, x);
        self.y = scale_axis(self.y, y);
    }
}

pub open spec fn scaled_point<N: Scalar>(
    c: Option<Coordinates>,
    format: CoordinateFormat,
    x: N,
    y: N,
) -> Option<Coordinates> {
    match c {
        Some(c) => Some(Coordinates { format, ..Coordinates::scaled(c, x, y) }),
        None => None,
    }
}

pub open spec fn point_scalable<N: Scalar>(c: Option<Coordinates>, x: N, y: N) -> bool {
    c matches Some(c) ==> Coordinates::scalable(c, x, y)
}

fn scale_point<N: Scalar>(c: &Option<Coordinates>, format: &CoordinateFormat, x: N, y: N) -> (r:
    Option<Coordinates>)
    requires
        point_scalable(*c, x, y),
    ensures
        r == scaled_point(*c, *format, x, y),
{
    match c {
        Some(c) => {
            let mut c = *c;
            c.scale(x, y);
            c.format = *format;
            Some(c)
        },
        None => None,
    }
}

/// An operation with its point and its offset multiplied and written in `format`.
pub open spec fn scaled_operation<N: Scalar>(
    op: Operation,
    format: CoordinateFormat,
    x: N,
    y: N,
) -> Operation {
    match op {
        Operation::Move(c) => Operation::Move(scaled_point(c, format, x, y)),
        Operation::Flash(c) => Operation::Flash(scaled_point(c, format, x, y)),
        Operation::Interpolate(c, o) => Operation::Interpolate(
            scaled_point(c, format, x, y),
            match o {
                Some(o) => Some(
                    CoordinateOffset { format, ..CoordinateOffset::scaled(o, x, y) },
                ),
                None => None,
            },
        ),
    }
}

pub open spec fn operation_scalable<N: Scalar>(op: Operation, x: N, y: N) -> bool {
    match op {
        Operation::Move(c) => point_scalable(c, x, y),
        Operation::Flash(c) => point_scalable(c, x, y),
        Operation::Interpolate(c, o) => point_scalable(c, x, y) && (o matches Some(o)
            ==> CoordinateOffset::scalable(o, x, y)),
    }
}

/// A command with its coordinates multiplied.
pub open spec fn scaled_command<N: Scalar>(
    c: CommandView<N>,
    format: CoordinateFormat,
    x: N,
    y: N,
) -> CommandView<N> {
    match c {
        Command::FunctionCode(FunctionCode::DCode(DCode::Operation(op))) => Command::FunctionCode(
            FunctionCode::DCode(DCode::Operation(scaled_operation(op, format, x, y))),
        ),
        other => other,
    }
}

pub open spec fn command_scalable<N: Scalar>(c: CommandView<N>, x: N, y: N) -> bool {
    c matches Command::FunctionCode(FunctionCode::DCode(DCode::Operation(op)))
        ==> operation_scalable(op, x, y)
}

pub(crate) fn scale_command<N: Scalar>(
    c: &Command<N>,
    format: &CoordinateFormat,
    x: N,
    y: N,
) -> (r: Command<N>)
    requires
        command_scalable(c@, x, y),
    ensures
        r@ == scaled_command(c@, *format, x, y),
{
    match c {
        Command::FunctionCode(FunctionCode::DCode(DCode::Operation(op))) => {
            let op = match op {
                Operation::Move(c) => Operation::Move(scale_point(c, format, x, y)),
                Operation::Flash(c) => Operation::Flash(scale_point(c, format, x, y)),
                Operation::Interpolate(c, o) => {
                    let offset = match o {
                        Some(o) => {
                            let mut o = *o;
                            o.scale(x, y);
                            o.format = *format;
                            Some(o)
                        },
                        None => None,
                    };
                    Operation::Interpolate(scale_point(c, format, x, y), offset)
                },
            };
            Command::FunctionCode(FunctionCode::DCode(DCode::Operation(op)))
        },
        other => other.clone(),
    }
}

/// The commands with their coordinates multiplied.
pub open spec fn scaled_commands<N: Scalar>(
    s: Seq<CommandView<N>>,
    format: CoordinateFormat,
    x: N,
    y: N,
) -> Seq<CommandView<N>> {
    s.map_values(|c: CommandView<N>| scaled_command(c, format, x, y))
}

/// Every product is small enough for a coordinate.
pub open spec fn commands_scalable<N: Scalar>(s: Seq<CommandView<N>>, x: N, y: N) -> bool {
    forall|i: int| 0 <= i < s.len() ==> command_scalable(#[trigger] s[i], x, y)
}

fn is_axis_scalable<N: Scalar>(v: Option<CoordinateNumber>, factor: N) -> (r: bool)
    ensures
        r == axis_scalable(v, factor),
{
    match v {
        Some(v) => N::from_nano(v.nano).times(factor).to_nano().is_some(),
        None => true,
    }
}

fn is_point_scalable<N: Scalar>(c: &Option<Coordinates>, x: N, y: N) -> (r: bool)
    ensures
        r == point_scalable(*c, x, y),
{
    match c {
        Some(c) => is_axis_scalable(c.x, x) && is_axis_scalable(c.y, y),
        None => true,
    }
}

fn is_scalable<N: Scalar>(c: &Command<N>, x: N, y: N) -> (r: bool)
    ensures
        r == command_scalable(c@, x, y),
{
    match c {
        Command::FunctionCode(FunctionCode::DCode(DCode::Operation(op))) => match op {
            Operation::Move(c) => is_point_scalable(c, x, y),
            Operation::Flash(c) => is_point_scalable(c, x, y),
            Operation::Interpolate(c, o) => is_point_scalable(c, x, y) && match o {
                Some(o) => is_axis_scalable(o.x, x) && is_axis_scalable(o.y, y),
                None => true,
            },
        },
        _ => true,
    }
}

/// Whether every coordinate can be multiplied.
pub fn are_scalable<N: Scalar>(cmds: &Vec<Command<N>>, x: N, y: N) -> (r: bool)
    ensures
        r == commands_scalable(crate::gerber_types::views(cmds@), x, y),
{
    let ghost s = crate::gerber_types::views(cmds@);
    let mut i: usize = 0;
    while i < cmds.len()
        invariant
            i <= cmds@.len(),
            s == crate::gerber_types::views(cmds@),
            forall|k: int| 0 <= k < i ==> command_scalable(#[trigger] s[k], x, y),
        decreases cmds@.len() - i,
    {
        assert(s[i as int] == cmds@[i as int]@);
        if !is_scalable(&cmds[i], x, y) {
            return false;
        }
        i = i + 1;
    }
    true
}

/// Multiplies the coordinates of a list of commands, which take over the format.
pub fn scale_commands<N: Scalar>(
    format: &CoordinateFormat,
    cmds: &mut Vec<Command<N>>,
    x: N,
    y: N,
)
    requires
        commands_scalable(crate::gerber_types::views(old(cmds)@), x, y),
    ensures
        crate::gerber_types::views(final(cmds)@) == scaled_commands(
            crate::gerber_types::views(old(cmds)@),
            *format,
            x,
            y,
        ),
{
    let ghost s = crate::gerber_types::views(cmds@);
    let ghost g = |c: CommandView<N>| scaled_command(c, *format, x, y);
    let f = |c: &Command<N>| -> (d: Command<N>)
        requires
            command_scalable(c@, x, y),
        ensures
            d@ == scaled_command(c@, *format, x, y),
        { scale_command(c, format, x, y) };
    proof {
        assert forall|i: int| 0 <= i < cmds@.len() implies call_requires(f, (&#[trigger] cmds@[i],))
            by {
            assert(s[i] == cmds@[i]@);
        }
    }
    let scaled_cmds = map_commands(cmds, f, Ghost(g));
    *cmds = scaled_cmds;
}

impl<N: Scalar> LayerScale<N> for GerberLayerData<N> {
    open spec fn scaled(v: GerberView<N>, x: N, y: N) -> GerberView<N> {
        GerberView { commands: scaled_commands(v.commands, v.coordinate_format, x, y), ..v }
    }

    open spec fn scalable(v: GerberView<N>, x: N, y: N) -> bool {
        commands_scalable(v.commands, x, y)
    }

    fn scale(&mut self, x: N, y: N) {
        let format = self.coordinate_format;
        scale_commands(&format, &mut self.commands, x, y);
    }
}

/// The commands between the start of a grid and its end. In front of the end stands a grid of one
/// cell, for readers that do not take the end for what it is.
pub open spec fn repeated_commands<N: Scalar>(
    s: Seq<CommandView<N>>,
    x_repetitions: u32,
    y_repetitions: u32,
    offset: Pos<N>,
    unit: Unit,
) -> Seq<CommandView<N>> {
    seq![
        Command::ExtendedCode(
            ExtendedCode::StepAndRepeat(
                StepAndRepeat::Open {
                    repeat_x: x_repetitions,
                    repeat_y: y_repetitions,
                    distance_x: N::mm_to_unit_spec(offset.x, unit),
                    distance_y: N::mm_to_unit_spec(offset.y, unit),
                },
            ),
        ),
    ] + s + seq![
        Command::ExtendedCode(
            ExtendedCode::StepAndRepeat(
                StepAndRepeat::Open {
                    repeat_x: 1,
                    repeat_y: 1,
                    distance_x: N::zero_spec(),
                    distance_y: N::zero_spec(),
                },
            ),
        ),
        Command::ExtendedCode(ExtendedCode::StepAndRepeat(StepAndRepeat::Close)),
    ]
}

/// Repeats a list of commands in a grid.
pub fn repeat_commands<N: Scalar>(
    unit: &Unit,
    commands: &mut Vec<Command<N>>,
    x_repetitions: u32,
    y_repetitions: u32,
    offset: &Pos<N>,
)
    ensures
        crate::gerber_types::views(final(commands)@) == repeated_commands(
            crate::gerber_types::views(old(commands)@),
            x_repetitions,
            y_repetitions,
            *offset,
            *unit,
        ),
{
    let open: Command<N> = Command::ExtendedCode(
        ExtendedCode::StepAndRepeat(
            StepAndRepeat::Open {
                repeat_x: x_repetitions,
                repeat_y: y_repetitions,
                distance_x: offset.x.mm_to_unit(unit),
                distance_y: offset.y.mm_to_unit(unit),
            },
        ),
    );
    // Some readers do not interpret SR close correctly, so a 1x1 SR stands in front of it,
    // which results in the same behavior.
    let reset: Command<N> = Command::ExtendedCode(
        ExtendedCode::StepAndRepeat(
            StepAndRepeat::Open {
                repeat_x: 1,
                repeat_y: 1,
                distance_x: N::zero(),
                distance_y: N::zero(),
            },
        ),
    );
    let close: Command<N> = Command::ExtendedCode(
        ExtendedCode::StepAndRepeat(StepAndRepeat::Close),
    );
    commands.insert(0, open);
    commands.push(reset);
    commands.push(close);
    assert(crate::gerber_types::views(commands@) =~= repeated_commands(
        crate::gerber_types::views(old(commands)@),
        x_repetitions,
        y_repetitions,
        *offset,
        *unit,
    ));
}

impl<N: Scalar> LayerStepAndRepeat<N> for GerberLayerData<N> {
    open spec fn repeated(
        v: GerberView<N>,
        x_repetitions: u32,
        y_repetitions: u32,
        offset: Pos<N>,
    ) -> GerberView<N> {
        GerberView {
            commands: repeated_commands(
                v.commands,
                x_repetitions,
                y_repetitions,
                offset,
                v.unit,
            ),
            ..v
        }
    }

    open spec fn repeatable(
        v: GerberView<N>,
        x_repetitions: u32,
        y_repetitions: u32,
        offset: Pos<N>,
    ) -> bool {
        true
    }

    fn step_and_repeat(&mut self, x_repetitions: u32, y_repetitions: u32, offset: &Pos<N>) {
        let unit = self.unit;
        repeat_commands(&unit, &mut self.commands, x_repetitions, y_repetitions, offset);
    }
}

} // verus!
