//! The bounding box of a layer.
use crate::gerber::arc::arc_corners;
use crate::gerber::{GerberLayerData, GerberView};
use crate::gerber_types::{
    Aperture, ApertureView, Command, CommandView, CoordinateNumber, CoordinateOffset, Coordinates,
    DCode, FunctionCode, GCode, InterpolationMode, Operation, Unit,
};
use crate::scalar::Scalar;
use crate::table;
use crate::unit_able;
use crate::unit_able::UnitAble;
use crate::{LayerCorners, Pos};
use vstd::prelude::*;

verus! {

/// A coordinate in millimetres.
pub open spec fn in_mm<N: Scalar>(v: CoordinateNumber, unit: Unit) -> N {
    N::from_nano_spec(<CoordinateNumber as UnitAble<N>>::to_mm_spec(v, unit).nano)
}

fn millimeters<N: Scalar>(v: CoordinateNumber, unit: &Unit) -> (r: N)
    requires
        <CoordinateNumber as UnitAble<N>>::fits_mm(v, *unit),
    ensures
        r == in_mm::<N>(v, *unit),
{
    let mm = <CoordinateNumber as UnitAble<N>>::to_mm(&v, unit);
    N::from_nano(mm.nano)
}

/// A box that also holds what a tool of the box `tool` covers at `coords`, on the axes that are
/// given.
pub open spec fn with_coordinates<N: Scalar>(
    b: (Pos<N>, Pos<N>),
    coords: Coordinates,
    unit: Unit,
    tool: Option<(Pos<N>, Pos<N>)>,
) -> (Pos<N>, Pos<N>) {
    let (tool_min, tool_max) = match tool {
        Some(t) => t,
        None => (Pos::origin(), Pos::origin()),
    };
    (
        Pos {
            x: match coords.x {
                Some(x) => b.0.x.lower_spec(in_mm::<N>(x, unit).plus_spec(tool_min.x)),
                None => b.0.x,
            },
            y: match coords.y {
                Some(y) => b.0.y.lower_spec(in_mm::<N>(y, unit).plus_spec(tool_min.y)),
                None => b.0.y,
            },
        },
        Pos {
            x: match coords.x {
                Some(x) => b.1.x.higher_spec(in_mm::<N>(x, unit).plus_spec(tool_max.x)),
                None => b.1.x,
            },
            y: match coords.y {
                Some(y) => b.1.y.higher_spec(in_mm::<N>(y, unit).plus_spec(tool_max.y)),
                None => b.1.y,
            },
        },
    )
}

pub open spec fn coordinates_fit<N: Scalar>(c: Coordinates, unit: Unit) -> bool {
    unit_able::coordinates_fit::<N>(Some(c), unit_able::Direction::IntoMillimeters, unit)
}

fn min_max<N: Scalar>(
    min: &mut Pos<N>,
    max: &mut Pos<N>,
    coords: &Coordinates,
    unit: &Unit,
    tool: &Option<(Pos<N>, Pos<N>)>,
)
    requires
        coordinates_fit::<N>(*coords, *unit),
    ensures
        (*final(min), *final(max)) == with_coordinates(
            (*old(min), *old(max)),
            *coords,
            *unit,
            *tool,
        ),
{
    let (tool_min, tool_max) = match tool {
        Some((a, b)) => (*a, *b),
        None => (Pos::default(), Pos::default()),
    };
    if let Some(x) = coords.x {
        let x = millimeters::<N>(x, unit);
        min.x = min.x.lower(x.plus(tool_min.x));
        max.x = max.x.higher(x.plus(tool_max.x));
    }
    if let Some(y) = coords.y {
        let y = millimeters::<N>(y, unit);
        min.y = min.y.lower(y.plus(tool_min.y));
        max.y = max.y.higher(y.plus(tool_max.y));
    }
}

/// The position behind modal coordinates: an omitted axis keeps its current value.
pub open spec fn arrived<N: Scalar>(pos: Pos<N>, coords: Coordinates, unit: Unit) -> Pos<N> {
    Pos {
        x: match coords.x {
            Some(x) => in_mm(x, unit),
            None => pos.x,
        },
        y: match coords.y {
            Some(y) => in_mm(y, unit),
            None => pos.y,
        },
    }
}

/// Updates a position in-place from modal coordinates (omitted axis keeps its current value).
fn update_pos<N: Scalar>(pos: &mut Pos<N>, coords: &Coordinates, unit: &Unit)
    requires
        coordinates_fit::<N>(*coords, *unit),
    ensures
        *final(pos) == arrived(*old(pos), *coords, *unit),
{
    if let Some(x) = coords.x {
        pos.x = millimeters(x, unit);
    }
    if let Some(y) = coords.y {
        pos.y = millimeters(y, unit);
    }
}

/// The point of a drawing command.
pub open spec fn command_point<N>(c: CommandView<N>) -> Option<Coordinates> {
    match c {
        Command::FunctionCode(
            FunctionCode::DCode(DCode::Operation(Operation::Move(Some(coords)))),
        ) => Some(coords),
        Command::FunctionCode(
            FunctionCode::DCode(DCode::Operation(Operation::Flash(Some(coords)))),
        ) => Some(coords),
        Command::FunctionCode(
            FunctionCode::DCode(DCode::Operation(Operation::Interpolate(Some(coords), _))),
        ) => Some(coords),
        _ => None,
    }
}

fn cmd_into_coords<N>(command: &Command<N>) -> (r: Option<&Coordinates>)
    ensures
        r is Some <==> command_point(command@) is Some,
        r matches Some(c) ==> command_point(command@) == Some(*c),
{
    match command {
        Command::FunctionCode(
            FunctionCode::DCode(DCode::Operation(Operation::Move(Some(coords)))),
        ) => Some(coords),
        Command::FunctionCode(
            FunctionCode::DCode(DCode::Operation(Operation::Flash(Some(coords)))),
        ) => Some(coords),
        Command::FunctionCode(
            FunctionCode::DCode(DCode::Operation(Operation::Interpolate(Some(coords), _))),
        ) => Some(coords),
        _ => None,
    }
}

/// The point of a command, if it has one, has a value in millimetres.
pub open spec fn point_fits<N: Scalar>(c: CommandView<N>, unit: Unit) -> bool {
    command_point(c) matches Some(p) ==> coordinates_fit::<N>(p, unit)
}

/// Every point of the commands has a value in millimetres.
pub open spec fn commands_fit<N: Scalar>(s: Seq<CommandView<N>>, unit: Unit) -> bool {
    forall|i: int| 0 <= i < s.len() ==> point_fits(#[trigger] s[i], unit)
}

fn axis_in_range<N: Scalar>(v: Option<CoordinateNumber>, unit: &Unit) -> (r: bool)
    ensures
        r == unit_able::axis_fits::<N>(v, unit_able::Direction::IntoMillimeters, *unit),
{
    match v {
        Some(v) => N::from_nano(v.nano).to_mm(unit).to_nano().is_some(),
        None => true,
    }
}

fn command_in_range<N: Scalar>(c: &Command<N>, unit: &Unit) -> (r: bool)
    ensures
        r == point_fits(c@, *unit),
{
    match cmd_into_coords(c) {
        Some(p) => axis_in_range::<N>(p.x, unit) && axis_in_range::<N>(p.y, unit),
        None => true,
    }
}

/// Whether every point of a list of commands has a value in millimetres.
pub fn in_range<N: Scalar>(unit: &Unit, cmds: &Vec<Command<N>>) -> (r: bool)
    ensures
        r == commands_fit(crate::gerber_types::views(cmds@), *unit),
{
    let ghost s = crate::gerber_types::views(cmds@);
    let mut i: usize = 0;
    while i < cmds.len()
        invariant
            i <= cmds@.len(),
            s == crate::gerber_types::views(cmds@),
            forall|k: int|
                0 <= k < i ==> point_fits(#[trigger] s[k], *unit),
        decreases cmds@.len() - i,
    {
        assert(s[i as int] == cmds@[i as int]@);
        if !command_in_range(&cmds[i], unit) {
            return false;
        }
        i = i + 1;
    }
    true
}

/// The box around the points of the commands, without the widths of tools.
pub open spec fn points_box<N: Scalar>(s: Seq<CommandView<N>>, unit: Unit) -> (Pos<N>, Pos<N>)
    decreases s.len(),
{
    if s.len() == 0 {
        crate::empty_box()
    } else {
        let b = points_box(s.drop_last(), unit);
        match command_point(s.last()) {
            Some(c) => with_coordinates(b, c, unit, None),
            None => b,
        }
    }
}

/// The corners of a list of commands, without the widths of tools.
pub fn commands_corners<N: Scalar>(unit: &Unit, cmds: &Vec<Command<N>>) -> (r: (Pos<N>, Pos<N>))
    requires
        commands_fit(crate::gerber_types::views(cmds@), *unit),
    ensures
        r == points_box(crate::gerber_types::views(cmds@), *unit),
{
    let ghost s = crate::gerber_types::views(cmds@);
    let mut min = Pos { x: N::highest(), y: N::highest() };
    let mut max = Pos { x: N::lowest(), y: N::lowest() };
    let mut i: usize = 0;
    assert(s.take(0).len() == 0);
    while i < cmds.len()
        invariant
            i <= cmds@.len(),
            s == crate::gerber_types::views(cmds@),
            commands_fit(s, *unit),
            (min, max) == points_box(s.take(i as int), *unit),
        decreases cmds@.len() - i,
    {
        proof {
            assert(s.take(i + 1).drop_last() =~= s.take(i as int));
            assert(s.take(i + 1).last() == s[i as int]);
            assert(s[i as int] == cmds@[i as int]@);
        }
        if let Some(coords) = cmd_into_coords(&cmds[i]) {
            min_max(&mut min, &mut max, coords, unit, &None);
        }
        i = i + 1;
    }
    assert(s.take(i as int) =~= s);
    (min, max)
}

/// The box of a tool around its center. Tools under a tenth of a millimetre in both directions,
/// polygons and macros count as points.
pub open spec fn tool_box<N: Scalar>(a: ApertureView<N>) -> (Pos<N>, Pos<N>) {
    let (x_size, y_size) = match a {
        ApertureView::Circle(c) => (c.diameter, c.diameter),
        ApertureView::Obround(r) => (r.x, r.y),
        ApertureView::Rectangle(r) => (r.x, r.y),
        ApertureView::Polygon(_) => (N::zero_spec(), N::zero_spec()),
        ApertureView::Macro(_, _) => (N::zero_spec(), N::zero_spec()),
    };
    let least = N::ratio_spec(1, 10);
    let x = x_size.over_spec(N::ratio_spec(2, 1));
    let y = y_size.over_spec(N::ratio_spec(2, 1));
    if x_size.less_spec(least) && y_size.less_spec(least) {
        (Pos::origin(), Pos::origin())
    } else {
        (Pos { x: x.negated_spec(), y: y.negated_spec() }, Pos { x, y })
    }
}

impl<N: Scalar> LayerCorners<N> for Aperture<N> {
    open spec fn corners(&self) -> (Pos<N>, Pos<N>) {
        tool_box(self@)
    }

    open spec fn bounded(&self) -> bool {
        true
    }

    fn get_corners(&self) -> (r: (Pos<N>, Pos<N>)) {
        let (x_size, y_size) = match self {
            Aperture::Circle(c) => (c.diameter, c.diameter),
            Aperture::Obround(r) => (r.x, r.y),
            Aperture::Rectangle(r) => (r.x, r.y),
            Aperture::Polygon(_) => (N::zero(), N::zero()),
            Aperture::Macro(_, _) => (N::zero(), N::zero()),
        };
        // Minimum aperture size (mm) to include in bounding box calculations.
        // Thin traces/lines are excluded so they don't inflate board dimensions.
        let min_tool_size = N::ratio(1, 10);
        if x_size.less(min_tool_size) && y_size.less(min_tool_size) {
            return (Pos::default(), Pos::default());
        }
        let x = x_size.over(N::ratio(2, 1));
        let y = y_size.over(N::ratio(2, 1));
        (Pos { x: x.negated(), y: y.negated() }, Pos { x, y })
    }
}

/// Where the pen stands, and the box of what it has drawn.
#[verifier::ext_equal]
pub ghost struct Pen<N> {
    pub corners: (Pos<N>, Pos<N>),
    pub tool: Option<(Pos<N>, Pos<N>)>,
    pub current: Pos<N>,
    pub mode: InterpolationMode,
}

/// A box that also holds the box `a`, widened by the tool.
pub open spec fn with_box<N: Scalar>(
    b: (Pos<N>, Pos<N>),
    a: (Pos<N>, Pos<N>),
    tool: Option<(Pos<N>, Pos<N>)>,
) -> (Pos<N>, Pos<N>) {
    let (tool_min, tool_max) = match tool {
        Some(t) => t,
        None => (Pos::origin(), Pos::origin()),
    };
    (
        Pos {
            x: b.0.x.lower_spec(a.0.x.plus_spec(tool_min.x)),
            y: b.0.y.lower_spec(a.0.y.plus_spec(tool_min.y)),
        },
        Pos {
            x: b.1.x.higher_spec(a.1.x.plus_spec(tool_max.x)),
            y: b.1.y.higher_spec(a.1.y.plus_spec(tool_max.y)),
        },
    )
}

impl<N: Scalar> Pen<N> {
    pub open spec fn start() -> Pen<N> {
        Pen {
            corners: crate::empty_box(),
            tool: None,
            current: Pos::origin(),
            mode: InterpolationMode::Linear,
        }
    }

    /// An unknown aperture changes nothing. A move counts without the tool; an arc counts with the
    /// extremes of its circle.
    pub open spec fn after(
        self,
        c: CommandView<N>,
        apertures: Seq<(i32, ApertureView<N>)>,
        unit: Unit,
    ) -> Pen<N> {
        match c {
            Command::FunctionCode(FunctionCode::DCode(DCode::SelectAperture(id))) => Pen {
                tool: match table::lookup(apertures, id) {
                    Some(a) => Some(tool_box(a)),
                    None => self.tool,
                },
                ..self
            },
            Command::FunctionCode(FunctionCode::GCode(GCode::InterpolationMode(mode))) => Pen {
                mode,
                ..self
            },
            Command::FunctionCode(FunctionCode::DCode(DCode::Operation(op))) => {
                match op {
                    Operation::Move(Some(coords)) => Pen {
                        corners: with_coordinates(self.corners, coords, unit, None),
                        current: arrived(self.current, coords, unit),
                        ..self
                    },
                    Operation::Flash(Some(coords)) => Pen {
                        corners: with_coordinates(self.corners, coords, unit, self.tool),
                        current: arrived(self.current, coords, unit),
                        ..self
                    },
                    Operation::Interpolate(Some(coords), offset) => {
                        let end = arrived(self.current, coords, unit);
                        if self.mode != InterpolationMode::Linear && offset is Some {
                            let arc = crate::gerber::arc::arc_box(
                                self.current,
                                end,
                                offset->0,
                                unit,
                                self.mode,
                            );
                            Pen {
                                corners: with_box(self.corners, arc, self.tool),
                                current: end,
                                ..self
                            }
                        } else {
                            Pen {
                                corners: with_coordinates(self.corners, coords, unit, self.tool),
                                current: end,
                                ..self
                            }
                        }
                    },
                    _ => self,
                }
            },
            _ => self,
        }
    }
}

pub open spec fn drawn<N: Scalar>(
    s: Seq<CommandView<N>>,
    apertures: Seq<(i32, ApertureView<N>)>,
    unit: Unit,
) -> Pen<N>
    decreases s.len(),
{
    if s.len() == 0 {
        Pen::start()
    } else {
        drawn(s.drop_last(), apertures, unit).after(s.last(), apertures, unit)
    }
}

/// The center of the arc that the operation draws in a circular mode.
pub open spec fn arc_offset(op: Operation) -> Option<CoordinateOffset> {
    match op {
        Operation::Interpolate(Some(_), offset) => offset,
        _ => None,
    }
}

pub open spec fn offset_fits<N: Scalar>(o: CoordinateOffset, unit: Unit) -> bool {
    &&& unit_able::axis_fits::<N>(o.x, unit_able::Direction::IntoMillimeters, unit)
    &&& unit_able::axis_fits::<N>(o.y, unit_able::Direction::IntoMillimeters, unit)
}

/// The command draws no arc in this mode, or one whose center has a value in millimetres.
pub open spec fn arc_fits<N: Scalar>(
    c: CommandView<N>,
    mode: InterpolationMode,
    unit: Unit,
) -> bool {
    mode != InterpolationMode::Linear ==> match c {
        Command::FunctionCode(FunctionCode::DCode(DCode::Operation(op))) => arc_offset(
            op,
        ) matches Some(o) ==> offset_fits::<N>(o, unit),
        _ => true,
    }
}

/// Everything that counts for the box of the layer has a value in millimetres: its points, and the
/// centers of its arcs.
pub open spec fn layer_fits<N: Scalar>(v: GerberView<N>) -> bool {
    &&& commands_fit(v.commands, v.unit)
    &&& forall|i: int|
        0 <= i < v.commands.len() ==> arc_fits(
            #[trigger] v.commands[i],
            drawn(v.commands.take(i), v.apertures, v.unit).mode,
            v.unit,
        )
}

/// The box around everything that the commands draw, tool widths included.
pub open spec fn layer_corners<N: Scalar>(v: GerberView<N>) -> (Pos<N>, Pos<N>) {
    drawn(v.commands, v.apertures, v.unit).corners
}

struct Walk<N> {
    min: Pos<N>,
    max: Pos<N>,
    tool: Option<(Pos<N>, Pos<N>)>,
    current: Pos<N>,
    mode: InterpolationMode,
}

impl<N: Scalar> Walk<N> {
    spec fn pen(self) -> Pen<N> {
        Pen {
            corners: (self.min, self.max),
            tool: self.tool,
            current: self.current,
            mode: self.mode,
        }
    }

    fn cover(&mut self, arc: &(Pos<N>, Pos<N>))
        ensures
            final(self).pen() == (Pen {
                corners: with_box(old(self).pen().corners, *arc, old(self).tool),
                ..old(self).pen()
            }),
    {
        let (tool_min, tool_max) = match self.tool {
            Some((a, b)) => (a, b),
            None => (Pos::default(), Pos::default()),
        };
        self.min = Pos {
            x: self.min.x.lower(arc.0.x.plus(tool_min.x)),
            y: self.min.y.lower(arc.0.y.plus(tool_min.y)),
        };
        self.max = Pos {
            x: self.max.x.higher(arc.1.x.plus(tool_max.x)),
            y: self.max.y.higher(arc.1.y.plus(tool_max.y)),
        };
    }

    fn draw(&mut self, op: &Operation, unit: &Unit)
        requires
            point_fits::<N>(
                Command::FunctionCode(FunctionCode::DCode(DCode::Operation(*op))),
                *unit,
            ),
            arc_fits::<N>(
                Command::FunctionCode(FunctionCode::DCode(DCode::Operation(*op))),
                old(self).mode,
                *unit,
            ),
        ensures
            forall|apertures: Seq<(i32, ApertureView<N>)>|
                final(self).pen() == #[trigger] old(self).pen().after(
                    Command::FunctionCode(FunctionCode::DCode(DCode::Operation(*op))),
                    apertures,
                    *unit,
                ),
    {
        match op {
            Operation::Move(Some(coords)) => {
                update_pos(&mut self.current, coords, unit);
                // Include move targets so stroke starts are bounded (no tool: not drawing).
                min_max(&mut self.min, &mut self.max, coords, unit, &None);
            },
            Operation::Flash(Some(coords)) => {
                update_pos(&mut self.current, coords, unit);
                min_max(&mut self.min, &mut self.max, coords, unit, &self.tool);
            },
            Operation::Interpolate(Some(coords), offset) => {
                let start = self.current;
                update_pos(&mut self.current, coords, unit);
                let mode = self.mode;
                match offset {
                    Some(offset) if mode != InterpolationMode::Linear => {
                        let arc = arc_corners(&start, &self.current, offset, unit, mode);
                        self.cover(&arc);
                    },
                    _ => {
                        min_max(&mut self.min, &mut self.max, coords, unit, &self.tool);
                    },
                }
            },
            _ => {},
        }
    }
}

fn arc_in_range<N: Scalar>(c: &Command<N>, mode: InterpolationMode, unit: &Unit) -> (r: bool)
    ensures
        r == arc_fits(c@, mode, *unit),
{
    match c {
        Command::FunctionCode(
            FunctionCode::DCode(DCode::Operation(Operation::Interpolate(Some(_), Some(o)))),
        ) if mode != InterpolationMode::Linear => axis_in_range::<N>(o.x, unit)
            && axis_in_range::<N>(o.y, unit),
        _ => true,
    }
}

/// The arc that command `k` draws, if it draws one, has a center with a value in millimetres.
spec fn arc_fits_at<N: Scalar>(v: GerberView<N>, k: int) -> bool {
    arc_fits(v.commands[k], drawn(v.commands.take(k), v.apertures, v.unit).mode, v.unit)
}

/// The mode behind a command.
spec fn mode_after<N: Scalar>(c: CommandView<N>, mode: InterpolationMode) -> InterpolationMode {
    match c {
        Command::FunctionCode(FunctionCode::GCode(GCode::InterpolationMode(m))) => m,
        _ => mode,
    }
}

fn next_mode<N: Scalar>(c: &Command<N>, mode: InterpolationMode) -> (r: InterpolationMode)
    ensures
        r == mode_after(c@, mode),
{
    match c {
        Command::FunctionCode(FunctionCode::GCode(GCode::InterpolationMode(m))) => *m,
        _ => mode,
    }
}

proof fn lemma_next_mode<N: Scalar>(v: GerberView<N>, i: int)
    requires
        0 <= i < v.commands.len(),
    ensures
        drawn(v.commands.take(i + 1), v.apertures, v.unit).mode == mode_after(
            v.commands[i],
            drawn(v.commands.take(i), v.apertures, v.unit).mode,
        ),
{
    assert(v.commands.take(i + 1).drop_last() =~= v.commands.take(i));
    assert(v.commands.take(i + 1).last() == v.commands[i]);
}

impl<N: Scalar> GerberLayerData<N> {
    /// Whether everything that counts for the corners of the layer has a value in millimetres.
    pub fn is_bounded(&self) -> (r: bool)
        ensures
            r == layer_fits(self@),
    {
        let unit = self.unit;
        if !in_range(&unit, &self.commands) {
            return false;
        }
        let ghost v = self@;
        let mut mode = InterpolationMode::Linear;
        let mut i: usize = 0;
        assert(v.commands.take(0).len() == 0);
        while i < self.commands.len()
            invariant
                i <= self.commands@.len(),
                v == self@,
                unit == self.unit,
                commands_fit(v.commands, v.unit),
                mode == drawn(v.commands.take(i as int), v.apertures, v.unit).mode,
                forall|k: int| 0 <= k < i ==> #[trigger] arc_fits_at(v, k),
            decreases self.commands@.len() - i,
        {
            proof {
                assert(v.commands[i as int] == self.commands@[i as int]@);
                lemma_next_mode(v, i as int);
            }
            if !arc_in_range(&self.commands[i], mode, &unit) {
                assert(!arc_fits_at(v, i as int));
                return false;
            }
            mode = next_mode(&self.commands[i], mode);
            i = i + 1;
        }
        assert forall|k: int| 0 <= k < v.commands.len() implies arc_fits(
            #[trigger] v.commands[k],
            drawn(v.commands.take(k), v.apertures, v.unit).mode,
            v.unit,
        ) by {
            assert(arc_fits_at(v, k));
        }
        true
    }
}

impl<N: Scalar> LayerCorners<N> for GerberLayerData<N> {
    open spec fn corners(&self) -> (Pos<N>, Pos<N>) {
        layer_corners(self@)
    }

    open spec fn bounded(&self) -> bool {
        layer_fits(self@)
    }

    fn get_corners(&self) -> (r: (Pos<N>, Pos<N>)) {
        let unit = self.unit;
        let ghost s = self@.commands;
        let ghost apertures = self@.apertures;
        let mut walk = Walk {
            min: Pos { x: N::highest(), y: N::highest() },
            max: Pos { x: N::lowest(), y: N::lowest() },
            tool: None,
            current: Pos::default(),
            mode: InterpolationMode::Linear,
        };
        let mut i: usize = 0;
        assert(s.take(0).len() == 0);
        while i < self.commands.len()
            invariant
                i <= self.commands@.len(),
                s == crate::gerber_types::views(self.commands@),
                apertures == crate::gerber::aperture_views(self.apertures@),
                unit == self.unit,
                s == self@.commands,
                apertures == self@.apertures,
                layer_fits(self@),
                walk.pen() == drawn(s.take(i as int), apertures, unit),
            decreases self.commands@.len() - i,
        {
            proof {
                assert(s.take(i + 1).drop_last() =~= s.take(i as int));
                assert(s.take(i + 1).last() == s[i as int]);
                assert(s[i as int] == self.commands@[i as int]@);
                assert(point_fits(s[i as int], unit));
                assert(arc_fits(s[i as int], walk.mode, unit));
            }
            match &self.commands[i] {
                Command::FunctionCode(FunctionCode::DCode(DCode::SelectAperture(id))) => {
                    proof {
                        table::lemma_mapped(self.apertures@, |a: Aperture<N>| a@, *id);
                    }
                    if let Some(a) = self.apertures.get(*id) {
                        walk.tool = Some(a.get_corners());
                    }
                },
                Command::FunctionCode(FunctionCode::GCode(GCode::InterpolationMode(mode))) => {
                    walk.mode = *mode;
                },
                Command::FunctionCode(FunctionCode::DCode(DCode::Operation(op))) => {
                    walk.draw(op, &unit);
                },
                _ => {},
            }
            i = i + 1;
        }
        assert(s.take(i as int) =~= s);
        (walk.min, walk.max)
    }
}

} // verus!
