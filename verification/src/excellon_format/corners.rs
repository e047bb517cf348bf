//! The bounding box of a drill layer.
use crate::excellon_format::{
    Command, EntryView, ExcellonLayerData, ExcellonView, GeometricCode, InputMode,
};
use crate::gerber_types::Unit;
use crate::scalar::Scalar;
use crate::table;
use crate::unit_able::UnitAble;
use crate::{LayerCorners, Pos};
use vstd::prelude::*;

verus! {

/// A box that also holds the square of half width `radius` around `p`.
pub open spec fn with_hit<N: Scalar>(
    corners: (Pos<N>, Pos<N>),
    p: Pos<N>,
    radius: N,
) -> (Pos<N>, Pos<N>) {
    (
        Pos {
            x: corners.0.x.lower_spec(p.x.minus_spec(radius)),
            y: corners.0.y.lower_spec(p.y.minus_spec(radius)),
        },
        Pos {
            x: corners.1.x.higher_spec(p.x.plus_spec(radius)),
            y: corners.1.y.higher_spec(p.y.plus_spec(radius)),
        },
    )
}

/// Where a program stands, and the box of what it has drilled.
#[verifier::ext_equal]
pub ghost struct Plot<N> {
    pub corners: (Pos<N>, Pos<N>),
    /// Half the diameter of the selected tool, in millimetres.
    pub radius: N,
    pub current: Pos<N>,
    pub incremental: bool,
}

/// A coordinate in millimetres, or else `default`.
pub open spec fn in_mm<N: Scalar>(v: Option<N>, unit: Unit, default: N) -> N {
    match v {
        Some(v) => N::to_mm_spec(v, unit),
        None => default,
    }
}

/// Half the diameter of tool `id`, in millimetres; zero for an unknown tool.
pub open spec fn tool_radius<N: Scalar>(tools: Seq<(u32, N)>, id: u32, unit: Unit) -> N {
    match table::lookup(tools, id) {
        Some(d) => N::to_mm_spec(d, unit).over_spec(N::ratio_spec(2, 1)),
        None => N::zero_spec(),
    }
}

impl<N: Scalar> Plot<N> {
    /// Where a coordinate leads to.
    pub open spec fn target(self, x: Option<N>, y: Option<N>, unit: Unit) -> Pos<N> {
        if self.incremental {
            Pos {
                x: self.current.x.plus_spec(in_mm(x, unit, N::zero_spec())),
                y: self.current.y.plus_spec(in_mm(y, unit, N::zero_spec())),
            }
        } else {
            Pos { x: in_mm(x, unit, self.current.x), y: in_mm(y, unit, self.current.y) }
        }
    }

    pub open spec fn after(self, e: EntryView<N>, tools: Seq<(u32, N)>, unit: Unit) -> Plot<N> {
        match e {
            Ok(Command::Tool(id)) => Plot { radius: tool_radius(tools, id, unit), ..self },
            Ok(Command::Geometric(GeometricCode::InputMode(im))) => Plot {
                incremental: im == InputMode::Incremental,
                ..self
            },
            Ok(Command::Coordinate(x, y, fmt)) => {
                let p = self.target(x, y, fmt.unit);
                Plot { corners: with_hit(self.corners, p, self.radius), current: p, ..self }
            },
            Ok(Command::Slot { from_x, from_y, to_x, to_y, fmt }) => {
                let from = Pos {
                    x: in_mm(from_x, fmt.unit, self.current.x),
                    y: in_mm(from_y, fmt.unit, self.current.y),
                };
                let to = Pos {
                    x: in_mm(to_x, fmt.unit, self.current.x),
                    y: in_mm(to_y, fmt.unit, self.current.y),
                };
                Plot {
                    corners: with_hit(with_hit(self.corners, from, self.radius), to, self.radius),
                    current: to,
                    ..self
                }
            },
            _ => self,
        }
    }
}

/// The state in front of the first command of the body.
pub open spec fn plot_start<N: Scalar>(header: Seq<EntryView<N>>) -> Plot<N> {
    Plot {
        corners: crate::empty_box(),
        radius: N::zero_spec(),
        current: Pos::origin(),
        incremental: crate::excellon_format::merge::last_incremental(header) == Some(true),
    }
}

pub open spec fn plotted<N: Scalar>(
    start: Plot<N>,
    commands: Seq<EntryView<N>>,
    tools: Seq<(u32, N)>,
    unit: Unit,
) -> Plot<N>
    decreases commands.len(),
{
    if commands.len() == 0 {
        start
    } else {
        plotted(start, commands.drop_last(), tools, unit).after(commands.last(), tools, unit)
    }
}

/// The box around everything that the body drills and mills, tool widths included.
pub open spec fn layer_corners<N: Scalar>(v: ExcellonView<N>) -> (Pos<N>, Pos<N>) {
    plotted(plot_start(v.header), v.commands, v.tools, v.unit.unit).corners
}

struct Walk<N> {
    min: Pos<N>,
    max: Pos<N>,
    radius: N,
    current: Pos<N>,
    incremental: bool,
}

impl<N: Scalar> Walk<N> {
    spec fn plot(self) -> Plot<N> {
        Plot {
            corners: (self.min, self.max),
            radius: self.radius,
            current: self.current,
            incremental: self.incremental,
        }
    }

    fn hit(&mut self, p: &Pos<N>)
        ensures
            final(self).plot() == (Plot {
                corners: with_hit(old(self).plot().corners, *p, old(self).radius),
                ..old(self).plot()
            }),
    {
        self.min = Pos {
            x: self.min.x.lower(p.x.minus(self.radius)),
            y: self.min.y.lower(p.y.minus(self.radius)),
        };
        self.max = Pos {
            x: self.max.x.higher(p.x.plus(self.radius)),
            y: self.max.y.higher(p.y.plus(self.radius)),
        };
    }
}

fn millimeters<N: Scalar>(v: Option<N>, unit: &Unit, default: N) -> (r: N)
    ensures
        r == in_mm(v, *unit, default),
{
    match v {
        Some(v) => v.to_mm(unit),
        None => default,
    }
}

impl<N: Scalar> LayerCorners<N> for ExcellonLayerData<N> {
    open spec fn corners(&self) -> (Pos<N>, Pos<N>) {
        layer_corners(self@)
    }

    open spec fn bounded(&self) -> bool {
        true
    }

    fn get_corners(&self) -> (r: (Pos<N>, Pos<N>)) {
        let ghost h = self@.header;
        let mut incremental: Option<bool> = None;
        let mut i: usize = 0;
        while i < self.header.len()
            invariant
                i <= self.header@.len(),
                h == crate::excellon_format::entries(self.header@),
                incremental == crate::excellon_format::merge::last_incremental(h.take(i as int)),
            decreases self.header@.len() - i,
        {
            proof {
                assert(h.take(i + 1).drop_last() =~= h.take(i as int));
                assert(h.take(i + 1).last() == crate::excellon_format::entry_view(
                    self.header@[i as int],
                ));
            }
            if let Ok(Command::Incremental(on)) = &self.header[i] {
                incremental = Some(*on);
            }
            i = i + 1;
        }
        assert(h.take(i as int) =~= h);
        let mut walk = Walk {
            min: Pos { x: N::highest(), y: N::highest() },
            max: Pos { x: N::lowest(), y: N::lowest() },
            radius: N::zero(),
            current: Pos::default(),
            incremental: match incremental {
                Some(on) => on,
                None => false,
            },
        };
        let ghost start = walk.plot();
        assert(start =~= plot_start(h));
        let ghost s = self@.commands;
        let unit = self.unit.unit;
        let ghost tools = self.tools@;
        let mut i: usize = 0;
        assert(s.take(0).len() == 0);
        while i < self.commands.len()
            invariant
                i <= self.commands@.len(),
                s == crate::excellon_format::entries(self.commands@),
                tools == self.tools@,
                unit == self.unit.unit,
                walk.plot() == plotted(start, s.take(i as int), tools, unit),
            decreases self.commands@.len() - i,
        {
            proof {
                assert(s.take(i + 1).drop_last() =~= s.take(i as int));
                assert(s.take(i + 1).last() == crate::excellon_format::entry_view(
                    self.commands@[i as int],
                ));
            }
            match &self.commands[i] {
                Ok(Command::Tool(id)) => {
                    walk.radius = match self.tools.get(*id) {
                        Some(d) => d.to_mm(&unit).over(N::ratio(2, 1)),
                        None => N::zero(),
                    };
                },
                Ok(Command::Geometric(GeometricCode::InputMode(im))) => {
                    walk.incremental = *im == InputMode::Incremental;
                },
                Ok(Command::Coordinate(x, y, fmt)) => {
                    let p = if walk.incremental {
                        Pos {
                            x: walk.current.x.plus(millimeters(*x, &fmt.unit, N::zero())),
                            y: walk.current.y.plus(millimeters(*y, &fmt.unit, N::zero())),
                        }
                    } else {
                        Pos {
                            x: millimeters(*x, &fmt.unit, walk.current.x),
                            y: millimeters(*y, &fmt.unit, walk.current.y),
                        }
                    };
                    walk.current = p;
                    walk.hit(&p);
                },
                Ok(Command::Slot { from_x, from_y, to_x, to_y, fmt }) => {
                    // Both endpoints bound the milled slot; tool width expands it.
                    let from = Pos {
                        x: millimeters(*from_x, &fmt.unit, walk.current.x),
                        y: millimeters(*from_y, &fmt.unit, walk.current.y),
                    };
                    let to = Pos {
                        x: millimeters(*to_x, &fmt.unit, walk.current.x),
                        y: millimeters(*to_y, &fmt.unit, walk.current.y),
                    };
                    walk.current = to;
                    walk.hit(&from);
                    walk.hit(&to);
                },
                _ => {},
            }
            assert(walk.plot() =~= plotted(start, s.take(i + 1), tools, unit));
            i = i + 1;
        }
        assert(s.take(i as int) =~= s);
        (walk.min, walk.max)
    }
}

} // verus!
