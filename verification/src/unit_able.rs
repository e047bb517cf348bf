//! Conversion between millimetres and inches.
use crate::gerber_types::{
    Aperture, ApertureDefinition, ApertureMacro, ApertureMacroView, ApertureView, CenterLinePrimitive,
    Circle, CirclePrimitive, Command, CommandView, CoordinateNumber, CoordinateOffset, Coordinates,
    DCode, ExtendedCode, FunctionCode, MacroContent, MacroContentView, MacroDecimal, MoirePrimitive,
    Operation, OutlinePrimitive, Polygon, PolygonPrimitive, Rectangular, StepAndRepeat,
    ThermalPrimitive, Unit, VectorLinePrimitive,
};
use crate::scalar::Scalar;
use crate::Size;
use vstd::prelude::*;

verus! {

/// A trait that allows conversion between mm and in
pub trait UnitAble<N: Scalar>: Sized {
    /// What a value holds.
    type Model;

    spec fn model(&self) -> Self::Model;

    spec fn mm_to_unit_spec(m: Self::Model, unit: Unit) -> Self::Model;

    /// What [`mm_to_unit`](Self::mm_to_unit) computes can be held.
    spec fn fits_unit(m: Self::Model, unit: Unit) -> bool;

    spec fn to_mm_spec(m: Self::Model, unit: Unit) -> Self::Model;

    /// What [`to_mm`](Self::to_mm) computes can be held.
    spec fn fits_mm(m: Self::Model, unit: Unit) -> bool;

    /// Converts known mm to given Unit
    fn mm_to_unit(&self, unit: &Unit) -> (r: Self)
        requires
            Self::fits_unit(self.model(), *unit),
        ensures
            r.model() == Self::mm_to_unit_spec(self.model(), *unit),
    ;

    /// Converts from given unit to mm
    fn to_mm(&self, unit: &Unit) -> (r: Self)
        requires
            Self::fits_mm(self.model(), *unit),
        ensures
            r.model() == Self::to_mm_spec(self.model(), *unit),
    ;

    /// Converts from given unit to a given unit
    fn to_unit(&self, from: &Unit, to: &Unit) -> (r: Self)
        requires
            Self::fits_mm(self.model(), *from),
            Self::fits_unit(Self::to_mm_spec(self.model(), *from), *to),
        ensures
            r.model() == Self::mm_to_unit_spec(Self::to_mm_spec(self.model(), *from), *to),
    {
        self.to_mm(from).mm_to_unit(to)
    }

    /// Converts from given unit to a given unit and stores it into current struct
    fn convert_unit_self(&mut self, from: &Unit, to: &Unit)
        requires
            Self::fits_mm(old(self).model(), *from),
            Self::fits_unit(Self::to_mm_spec(old(self).model(), *from), *to),
        ensures
            final(self).model() == Self::mm_to_unit_spec(
                Self::to_mm_spec(old(self).model(), *from),
                *to,
            ),
    {
        *self = self.to_unit(from, to);
    }
}

/// `m`, taken from the unit `from` to the unit `to`.
pub open spec fn converted<N: Scalar, T: UnitAble<N>>(m: T::Model, from: Unit, to: Unit) -> T::Model {
    T::mm_to_unit_spec(T::to_mm_spec(m, from), to)
}

/// The length of an inch in millimetres.
pub open spec fn inch<N: Scalar>() -> N {
    N::ratio_spec(254, 10)
}

impl<N: Scalar> UnitAble<N> for N {
    type Model = N;

    open spec fn model(&self) -> N {
        *self
    }

    open spec fn mm_to_unit_spec(m: N, unit: Unit) -> N {
        match unit {
            Unit::Inches => m.over_spec(inch()),
            Unit::Millimeters => m,
        }
    }

    open spec fn fits_unit(m: N, unit: Unit) -> bool {
        true
    }

    open spec fn to_mm_spec(m: N, unit: Unit) -> N {
        match unit {
            Unit::Inches => m.times_spec(inch()),
            Unit::Millimeters => m,
        }
    }

    open spec fn fits_mm(m: N, unit: Unit) -> bool {
        true
    }

    fn mm_to_unit(&self, unit: &Unit) -> (r: N) {
        match unit {
            Unit::Inches => self.over(N::ratio(254, 10)),
            Unit::Millimeters => *self,
        }
    }

    fn to_mm(&self, unit: &Unit) -> (r: N) {
        match unit {
            Unit::Inches => self.times(N::ratio(254, 10)),
            Unit::Millimeters => *self,
        }
    }
}

impl<N: Scalar> UnitAble<N> for CoordinateNumber {
    type Model = CoordinateNumber;

    open spec fn model(&self) -> CoordinateNumber {
        *self
    }

    open spec fn mm_to_unit_spec(m: CoordinateNumber, unit: Unit) -> CoordinateNumber {
        CoordinateNumber {
            nano: N::mm_to_unit_spec(N::from_nano_spec(m.nano), unit).to_nano_spec()->0,
        }
    }

    open spec fn fits_unit(m: CoordinateNumber, unit: Unit) -> bool {
        N::mm_to_unit_spec(N::from_nano_spec(m.nano), unit).to_nano_spec() is Some
    }

    open spec fn to_mm_spec(m: CoordinateNumber, unit: Unit) -> CoordinateNumber {
        CoordinateNumber { nano: N::to_mm_spec(N::from_nano_spec(m.nano), unit).to_nano_spec()->0 }
    }

    open spec fn fits_mm(m: CoordinateNumber, unit: Unit) -> bool {
        N::to_mm_spec(N::from_nano_spec(m.nano), unit).to_nano_spec() is Some
    }

    fn mm_to_unit(&self, unit: &Unit) -> (r: CoordinateNumber) {
        CoordinateNumber { nano: N::from_nano(self.nano).mm_to_unit(unit).to_nano().unwrap() }
    }

    fn to_mm(&self, unit: &Unit) -> (r: CoordinateNumber) {
        CoordinateNumber { nano: N::from_nano(self.nano).to_mm(unit).to_nano().unwrap() }
    }
}

impl<N: Scalar, T: UnitAble<N>> UnitAble<N> for Option<T> {
    type Model = Option<T::Model>;

    open spec fn model(&self) -> Option<T::Model> {
        match self {
            Some(v) => Some(v.model()),
            None => None,
        }
    }

    open spec fn mm_to_unit_spec(m: Option<T::Model>, unit: Unit) -> Option<T::Model> {
        match m {
            Some(v) => Some(T::mm_to_unit_spec(v, unit)),
            None => None,
        }
    }

    open spec fn fits_unit(m: Option<T::Model>, unit: Unit) -> bool {
        m matches Some(v) ==> T::fits_unit(v, unit)
    }

    open spec fn to_mm_spec(m: Option<T::Model>, unit: Unit) -> Option<T::Model> {
        match m {
            Some(v) => Some(T::to_mm_spec(v, unit)),
            None => None,
        }
    }

    open spec fn fits_mm(m: Option<T::Model>, unit: Unit) -> bool {
        m matches Some(v) ==> T::fits_mm(v, unit)
    }

    fn mm_to_unit(&self, unit: &Unit) -> (r: Option<T>) {
        match self {
            Some(v) => Some(v.mm_to_unit(unit)),
            None => None,
        }
    }

    fn to_mm(&self, unit: &Unit) -> (r: Option<T>) {
        match self {
            Some(v) => Some(v.to_mm(unit)),
            None => None,
        }
    }
}

impl<N: Scalar, A: UnitAble<N>, B: UnitAble<N>> UnitAble<N> for (A, B) {
    type Model = (A::Model, B::Model);

    open spec fn model(&self) -> (A::Model, B::Model) {
        (self.0.model(), self.1.model())
    }

    open spec fn mm_to_unit_spec(m: (A::Model, B::Model), unit: Unit) -> (A::Model, B::Model) {
        (A::mm_to_unit_spec(m.0, unit), B::mm_to_unit_spec(m.1, unit))
    }

    open spec fn fits_unit(m: (A::Model, B::Model), unit: Unit) -> bool {
        A::fits_unit(m.0, unit) && B::fits_unit(m.1, unit)
    }

    open spec fn to_mm_spec(m: (A::Model, B::Model), unit: Unit) -> (A::Model, B::Model) {
        (A::to_mm_spec(m.0, unit), B::to_mm_spec(m.1, unit))
    }

    open spec fn fits_mm(m: (A::Model, B::Model), unit: Unit) -> bool {
        A::fits_mm(m.0, unit) && B::fits_mm(m.1, unit)
    }

    fn mm_to_unit(&self, unit: &Unit) -> (r: (A, B)) {
        (self.0.mm_to_unit(unit), self.1.mm_to_unit(unit))
    }

    fn to_mm(&self, unit: &Unit) -> (r: (A, B)) {
        (self.0.to_mm(unit), self.1.to_mm(unit))
    }
}

impl<N: Scalar> UnitAble<N> for Size<N> {
    type Model = Size<N>;

    open spec fn model(&self) -> Size<N> {
        *self
    }

    open spec fn mm_to_unit_spec(m: Size<N>, unit: Unit) -> Size<N> {
        Size {
            width: N::mm_to_unit_spec(m.width, unit),
            height: N::mm_to_unit_spec(m.height, unit),
        }
    }

    open spec fn fits_unit(m: Size<N>, unit: Unit) -> bool {
        true
    }

    open spec fn to_mm_spec(m: Size<N>, unit: Unit) -> Size<N> {
        Size { width: N::to_mm_spec(m.width, unit), height: N::to_mm_spec(m.height, unit) }
    }

    open spec fn fits_mm(m: Size<N>, unit: Unit) -> bool {
        true
    }

    fn mm_to_unit(&self, unit: &Unit) -> (r: Size<N>) {
        Size { width: self.width.mm_to_unit(unit), height: self.height.mm_to_unit(unit) }
    }

    fn to_mm(&self, unit: &Unit) -> (r: Size<N>) {
        Size { width: self.width.to_mm(unit), height: self.height.to_mm(unit) }
    }
}

impl<N: Scalar> UnitAble<N> for MacroDecimal<N> {
    type Model = MacroDecimal<N>;

    open spec fn model(&self) -> MacroDecimal<N> {
        *self
    }

    open spec fn mm_to_unit_spec(m: MacroDecimal<N>, unit: Unit) -> MacroDecimal<N> {
        match m {
            MacroDecimal::Value(v) => MacroDecimal::Value(N::mm_to_unit_spec(v, unit)),
            other => other,
        }
    }

    open spec fn fits_unit(m: MacroDecimal<N>, unit: Unit) -> bool {
        true
    }

    open spec fn to_mm_spec(m: MacroDecimal<N>, unit: Unit) -> MacroDecimal<N> {
        match m {
            MacroDecimal::Value(v) => MacroDecimal::Value(N::to_mm_spec(v, unit)),
            other => other,
        }
    }

    open spec fn fits_mm(m: MacroDecimal<N>, unit: Unit) -> bool {
        true
    }

    fn mm_to_unit(&self, unit: &Unit) -> (r: MacroDecimal<N>) {
        match self {
            MacroDecimal::Value(v) => MacroDecimal::Value(v.mm_to_unit(unit)),
            other => other.clone(),
        }
    }

    fn to_mm(&self, unit: &Unit) -> (r: MacroDecimal<N>) {
        match self {
            MacroDecimal::Value(v) => MacroDecimal::Value(v.to_mm(unit)),
            other => other.clone(),
        }
    }
}

/// Which way a conversion goes.
#[derive(Clone, Copy, Debug, PartialEq, Eq, Structural)]
pub enum Direction {
    FromMillimeters,
    IntoMillimeters,
}

/// `m`, taken from or into millimetres.
pub open spec fn turned<N: Scalar, T: UnitAble<N>>(
    m: T::Model,
    way: Direction,
    unit: Unit,
) -> T::Model {
    match way {
        Direction::FromMillimeters => T::mm_to_unit_spec(m, unit),
        Direction::IntoMillimeters => T::to_mm_spec(m, unit),
    }
}

/// What the conversion gives can be held.
pub open spec fn turnable<N: Scalar, T: UnitAble<N>>(m: T::Model, way: Direction, unit: Unit) -> bool {
    match way {
        Direction::FromMillimeters => T::fits_unit(m, unit),
        Direction::IntoMillimeters => T::fits_mm(m, unit),
    }
}

fn turn<N: Scalar, T: UnitAble<N>>(v: &T, way: Direction, unit: &Unit) -> (r: T)
    requires
        turnable::<N, T>(v.model(), way, *unit),
    ensures
        r.model() == turned::<N, T>(v.model(), way, *unit),
{
    match way {
        Direction::FromMillimeters => v.mm_to_unit(unit),
        Direction::IntoMillimeters => v.to_mm(unit),
    }
}

/// A parameter of a macro, taken from or into millimetres.
pub open spec fn turned_decimal<N: Scalar>(
    d: MacroDecimal<N>,
    way: Direction,
    unit: Unit,
) -> MacroDecimal<N> {
    turned::<N, MacroDecimal<N>>(d, way, unit)
}

pub open spec fn turned_point<N: Scalar>(
    p: (MacroDecimal<N>, MacroDecimal<N>),
    way: Direction,
    unit: Unit,
) -> (MacroDecimal<N>, MacroDecimal<N>) {
    (turned_decimal(p.0, way, unit), turned_decimal(p.1, way, unit))
}

fn turn_decimal<N: Scalar>(d: &MacroDecimal<N>, way: Direction, unit: &Unit) -> (r: MacroDecimal<N>)
    ensures
        r == turned_decimal(*d, way, *unit),
{
    turn::<N, MacroDecimal<N>>(d, way, unit)
}

fn turn_point<N: Scalar>(
    p: &(MacroDecimal<N>, MacroDecimal<N>),
    way: Direction,
    unit: &Unit,
) -> (r: (MacroDecimal<N>, MacroDecimal<N>))
    ensures
        r == turned_point(*p, way, *unit),
{
    (turn_decimal(&p.0, way, unit), turn_decimal(&p.1, way, unit))
}

/// A part of a macro with its lengths converted. Angles, exposures and counts stay.
pub open spec fn turned_content<N: Scalar>(
    m: MacroContentView<N>,
    way: Direction,
    unit: Unit,
) -> MacroContentView<N> {
    match m {
        MacroContentView::Outline { exposure, points, angle } => MacroContentView::Outline {
            exposure,
            points: points.map_values(
                |p: (MacroDecimal<N>, MacroDecimal<N>)| turned_point(p, way, unit),
            ),
            angle,
        },
        MacroContentView::Plain(MacroContent::Circle(c)) => MacroContentView::Plain(
            MacroContent::Circle(
                CirclePrimitive {
                    diameter: turned_decimal(c.diameter, way, unit),
                    center: turned_point(c.center, way, unit),
                    ..c
                },
            ),
        ),
        MacroContentView::Plain(MacroContent::VectorLine(v)) => MacroContentView::Plain(
            MacroContent::VectorLine(
                VectorLinePrimitive {
                    width: turned_decimal(v.width, way, unit),
                    start: turned_point(v.start, way, unit),
                    end: turned_point(v.end, way, unit),
                    ..v
                },
            ),
        ),
        MacroContentView::Plain(MacroContent::CenterLine(l)) => MacroContentView::Plain(
            MacroContent::CenterLine(
                CenterLinePrimitive {
                    center: turned_point(l.center, way, unit),
                    dimensions: turned_point(l.dimensions, way, unit),
                    ..l
                },
            ),
        ),
        MacroContentView::Plain(MacroContent::Polygon(p)) => MacroContentView::Plain(
            MacroContent::Polygon(
                PolygonPrimitive {
                    center: turned_point(p.center, way, unit),
                    diameter: turned_decimal(p.diameter, way, unit),
                    ..p
                },
            ),
        ),
        MacroContentView::Plain(MacroContent::Moire(r)) => MacroContentView::Plain(
            MacroContent::Moire(
                MoirePrimitive {
                    center: turned_point(r.center, way, unit),
                    diameter: turned_decimal(r.diameter, way, unit),
                    cross_hair_length: turned_decimal(r.cross_hair_length, way, unit),
                    cross_hair_thickness: turned_decimal(r.cross_hair_thickness, way, unit),
                    gap: turned_decimal(r.gap, way, unit),
                    ring_thickness: turned_decimal(r.ring_thickness, way, unit),
                    ..r
                },
            ),
        ),
        MacroContentView::Plain(MacroContent::Thermal(t)) => MacroContentView::Plain(
            MacroContent::Thermal(
                ThermalPrimitive {
                    center: turned_point(t.center, way, unit),
                    gap: turned_decimal(t.gap, way, unit),
                    inner_diameter: turned_decimal(t.inner_diameter, way, unit),
                    outer_diameter: turned_decimal(t.outer_diameter, way, unit),
                    ..t
                },
            ),
        ),
        other => other,
    }
}

fn turn_content<N: Scalar>(m: &MacroContent<N>, way: Direction, unit: &Unit) -> (r: MacroContent<N>)
    ensures
        r@ == turned_content(m@, way, *unit),
{
    match m {
        MacroContent::Circle(c) => MacroContent::Circle(
            CirclePrimitive {
                exposure: c.exposure.clone(),
                diameter: turn_decimal(&c.diameter, way, unit),
                center: turn_point(&c.center, way, unit),
                angle: match &c.angle {
                    Some(a) => Some(a.clone()),
                    None => None,
                },
            },
        ),
        MacroContent::VectorLine(v) => MacroContent::VectorLine(
            VectorLinePrimitive {
                exposure: v.exposure.clone(),
                width: turn_decimal(&v.width, way, unit),
                start: turn_point(&v.start, way, unit),
                end: turn_point(&v.end, way, unit),
                angle: v.angle.clone(),
            },
        ),
        MacroContent::CenterLine(l) => MacroContent::CenterLine(
            CenterLinePrimitive {
                exposure: l.exposure.clone(),
                dimensions: turn_point(&l.dimensions, way, unit),
                center: turn_point(&l.center, way, unit),
                angle: l.angle.clone(),
            },
        ),
        MacroContent::Outline(o) => {
            let ghost f = |p: (MacroDecimal<N>, MacroDecimal<N>)| turned_point(p, way, *unit);
            let mut points: Vec<(MacroDecimal<N>, MacroDecimal<N>)> = Vec::new();
            let mut i: usize = 0;
            while i < o.points.len()
                invariant
                    i <= o.points@.len(),
                    f == (|p: (MacroDecimal<N>, MacroDecimal<N>)| turned_point(p, way, *unit)),
                    points@ == o.points@.take(i as int).map_values(f),
                decreases o.points@.len() - i,
            {
                points.push(turn_point(&o.points[i], way, unit));
                i = i + 1;
                assert(points@ =~= o.points@.take(i as int).map_values(f));
            }
            assert(points@ =~= o.points@.map_values(f));
            MacroContent::Outline(
                OutlinePrimitive { exposure: o.exposure.clone(), points, angle: o.angle.clone() },
            )
        },
        MacroContent::Polygon(p) => MacroContent::Polygon(
            PolygonPrimitive {
                exposure: p.exposure.clone(),
                vertices: p.vertices.clone(),
                center: turn_point(&p.center, way, unit),
                diameter: turn_decimal(&p.diameter, way, unit),
                angle: p.angle.clone(),
            },
        ),
        MacroContent::Moire(m) => MacroContent::Moire(
            MoirePrimitive {
                center: turn_point(&m.center, way, unit),
                diameter: turn_decimal(&m.diameter, way, unit),
                ring_thickness: turn_decimal(&m.ring_thickness, way, unit),
                gap: turn_decimal(&m.gap, way, unit),
                max_rings: m.max_rings,
                cross_hair_thickness: turn_decimal(&m.cross_hair_thickness, way, unit),
                cross_hair_length: turn_decimal(&m.cross_hair_length, way, unit),
                angle: m.angle.clone(),
            },
        ),
        MacroContent::Thermal(t) => MacroContent::Thermal(
            ThermalPrimitive {
                center: turn_point(&t.center, way, unit),
                outer_diameter: turn_decimal(&t.outer_diameter, way, unit),
                inner_diameter: turn_decimal(&t.inner_diameter, way, unit),
                gap: turn_decimal(&t.gap, way, unit),
                angle: t.angle.clone(),
            },
        ),
        MacroContent::VariableDefinition(_) => m.clone(),
        MacroContent::Comment(_) => m.clone(),
    }
}

/// An aperture with its lengths converted. The parameters of a macro stay.
pub open spec fn turned_aperture<N: Scalar>(
    a: ApertureView<N>,
    way: Direction,
    unit: Unit,
) -> ApertureView<N> {
    match a {
        ApertureView::Circle(c) => ApertureView::Circle(
            Circle {
                diameter: turned::<N, N>(c.diameter, way, unit),
                hole_diameter: turned::<N, Option<N>>(c.hole_diameter, way, unit),
            },
        ),
        ApertureView::Rectangle(r) => ApertureView::Rectangle(turned_rectangle(r, way, unit)),
        ApertureView::Obround(r) => ApertureView::Obround(turned_rectangle(r, way, unit)),
        ApertureView::Polygon(p) => ApertureView::Polygon(
            Polygon {
                diameter: turned::<N, N>(p.diameter, way, unit),
                hole_diameter: turned::<N, Option<N>>(p.hole_diameter, way, unit),
                ..p
            },
        ),
        ApertureView::Macro(name, args) => a,
    }
}

pub open spec fn turned_rectangle<N: Scalar>(
    r: Rectangular<N>,
    way: Direction,
    unit: Unit,
) -> Rectangular<N> {
    Rectangular {
        x: turned::<N, N>(r.x, way, unit),
        y: turned::<N, N>(r.y, way, unit),
        hole_diameter: turned::<N, Option<N>>(r.hole_diameter, way, unit),
    }
}

proof fn lemma_option_model<N: Scalar>(v: Option<N>)
    ensures
        <Option<N> as UnitAble<N>>::model(&v) == v,
{
}

fn turn_length<N: Scalar>(v: N, way: Direction, unit: &Unit) -> (r: N)
    ensures
        r == turned::<N, N>(v, way, *unit),
{
    turn::<N, N>(&v, way, unit)
}

fn turn_hole<N: Scalar>(v: Option<N>, way: Direction, unit: &Unit) -> (r: Option<N>)
    ensures
        r == turned::<N, Option<N>>(v, way, *unit),
{
    let r = turn::<N, Option<N>>(&v, way, unit);
    proof {
        lemma_option_model(v);
        lemma_option_model(r);
    }
    r
}

fn turn_rectangle<N: Scalar>(r: &Rectangular<N>, way: Direction, unit: &Unit) -> (s: Rectangular<N>)
    ensures
        s == turned_rectangle(*r, way, *unit),
{
    Rectangular {
        x: turn_length(r.x, way, unit),
        y: turn_length(r.y, way, unit),
        hole_diameter: turn_hole(r.hole_diameter, way, unit),
    }
}

fn turn_aperture<N: Scalar>(a: &Aperture<N>, way: Direction, unit: &Unit) -> (r: Aperture<N>)
    ensures
        r@ == turned_aperture(a@, way, *unit),
{
    match a {
        Aperture::Circle(c) => Aperture::Circle(
            Circle {
                diameter: turn_length(c.diameter, way, unit),
                hole_diameter: turn_hole(c.hole_diameter, way, unit),
            },
        ),
        Aperture::Rectangle(r) => Aperture::Rectangle(turn_rectangle(r, way, unit)),
        Aperture::Obround(r) => Aperture::Obround(turn_rectangle(r, way, unit)),
        Aperture::Polygon(p) => Aperture::Polygon(
            Polygon {
                diameter: turn_length(p.diameter, way, unit),
                vertices: p.vertices,
                rotation: p.rotation,
                hole_diameter: turn_hole(p.hole_diameter, way, unit),
            },
        ),
        Aperture::Macro(_, _) => a.clone(),
    }
}

/// A coordinate, if there is one, taken from or into millimetres.
pub open spec fn turned_axis<N: Scalar>(
    c: Option<CoordinateNumber>,
    way: Direction,
    unit: Unit,
) -> Option<CoordinateNumber> {
    turned::<N, Option<CoordinateNumber>>(c, way, unit)
}

pub open spec fn axis_fits<N: Scalar>(
    c: Option<CoordinateNumber>,
    way: Direction,
    unit: Unit,
) -> bool {
    turnable::<N, Option<CoordinateNumber>>(c, way, unit)
}

fn turn_axis<N: Scalar>(c: Option<CoordinateNumber>, way: Direction, unit: &Unit) -> (r: Option<
    CoordinateNumber,
>)
    requires
        axis_fits::<N>(c, way, *unit),
    ensures
        r == turned_axis::<N>(c, way, *unit),
{
    assert(<Option<CoordinateNumber> as UnitAble<N>>::model(&c) == c);
    let r = turn::<N, Option<CoordinateNumber>>(&c, way, unit);
    assert(<Option<CoordinateNumber> as UnitAble<N>>::model(&r) == r);
    r
}

/// An operation with both axes of its point and of its offset converted.
pub open spec fn turned_operation<N: Scalar>(op: Operation, way: Direction, unit: Unit) -> Operation {
    match op {
        Operation::Interpolate(c, o) => Operation::Interpolate(
            turned_coordinates::<N>(c, way, unit),
            match o {
                Some(o) => Some(
                    CoordinateOffset {
                        x: turned_axis::<N>(o.x, way, unit),
                        y: turned_axis::<N>(o.y, way, unit),
                        ..o
                    },
                ),
                None => None,
            },
        ),
        Operation::Move(c) => Operation::Move(turned_coordinates::<N>(c, way, unit)),
        Operation::Flash(c) => Operation::Flash(turned_coordinates::<N>(c, way, unit)),
    }
}

pub open spec fn turned_coordinates<N: Scalar>(
    c: Option<Coordinates>,
    way: Direction,
    unit: Unit,
) -> Option<Coordinates> {
    match c {
        Some(c) => Some(
            Coordinates {
                x: turned_axis::<N>(c.x, way, unit),
                y: turned_axis::<N>(c.y, way, unit),
                ..c
            },
        ),
        None => None,
    }
}

pub open spec fn coordinates_fit<N: Scalar>(
    c: Option<Coordinates>,
    way: Direction,
    unit: Unit,
) -> bool {
    c matches Some(c) ==> axis_fits::<N>(c.x, way, unit) && axis_fits::<N>(c.y, way, unit)
}

pub open spec fn operation_fits<N: Scalar>(op: Operation, way: Direction, unit: Unit) -> bool {
    match op {
        Operation::Interpolate(c, o) => coordinates_fit::<N>(c, way, unit) && (o matches Some(
            o,
        ) ==> axis_fits::<N>(o.x, way, unit) && axis_fits::<N>(o.y, way, unit)),
        Operation::Move(c) => coordinates_fit::<N>(c, way, unit),
        Operation::Flash(c) => coordinates_fit::<N>(c, way, unit),
    }
}

fn turn_coordinates<N: Scalar>(c: Option<Coordinates>, way: Direction, unit: &Unit) -> (r: Option<
    Coordinates,
>)
    requires
        coordinates_fit::<N>(c, way, *unit),
    ensures
        r == turned_coordinates::<N>(c, way, *unit),
{
    match c {
        Some(c) => Some(
            Coordinates {
                x: turn_axis::<N>(c.x, way, unit),
                y: turn_axis::<N>(c.y, way, unit),
                format: c.format,
            },
        ),
        None => None,
    }
}

fn turn_operation<N: Scalar>(op: &Operation, way: Direction, unit: &Unit) -> (r: Operation)
    requires
        operation_fits::<N>(*op, way, *unit),
    ensures
        r == turned_operation::<N>(*op, way, *unit),
{
    match op {
        Operation::Interpolate(c, o) => {
            let offset = match o {
                Some(o) => Some(
                    CoordinateOffset {
                        x: turn_axis::<N>(o.x, way, unit),
                        y: turn_axis::<N>(o.y, way, unit),
                        format: o.format,
                    },
                ),
                None => None,
            };
            Operation::Interpolate(turn_coordinates::<N>(*c, way, unit), offset)
        },
        Operation::Move(c) => Operation::Move(turn_coordinates::<N>(*c, way, unit)),
        Operation::Flash(c) => Operation::Flash(turn_coordinates::<N>(*c, way, unit)),
    }
}

pub open spec fn turned_repeat<N: Scalar>(
    s: StepAndRepeat<N>,
    way: Direction,
    unit: Unit,
) -> StepAndRepeat<N> {
    match s {
        StepAndRepeat::Open { repeat_x, repeat_y, distance_x, distance_y } => StepAndRepeat::Open {
            repeat_x,
            repeat_y,
            distance_x: turned::<N, N>(distance_x, way, unit),
            distance_y: turned::<N, N>(distance_y, way, unit),
        },
        StepAndRepeat::Close => StepAndRepeat::Close,
    }
}

fn turn_repeat<N: Scalar>(s: &StepAndRepeat<N>, way: Direction, unit: &Unit) -> (r: StepAndRepeat<N>)
    ensures
        r == turned_repeat(*s, way, *unit),
{
    match s {
        StepAndRepeat::Open { repeat_x, repeat_y, distance_x, distance_y } => StepAndRepeat::Open {
            repeat_x: *repeat_x,
            repeat_y: *repeat_y,
            distance_x: turn_length(*distance_x, way, unit),
            distance_y: turn_length(*distance_y, way, unit),
        },
        StepAndRepeat::Close => StepAndRepeat::Close,
    }
}

pub open spec fn turned_contents<N: Scalar>(
    s: Seq<MacroContentView<N>>,
    way: Direction,
    unit: Unit,
) -> Seq<MacroContentView<N>> {
    s.map_values(|c: MacroContentView<N>| turned_content(c, way, unit))
}

/// A macro with its parts converted.
pub open spec fn turned_macro<N: Scalar>(
    m: ApertureMacroView<N>,
    way: Direction,
    unit: Unit,
) -> ApertureMacroView<N> {
    ApertureMacroView { content: turned_contents(m.content, way, unit), ..m }
}

fn turn_macro<N: Scalar>(m: &ApertureMacro<N>, way: Direction, unit: &Unit) -> (r: ApertureMacro<N>)
    ensures
        r@ == turned_macro(m@, way, *unit),
{
    let mut content: Vec<MacroContent<N>> = Vec::new();
    let mut i: usize = 0;
    while i < m.content.len()
        invariant
            i <= m.content@.len(),
            content@.len() == i,
            forall|k: int|
                0 <= k < i ==> (#[trigger] content@[k])@ == turned_content(
                    m.content@[k]@,
                    way,
                    *unit,
                ),
        decreases m.content@.len() - i,
    {
        content.push(turn_content(&m.content[i], way, unit));
        i = i + 1;
    }
    let r = ApertureMacro { name: m.name.clone(), content };
    assert(r@.content =~= turned_contents(m@.content, way, *unit));
    r
}

pub open spec fn turned_definition<N: Scalar>(
    d: ApertureDefinition<ApertureView<N>>,
    way: Direction,
    unit: Unit,
) -> ApertureDefinition<ApertureView<N>> {
    ApertureDefinition { aperture: turned_aperture(d.aperture, way, unit), ..d }
}

fn turn_definition<N: Scalar>(
    d: &ApertureDefinition<Aperture<N>>,
    way: Direction,
    unit: &Unit,
) -> (r: ApertureDefinition<Aperture<N>>)
    ensures
        r.code == d.code,
        r.aperture@ == turned_aperture(d.aperture@, way, *unit),
{
    ApertureDefinition { code: d.code, aperture: turn_aperture(&d.aperture, way, unit) }
}

pub open spec fn turned_dcode<N: Scalar>(d: DCode, way: Direction, unit: Unit) -> DCode {
    match d {
        DCode::Operation(op) => DCode::Operation(turned_operation::<N>(op, way, unit)),
        DCode::SelectAperture(id) => DCode::SelectAperture(id),
    }
}

pub open spec fn dcode_fits<N: Scalar>(d: DCode, way: Direction, unit: Unit) -> bool {
    d matches DCode::Operation(op) ==> operation_fits::<N>(op, way, unit)
}

fn turn_dcode<N: Scalar>(d: &DCode, way: Direction, unit: &Unit) -> (r: DCode)
    requires
        dcode_fits::<N>(*d, way, *unit),
    ensures
        r == turned_dcode::<N>(*d, way, *unit),
{
    match d {
        DCode::Operation(op) => DCode::Operation(turn_operation::<N>(op, way, unit)),
        DCode::SelectAperture(id) => DCode::SelectAperture(*id),
    }
}

pub open spec fn turned_function<N: Scalar>(
    f: FunctionCode<Seq<char>>,
    way: Direction,
    unit: Unit,
) -> FunctionCode<Seq<char>> {
    match f {
        FunctionCode::DCode(d) => FunctionCode::DCode(turned_dcode::<N>(d, way, unit)),
        other => other,
    }
}

pub open spec fn function_fits<N: Scalar>(
    f: FunctionCode<Seq<char>>,
    way: Direction,
    unit: Unit,
) -> bool {
    f matches FunctionCode::DCode(d) ==> dcode_fits::<N>(d, way, unit)
}

fn turn_function<N: Scalar>(f: &FunctionCode, way: Direction, unit: &Unit) -> (r: FunctionCode)
    requires
        function_fits::<N>(f@, way, *unit),
    ensures
        r@ == turned_function::<N>(f@, way, *unit),
{
    match f {
        FunctionCode::DCode(d) => FunctionCode::DCode(turn_dcode::<N>(d, way, unit)),
        other => other.clone(),
    }
}

pub open spec fn turned_extended<N: Scalar>(
    e: ExtendedCode<N, Seq<char>, ApertureView<N>, ApertureMacroView<N>>,
    way: Direction,
    unit: Unit,
) -> ExtendedCode<N, Seq<char>, ApertureView<N>, ApertureMacroView<N>> {
    match e {
        ExtendedCode::ApertureDefinition(d) => ExtendedCode::ApertureDefinition(
            turned_definition(d, way, unit),
        ),
        ExtendedCode::ApertureMacro(m) => ExtendedCode::ApertureMacro(turned_macro(m, way, unit)),
        ExtendedCode::StepAndRepeat(s) => ExtendedCode::StepAndRepeat(turned_repeat(s, way, unit)),
        other => other,
    }
}

fn turn_extended<N: Scalar>(e: &ExtendedCode<N>, way: Direction, unit: &Unit) -> (r: ExtendedCode<N>)
    ensures
        r@ == turned_extended(e@, way, *unit),
{
    match e {
        ExtendedCode::ApertureDefinition(d) => ExtendedCode::ApertureDefinition(
            turn_definition(d, way, unit),
        ),
        ExtendedCode::ApertureMacro(m) => ExtendedCode::ApertureMacro(turn_macro(m, way, unit)),
        ExtendedCode::StepAndRepeat(s) => ExtendedCode::StepAndRepeat(turn_repeat(s, way, unit)),
        other => other.clone(),
    }
}

/// A command with its lengths converted.
pub open spec fn turned_command<N: Scalar>(
    c: CommandView<N>,
    way: Direction,
    unit: Unit,
) -> CommandView<N> {
    match c {
        Command::FunctionCode(f) => Command::FunctionCode(turned_function::<N>(f, way, unit)),
        Command::ExtendedCode(e) => Command::ExtendedCode(turned_extended(e, way, unit)),
        Command::Other(s) => Command::Other(s),
    }
}

pub open spec fn command_fits<N: Scalar>(c: CommandView<N>, way: Direction, unit: Unit) -> bool {
    c matches Command::FunctionCode(f) ==> function_fits::<N>(f, way, unit)
}

fn turn_command<N: Scalar>(c: &Command<N>, way: Direction, unit: &Unit) -> (r: Command<N>)
    requires
        command_fits(c@, way, *unit),
    ensures
        r@ == turned_command(c@, way, *unit),
{
    match c {
        Command::FunctionCode(f) => Command::FunctionCode(turn_function::<N>(f, way, unit)),
        Command::ExtendedCode(e) => Command::ExtendedCode(turn_extended(e, way, unit)),
        Command::Other(s) => Command::Other(s.clone()),
    }
}

impl<N: Scalar> UnitAble<N> for MacroContent<N> {
    type Model = MacroContentView<N>;

    open spec fn model(&self) -> MacroContentView<N> {
        self@
    }

    open spec fn mm_to_unit_spec(m: MacroContentView<N>, unit: Unit) -> MacroContentView<N> {
        turned_content(m, Direction::FromMillimeters, unit)
    }

    open spec fn fits_unit(m: MacroContentView<N>, unit: Unit) -> bool {
        true
    }

    open spec fn to_mm_spec(m: MacroContentView<N>, unit: Unit) -> MacroContentView<N> {
        turned_content(m, Direction::IntoMillimeters, unit)
    }

    open spec fn fits_mm(m: MacroContentView<N>, unit: Unit) -> bool {
        true
    }

    fn mm_to_unit(&self, unit: &Unit) -> (r: MacroContent<N>) {
        turn_content(self, Direction::FromMillimeters, unit)
    }

    fn to_mm(&self, unit: &Unit) -> (r: MacroContent<N>) {
        turn_content(self, Direction::IntoMillimeters, unit)
    }
}

impl<N: Scalar> UnitAble<N> for Aperture<N> {
    type Model = ApertureView<N>;

    open spec fn model(&self) -> ApertureView<N> {
        self@
    }

    open spec fn mm_to_unit_spec(m: ApertureView<N>, unit: Unit) -> ApertureView<N> {
        turned_aperture(m, Direction::FromMillimeters, unit)
    }

    open spec fn fits_unit(m: ApertureView<N>, unit: Unit) -> bool {
        true
    }

    open spec fn to_mm_spec(m: ApertureView<N>, unit: Unit) -> ApertureView<N> {
        turned_aperture(m, Direction::IntoMillimeters, unit)
    }

    open spec fn fits_mm(m: ApertureView<N>, unit: Unit) -> bool {
        true
    }

    fn mm_to_unit(&self, unit: &Unit) -> (r: Aperture<N>) {
        turn_aperture(self, Direction::FromMillimeters, unit)
    }

    fn to_mm(&self, unit: &Unit) -> (r: Aperture<N>) {
        turn_aperture(self, Direction::IntoMillimeters, unit)
    }
}

impl<N: Scalar> UnitAble<N> for Operation {
    type Model = Operation;

    open spec fn model(&self) -> Operation {
        *self
    }

    open spec fn mm_to_unit_spec(m: Operation, unit: Unit) -> Operation {
        turned_operation::<N>(m, Direction::FromMillimeters, unit)
    }

    open spec fn fits_unit(m: Operation, unit: Unit) -> bool {
        operation_fits::<N>(m, Direction::FromMillimeters, unit)
    }

    open spec fn to_mm_spec(m: Operation, unit: Unit) -> Operation {
        turned_operation::<N>(m, Direction::IntoMillimeters, unit)
    }

    open spec fn fits_mm(m: Operation, unit: Unit) -> bool {
        operation_fits::<N>(m, Direction::IntoMillimeters, unit)
    }

    fn mm_to_unit(&self, unit: &Unit) -> (r: Operation) {
        turn_operation::<N>(self, Direction::FromMillimeters, unit)
    }

    fn to_mm(&self, unit: &Unit) -> (r: Operation) {
        turn_operation::<N>(self, Direction::IntoMillimeters, unit)
    }
}

impl<N: Scalar> UnitAble<N> for StepAndRepeat<N> {
    type Model = StepAndRepeat<N>;

    open spec fn model(&self) -> StepAndRepeat<N> {
        *self
    }

    open spec fn mm_to_unit_spec(m: StepAndRepeat<N>, unit: Unit) -> StepAndRepeat<N> {
        turned_repeat(m, Direction::FromMillimeters, unit)
    }

    open spec fn fits_unit(m: StepAndRepeat<N>, unit: Unit) -> bool {
        true
    }

    open spec fn to_mm_spec(m: StepAndRepeat<N>, unit: Unit) -> StepAndRepeat<N> {
        turned_repeat(m, Direction::IntoMillimeters, unit)
    }

    open spec fn fits_mm(m: StepAndRepeat<N>, unit: Unit) -> bool {
        true
    }

    fn mm_to_unit(&self, unit: &Unit) -> (r: StepAndRepeat<N>) {
        turn_repeat(self, Direction::FromMillimeters, unit)
    }

    fn to_mm(&self, unit: &Unit) -> (r: StepAndRepeat<N>) {
        turn_repeat(self, Direction::IntoMillimeters, unit)
    }
}

impl<N: Scalar> UnitAble<N> for ApertureMacro<N> {
    type Model = ApertureMacroView<N>;

    open spec fn model(&self) -> ApertureMacroView<N> {
        self@
    }

    open spec fn mm_to_unit_spec(m: ApertureMacroView<N>, unit: Unit) -> ApertureMacroView<N> {
        turned_macro(m, Direction::FromMillimeters, unit)
    }

    open spec fn fits_unit(m: ApertureMacroView<N>, unit: Unit) -> bool {
        true
    }

    open spec fn to_mm_spec(m: ApertureMacroView<N>, unit: Unit) -> ApertureMacroView<N> {
        turned_macro(m, Direction::IntoMillimeters, unit)
    }

    open spec fn fits_mm(m: ApertureMacroView<N>, unit: Unit) -> bool {
        true
    }

    fn mm_to_unit(&self, unit: &Unit) -> (r: ApertureMacro<N>) {
        turn_macro(self, Direction::FromMillimeters, unit)
    }

    fn to_mm(&self, unit: &Unit) -> (r: ApertureMacro<N>) {
        turn_macro(self, Direction::IntoMillimeters, unit)
    }
}

impl<N: Scalar> UnitAble<N> for ApertureDefinition<Aperture<N>> {
    type Model = ApertureDefinition<ApertureView<N>>;

    open spec fn model(&self) -> ApertureDefinition<ApertureView<N>> {
        ApertureDefinition { code: self.code, aperture: self.aperture@ }
    }

    open spec fn mm_to_unit_spec(
        m: ApertureDefinition<ApertureView<N>>,
        unit: Unit,
    ) -> ApertureDefinition<ApertureView<N>> {
        turned_definition(m, Direction::FromMillimeters, unit)
    }

    open spec fn fits_unit(m: ApertureDefinition<ApertureView<N>>, unit: Unit) -> bool {
        true
    }

    open spec fn to_mm_spec(
        m: ApertureDefinition<ApertureView<N>>,
        unit: Unit,
    ) -> ApertureDefinition<ApertureView<N>> {
        turned_definition(m, Direction::IntoMillimeters, unit)
    }

    open spec fn fits_mm(m: ApertureDefinition<ApertureView<N>>, unit: Unit) -> bool {
        true
    }

    fn mm_to_unit(&self, unit: &Unit) -> (r: ApertureDefinition<Aperture<N>>) {
        turn_definition(self, Direction::FromMillimeters, unit)
    }

    fn to_mm(&self, unit: &Unit) -> (r: ApertureDefinition<Aperture<N>>) {
        turn_definition(self, Direction::IntoMillimeters, unit)
    }
}

impl<N: Scalar> UnitAble<N> for DCode {
    type Model = DCode;

    open spec fn model(&self) -> DCode {
        *self
    }

    open spec fn mm_to_unit_spec(m: DCode, unit: Unit) -> DCode {
        turned_dcode::<N>(m, Direction::FromMillimeters, unit)
    }

    open spec fn fits_unit(m: DCode, unit: Unit) -> bool {
        dcode_fits::<N>(m, Direction::FromMillimeters, unit)
    }

    open spec fn to_mm_spec(m: DCode, unit: Unit) -> DCode {
        turned_dcode::<N>(m, Direction::IntoMillimeters, unit)
    }

    open spec fn fits_mm(m: DCode, unit: Unit) -> bool {
        dcode_fits::<N>(m, Direction::IntoMillimeters, unit)
    }

    fn mm_to_unit(&self, unit: &Unit) -> (r: DCode) {
        turn_dcode::<N>(self, Direction::FromMillimeters, unit)
    }

    fn to_mm(&self, unit: &Unit) -> (r: DCode) {
        turn_dcode::<N>(self, Direction::IntoMillimeters, unit)
    }
}

impl<N: Scalar> UnitAble<N> for FunctionCode {
    type Model = FunctionCode<Seq<char>>;

    open spec fn model(&self) -> FunctionCode<Seq<char>> {
        self@
    }

    open spec fn mm_to_unit_spec(m: FunctionCode<Seq<char>>, unit: Unit) -> FunctionCode<Seq<char>> {
        turned_function::<N>(m, Direction::FromMillimeters, unit)
    }

    open spec fn fits_unit(m: FunctionCode<Seq<char>>, unit: Unit) -> bool {
        function_fits::<N>(m, Direction::FromMillimeters, unit)
    }

    open spec fn to_mm_spec(m: FunctionCode<Seq<char>>, unit: Unit) -> FunctionCode<Seq<char>> {
        turned_function::<N>(m, Direction::IntoMillimeters, unit)
    }

    open spec fn fits_mm(m: FunctionCode<Seq<char>>, unit: Unit) -> bool {
        function_fits::<N>(m, Direction::IntoMillimeters, unit)
    }

    fn mm_to_unit(&self, unit: &Unit) -> (r: FunctionCode) {
        turn_function::<N>(self, Direction::FromMillimeters, unit)
    }

    fn to_mm(&self, unit: &Unit) -> (r: FunctionCode) {
        turn_function::<N>(self, Direction::IntoMillimeters, unit)
    }
}

impl<N: Scalar> UnitAble<N> for ExtendedCode<N> {
    type Model = ExtendedCode<N, Seq<char>, ApertureView<N>, ApertureMacroView<N>>;

    open spec fn model(&self) -> ExtendedCode<N, Seq<char>, ApertureView<N>, ApertureMacroView<N>> {
        self@
    }

    open spec fn mm_to_unit_spec(
        m: ExtendedCode<N, Seq<char>, ApertureView<N>, ApertureMacroView<N>>,
        unit: Unit,
    ) -> ExtendedCode<N, Seq<char>, ApertureView<N>, ApertureMacroView<N>> {
        turned_extended(m, Direction::FromMillimeters, unit)
    }

    open spec fn fits_unit(
        m: ExtendedCode<N, Seq<char>, ApertureView<N>, ApertureMacroView<N>>,
        unit: Unit,
    ) -> bool {
        true
    }

    open spec fn to_mm_spec(
        m: ExtendedCode<N, Seq<char>, ApertureView<N>, ApertureMacroView<N>>,
        unit: Unit,
    ) -> ExtendedCode<N, Seq<char>, ApertureView<N>, ApertureMacroView<N>> {
        turned_extended(m, Direction::IntoMillimeters, unit)
    }

    open spec fn fits_mm(
        m: ExtendedCode<N, Seq<char>, ApertureView<N>, ApertureMacroView<N>>,
        unit: Unit,
    ) -> bool {
        true
    }

    fn mm_to_unit(&self, unit: &Unit) -> (r: ExtendedCode<N>) {
        turn_extended(self, Direction::FromMillimeters, unit)
    }

    fn to_mm(&self, unit: &Unit) -> (r: ExtendedCode<N>) {
        turn_extended(self, Direction::IntoMillimeters, unit)
    }
}

impl<N: Scalar> UnitAble<N> for Command<N> {
    type Model = CommandView<N>;

    open spec fn model(&self) -> CommandView<N> {
        self@
    }

    open spec fn mm_to_unit_spec(m: CommandView<N>, unit: Unit) -> CommandView<N> {
        turned_command(m, Direction::FromMillimeters, unit)
    }

    open spec fn fits_unit(m: CommandView<N>, unit: Unit) -> bool {
        command_fits(m, Direction::FromMillimeters, unit)
    }

    open spec fn to_mm_spec(m: CommandView<N>, unit: Unit) -> CommandView<N> {
        turned_command(m, Direction::IntoMillimeters, unit)
    }

    open spec fn fits_mm(m: CommandView<N>, unit: Unit) -> bool {
        command_fits(m, Direction::IntoMillimeters, unit)
    }

    fn mm_to_unit(&self, unit: &Unit) -> (r: Command<N>) {
        turn_command(self, Direction::FromMillimeters, unit)
    }

    fn to_mm(&self, unit: &Unit) -> (r: Command<N>) {
        turn_command(self, Direction::IntoMillimeters, unit)
    }
}

} // verus!
