//! From a document to a layer.
use crate::error::ParseError;
use crate::gerber::edit::map_commands;
use crate::gerber::macros::Macros;
use crate::gerber::{GerberLayerData, GerberView};
use crate::gerber_types::{
    Aperture, ApertureMacro, ApertureMacroView, ApertureView, Command, CommandView,
    CoordinateFormat, CoordinateMode, DCode, ExtendedCode, FunctionCode, GCode, MCode, Unit,
    ZeroOmission,
};
use crate::layer_type::LayerType;
use crate::scalar::Scalar;
use crate::table;
use crate::table::Table;
use crate::unit_able;
use crate::unit_able::UnitAble;
use vstd::prelude::*;

verus! {

/// What a Gerber file says.
pub struct GerberDocument<N> {
    /// unit type, defined once per document
    pub units: Option<Unit>,
    /// format specification for coordinates, defined once per document
    pub format_specification: Option<CoordinateFormat>,
    /// apertures which can be used in draw commands later on in the document.
    pub apertures: Table<i32, Aperture<N>>,
    /// Everything else - draw commands, comments, attributes, etc. - and what could not be read.
    pub commands: Vec<Result<Command<N>, String>>,
}

/// What a [`GerberDocument`] holds.
#[verifier::ext_equal]
pub ghost struct DocumentView<N> {
    pub units: Option<Unit>,
    pub format_specification: Option<CoordinateFormat>,
    pub apertures: Seq<(i32, ApertureView<N>)>,
    pub commands: Seq<Result<CommandView<N>, Seq<char>>>,
}

pub open spec fn element_view<N>(e: Result<Command<N>, String>) -> Result<CommandView<N>, Seq<char>> {
    match e {
        Ok(c) => Ok(c@),
        Err(e) => Err(e@),
    }
}

pub open spec fn elements<N>(s: Seq<Result<Command<N>, String>>) -> Seq<
    Result<CommandView<N>, Seq<char>>,
> {
    s.map_values(|e: Result<Command<N>, String>| element_view(e))
}

impl<N> View for GerberDocument<N> {
    type V = DocumentView<N>;

    open spec fn view(&self) -> DocumentView<N> {
        DocumentView {
            units: self.units,
            format_specification: self.format_specification,
            apertures: crate::gerber::aperture_views(self.apertures@),
            commands: elements(self.commands@),
        }
    }
}

/// The commands of a document.
pub open spec fn commands_of<N>(s: Seq<Result<CommandView<N>, Seq<char>>>) -> Seq<CommandView<N>>
    decreases s.len(),
{
    if s.len() == 0 {
        Seq::empty()
    } else {
        match s.last() {
            Ok(c) => commands_of(s.drop_last()).push(c),
            Err(_) => commands_of(s.drop_last()),
        }
    }
}

/// The errors of a document.
pub open spec fn errors_of<N>(s: Seq<Result<CommandView<N>, Seq<char>>>) -> Seq<Seq<char>>
    decreases s.len(),
{
    if s.len() == 0 {
        Seq::empty()
    } else {
        match s.last() {
            Ok(_) => errors_of(s.drop_last()),
            Err(e) => errors_of(s.drop_last()).push(e),
        }
    }
}

/// The macros that the commands define; of two with one name the later counts.
pub open spec fn macros_of<N>(s: Seq<CommandView<N>>) -> Seq<ApertureMacroView<N>>
    decreases s.len(),
{
    if s.len() == 0 {
        Seq::empty()
    } else {
        match s.last() {
            Command::ExtendedCode(ExtendedCode::ApertureMacro(m)) => crate::gerber::macros::with_macro(
                macros_of(s.drop_last()),
                m,
            ),
            _ => macros_of(s.drop_last()),
        }
    }
}

/// The drawing begins with a D-code, with the start or the end of a region, or with a grid.
pub open spec fn starts_drawing<N>(c: CommandView<N>) -> bool {
    match c {
        Command::FunctionCode(FunctionCode::DCode(_)) => true,
        Command::FunctionCode(FunctionCode::GCode(GCode::RegionMode(_))) => true,
        Command::ExtendedCode(ExtendedCode::StepAndRepeat(_)) => true,
        _ => false,
    }
}

/// How many commands stand in front of the drawing.
pub open spec fn header_length<N>(s: Seq<CommandView<N>>) -> nat
    decreases s.len(),
{
    if s.len() == 0 || starts_drawing(s[0]) {
        0
    } else {
        1 + header_length(s.skip(1))
    }
}

pub open spec fn ends_file<N>(c: CommandView<N>) -> bool {
    c matches Command::FunctionCode(FunctionCode::MCode(MCode::EndOfFile))
}

/// The commands without what stands in front of the drawing and without ends of the file.
pub open spec fn drawing<N>(s: Seq<CommandView<N>>) -> Seq<CommandView<N>> {
    s.skip(header_length(s) as int).filter(|c: CommandView<N>| !ends_file(c))
}

/// The factor that takes coordinates to `unit` from the other unit.
pub open spec fn unit_factor<N: Scalar>(unit: Unit) -> N {
    match unit {
        Unit::Millimeters => N::ratio_spec(254, 10),
        Unit::Inches => N::ratio_spec(1, 1).over_spec(N::ratio_spec(254, 10)),
    }
}

/// A command with its lengths taken from one unit to the other.
pub open spec fn command_in_unit<N: Scalar>(c: CommandView<N>, from: Unit, to: Unit) -> CommandView<
    N,
> {
    match c {
        Command::ExtendedCode(e) => Command::ExtendedCode(
            unit_able::converted::<N, ExtendedCode<N>>(e, from, to),
        ),
        other => crate::gerber::edit::scaled_command(
            other,
            crate::gerber::format_4_6(),
            unit_factor::<N>(to),
            unit_factor::<N>(to),
        ),
    }
}

/// The layer in another unit. All commands, apertures and macros are converted, and the coordinates
/// take the format 4.6.
pub open spec fn layer_in_unit<N: Scalar>(v: GerberView<N>, unit: Unit) -> GerberView<N> {
    if unit == v.unit {
        v
    } else {
        GerberView {
            coordinate_format: crate::gerber::format_4_6(),
            commands: v.commands.map_values(
                |c: CommandView<N>| command_in_unit(c, v.unit, unit),
            ),
            apertures: table::mapped(
                v.apertures,
                |a: ApertureView<N>| unit_able::converted::<N, Aperture<N>>(a, v.unit, unit),
            ),
            macros: v.macros.map_values(
                |m: ApertureMacroView<N>| unit_able::converted::<N, ApertureMacro<N>>(
                    m,
                    v.unit,
                    unit,
                ),
            ),
            unit,
            ..v
        }
    }
}

/// Every coordinate has a value in the other unit.
pub open spec fn unit_reachable<N: Scalar>(v: GerberView<N>, unit: Unit) -> bool {
    unit == v.unit || crate::gerber::edit::commands_scalable(
        v.commands,
        unit_factor::<N>(unit),
        unit_factor::<N>(unit),
    )
}

/// The layer that a document describes, in the unit of the document.
pub open spec fn raw_layer<N>(
    ty: LayerType,
    format: CoordinateFormat,
    doc: DocumentView<N>,
) -> GerberView<N> {
    let all = commands_of(doc.commands);
    GerberView {
        layer_type: document_type(ty, doc),
        coordinate_format: format,
        commands: drawing(all),
        unit: match doc.units {
            Some(u) => u,
            None => Unit::Millimeters,
        },
        macros: macros_of(all),
        apertures: doc.apertures,
        parse_errors: errors_of(doc.commands),
    }
}

/// The type that the drawing gives the layer, or else `ty`.
pub open spec fn document_type<N>(ty: LayerType, doc: DocumentView<N>) -> LayerType {
    match crate::layer_type::first_function(drawing(commands_of(doc.commands))) {
        Some(f) => LayerType::of_function(f),
        None => ty,
    }
}

/// The layer that a document describes, in millimetres. There is none without a coordinate format.
pub open spec fn loaded<N: Scalar>(ty: LayerType, doc: DocumentView<N>) -> Result<
    GerberView<N>,
    ParseError<Seq<char>>,
> {
    match doc.format_specification {
        None => Err(ParseError::FormatMissing(document_type(ty, doc).text_spec())),
        Some(format) => Ok(layer_in_unit(raw_layer(ty, format, doc), Unit::Millimeters)),
    }
}

/// Every coordinate of the drawing has a value in millimetres.
pub open spec fn loadable<N: Scalar>(doc: DocumentView<N>) -> bool {
    doc.units == Some(Unit::Inches) && doc.format_specification is Some
        ==> crate::gerber::edit::commands_scalable(
        drawing(commands_of(doc.commands)),
        unit_factor::<N>(Unit::Millimeters),
        unit_factor::<N>(Unit::Millimeters),
    )
}

pub open spec fn layer_view<N>(r: Result<GerberLayerData<N>, ParseError>) -> Result<
    GerberView<N>,
    ParseError<Seq<char>>,
> {
    match r {
        Ok(layer) => Ok(layer@),
        Err(e) => Err(e@),
    }
}

pub(crate) fn split_elements<N: Scalar>(s: &Vec<Result<Command<N>, String>>) -> (r: (
    Vec<Command<N>>,
    Vec<String>,
))
    ensures
        crate::gerber_types::views(r.0@) == commands_of(elements(s@)),
        crate::gerber::texts(r.1@) == errors_of(elements(s@)),
{
    let ghost e = elements(s@);
    let mut commands: Vec<Command<N>> = Vec::new();
    let mut errors: Vec<String> = Vec::new();
    let mut i: usize = 0;
    proof {
        assert(crate::gerber_types::views(commands@) =~= commands_of(e.take(0)));
        assert(crate::gerber::texts(errors@) =~= errors_of(e.take(0)));
    }
    while i < s.len()
        invariant
            i <= s@.len(),
            e == elements(s@),
            crate::gerber_types::views(commands@) == commands_of(e.take(i as int)),
            crate::gerber::texts(errors@) == errors_of(e.take(i as int)),
        decreases s@.len() - i,
    {
        let ghost c0 = commands@;
        let ghost e0 = errors@;
        proof {
            assert(e.take(i + 1).drop_last() =~= e.take(i as int));
            assert(e.take(i + 1).last() == element_view(s@[i as int]));
        }
        match &s[i] {
            Ok(c) => {
                let copy = c.clone();
                commands.push(copy);
                assert(crate::gerber_types::views(commands@) =~= crate::gerber_types::views(
                    c0,
                ).push(c@));
            },
            Err(text) => {
                errors.push(text.clone());
                assert(crate::gerber::texts(errors@) =~= crate::gerber::texts(e0).push(text@));
            },
        }
        i = i + 1;
    }
    assert(e.take(i as int) =~= e);
    (commands, errors)
}

fn collect_macros<N: Scalar>(commands: &Vec<Command<N>>) -> (r: Macros<N>)
    ensures
        r@ == macros_of(crate::gerber_types::views(commands@)),
{
    let ghost s = crate::gerber_types::views(commands@);
    let mut macros: Macros<N> = Macros::new();
    let mut i: usize = 0;
    assert(macros@ =~= macros_of(s.take(0)));
    while i < commands.len()
        invariant
            i <= commands@.len(),
            s == crate::gerber_types::views(commands@),
            macros@ == macros_of(s.take(i as int)),
        decreases commands@.len() - i,
    {
        proof {
            assert(s.take(i + 1).drop_last() =~= s.take(i as int));
            assert(s.take(i + 1).last() == commands@[i as int]@);
        }
        if let Command::ExtendedCode(ExtendedCode::ApertureMacro(m)) = &commands[i] {
            macros.insert(m.clone());
        }
        i = i + 1;
    }
    assert(s.take(i as int) =~= s);
    macros
}

fn measure_header<N>(commands: &Vec<Command<N>>) -> (n: usize)
    ensures
        n == header_length(crate::gerber_types::views(commands@)),
        n <= commands@.len(),
{
    let ghost s = crate::gerber_types::views(commands@);
    let mut i: usize = 0;
    assert(s.skip(0) =~= s);
    while i < commands.len()
        invariant
            i <= commands@.len(),
            s == crate::gerber_types::views(commands@),
            header_length(s) == i + header_length(s.skip(i as int)),
        decreases commands@.len() - i,
    {
        assert(s.skip(i as int)[0] == commands@[i as int]@);
        assert(s.skip(i as int).skip(1) =~= s.skip(i + 1));
        match &commands[i] {
            Command::FunctionCode(FunctionCode::DCode(_)) => {
                return i;
            },
            Command::FunctionCode(FunctionCode::GCode(GCode::RegionMode(_))) => {
                return i;
            },
            Command::ExtendedCode(ExtendedCode::StepAndRepeat(_)) => {
                return i;
            },
            _ => {},
        }
        i = i + 1;
    }
    i
}

fn strip<N: Scalar>(commands: &Vec<Command<N>>) -> (r: Vec<Command<N>>)
    ensures
        crate::gerber_types::views(r@) == drawing(crate::gerber_types::views(commands@)),
{
    let n: usize = measure_header(commands);
    let ghost s = crate::gerber_types::views(commands@).skip(n as int);
    let ghost keep = |c: CommandView<N>| !ends_file(c);
    let mut r: Vec<Command<N>> = Vec::new();
    let mut i: usize = n;
    proof {
        reveal(Seq::filter);
        assert(crate::gerber_types::views(r@) =~= s.take(0).filter(keep));
    }
    while i < commands.len()
        invariant
            n <= i <= commands@.len(),
            s == crate::gerber_types::views(commands@).skip(n as int),
            keep == (|c: CommandView<N>| !ends_file(c)),
            crate::gerber_types::views(r@) == s.take(i - n).filter(keep),
        decreases commands@.len() - i,
    {
        let ghost before = r@;
        proof {
            reveal(Seq::filter);
            assert(s.take(i - n + 1).drop_last() =~= s.take(i - n));
            assert(s.take(i - n + 1).last() == commands@[i as int]@);
        }
        let end = match &commands[i] {
            Command::FunctionCode(FunctionCode::MCode(MCode::EndOfFile)) => true,
            _ => false,
        };
        if !end {
            let copy = commands[i].clone();
            r.push(copy);
            assert(crate::gerber_types::views(r@) =~= crate::gerber_types::views(before).push(
                commands@[i as int]@,
            ));
        }
        i = i + 1;
    }
    assert(s.take(i - n) =~= s);
    r
}

fn convert_command<N: Scalar>(c: &Command<N>, from: &Unit, to: &Unit, factor: N) -> (r: Command<N>)
    requires
        factor == unit_factor::<N>(*to),
        crate::gerber::edit::command_scalable(c@, factor, factor),
    ensures
        r@ == command_in_unit(c@, *from, *to),
{
    match c {
        Command::ExtendedCode(e) => Command::ExtendedCode(e.to_unit(from, to)),
        other => crate::gerber::edit::scale_command(
            other,
            &CoordinateFormat::new(ZeroOmission::Leading, CoordinateMode::Absolute, 4, 6),
            factor,
            factor,
        ),
    }
}

/// The factor that takes coordinates to `unit` from the other unit.
pub(crate) fn factor_to<N: Scalar>(unit: &Unit) -> (r: N)
    ensures
        r == unit_factor::<N>(*unit),
{
    match unit {
        Unit::Millimeters => N::ratio(254, 10),
        Unit::Inches => N::ratio(1, 1).over(N::ratio(254, 10)),
    }
}

impl<N: Scalar> GerberDocument<N> {
    /// Whether every coordinate of the drawing has a value in millimetres.
    pub fn is_loadable(&self) -> (r: bool)
        ensures
            r == loadable(self@),
    {
        let inches = match self.units {
            Some(u) => u == Unit::Inches,
            None => false,
        };
        if !inches || self.format_specification.is_none() {
            return true;
        }
        let (commands, _) = split_elements(&self.commands);
        let factor: N = factor_to(&Unit::Millimeters);
        crate::gerber::edit::are_scalable(&strip(&commands), factor, factor)
    }
}

impl<N: Scalar> GerberLayerData<N> {
    /// Converts all commands to given Unit
    pub fn to_unit(self, unit: &Unit) -> (r: Self)
        requires
            unit_reachable(self@, *unit),
        ensures
            r@ == layer_in_unit(self@, *unit),
    {
        if *unit == self.unit {
            return self;
        }
        let ghost v = self@;
        let from = self.unit;
        let factor = match unit {
            Unit::Millimeters => N::ratio(254, 10),
            Unit::Inches => N::ratio(1, 1).over(N::ratio(254, 10)),
        };
        let ghost g = |c: CommandView<N>| command_in_unit(c, from, *unit);
        let f = |c: &Command<N>| -> (d: Command<N>)
            requires
                crate::gerber::edit::command_scalable(c@, factor, factor),
            ensures
                d@ == command_in_unit(c@, from, *unit),
            { convert_command(c, &from, unit, factor) };
        proof {
            assert forall|i: int| 0 <= i < self.commands@.len() implies call_requires(
                f,
                (&#[trigger] self.commands@[i],),
            ) by {
                assert(v.commands[i] == self.commands@[i]@);
            }
        }
        let commands = map_commands(&self.commands, f, Ghost(g));
        let convert = |a: &Aperture<N>| -> (b: Aperture<N>)
            ensures
                b@ == unit_able::converted::<N, Aperture<N>>(a@, from, *unit),
            { a.to_unit(&from, unit) };
        let apertures = self.apertures.map(convert);
        let ghost h = |m: ApertureMacroView<N>|
            unit_able::converted::<N, ApertureMacro<N>>(m, from, *unit);
        let convert_macro = |m: &ApertureMacro<N>| -> (n: ApertureMacro<N>)
            ensures
                n@ == unit_able::converted::<N, ApertureMacro<N>>(m@, from, *unit),
            { m.to_unit(&from, unit) };
        let macros = self.macros.map(convert_macro, Ghost(h));
        let r = GerberLayerData {
            layer_type: self.layer_type,
            coordinate_format: CoordinateFormat::new(
                ZeroOmission::Leading,
                CoordinateMode::Absolute,
                4,
                6,
            ),
            commands,
            unit: *unit,
            macros,
            apertures,
            parse_errors: self.parse_errors,
        };
        proof {
            let w = layer_in_unit(v, *unit);
            assert(r@.macros =~= w.macros);
            assert(r@.apertures =~= w.apertures);
            assert(r@.commands =~= w.commands);
        }
        r
    }

    /// Creates a new layer from already loaded gerber doc and its layer type
    pub fn new(ty: LayerType, data: GerberDocument<N>) -> (r: Result<Self, ParseError>)
        requires
            loadable(data@),
        ensures
            layer_view(r) == loaded(ty, data@),
    {
        let (all_commands, parse_errors) = split_elements(&data.commands);
        let macros = collect_macros(&all_commands);
        let commands = strip(&all_commands);
        let layer_type = match LayerType::from_commands(&commands) {
            Some(found) => found,
            None => ty,
        };
        match data.format_specification {
            None => Err(ParseError::FormatMissing(layer_type.text())),
            Some(coordinate_format) => {
                let layer = GerberLayerData {
                    unit: match data.units {
                        Some(u) => u,
                        None => Unit::Millimeters,
                    },
                    coordinate_format,
                    layer_type,
                    commands,
                    macros,
                    apertures: data.apertures,
                    parse_errors,
                };
                assert(layer@ =~= raw_layer(ty, coordinate_format, data@));
                Ok(layer.to_unit(&Unit::Millimeters))
            },
        }
    }
}

} // verus!
