use gerber_parser::gerber_types as outer;
use gerber_parser::GerberDoc;
use lib_gerber_edit::board::Board;
use lib_gerber_edit::error::{Error, ParseError};
use lib_gerber_edit::gerber::corners::commands_corners;
use lib_gerber_edit::gerber::load::GerberDocument;
use lib_gerber_edit::gerber::optimize::Optimize;
use lib_gerber_edit::gerber::guard::is_parsable;
use lib_gerber_edit::gerber::GerberLayerData;
use lib_gerber_edit::gerber_ascii::{load_ascii, load_font, AsciiText, HAlign, VAlign};
use lib_gerber_edit::gerber_types::{
    Aperture, ApertureDefinition, Circle, Command, CommentContent, CoordinateFormat, CoordinateMode,
    CoordinateNumber, CoordinateOffset, Coordinates, DCode, ExtendedCode, ExtendedPosition,
    FileAttribute, FileFunction, FunctionCode, GCode, GerberDate, ImageName, InterpolationMode,
    MCode, Operation, Polarity, Position, QuadrantMode, Rectangular, StandardComment,
    StepAndRepeat, Unit, ZeroOmission,
};
use lib_gerber_edit::layer::{Layer, LayerData, LayerType};
use lib_gerber_edit::scalar::{Count, Scalar, Text};
use lib_gerber_edit::table::Table;
use lib_gerber_edit::{
    rotate_90, LayerCorners, LayerMerge, LayerScale, LayerStepAndRepeat, LayerTransform, Pos, Size,
};

/// Lengths as machine floating-point numbers.
#[derive(Clone, Copy, Debug, PartialEq)]
struct Mm(f64);

impl Scalar for Mm {
    fn zero() -> Self {
        Mm(0.0)
    }
    fn highest() -> Self {
        Mm(f64::MAX)
    }
    fn lowest() -> Self {
        Mm(f64::MIN)
    }
    fn plus(self, other: Self) -> Self {
        Mm(self.0 + other.0)
    }
    fn minus(self, other: Self) -> Self {
        Mm(self.0 - other.0)
    }
    fn times(self, other: Self) -> Self {
        Mm(self.0 * other.0)
    }
    fn over(self, other: Self) -> Self {
        Mm(self.0 / other.0)
    }
    fn negated(self) -> Self {
        Mm(-self.0)
    }
    fn remainder(self, modulus: Self) -> Self {
        Mm(self.0.rem_euclid(modulus.0))
    }
    fn less(self, other: Self) -> bool {
        self.0 < other.0
    }
    fn same(self, other: Self) -> bool {
        self.0 == other.0
    }
    fn close(self, other: Self) -> bool {
        (self.0 - other.0).abs() < 1e-10
    }
    fn lower(self, other: Self) -> Self {
        Mm(self.0.min(other.0))
    }
    fn higher(self, other: Self) -> Self {
        Mm(self.0.max(other.0))
    }
    fn ratio(num: i64, den: i64) -> Self {
        Mm(num as f64 / den as f64)
    }
    fn count(n: u64) -> Self {
        Mm(n as f64)
    }
    fn from_nano(nano: i64) -> Self {
        Mm(nano as f64 / 1_000_000.0)
    }
    fn to_nano(self) -> Option<i64> {
        let scaled = self.0 * 1_000_000.0;
        if !self.0.is_finite() || scaled > i64::MAX as f64 || scaled < i64::MIN as f64 {
            return None;
        }
        Some(scaled as i64)
    }
    fn parsed(text: &str, places: u8) -> Option<Self> {
        let number = text.parse::<f64>().ok()?;
        Some(Mm(number / 10f64.powi(places as i32)))
    }
    fn rounded(self, places: u8) -> (bool, u64) {
        let number = (self.0 * (10i32.pow(places as u32) as f64)).round();
        (number < 0.0, number.abs() as isize as u64)
    }
    fn text(self, places: u8) -> String {
        format!("{:.*}", places as usize, self.0)
    }
    fn to_u8(self) -> u8 {
        self.0 as u8
    }
    fn norm(x: Self, y: Self) -> Self {
        Mm((x.0 * x.0 + y.0 * y.0).sqrt())
    }
    fn angle(y: Self, x: Self) -> Self {
        Mm(y.0.atan2(x.0))
    }
    fn half_turn() -> Self {
        Mm(std::f64::consts::PI)
    }
    fn quarter_turn() -> Self {
        Mm(std::f64::consts::FRAC_PI_2)
    }

    // These are for proofs alone and are never called.

    fn zero_spec() -> Self {
        unreachable!()
    }

    fn highest_spec() -> Self {
        unreachable!()
    }

    fn lowest_spec() -> Self {
        unreachable!()
    }

    fn plus_spec(self, _: Self) -> Self {
        unreachable!()
    }

    fn minus_spec(self, _: Self) -> Self {
        unreachable!()
    }

    fn times_spec(self, _: Self) -> Self {
        unreachable!()
    }

    fn over_spec(self, _: Self) -> Self {
        unreachable!()
    }

    fn negated_spec(self) -> Self {
        unreachable!()
    }

    fn remainder_spec(self, _: Self) -> Self {
        unreachable!()
    }

    fn less_spec(self, _: Self) -> bool {
        unreachable!()
    }

    fn same_spec(self, _: Self) -> bool {
        unreachable!()
    }

    fn close_spec(self, _: Self) -> bool {
        unreachable!()
    }

    fn lower_spec(self, _: Self) -> Self {
        unreachable!()
    }

    fn higher_spec(self, _: Self) -> Self {
        unreachable!()
    }

    fn ratio_spec(_: i64, _: i64) -> Self {
        unreachable!()
    }

    fn count_spec(_: u64) -> Self {
        unreachable!()
    }

    fn from_nano_spec(_: i64) -> Self {
        unreachable!()
    }

    fn to_nano_spec(self) -> Option<i64> {
        unreachable!()
    }

    fn parsed_spec(_: Text, _: Count) -> Option<Self> {
        unreachable!()
    }

    fn rounded_spec(self, _: Count) -> (bool, u64) {
        unreachable!()
    }

    fn text_spec(self, _: Count) -> Text {
        unreachable!()
    }

    fn to_u8_spec(self) -> u8 {
        unreachable!()
    }

    fn norm_spec(_: Self, _: Self) -> Self {
        unreachable!()
    }

    fn angle_spec(_: Self, _: Self) -> Self {
        unreachable!()
    }

    fn half_turn_spec() -> Self {
        unreachable!()
    }

    fn quarter_turn_spec() -> Self {
        unreachable!()
    }
}

fn read_format(f: outer::CoordinateFormat) -> CoordinateFormat {
    CoordinateFormat {
        zero_omission: match f.zero_omission {
            outer::ZeroOmission::Leading => ZeroOmission::Leading,
            outer::ZeroOmission::Trailing => ZeroOmission::Trailing,
        },
        coordinate_mode: match f.coordinate_mode {
            outer::CoordinateMode::Absolute => CoordinateMode::Absolute,
            outer::CoordinateMode::Incremental => CoordinateMode::Incremental,
        },
        integer: f.integer,
        decimal: f.decimal,
    }
}

fn read_unit(u: outer::Unit) -> Unit {
    match u {
        outer::Unit::Inches => Unit::Inches,
        outer::Unit::Millimeters => Unit::Millimeters,
    }
}

fn read_number(n: outer::CoordinateNumber) -> CoordinateNumber {
    CoordinateNumber { nano: (f64::from(n) * 1_000_000.0).round() as i64 }
}

fn read_point(c: outer::Coordinates) -> Coordinates {
    Coordinates { x: c.x.map(read_number), y: c.y.map(read_number), format: read_format(c.format) }
}

fn read_offset(c: outer::CoordinateOffset) -> CoordinateOffset {
    CoordinateOffset {
        x: c.x.map(read_number),
        y: c.y.map(read_number),
        format: read_format(c.format),
    }
}

fn read_function(f: outer::FileFunction) -> FileFunction {
    match f {
        outer::FileFunction::Copper { layer, pos, .. } => FileFunction::Copper {
            layer,
            pos: match pos {
                outer::ExtendedPosition::Top => ExtendedPosition::Top,
                outer::ExtendedPosition::Inner => ExtendedPosition::Inner,
                outer::ExtendedPosition::Bottom => ExtendedPosition::Bottom,
            },
            copper_type: None,
        },
        outer::FileFunction::Legend { pos, index } => FileFunction::Legend {
            pos: match pos {
                outer::Position::Top => Position::Top,
                outer::Position::Bottom => Position::Bottom,
            },
            index,
        },
        other => FileFunction::Unmapped(format!("{:?}", other)),
    }
}

/// The commands that the files of these tests hold.
fn read_command(command: outer::Command) -> Command<Mm> {
    let text = format!("{:?}", command);
    match command {
        outer::Command::FunctionCode(outer::FunctionCode::DCode(d)) => {
            Command::FunctionCode(FunctionCode::DCode(match d {
                outer::DCode::Operation(outer::Operation::Interpolate(c, o)) => DCode::Operation(
                    Operation::Interpolate(c.map(read_point), o.map(read_offset)),
                ),
                outer::DCode::Operation(outer::Operation::Move(c)) => {
                    DCode::Operation(Operation::Move(c.map(read_point)))
                }
                outer::DCode::Operation(outer::Operation::Flash(c)) => {
                    DCode::Operation(Operation::Flash(c.map(read_point)))
                }
                outer::DCode::SelectAperture(id) => DCode::SelectAperture(id),
            }))
        }
        outer::Command::FunctionCode(outer::FunctionCode::MCode(outer::MCode::EndOfFile)) => {
            Command::FunctionCode(FunctionCode::MCode(MCode::EndOfFile))
        }
        outer::Command::FunctionCode(outer::FunctionCode::GCode(g)) => {
            let code = match g {
                outer::GCode::InterpolationMode(outer::InterpolationMode::Linear) => {
                    GCode::InterpolationMode(InterpolationMode::Linear)
                }
                outer::GCode::InterpolationMode(outer::InterpolationMode::ClockwiseCircular) => {
                    GCode::InterpolationMode(InterpolationMode::ClockwiseCircular)
                }
                outer::GCode::InterpolationMode(_) => {
                    GCode::InterpolationMode(InterpolationMode::CounterclockwiseCircular)
                }
                outer::GCode::QuadrantMode(outer::QuadrantMode::Single) => {
                    GCode::QuadrantMode(QuadrantMode::Single)
                }
                outer::GCode::QuadrantMode(outer::QuadrantMode::Multi) => {
                    GCode::QuadrantMode(QuadrantMode::Multi)
                }
                outer::GCode::RegionMode(on) => GCode::RegionMode(on),
                outer::GCode::Comment(outer::CommentContent::String(s)) => {
                    GCode::Comment(CommentContent::String(s))
                }
                _ => return Command::Other(text),
            };
            Command::FunctionCode(FunctionCode::GCode(code))
        }
        outer::Command::ExtendedCode(e) => match e {
            outer::ExtendedCode::CoordinateFormat(f) => {
                Command::ExtendedCode(ExtendedCode::CoordinateFormat(read_format(f)))
            }
            outer::ExtendedCode::Unit(u) => {
                Command::ExtendedCode(ExtendedCode::Unit(read_unit(u)))
            }
            outer::ExtendedCode::FileAttribute(outer::FileAttribute::FileFunction(f)) => {
                Command::ExtendedCode(ExtendedCode::FileAttribute(FileAttribute::FileFunction(
                    read_function(f),
                )))
            }
            _ => Command::Other(text),
        },
    }
}

fn read_aperture(a: outer::Aperture) -> Aperture<Mm> {
    match a {
        outer::Aperture::Circle(c) => Aperture::Circle(Circle {
            diameter: Mm(c.diameter),
            hole_diameter: c.hole_diameter.map(Mm),
        }),
        outer::Aperture::Rectangle(r) => Aperture::Rectangle(Rectangular {
            x: Mm(r.x),
            y: Mm(r.y),
            hole_diameter: r.hole_diameter.map(Mm),
        }),
        other => panic!("{:?}", other),
    }
}

fn document(doc: GerberDoc) -> GerberDocument<Mm> {
    let mut apertures = Table::new();
    for (code, aperture) in doc.apertures {
        apertures.insert(code, read_aperture(aperture));
    }
    GerberDocument {
        units: doc.units.map(read_unit),
        format_specification: doc.format_specification.map(read_format),
        apertures,
        commands: doc
            .commands
            .into_iter()
            .map(|c| c.map(read_command).map_err(|e| e.to_string()))
            .collect(),
    }
}

fn layer(text: &str) -> GerberLayerData<Mm> {
    assert!(is_parsable(text.as_bytes()));
    GerberLayerData::from_type(LayerType::Top, text.as_bytes(), &document)
        .unwrap_or_else(|e| panic!("{}", e.text()))
}

fn near(a: Mm, b: f64) -> bool {
    (a.0 - b).abs() < 1e-6
}

fn assert_box(corners: (Pos<Mm>, Pos<Mm>), expected: (f64, f64, f64, f64)) {
    let (min, max) = corners;
    assert!(near(min.x, expected.0), "min.x: expected {}, got {}", expected.0, min.x.0);
    assert!(near(min.y, expected.1), "min.y: expected {}, got {}", expected.1, min.y.0);
    assert!(near(max.x, expected.2), "max.x: expected {}, got {}", expected.2, max.x.0);
    assert!(near(max.y, expected.3), "max.y: expected {}, got {}", expected.3, max.y.0);
}

/// Rounds coordinates to a hundredth of a micrometre.
fn rounded_box(corners: (Pos<Mm>, Pos<Mm>)) -> (Pos<Mm>, Pos<Mm>) {
    let round = |v: Mm| Mm((v.0 * 100_000.0).round() / 100_000.0);
    (
        Pos { x: round(corners.0.x), y: round(corners.0.y) },
        Pos { x: round(corners.1.x), y: round(corners.1.y) },
    )
}

/// Counter-clockwise from (3, -2) to (-3, -2) around (0, 2): the bottom of the circle is not swept.
#[test]
fn test_arc_ccw_through_top() {
    let gbr = "\
%FSLAX46Y46*%
%MOMM*%
%ADD10C,0.100000*%
D10*
G75*
G01*
X3000000Y-2000000D02*
G03*
X-3000000Y-2000000I-3000000J4000000D01*
M02*
";
    assert_box(layer(gbr).get_corners(), (-5.05, -2.05, 5.05, 7.05));
}

/// Clockwise from (5, 0) to (0, -5) around the origin.
#[test]
fn test_arc_cw_quarter() {
    let gbr = "\
%FSLAX46Y46*%
%MOMM*%
%ADD10C,0.100000*%
D10*
G75*
G01*
X5000000Y0D02*
G02*
X0Y-5000000I-5000000J0D01*
M02*
";
    assert_box(layer(gbr).get_corners(), (-0.05, -5.05, 5.05, 0.05));
}

/// An arc that ends where it starts is a full circle.
#[test]
fn test_arc_full_circle() {
    let gbr = "\
%FSLAX46Y46*%
%MOMM*%
%ADD10C,0.100000*%
D10*
G75*
G01*
X5000000Y0D02*
G03*
X5000000Y0I-5000000J0D01*
M02*
";
    assert_box(layer(gbr).get_corners(), (-5.05, -5.05, 5.05, 5.05));
}

const LINE: &str = "\
%FSLAX46Y46*%
%MOMM*%
%ADD10C,0.200000*%
D10*
G01*
X0Y0D02*
X3000000Y1000000D01*
M02*
";

fn nano(v: i64) -> Option<CoordinateNumber> {
    Some(CoordinateNumber { nano: v })
}

fn point(x: i64, y: i64) -> Option<Coordinates> {
    Some(Coordinates {
        x: nano(x),
        y: nano(y),
        format: CoordinateFormat {
            zero_omission: ZeroOmission::Leading,
            coordinate_mode: CoordinateMode::Absolute,
            integer: 4,
            decimal: 6,
        },
    })
}

fn operation(op: Operation) -> Command<Mm> {
    Command::FunctionCode(FunctionCode::DCode(DCode::Operation(op)))
}

fn select(id: i32) -> Command<Mm> {
    Command::FunctionCode(FunctionCode::DCode(DCode::SelectAperture(id)))
}

fn linear() -> Command<Mm> {
    Command::FunctionCode(FunctionCode::GCode(GCode::InterpolationMode(InterpolationMode::Linear)))
}

#[test]
fn drawing_is_what_remains_of_a_file() {
    let line = layer(LINE);
    assert_eq!(line.layer_type, LayerType::Top);
    assert_eq!(line.unit, Unit::Millimeters);
    assert_eq!(
        line.commands,
        vec![
            select(10),
            linear(),
            operation(Operation::Move(point(0, 0))),
            operation(Operation::Interpolate(point(3_000_000, 1_000_000), None)),
        ]
    );
    assert_eq!(
        line.apertures.get(10),
        Some(&Aperture::Circle(Circle { diameter: Mm(0.2), hole_diameter: None }))
    );
    assert!(line.parse_errors.is_empty());
    assert_eq!(line.get_size(), Size { width: Mm(3.1), height: Mm(1.1) });
}

#[test]
fn inches_become_millimetres() {
    let line = layer(&LINE.replace("%MOMM*%", "%MOIN*%"));
    assert_eq!(line.unit, Unit::Millimeters);
    assert_box(line.get_corners(), (0.0, 0.0, 78.74, 27.94));
}

#[test]
fn file_without_format_is_refused() {
    let r = GerberLayerData::from_type(LayerType::Top, b"%MOMM*%\nM02*\n", &document);
    match r {
        Err(e) => {
            assert_eq!(e, ParseError::FormatMissing("gbr Copper Top Layer".to_string()));
            assert_eq!(
                e.text(),
                "Missing coordinate format specification in layer 'gbr Copper Top Layer'"
            );
        }
        Ok(_) => panic!("a layer without a format"),
    }
}

#[test]
fn file_that_is_no_text_is_refused() {
    let bytes = [0x47u8, 0xff, 0xfe, 0x0a];
    assert!(is_parsable(&bytes));
    match GerberLayerData::from_type(LayerType::Top, &bytes, &document) {
        Err(ParseError::GerberParseError(e)) => assert!(!e.is_empty()),
        other => panic!("{:?}", other.map(|l| l.layer_type)),
    }
    match LayerData::parse(LayerType::Drill, &bytes, &document) {
        Err(ParseError::GerberParseError(e)) => assert!(!e.is_empty()),
        _ => panic!("a drill layer that is no text"),
    }
}

#[test]
fn lines_that_cannot_be_parsed() {
    assert!(is_parsable(b""));
    assert!(is_parsable(LINE.as_bytes()));
    assert!(!is_parsable(b"G0"));
    assert!(!is_parsable(b"M02*\n  G0  \nM02*\n"));
    assert!(!is_parsable("G0\u{e9}*".as_bytes()));
    assert!(is_parsable(b"G01*"));
    let with_format = |format: &str, line: &str| {
        is_parsable(format!("%FSLAX{}Y{}*%\n{}\n", format, format, line).as_bytes())
    };
    assert!(is_parsable(b"X9223372036854775807Y0D02*"));
    assert!(with_format("40", "X9223372036854Y0D02*"));
    assert!(!with_format("40", "X9223372036855Y0D02*"));
    assert!(with_format("43", "X9223372036854775Y0D02*"));
    assert!(!with_format("43", "G01X9223372036854776Y0D01*"));
    assert!(with_format("46", "X9223372036854775807Y0D02*"));
    assert!(!with_format("46", "G01X0Y-9223372036854775808D02*"));
    assert!(with_format("46", "X9223372036854775809Y0D02*"));
    assert!(with_format("46", "X0000000000000000000001Y0D02*"));
    assert!(with_format("47", "G01*"));
    assert!(!with_format("47", "X0Y0D02*"));
    assert!(with_format("77", "X0Y0D02*"));
}

#[test]
fn coordinates_fit_the_format_in_force() {
    let far = "X9223372036855Y0D02*";
    let goes_through = |bytes: &[u8]| {
        assert!(is_parsable(bytes));
        let r = GerberLayerData::<Mm>::from_type(LayerType::Top, bytes, &document);
        r.is_ok()
    };
    // Before a format there is nothing to compute with.
    assert!(goes_through(format!("{}\n%FSLAX40Y40*%\nM02*\n", far).as_bytes()));
    assert!(!is_parsable(format!("%FSLAX40Y40*%\n{}\nM02*\n", far).as_bytes()));
    // The first format stays.
    assert!(goes_through(format!("%FSLAX46Y46*%\n%FSLAX40Y40*%\n{}\nM02*\n", far).as_bytes()));
    assert!(!is_parsable(format!("%FSLAX40Y40*%\n%FSLAX46Y46*%\n{}\nM02*\n", far).as_bytes()));
    // A format that is refused is none.
    for refused in
        ["%FSLAX70Y70*%", "%FSLAXA0Y40*%", "%FSLAX4Y4*%", "%FSXAX40Y40*%", "%FSLAX40*%"]
    {
        let text = format!("{}\n{}\n%FSLAX46Y46*%\n{}\nM02*\n", refused, far, far);
        assert!(goes_through(text.as_bytes()), "{}", refused);
    }
    assert!(!is_parsable(format!("%F%FSTIX40Y40*%\n{}\n", far).as_bytes()));
    // The lines of a macro are no lines of their own.
    let text = format!("%FSLAX40Y40*%\n%AMBOX*\n{}\nG0\n*\n%\nM02*\n", far);
    assert!(goes_through(text.as_bytes()));
    let text = format!("%FSLAX40Y40*%\n%AMBOX*1,1,1,0,0*%\n{}\nM02*\n", far);
    assert!(!is_parsable(text.as_bytes()));
    // A line that is no text ends a macro, or else the file.
    let mut bytes = b"%FSLAX46Y46*%\n\xff\n".to_vec();
    bytes.extend_from_slice(b"G0\n");
    assert!(!goes_through(&bytes));
    let mut bytes = b"%FSLAX46Y46*%\n%AMBOX*\n\xff\n".to_vec();
    assert!(!goes_through(&bytes));
    bytes.extend_from_slice(b"G0\n");
    assert!(!is_parsable(&bytes));
}

#[test]
fn attributes_that_lack_a_field() {
    for attribute in [
        "F.GenerationSoftware",
        "F.GenerationSoftware,KiCad",
        "F .GenerationSoftware , KiCad",
        "F.FileFunction,Legend",
        "F.FileFunction,Soldermask",
        "F.FileFunction,Carbonmask",
        "F.FileFunction,Goldmask",
        "F.FileFunction,Heatsinkmask",
        "F.FileFunction,Peelablemask",
        "F.FileFunction,Silvermask",
        "F.FileFunction, Tinmask",
        "O.P",
        "O.P,U1",
    ] {
        assert!(!is_parsable(format!("%T{}*%", attribute).as_bytes()), "{}", attribute);
        assert!(!is_parsable(format!("G04 #@! T{}*", attribute).as_bytes()), "{}", attribute);
        assert!(!is_parsable(format!("G04#@! T{}*", attribute).as_bytes()), "{}", attribute);
        assert!(is_parsable(format!("%T{}", attribute).as_bytes()), "{}", attribute);
        assert!(is_parsable(format!("G04 T{}*", attribute).as_bytes()), "{}", attribute);
    }
    for attribute in [
        "F.GenerationSoftware,KiCad,Pcbnew",
        "F.GenerationSoftware,KiCad,Pcbnew,(5.1.9)",
        "F.FileFunction,Legend,Top",
        "F.FileFunction,Paste",
        "F.FileFunction,Profile",
        "F.FileFunction",
        "F.Part",
        "F.SameCoordinates",
        "F.CreationDate",
        "F.ProjectId,a",
        "F",
        "O.P,U1,1",
        "O.N",
        "O.C",
        "O",
        "A.P",
        "A.AperFunction",
        "A.AperFunction,SMDPad",
        "D",
        "D.P",
    ] {
        let text = format!("%T{}*%\nG04 #@! T{}*\nM02*\n", attribute, attribute);
        assert!(is_parsable(text.as_bytes()), "{}", attribute);
        let r = GerberLayerData::<Mm>::from_type(LayerType::Top, text.as_bytes(), &document);
        assert!(matches!(r, Err(ParseError::FormatMissing(_))), "{}", attribute);
    }
}

#[test]
fn number_beyond_its_format_is_an_error_of_the_file() {
    let text = LINE.replace("X3000000", "X9223372036854775809");
    assert!(is_parsable(text.as_bytes()));
    let line = layer(&text);
    assert_eq!(line.parse_errors.len(), 1);
    assert_eq!(line.commands.len(), 3);
}

#[test]
fn attribute_names_the_type() {
    let text = LINE.replace("%MOMM*%", "%MOMM*%\n%TF.FileFunction,Copper,L1,Top*%");
    let named = GerberLayerData::from_commands(text.as_bytes(), &document);
    assert_eq!(named.map(|l| l.layer_type).ok(), Some(LayerType::Top));
    let text = LINE.replace("%MOMM*%", "%MOMM*%\n%TF.FileFunction,Legend,Bot*%");
    let named = GerberLayerData::from_commands(text.as_bytes(), &document);
    assert_eq!(named.map(|l| l.layer_type).ok(), Some(LayerType::SilkScreenBottom));
    let unnamed = GerberLayerData::from_commands(LINE.as_bytes(), &document);
    assert_eq!(unnamed.map(|l| l.layer_type).ok(), Some(LayerType::UndefinedGerber));
}

#[test]
fn board_keeps_layers_and_errors_apart() {
    let files = vec![
        ("a.gtl".to_string(), LINE.as_bytes().to_vec()),
        ("readme.txt.unknown".to_string(), Vec::new()),
        ("b.GBL".to_string(), b"%MOMM*%\nM02*\n".to_vec()),
        ("c.gbr".to_string(), LINE.as_bytes().to_vec()),
        ("d.drl".to_string(), b"M48\nMETRIC\nT1C0.8\n%\nT1\nX1.0Y2.0\nM30\n".to_vec()),
    ];
    let result = Board::load(files, &document);
    assert!(!result.is_ok());
    let names: Vec<(&str, LayerType)> =
        result.board.layers().iter().map(|l| (l.name.as_str(), l.ty)).collect();
    assert_eq!(
        names,
        vec![
            ("a.gtl", LayerType::Top),
            ("c.gbr", LayerType::UndefinedGerber),
            ("d.drl", LayerType::Drill),
        ]
    );
    assert_eq!(
        result.errors,
        vec![
            (
                "readme.txt.unknown".to_string(),
                Error::InvalidType("readme.txt.unknown".to_string()),
            ),
            (
                "b.GBL".to_string(),
                Error::ParseError(
                    ParseError::FormatMissing("gbr Copper Bottom Layer".to_string()),
                    "b.GBL".to_string(),
                ),
            ),
        ]
    );
    assert_eq!(
        result.errors[0].1.text(),
        "Cannot determine layer type for file: 'readme.txt.unknown'"
    );
    assert!(result.board.has_undefined());
    assert_eq!(result.board.get_undefined().len(), 1);
    assert!(result.board.get_layer(&LayerType::Drill).is_some());
    assert!(result.board.get_layer(&LayerType::Bottom).is_none());
    assert_box(result.board.get_corners(), (0.0, 0.0, 3.1, 2.4));
    assert!(Board::load(vec![("a.gtl".to_string(), LINE.as_bytes().to_vec())], &document).is_ok());
}

#[test]
fn file_that_cannot_be_opened() {
    let failed: Result<Vec<u8>, Error> = Err(Error::Io("permission denied".to_string()));
    match Board::parse_candidate("a.gtl".to_string(), LayerType::Top, failed, &document) {
        Err((name, e)) => {
            assert_eq!(name, "a.gtl");
            assert_eq!(e.text(), "IO error: permission denied");
        }
        Ok(_) => panic!("a layer without contents"),
    }
}

#[test]
fn parse_error_texts() {
    assert_eq!(
        ParseError::GerberParseError("x".to_string()).text(),
        "Failed to parse Gerber layer: x"
    );
    assert_eq!(
        ParseError::ExcellonParseError("x".to_string()).text(),
        "Failed to parse an Excellon layer: x"
    );
    assert_eq!(
        ParseError::TypeNotFound.text(),
        "Cannot determine layer type from file attributes"
    );
    assert_eq!(
        Error::ParseError(ParseError::TypeNotFound, "a.gbr".to_string()).text(),
        "Failed to parse 'a.gbr': Cannot determine layer type from file attributes"
    );
}

#[test]
fn names_are_recognised_by_their_extension() {
    assert_eq!(Board::<Mm>::recognise("board.gtl"), Some(LayerType::Top));
    assert_eq!(Board::<Mm>::recognise("board.rev.2.GTO"), Some(LayerType::SilkScreenTop));
    assert_eq!(Board::<Mm>::recognise("gbl"), Some(LayerType::Bottom));
    assert_eq!(Board::<Mm>::recognise("board.gtl.bak"), None);
    assert_eq!(LayerType::try_from("gl2"), Ok(LayerType::Inner(2)));
    assert_eq!(LayerType::try_from("drd"), Ok(LayerType::Drill));
    assert!(LayerType::try_from("exe").is_err());
}

#[test]
fn drill_layer_may_be_a_gerber_file() {
    match LayerData::parse(LayerType::Drill, LINE.as_bytes(), &document) {
        Ok((LayerType::Drill, LayerData::Gerber(l))) => {
            assert_eq!(l.layer_type, LayerType::Drill);
            assert_eq!(l.commands.len(), 4);
        }
        _ => panic!("no Gerber layer"),
    }
}

fn attribute(a: FileAttribute) -> Command<Mm> {
    Command::FunctionCode(FunctionCode::GCode(GCode::Comment(CommentContent::Standard(
        StandardComment::FileAttribute(a),
    ))))
}

#[test]
fn file_starts_with_its_attributes_and_ends() {
    let created = GerberDate { seconds: 1_000, nanoseconds: 5, offset_seconds: 0 };
    let line = layer(LINE);
    let mut expected = vec![
        Command::FunctionCode(FunctionCode::GCode(GCode::Comment(CommentContent::String(
            "ProAdm generated panel".to_string(),
        )))),
        attribute(FileAttribute::FileFunction(FileFunction::Copper {
            layer: 1,
            pos: ExtendedPosition::Top,
            copper_type: None,
        })),
        attribute(FileAttribute::CreationDate(created)),
        Command::FunctionCode(FunctionCode::GCode(GCode::QuadrantMode(QuadrantMode::Multi))),
        Command::ExtendedCode(ExtendedCode::Unit(Unit::Millimeters)),
        Command::ExtendedCode(ExtendedCode::CoordinateFormat(line.coordinate_format)),
        Command::ExtendedCode(ExtendedCode::LoadPolarity(Polarity::Dark)),
        Command::ExtendedCode(ExtendedCode::ImageName(ImageName { name: "gbr".to_string() })),
        Command::ExtendedCode(ExtendedCode::ApertureDefinition(ApertureDefinition {
            code: 10,
            aperture: Aperture::Circle(Circle { diameter: Mm(0.2), hole_diameter: None }),
        })),
    ];
    expected.extend(layer(LINE).commands);
    expected.push(Command::FunctionCode(FunctionCode::MCode(MCode::EndOfFile)));
    assert_eq!(line.to_commands_at(created), expected);
}

#[test]
fn written_file_says_when_it_was_created() {
    let seconds = std::time::SystemTime::now()
        .duration_since(std::time::UNIX_EPOCH)
        .map(|d| d.as_secs() as i64)
        .unwrap_or(0);
    let mut dates = Vec::new();
    for c in layer(LINE).to_commands() {
        match c {
            Command::FunctionCode(FunctionCode::GCode(GCode::Comment(
                CommentContent::Standard(StandardComment::FileAttribute(
                    FileAttribute::CreationDate(d),
                )),
            ))) => dates.push(d),
            _ => {}
        }
    }
    assert_eq!(dates.len(), 1);
    assert_eq!(dates[0].offset_seconds, 0);
    assert!((dates[0].seconds - seconds).abs() < 60);
}

#[test]
fn board_is_written_up_to_the_layer_that_cannot_be() {
    let mut board = Board::from(layer(LINE));
    board.add_layer(Layer {
        ty: LayerType::Info,
        name: "notes.txt".to_string(),
        data: LayerData::Info("two layers".to_string()),
    });
    let count = |c: &Vec<Command<Mm>>| -> Result<String, String> { Ok(format!("{}", c.len())) };
    let (files, outcome) = board.write_to(&count);
    assert_eq!(outcome, Ok(()));
    assert_eq!(files[0].0, "gtl");
    assert_eq!(files[0].1, format!("{}", layer(LINE).to_commands().len()));
    assert_eq!(files[1], ("notes.txt".to_string(), "two layers".to_string()));
    let fail = |_: &Vec<Command<Mm>>| -> Result<String, String> { Err("full".to_string()) };
    let (files, outcome) = board.write_to(&fail);
    assert_eq!(outcome, Err("full".to_string()));
    assert!(files.is_empty());
    let mut out = "before ".to_string();
    assert_eq!(layer(LINE).write_to(&mut out, &fail), Err("full".to_string()));
    assert_eq!(out, "before ");
}

#[test]
fn merged_apertures_get_free_numbers() {
    let mut a = layer(LINE);
    let b = layer(&LINE.replace("C,0.200000", "R,0.5X0.25"));
    a.merge(&b);
    assert_eq!(a.apertures.len(), 2);
    assert_eq!(
        a.apertures.get(11),
        Some(&Aperture::Rectangle(Rectangular { x: Mm(0.5), y: Mm(0.25), hole_diameter: None }))
    );
    assert_eq!(a.commands.len(), 8);
    assert_eq!(a.commands[4], select(11));
    let mut c = layer(LINE);
    c.merge(&layer(LINE));
    assert_eq!(c.apertures.len(), 1);
    assert_eq!(c.commands[4], select(10));
}

#[test]
fn commands_that_change_nothing_are_left_out() {
    let commands = vec![
        select(10),
        linear(),
        operation(Operation::Move(point(0, 0))),
        select(10),
        linear(),
        operation(Operation::Flash(point(1, 1))),
        select(11),
    ];
    let kept: Vec<&Command<Mm>> = Command::optimize(&commands);
    assert_eq!(
        kept,
        vec![&commands[0], &commands[1], &commands[2], &commands[5], &commands[6]]
    );
}

#[test]
fn layer_moves_scales_and_repeats() {
    let mut line = layer(LINE);
    line.transform(&Pos { x: Mm(1.5), y: Mm(-0.5) });
    assert_eq!(line.commands[2], operation(Operation::Move(point(1_500_000, -500_000))));
    line.transform(&Pos { x: Mm(-1.5), y: Mm(0.5) });
    assert_eq!(line.commands, layer(LINE).commands);
    line.scale(Mm(2.0), Mm(3.0));
    assert_eq!(
        line.commands[3],
        operation(Operation::Interpolate(point(6_000_000, 3_000_000), None))
    );
    let mut grid = layer(LINE);
    grid.step_and_repeat(2, 3, &Pos { x: Mm(10.0), y: Mm(20.0) });
    assert_eq!(grid.commands.len(), 7);
    assert_eq!(
        grid.commands[0],
        Command::ExtendedCode(ExtendedCode::StepAndRepeat(StepAndRepeat::Open {
            repeat_x: 2,
            repeat_y: 3,
            distance_x: Mm(10.0),
            distance_y: Mm(20.0),
        }))
    );
    assert_eq!(grid.commands[1..5], layer(LINE).commands[..]);
    assert_eq!(
        grid.commands[6],
        Command::ExtendedCode(ExtendedCode::StepAndRepeat(StepAndRepeat::Close))
    );
}

/// A font with one stroke for each character, from (0.5, 0) to (2.5, 3) of its row.
fn font_text() -> String {
    let mut text = "%FSLAX46Y46*%\n%MOMM*%\n%ADD10C,0.1*%\nD10*\nG01*\n".to_string();
    for row in 0..94 {
        let y = row as i64 * 9_657_700;
        text.push_str(&format!("X500000Y{}D02*\nX2500000Y{}D01*\n", y, y + 3_000_000));
    }
    text.push_str("X0Y0D02*\nM02*\n");
    text
}

fn font() -> Vec<Vec<Command<Mm>>> {
    let text = font_text();
    assert!(is_parsable(text.as_bytes()));
    load_font(text.as_bytes(), &document).unwrap_or_else(|| panic!("no font"))
}

#[test]
fn font_has_one_character_in_each_row() {
    let font = font();
    assert_eq!(font.len(), 94);
    for glyph in font.iter() {
        assert_eq!(glyph.len(), 2);
        assert!(matches!(
            glyph[0],
            Command::FunctionCode(FunctionCode::DCode(DCode::Operation(Operation::Move(_))))
        ));
        assert_box(
            rounded_box(commands_corners(&Unit::Millimeters, glyph)),
            (0.0, 0.0, 2.0, 3.0),
        );
    }
    assert_eq!(load_ascii(&layer(&font_text()).commands), font);
}

#[test]
fn file_without_a_font() {
    let high = "%FSLAX46Y46*%\n%MOMM*%\nX0Y960000000D02*\nX1Y960000000D01*\nX0Y0D02*\nM02*\n";
    assert!(load_font(high.as_bytes(), &document).is_none());
    assert!(load_font(&[0xffu8, 0x0a], &document).is_none());
}

#[test]
fn text_stands_on_its_anchor() {
    let font = font();
    let thin = AsciiText::new(Mm(3.0)).ratio(Mm(0.1));
    let text = thin.build("AB C", LayerType::SilkScreenTop, &font);
    assert_eq!(text.layer_type, LayerType::SilkScreenTop);
    assert_eq!(text.commands.len(), 8);
    // Three characters, 2 mm wide and 0.9 mm apart, with a space of 1.8 mm; a pen of 0.3 mm.
    assert_box(rounded_box(text.get_corners()), (0.0, 0.0, 9.75, 3.15));
    let centered = thin.h_align(HAlign::Center).v_align(VAlign::Middle);
    let text = centered.build("AB C", LayerType::SilkScreenTop, &font);
    assert_box(rounded_box(text.get_corners()), (-4.875, -1.575, 4.875, 1.575));
    let far = thin.h_align(HAlign::Right).v_align(VAlign::Top).ratio(Mm(0.2));
    let text = far.build("A\nB", LayerType::SilkScreenTop, &font);
    assert_box(rounded_box(text.get_corners()), (-2.3, -8.12885, 0.0, 0.0));
}

#[test]
fn lines_of_a_text_are_a_ratio_of_its_size() {
    let font = font();
    let pen = |format: AsciiText<Mm>| {
        let text = format.build("A", LayerType::SilkScreenTop, &font);
        text.apertures.get(10).cloned()
    };
    assert_eq!(
        pen(AsciiText::new(Mm(3.0))),
        Some(Aperture::Circle(Circle { diameter: Mm(3.0), hole_diameter: None }))
    );
    assert_eq!(
        pen(AsciiText::new(Mm(3.0)).ratio(Mm(0.5))),
        Some(Aperture::Circle(Circle { diameter: Mm(1.5), hole_diameter: None }))
    );
}

#[test]
fn quarter_turns() {
    assert_eq!(rotate_90(Mm(1.0), Mm(2.0), 0), (Mm(1.0), Mm(2.0)));
    assert_eq!(rotate_90(Mm(1.0), Mm(2.0), 1), (Mm(-2.0), Mm(1.0)));
    assert_eq!(rotate_90(Mm(1.0), Mm(2.0), 2), (Mm(-1.0), Mm(-2.0)));
    assert_eq!(rotate_90(Mm(1.0), Mm(2.0), -1), (Mm(2.0), Mm(-1.0)));
    let board = Board::from(layer(LINE));
    assert_eq!(board.rotation(8), None);
    let (steps, shift) = board.rotation(-3).unwrap_or_else(|| panic!("no turn"));
    assert_eq!(steps, 1);
    assert!(near(shift.x, 2.1) && near(shift.y, -1.0));
}

#[test]
fn box_of_a_board_leaves_some_layers_out() {
    let mut board = Board::from(layer(LINE));
    let mut far = layer(LINE);
    far.layer_type = LayerType::KeepOut;
    far.transform(&Pos { x: Mm(100.0), y: Mm(100.0) });
    board.add_layer(far);
    assert_eq!(board.layers().len(), 2);
    assert_box(board.get_corners(), (0.0, 0.0, 3.1, 1.1));
}

#[test]
fn same_type_is_merged_into_a_board() {
    let mut board = Board::from(layer(LINE));
    board.add_layer(layer(LINE));
    assert_eq!(board.layers().len(), 1);
    let other = Board::from(layer(LINE));
    board.merge(&other);
    match &board.layers()[0].data {
        LayerData::Gerber(g) => assert_eq!(g.commands.len(), 12),
        _ => panic!("no Gerber layer"),
    }
    board.comment("note".to_string());
    match &board.layers()[0].data {
        LayerData::Gerber(g) => assert_eq!(
            g.commands.last(),
            Some(&Command::FunctionCode(FunctionCode::GCode(GCode::Comment(
                CommentContent::String("note".to_string())
            ))))
        ),
        _ => panic!("no Gerber layer"),
    }
    board.transform(&Pos { x: Mm(1.0), y: Mm(1.0) });
    assert_box(board.get_corners(), (1.0, 1.0, 4.1, 2.1));
}

#[test]
fn files_of_one_type_become_one_layer() {
    let flash = "%FSLAX46Y46*%\n%MOMM*%\n%ADD10C,1.0*%\nD10*\nX0Y0D03*\nM02*\n";
    let files = vec![
        ("a.gtl".to_string(), flash.as_bytes().to_vec()),
        ("b.gtl".to_string(), flash.as_bytes().to_vec()),
    ];
    let result = Board::load(files, &document);
    assert!(result.is_ok());
    assert_eq!(result.board.layers().len(), 1);
    let top = &result.board.layers()[0];
    assert_eq!((top.ty, top.name.as_str()), (LayerType::Top, "a.gtl"));
    match &top.data {
        LayerData::Gerber(g) => assert_eq!(g.commands.len(), 4),
        _ => panic!("no Gerber layer"),
    }
}

#[test]
fn layers_that_cannot_be_merged_stay_apart() {
    let files = vec![
        ("a.drl".to_string(), b"M48\nMETRIC\nT1C0.8\n%\nT1\nX1.0Y2.0\nM30\n".to_vec()),
        ("b.drl".to_string(), LINE.as_bytes().to_vec()),
    ];
    let result = Board::load(files, &document);
    assert!(result.is_ok());
    let names: Vec<&str> = result.board.layers().iter().map(|l| l.name.as_str()).collect();
    assert_eq!(names, vec!["a.drl", "b.drl"]);
    assert!(matches!(result.board.layers()[1].data, LayerData::Gerber(_)));
    let again = Board::from(result.board.layers().to_vec());
    assert_eq!(again.layers().len(), 2);
}

#[test]
fn board_from_layers_has_each_type_once() {
    let named = |name: &str, ty: LayerType| Layer {
        ty,
        name: name.to_string(),
        data: LayerData::Gerber(layer(LINE)),
    };
    let board = Board::from(vec![
        named("a", LayerType::Top),
        named("b", LayerType::Bottom),
        named("c", LayerType::Top),
    ]);
    let names: Vec<&str> = board.layers().iter().map(|l| l.name.as_str()).collect();
    assert_eq!(names, vec!["a", "b"]);
    match &board.layers()[0].data {
        LayerData::Gerber(g) => assert_eq!(g.commands.len(), 8),
        _ => panic!("no Gerber layer"),
    }
}

#[test]
fn file_that_is_not_recognised_is_not_read() {
    let bytes = b"%TF.GenerationSoftware*%\n".to_vec();
    assert!(!is_parsable(&bytes));
    let result = Board::load(vec![("notes".to_string(), bytes)], &document);
    assert_eq!(
        result.errors,
        vec![("notes".to_string(), Error::InvalidType("notes".to_string()))]
    );
}

#[test]
fn center_of_a_straight_line_does_not_count() {
    let format = layer(LINE).coordinate_format;
    let center = Some(CoordinateOffset { x: nano(i64::MAX), y: nano(0), format });
    let mut drawing: GerberLayerData<Mm> = GerberLayerData::empty(LayerType::Top);
    drawing.unit = Unit::Inches;
    drawing.commands = vec![
        linear(),
        operation(Operation::Move(point(0, 0))),
        operation(Operation::Interpolate(point(1_000_000, 0), center)),
    ];
    assert!(drawing.is_bounded());
    assert_box(drawing.get_corners(), (0.0, 0.0, 25.4, 0.0));
    drawing.commands[0] = Command::FunctionCode(FunctionCode::GCode(GCode::InterpolationMode(
        InterpolationMode::ClockwiseCircular,
    )));
    assert!(!drawing.is_bounded());
    drawing.commands = vec![operation(Operation::Flash(point(i64::MAX, 0)))];
    assert!(!drawing.is_bounded());
}

#[test]
fn text_beyond_the_range_of_coordinates() {
    let font = font();
    let format = AsciiText::new(Mm(3.0));
    let built = format.build("A", LayerType::Top, &font);
    let tried = format.try_build("A", LayerType::Top, &font).unwrap_or_else(|| panic!("no text"));
    assert_eq!(tried.commands, built.commands);
    assert!(AsciiText::new(Mm(1e20)).try_build("A", LayerType::Top, &font).is_none());
    assert!(AsciiText::new(Mm(1e20)).try_build(" ", LayerType::Top, &font).is_some());
    assert!(format.try_build("A", LayerType::Top, &Vec::new()).is_none());
}
