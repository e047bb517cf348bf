use lib_gerber_edit::board::Board;
use lib_gerber_edit::excellon_format::parse_excellon;
use lib_gerber_edit::excellon_format::{
    Command, ExcellonError, ExcellonLayerData, ExcellonParseFormat, UnitDefinition, ZeroSuppression,
};
use lib_gerber_edit::fixed::Fixed;
use lib_gerber_edit::gerber::arc::angle_in_arc;
use lib_gerber_edit::gerber::load::GerberDocument;
use lib_gerber_edit::gerber::macros::Macros;
use lib_gerber_edit::gerber::optimize::Optimize;
use lib_gerber_edit::gerber::GerberLayerData;
use lib_gerber_edit::gerber_ascii::{load_ascii, AsciiText, HAlign, VAlign};
use lib_gerber_edit::gerber_types as gerber;
use lib_gerber_edit::gerber_types::{
    Aperture, ApertureMacro, Circle, CoordinateFormat, CoordinateMode, CoordinateNumber,
    CoordinateOffset, Coordinates, DCode, FunctionCode, GCode, GerberDate, InterpolationMode,
    MacroContent, Operation, QuadrantMode, Rectangular, Unit, ZeroOmission,
};
use lib_gerber_edit::layer::{Layer, LayerData, LayerType};
use lib_gerber_edit::scalar::Scalar;
use lib_gerber_edit::table::Table;
use lib_gerber_edit::{
    rotate_90, LayerCorners, LayerMerge, LayerScale, LayerStepAndRepeat, LayerTransform, Pos, Size,
};

/// Thousandths of a millimetre.
fn um(n: i64) -> Fixed {
    Fixed { raw: n * 1_000_000 }
}

fn at(x: i64, y: i64) -> Pos<Fixed> {
    Pos { x: um(x), y: um(y) }
}

fn drills(text: &str) -> ExcellonLayerData<Fixed> {
    parse_excellon(text).unwrap_or_else(|e| panic!("{}", e.text()))
}

fn text_of(layer: &ExcellonLayerData<Fixed>) -> String {
    assert!(layer.is_writable());
    let mut text = String::new();
    layer.write_to(&mut text);
    text
}

fn hits(layer: &ExcellonLayerData<Fixed>) -> Vec<(Option<Fixed>, Option<Fixed>)> {
    layer
        .commands
        .iter()
        .filter_map(|c| match c {
            Ok(Command::Coordinate(x, y, _)) => Some((*x, *y)),
            _ => None,
        })
        .collect()
}

fn same_drills(a: &ExcellonLayerData<Fixed>, b: &ExcellonLayerData<Fixed>) -> bool {
    a.header == b.header
        && a.commands == b.commands
        && a.unit == b.unit
        && a.tools.len() == b.tools.len()
        && (0..a.tools.len()).all(|i| {
            a.tools.key_at(i) == b.tools.key_at(i) && a.tools.value_at(i) == b.tools.value_at(i)
        })
}

const DRILLS: &str = "M48\n\
                      FMAT,2\n\
                      METRIC,TZ,000.000\n\
                      T1C0.800\n\
                      T2C1.200\n\
                      %\n\
                      G90\n\
                      G05\n\
                      T1\n\
                      X1000Y2000\n\
                      X-500\n\
                      T2\n\
                      X12345Y67\n\
                      X1000Y1000G85X4000Y1000\n\
                      ;done\n\
                      M30\n";

#[test]
fn written_drills_are_read_back() {
    let layer = drills(DRILLS);
    let text = text_of(&layer);
    let again = drills(&text);
    assert!(same_drills(&layer, &again));
    assert_eq!(text_of(&again), text);
}

#[test]
fn written_number_is_read_back() {
    let fmt = UnitDefinition {
        unit: Unit::Millimeters,
        ty: ZeroSuppression::Leading,
        leading: 3,
        trailing: 3,
        decimal: false,
    };
    for n in [0, 1, -1, 200, 12_340, -999_999] {
        let text = fmt.serialize(um(n));
        assert_eq!(fmt.parse_num(&text), Some(um(n)), "{}", text);
        let trailing = UnitDefinition { ty: ZeroSuppression::Trailing, ..fmt };
        assert_eq!(trailing.parse_num(&trailing.serialize(um(n))), Some(um(n)));
        let decimal = UnitDefinition { decimal: true, ..fmt };
        assert_eq!(decimal.parse_num(&decimal.serialize(um(n))), Some(um(n)));
    }
    assert_eq!(fmt.serialize(um(12_340)), "01234");
    assert_eq!(fmt.serialize(Fixed { raw: 1_500_000 }), "000002");
}

#[test]
fn drills_move_there_and_back() {
    let mut layer = drills(DRILLS);
    layer.transform(&at(10_000, -2_500));
    assert_eq!(
        hits(&layer),
        vec![
            (Some(um(11_000)), Some(um(-500))),
            (Some(um(9_500)), None),
            (Some(um(22_345)), Some(um(-2_433))),
        ]
    );
    layer.transform(&at(-10_000, 2_500));
    assert!(same_drills(&layer, &drills(DRILLS)));
}

#[test]
fn drill_moves_add_up() {
    let mut two = drills(DRILLS);
    two.transform(&at(1_000, 200));
    two.transform(&at(30, -4));
    let mut one = drills(DRILLS);
    one.transform(&at(1_030, 196));
    assert!(same_drills(&one, &two));
}

#[test]
fn box_of_drills_moves_with_them() {
    let mut layer = drills(DRILLS);
    let (min, max) = layer.get_corners();
    assert_eq!((min, max), (at(-900, -533), at(12_945, 2_400)));
    layer.transform(&at(5, 7));
    assert_eq!(layer.get_corners(), (at(-895, -526), at(12_950, 2_407)));
    assert_eq!(layer.get_size(), Size { width: um(13_845), height: um(2_933) });
}

#[test]
fn scaled_by_one_nothing_changes() {
    let one = Fixed::ratio(1, 1);
    let mut layer = drills(DRILLS);
    layer.scale(one, one);
    assert!(same_drills(&layer, &drills(DRILLS)));
    let mut layer = square(3_000);
    layer.scale(one, one);
    assert_eq!(layer.commands, square(3_000).commands);
}

#[test]
fn scaled_drills() {
    let mut layer = drills(DRILLS);
    layer.scale(Fixed::ratio(2, 1), Fixed::ratio(-1, 2));
    assert_eq!(hits(&layer)[0], (Some(um(2_000)), Some(um(-1_000))));
}

#[test]
fn merged_drills_keep_their_tools() {
    let mut layer = drills(DRILLS);
    let other = drills("M48\nMETRIC\nT1C1.2\nT2C3.0\n%\nG90\nT1\nX1.0Y1.0\nT2\nX5.0Y5.0\nM30\n");
    let boxes = (layer.get_corners(), other.get_corners());
    layer.merge(&other);
    assert_eq!(layer.tools.len(), 3);
    assert_eq!(layer.tools.get(1), Some(&um(800)));
    assert_eq!(layer.tools.get(2), Some(&um(1_200)));
    assert_eq!(layer.tools.get(3), Some(&um(3_000)));
    assert_eq!(hits(&layer).len(), 5);
    let selected: Vec<u32> = layer
        .commands
        .iter()
        .filter_map(|c| match c {
            Ok(Command::Tool(id)) => Some(*id),
            _ => None,
        })
        .collect();
    assert_eq!(selected, vec![1, 2, 3]);
    let (min, max) = layer.get_corners();
    assert_eq!(min.x, boxes.0 .0.x.lower(boxes.1 .0.x));
    assert_eq!(min.y, boxes.0 .0.y.lower(boxes.1 .0.y));
    assert_eq!(max.x, boxes.0 .1.x.higher(boxes.1 .1.x));
    assert_eq!(max.y, boxes.0 .1.y.higher(boxes.1 .1.y));
    assert_eq!(max, at(12_945, 6_500));
}

#[test]
fn inches_are_merged_into_millimetres() {
    let mut layer = drills("M48\nMETRIC\nT1C1.0\n%\nG90\nT1\nX1.0Y1.0\nM30\n");
    let other = drills("M48\nINCH\nT1C0.1\n%\nG90\nT1\nX1.0Y1.0\nM30\n");
    layer.merge(&other);
    assert_eq!(layer.tools.get(2), Some(&um(2_540)));
}

#[test]
fn grid_drills_each_hit_in_each_cell() {
    let mut layer = drills(DRILLS);
    layer.step_and_repeat(3, 2, &at(20_000, 30_000));
    assert_eq!(hits(&layer).len(), 18);
    assert!(hits(&layer).contains(&(Some(um(41_000)), Some(um(32_000)))));
    let mut once = drills(DRILLS);
    once.step_and_repeat(1, 1, &at(20_000, 30_000));
    assert!(same_drills(&once, &drills(DRILLS)));
}

#[test]
fn selected_tools_are_defined() {
    let layer = drills(DRILLS);
    for command in &layer.commands {
        if let Ok(Command::Tool(id)) = command {
            assert!(layer.tools.contains_key(*id));
        }
    }
    let r = parse_excellon::<Fixed>("M48\nMETRIC\nT1C1\n%\nT2\nM30\n");
    assert!(matches!(r, Err(ExcellonError::InvalidToolNumber(2))));
}

fn body_error(line: &str) -> ExcellonParseFormat {
    let mut layer = drills(&format!("M48\nMETRIC\n%\n{}\nM30\n", line));
    match layer.commands.remove(0) {
        Err(e) => e,
        Ok(c) => panic!("{:?}", c),
    }
}

fn words(line: &str) -> String {
    let e = body_error(line);
    assert_eq!(e.line, 3);
    assert_eq!(e.text(), format!("Excellon parse error at line 3: {}", line));
    e.source.text()
}

#[test]
fn lines_that_are_not_understood() {
    assert_eq!(words("ICI,MAYBE"), "Invalid CIC format: ,MAYBE");
    assert_eq!(words("Q1"), "Invalid command format: Q1");
    assert_eq!(words("M"), "Invalid command format: M");
    assert_eq!(words("Fast"), "Invalid command format: Fast");
    assert_eq!(words("G5"), "Invalid command format: G5");
    assert_eq!(words("T"), "Invalid tool definition: T");
    assert_eq!(words("X1.Y2"), "Invalid coordinate format: X1.Y2");
    assert_eq!(words("METRIC,XX"), "Invalid unit definition");
    assert_eq!(words("G99"), "Invalid geometric code: 99");
    assert_eq!(words("M99"), "Invalid machine code: 99");
    assert_eq!(words("FMAT,"), "Failed to parse version number");
    assert_eq!(words("G04"), "Does not start with `G04X`");
}

#[test]
fn files_that_are_no_programs() {
    let text = |t: &str| parse_excellon::<Fixed>(t).err().map(|e| e.text());
    assert_eq!(text("M30\n"), Some("Missing header-start marker (M48)".to_string()));
    assert_eq!(text("M48\n%\n"), Some("Missing end-of-program marker (M30)".to_string()));
    assert_eq!(text("M48\nM30\n"), Some("Missing header-end marker (M95/%)".to_string()));
    assert_eq!(text("M48\n%\nT7\nM30\n"), Some("Invalid tool number: 7".to_string()));
    assert_eq!(text(";first\nM48\n%\nM30\n;last\n"), None);
}

#[test]
fn coordinate_before_its_unit() {
    let layer = drills("M48\n%\nX1Y1\nM30\n");
    match &layer.commands[0] {
        Err(e) => {
            assert_eq!(e.source, ExcellonError::CoordinateBeforeUnit);
            assert_eq!(e.source.text(), "Coordinate used before unit declaration");
        }
        Ok(c) => panic!("{:?}", c),
    }
}

#[test]
fn other_words() {
    assert_eq!(
        ExcellonError::FloatParse("x".to_string()).text(),
        "Failed to parse floating number: x"
    );
    assert_eq!(ExcellonError::IntParse("x".to_string()).text(), "Failed to parse number: x");
    assert_eq!(at(1_000, -2_500).text(), "x: 1.000, y: -2.500");
    assert_eq!(Size { width: um(1), height: um(0) }.text(), "width: 0.001, height: 0.000");
}

// Gerber layers.

const FORMAT: CoordinateFormat = CoordinateFormat {
    zero_omission: ZeroOmission::Leading,
    coordinate_mode: CoordinateMode::Absolute,
    integer: 4,
    decimal: 6,
};

fn number(n: i64) -> Option<CoordinateNumber> {
    Some(CoordinateNumber { nano: n * 1_000 })
}

fn point(x: i64, y: i64) -> Option<Coordinates> {
    Some(Coordinates { x: number(x), y: number(y), format: FORMAT })
}

fn operation(op: Operation) -> gerber::Command<Fixed> {
    gerber::Command::FunctionCode(FunctionCode::DCode(DCode::Operation(op)))
}

fn select(id: i32) -> gerber::Command<Fixed> {
    gerber::Command::FunctionCode(FunctionCode::DCode(DCode::SelectAperture(id)))
}

fn mode(mode: InterpolationMode) -> gerber::Command<Fixed> {
    gerber::Command::FunctionCode(FunctionCode::GCode(GCode::InterpolationMode(mode)))
}

/// A square with its lower left corner at the origin, drawn with a pen of 0.2 mm.
fn square(side: i64) -> GerberLayerData<Fixed> {
    let mut layer = GerberLayerData::empty(LayerType::Top);
    layer
        .apertures
        .insert(10, Aperture::Circle(Circle { diameter: um(200), hole_diameter: None }));
    layer.commands = vec![
        select(10),
        mode(InterpolationMode::Linear),
        operation(Operation::Move(point(0, 0))),
        operation(Operation::Interpolate(point(side, 0), None)),
        operation(Operation::Interpolate(point(side, side), None)),
        operation(Operation::Interpolate(point(0, side), None)),
        operation(Operation::Interpolate(point(0, 0), None)),
    ];
    layer
}

#[test]
fn layer_moves_there_and_back() {
    let mut layer = square(3_000);
    layer.transform(&at(1_234, -567));
    assert_eq!(layer.commands[4], operation(Operation::Interpolate(point(4_234, 2_433), None)));
    layer.transform(&at(-1_234, 567));
    assert_eq!(layer.commands, square(3_000).commands);
}

#[test]
fn layer_moves_add_up() {
    let mut two = square(3_000);
    two.transform(&at(100, 200));
    two.transform(&at(-30, 4));
    let mut one = square(3_000);
    one.transform(&at(70, 204));
    assert_eq!(one.commands, two.commands);
}

#[test]
fn box_of_a_layer_moves_with_it() {
    let mut layer = square(3_000);
    assert_eq!(layer.get_corners(), (at(-100, -100), at(3_100, 3_100)));
    layer.transform(&at(50, -50));
    assert_eq!(layer.get_corners(), (at(-50, -150), at(3_150, 3_050)));
}

#[test]
fn box_holds_a_full_circle() {
    let mut layer = square(3_000);
    layer.commands = vec![
        select(10),
        mode(InterpolationMode::ClockwiseCircular),
        operation(Operation::Move(point(5_000, 0))),
        operation(Operation::Interpolate(
            point(5_000, 0),
            Some(CoordinateOffset { x: number(-5_000), y: number(0), format: FORMAT }),
        )),
    ];
    assert_eq!(layer.get_corners(), (at(-5_100, -5_100), at(5_100, 5_100)));
}

#[test]
fn merged_layers_keep_their_apertures() {
    let mut layer = square(3_000);
    let mut other = square(1_000);
    other.apertures.insert(
        20,
        Aperture::Rectangle(Rectangular { x: um(400), y: um(600), hole_diameter: None }),
    );
    other.commands.push(select(20));
    other.commands.push(operation(Operation::Flash(point(9_000, 9_000))));
    layer.merge(&other);
    assert_eq!(layer.apertures.len(), 2);
    assert_eq!(layer.apertures.get(10), square(1).apertures.get(10));
    assert_eq!(layer.apertures.get(11), other.apertures.get(20));
    assert_eq!(layer.commands.len(), 16);
    assert_eq!(layer.commands[14], select(11));
    assert_eq!(layer.get_corners(), (at(-100, -100), at(9_200, 9_300)));
}

#[test]
fn optimized_commands_keep_their_effect() {
    let quadrant: gerber::Command<Fixed> =
        gerber::Command::FunctionCode(FunctionCode::GCode(GCode::QuadrantMode(QuadrantMode::Multi)));
    let commands = vec![
        select(10),
        quadrant.clone(),
        select(10),
        mode(InterpolationMode::Linear),
        operation(Operation::Move(point(0, 0))),
        mode(InterpolationMode::Linear),
        quadrant.clone(),
        select(11),
        select(10),
    ];
    let once: Vec<gerber::Command<Fixed>> =
        gerber::Command::optimize(&commands).into_iter().cloned().collect();
    assert_eq!(
        once,
        vec![
            select(10),
            quadrant,
            mode(InterpolationMode::Linear),
            operation(Operation::Move(point(0, 0))),
            select(11),
            select(10),
        ]
    );
    let twice: Vec<gerber::Command<Fixed>> =
        gerber::Command::optimize(&once).into_iter().cloned().collect();
    assert_eq!(once, twice);
}

#[test]
fn written_layer_is_read_back() {
    let layer = square(3_000);
    let created = GerberDate { seconds: 0, nanoseconds: 0, offset_seconds: 0 };
    let mut apertures = Table::new();
    apertures.insert(10, Aperture::Circle(Circle { diameter: um(200), hole_diameter: None }));
    let document = GerberDocument {
        units: Some(Unit::Millimeters),
        format_specification: Some(FORMAT),
        apertures,
        commands: layer.to_commands_at(created).into_iter().map(Ok).collect(),
    };
    assert_eq!(document.named_type(), LayerType::Top);
    match GerberLayerData::new(LayerType::Top, document) {
        Ok(again) => {
            assert_eq!(again.layer_type, LayerType::Top);
            assert_eq!(again.coordinate_format, FORMAT);
            assert_eq!(again.commands, layer.commands);
            assert_eq!(again.apertures.get(10), layer.apertures.get(10));
            assert!(again.macros.is_empty() && again.parse_errors.is_empty());
        }
        Err(e) => panic!("{}", e.text()),
    }
}

fn all_types() -> Vec<LayerType> {
    vec![
        LayerType::Top,
        LayerType::Bottom,
        LayerType::Inner(3),
        LayerType::PasteTop,
        LayerType::PasteBottom,
        LayerType::MaskTop,
        LayerType::MaskBottom,
        LayerType::SilkScreenTop,
        LayerType::SilkScreenBottom,
        LayerType::Drill,
        LayerType::Dimensions,
        LayerType::Milling,
        LayerType::VCut,
        LayerType::SidePlating,
        LayerType::KeepOut,
        LayerType::Info,
        LayerType::UndefinedGerber,
    ]
}

#[test]
fn extension_names_the_type() {
    for ty in all_types() {
        let named = LayerType::try_from(ty.extension().as_str());
        if ty == LayerType::Info {
            assert!(named.is_err());
        } else {
            assert_eq!(named, Ok(ty));
            assert_eq!(LayerType::try_from(ty.extension().to_uppercase().as_str()), Ok(ty));
        }
    }
}

#[test]
fn function_names_the_type() {
    for ty in all_types() {
        let named = LayerType::layer_type(&ty.function());
        if ty == LayerType::UndefinedGerber {
            assert_eq!(named, LayerType::Info);
        } else {
            assert_eq!(named, ty);
        }
    }
}

// Boards.

fn board() -> Board<Fixed> {
    let mut board = Board::from(square(3_000));
    board.add_layer(drills(DRILLS));
    board.add_layer(Layer {
        ty: LayerType::Info,
        name: "notes.txt".to_string(),
        data: LayerData::Info("notes".to_string()),
    });
    board
}

fn gerber_of(board: &Board<Fixed>) -> &GerberLayerData<Fixed> {
    match board.get_layer(&LayerType::Top) {
        Some(Layer { data: LayerData::Gerber(g), .. }) => g,
        _ => panic!("no top layer"),
    }
}

#[test]
fn board_moves_there_and_back() {
    let mut board = board();
    let (min, max) = board.get_corners();
    assert_eq!((min, max), (at(-900, -533), at(12_945, 3_100)));
    board.transform(&at(100_000, -100_000));
    assert_eq!(board.get_corners(), (at(99_100, -100_533), at(112_945, -96_900)));
    board.transform(&at(-100_000, 100_000));
    assert_eq!(board.get_corners(), (min, max));
    assert_eq!(gerber_of(&board).commands, square(3_000).commands);
}

#[test]
fn box_of_a_panel_holds_both_boards() {
    let mut panel = Board::from(square(3_000));
    panel.add_layer(drills(DRILLS));
    let size = panel.get_size();
    let mut copy = panel.clone();
    copy.transform(&Pos { x: size.width.plus(um(2_000)), y: um(0) });
    let (first, second) = (panel.get_corners(), copy.get_corners());
    panel.merge(&copy);
    assert_eq!(panel.get_corners(), (first.0, second.1));
    assert_eq!(panel.get_size(), Size { width: um(29_690), height: size.height });
}

#[test]
fn board_has_each_type_once() {
    let mut board = board();
    board.add_layer(square(1_000));
    board.add_layer(drills(DRILLS));
    let types: Vec<LayerType> = board.layers().iter().map(|l| l.ty).collect();
    assert_eq!(types, vec![LayerType::Top, LayerType::Drill, LayerType::Info]);
    assert_eq!(gerber_of(&board).commands.len(), 14);
    let mut other = square(1_000);
    other.layer_type = LayerType::Bottom;
    board.merge(&Board::from(other));
    assert_eq!(board.layers().len(), 3);
    assert!(board.get_layer(&LayerType::Bottom).is_none());
}

#[test]
fn converted_layers_are_named_by_their_extension() {
    let names: Vec<String> = board().layers().iter().map(|l| l.name.clone()).collect();
    assert_eq!(names, vec!["gtl", "drl", "notes.txt"]);
}

#[test]
fn board_can_be_changed_layer_by_layer() {
    let mut board = board();
    if let Some(layer) = board.get_layer_mut(&LayerType::Top) {
        layer.ty = LayerType::UndefinedGerber;
    }
    assert!(board.has_undefined());
    for layer in board.get_undefined_mut() {
        layer.ty = LayerType::Bottom;
    }
    assert!(!board.has_undefined());
    board.layers_mut()[1].name = "holes.drl".to_string();
    assert_eq!(board.layers()[1].name, "holes.drl");
    board.comment("panel".to_string());
    match &board.layers()[1].data {
        LayerData::Excellon(e) => {
            assert_eq!(e.commands.last(), Some(&Ok(Command::Comment("panel".to_string()))))
        }
        _ => panic!("no drill layer"),
    }
}

#[test]
fn turns_add_up() {
    for a in -5..5 {
        for b in -5..5 {
            let (x, y) = rotate_90(um(3), um(-7), a);
            assert_eq!(rotate_90(x, y, b), rotate_90(um(3), um(-7), a + b));
        }
    }
}

#[test]
fn middle_of_a_board_stays() {
    let board = Board::from(square(3_000));
    let (steps, shift) = board.rotation(5).unwrap_or_else(|| panic!("no turn"));
    assert_eq!(steps, 1);
    let (x, y) = rotate_90(um(1_500), um(1_500), steps);
    assert_eq!((x.plus(shift.x), y.plus(shift.y)), (um(1_500), um(1_500)));
    assert_eq!(board.rotation(-4), None);
}

#[test]
fn kinds_of_layers() {
    let info: LayerData<Fixed> = LayerData::Info(String::new());
    assert!(info.is_empty());
    assert_eq!(info.get_type(), LayerType::Info);
    assert_eq!(LayerData::from(square(1)).get_type(), LayerType::Top);
    assert_eq!(LayerData::from(drills(DRILLS)).get_type(), LayerType::Drill);
    assert!(!LayerData::from(drills(DRILLS)).is_empty());
    assert!(drills("M48\n%\nM30\n").is_empty());
}

#[test]
fn fixed_numbers() {
    assert_eq!(Fixed::ratio(2, 3), Fixed { raw: 666_666_667 });
    assert_eq!(um(1_500).times(um(-2_000)), um(-3_000));
    assert_eq!(um(1_000).over(um(8_000)), um(125));
    assert_eq!(Fixed::highest().plus(um(1)), Fixed::highest());
    assert_eq!(um(-1_000).remainder(um(3_000)), um(2_000));
    assert_eq!(Fixed::norm(um(3_000), um(-4_000)), um(5_000));
    assert_eq!(um(1_500).to_nano(), Some(1_500_000));
    assert_eq!(um(-2_345).text(2), "-2.35");
    assert_eq!(Fixed::parsed("-12.5", 1), Some(um(-1_250)));
    assert_eq!(Fixed::parsed("x", 0), None);
    assert_eq!(um(300_000).to_u8(), 255);
}

#[test]
fn drills_that_were_read_are_read_again() {
    let layer = drills(
        "M48\nINCH\nMETRIC,TZ,000.000\nT2C1.2\nT1C0.8\nM95\nT1\nG01X1000Y2000\nT1C0.9\nT2\n\
         X500\n;note\nM72\nG85X1000\nM30\n;end\n",
    );
    let again = drills(&text_of(&layer));
    assert_eq!(layer.commands, again.commands);
    assert_eq!(layer.commands.len(), 11);
    assert_eq!(layer.unit, again.unit);
    for tools in [&layer.tools, &again.tools] {
        assert_eq!(tools.len(), 2);
        assert_eq!(tools.get(1), Some(&um(900)));
        assert_eq!(tools.get(2), Some(&um(1_200)));
    }
}

#[test]
fn anchor_between_two_coordinates() {
    let mut commands = Vec::new();
    for row in 0..94 {
        let y = row * 9_657_700;
        commands.push(operation(Operation::Move(Some(Coordinates {
            x: Some(CoordinateNumber { nano: 500_000 }),
            y: Some(CoordinateNumber { nano: y }),
            format: FORMAT,
        }))));
        commands.push(operation(Operation::Interpolate(
            Some(Coordinates {
                x: Some(CoordinateNumber { nano: 2_500_000 }),
                y: Some(CoordinateNumber { nano: y + 3_000_000 }),
                format: FORMAT,
            }),
            None,
        )));
    }
    commands.push(operation(Operation::Move(point(0, 0))));
    let font = load_ascii(&commands);
    let format = AsciiText::new(Fixed { raw: 1_234_567_891 }).ratio(Fixed { raw: 333_333_333 });
    for h in [HAlign::Left, HAlign::Center, HAlign::Right] {
        for v in [VAlign::Bottom, VAlign::Middle, VAlign::Top] {
            let text = format.h_align(h).v_align(v).build("A b\nc", LayerType::Top, &font);
            let (min, max) = text.get_corners();
            let x = match h {
                HAlign::Left => 2 * min.x.raw,
                HAlign::Center => min.x.raw + max.x.raw,
                HAlign::Right => 2 * max.x.raw,
            };
            let y = match v {
                VAlign::Bottom => 2 * min.y.raw,
                VAlign::Middle => min.y.raw + max.y.raw,
                VAlign::Top => 2 * max.y.raw,
            };
            assert!(x.abs() < 2_000 && y.abs() < 2_000, "{} {}", x, y);
        }
    }
}

#[test]
fn macro_takes_the_place_of_one_of_its_name() {
    let named = |name: &str, note: &str| -> ApertureMacro<Fixed> {
        ApertureMacro {
            name: name.to_string(),
            content: vec![MacroContent::Comment(note.to_string())],
        }
    };
    let mut macros = Macros::new();
    assert!(macros.is_empty());
    macros.insert(named("BOX", "old"));
    macros.insert(named("RING", "ring"));
    macros.insert(named("BOX", "new"));
    assert_eq!(macros.len(), 2);
    assert_eq!(macros.item(0), &named("BOX", "new"));
    assert_eq!(macros.get(&"RING".to_string()), Some(&named("RING", "ring")));
    assert_eq!(macros.get(&"DISC".to_string()), None);
}

#[test]
fn clockwise_is_counter_clockwise_with_the_ends_swapped() {
    let deg = |n: i64| -> Fixed { Fixed::ratio(n * 314_159_265, 180 * 100_000_000) };
    for (s, e, a) in [(0, 90, 45), (0, 90, 135), (300, 30, 0), (10, 10, 200)] {
        let inside =
            |s: i64, e: i64, mode: InterpolationMode| angle_in_arc(deg(s), deg(e), deg(a), mode);
        let clockwise = inside(s, e, InterpolationMode::ClockwiseCircular);
        assert_eq!(clockwise, inside(e, s, InterpolationMode::CounterclockwiseCircular));
        assert!(!inside(s, e, InterpolationMode::Linear));
        assert!(inside(s, s, InterpolationMode::ClockwiseCircular));
        assert!(inside(s, s, InterpolationMode::CounterclockwiseCircular));
    }
}

#[test]
fn numbers_with_an_exponent() {
    let tool = |diameter: &str| {
        let text = format!("M48\nMETRIC\nT1C{}\n%\nT1\nX1.0\nM30\n", diameter);
        match parse_excellon::<Fixed>(&text) {
            Ok(layer) => layer.tools.get(1).copied(),
            Err(_) => None,
        }
    };
    assert_eq!(tool("1e-1"), Some(um(100)));
    assert_eq!(tool("1.5E+1"), Some(um(15_000)));
    assert_eq!(tool("-2.5e0"), Some(um(-2_500)));
    assert_eq!(tool(".25e1"), Some(um(2_500)));
    assert_eq!(tool("12e-10"), Some(Fixed { raw: 1 }));
    assert_eq!(tool("1e-99999999999999999999"), Some(um(0)));
    assert_eq!(tool("0e99999999999999999999"), Some(um(0)));
    assert_eq!(tool("1e99999999999999999999"), Some(Fixed::highest()));
    assert_eq!(tool("-1e30"), Some(Fixed::lowest()));
    assert_eq!(tool("inf"), Some(Fixed::highest()));
    assert_eq!(tool("-Infinity"), Some(Fixed::lowest()));
    assert_eq!(tool("1e"), None);
    assert_eq!(tool("NaN"), None);
    assert_eq!(tool("0.8"), Some(um(800)));
}

#[test]
fn layer_is_added_as_it_is() {
    let mut board: Board<Fixed> = Board::empty();
    let layer = Layer {
        ty: LayerType::Bottom,
        name: "b".to_string(),
        data: LayerData::Gerber(square(1_000)),
    };
    board.add_layer(layer.clone());
    assert_eq!(board.layers().len(), 1);
    assert_eq!((board.layers()[0].ty, board.layers()[0].name.as_str()), (layer.ty, "b"));
    let other = Board::from(layer);
    assert_eq!(other.layers()[0].name, "b");
}
