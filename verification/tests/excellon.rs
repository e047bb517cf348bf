use lib_gerber_edit::excellon_format::parse_excellon;
use lib_gerber_edit::excellon_format::{
    Command, CutterComp, ExcellonError, ExcellonLayerData, GeometricCode, MachineCode,
    UnitDefinition, ZeroSuppression,
};
use lib_gerber_edit::gerber_types::Unit;
use lib_gerber_edit::scalar::{Count, Scalar, Text};
use lib_gerber_edit::{LayerCorners, LayerScale};

/// Lengths as machine floating-point numbers.
#[derive(Clone, Copy, Debug, PartialEq)]
struct Mm(f64);

impl Scalar for Mm {
    fn zero() -> Self {
        Mm(0.0)
    }
    fn highest() -> Self {
        Mm(f64::MAX)
    }
    fn lowest() -> Self {
        Mm(f64::MIN)
    }
    fn plus(self, other: Self) -> Self {
        Mm(self.0 + other.0)
    }
    fn minus(self, other: Self) -> Self {
        Mm(self.0 - other.0)
    }
    fn times(self, other: Self) -> Self {
        Mm(self.0 * other.0)
    }
    fn over(self, other: Self) -> Self {
        Mm(self.0 / other.0)
    }
    fn negated(self) -> Self {
        Mm(-self.0)
    }
    fn remainder(self, modulus: Self) -> Self {
        Mm(self.0.rem_euclid(modulus.0))
    }
    fn less(self, other: Self) -> bool {
        self.0 < other.0
    }
    fn same(self, other: Self) -> bool {
        self.0 == other.0
    }
    fn close(self, other: Self) -> bool {
        (self.0 - other.0).abs() < 1e-10
    }
    fn lower(self, other: Self) -> Self {
        Mm(self.0.min(other.0))
    }
    fn higher(self, other: Self) -> Self {
        Mm(self.0.max(other.0))
    }
    fn ratio(num: i64, den: i64) -> Self {
        Mm(num as f64 / den as f64)
    }
    fn count(n: u64) -> Self {
        Mm(n as f64)
    }
    fn from_nano(nano: i64) -> Self {
        Mm(nano as f64 / 1_000_000.0)
    }
    fn to_nano(self) -> Option<i64> {
        let scaled = self.0 * 1_000_000.0;
        if !self.0.is_finite() || scaled > i64::MAX as f64 || scaled < i64::MIN as f64 {
            return None;
        }
        Some(scaled as i64)
    }
    fn parsed(text: &str, places: u8) -> Option<Self> {
        let number = text.parse::<f64>().ok()?;
        Some(Mm(number / 10f64.powi(places as i32)))
    }
    fn rounded(self, places: u8) -> (bool, u64) {
        let number = (self.0 * (10i32.pow(places as u32) as f64)).round();
        (number < 0.0, number.abs() as isize as u64)
    }
    fn text(self, places: u8) -> String {
        format!("{:.*}", places as usize, self.0)
    }
    fn to_u8(self) -> u8 {
        self.0 as u8
    }
    fn norm(x: Self, y: Self) -> Self {
        Mm((x.0 * x.0 + y.0 * y.0).sqrt())
    }
    fn angle(y: Self, x: Self) -> Self {
        Mm(y.0.atan2(x.0))
    }
    fn half_turn() -> Self {
        Mm(std::f64::consts::PI)
    }
    fn quarter_turn() -> Self {
        Mm(std::f64::consts::FRAC_PI_2)
    }

    // These are for proofs alone and are never called.

    fn zero_spec() -> Self {
        unreachable!()
    }

    fn highest_spec() -> Self {
        unreachable!()
    }

    fn lowest_spec() -> Self {
        unreachable!()
    }

    fn plus_spec(self, _: Self) -> Self {
        unreachable!()
    }

    fn minus_spec(self, _: Self) -> Self {
        unreachable!()
    }

    fn times_spec(self, _: Self) -> Self {
        unreachable!()
    }

    fn over_spec(self, _: Self) -> Self {
        unreachable!()
    }

    fn negated_spec(self) -> Self {
        unreachable!()
    }

    fn remainder_spec(self, _: Self) -> Self {
        unreachable!()
    }

    fn less_spec(self, _: Self) -> bool {
        unreachable!()
    }

    fn same_spec(self, _: Self) -> bool {
        unreachable!()
    }

    fn close_spec(self, _: Self) -> bool {
        unreachable!()
    }

    fn lower_spec(self, _: Self) -> Self {
        unreachable!()
    }

    fn higher_spec(self, _: Self) -> Self {
        unreachable!()
    }

    fn ratio_spec(_: i64, _: i64) -> Self {
        unreachable!()
    }

    fn count_spec(_: u64) -> Self {
        unreachable!()
    }

    fn from_nano_spec(_: i64) -> Self {
        unreachable!()
    }

    fn to_nano_spec(self) -> Option<i64> {
        unreachable!()
    }

    fn parsed_spec(_: Text, _: Count) -> Option<Self> {
        unreachable!()
    }

    fn rounded_spec(self, _: Count) -> (bool, u64) {
        unreachable!()
    }

    fn text_spec(self, _: Count) -> Text {
        unreachable!()
    }

    fn to_u8_spec(self) -> u8 {
        unreachable!()
    }

    fn norm_spec(_: Self, _: Self) -> Self {
        unreachable!()
    }

    fn angle_spec(_: Self, _: Self) -> Self {
        unreachable!()
    }

    fn half_turn_spec() -> Self {
        unreachable!()
    }

    fn quarter_turn_spec() -> Self {
        unreachable!()
    }
}

fn read(raw: &str) -> ExcellonLayerData<Mm> {
    parse_excellon(raw).unwrap_or_else(|e| panic!("{:?}", e))
}

fn coordinates(data: &ExcellonLayerData<Mm>) -> Vec<(Option<f64>, Option<f64>)> {
    data.commands
        .iter()
        .filter_map(|c| match c {
            Ok(Command::Coordinate(x, y, _)) => Some((x.map(|v| v.0), y.map(|v| v.0))),
            _ => None,
        })
        .collect()
}

#[test]
fn test_decimal_coords_xnc() {
    let raw = "M48\n\
               METRIC\n\
               T01C0.6\n\
               %\n\
               G05\n\
               T01\n\
               X9.01Y3.3375\n\
               X-1.5Y2\n\
               M30\n";
    let data = read(raw);
    assert!(data.unit.decimal);
    assert_eq!(data.unit.unit, Unit::Millimeters);
    assert_eq!(
        coordinates(&data),
        vec![(Some(9.01), Some(3.3375)), (Some(-1.5), Some(2.0))]
    );
}

#[test]
fn test_routing_program() {
    // G-codes packed with coordinates, cutter compensation, feed rate,
    // router up/down, a canned-cycle switch and a G85 slot.
    let raw = "M48\n\
               FMAT,1\n\
               INCH,TZ,00.0000\n\
               T04C0.0787\n\
               %\n\
               T04\n\
               G00X111Y3114\n\
               G41\n\
               F059\n\
               M15\n\
               G01Y9019\n\
               X10938\n\
               M17\n\
               G81\n\
               X30784Y24630G85X30896Y24443\n\
               M30\n";
    let data = read(raw);
    for cmd in &data.header {
        assert!(cmd.is_ok());
    }
    for cmd in &data.commands {
        assert!(cmd.is_ok());
    }
    let count = |pred: fn(&Command<Mm>) -> bool| {
        data.commands
            .iter()
            .filter(|c| c.as_ref().is_ok_and(pred))
            .count()
    };
    // `G00X111Y3114` and `G01Y9019` each split into a mode + a coordinate.
    assert_eq!(count(|c| matches!(c, Command::Coordinate(..))), 3);
    assert_eq!(count(|c| matches!(c, Command::Slot { .. })), 1);
    assert_eq!(count(|c| matches!(c, Command::FeedRate(_))), 1);
    assert!(data
        .commands
        .iter()
        .any(|c| matches!(c, Ok(Command::Machine(MachineCode::RouterDown)))));
    assert!(data.commands.iter().any(|c| matches!(
        c,
        Ok(Command::Geometric(GeometricCode::CutterCompensation(
            CutterComp::Left
        )))
    )));
    // Round-trip: G00 must serialize without a placeholder coordinate.
    let mut serialized = String::new();
    data.write_to(&mut serialized);
    assert!(serialized.contains("G00\n"), "G00 missing: {serialized}");
    assert!(
        !serialized.contains("G00X"),
        "G00 still carries a stub coord: {serialized}"
    );
}

#[test]
fn test_scale() {
    let raw = "M48\n\
               METRIC\n\
               T01C0.6\n\
               %\n\
               G05\n\
               T01\n\
               X2Y3\n\
               M30\n";
    let mut data = read(raw);
    data.scale(Mm(2.0), Mm(3.0));
    assert_eq!(coordinates(&data), vec![(Some(4.0), Some(9.0))]);
}

#[test]
fn test_get_corners() {
    let raw = "M48\n\
               METRIC\n\
               T01C2.0\n\
               %\n\
               G05\n\
               T01\n\
               X0Y0\n\
               X10Y5\n\
               M30\n";
    let data = read(raw);
    let (min, max) = data.get_corners();
    // Tool radius 1.0mm expands the hull around (0,0) and (10,5).
    assert_eq!((min.x, min.y), (Mm(-1.0), Mm(-1.0)));
    assert_eq!((max.x, max.y), (Mm(11.0), Mm(6.0)));
}

#[test]
fn test_serialize_no_float_noise() {
    // Decimal (XNC) mode: float noise must not leak into output.
    let dec = UnitDefinition {
        decimal: true,
        ..UnitDefinition::default_for(Unit::Millimeters)
    };
    assert_eq!(dec.serialize(Mm(0.1 + 0.2)), "0.3");
    assert_eq!(dec.serialize(Mm(3.3375)), "3.3375");
    assert_eq!(dec.serialize(Mm(-1.5)), "-1.5");
    assert_eq!(dec.serialize(Mm(2.0)), "2");

    // Fixed-point mode rounds rather than truncates.
    let fmt = UnitDefinition {
        leading: 3,
        trailing: 3,
        ty: ZeroSuppression::Leading,
        unit: Unit::Millimeters,
        decimal: false,
    };
    // 0.2 * 1000 = 199.9999… must round to 200 ("0002" -> trim -> "0002"? LZ trims trailing)
    assert_eq!(
        fmt.parse_num::<Mm>(&fmt.serialize(Mm(0.2))).unwrap(),
        Mm(0.2)
    );
    assert_eq!(
        fmt.parse_num::<Mm>(&fmt.serialize(Mm(12.34))).unwrap(),
        Mm(12.34)
    );
}

#[test]
fn test_unit_defaults() {
    let inch = UnitDefinition::default_for(Unit::Inches);
    assert_eq!((inch.leading, inch.trailing), (2, 4));
    assert_eq!(inch.ty, ZeroSuppression::Leading);
    let mm = UnitDefinition::default_for(Unit::Millimeters);
    assert_eq!((mm.leading, mm.trailing), (3, 3));
    assert_eq!(mm.ty, ZeroSuppression::Leading);
}

#[test]
fn test_missing_header_start() {
    let raw = "METRIC\nM30\n";
    let result = parse_excellon::<Mm>(raw);
    assert!(matches!(result, Err(ExcellonError::MissingHeaderStart)));
}

#[test]
fn test_missing_end_of_program() {
    let raw = "M48\nMETRIC\n%\nG05\n";
    let result = parse_excellon::<Mm>(raw);
    assert!(matches!(result, Err(ExcellonError::MissingEndOfProgram)));
}

#[test]
fn test_leading_trailing() {
    let fmt = UnitDefinition {
        leading: 3,
        trailing: 3,
        ty: ZeroSuppression::Leading,
        unit: Unit::Millimeters,
        decimal: false,
    };
    let num = Mm(12.34);
    let serialized = fmt.serialize(num);
    assert_eq!(serialized, "01234");
    assert_eq!(fmt.parse_num(&serialized), Some(num));
    let num = Mm(-12.34);
    let serialized = fmt.serialize(num);
    assert_eq!(serialized, "-01234");
    assert_eq!(fmt.parse_num(&serialized), Some(num));
    let fmt = UnitDefinition {
        leading: 3,
        trailing: 3,
        ty: ZeroSuppression::Trailing,
        unit: Unit::Millimeters,
        decimal: false,
    };
    let num = Mm(12.34);
    let serialized = fmt.serialize(num);
    assert_eq!(serialized, "12340");
    assert_eq!(fmt.parse_num(&serialized), Some(num));
    let num = Mm(-12.34);
    let serialized = fmt.serialize(num);
    assert_eq!(serialized, "-12340");
    assert_eq!(fmt.parse_num(&serialized), Some(num));
}
