//! RS-274X layers.
pub mod arc;
pub mod corners;
pub mod edit;
pub mod guard;
pub mod load;
pub mod macros;
pub mod merge;
pub mod optimize;
pub mod output;
pub mod read;

use crate::gerber::macros::Macros;
use crate::gerber_types::{
    Aperture, ApertureMacroView, ApertureView, Command, CommandView, CoordinateFormat,
    CoordinateMode, Unit, ZeroOmission,
};
use crate::layer_type::LayerType;
use crate::scalar::Scalar;
use crate::table;
use crate::table::Table;
use vstd::prelude::*;

verus! {

/// A parsed RS-274X (Extended Gerber) layer, split into its logical components.
pub struct GerberLayerData<N> {
    /// Logical role of this layer (copper top, silkscreen bottom, …).
    pub layer_type: LayerType,
    /// Integer/decimal digit counts used to encode coordinates in the file.
    pub coordinate_format: CoordinateFormat,
    /// Draw commands stripped of header/footer boilerplate.
    pub commands: Vec<Command<N>>,
    /// Working unit (`Millimeters` after construction).
    pub unit: Unit,
    /// Aperture macros by their names.
    pub macros: Macros<N>,
    /// Aperture definitions keyed by D-code number.
    pub apertures: Table<i32, Aperture<N>>,
    /// Non-fatal errors encountered during parsing, formatted as human-readable strings.
    pub parse_errors: Vec<String>,
}

/// What a [`GerberLayerData`] holds.
#[verifier::ext_equal]
pub ghost struct GerberView<N> {
    pub layer_type: LayerType,
    pub coordinate_format: CoordinateFormat,
    pub commands: Seq<CommandView<N>>,
    pub unit: Unit,
    pub macros: Seq<ApertureMacroView<N>>,
    pub apertures: Seq<(i32, ApertureView<N>)>,
    pub parse_errors: Seq<Seq<char>>,
}

pub open spec fn aperture_views<N>(s: Seq<(i32, Aperture<N>)>) -> Seq<(i32, ApertureView<N>)> {
    table::mapped(s, |a: Aperture<N>| a@)
}

pub open spec fn texts(s: Seq<String>) -> Seq<Seq<char>> {
    s.map_values(|t: String| t@)
}

impl<N> View for GerberLayerData<N> {
    type V = GerberView<N>;

    open spec fn view(&self) -> GerberView<N> {
        GerberView {
            layer_type: self.layer_type,
            coordinate_format: self.coordinate_format,
            commands: crate::gerber_types::views(self.commands@),
            unit: self.unit,
            macros: self.macros@,
            apertures: aperture_views(self.apertures@),
            parse_errors: texts(self.parse_errors@),
        }
    }
}

pub open spec fn format_4_6() -> CoordinateFormat {
    CoordinateFormat {
        zero_omission: ZeroOmission::Leading,
        coordinate_mode: CoordinateMode::Absolute,
        integer: 4,
        decimal: 6,
    }
}

pub open spec fn empty_layer<N>(layer_type: LayerType) -> GerberView<N> {
    GerberView {
        layer_type,
        coordinate_format: format_4_6(),
        commands: Seq::empty(),
        unit: Unit::Millimeters,
        macros: Seq::empty(),
        apertures: Seq::empty(),
        parse_errors: Seq::empty(),
    }
}

pub fn clone_apertures<N: Copy>(t: &Table<i32, Aperture<N>>) -> (r: Table<i32, Aperture<N>>)
    ensures
        aperture_views(r@) == aperture_views(t@),
{
    let f = |a: &Aperture<N>| -> (b: Aperture<N>)
        ensures
            b@ == a@,
        { a.clone() };
    let r = t.map(f);
    assert(aperture_views(r@) =~= aperture_views(t@));
    r
}

impl<N: Scalar> Clone for GerberLayerData<N> {
    fn clone(&self) -> (r: Self)
        ensures
            r@ == self@,
    {
        let parse_errors = self.parse_errors.clone();
        assert(texts(parse_errors@) =~= texts(self.parse_errors@));
        GerberLayerData {
            layer_type: self.layer_type,
            coordinate_format: self.coordinate_format,
            commands: crate::gerber_types::clone_commands(&self.commands),
            unit: self.unit,
            macros: self.macros.clone(),
            apertures: clone_apertures(&self.apertures),
            parse_errors,
        }
    }
}

impl<N: Scalar> GerberLayerData<N> {
    /// Creates an empty gerber layer
    pub fn empty(layer_type: LayerType) -> (r: Self)
        ensures
            r@ == empty_layer::<N>(layer_type),
    {
        let r = GerberLayerData {
            layer_type,
            coordinate_format: CoordinateFormat::new(
                ZeroOmission::Leading,
                CoordinateMode::Absolute,
                4,
                6,
            ),
            commands: Vec::new(),
            unit: Unit::Millimeters,
            macros: Macros::new(),
            apertures: Table::new(),
            parse_errors: Vec::new(),
        };
        assert(r@ =~= empty_layer::<N>(layer_type));
        r
    }

    /// Checks if layer is empty
    pub fn is_empty(&self) -> (r: bool)
        ensures
            r == (self@.commands.len() == 0),
    {
        self.commands.len() == 0
    }
}

} // verus!
