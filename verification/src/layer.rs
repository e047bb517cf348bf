//! Layers of any kind.
use crate::error::ParseError;
use crate::excellon_format::{parse_excellon, ExcellonLayerData, ExcellonView};
use crate::gerber::load::{DocumentView, GerberDocument};
use crate::gerber::{GerberLayerData, GerberView};
use crate::gerber_types::Command;
pub use crate::layer_type::LayerType;
use crate::scalar::Scalar;
use crate::{LayerCorners, LayerMerge, LayerScale, LayerStepAndRepeat, LayerTransform, Pos};
use vstd::prelude::*;

verus! {

pub enum LayerData<N> {
    Gerber(GerberLayerData<N>),
    Excellon(ExcellonLayerData<N>),
    Info(String),
}

pub struct Layer<N> {
    pub ty: LayerType,
    pub name: String,
    pub data: LayerData<N>,
}

/// What a [`LayerData`] holds.
#[verifier::ext_equal]
pub ghost enum LayerDataView<N> {
    Gerber(GerberView<N>),
    Excellon(ExcellonView<N>),
    Info(Seq<char>),
}

/// What a [`Layer`] holds.
#[verifier::ext_equal]
pub ghost struct LayerView<N> {
    pub ty: LayerType,
    pub name: Seq<char>,
    pub data: LayerDataView<N>,
}

impl<N> View for LayerData<N> {
    type V = LayerDataView<N>;

    open spec fn view(&self) -> LayerDataView<N> {
        match *self {
            LayerData::Gerber(g) => LayerDataView::Gerber(g@),
            LayerData::Excellon(e) => LayerDataView::Excellon(e@),
            LayerData::Info(s) => LayerDataView::Info(s@),
        }
    }
}

impl<N> View for Layer<N> {
    type V = LayerView<N>;

    open spec fn view(&self) -> LayerView<N> {
        LayerView { ty: self.ty, name: self.name@, data: self.data@ }
    }
}

impl<N: Scalar> Clone for LayerData<N> {
    fn clone(&self) -> (r: Self)
        ensures
            r@ == self@,
    {
        match self {
            LayerData::Gerber(g) => LayerData::Gerber(g.clone()),
            LayerData::Excellon(e) => LayerData::Excellon(e.clone()),
            LayerData::Info(s) => LayerData::Info(s.clone()),
        }
    }
}

impl<N: Scalar> Clone for Layer<N> {
    fn clone(&self) -> (r: Self)
        ensures
            r@ == self@,
    {
        Layer { ty: self.ty, name: self.name.clone(), data: self.data.clone() }
    }
}

/// The drill layer that the bytes describe, if they do.
pub open spec fn drill_layer<N: Scalar>(bytes: Seq<u8>) -> Option<ExcellonView<N>> {
    if vstd::utf8::valid_utf8(bytes) {
        match crate::excellon_format::parse::parsed_layer::<N>(vstd::utf8::decode_utf8(bytes)) {
            Ok(v) => Some(v),
            Err(_) => None,
        }
    } else {
        None
    }
}

/// A file for type `ty` is an Excellon file, or one that can be parsed as a Gerber file.
pub open spec fn file_parsable<N: Scalar>(ty: LayerType, bytes: Seq<u8>) -> bool {
    (ty == LayerType::Drill && drill_layer::<N>(bytes) is Some) || crate::gerber::guard::parsable(
        bytes,
    )
}

/// The type of a layer that was read from a file for type `ty`. A layer without a type of its own
/// takes the one that its file names.
pub open spec fn read_type<N>(ty: LayerType, layer: GerberView<N>) -> LayerType {
    if ty == LayerType::UndefinedGerber {
        layer.layer_type
    } else {
        ty
    }
}

/// The layer that a document describes, for a file of type `ty`.
pub open spec fn read_document<N: Scalar>(ty: LayerType, doc: DocumentView<N>) -> Result<
    (LayerType, LayerDataView<N>),
    ParseError<Seq<char>>,
> {
    let named = if ty == LayerType::UndefinedGerber {
        crate::gerber::read::named_type(doc)
    } else {
        ty
    };
    match crate::gerber::load::loaded(named, doc) {
        Ok(layer) => Ok((read_type(ty, layer), LayerDataView::Gerber(layer))),
        Err(e) => Err(e),
    }
}

/// `outcome` is what the bytes of a file for type `ty` can be read as. A drill layer is an Excellon
/// file, or else a Gerber file like any other layer.
pub open spec fn readable_as<N: Scalar, R: Fn(gerber_parser::GerberDoc) -> GerberDocument<N>>(
    ty: LayerType,
    bytes: Seq<u8>,
    read: R,
    outcome: Result<(LayerType, LayerDataView<N>), ParseError<Seq<char>>>,
) -> bool {
    if ty == LayerType::Drill && drill_layer::<N>(bytes) is Some {
        outcome == Ok::<_, ParseError<Seq<char>>>(
            (ty, LayerDataView::Excellon(drill_layer::<N>(bytes)->0)),
        )
    } else {
        match crate::gerber::read::parse_failure(bytes) {
            Some(e) => outcome == Err::<(LayerType, LayerDataView<N>), _>(
                ParseError::GerberParseError(e),
            ),
            None => exists|doc: DocumentView<N>| #[trigger]
                crate::gerber::read::read_as(read, bytes, doc) && outcome == read_document(ty, doc),
        }
    }
}

pub open spec fn outcome_view<N>(r: Result<(LayerType, LayerData<N>), ParseError>) -> Result<
    (LayerType, LayerDataView<N>),
    ParseError<Seq<char>>,
> {
    match r {
        Ok((ty, data)) => Ok((ty, data@)),
        Err(e) => Err(e@),
    }
}

/// Every coordinate of a drill layer can be written.
pub open spec fn data_writable<N: Scalar>(v: LayerDataView<N>) -> bool {
    v matches LayerDataView::Excellon(e) ==> crate::excellon_format::write::layer_writable(e)
}

/// `text` is what the layer is written as.
pub open spec fn data_text<N: Scalar, E: Fn(&Vec<Command<N>>) -> Result<String, String>>(
    v: LayerDataView<N>,
    encode: E,
    text: Result<Seq<char>, Seq<char>>,
) -> bool {
    match v {
        LayerDataView::Gerber(g) => crate::gerber::output::encoded(g, encode, text),
        LayerDataView::Excellon(e) => text == Ok::<_, Seq<char>>(
            crate::excellon_format::write::layer_text(e),
        ),
        LayerDataView::Info(s) => text == Ok::<_, Seq<char>>(s),
    }
}

impl<N: Scalar> LayerData<N> {
    /// Reads a layer from the bytes of a file. `read` takes over a document that was parsed from
    /// them.
    pub fn parse<R: Fn(gerber_parser::GerberDoc) -> GerberDocument<N>>(
        ty: LayerType,
        bytes: &[u8],
        read: &R,
    ) -> (r: Result<(LayerType, LayerData<N>), ParseError>)
        requires
            crate::gerber::read::reads(*read),
            file_parsable::<N>(ty, bytes@),
        ensures
            readable_as(ty, bytes@, *read, outcome_view(r)),
    {
        match ty {
            LayerType::Drill => {
                if let Some(text) = crate::text::decode(bytes) {
                    if let Ok(data) = parse_excellon(text) {
                        return Ok((ty, LayerData::Excellon(data)));
                    }
                }
                match GerberLayerData::from_type(ty, bytes, read) {
                    Ok(layer) => Ok((ty, LayerData::Gerber(layer))),
                    Err(e) => Err(e),
                }
            },
            LayerType::UndefinedGerber => match GerberLayerData::from_commands(bytes, read) {
                Ok(layer) => Ok((layer.layer_type, LayerData::Gerber(layer))),
                Err(e) => Err(e),
            },
            _ => match GerberLayerData::from_type(ty, bytes, read) {
                Ok(layer) => Ok((ty, LayerData::Gerber(layer))),
                Err(e) => Err(e),
            },
        }
    }

    /// Writes the layer. `encode` turns the commands of a Gerber file into its text.
    pub fn write_to<E: Fn(&Vec<Command<N>>) -> Result<String, String>>(
        &self,
        out: &mut String,
        encode: &E,
    ) -> (r: Result<(), String>)
        requires
            crate::gerber::output::encodes(*encode),
            data_writable(self@),
        ensures
            match r {
                Ok(()) => exists|text: Seq<char>| #[trigger]
                    data_text(self@, *encode, Ok(text)) && final(out)@ == old(out)@ + text,
                Err(e) => data_text(self@, *encode, Err(e@)) && final(out)@ == old(out)@,
            },
    {
        match self {
            LayerData::Gerber(g) => {
                let r = g.write_to(out, encode);
                proof {
                    if r is Ok {
                        let text = choose|text: Seq<char>| #[trigger]
                            crate::gerber::output::encoded(g@, *encode, Ok(text)) && out@ == old(
                                out,
                            )@ + text;
                        assert(data_text(self@, *encode, Ok(text)));
                    }
                }
                r
            },
            LayerData::Excellon(e) => {
                e.write_to(out);
                assert(data_text(
                    self@,
                    *encode,
                    Ok(crate::excellon_format::write::layer_text(e@)),
                ));
                Ok(())
            },
            LayerData::Info(s) => {
                out.append(s.as_str());
                assert(data_text(self@, *encode, Ok(s@)));
                Ok(())
            },
        }
    }

    pub fn get_type(&self) -> (r: LayerType)
        ensures
            r == (match self@ {
                LayerDataView::Gerber(layer) => layer.layer_type,
                LayerDataView::Excellon(_) => LayerType::Drill,
                LayerDataView::Info(_) => LayerType::Info,
            }),
    {
        match self {
            LayerData::Gerber(layer) => layer.layer_type,
            LayerData::Excellon(_) => LayerType::Drill,
            LayerData::Info(_) => LayerType::Info,
        }
    }

    pub fn is_empty(&self) -> (r: bool)
        ensures
            r == (match self@ {
                LayerDataView::Gerber(layer) => layer.commands.len() == 0,
                LayerDataView::Excellon(layer) => forall|i: int|
                    0 <= i < layer.commands.len() ==> !crate::excellon_format::edit::is_hit(
                        #[trigger] layer.commands[i],
                    ),
                LayerDataView::Info(data) => data.len() == 0,
            }),
    {
        match self {
            LayerData::Gerber(layer) => layer.is_empty(),
            LayerData::Excellon(layer) => layer.is_empty(),
            LayerData::Info(data) => crate::text::chars_of(data.as_str()).len() == 0,
        }
    }
}

/// The layers are of one kind, and `other` can be merged into `v`.
pub open spec fn data_joins<N: Scalar>(v: LayerDataView<N>, other: LayerDataView<N>) -> bool {
    match (v, other) {
        (LayerDataView::Excellon(s), LayerDataView::Excellon(o)) => {
            crate::excellon_format::merge::layers_join(s, o)
        },
        (LayerDataView::Gerber(s), LayerDataView::Gerber(o)) => {
            crate::gerber::merge::layers_mergeable(s, o)
        },
        _ => false,
    }
}

impl<N: Scalar> LayerData<N> {
    /// Whether `other` can be merged into the layer.
    pub fn joins(&self, other: &Self) -> (r: bool)
        ensures
            r == data_joins(self@, other@),
            r ==> Self::mergeable(self@, other@),
    {
        match (self, other) {
            (LayerData::Excellon(s), LayerData::Excellon(o)) => s.joins(o),
            (LayerData::Gerber(s), LayerData::Gerber(o)) => s.joins(o),
            _ => false,
        }
    }
}

impl<N: Scalar> LayerMerge for LayerData<N> {
    open spec fn merged(v: LayerDataView<N>, other: LayerDataView<N>) -> LayerDataView<N> {
        match (v, other) {
            (LayerDataView::Excellon(s), LayerDataView::Excellon(o)) => LayerDataView::Excellon(
                ExcellonLayerData::<N>::merged(s, o),
            ),
            (LayerDataView::Gerber(s), LayerDataView::Gerber(o)) => LayerDataView::Gerber(
                GerberLayerData::<N>::merged(s, o),
            ),
            _ => v,
        }
    }

    open spec fn mergeable(v: LayerDataView<N>, other: LayerDataView<N>) -> bool {
        match (v, other) {
            (LayerDataView::Excellon(s), LayerDataView::Excellon(o)) => ExcellonLayerData::<
                N,
            >::mergeable(s, o),
            (LayerDataView::Gerber(s), LayerDataView::Gerber(o)) => GerberLayerData::<
                N,
            >::mergeable(s, o),
            _ => false,
        }
    }

    fn merge(&mut self, other: &Self) {
        match (self, other) {
            (LayerData::Excellon(s), LayerData::Excellon(o)) => {
                s.merge(o);
            },
            (LayerData::Gerber(s), LayerData::Gerber(o)) => {
                s.merge(o);
            },
            _ => {},
        }
    }
}

impl<N: Scalar> LayerTransform<N> for LayerData<N> {
    open spec fn transformed(v: LayerDataView<N>, by: Pos<N>) -> LayerDataView<N> {
        match v {
            LayerDataView::Excellon(s) => LayerDataView::Excellon(
                ExcellonLayerData::<N>::transformed(s, by),
            ),
            LayerDataView::Gerber(s) => LayerDataView::Gerber(
                GerberLayerData::<N>::transformed(s, by),
            ),
            LayerDataView::Info(s) => LayerDataView::Info(s),
        }
    }

    fn transform(&mut self, transform: &Pos<N>) {
        match self {
            LayerData::Excellon(s) => s.transform(transform),
            LayerData::Gerber(s) => s.transform(transform),
            LayerData::Info(_) => {},
        }
    }
}

impl<N: Scalar> LayerScale<N> for LayerData<N> {
    open spec fn scaled(v: LayerDataView<N>, x: N, y: N) -> LayerDataView<N> {
        match v {
            LayerDataView::Excellon(s) => LayerDataView::Excellon(
                ExcellonLayerData::<N>::scaled(s, x, y),
            ),
            LayerDataView::Gerber(s) => LayerDataView::Gerber(
                GerberLayerData::<N>::scaled(s, x, y),
            ),
            LayerDataView::Info(s) => LayerDataView::Info(s),
        }
    }

    open spec fn scalable(v: LayerDataView<N>, x: N, y: N) -> bool {
        match v {
            LayerDataView::Excellon(s) => ExcellonLayerData::<N>::scalable(s, x, y),
            LayerDataView::Gerber(s) => GerberLayerData::<N>::scalable(s, x, y),
            LayerDataView::Info(_) => true,
        }
    }

    fn scale(&mut self, x: N, y: N) {
        match self {
            LayerData::Excellon(s) => s.scale(x, y),
            LayerData::Gerber(s) => s.scale(x, y),
            LayerData::Info(_) => {},
        }
    }
}

impl<N: Scalar> LayerStepAndRepeat<N> for LayerData<N> {
    open spec fn repeated(
        v: LayerDataView<N>,
        x_repetitions: u32,
        y_repetitions: u32,
        offset: Pos<N>,
    ) -> LayerDataView<N> {
        match v {
            LayerDataView::Gerber(g) => LayerDataView::Gerber(
                GerberLayerData::<N>::repeated(g, x_repetitions, y_repetitions, offset),
            ),
            LayerDataView::Excellon(e) => LayerDataView::Excellon(
                ExcellonLayerData::<N>::repeated(e, x_repetitions, y_repetitions, offset),
            ),
            LayerDataView::Info(s) => LayerDataView::Info(s),
        }
    }

    open spec fn repeatable(
        v: LayerDataView<N>,
        x_repetitions: u32,
        y_repetitions: u32,
        offset: Pos<N>,
    ) -> bool {
        match v {
            LayerDataView::Gerber(g) => GerberLayerData::<N>::repeatable(
                g,
                x_repetitions,
                y_repetitions,
                offset,
            ),
            LayerDataView::Excellon(e) => ExcellonLayerData::<N>::repeatable(
                e,
                x_repetitions,
                y_repetitions,
                offset,
            ),
            LayerDataView::Info(_) => true,
        }
    }

    fn step_and_repeat(&mut self, x_repetitions: u32, y_repetitions: u32, offset: &Pos<N>) {
        match self {
            LayerData::Gerber(g) => {
                g.step_and_repeat(x_repetitions, y_repetitions, offset);
            },
            LayerData::Excellon(e) => {
                e.step_and_repeat(x_repetitions, y_repetitions, offset);
            },
            LayerData::Info(_) => {},
        }
    }
}

/// The box of a layer. Text takes no place.
pub open spec fn data_corners<N: Scalar>(v: LayerDataView<N>) -> (Pos<N>, Pos<N>) {
    match v {
        LayerDataView::Gerber(g) => crate::gerber::corners::layer_corners(g),
        LayerDataView::Excellon(e) => crate::excellon_format::corners::layer_corners(e),
        LayerDataView::Info(_) => crate::empty_box(),
    }
}

pub open spec fn data_bounded<N: Scalar>(v: LayerDataView<N>) -> bool {
    v matches LayerDataView::Gerber(g) ==> crate::gerber::corners::layer_fits(g)
}

impl<N: Scalar> LayerCorners<N> for LayerData<N> {
    open spec fn corners(&self) -> (Pos<N>, Pos<N>) {
        data_corners(self@)
    }

    open spec fn bounded(&self) -> bool {
        data_bounded(self@)
    }

    fn get_corners(&self) -> (r: (Pos<N>, Pos<N>)) {
        match self {
            LayerData::Gerber(g) => g.get_corners(),
            LayerData::Excellon(e) => e.get_corners(),
            LayerData::Info(_) => (
                Pos { x: N::highest(), y: N::highest() },
                Pos { x: N::lowest(), y: N::lowest() },
            ),
        }
    }
}

impl<N: Scalar> LayerCorners<N> for Layer<N> {
    open spec fn corners(&self) -> (Pos<N>, Pos<N>) {
        data_corners(self@.data)
    }

    open spec fn bounded(&self) -> bool {
        data_bounded(self@.data)
    }

    fn get_corners(&self) -> (r: (Pos<N>, Pos<N>)) {
        self.data.get_corners()
    }
}

impl<N: Scalar> From<GerberLayerData<N>> for LayerData<N> {
    fn from(value: GerberLayerData<N>) -> (r: LayerData<N>) {
        LayerData::Gerber(value)
    }
}

impl<N: Scalar> vstd::std_specs::convert::FromSpecImpl<GerberLayerData<N>> for LayerData<N> {
    open spec fn obeys_from_spec() -> bool {
        true
    }

    open spec fn from_spec(v: GerberLayerData<N>) -> LayerData<N> {
        LayerData::Gerber(v)
    }
}

impl<N: Scalar> From<ExcellonLayerData<N>> for LayerData<N> {
    fn from(value: ExcellonLayerData<N>) -> (r: LayerData<N>) {
        LayerData::Excellon(value)
    }
}

impl<N: Scalar> vstd::std_specs::convert::FromSpecImpl<ExcellonLayerData<N>> for LayerData<N> {
    open spec fn obeys_from_spec() -> bool {
        true
    }

    open spec fn from_spec(v: ExcellonLayerData<N>) -> LayerData<N> {
        LayerData::Excellon(v)
    }
}

impl<N: Scalar> From<Layer<N>> for LayerData<N> {
    fn from(layer: Layer<N>) -> (r: LayerData<N>) {
        layer.data
    }
}

impl<N: Scalar> vstd::std_specs::convert::FromSpecImpl<Layer<N>> for LayerData<N> {
    open spec fn obeys_from_spec() -> bool {
        true
    }

    open spec fn from_spec(v: Layer<N>) -> LayerData<N> {
        v.data
    }
}

impl<'a, N: Scalar> From<&'a Layer<N>> for LayerData<N> {
    fn from(layer: &'a Layer<N>) -> (r: LayerData<N>)
        ensures
            r@ == layer@.data,
    {
        layer.data.clone()
    }
}

impl<'a, N: Scalar> vstd::std_specs::convert::FromSpecImpl<&'a Layer<N>> for LayerData<N> {
    open spec fn obeys_from_spec() -> bool {
        false
    }

    open spec fn from_spec(v: &'a Layer<N>) -> LayerData<N> {
        v.data
    }
}

impl<N: Scalar> From<GerberLayerData<N>> for Layer<N> {
    /// Wraps a [`GerberLayerData`] in a [`Layer`].
    ///
    /// The `name` is set to the default file extension for the layer type
    /// (e.g. `"gto"` for `SilkScreenTop`). Override `layer.name` afterwards
    /// if a specific filename is needed.
    fn from(data: GerberLayerData<N>) -> (r: Layer<N>)
        ensures
            r@ == (LayerView {
                ty: data@.layer_type,
                name: data@.layer_type.extension_spec(),
                data: LayerDataView::Gerber(data@),
            }),
    {
        Layer {
            name: data.layer_type.extension(),
            ty: data.layer_type,
            data: LayerData::Gerber(data),
        }
    }
}

impl<N: Scalar> vstd::std_specs::convert::FromSpecImpl<GerberLayerData<N>> for Layer<N> {
    open spec fn obeys_from_spec() -> bool {
        false
    }

    open spec fn from_spec(v: GerberLayerData<N>) -> Layer<N> {
        vstd::pervasive::arbitrary()
    }
}

impl<N: Scalar> From<ExcellonLayerData<N>> for Layer<N> {
    /// Wraps an [`ExcellonLayerData`] in a [`Layer`].
    ///
    /// The `name` is set to `"drl"`. Override `layer.name` afterwards if a
    /// specific filename is needed.
    fn from(data: ExcellonLayerData<N>) -> (r: Layer<N>)
        ensures
            r@ == (LayerView {
                ty: LayerType::Drill,
                name: "drl"@,
                data: LayerDataView::Excellon(data@),
            }),
    {
        Layer {
            name: LayerType::Drill.file_ending().to_string(),
            ty: LayerType::Drill,
            data: LayerData::Excellon(data),
        }
    }
}

impl<N: Scalar> vstd::std_specs::convert::FromSpecImpl<ExcellonLayerData<N>> for Layer<N> {
    open spec fn obeys_from_spec() -> bool {
        false
    }

    open spec fn from_spec(v: ExcellonLayerData<N>) -> Layer<N> {
        vstd::pervasive::arbitrary()
    }
}

} // verus!
