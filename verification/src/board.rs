//! Boards: layers that belong together.
use crate::error::{Error, ParseError};
use crate::excellon_format::{ExcellonLayerData, ExcellonView};
use crate::gerber::load::GerberDocument;
use crate::gerber::{GerberLayerData, GerberView};
use crate::gerber_types::{Command, CommentContent, FunctionCode, GCode};
use crate::layer::{Layer, LayerData, LayerDataView, LayerType, LayerView};
use crate::scalar::Scalar;
use crate::{LayerCorners, LayerMerge, LayerScale, LayerStepAndRepeat, LayerTransform, Pos};
use vstd::prelude::*;

verus! {

/// `From` of the standard library for a type and itself: the value is handed back as it is.
pub assume_specification<Same>[ <Same as std::convert::From<Same>>::from ](t: Same) -> (r: Same)
    ensures
        r == t,
;

/// A complete PCB stackup: an ordered collection of [`Layer`]s of any type.
///
/// Layers are identified by their [`LayerType`]; each type may appear at most
/// once, unless its layers cannot be merged. Use [`Board::add_layer`] to insert
/// or merge a layer, and [`LayerMerge::merge`] to combine two boards that share
/// the same layer set.
pub struct Board<N> {
    layers: Vec<Layer<N>>,
}

pub open spec fn layer_views<N>(s: Seq<Layer<N>>) -> Seq<LayerView<N>> {
    s.map_values(|l: Layer<N>| l@)
}

impl<N> Board<N> {
    /// The layers.
    pub closed spec fn content(&self) -> Seq<Layer<N>> {
        self.layers@
    }
}

impl<N> View for Board<N> {
    type V = Seq<LayerView<N>>;

    open spec fn view(&self) -> Seq<LayerView<N>> {
        layer_views(self.content())
    }
}

impl<N: Scalar> Clone for Board<N> {
    fn clone(&self) -> (r: Self)
        ensures
            r@ == self@,
    {
        let layers = self.layers.clone();
        assert(layer_views(layers@) =~= layer_views(self.layers@));
        Board { layers }
    }
}

/// The place of the first layer of type `ty`, or the number of layers.
pub open spec fn layer_place<N>(s: Seq<LayerView<N>>, ty: LayerType) -> nat
    decreases s.len(),
{
    if s.len() == 0 || s[0].ty == ty {
        0
    } else {
        1 + layer_place(s.skip(1), ty)
    }
}

/// The first layer of type `ty`.
pub open spec fn layer_of<N>(s: Seq<LayerView<N>>, ty: LayerType) -> Option<LayerView<N>> {
    let p = layer_place(s, ty) as int;
    if p < s.len() {
        Some(s[p])
    } else {
        None
    }
}

/// The layers with `layer` among them: merged into the first one of its type, or else at the end.
pub open spec fn with_layer<N: Scalar>(s: Seq<LayerView<N>>, layer: LayerView<N>) -> Seq<
    LayerView<N>,
> {
    let p = layer_place(s, layer.ty) as int;
    if p < s.len() {
        s.update(p, LayerView { data: LayerData::<N>::merged(s[p].data, layer.data), ..s[p] })
    } else {
        s.push(layer)
    }
}

/// The layer can be merged into the one of its type, if there is one.
pub open spec fn addable<N: Scalar>(s: Seq<LayerView<N>>, layer: LayerView<N>) -> bool {
    layer_of(s, layer.ty) matches Some(l) ==> LayerData::<N>::mergeable(l.data, layer.data)
}

/// There is no layer of its type, or one that the layer can be merged into.
pub open spec fn joinable<N: Scalar>(s: Seq<LayerView<N>>, layer: LayerView<N>) -> bool {
    layer_of(s, layer.ty) matches Some(l) ==> crate::layer::data_joins(l.data, layer.data)
}

/// The layers with `layer` among them: merged into the first one of its type, or at the end where
/// there is none that it can be merged into.
pub open spec fn joined<N: Scalar>(s: Seq<LayerView<N>>, layer: LayerView<N>) -> Seq<
    LayerView<N>,
> {
    if joinable(s, layer) {
        with_layer(s, layer)
    } else {
        s.push(layer)
    }
}

/// The layers one by one on a board.
pub open spec fn gathered<N: Scalar>(s: Seq<LayerView<N>>) -> Seq<LayerView<N>>
    decreases s.len(),
{
    if s.len() == 0 {
        Seq::empty()
    } else {
        joined(gathered(s.drop_last()), s.last())
    }
}

/// Every layer can be merged into the one of its type that stands before it, if there is one.
pub open spec fn all_join<N: Scalar>(s: Seq<LayerView<N>>) -> bool {
    forall|i: int| 0 <= i < s.len() ==> joinable(gathered(s.take(i)), #[trigger] s[i])
}

/// A layer with a comment behind its commands. Text has no comments.
pub open spec fn commented<N>(v: LayerDataView<N>, txt: Seq<char>) -> LayerDataView<N> {
    match v {
        LayerDataView::Gerber(g) => LayerDataView::Gerber(
            GerberView {
                commands: g.commands.push(
                    Command::FunctionCode(
                        FunctionCode::GCode(GCode::Comment(CommentContent::String(txt))),
                    ),
                ),
                ..g
            },
        ),
        LayerDataView::Excellon(e) => LayerDataView::Excellon(
            ExcellonView {
                commands: e.commands.push(Ok(crate::excellon_format::Command::Comment(txt))),
                ..e
            },
        ),
        LayerDataView::Info(s) => LayerDataView::Info(s),
    }
}

/// The layers with a function applied to the data of each.
pub open spec fn on_data<N>(
    s: Seq<LayerView<N>>,
    f: spec_fn(LayerDataView<N>) -> LayerDataView<N>,
) -> Seq<LayerView<N>> {
    s.map_values(|l: LayerView<N>| LayerView { data: f(l.data), ..l })
}

/// The layers of type `UndefinedGerber`.
pub open spec fn undefined_layers<N>(s: Seq<LayerView<N>>) -> Seq<LayerView<N>> {
    s.filter(|l: LayerView<N>| l.ty == LayerType::UndefinedGerber)
}

fn comment_layer<N: Scalar>(data: &mut LayerData<N>, txt: &String)
    ensures
        final(data)@ == commented(old(data)@, txt@),
{
    match data {
        LayerData::Gerber(g) => {
            let ghost before = g@;
            g.commands.push(
                Command::FunctionCode(
                    FunctionCode::GCode(GCode::Comment(CommentContent::String(txt.clone()))),
                ),
            );
            assert(g@.commands =~= before.commands.push(
                Command::FunctionCode(
                    FunctionCode::GCode(GCode::Comment(CommentContent::String(txt@))),
                ),
            ));
        },
        LayerData::Excellon(e) => {
            let ghost before = e@;
            e.commands.push(Ok(crate::excellon_format::Command::Comment(txt.clone())));
            assert(e@.commands =~= before.commands.push(
                Ok(crate::excellon_format::Command::Comment(txt@)),
            ));
        },
        LayerData::Info(_) => {},
    }
}

impl<N: Scalar> Board<N> {
    /// Creates a board with no layers.
    pub fn empty() -> (r: Self)
        ensures
            r@ == Seq::<LayerView<N>>::empty(),
    {
        let r = Board { layers: Vec::new() };
        assert(r@ =~= Seq::<LayerView<N>>::empty());
        r
    }

    /// Returns references to all layers in insertion order.
    pub fn layers(&self) -> (r: &[Layer<N>])
        ensures
            r@ == self.content(),
            layer_views(r@) == self@,
    {
        self.layers.as_slice()
    }

    /// Returns mutable references to all layers in insertion order.
    pub fn layers_mut(&mut self) -> (r: &mut [Layer<N>])
        ensures
            r@ == old(self).content(),
            final(self).content() == final(r)@,
    {
        self.layers.as_mut_slice()
    }

    /// Appends a comment command to every layer that supports it (Gerber and Excellon).
    pub fn comment(&mut self, txt: String)
        ensures
            final(self)@ == on_data(old(self)@, |d: LayerDataView<N>| commented(d, txt@)),
    {
        let ghost v = self@;
        let mut i: usize = 0;
        while i < self.layers.len()
            invariant
                i <= self.layers@.len(),
                self.layers@.len() == v.len(),
                forall|k: int|
                    0 <= k < i ==> (#[trigger] self.layers@[k])@ == (LayerView {
                        data: commented(v[k].data, txt@),
                        ..v[k]
                    }),
                forall|k: int| i <= k < v.len() ==> (#[trigger] self.layers@[k])@ == v[k],
            decreases self.layers@.len() - i,
        {
            assert(self.layers@[i as int]@ == v[i as int]);
            comment_layer(&mut self.layers[i].data, &txt);
            i = i + 1;
        }
        assert(self@ =~= on_data(v, |d: LayerDataView<N>| commented(d, txt@)));
    }

    fn find(&self, ty: &LayerType) -> (p: usize)
        ensures
            p == layer_place(self@, *ty),
            p <= self.layers@.len(),
    {
        let ghost s = self@;
        let mut p: usize = 0;
        assert(s.skip(0) =~= s);
        while p < self.layers.len()
            invariant
                p <= self.layers@.len(),
                s == layer_views(self.layers@),
                layer_place(s, *ty) == p + layer_place(s.skip(p as int), *ty),
            decreases self.layers@.len() - p,
        {
            assert(s.skip(p as int)[0] == self.layers@[p as int]@);
            assert(s.skip(p as int).skip(1) =~= s.skip(p + 1));
            if self.layers[p].ty == *ty {
                return p;
            }
            p = p + 1;
        }
        p
    }

    /// Whether a layer can be put on the board.
    pub fn takes(&self, layer: &Layer<N>) -> (r: bool)
        ensures
            r == joinable(self@, layer@),
            r ==> addable(self@, layer@),
    {
        let p: usize = self.find(&layer.ty);
        if p < self.layers.len() {
            assert(self.layers@[p as int]@ == self@[p as int]);
            self.layers[p].data.joins(&layer.data)
        } else {
            true
        }
    }

    /// Inserts a layer into the board, or merges it into the existing layer of
    /// the same type if one is already present.
    pub fn put_layer(&mut self, layer: Layer<N>)
        requires
            addable(old(self)@, layer@),
        ensures
            final(self)@ == with_layer(old(self)@, layer@),
    {
        let ghost v = self@;
        let p: usize = self.find(&layer.ty);
        if p < self.layers.len() {
            assert(self.layers@[p as int]@ == v[p as int]);
            self.layers[p].data.merge(&layer.data);
        } else {
            self.layers.push(layer);
        }
        assert(self@ =~= with_layer(v, layer@));
    }

    /// Merges a layer into the existing layer of the same type, or inserts it where there is none
    /// that it can be merged into.
    pub fn join_layer(&mut self, layer: Layer<N>)
        ensures
            final(self)@ == joined(old(self)@, layer@),
    {
        if self.takes(&layer) {
            self.put_layer(layer);
        } else {
            let ghost v = self@;
            self.layers.push(layer);
            assert(self@ =~= v.push(layer@));
        }
    }

    /// Inserts a layer into the board, or merges it into the existing layer of
    /// the same type if one is already present.
    ///
    /// Accepts anything that converts into a [`Layer`] (e.g. [`GerberLayerData`],
    /// [`ExcellonLayerData`](crate::excellon_format::ExcellonLayerData)).
    pub fn add_layer<T: Into<Layer<N>>>(&mut self, layer: T)
        requires
            call_requires(T::into, (layer,)),
            forall|l: Layer<N>|
                call_ensures(T::into, (layer,), l) ==> addable(old(self)@, #[trigger] l@),
        ensures
            exists|l: Layer<N>|
                call_ensures(T::into, (layer,), l) && final(self)@ == with_layer(
                    old(self)@,
                    #[trigger] l@,
                ),
    {
        let layer: Layer<N> = layer.into();
        self.put_layer(layer);
    }

    /// Returns `true` if any layer has type [`LayerType::UndefinedGerber`].
    pub fn has_undefined(&self) -> (r: bool)
        ensures
            r == exists|i: int|
                0 <= i < self@.len() && (#[trigger] self@[i]).ty == LayerType::UndefinedGerber,
    {
        let mut i: usize = 0;
        while i < self.layers.len()
            invariant
                i <= self.layers@.len(),
                forall|k: int|
                    0 <= k < i ==> (#[trigger] self@[k]).ty != LayerType::UndefinedGerber,
            decreases self.layers@.len() - i,
        {
            assert(self@[i as int] == self.layers@[i as int]@);
            if self.layers[i].ty == LayerType::UndefinedGerber {
                return true;
            }
            i = i + 1;
        }
        false
    }

    /// Returns all layers with type [`LayerType::UndefinedGerber`].
    pub fn get_undefined(&self) -> (r: Vec<&Layer<N>>)
        ensures
            r@.map_values(|l: &Layer<N>| l@) == undefined_layers(self@),
    {
        let ghost s = self@;
        let ghost want = |l: LayerView<N>| l.ty == LayerType::UndefinedGerber;
        let mut r: Vec<&Layer<N>> = Vec::new();
        let mut i: usize = 0;
        proof {
            reveal(Seq::filter);
            assert(r@.map_values(|l: &Layer<N>| l@) =~= s.take(0).filter(want));
        }
        while i < self.layers.len()
            invariant
                i <= self.layers@.len(),
                s == layer_views(self.layers@),
                want == (|l: LayerView<N>| l.ty == LayerType::UndefinedGerber),
                r@.map_values(|l: &Layer<N>| l@) == s.take(i as int).filter(want),
            decreases self.layers@.len() - i,
        {
            let ghost before = r@;
            proof {
                reveal(Seq::filter);
                assert(s.take(i + 1).drop_last() =~= s.take(i as int));
                assert(s.take(i + 1).last() == self.layers@[i as int]@);
            }
            if self.layers[i].ty == LayerType::UndefinedGerber {
                r.push(&self.layers[i]);
                assert(r@.map_values(|l: &Layer<N>| l@) =~= before.map_values(
                    |l: &Layer<N>| l@,
                ).push(self.layers@[i as int]@));
            }
            i = i + 1;
        }
        assert(s.take(i as int) =~= s);
        r
    }

    /// Returns the layer with the given type, or `None` if not present.
    pub fn get_layer(&self, ty: &LayerType) -> (r: Option<&Layer<N>>)
        ensures
            r is Some <==> layer_of(self@, *ty) is Some,
            r matches Some(l) ==> layer_of(self@, *ty) == Some(l@),
    {
        let p: usize = self.find(ty);
        if p < self.layers.len() {
            assert(self@[p as int] == self.layers@[p as int]@);
            Some(&self.layers[p])
        } else {
            None
        }
    }

    /// Returns a mutable reference to the layer with the given type, or `None` if not present.
    pub fn get_layer_mut(&mut self, ty: &LayerType) -> (r: Option<&mut Layer<N>>)
        ensures
            r is Some <==> layer_of(old(self)@, *ty) is Some,
            match r {
                Some(l) => layer_of(old(self)@, *ty) == Some(l@) && final(self)@ == old(
                    self,
                )@.update(layer_place(old(self)@, *ty) as int, final(l)@),
                None => final(self)@ == old(self)@,
            },
    {
        let p: usize = self.find(ty);
        if p < self.layers.len() {
            assert(self@[p as int] == self.layers@[p as int]@);
            let ghost before = self.layers@;
            let l = &mut self.layers[p];
            assert(layer_views(before.update(p as int, *final(l))) =~= layer_views(before).update(
                p as int,
                final(l)@,
            ));
            Some(l)
        } else {
            None
        }
    }
}

/// The places of the layers of type `UndefinedGerber`.
pub open spec fn undefined_places<N>(s: Seq<Layer<N>>) -> Seq<int>
    decreases s.len(),
{
    if s.len() == 0 {
        Seq::empty()
    } else {
        let rest = undefined_places(s.skip(1)).map_values(|p: int| p + 1);
        if s[0].ty == LayerType::UndefinedGerber {
            seq![0int] + rest
        } else {
            rest
        }
    }
}

proof fn lemma_undefined_places<N>(s: Seq<Layer<N>>)
    ensures
        forall|k: int|
            0 <= k < undefined_places(s).len() ==> 0 <= #[trigger] undefined_places(s)[k] < s.len()
                && s[undefined_places(s)[k]].ty == LayerType::UndefinedGerber,
    decreases s.len(),
{
    if s.len() > 0 {
        let rest = undefined_places(s.skip(1));
        lemma_undefined_places(s.skip(1));
        assert forall|k: int| 0 <= k < undefined_places(s).len() implies 0
            <= #[trigger] undefined_places(s)[k] < s.len() && s[undefined_places(s)[k]].ty
            == LayerType::UndefinedGerber by {
            let j = if s[0].ty == LayerType::UndefinedGerber {
                k - 1
            } else {
                k
            };
            if j >= 0 {
                assert(undefined_places(s)[k] == rest[j] + 1);
                assert(s.skip(1)[rest[j]] == s[rest[j] + 1]);
            }
        }
    }
}

fn collect_undefined<'a, N: Scalar>(s: &'a mut [Layer<N>]) -> (r: Vec<&'a mut Layer<N>>)
    ensures
        final(s)@.len() == old(s)@.len(),
        r@.len() == undefined_places(old(s)@).len(),
        forall|k: int|
            #![trigger r@[k]]
            0 <= k < r@.len() ==> {
                let p = undefined_places(old(s)@)[k];
                &&& 0 <= p < old(s)@.len()
                &&& *r@[k] == old(s)@[p]
                &&& final(s)@[p] == *final(r@[k])
            },
        forall|i: int|
            0 <= i < old(s)@.len() && (#[trigger] old(s)@[i]).ty != LayerType::UndefinedGerber
                ==> final(s)@[i] == old(s)@[i],
    decreases old(s)@.len(),
{
    let ghost before = s@;
    if s.len() == 0 {
        return Vec::new();
    }
    let ghost after = final(s)@;
    let (head, tail) = s.split_at_mut(1);
    let ghost tail_after = final(tail)@;
    assert(before.subrange(1, before.len() as int) =~= before.skip(1));
    let mut rest = collect_undefined(tail);
    let ghost behind = rest@;
    proof {
        lemma_undefined_places(before);
    }
    let ghost places = undefined_places(before.skip(1));
    let mut r: Vec<&'a mut Layer<N>> = Vec::new();
    let first = &mut head[0];
    if first.ty == LayerType::UndefinedGerber {
        r.push(first);
        r.append(&mut rest);
        proof {
            assert forall|k: int|
                #![trigger r@[k]]
                0 <= k < r@.len() implies ({
                let p = undefined_places(before)[k];
                &&& 0 <= p < before.len()
                &&& *r@[k] == before[p]
                &&& after[p] == *final(r@[k])
            }) by {
                if k > 0 {
                    assert(r@[k] == behind[k - 1]);
                    assert(undefined_places(before)[k] == places[k - 1] + 1);
                    assert(before.skip(1)[places[k - 1]] == before[places[k - 1] + 1]);
                }
            }
        }
    } else {
        r.append(&mut rest);
        proof {
            assert(r@ =~= behind);
            assert forall|k: int|
                #![trigger r@[k]]
                0 <= k < r@.len() implies ({
                let p = undefined_places(before)[k];
                &&& 0 <= p < before.len()
                &&& *r@[k] == before[p]
                &&& after[p] == *final(r@[k])
            }) by {
                assert(r@[k] == behind[k]);
                assert(undefined_places(before)[k] == places[k] + 1);
                assert(before.skip(1)[places[k]] == before[places[k] + 1]);
            }
        }
    }
    proof {
        assert forall|k: int|
            #![trigger r@[k]]
            0 <= k < r@.len() implies ({
            let p = undefined_places(before)[k];
            &&& 0 <= p < before.len()
            &&& *r@[k] == before[p]
            &&& after[p] == *final(r@[k])
        }) by {}
        assert forall|i: int|
            0 <= i < before.len() && (#[trigger] before[i]).ty != LayerType::UndefinedGerber implies (
        after[i] == before[i]) by {
            if i > 0 {
                assert(before.skip(1)[i - 1] == before[i]);
            }
        }
    }
    r
}

impl<N: Scalar> Board<N> {
    /// Returns mutable references to all layers with type [`LayerType::UndefinedGerber`].
    pub fn get_undefined_mut(&mut self) -> (r: Vec<&mut Layer<N>>)
        ensures
            final(self).content().len() == old(self).content().len(),
            r@.len() == undefined_places(old(self).content()).len(),
            forall|k: int|
                #![trigger r@[k]]
                0 <= k < r@.len() ==> {
                    let p = undefined_places(old(self).content())[k];
                    &&& 0 <= p < old(self).content().len()
                    &&& *r@[k] == old(self).content()[p]
                    &&& final(self).content()[p] == *final(r@[k])
                },
            forall|i: int|
                0 <= i < old(self).content().len() && (#[trigger] old(self).content()[i]).ty
                    != LayerType::UndefinedGerber ==> final(self).content()[i]
                    == old(self).content()[i],
    {
        proof {
            lemma_undefined_places(self.layers@);
        }
        collect_undefined(self.layers.as_mut_slice())
    }
}

/// The layers among the outcomes.
pub open spec fn loaded_layers<N>(
    s: Seq<Result<LayerView<N>, (Seq<char>, Error<Seq<char>>)>>,
) -> Seq<LayerView<N>>
    decreases s.len(),
{
    if s.len() == 0 {
        Seq::empty()
    } else {
        match s.last() {
            Ok(l) => loaded_layers(s.drop_last()).push(l),
            Err(_) => loaded_layers(s.drop_last()),
        }
    }
}

/// The errors among the outcomes.
pub open spec fn load_errors<N>(
    s: Seq<Result<LayerView<N>, (Seq<char>, Error<Seq<char>>)>>,
) -> Seq<(Seq<char>, Error<Seq<char>>)>
    decreases s.len(),
{
    if s.len() == 0 {
        Seq::empty()
    } else {
        match s.last() {
            Ok(_) => load_errors(s.drop_last()),
            Err(e) => load_errors(s.drop_last()).push(e),
        }
    }
}

pub open spec fn outcome_view<N>(r: Result<Layer<N>, (String, Error)>) -> Result<
    LayerView<N>,
    (Seq<char>, Error<Seq<char>>),
> {
    match r {
        Ok(l) => Ok(l@),
        Err((name, e)) => Err((name@, e@)),
    }
}

pub open spec fn outcomes<N>(s: Seq<Result<Layer<N>, (String, Error)>>) -> Seq<
    Result<LayerView<N>, (Seq<char>, Error<Seq<char>>)>,
> {
    s.map_values(|r: Result<Layer<N>, (String, Error)>| outcome_view(r))
}

pub open spec fn error_views(s: Seq<(String, Error)>) -> Seq<(Seq<char>, Error<Seq<char>>)> {
    s.map_values(|e: (String, Error)| (e.0@, e.1@))
}

/// What follows the last `.` of a file name, or else the whole name.
pub open spec fn extension(name: Seq<char>) -> Seq<char>
    decreases name.len(),
{
    if name.len() == 0 || name.last() == '.' {
        Seq::empty()
    } else {
        extension(name.drop_last()).push(name.last())
    }
}

fn find_extension(name: &str) -> (r: String)
    ensures
        r@ == extension(name@),
{
    let chars = crate::text::chars_of(name);
    let end: usize = chars.len();
    let mut start: usize = end;
    assert(chars@.take(end as int) =~= chars@);
    assert(chars@.subrange(end as int, end as int) =~= Seq::<char>::empty());
    while start > 0 && chars[start - 1] != '.'
        invariant
            start <= end,
            end == chars@.len(),
            extension(chars@) == extension(chars@.take(start as int)) + chars@.subrange(
                start as int,
                end as int,
            ),
        decreases start,
    {
        proof {
            let t = chars@.take(start as int);
            assert(t.drop_last() =~= chars@.take(start - 1));
            assert(extension(t) =~= extension(t.drop_last()).push(chars@[start - 1]));
            assert(extension(chars@) =~= extension(chars@.take(start - 1)) + chars@.subrange(
                start - 1,
                end as int,
            ));
        }
        start = start - 1;
    }
    let r = crate::text::text_of(&chars[start..end]);
    proof {
        assert(extension(chars@.take(start as int)) =~= Seq::<char>::empty());
        assert(r@ =~= extension(name@));
    }
    r
}

/// `outcome` is what a file for type `ty` can give. A file that could not be opened or read gives
/// the error that came of that.
pub open spec fn candidate_outcome<N: Scalar, R: Fn(gerber_parser::GerberDoc) -> GerberDocument<N>>(
    name: Seq<char>,
    ty: LayerType,
    bytes: Result<Seq<u8>, Error<Seq<char>>>,
    read: R,
    outcome: Result<LayerView<N>, (Seq<char>, Error<Seq<char>>)>,
) -> bool {
    match bytes {
        Err(e) => outcome == Err::<LayerView<N>, _>((name, e)),
        Ok(bytes) => bytes_outcome(name, ty, bytes, read, outcome),
    }
}

/// `outcome` is what the bytes of a file for type `ty` can give.
pub open spec fn bytes_outcome<N: Scalar, R: Fn(gerber_parser::GerberDoc) -> GerberDocument<N>>(
    name: Seq<char>,
    ty: LayerType,
    bytes: Seq<u8>,
    read: R,
    outcome: Result<LayerView<N>, (Seq<char>, Error<Seq<char>>)>,
) -> bool {
    exists|p: Result<(LayerType, LayerDataView<N>), ParseError<Seq<char>>>|
        crate::layer::readable_as(ty, bytes, read, p) && outcome == #[trigger] in_file(p, name)
}

/// What was read, with the name of the file it was read from.
pub open spec fn in_file<N>(
    p: Result<(LayerType, LayerDataView<N>), ParseError<Seq<char>>>,
    name: Seq<char>,
) -> Result<LayerView<N>, (Seq<char>, Error<Seq<char>>)> {
    match p {
        Ok((ty, data)) => Ok(LayerView { ty, name, data }),
        Err(e) => Err((name, Error::ParseError(e, name))),
    }
}

/// `outcome` is what a file can give. The type comes from the extension of its name.
pub open spec fn file_outcome<N: Scalar, R: Fn(gerber_parser::GerberDoc) -> GerberDocument<N>>(
    name: Seq<char>,
    bytes: Seq<u8>,
    read: R,
    outcome: Result<LayerView<N>, (Seq<char>, Error<Seq<char>>)>,
) -> bool {
    match recognised(name) {
        None => outcome == Err::<LayerView<N>, _>((name, Error::InvalidType(name))),
        Some(ty) => candidate_outcome(name, ty, Ok(bytes), read, outcome),
    }
}

/// The layer type that the extension of a file name stands for.
pub open spec fn recognised(name: Seq<char>) -> Option<LayerType> {
    let ext = extension(name);
    match crate::layer_type::type_of_extension(crate::layer_type::uppercase(ext), ext) {
        Ok(ty) => Some(ty),
        Err(_) => None,
    }
}

/// A file whose name is recognised can be parsed as what its extension stands for.
pub open spec fn readable<N: Scalar>(name: Seq<char>, bytes: Seq<u8>) -> bool {
    recognised(name) matches Some(ty) ==> crate::layer::file_parsable::<N>(ty, bytes)
}

/// Result of loading a board from a folder.
///
/// Successfully parsed layers are available in [`board`](LoadResult::board).
/// Any files that could not be opened or parsed are collected in
/// [`errors`](LoadResult::errors) as `(filename, error)` pairs, so the caller
/// can inspect failures without losing the layers that did load correctly.
pub struct LoadResult<N> {
    pub board: Board<N>,
    pub errors: Vec<(String, Error)>,
}

impl<N: Scalar> LoadResult<N> {
    /// Returns `true` if every recognised file was loaded without error.
    pub fn is_ok(&self) -> (r: bool)
        ensures
            r == (self.errors@.len() == 0),
    {
        self.errors.len() == 0
    }
}

impl<N: Scalar> Board<N> {
    /// The layer type of a file, by the extension of its name.
    pub fn recognise(name: &str) -> (r: Option<LayerType>)
        ensures
            r == recognised(name@),
    {
        let ext = find_extension(name);
        match LayerType::try_from(ext.as_str()) {
            Ok(ty) => Some(ty),
            Err(_) => None,
        }
    }

    /// Reads one file. `contents` holds its bytes, or why there are none.
    pub fn parse_candidate<R: Fn(gerber_parser::GerberDoc) -> GerberDocument<N>>(
        name: String,
        ty: LayerType,
        contents: Result<Vec<u8>, Error>,
        read: &R,
    ) -> (r: Result<Layer<N>, (String, Error)>)
        requires
            crate::gerber::read::reads(*read),
            contents matches Ok(bytes) ==> crate::layer::file_parsable::<N>(ty, bytes@),
        ensures
            candidate_outcome(
                name@,
                ty,
                (match contents {
                    Ok(bytes) => Ok(bytes@),
                    Err(e) => Err(e@),
                }),
                *read,
                outcome_view(r),
            ),
    {
        let bytes = match contents {
            Ok(bytes) => bytes,
            Err(e) => {
                return Err((name, e));
            },
        };
        let ghost file = name@;
        let parsed = LayerData::parse(ty, &bytes, read);
        let ghost p = crate::layer::outcome_view(parsed);
        let r: Result<Layer<N>, (String, Error)> = match parsed {
            Ok((found, data)) => Ok(Layer { ty: found, name, data }),
            Err(e) => {
                let copy = name.clone();
                Err((name, Error::ParseError(e, copy)))
            },
        };
        proof {
            assert(crate::layer::readable_as(ty, bytes@, *read, p));
            assert(outcome_view(r) == in_file(p, file));
            assert(bytes_outcome(file, ty, bytes@, *read, outcome_view(r)));
        }
        r
    }

    /// Parts the layers that were loaded from the errors. Layers of one type become one layer, with
    /// the name of the first; one that cannot be merged stays a layer of its own.
    pub fn collect(results: Vec<Result<Layer<N>, (String, Error)>>) -> (r: LoadResult<N>)
        ensures
            r.board@ == gathered(loaded_layers(outcomes(results@))),
            error_views(r.errors@) == load_errors(outcomes(results@)),
            all_join(loaded_layers(outcomes(results@))) ==> distinct_types(r.board@),
    {
        let ghost s = outcomes(results@);
        let ghost all = results@;
        let mut board: Board<N> = Board::empty();
        let mut errors: Vec<(String, Error)> = Vec::new();
        proof {
            assert(board@ =~= gathered(loaded_layers(s.take(0))));
            assert(error_views(errors@) =~= load_errors(s.take(0)));
        }
        for result in it: results
            invariant
                it.seq() == all,
                s == outcomes(all),
                board@ == gathered(loaded_layers(s.take(it.index() as int))),
                error_views(errors@) == load_errors(s.take(it.index() as int)),
        {
            let ghost e0 = errors@;
            let ghost before = loaded_layers(s.take(it.index() as int));
            proof {
                let i = it.index() as int;
                assert(s.take(i + 1).drop_last() =~= s.take(i));
                assert(s.take(i + 1).last() == outcome_view(result));
            }
            match result {
                Ok(layer) => {
                    board.join_layer(layer);
                    assert(before.push(layer@).drop_last() =~= before);
                },
                Err(e) => {
                    errors.push(e);
                    assert(error_views(errors@) =~= error_views(e0).push((e.0@, e.1@)));
                },
            }
        }
        proof {
            assert(s.take(all.len() as int) =~= s);
            if all_join(loaded_layers(s)) {
                law_one_layer_of_a_type(loaded_layers(s));
            }
        }
        LoadResult { board, errors }
    }

    /// Parses a board from a list of file names, each with the bytes of the file.
    ///
    /// The layer type is inferred from the file extension (e.g. `.gtl` → `Top`).
    /// For `.gbr` files the type is read from the `FileAttribute` embedded in
    /// the Gerber data. Files with unrecognised extensions or parse failures are
    /// collected in [`LoadResult::errors`] so the caller can inspect them without
    /// losing the layers that did load correctly. Files of one type become one layer,
    /// unless they cannot be merged.
    pub fn load<R: Fn(gerber_parser::GerberDoc) -> GerberDocument<N>>(
        data: Vec<(String, Vec<u8>)>,
        read: &R,
    ) -> (r: LoadResult<N>)
        requires
            crate::gerber::read::reads(*read),
            forall|i: int|
                0 <= i < data@.len() ==> readable::<N>((#[trigger] data@[i]).0@, data@[i].1@),
        ensures
            exists|o: Seq<Result<LayerView<N>, (Seq<char>, Error<Seq<char>>)>>|
                {
                    &&& o.len() == data@.len()
                    &&& forall|i: int|
                        0 <= i < data@.len() ==> file_outcome(
                            data@[i].0@,
                            data@[i].1@,
                            *read,
                            #[trigger] o[i],
                        )
                    &&& r.board@ == gathered(#[trigger] loaded_layers(o))
                    &&& error_views(r.errors@) == load_errors(o)
                    &&& all_join(loaded_layers(o)) ==> distinct_types(r.board@)
                },
    {
        let ghost all = data@;
        let mut results: Vec<Result<Layer<N>, (String, Error)>> = Vec::new();
        for file in it: data
            invariant
                it.seq() == all,
                crate::gerber::read::reads(*read),
                forall|i: int|
                    0 <= i < all.len() ==> readable::<N>((#[trigger] all[i]).0@, all[i].1@),
                results@.len() == it.index(),
                forall|i: int|
                    0 <= i < results@.len() ==> file_outcome(
                        all[i].0@,
                        all[i].1@,
                        *read,
                        outcome_view(#[trigger] results@[i]),
                    ),
        {
            let (name, bytes) = file;
            let result = match Board::<N>::recognise(name.as_str()) {
                Some(ty) => Board::parse_candidate(name, ty, Ok(bytes), read),
                None => {
                    let file = name.clone();
                    Err((name, Error::InvalidType(file)))
                },
            };
            results.push(result);
        }
        proof {
            let o = outcomes(results@);
            assert forall|i: int| 0 <= i < all.len() implies file_outcome(
                all[i].0@,
                all[i].1@,
                *read,
                #[trigger] o[i],
            ) by {
                assert(o[i] == outcome_view(results@[i]));
            }
        }
        Board::collect(results)
    }
}

/// Layers that do not represent physical board area.
pub open spec fn takes_no_area<N>(l: LayerView<N>) -> bool {
    l.ty == LayerType::KeepOut || l.ty == LayerType::Info || l.ty == LayerType::SidePlating
        || l.data is Info
}

/// `files` are the files of the first layers, each with its name.
pub open spec fn are_files<N: Scalar, E: Fn(&Vec<Command<N>>) -> Result<String, String>>(
    s: Seq<LayerView<N>>,
    encode: E,
    files: Seq<(String, String)>,
) -> bool {
    files.len() <= s.len() && forall|i: int|
        0 <= i < files.len() ==> (#[trigger] files[i]).0@ == s[i].name && crate::layer::data_text(
            s[i].data,
            encode,
            Ok(files[i].1@),
        )
}

impl<N: Scalar> Board<N> {
    /// Writes all layers, each as a file with the name of the layer. `encode` turns the commands of
    /// a Gerber file into its text. A layer that cannot be written ends the writing.
    pub fn write_to<E: Fn(&Vec<Command<N>>) -> Result<String, String>>(&self, encode: &E) -> (r: (
        Vec<(String, String)>,
        Result<(), String>,
    ))
        requires
            crate::gerber::output::encodes(*encode),
            forall|i: int|
                0 <= i < self@.len() ==> crate::layer::data_writable((#[trigger] self@[i]).data),
        ensures
            are_files(self@, *encode, r.0@),
            match r.1 {
                Ok(()) => r.0@.len() == self@.len(),
                Err(e) => r.0@.len() < self@.len() && crate::layer::data_text(
                    self@[r.0@.len() as int].data,
                    *encode,
                    Err(e@),
                ),
            },
    {
        let ghost s = self@;
        let mut files: Vec<(String, String)> = Vec::new();
        let mut i: usize = 0;
        while i < self.layers.len()
            invariant
                i <= self.layers@.len(),
                s == layer_views(self.layers@),
                crate::gerber::output::encodes(*encode),
                forall|k: int|
                    0 <= k < s.len() ==> crate::layer::data_writable((#[trigger] s[k]).data),
                files@.len() == i,
                are_files(s, *encode, files@),
            decreases self.layers@.len() - i,
        {
            assert(s[i as int] == self.layers@[i as int]@);
            let mut text = String::new();
            match self.layers[i].data.write_to(&mut text, encode) {
                Ok(()) => {
                    proof {
                        let t = choose|t: Seq<char>| #[trigger]
                            crate::layer::data_text(s[i as int].data, *encode, Ok(t)) && text@
                                == Seq::<char>::empty() + t;
                        assert(text@ =~= t);
                    }
                    files.push((self.layers[i].name.clone(), text));
                },
                Err(e) => {
                    return (files, Err(e));
                },
            }
            i = i + 1;
        }
        (files, Ok(()))
    }
}

/// The smallest box that holds both boxes.
pub open spec fn union<N: Scalar>(b: (Pos<N>, Pos<N>), c: (Pos<N>, Pos<N>)) -> (Pos<N>, Pos<N>) {
    (
        Pos {
            x: if c.0.x.less_spec(b.0.x) {
                c.0.x
            } else {
                b.0.x
            },
            y: if c.0.y.less_spec(b.0.y) {
                c.0.y
            } else {
                b.0.y
            },
        },
        Pos {
            x: if b.1.x.less_spec(c.1.x) {
                c.1.x
            } else {
                b.1.x
            },
            y: if b.1.y.less_spec(c.1.y) {
                c.1.y
            } else {
                b.1.y
            },
        },
    )
}

/// The box around the layers that represent board area.
pub open spec fn board_corners<N: Scalar>(s: Seq<LayerView<N>>) -> (Pos<N>, Pos<N>)
    decreases s.len(),
{
    if s.len() == 0 {
        crate::empty_box()
    } else if takes_no_area(s.last()) {
        board_corners(s.drop_last())
    } else {
        union(board_corners(s.drop_last()), crate::layer::data_corners(s.last().data))
    }
}

/// Every layer that counts has a box.
pub open spec fn board_bounded<N: Scalar>(s: Seq<LayerView<N>>) -> bool {
    forall|i: int|
        0 <= i < s.len() && !takes_no_area(#[trigger] s[i]) ==> crate::layer::data_bounded(s[i].data)
}

impl<N: Scalar> LayerCorners<N> for Board<N> {
    open spec fn corners(&self) -> (Pos<N>, Pos<N>) {
        board_corners(self@)
    }

    open spec fn bounded(&self) -> bool {
        board_bounded(self@)
    }

    /// Returns the bounding box of the board.
    ///
    /// Computed as the union of all layer corners (Gerber and Excellon drill),
    /// excluding `KeepOut`, `Info`, and `SidePlating` layers as they don't
    /// represent physical board area.
    fn get_corners(&self) -> (r: (Pos<N>, Pos<N>)) {
        let ghost s = self@;
        let mut min = Pos { x: N::highest(), y: N::highest() };
        let mut max = Pos { x: N::lowest(), y: N::lowest() };
        let mut i: usize = 0;
        assert(s.take(0).len() == 0);
        while i < self.layers.len()
            invariant
                i <= self.layers@.len(),
                s == layer_views(self.layers@),
                board_bounded(s),
                (min, max) == board_corners(s.take(i as int)),
            decreases self.layers@.len() - i,
        {
            proof {
                assert(s.take(i + 1).drop_last() =~= s.take(i as int));
                assert(s.take(i + 1).last() == s[i as int]);
                assert(s[i as int] == self.layers@[i as int]@);
            }
            let layer = &self.layers[i];
            let text = match &layer.data {
                LayerData::Info(_) => true,
                _ => false,
            };
            if !(layer.ty == LayerType::KeepOut || layer.ty == LayerType::Info || layer.ty
                == LayerType::SidePlating || text) {
                let (layer_min, layer_max) = layer.get_corners();
                if layer_min.x.less(min.x) {
                    min.x = layer_min.x;
                }
                if max.x.less(layer_max.x) {
                    max.x = layer_max.x;
                }
                if layer_min.y.less(min.y) {
                    min.y = layer_min.y;
                }
                if max.y.less(layer_max.y) {
                    max.y = layer_max.y;
                }
            }
            i = i + 1;
        }
        assert(s.take(i as int) =~= s);
        (min, max)
    }
}

/// The middle of a box.
pub open spec fn middle<N: Scalar>(corners: (Pos<N>, Pos<N>)) -> Pos<N> {
    Pos {
        x: corners.0.x.plus_spec(corners.1.x).times_spec(N::ratio_spec(1, 2)),
        y: corners.0.y.plus_spec(corners.1.y).times_spec(N::ratio_spec(1, 2)),
    }
}

/// The way from a turned position back to the position.
pub open spec fn turned_back<N: Scalar>(p: Pos<N>, steps: int) -> Pos<N> {
    Pos {
        x: p.x.minus_spec(crate::turned(p, steps).x),
        y: p.y.minus_spec(crate::turned(p, steps).y),
    }
}

impl<N: Scalar> Board<N> {
    /// How to turn the board by quarter turns around the middle of its bounding box: by one to
    /// three quarter turns around the origin, and then by a move. `None` if there is nothing to
    /// turn.
    pub fn rotation(&self, steps: i32) -> (r: Option<(i32, Pos<N>)>)
        requires
            self.bounded(),
        ensures
            r is None <==> steps as int % 4 == 0,
            r matches Some((n, offset)) ==> n == steps as int % 4 && offset == turned_back(
                middle(board_corners(self@)),
                n as int,
            ),
    {
        let turns: i32 = ((steps as i64 + 4_294_967_296) % 4) as i32;
        if turns == 0 {
            return None;
        }
        let (min, max) = self.get_corners();
        let cx = min.x.plus(max.x).times(N::ratio(1, 2));
        let cy = min.y.plus(max.y).times(N::ratio(1, 2));
        let (rcx, rcy) = crate::rotate_90(cx, cy, turns);
        Some((turns, Pos { x: cx.minus(rcx), y: cy.minus(rcy) }))
    }
}

impl<N: Scalar> LayerTransform<N> for Board<N> {
    open spec fn transformed(v: Seq<LayerView<N>>, by: Pos<N>) -> Seq<LayerView<N>> {
        on_data(v, |d: LayerDataView<N>| LayerData::<N>::transformed(d, by))
    }

    /// Translates every layer by `transform` (mm).
    fn transform(&mut self, transform: &Pos<N>) {
        let ghost v = self@;
        let mut i: usize = 0;
        while i < self.layers.len()
            invariant
                i <= self.layers@.len(),
                self.layers@.len() == v.len(),
                forall|k: int|
                    0 <= k < i ==> (#[trigger] self.layers@[k])@ == (LayerView {
                        data: LayerData::<N>::transformed(v[k].data, *transform),
                        ..v[k]
                    }),
                forall|k: int| i <= k < v.len() ==> (#[trigger] self.layers@[k])@ == v[k],
            decreases self.layers@.len() - i,
        {
            assert(self.layers@[i as int]@ == v[i as int]);
            self.layers[i].data.transform(transform);
            i = i + 1;
        }
        assert(self@ =~= Self::transformed(v, *transform));
    }
}

impl<N: Scalar> LayerScale<N> for Board<N> {
    open spec fn scaled(v: Seq<LayerView<N>>, x: N, y: N) -> Seq<LayerView<N>> {
        on_data(v, |d: LayerDataView<N>| LayerData::<N>::scaled(d, x, y))
    }

    open spec fn scalable(v: Seq<LayerView<N>>, x: N, y: N) -> bool {
        forall|i: int| 0 <= i < v.len() ==> LayerData::<N>::scalable((#[trigger] v[i]).data, x, y)
    }

    /// Scales every layer.
    fn scale(&mut self, x: N, y: N) {
        let ghost v = self@;
        let mut i: usize = 0;
        while i < self.layers.len()
            invariant
                i <= self.layers@.len(),
                self.layers@.len() == v.len(),
                Self::scalable(v, x, y),
                forall|k: int|
                    0 <= k < i ==> (#[trigger] self.layers@[k])@ == (LayerView {
                        data: LayerData::<N>::scaled(v[k].data, x, y),
                        ..v[k]
                    }),
                forall|k: int| i <= k < v.len() ==> (#[trigger] self.layers@[k])@ == v[k],
            decreases self.layers@.len() - i,
        {
            assert(self.layers@[i as int]@ == v[i as int]);
            self.layers[i].data.scale(x, y);
            i = i + 1;
        }
        assert(self@ =~= Self::scaled(v, x, y));
    }
}

impl<N: Scalar> LayerStepAndRepeat<N> for Board<N> {
    open spec fn repeated(
        v: Seq<LayerView<N>>,
        x_repetitions: u32,
        y_repetitions: u32,
        offset: Pos<N>,
    ) -> Seq<LayerView<N>> {
        on_data(
            v,
            |d: LayerDataView<N>|
                LayerData::<N>::repeated(d, x_repetitions, y_repetitions, offset),
        )
    }

    open spec fn repeatable(
        v: Seq<LayerView<N>>,
        x_repetitions: u32,
        y_repetitions: u32,
        offset: Pos<N>,
    ) -> bool {
        forall|i: int|
            0 <= i < v.len() ==> LayerData::<N>::repeatable(
                (#[trigger] v[i]).data,
                x_repetitions,
                y_repetitions,
                offset,
            )
    }

    /// Repeats every layer.
    fn step_and_repeat(&mut self, x_repetitions: u32, y_repetitions: u32, offset: &Pos<N>) {
        let ghost v = self@;
        let mut i: usize = 0;
        while i < self.layers.len()
            invariant
                i <= self.layers@.len(),
                self.layers@.len() == v.len(),
                Self::repeatable(v, x_repetitions, y_repetitions, *offset),
                forall|k: int|
                    0 <= k < i ==> (#[trigger] self.layers@[k])@ == (LayerView {
                        data: LayerData::<N>::repeated(
                            v[k].data,
                            x_repetitions,
                            y_repetitions,
                            *offset,
                        ),
                        ..v[k]
                    }),
                forall|k: int| i <= k < v.len() ==> (#[trigger] self.layers@[k])@ == v[k],
            decreases self.layers@.len() - i,
        {
            assert(self.layers@[i as int]@ == v[i as int]);
            self.layers[i].data.step_and_repeat(x_repetitions, y_repetitions, offset);
            i = i + 1;
        }
        assert(self@ =~= Self::repeated(v, x_repetitions, y_repetitions, *offset));
    }
}

/// A layer with the first layer of its type in `other` behind it, if there is one.
pub open spec fn merged_with<N: Scalar>(l: LayerView<N>, other: Seq<LayerView<N>>) -> LayerView<N> {
    match layer_of(other, l.ty) {
        Some(o) => LayerView { data: LayerData::<N>::merged(l.data, o.data), ..l },
        None => l,
    }
}

impl<N: Scalar> LayerMerge for Board<N> {
    open spec fn merged(v: Seq<LayerView<N>>, other: Seq<LayerView<N>>) -> Seq<LayerView<N>> {
        v.map_values(|l: LayerView<N>| merged_with(l, other))
    }

    open spec fn mergeable(v: Seq<LayerView<N>>, other: Seq<LayerView<N>>) -> bool {
        forall|i: int| 0 <= i < v.len() ==> addable_data(#[trigger] v[i], other)
    }

    /// Merges layers from `other` into the corresponding layers of `self`.
    ///
    /// Only layers whose [`LayerType`] already exists in `self` are updated.
    /// Layer types present in `other` but not in `self` are ignored — use
    /// [`add_layer`](Board::add_layer) to insert a new layer instead.
    fn merge(&mut self, other: &Self) {
        let ghost v = self@;
        let mut i: usize = 0;
        while i < self.layers.len()
            invariant
                i <= self.layers@.len(),
                self.layers@.len() == v.len(),
                Self::mergeable(v, other@),
                forall|k: int|
                    0 <= k < i ==> (#[trigger] self.layers@[k])@ == merged_with(v[k], other@),
                forall|k: int| i <= k < v.len() ==> (#[trigger] self.layers@[k])@ == v[k],
            decreases self.layers@.len() - i,
        {
            assert(self.layers@[i as int]@ == v[i as int]);
            assert(addable_data(v[i as int], other@));
            let ty = self.layers[i].ty;
            if let Some(o) = other.get_layer(&ty) {
                self.layers[i].data.merge(&o.data);
            }
            i = i + 1;
        }
        assert(self@ =~= Self::merged(v, other@));
    }
}

/// The layer can be merged with the one of its type in `other`, if there is one.
pub open spec fn addable_data<N: Scalar>(l: LayerView<N>, other: Seq<LayerView<N>>) -> bool {
    layer_of(other, l.ty) matches Some(o) ==> LayerData::<N>::mergeable(l.data, o.data)
}

impl<N: Scalar> From<Layer<N>> for Board<N> {
    /// Creates a board containing a single layer.
    fn from(layer: Layer<N>) -> (r: Board<N>)
        ensures
            r@ == seq![layer@],
    {
        let mut board = Board::empty();
        board.add_layer(layer);
        assert(board@ =~= seq![layer@]);
        board
    }
}

impl<N: Scalar> vstd::std_specs::convert::FromSpecImpl<Layer<N>> for Board<N> {
    open spec fn obeys_from_spec() -> bool {
        false
    }

    open spec fn from_spec(v: Layer<N>) -> Board<N> {
        vstd::pervasive::arbitrary()
    }
}

impl<N: Scalar> From<Vec<Layer<N>>> for Board<N> {
    /// Creates a board from a pre-built list of layers. Layers of one type become one layer; one
    /// that cannot be merged stays a layer of its own.
    fn from(layers: Vec<Layer<N>>) -> (r: Board<N>)
        ensures
            r@ == gathered(layer_views(layers@)),
            all_join(layer_views(layers@)) ==> distinct_types(r@),
            distinct_types(layer_views(layers@)) ==> r@ == layer_views(layers@),
    {
        let ghost s = layer_views(layers@);
        let ghost all = layers@;
        let mut board: Board<N> = Board::empty();
        assert(board@ =~= gathered(s.take(0)));
        for layer in it: layers
            invariant
                it.seq() == all,
                s == layer_views(all),
                board@ == gathered(s.take(it.index() as int)),
        {
            proof {
                let i = it.index() as int;
                assert(s.take(i + 1).drop_last() =~= s.take(i));
                assert(s.take(i + 1).last() == layer@);
            }
            board.join_layer(layer);
        }
        proof {
            assert(s.take(all.len() as int) =~= s);
            if distinct_types(s) {
                lemma_gathered_distinct(s);
            }
            if all_join(s) {
                law_one_layer_of_a_type(s);
            }
        }
        board
    }
}

impl<N: Scalar> vstd::std_specs::convert::FromSpecImpl<Vec<Layer<N>>> for Board<N> {
    open spec fn obeys_from_spec() -> bool {
        false
    }

    open spec fn from_spec(v: Vec<Layer<N>>) -> Board<N> {
        vstd::pervasive::arbitrary()
    }
}

impl<N: Scalar> From<GerberLayerData<N>> for Board<N> {
    /// Creates a board containing a single Gerber layer.
    fn from(data: GerberLayerData<N>) -> (r: Board<N>)
        ensures
            r@ == seq![
                (LayerView {
                    ty: data@.layer_type,
                    name: data@.layer_type.extension_spec(),
                    data: LayerDataView::Gerber(data@),
                }),
            ],
    {
        let layer: Layer<N> = Layer::from(data);
        Board::from(layer)
    }
}

impl<N: Scalar> vstd::std_specs::convert::FromSpecImpl<GerberLayerData<N>> for Board<N> {
    open spec fn obeys_from_spec() -> bool {
        false
    }

    open spec fn from_spec(v: GerberLayerData<N>) -> Board<N> {
        vstd::pervasive::arbitrary()
    }
}

impl<N: Scalar> From<ExcellonLayerData<N>> for Board<N> {
    /// Creates a board containing a single Excellon drill layer.
    fn from(data: ExcellonLayerData<N>) -> (r: Board<N>)
        ensures
            r@ == seq![
                (LayerView {
                    ty: LayerType::Drill,
                    name: "drl"@,
                    data: LayerDataView::Excellon(data@),
                }),
            ],
    {
        let layer: Layer<N> = Layer::from(data);
        Board::from(layer)
    }
}

impl<N: Scalar> vstd::std_specs::convert::FromSpecImpl<ExcellonLayerData<N>> for Board<N> {
    open spec fn obeys_from_spec() -> bool {
        false
    }

    open spec fn from_spec(v: ExcellonLayerData<N>) -> Board<N> {
        vstd::pervasive::arbitrary()
    }
}

/// No two layers are of one type.
pub open spec fn distinct_types<N>(s: Seq<LayerView<N>>) -> bool {
    forall|i: int, j: int|
        0 <= i < j < s.len() ==> (#[trigger] s[i]).ty != (#[trigger] s[j]).ty
}

/// The first layer of a type stands behind layers of other types.
pub proof fn lemma_layer_place<N>(s: Seq<LayerView<N>>, ty: LayerType)
    ensures
        layer_place(s, ty) <= s.len(),
        layer_place(s, ty) < s.len() ==> s[layer_place(s, ty) as int].ty == ty,
        forall|i: int| 0 <= i < layer_place(s, ty) ==> (#[trigger] s[i]).ty != ty,
    decreases s.len(),
{
    if s.len() > 0 && s[0].ty != ty {
        lemma_layer_place(s.skip(1), ty);
        assert forall|i: int| 0 <= i < layer_place(s, ty) implies (#[trigger] s[i]).ty != ty by {
            if i > 0 {
                assert(s[i] == s.skip(1)[i - 1]);
            }
        }
    }
}

/// Layers of different types are put on a board as they are.
proof fn lemma_gathered_distinct<N: Scalar>(s: Seq<LayerView<N>>)
    requires
        distinct_types(s),
    ensures
        gathered(s) == s,
    decreases s.len(),
{
    if s.len() > 0 {
        let d = s.drop_last();
        assert forall|i: int, j: int| 0 <= i < j < d.len() implies (#[trigger] d[i]).ty != (
        #[trigger] d[j]).ty by {
            assert(d[i] == s[i] && d[j] == s[j]);
        }
        lemma_gathered_distinct(d);
        lemma_layer_place(d, s.last().ty);
        let p = layer_place(d, s.last().ty) as int;
        if p < d.len() {
            assert(s[p].ty != s[s.len() - 1].ty);
        }
        assert(d.push(s.last()) =~= s);
    }
}

/// Each type appears at most once: adding a layer keeps it so, an empty board starts so, and an
/// added layer is found under its type.
pub proof fn law_types_stay_distinct<N: Scalar>(s: Seq<LayerView<N>>, layer: LayerView<N>)
    requires
        distinct_types(s),
    ensures
        distinct_types(Seq::<LayerView<N>>::empty()),
        distinct_types(with_layer(s, layer)),
        layer_of(with_layer(s, layer), layer.ty) is Some,
        forall|ty: LayerType|
            ty != layer.ty ==> #[trigger] layer_of(with_layer(s, layer), ty) == layer_of(s, ty),
{
    lemma_layer_place(s, layer.ty);
    let t = with_layer(s, layer);
    let p = layer_place(s, layer.ty) as int;
    assert forall|i: int, j: int| 0 <= i < j < t.len() implies (#[trigger] t[i]).ty != (
    #[trigger] t[j]).ty by {
        if p < s.len() {
            assert(t[i].ty == s[i].ty && t[j].ty == s[j].ty);
        } else {
            assert(t[i] == s[i]);
            if j < s.len() {
                assert(t[j] == s[j]);
            }
        }
    }
    lemma_layer_place(t, layer.ty);
    assert(t[p].ty == layer.ty);
    assert forall|ty: LayerType| ty != layer.ty implies #[trigger] layer_of(t, ty) == layer_of(
        s,
        ty,
    ) by {
        lemma_layer_place(s, ty);
        lemma_layer_place(t, ty);
        let a = layer_place(s, ty) as int;
        let b = layer_place(t, ty) as int;
        if a < s.len() {
            assert(t[a] == s[a]);
            if b < a {
                assert(t[b].ty == s[b].ty);
            }
        } else if b < t.len() {
            if b < s.len() {
                assert(t[b].ty == s[b].ty);
            }
        }
    }
}

/// Layers that can be merged are gathered into one layer of each type.
pub proof fn law_one_layer_of_a_type<N: Scalar>(s: Seq<LayerView<N>>)
    requires
        all_join(s),
    ensures
        distinct_types(gathered(s)),
    decreases s.len(),
{
    if s.len() > 0 {
        let d = s.drop_last();
        let n = s.len() - 1;
        assert forall|i: int| 0 <= i < d.len() implies joinable(
            gathered(d.take(i)),
            #[trigger] d[i],
        ) by {
            assert(d[i] == s[i]);
            assert(d.take(i) =~= s.take(i));
        }
        law_one_layer_of_a_type(d);
        assert(joinable(gathered(s.take(n)), s[n]));
        assert(s.take(n) =~= d);
        law_types_stay_distinct(gathered(d), s.last());
    }
}

/// A merge of two boards keeps the layers and their types.
pub proof fn law_merge_keeps_types<N: Scalar>(s: Seq<LayerView<N>>, other: Seq<LayerView<N>>)
    ensures
        Board::<N>::merged(s, other).len() == s.len(),
        forall|i: int|
            0 <= i < s.len() ==> (#[trigger] Board::<N>::merged(s, other)[i]).ty == s[i].ty
                && Board::<N>::merged(s, other)[i].name == s[i].name,
        distinct_types(s) ==> distinct_types(Board::<N>::merged(s, other)),
{
    let t = Board::<N>::merged(s, other);
    assert forall|i: int| 0 <= i < s.len() implies (#[trigger] t[i]).ty == s[i].ty && t[i].name
        == s[i].name by {
        assert(t[i] == merged_with(s[i], other));
    }
}

} // verus!
