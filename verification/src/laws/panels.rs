//! What a board does with its layers, layer by layer.
use crate::board;
use crate::board::Board;
use crate::error::{Error, ParseError};
use crate::excellon_format;
use crate::fixed::Fixed;
use crate::gerber;
use crate::gerber::load;
use crate::gerber::load::DocumentView;
use crate::gerber_types::{Command, CommentContent, FunctionCode, GCode, Unit};
use crate::laws::drawings;
use crate::laws::edits;
use crate::laws::moves;
use crate::laws::units;
use crate::layer;
use crate::layer::{Layer, LayerData, LayerDataView, LayerView};
use crate::layer_type;
use crate::layer_type::LayerType;
use crate::scalar::Scalar;
use crate::{LayerMerge, LayerScale, LayerStepAndRepeat, LayerTransform, Pos};
use vstd::prelude::*;

verus! {

/// Layer `i` is the first of its type.
pub open spec fn is_first<N>(s: Seq<LayerView<N>>, ty: LayerType, i: int) -> bool {
    &&& 0 <= i < s.len()
    &&& s[i].ty == ty
    &&& forall|j: int| 0 <= j < i ==> (#[trigger] s[j]).ty != ty
}

pub open spec fn has_none<N>(s: Seq<LayerView<N>>, ty: LayerType) -> bool {
    forall|j: int| 0 <= j < s.len() ==> (#[trigger] s[j]).ty != ty
}

proof fn lemma_place<N>(s: Seq<LayerView<N>>, ty: LayerType)
    ensures
        ({
            let p = board::layer_place(s, ty) as int;
            is_first(s, ty, p) || p == s.len() && has_none(s, ty)
        }),
    decreases s.len(),
{
    if s.len() > 0 && s[0].ty != ty {
        let t = s.skip(1);
        lemma_place(t, ty);
        let p = board::layer_place(t, ty) as int;
        if is_first(t, ty, p) {
            assert(s[p + 1] == t[p]);
            assert forall|j: int| 0 <= j < p + 1 implies (#[trigger] s[j]).ty != ty by {
                if j > 0 {
                    assert(s[j] == t[j - 1]);
                }
            }
        } else {
            assert forall|j: int| 0 <= j < s.len() implies (#[trigger] s[j]).ty != ty by {
                if j > 0 {
                    assert(s[j] == t[j - 1]);
                }
            }
        }
    }
}

/// A layer is looked up by its type: the first one of that type, or none where there is none.
pub proof fn law_layer_found<N>(s: Seq<LayerView<N>>, ty: LayerType)
    ensures
        match board::layer_of(s, ty) {
            Some(l) => exists|i: int| #[trigger] is_first(s, ty, i) && l == s[i],
            None => has_none(s, ty),
        },
{
    lemma_place(s, ty);
    let p = board::layer_place(s, ty) as int;
    if p < s.len() {
        assert(is_first(s, ty, p));
    }
}

/// A layer that is put on a board: behind the others where none has its type; else the first one of
/// its type, and only that one, is merged with it, and keeps its name.
pub proof fn law_layer_put<N: Scalar>(s: Seq<LayerView<N>>, l: LayerView<N>)
    ensures
        ({
            let t = board::with_layer(s, l);
            &&& has_none(s, l.ty) ==> t == s.push(l)
            &&& forall|i: int| #[trigger]
                is_first(s, l.ty, i) ==> {
                    &&& t.len() == s.len()
                    &&& t[i].ty == s[i].ty && t[i].name == s[i].name
                    &&& t[i].data == LayerData::<N>::merged(s[i].data, l.data)
                    &&& forall|j: int| 0 <= j < s.len() && j != i ==> #[trigger] t[j] == s[j]
                }
        }),
{
    lemma_place(s, l.ty);
    let p = board::layer_place(s, l.ty) as int;
    assert forall|i: int| #[trigger] is_first(s, l.ty, i) implies i == p by {
        if i < p {
            assert(s[i].ty != l.ty);
        } else if p < i {
            assert(s[p].ty != l.ty);
        }
    }
}

/// Data of one kind is merged as that kind; data of two kinds is not merged.
pub proof fn law_data_merged<N: Scalar>(v: LayerDataView<N>, other: LayerDataView<N>)
    ensures
        LayerData::<N>::merged(v, other) == match (v, other) {
            (LayerDataView::Gerber(a), LayerDataView::Gerber(b)) => LayerDataView::Gerber(
                gerber::merge::merged_layers(a, b),
            ),
            (LayerDataView::Excellon(a), LayerDataView::Excellon(b)) => LayerDataView::Excellon(
                excellon_format::ExcellonLayerData::<N>::merged(a, b),
            ),
            _ => v,
        },
{
}

/// An edit of a board edits the data of each layer by its kind, leaves texts, and keeps the types,
/// the names and the order.
pub proof fn law_board_edited<N: Scalar>(
    s: Seq<LayerView<N>>,
    by: Pos<N>,
    x: N,
    y: N,
    nx: u32,
    ny: u32,
    i: int,
)
    requires
        0 <= i < s.len(),
    ensures
        ({
            let moved = Board::<N>::transformed(s, by);
            let scaled = Board::<N>::scaled(s, x, y);
            let repeated = Board::<N>::repeated(s, nx, ny, by);
            &&& moved.len() == s.len() && scaled.len() == s.len() && repeated.len() == s.len()
            &&& moved[i].ty == s[i].ty && moved[i].name == s[i].name
            &&& scaled[i].ty == s[i].ty && scaled[i].name == s[i].name
            &&& repeated[i].ty == s[i].ty && repeated[i].name == s[i].name
            &&& match s[i].data {
                LayerDataView::Gerber(g) => {
                    &&& moved[i].data == LayerDataView::Gerber(
                        gerber::GerberLayerData::<N>::transformed(g, by),
                    )
                    &&& scaled[i].data == LayerDataView::Gerber(
                        gerber::GerberLayerData::<N>::scaled(g, x, y),
                    )
                    &&& repeated[i].data == LayerDataView::Gerber(
                        gerber::GerberLayerData::<N>::repeated(g, nx, ny, by),
                    )
                },
                LayerDataView::Excellon(e) => {
                    &&& moved[i].data == LayerDataView::Excellon(
                        excellon_format::ExcellonLayerData::<N>::transformed(e, by),
                    )
                    &&& scaled[i].data == LayerDataView::Excellon(
                        excellon_format::ExcellonLayerData::<N>::scaled(e, x, y),
                    )
                    &&& repeated[i].data == LayerDataView::Excellon(
                        excellon_format::ExcellonLayerData::<N>::repeated(e, nx, ny, by),
                    )
                },
                LayerDataView::Info(_) => moved[i] == s[i] && scaled[i] == s[i] && repeated[i]
                    == s[i],
            }
        }),
{
}

/// Merging boards: each layer is merged with the first of its type on the other board; one whose
/// type the other board lacks stays as it is, and no layer is added.
pub proof fn law_boards_merged<N: Scalar>(s: Seq<LayerView<N>>, other: Seq<LayerView<N>>, i: int)
    requires
        0 <= i < s.len(),
    ensures
        ({
            let t = Board::<N>::merged(s, other);
            &&& t.len() == s.len()
            &&& t[i].ty == s[i].ty && t[i].name == s[i].name
            &&& has_none(other, s[i].ty) ==> t[i] == s[i]
            &&& forall|j: int| #[trigger]
                is_first(other, s[i].ty, j) ==> t[i].data == LayerData::<N>::merged(
                    s[i].data,
                    other[j].data,
                )
        }),
{
    let ty = s[i].ty;
    lemma_place(other, ty);
    let p = board::layer_place(other, ty) as int;
    assert forall|j: int| #[trigger] is_first(other, ty, j) implies j == p by {
        if j < p {
            assert(other[j].ty != ty);
        } else if p < j {
            assert(other[p].ty != ty);
        }
    }
}

/// A comment stands behind the commands of a layer; texts have none.
pub proof fn law_commented<N>(v: LayerDataView<N>, txt: Seq<char>)
    ensures
        match v {
            LayerDataView::Gerber(g) => board::commented(v, txt) matches LayerDataView::Gerber(h) && (
            h.commands.len() == g.commands.len() + 1 && h.commands.drop_last() == g.commands
                && (h.commands.last() matches Command::FunctionCode(
                FunctionCode::GCode(GCode::Comment(CommentContent::String(t))),
            ) && t == txt) && h == gerber::GerberView { commands: h.commands, ..g }),
            LayerDataView::Excellon(e) => board::commented(v, txt) matches LayerDataView::Excellon(f)
                && (f.commands.len() == e.commands.len() + 1 && f.commands.drop_last()
                == e.commands && (f.commands.last() matches Ok(
                excellon_format::Command::Comment(t),
            ) && t == txt) && f == excellon_format::ExcellonView { commands: f.commands, ..e }),
            LayerDataView::Info(_) => board::commented(v, txt) == v,
        },
{
    match v {
        LayerDataView::Gerber(g) => {
            let h = board::commented(v, txt)->Gerber_0;
            assert(h.commands.drop_last() =~= g.commands);
        },
        LayerDataView::Excellon(e) => {
            let f = board::commented(v, txt)->Excellon_0;
            assert(f.commands.drop_last() =~= e.commands);
        },
        _ => {},
    }
}

/// The layers without a type are those of type `UndefinedGerber`, in their order.
pub proof fn law_undefined_layers<N>(s: Seq<LayerView<N>>, l: LayerView<N>)
    ensures
        board::undefined_layers(Seq::<LayerView<N>>::empty()).len() == 0,
        board::undefined_layers(s.push(l)) == if l.ty == LayerType::UndefinedGerber {
            board::undefined_layers(s).push(l)
        } else {
            board::undefined_layers(s)
        },
{
    reveal(Seq::filter);
    assert(s.push(l).drop_last() =~= s);
}

/// Among the outcomes of loading, the layers and the errors keep their order, and each outcome is
/// one of the two.
pub proof fn law_outcomes_split<N>(
    s: Seq<Result<LayerView<N>, (Seq<char>, Error<Seq<char>>)>>,
    l: LayerView<N>,
    e: (Seq<char>, Error<Seq<char>>),
)
    ensures
        board::loaded_layers(Seq::<Result<LayerView<N>, (Seq<char>, Error<Seq<char>>)>>::empty())
            == Seq::<LayerView<N>>::empty(),
        board::load_errors(
            Seq::<Result<LayerView<N>, (Seq<char>, Error<Seq<char>>)>>::empty(),
        ) == Seq::<(Seq<char>, Error<Seq<char>>)>::empty(),
        board::loaded_layers(s.push(Ok(l))) == board::loaded_layers(s).push(l),
        board::load_errors(s.push(Ok(l))) == board::load_errors(s),
        board::loaded_layers(s.push(Err(e))) == board::loaded_layers(s),
        board::load_errors(s.push(Err(e))) == board::load_errors(s).push(e),
{
    let a = s.push(Ok(l));
    assert(a.drop_last() =~= s && a.last() == Ok::<LayerView<N>, (Seq<char>, Error<Seq<char>>)>(l));
    let b = s.push(Err(e));
    assert(b.drop_last() =~= s && b.last() == Err::<LayerView<N>, (Seq<char>, Error<Seq<char>>)>(e));
}

/// The extension of a name is what follows its last point, or the name itself where it has none.
pub proof fn law_extension(front: Seq<char>, ext: Seq<char>)
    requires
        !ext.contains('.'),
    ensures
        board::extension(front + seq!['.'] + ext) == ext,
        board::extension(ext) == ext,
    decreases ext.len(),
{
    let s = front + seq!['.'] + ext;
    if ext.len() > 0 {
        let t = ext.drop_last();
        assert(!t.contains('.')) by {
            if t.contains('.') {
                let i = choose|i: int| 0 <= i < t.len() && t[i] == '.';
                assert(ext[i] == '.');
            }
        }
        law_extension(front, t);
        assert(ext.contains(ext.last()));
        assert(s.drop_last() =~= front + seq!['.'] + t);
        assert(t.push(ext.last()) =~= ext);
    } else {
        assert(s.last() == '.');
    }
}

/// The box of what a layer holds; a text has none.
pub open spec fn box_of(d: LayerDataView<Fixed>) -> (Pos<Fixed>, Pos<Fixed>) {
    match d {
        LayerDataView::Gerber(g) => gerber::corners::layer_corners(g),
        LayerDataView::Excellon(e) => excellon_format::corners::layer_corners(e),
        LayerDataView::Info(_) => crate::empty_box(),
    }
}

/// The layer counts for the size of the board: it is neither a keep-out area nor information nor
/// side plating.
pub open spec fn counts(l: LayerView<Fixed>) -> bool {
    &&& l.ty != LayerType::KeepOut
    &&& l.ty != LayerType::Info
    &&& l.ty != LayerType::SidePlating
    &&& !(l.data is Info)
}

/// `v` is not beyond `e` on that side.
pub open spec fn reaches_to(v: Fixed, e: Fixed, high: bool) -> bool {
    if high {
        v.raw <= e.raw
    } else {
        e.raw <= v.raw
    }
}

/// The bounding box of a board holds the boxes of the layers that count, and is no larger: on each
/// side it ends where one of them does.
pub proof fn law_board_box(s: Seq<LayerView<Fixed>>, across: bool, high: bool)
    ensures
        ({
            let e = drawings::edge(board::board_corners(s), across, high);
            &&& forall|i: int|
                0 <= i < s.len() && counts(#[trigger] s[i]) ==> reaches_to(
                    drawings::edge(box_of(s[i].data), across, high),
                    e,
                    high,
                )
            &&& drawings::is_empty_edge(e, high) || exists|i: int|
                0 <= i < s.len() && counts(#[trigger] s[i]) && e == drawings::edge(
                    box_of(s[i].data),
                    across,
                    high,
                )
        }),
    decreases s.len(),
{
    if s.len() > 0 {
        let t = s.drop_last();
        law_board_box(t, across, high);
        let e = drawings::edge(board::board_corners(s), across, high);
        let f = drawings::edge(board::board_corners(t), across, high);
        let n = s.len() - 1;
        assert(s[n] == s.last());
        assert forall|i: int| 0 <= i < s.len() && counts(#[trigger] s[i]) implies reaches_to(
            drawings::edge(box_of(s[i].data), across, high),
            e,
            high,
        ) by {
            if i < n {
                assert(t[i] == s[i]);
            }
        }
        if e == f && !drawings::is_empty_edge(e, high) {
            let i = choose|i: int|
                0 <= i < t.len() && counts(#[trigger] t[i]) && f == drawings::edge(
                    box_of(t[i].data),
                    across,
                    high,
                );
            assert(s[i] == t[i]);
        }
    }
}

/// The size of a box is the distance of its sides.
pub proof fn law_box_size(b: (Pos<Fixed>, Pos<Fixed>))
    requires
        moves::small(b.0.x) && moves::small(b.0.y) && moves::small(b.1.x) && moves::small(b.1.y),
    ensures
        crate::box_size(b).width.raw == b.1.x.raw - b.0.x.raw,
        crate::box_size(b).height.raw == b.1.y.raw - b.0.y.raw,
{
}

/// A quarter turn takes the X axis to the Y axis and the Y axis to the other side of the X axis; two
/// of them are a half turn, three a quarter turn the other way, and four none.
pub proof fn law_quarter_turns(p: Pos<Fixed>, steps: int)
    requires
        moves::small(p.x),
        moves::small(p.y),
    ensures
        ({
            let q = crate::turned(p, 4 * steps + 1);
            let h = crate::turned(p, 4 * steps + 2);
            let r = crate::turned(p, 4 * steps + 3);
            &&& crate::turned(p, 4 * steps) == p
            &&& q.x.raw == -p.y.raw && q.y.raw == p.x.raw
            &&& h.x.raw == -p.x.raw && h.y.raw == -p.y.raw
            &&& r.x.raw == p.y.raw && r.y.raw == -p.x.raw
        }),
{
}

/// The middle of a box is as far from one side as from the other.
pub proof fn law_middle(b: (Pos<Fixed>, Pos<Fixed>))
    requires
        moves::small(b.0.x) && moves::small(b.0.y) && moves::small(b.1.x) && moves::small(b.1.y),
    ensures
        ({
            let m = board::middle(b);
            &&& -1 <= (m.x.raw - b.0.x.raw) - (b.1.x.raw - m.x.raw) <= 1
            &&& -1 <= (m.y.raw - b.0.y.raw) - (b.1.y.raw - m.y.raw) <= 1
        }),
{
    let half = Fixed::ratio_spec(1, 2);
    assert(half.raw == 500_000_000);
    edits::lemma_round_div((b.0.x.raw + b.1.x.raw) * 500_000_000, 1_000_000_000);
    edits::lemma_round_div((b.0.y.raw + b.1.y.raw) * 500_000_000, 1_000_000_000);
}

/// A file that names no type by its extension takes the type that its contents name; any other keeps
/// the type of its extension, whatever its contents say.
pub proof fn law_type_read<N: Scalar>(ty: LayerType, doc: DocumentView<N>)
    ensures
        layer::read_document(ty, doc) matches Ok((t, d)) ==> (d matches LayerDataView::Gerber(g) && {
            &&& ty != LayerType::UndefinedGerber ==> t == ty
            &&& ty == LayerType::UndefinedGerber ==> t == g.layer_type
        }),
        layer::read_document(ty, doc) is Ok <==> doc.format_specification is Some,
{
}

/// A new layer holds nothing, is in millimetres and has four digits before the point and six behind
/// it.
pub proof fn law_empty_layer<N>(ty: LayerType)
    ensures
        ({
            let v = gerber::empty_layer::<N>(ty);
            &&& v.layer_type == ty
            &&& v.unit == Unit::Millimeters
            &&& units::is_4_6(v.coordinate_format)
            &&& v.commands.len() == 0 && v.apertures.len() == 0 && v.macros.len() == 0
            &&& v.parse_errors.len() == 0
        }),
{
}

/// The layers of files, one by one: one whose type no layer has yet comes behind the others; any
/// other is merged into the first of its type, or comes behind the others where that cannot be.
pub proof fn law_layers_gathered<N: Scalar>(s: Seq<LayerView<N>>, l: LayerView<N>, i: int)
    ensures
        board::gathered(Seq::<LayerView<N>>::empty()).len() == 0,
        ({
            let a = board::gathered(s);
            let b = board::gathered(s.push(l));
            &&& has_none(a, l.ty) ==> b == a.push(l)
            &&& is_first(a, l.ty, i) && !layer::data_joins(a[i].data, l.data) ==> b == a.push(l)
            &&& is_first(a, l.ty, i) && layer::data_joins(a[i].data, l.data) ==> b == a.update(
                i,
                LayerView { data: LayerData::<N>::merged(a[i].data, l.data), ..a[i] },
            )
        }),
{
    let a = board::gathered(s);
    assert(s.push(l).drop_last() =~= s);
    lemma_place(a, l.ty);
    let p = board::layer_place(a, l.ty) as int;
    if is_first(a, l.ty, i) && p < a.len() {
        if i < p {
            assert(a[i].ty != l.ty);
        } else if p < i {
            assert(a[p].ty != l.ty);
        }
    }
}

/// Only data of one kind joins, and all Gerber data that can be merged does.
pub proof fn law_kinds_join<N: Scalar>(v: LayerDataView<N>, other: LayerDataView<N>)
    ensures
        layer::data_joins(v, other) ==> (v is Gerber && other is Gerber) || (v is Excellon
            && other is Excellon),
        (v matches LayerDataView::Gerber(a) && (other matches LayerDataView::Gerber(b)
            && gerber::merge::layers_mergeable(a, b))) ==> layer::data_joins(v, other),
{
}

/// What a file gives has the name of the file: as a layer with the type and the data that were read,
/// or as an error that names it twice.
pub proof fn law_outcome_named<N>(
    ty: LayerType,
    data: LayerDataView<N>,
    e: ParseError<Seq<char>>,
    name: Seq<char>,
)
    ensures
        board::in_file::<N>(Ok((ty, data)), name) == Ok::<
            LayerView<N>,
            (Seq<char>, Error<Seq<char>>),
        >(LayerView { ty, name, data }),
        board::in_file::<N>(Err(e), name) == Err::<LayerView<N>, (Seq<char>, Error<Seq<char>>)>(
            (name, Error::ParseError(e, name)),
        ),
{
}

/// What the bytes of a file can be read as. A drill file that can be read is a drill layer; anything
/// else is what the Gerber reader makes of it, or its error.
pub proof fn law_file_read<N: Scalar, R: Fn(gerber_parser::GerberDoc) -> load::GerberDocument<N>>(
    ty: LayerType,
    bytes: Seq<u8>,
    read: R,
    outcome: Result<(LayerType, LayerDataView<N>), ParseError<Seq<char>>>,
    text: Seq<char>,
    v: excellon_format::ExcellonView<N>,
    e: Seq<char>,
)
    requires
        layer::readable_as(ty, bytes, read, outcome),
    ensures
        ty == LayerType::Drill && vstd::utf8::valid_utf8(bytes) && vstd::utf8::decode_utf8(bytes)
            == text && excellon_format::parse::parsed_layer::<N>(text) == Ok::<
            excellon_format::ExcellonView<N>,
            excellon_format::ExcellonError<Seq<char>>,
        >(v) ==> outcome == Ok::<(LayerType, LayerDataView<N>), ParseError<Seq<char>>>(
            (LayerType::Drill, LayerDataView::Excellon(v)),
        ),
        ty != LayerType::Drill && gerber::read::parsed(bytes) == Err::<
            gerber_parser::GerberDoc,
            Seq<char>,
        >(e) ==> outcome == Err::<(LayerType, LayerDataView<N>), ParseError<Seq<char>>>(
            ParseError::GerberParseError(e),
        ),
        ty != LayerType::Drill ==> !(outcome matches Ok((_, LayerDataView::Excellon(_)))),
{
}

/// The places of the undefined layers: each of them once, in the order of the layers.
pub proof fn law_undefined_places<N>(s: Seq<Layer<N>>)
    ensures
        forall|i: int, j: int|
            0 <= i < j < board::undefined_places(s).len() ==> (
            #[trigger] board::undefined_places(s)[i]) < #[trigger] board::undefined_places(s)[j],
        forall|i: int|
            #![trigger board::undefined_places(s).contains(i)]
            board::undefined_places(s).contains(i) <==> 0 <= i < s.len() && s[i].ty
                == LayerType::UndefinedGerber,
    decreases s.len(),
{
    if s.len() > 0 {
        let t = s.skip(1);
        law_undefined_places(t);
        let q = board::undefined_places(t);
        let r = board::undefined_places(s);
        let k: int = if s[0].ty == LayerType::UndefinedGerber {
            1
        } else {
            0
        };
        assert(r.len() == q.len() + k);
        assert(forall|j: int| k <= j < r.len() ==> #[trigger] r[j] == q[j - k] + 1);
        assert forall|i: int, j: int| 0 <= i < j < r.len() implies (#[trigger] r[i])
            < #[trigger] r[j] by {
            assert(r[j] == q[j - k] + 1);
            assert(q.contains(q[j - k]));
            if i >= k {
                assert(q[i - k] < q[j - k]);
            }
        }
        assert forall|i: int|
            #![trigger r.contains(i)]
            r.contains(i) <==> 0 <= i < s.len() && s[i].ty == LayerType::UndefinedGerber by {
            if r.contains(i) {
                let j = choose|j: int| 0 <= j < r.len() && r[j] == i;
                if j >= k {
                    assert(q.contains(q[j - k]));
                    assert(t[q[j - k]] == s[i]);
                }
            }
            if 0 <= i < s.len() && s[i].ty == LayerType::UndefinedGerber {
                if i == 0 {
                    assert(r[0] == 0);
                } else {
                    assert(t[i - 1] == s[i]);
                    assert(q.contains(i - 1));
                    let j = choose|j: int| 0 <= j < q.len() && q[j] == i - 1;
                    assert(r[j + k] == i);
                }
            }
        }
    }
}

/// A file is recognised by what stands behind the last point of its name; one that is not recognised
/// is refused by its name, and every other outcome carries the name, too.
pub proof fn law_file_recognised<
    N: Scalar,
    R: Fn(gerber_parser::GerberDoc) -> load::GerberDocument<N>,
>(
    front: Seq<char>,
    ext: Seq<char>,
    bytes: Seq<u8>,
    read: R,
    outcome: Result<LayerView<N>, (Seq<char>, Error<Seq<char>>)>,
)
    requires
        !ext.contains('.'),
        board::file_outcome(front + seq!['.'] + ext, bytes, read, outcome),
    ensures
        match layer_type::type_of_extension(layer_type::uppercase(ext), ext) {
            Ok(ty) => {
                &&& board::recognised(front + seq!['.'] + ext) == Some(ty)
                &&& outcome matches Ok(l) ==> l.name == front + seq!['.'] + ext && (ty
                    != LayerType::Drill ==> !(l.data is Excellon))
                &&& outcome matches Err((name, _)) ==> name == front + seq!['.'] + ext
            },
            Err(_) => {
                &&& board::recognised(front + seq!['.'] + ext) is None
                &&& outcome == Err::<LayerView<N>, (Seq<char>, Error<Seq<char>>)>(
                    (
                        front + seq!['.'] + ext,
                        Error::InvalidType(front + seq!['.'] + ext),
                    ),
                )
            },
        },
{
    law_extension(front, ext);
}

/// The box of a layer is the box of what it holds.
pub proof fn law_layer_box(v: LayerDataView<Fixed>)
    ensures
        layer::data_corners(v) == box_of(v),
{
}

/// A drill layer is written as the text of its commands, and a text as itself.
pub proof fn law_data_written<
    N: Scalar,
    E: Fn(&Vec<Command<N>>) -> Result<String, String>,
>(v: LayerDataView<N>, encode: E, text: Result<Seq<char>, Seq<char>>)
    requires
        layer::data_text(v, encode, text),
    ensures
        v matches LayerDataView::Info(s) ==> text == Ok::<Seq<char>, Seq<char>>(s),
        v matches LayerDataView::Excellon(e) ==> text == Ok::<Seq<char>, Seq<char>>(
            excellon_format::write::layer_text(e),
        ),
{
}

} // verus!
