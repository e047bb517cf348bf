//! What holds of boards.
use crate::board;
use crate::board::Board;
use crate::excellon_format;
use crate::fixed::Fixed;
use crate::gerber;
use crate::gerber::load::DocumentView;
use crate::gerber_types::Unit;
use crate::laws::layer_merges;
use crate::laws::merges;
use crate::laws::moves;
use crate::laws::moves::{law_box_moves, law_drill_box_moves, law_drill_moved_back, law_moved_back};
use crate::layer::{LayerData, LayerDataView, LayerView};
use crate::layer_type::LayerType;
use crate::scalar::Scalar;
use crate::table;
use crate::{LayerMerge, LayerTransform, Pos};
use vstd::prelude::*;

verus! {

/// The coordinates of the layer are in millimetres and stay in range.
pub open spec fn data_moves(d: LayerDataView<Fixed>, by: Pos<Fixed>) -> bool {
    match d {
        LayerDataView::Excellon(e) => moves::hits_move(e.header, by) && moves::hits_move(
            e.commands,
            by,
        ),
        LayerDataView::Gerber(g) => g.unit == Unit::Millimeters && moves::points_move(
            g.commands,
            by,
        ),
        LayerDataView::Info(_) => true,
    }
}

/// A board that is moved there and back is as it was.
pub proof fn law_board_moved_back(s: Seq<LayerView<Fixed>>, by: Pos<Fixed>)
    requires
        moves::has_opposite(by),
        forall|i: int| 0 <= i < s.len() ==> data_moves((#[trigger] s[i]).data, by),
    ensures
        Board::<Fixed>::transformed(Board::<Fixed>::transformed(s, by), moves::opposite(by)) == s,
{
    let t = Board::<Fixed>::transformed(Board::<Fixed>::transformed(s, by), moves::opposite(by));
    assert forall|i: int| 0 <= i < s.len() implies t[i] == s[i] by {
        assert(data_moves(s[i].data, by));
        match s[i].data {
            LayerDataView::Excellon(e) => law_drill_moved_back(e, by),
            LayerDataView::Gerber(g) => law_moved_back(g, by),
            LayerDataView::Info(_) => {},
        }
    }
    assert(t =~= s);
}

/// The layer has a box that moves with it.
pub open spec fn data_has_box(d: LayerDataView<Fixed>) -> bool {
    match d {
        LayerDataView::Excellon(e) => moves::absolute_program(e) && moves::has_hit(e.commands),
        LayerDataView::Gerber(g) => moves::plain_layer(g) && moves::given(g.commands) == (
            true,
            true,
        ),
        LayerDataView::Info(_) => false,
    }
}

/// Some layer takes up area.
pub open spec fn has_area(s: Seq<LayerView<Fixed>>) -> bool
    decreases s.len(),
{
    s.len() > 0 && (!board::takes_no_area(s.last()) || has_area(s.drop_last()))
}

/// The bounding box of a board moves with the board.
pub proof fn law_board_box_moves(s: Seq<LayerView<Fixed>>, by: Pos<Fixed>)
    requires
        moves::step_move(by),
        forall|i: int|
            0 <= i < s.len() && !board::takes_no_area(#[trigger] s[i]) ==> data_has_box(s[i].data),
    ensures
        has_area(s) ==> board::board_corners(Board::<Fixed>::transformed(s, by))
            == moves::moved_box(board::board_corners(s), by),
        !has_area(s) ==> board::board_corners(Board::<Fixed>::transformed(s, by))
            == board::board_corners(s) && board::board_corners(s) == crate::empty_box::<Fixed>(),
    decreases s.len(),
{
    let t = Board::<Fixed>::transformed(s, by);
    if s.len() > 0 {
        let d = s.drop_last();
        assert forall|i: int|
            0 <= i < d.len() && !board::takes_no_area(#[trigger] d[i]) implies data_has_box(
            d[i].data,
        ) by {
            assert(d[i] == s[i]);
        }
        law_board_box_moves(d, by);
        assert(t.drop_last() =~= Board::<Fixed>::transformed(d, by));
        let l = s[s.len() - 1];
        assert(l == s.last());
        assert(t.last() == LayerView { data: LayerData::<Fixed>::transformed(l.data, by), ..l });
        if !board::takes_no_area(l) {
            match l.data {
                LayerDataView::Excellon(e) => law_drill_box_moves(e, by),
                LayerDataView::Gerber(g) => law_box_moves(g, by),
                LayerDataView::Info(_) => {},
            }
            lemma_union_moves(
                board::board_corners(d),
                crate::layer::data_corners(l.data),
                by,
            );
        }
    }
}

proof fn lemma_union_moves(
    b: (Pos<Fixed>, Pos<Fixed>),
    c: (Pos<Fixed>, Pos<Fixed>),
    by: Pos<Fixed>,
)
    ensures
        board::union(moves::moved_box(b, by), moves::moved_box(c, by)) == moves::moved_box(
            board::union(b, c),
            by,
        ),
        board::union(crate::empty_box::<Fixed>(), c) == c,
{
}

/// The layers have boxes in millimetres that a merge puts together: the tools and apertures that
/// they select are defined, and the appended one does not depend on what comes before it.
pub open spec fn boxes_merge(v: LayerDataView<Fixed>, other: LayerDataView<Fixed>) -> bool {
    match (v, other) {
        (LayerDataView::Excellon(e), LayerDataView::Excellon(o)) => {
            &&& table::ordered(e.tools) && table::ordered(o.tools)
            &&& e.unit.unit == Unit::Millimeters && o.unit.unit == Unit::Millimeters
            &&& excellon_format::merge::tools_defined(e)
            &&& excellon_format::merge::layers_mergeable(e, o)
            &&& merges::stays_absolute(e)
            &&& merges::self_contained(o)
        },
        (LayerDataView::Gerber(g), LayerDataView::Gerber(o)) => {
            &&& table::ordered(g.apertures) && table::ordered(o.apertures)
            &&& g.unit == o.unit
            &&& gerber::merge::apertures_defined(g)
            &&& gerber::merge::layers_mergeable(g, o)
            &&& layer_merges::self_contained(o)
        },
        _ => false,
    }
}

proof fn lemma_data_merged_box(v: LayerDataView<Fixed>, other: LayerDataView<Fixed>)
    requires
        boxes_merge(v, other),
    ensures
        crate::layer::data_corners(LayerData::<Fixed>::merged(v, other)) == merges::hull(
            crate::layer::data_corners(v),
            crate::layer::data_corners(other),
        ),
{
    match (v, other) {
        (LayerDataView::Excellon(e), LayerDataView::Excellon(o)) => merges::law_merged_box(e, o),
        (LayerDataView::Gerber(g), LayerDataView::Gerber(o)) => {
            layer_merges::law_merged_box(g, o);
        },
        _ => {},
    }
}

proof fn lemma_union_hull(
    a: (Pos<Fixed>, Pos<Fixed>),
    b: (Pos<Fixed>, Pos<Fixed>),
    c: (Pos<Fixed>, Pos<Fixed>),
    d: (Pos<Fixed>, Pos<Fixed>),
)
    ensures
        board::union(merges::hull(a, b), merges::hull(c, d)) == merges::hull(
            board::union(a, c),
            board::union(b, d),
        ),
        merges::hull(crate::empty_box::<Fixed>(), crate::empty_box::<Fixed>())
            == crate::empty_box::<Fixed>(),
{
    reveal(merges::hull);
}

/// The boards have layers of the same types, in the same order, whose boxes a merge puts together.
pub open spec fn boards_match(s: Seq<LayerView<Fixed>>, other: Seq<LayerView<Fixed>>) -> bool {
    &&& s.len() == other.len()
    &&& forall|i: int|
        0 <= i < s.len() ==> (#[trigger] other[i]).ty == s[i].ty && boxes_merge(
            s[i].data,
            other[i].data,
        )
}

proof fn lemma_board_merged_box(
    s: Seq<LayerView<Fixed>>,
    other: Seq<LayerView<Fixed>>,
    merged: Seq<LayerView<Fixed>>,
)
    requires
        boards_match(s, other),
        merged.len() == s.len(),
        forall|i: int|
            0 <= i < s.len() ==> #[trigger] merged[i] == (LayerView {
                data: LayerData::<Fixed>::merged(s[i].data, other[i].data),
                ..s[i]
            }),
    ensures
        board::board_corners(merged) == merges::hull(
            board::board_corners(s),
            board::board_corners(other),
        ),
    decreases s.len(),
{
    if s.len() == 0 {
        let e = crate::empty_box::<Fixed>();
        lemma_union_hull(e, e, e, e);
    } else {
        let (d, o, m) = (s.drop_last(), other.drop_last(), merged.drop_last());
        assert forall|i: int| 0 <= i < d.len() implies (#[trigger] o[i]).ty == d[i].ty
            && boxes_merge(d[i].data, o[i].data) by {
            assert(o[i] == other[i] && d[i] == s[i]);
        }
        assert forall|i: int| 0 <= i < d.len() implies #[trigger] m[i] == (LayerView {
            data: LayerData::<Fixed>::merged(d[i].data, o[i].data),
            ..d[i]
        }) by {
            assert(m[i] == merged[i] && o[i] == other[i] && d[i] == s[i]);
        }
        lemma_board_merged_box(d, o, m);
        let k = s.len() - 1;
        assert(other[k].ty == s[k].ty && boxes_merge(s[k].data, other[k].data));
        assert(merged[k].ty == s[k].ty);
        lemma_data_merged_box(s[k].data, other[k].data);
        lemma_union_hull(
            board::board_corners(d),
            board::board_corners(o),
            crate::layer::data_corners(s[k].data),
            crate::layer::data_corners(other[k].data),
        );
    }
}

/// The bounding box of a merged board is the box around the boxes of the two boards, which have the
/// same layers.
pub proof fn law_board_merged_box(s: Seq<LayerView<Fixed>>, other: Seq<LayerView<Fixed>>)
    requires
        board::distinct_types(s),
        boards_match(s, other),
    ensures
        board::board_corners(Board::<Fixed>::merged(s, other)) == merges::hull(
            board::board_corners(s),
            board::board_corners(other),
        ),
{
    let m = Board::<Fixed>::merged(s, other);
    assert forall|i: int| 0 <= i < s.len() implies #[trigger] m[i] == (LayerView {
        data: LayerData::<Fixed>::merged(s[i].data, other[i].data),
        ..s[i]
    }) by {
        board::lemma_layer_place(other, s[i].ty);
        let p = board::layer_place(other, s[i].ty) as int;
        assert(other[i].ty == s[i].ty);
        if p < i {
            assert(other[p].ty == s[p].ty);
        }
        assert(m[i] == board::merged_with(s[i], other));
    }
    lemma_board_merged_box(s, other, m);
}

/// A loaded layer is in millimetres.
pub proof fn law_loaded_in_millimetres<N: Scalar>(ty: LayerType, doc: DocumentView<N>)
    ensures
        gerber::load::loaded(ty, doc) matches Ok(v) ==> v.unit == Unit::Millimeters,
{
}

/// A turn by `a` and one by `b` quarter turns are one by `a + b`; four of them change nothing.
pub proof fn law_turns_add(p: Pos<Fixed>, a: int, b: int)
    requires
        p.x.raw > i64::MIN,
        p.y.raw > i64::MIN,
    ensures
        crate::turned(crate::turned(p, a), b) == crate::turned(p, a + b),
        crate::turned(p, 4) == p,
{
    let c = a % 4;
    let d = b % 4;
    assert((a + b) % 4 == (c + d) % 4);
}

/// A turn around the middle leaves the middle where it is.
pub proof fn law_middle_stays(corners: (Pos<Fixed>, Pos<Fixed>), steps: int)
    requires
        moves::small(board::middle(corners).x),
        moves::small(board::middle(corners).y),
    ensures
        ({
            let c = board::middle(corners);
            let r = crate::turned(c, steps);
            let by = board::turned_back(c, steps);
            r.x.plus_spec(by.x) == c.x && r.y.plus_spec(by.y) == c.y
        }),
{
}

} // verus!
