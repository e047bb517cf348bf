//! What a document becomes as a layer, and what a layer leaves out when it is written.
use crate::error::ParseError;
use crate::gerber::load;
use crate::gerber::load::DocumentView;
use crate::gerber::macros;
use crate::gerber::optimize;
use crate::gerber::optimize::Optimize;
use crate::gerber::GerberView;
use crate::gerber_types::{
    Command, CommandView, DCode, ExtendedCode, FunctionCode, GCode,
    InterpolationMode, MCode, QuadrantMode, Unit,
};
use crate::laws::outputs;
use crate::laws::tables;
use crate::layer_type;
use crate::layer_type::LayerType;
use crate::scalar::Scalar;
use vstd::prelude::*;

verus! {

/// What was understood of a document and what was not, each in its order.
pub proof fn law_elements_split<N>(
    s: Seq<Result<CommandView<N>, Seq<char>>>,
    c: CommandView<N>,
    e: Seq<char>,
)
    ensures
        load::commands_of(Seq::<Result<CommandView<N>, Seq<char>>>::empty()).len() == 0,
        load::errors_of(Seq::<Result<CommandView<N>, Seq<char>>>::empty()).len() == 0,
        load::commands_of(s.push(Ok(c))) == load::commands_of(s).push(c),
        load::errors_of(s.push(Ok(c))) == load::errors_of(s),
        load::commands_of(s.push(Err(e))) == load::commands_of(s),
        load::errors_of(s.push(Err(e))) == load::errors_of(s).push(e),
{
    let a = s.push(Ok(c));
    assert(a.drop_last() =~= s && a.last() == Ok::<CommandView<N>, Seq<char>>(c));
    let b = s.push(Err(e));
    assert(b.drop_last() =~= s && b.last() == Err::<CommandView<N>, Seq<char>>(e));
}

/// The macros of a document: one is added behind the others, or takes the place of the first with
/// its name. No other command changes them.
pub proof fn law_macros_gathered<N>(
    s: Seq<CommandView<N>>,
    c: CommandView<N>,
)
    ensures
        load::macros_of(Seq::<CommandView<N>>::empty()).len() == 0,
        ({
            let a = load::macros_of(s);
            let b = load::macros_of(s.push(c));
            match c {
                Command::ExtendedCode(ExtendedCode::ApertureMacro(m)) => {
                    &&& (forall|i: int| 0 <= i < a.len() ==> (#[trigger] a[i]).name != m.name) ==> b
                        == a.push(m)
                    &&& forall|i: int|
                        0 <= i < a.len() && (#[trigger] a[i]).name == m.name && (forall|j: int|
                            0 <= j < i ==> (#[trigger] a[j]).name != m.name) ==> b == a.update(i, m)
                },
                _ => b == a,
            }
        }),
{
    let a = load::macros_of(s);
    assert(s.push(c).drop_last() =~= s);
    match c {
        Command::ExtendedCode(ExtendedCode::ApertureMacro(m)) => {
            macros::lemma_macro_place(a, m.name);
            let p = macros::macro_place(a, m.name) as int;
            assert forall|i: int|
                0 <= i < a.len() && (#[trigger] a[i]).name == m.name && (forall|j: int|
                    0 <= j < i ==> (#[trigger] a[j]).name != m.name) implies i == p by {
                if p < i {
                    assert(a[p].name != m.name);
                }
            }
            if forall|i: int| 0 <= i < a.len() ==> (#[trigger] a[i]).name != m.name {
                if p < a.len() {
                    assert(a[p].name == m.name);
                }
            }
        },
        _ => {},
    }
}

/// The command begins a drawing: a D-code, the start or the end of a region, or a grid.
pub open spec fn begins<N>(c: CommandView<N>) -> bool {
    ||| c matches Command::FunctionCode(FunctionCode::DCode(_))
    ||| c matches Command::FunctionCode(FunctionCode::GCode(GCode::RegionMode(_)))
    ||| c matches Command::ExtendedCode(ExtendedCode::StepAndRepeat(_))
}

/// The commands that do not end the file.
pub open spec fn no_ends<N>(s: Seq<CommandView<N>>) -> Seq<CommandView<N>>
    decreases s.len(),
{
    if s.len() == 0 {
        Seq::empty()
    } else if s.last() matches Command::FunctionCode(FunctionCode::MCode(MCode::EndOfFile)) {
        no_ends(s.drop_last())
    } else {
        no_ends(s.drop_last()).push(s.last())
    }
}

proof fn lemma_no_ends<N>(s: Seq<CommandView<N>>)
    ensures
        s.filter(|c: CommandView<N>| !load::ends_file(c)) == no_ends(s),
    decreases s.len(),
{
    reveal(Seq::filter);
    if s.len() > 0 {
        lemma_no_ends(s.drop_last());
    }
}

/// The drawing of a file is what it holds from the first command on that begins one, without the end
/// of the file.
pub proof fn law_drawing<N>(a: Seq<CommandView<N>>, b: Seq<CommandView<N>>)
    requires
        forall|i: int| 0 <= i < a.len() ==> !begins(#[trigger] a[i]),
        b.len() > 0 ==> begins(b[0]),
    ensures
        load::drawing(a + b) == no_ends(b),
{
    assert forall|i: int| 0 <= i < a.len() implies !load::starts_drawing(#[trigger] a[i]) by {
        assert(!begins(a[i]));
    }
    outputs::lemma_header_skipped(a, b);
    assert((a + b).skip(a.len() as int) =~= b);
    lemma_no_ends(b);
}

/// A document without a format is refused, with the name of the layer type. Any other is a layer in
/// millimetres; one that is in millimetres already, or says nothing of its unit, is taken over as it
/// is, with its errors.
pub proof fn law_loaded<N: Scalar>(ty: LayerType, doc: DocumentView<N>)
    ensures
        match doc.format_specification {
            None => load::loaded(ty, doc) matches Err(ParseError::FormatMissing(name)) && name
                == load::document_type(ty, doc).text_spec(),
            Some(f) => load::loaded(ty, doc) matches Ok(v) && {
                let all = load::commands_of(doc.commands);
                &&& v.unit == Unit::Millimeters
                &&& v.layer_type == load::document_type(ty, doc)
                &&& v.parse_errors == load::errors_of(doc.commands)
                &&& v.commands.len() == load::drawing(all).len()
                &&& v.apertures.len() == doc.apertures.len()
                &&& v.macros.len() == load::macros_of(all).len()
                &&& doc.units != Some(Unit::Inches) ==> {
                    &&& v.commands == load::drawing(all)
                    &&& v.coordinate_format == f
                    &&& v.apertures == doc.apertures
                    &&& v.macros == load::macros_of(all)
                }
                &&& doc.units == Some(Unit::Inches) ==> v == load::layer_in_unit(
                    GerberView {
                        layer_type: v.layer_type,
                        coordinate_format: f,
                        commands: load::drawing(all),
                        unit: Unit::Inches,
                        macros: load::macros_of(all),
                        apertures: doc.apertures,
                        parse_errors: v.parse_errors,
                    },
                    Unit::Millimeters,
                )
            },
        },
{
}

/// The type of a layer is that of the first function that its drawing names, or the one that is
/// given.
pub proof fn law_document_type<N>(ty: LayerType, doc: DocumentView<N>)
    ensures
        ({
            let s = load::drawing(load::commands_of(doc.commands));
            let t = load::document_type(ty, doc);
            match layer_type::first_function(s) {
                Some(f) => t == LayerType::of_function(f) && exists|i: int|
                    0 <= i < s.len() && #[trigger] tables::gives_function(s[i], f),
                None => t == ty,
            }
        }),
{
    tables::law_first_function(load::drawing(load::commands_of(doc.commands)));
}

/// What the modal commands of a drawing have set.
#[verifier::ext_equal]
pub ghost struct Modes {
    pub aperture: Option<i32>,
    pub interpolation: Option<InterpolationMode>,
    pub quadrant: Option<QuadrantMode>,
}

pub open spec fn sets_mode<N>(c: CommandView<N>) -> bool {
    ||| c matches Command::FunctionCode(FunctionCode::DCode(DCode::SelectAperture(_)))
    ||| c matches Command::FunctionCode(FunctionCode::GCode(GCode::InterpolationMode(_)))
    ||| c matches Command::FunctionCode(FunctionCode::GCode(GCode::QuadrantMode(_)))
}

/// The modes behind the commands: of each the last that was set.
pub open spec fn modes<N>(s: Seq<CommandView<N>>) -> Modes
    decreases s.len(),
{
    if s.len() == 0 {
        Modes { aperture: None, interpolation: None, quadrant: None }
    } else {
        let m = modes(s.drop_last());
        match s.last() {
            Command::FunctionCode(FunctionCode::DCode(DCode::SelectAperture(id))) => Modes {
                aperture: Some(id),
                ..m
            },
            Command::FunctionCode(FunctionCode::GCode(GCode::InterpolationMode(i))) => Modes {
                interpolation: Some(i),
                ..m
            },
            Command::FunctionCode(FunctionCode::GCode(GCode::QuadrantMode(q))) => Modes {
                quadrant: Some(q),
                ..m
            },
            _ => m,
        }
    }
}

/// What a drawing does: its commands that set no mode, each with the modes that it comes under.
pub open spec fn drawn_under<N>(s: Seq<CommandView<N>>) -> Seq<(CommandView<N>, Modes)>
    decreases s.len(),
{
    if s.len() == 0 {
        Seq::empty()
    } else if sets_mode(s.last()) {
        drawn_under(s.drop_last())
    } else {
        drawn_under(s.drop_last()).push((s.last(), modes(s.drop_last())))
    }
}

/// What is set is what was set last, where it is known.
proof fn lemma_context<N>(s: Seq<CommandView<N>>)
    ensures
        ({
            let c = optimize::context(s);
            let m = modes(s);
            &&& c.aperture is Some ==> c.aperture == m.aperture
            &&& c.interpolation_mode is Some ==> c.interpolation_mode == m.interpolation
            &&& c.quadrant_mode is Some ==> c.quadrant_mode == m.quadrant
        }),
    decreases s.len(),
{
    if s.len() > 0 {
        lemma_context(s.drop_last());
    }
}

/// A drawing without what repeats itself does what the drawing does: every command that sets no mode
/// is there, in its order and under the same modes.
pub proof fn law_needed_draws_the_same<N>(s: Seq<CommandView<N>>)
    ensures
        drawn_under(optimize::needed(s)) == drawn_under(s),
        modes(optimize::needed(s)) == modes(s),
    decreases s.len(),
{
    if s.len() > 0 {
        let t = s.drop_last();
        law_needed_draws_the_same(t);
        lemma_context(t);
        let n = optimize::needed(t);
        if !optimize::context(t).has(s.last()) {
            assert(n.push(s.last()).drop_last() =~= n);
        }
    }
}

/// A mode that is set twice in a row is set once.
pub proof fn law_repetition_left_out<N>(s: Seq<CommandView<N>>, c: CommandView<N>)
    requires
        sets_mode(c),
    ensures
        optimize::needed(s.push(c).push(c)) == optimize::needed(s.push(c)),
{
    let a = s.push(c);
    assert(a.drop_last() =~= s);
    assert(a.push(c).drop_last() =~= a);
}

/// Behind a grid every mode counts as not set: what is left out there does not depend on what stands
/// in front of the grid, and the grid itself stays.
pub proof fn law_grid_opens_modes<N>(
    s: Seq<CommandView<N>>,
    g: CommandView<N>,
    t: Seq<CommandView<N>>,
)
    requires
        g matches Command::ExtendedCode(ExtendedCode::StepAndRepeat(_)),
    ensures
        optimize::needed(s.push(g) + t) == optimize::needed(s).push(g) + optimize::needed(t),
        optimize::context(s.push(g) + t) == optimize::context(t),
    decreases t.len(),
{
    let a = s.push(g);
    assert(a.drop_last() =~= s);
    if t.len() == 0 {
        assert(a + t =~= a);
        assert(optimize::needed(s).push(g) + optimize::needed(t) =~= optimize::needed(s).push(g));
    } else {
        law_grid_opens_modes(s, g, t.drop_last());
        assert((a + t).drop_last() =~= a + t.drop_last());
        assert((a + t).last() == t.last());
        assert(optimize::needed(a + t) =~= optimize::needed(s).push(g) + optimize::needed(t));
    }
}

/// The command sets a mode to what it is already.
pub open spec fn repeats<N>(c: CommandView<N>, m: Modes) -> bool {
    match c {
        Command::FunctionCode(FunctionCode::DCode(DCode::SelectAperture(id))) => m.aperture
            == Some(id),
        Command::FunctionCode(FunctionCode::GCode(GCode::InterpolationMode(i))) => m.interpolation
            == Some(i),
        Command::FunctionCode(FunctionCode::GCode(GCode::QuadrantMode(q))) => m.quadrant == Some(q),
        _ => false,
    }
}

/// No grid starts or ends in the drawing.
pub open spec fn has_no_grid<N>(s: Seq<CommandView<N>>) -> bool {
    forall|i: int|
        0 <= i < s.len() ==> !(#[trigger] s[i] matches Command::ExtendedCode(
            ExtendedCode::StepAndRepeat(_),
        ))
}

proof fn lemma_nothing_repeated<N>(s: Seq<CommandView<N>>)
    requires
        has_no_grid(s),
    ensures
        ({
            let c = optimize::context(s);
            let m = modes(s);
            &&& c.aperture == m.aperture
            &&& c.interpolation_mode == m.interpolation
            &&& c.quadrant_mode == m.quadrant
        }),
        forall|j: int|
            0 <= j < optimize::needed(s).len() ==> !repeats(
                #[trigger] optimize::needed(s)[j],
                modes(optimize::needed(s).take(j)),
            ),
    decreases s.len(),
{
    if s.len() > 0 {
        let t = s.drop_last();
        assert(has_no_grid(t)) by {
            assert forall|i: int| 0 <= i < t.len() implies !(#[trigger] t[i] matches
                Command::ExtendedCode(ExtendedCode::StepAndRepeat(_))) by {
                assert(t[i] == s[i]);
            }
        }
        lemma_nothing_repeated(t);
        law_needed_draws_the_same(t);
        assert(s[s.len() - 1] == s.last());
        let n = optimize::needed(t);
        if !optimize::context(t).has(s.last()) {
            let o = n.push(s.last());
            assert forall|j: int| 0 <= j < o.len() implies !repeats(
                #[trigger] o[j],
                modes(o.take(j)),
            ) by {
                assert(o.take(j) =~= n.take(j));
                if j < n.len() {
                    assert(o[j] == n[j]);
                } else {
                    assert(n.take(j) =~= n);
                }
            }
        }
    }
}

/// An optimized drawing does what the drawing does. Where there is no grid, none of its commands
/// sets a mode to what it is already.
pub proof fn law_optimized<N: Scalar>(s: Seq<CommandView<N>>)
    ensures
        drawn_under(Command::<N>::optimized(s)) == drawn_under(s),
        modes(Command::<N>::optimized(s)) == modes(s),
        has_no_grid(s) ==> forall|j: int|
            0 <= j < Command::<N>::optimized(s).len() ==> !repeats(
                #[trigger] Command::<N>::optimized(s)[j],
                modes(Command::<N>::optimized(s).take(j)),
            ),
{
    law_needed_draws_the_same(s);
    if has_no_grid(s) {
        lemma_nothing_repeated(s);
    }
}

} // verus!
