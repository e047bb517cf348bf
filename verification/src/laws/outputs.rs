//! Reading what was written: the commands of RS-274X files.
use crate::error::ParseError;
use crate::gerber::load;
use crate::gerber::load::DocumentView;
use crate::gerber::macros;
use crate::gerber::optimize;
use crate::gerber::output;
use crate::gerber::read;
use crate::gerber::GerberView;
use crate::gerber_types::{
    ApertureMacroView, ApertureView, CommandView, ExtendedCode, GerberDate, Unit,
};
use crate::layer_type;
use crate::layer_type::{law_function_names_type, LayerType};
use crate::scalar::Scalar;
use vstd::prelude::*;

verus! {

/// The document of a file with the commands of a layer: each of them was understood, and the unit,
/// the format and the apertures are those that the commands define.
pub open spec fn written_document<N>(v: GerberView<N>, created: GerberDate) -> DocumentView<N> {
    DocumentView {
        units: Some(v.unit),
        format_specification: Some(v.coordinate_format),
        apertures: v.apertures,
        commands: understood(output::file_commands(v, created)),
    }
}

pub open spec fn understood<N>(s: Seq<CommandView<N>>) -> Seq<Result<CommandView<N>, Seq<char>>> {
    s.map_values(|c: CommandView<N>| Ok::<CommandView<N>, Seq<char>>(c))
}

/// The drawing begins with a command that begins a drawing, and none of its commands ends the file,
/// gives the file a function or defines a macro.
pub open spec fn is_drawing<N>(s: Seq<CommandView<N>>) -> bool {
    &&& s.len() > 0 ==> load::starts_drawing(s[0])
    &&& forall|i: int| 0 <= i < s.len() ==> draws(#[trigger] s[i])
}

pub open spec fn draws<N>(c: CommandView<N>) -> bool {
    &&& !load::ends_file(c)
    &&& layer_type::named_function(c) is None
    &&& !(c is ExtendedCode && c->ExtendedCode_0 is ApertureMacro)
}

proof fn lemma_understood<N>(s: Seq<CommandView<N>>)
    ensures
        load::commands_of(understood(s)) == s,
        load::errors_of(understood(s)) == Seq::<Seq<char>>::empty(),
    decreases s.len(),
{
    if s.len() > 0 {
        lemma_understood(s.drop_last());
        assert(understood(s).drop_last() =~= understood(s.drop_last()));
        assert(s.drop_last().push(s.last()) =~= s);
    } else {
        assert(load::commands_of(understood(s)) =~= s);
    }
}

/// What stands before the drawing is skipped.
pub proof fn lemma_header_skipped<N>(a: Seq<CommandView<N>>, b: Seq<CommandView<N>>)
    requires
        forall|i: int| 0 <= i < a.len() ==> !load::starts_drawing(#[trigger] a[i]),
        b.len() > 0 ==> load::starts_drawing(b[0]),
    ensures
        load::header_length(a + b) == a.len(),
    decreases a.len(),
{
    if a.len() > 0 {
        let t = a.skip(1);
        assert forall|i: int| 0 <= i < t.len() implies !load::starts_drawing(#[trigger] t[i]) by {
            assert(t[i] == a[i + 1]);
        }
        lemma_header_skipped(t, b);
        assert((a + b).skip(1) =~= t + b);
        assert((a + b)[0] == a[0]);
    } else {
        assert(a + b =~= b);
    }
}

/// Nothing but the end of the file falls away.
proof fn lemma_end_dropped<N>(s: Seq<CommandView<N>>, end: CommandView<N>)
    requires
        load::ends_file(end),
        forall|i: int| 0 <= i < s.len() ==> !load::ends_file(#[trigger] s[i]),
    ensures
        s.push(end).filter(|c: CommandView<N>| !load::ends_file(c)) == s,
{
    let f = |c: CommandView<N>| !load::ends_file(c);
    reveal(Seq::filter);
    assert(s.push(end).drop_last() =~= s);
    lemma_all_kept(s);
}

proof fn lemma_all_kept<N>(s: Seq<CommandView<N>>)
    requires
        forall|i: int| 0 <= i < s.len() ==> !load::ends_file(#[trigger] s[i]),
    ensures
        s.filter(|c: CommandView<N>| !load::ends_file(c)) == s,
    decreases s.len(),
{
    reveal(Seq::filter);
    if s.len() > 0 {
        let d = s.drop_last();
        assert forall|i: int| 0 <= i < d.len() implies !load::ends_file(#[trigger] d[i]) by {
            assert(d[i] == s[i]);
        }
        lemma_all_kept(d);
        assert(!load::ends_file(s[s.len() - 1]));
        assert(d.push(s.last()) =~= s);
    }
}

/// What is left out of a drawing leaves a drawing.
proof fn lemma_needed_draws<N>(s: Seq<CommandView<N>>)
    requires
        is_drawing(s),
    ensures
        is_drawing(optimize::needed(s)),
        optimize::needed(s).len() > 0 <==> s.len() > 0,
    decreases s.len(),
{
    if s.len() > 0 {
        let d = s.drop_last();
        assert(is_drawing(d)) by {
            assert forall|i: int| 0 <= i < d.len() implies draws(#[trigger] d[i]) by {
                assert(d[i] == s[i]);
            }
        }
        lemma_needed_draws(d);
        let n = optimize::needed(s);
        let m = optimize::needed(d);
        assert(draws(s[s.len() - 1]));
        assert forall|i: int| 0 <= i < n.len() implies draws(#[trigger] n[i]) by {
            if i < m.len() {
                assert(n[i] == m[i]);
            }
        }
        if d.len() == 0 {
            assert(!optimize::context(d).has(s.last()));
        } else {
            assert(n[0] == m[0]);
        }
    }
}

proof fn lemma_no_function<N>(s: Seq<CommandView<N>>)
    requires
        forall|i: int| 0 <= i < s.len() ==> layer_type::named_function(#[trigger] s[i]) is None,
    ensures
        layer_type::first_function(s) is None,
    decreases s.len(),
{
    if s.len() > 0 {
        let t = s.skip(1);
        assert forall|i: int| 0 <= i < t.len() implies layer_type::named_function(
            #[trigger] t[i],
        ) is None by {
            assert(t[i] == s[i + 1]);
        }
        lemma_no_function(t);
    }
}

/// Commands that define no macro add none.
proof fn lemma_macros_unchanged<N>(a: Seq<CommandView<N>>, b: Seq<CommandView<N>>)
    requires
        forall|i: int|
            0 <= i < b.len() ==> !(#[trigger] b[i] is ExtendedCode
                && b[i]->ExtendedCode_0 is ApertureMacro),
    ensures
        load::macros_of(a + b) == load::macros_of(a),
    decreases b.len(),
{
    if b.len() == 0 {
        assert(a + b =~= a);
    } else {
        let d = b.drop_last();
        assert forall|i: int| 0 <= i < d.len() implies !(#[trigger] d[i] is ExtendedCode
            && d[i]->ExtendedCode_0 is ApertureMacro) by {
            assert(d[i] == b[i]);
        }
        lemma_macros_unchanged(a, d);
        assert((a + b).drop_last() =~= a + d);
        assert((a + b).last() == b.last());
        assert(b[b.len() - 1] == b.last());
    }
}

/// The macros are found again where they are defined.
proof fn lemma_macros_defined<N>(a: Seq<CommandView<N>>, macros: Seq<ApertureMacroView<N>>)
    requires
        load::macros_of(a) == Seq::<ApertureMacroView<N>>::empty(),
        macros::distinct_names(macros),
    ensures
        load::macros_of(a + output::macro_definitions(macros)) == macros,
    decreases macros.len(),
{
    let b = output::macro_definitions(macros);
    if macros.len() == 0 {
        assert(a + b =~= a);
        assert(macros =~= Seq::empty());
    } else {
        let d = macros.drop_last();
        assert forall|i: int, j: int| 0 <= i < j < d.len() implies (#[trigger] d[i]).name != (
        #[trigger] d[j]).name by {
            assert(d[i] == macros[i] && d[j] == macros[j]);
        }
        lemma_macros_defined(a, d);
        assert(b.drop_last() =~= output::macro_definitions(d));
        assert((a + b).drop_last() =~= a + output::macro_definitions(d));
        assert((a + b).last() == b.last());
        let m = macros.last();
        assert forall|i: int| 0 <= i < d.len() implies (#[trigger] d[i]).name != m.name by {
            assert(d[i] == macros[i]);
            assert(macros[i].name != macros[macros.len() - 1].name);
        }
        macros::lemma_macro_place(d, m.name);
        assert(d.push(m) =~= macros);
    }
}

proof fn lemma_definitions<N>(apertures: Seq<(i32, ApertureView<N>)>, macros: bool)
    ensures
        forall|i: int|
            0 <= i < output::definitions(apertures, macros).len() ==> (#[trigger] output::definitions(
                apertures,
                macros,
            )[i] is ExtendedCode && output::definitions(
                apertures,
                macros,
            )[i]->ExtendedCode_0 is ApertureDefinition),
    decreases apertures.len(),
{
    if apertures.len() > 0 {
        lemma_definitions(apertures.drop_last(), macros);
        let s = output::definitions(apertures, macros);
        let t = output::definitions(apertures.drop_last(), macros);
        assert forall|i: int| 0 <= i < s.len() implies (#[trigger] s[i] is ExtendedCode
            && s[i]->ExtendedCode_0 is ApertureDefinition) by {
            if i < t.len() {
                assert(s[i] == t[i]);
            }
        }
    }
}

/// The commands before the drawing.
pub open spec fn front<N>(v: GerberView<N>, created: GerberDate) -> Seq<CommandView<N>> {
    output::preamble(v, created) + output::definitions(v.apertures, false)
        + output::macro_definitions(v.macros) + output::definitions(v.apertures, true)
}

proof fn lemma_front<N>(v: GerberView<N>, created: GerberDate)
    requires
        macros::distinct_names(v.macros),
    ensures
        forall|i: int|
            0 <= i < front(v, created).len() ==> !load::starts_drawing(
                #[trigger] front(v, created)[i],
            ),
        load::macros_of(front(v, created)) == v.macros,
{
    let p = output::preamble(v, created);
    let a = output::definitions(v.apertures, false);
    let m = output::macro_definitions(v.macros);
    let b = output::definitions(v.apertures, true);
    lemma_definitions(v.apertures, false);
    lemma_definitions(v.apertures, true);
    let none = Seq::<CommandView<N>>::empty();
    lemma_macros_unchanged(none, p);
    assert(none + p =~= p);
    lemma_macros_unchanged(p, a);
    lemma_macros_defined(p + a, v.macros);
    lemma_macros_unchanged(p + a + m, b);
    let s = front(v, created);
    assert forall|i: int| 0 <= i < s.len() implies !load::starts_drawing(#[trigger] s[i]) by {
        if i < p.len() {
            assert(s[i] == p[i]);
        } else if i < p.len() + a.len() {
            assert(s[i] == a[i - p.len()]);
        } else if i < p.len() + a.len() + m.len() {
            assert(s[i] == m[i - p.len() - a.len()]);
        } else {
            assert(s[i] == b[i - p.len() - a.len() - m.len()]);
        }
    }
}

/// A layer in millimetres is read back from the commands that it is written as: with its type, its
/// format, its apertures and its macros, and with its drawing, from which only the modal commands
/// that repeat what is set already are gone.
pub proof fn law_layer_read_back<N: Scalar>(v: GerberView<N>, created: GerberDate)
    requires
        v.unit == Unit::Millimeters,
        v.layer_type != LayerType::UndefinedGerber,
        is_drawing(v.commands),
        macros::distinct_names(v.macros),
    ensures
        read::named_type(written_document(v, created)) == v.layer_type,
        load::loaded(v.layer_type, written_document(v, created)) == Ok::<
            GerberView<N>,
            ParseError<Seq<char>>,
        >(
            GerberView {
                commands: optimize::needed(v.commands),
                parse_errors: Seq::empty(),
                ..v
            },
        ),
{
    let doc = written_document(v, created);
    let all = output::file_commands(v, created);
    let a = front(v, created);
    let n = optimize::needed(v.commands);
    let end: CommandView<N> = all.last();
    lemma_understood(all);
    lemma_front(v, created);
    lemma_needed_draws(v.commands);
    assert(load::ends_file(end));
    assert(all =~= a + n.push(end));
    if n.len() > 0 {
        lemma_header_skipped(a, n.push(end));
    } else {
        lemma_end_skipped(a, end);
        assert(n.push(end) =~= seq![end]);
    }
    assert(load::drawing(all) == n) by {
        if n.len() > 0 {
            assert(all.skip(a.len() as int) =~= n.push(end));
            assert forall|i: int| 0 <= i < n.len() implies !load::ends_file(#[trigger] n[i]) by {
                assert(draws(n[i]));
            }
            lemma_end_dropped(n, end);
        } else {
            reveal(Seq::filter);
            assert(all.skip(all.len() as int) =~= Seq::empty());
            assert(n =~= Seq::empty());
        }
    }
    assert forall|i: int| 0 <= i < n.len() implies layer_type::named_function(
        #[trigger] n[i],
    ) is None by {
        assert(draws(n[i]));
    }
    lemma_no_function(n);
    let tail = n.push(end);
    assert forall|i: int| 0 <= i < tail.len() implies !(#[trigger] tail[i] is ExtendedCode
        && tail[i]->ExtendedCode_0 is ApertureMacro) by {
        if i < n.len() {
            assert(draws(n[i]));
            assert(tail[i] == n[i]);
        }
    }
    lemma_macros_unchanged(a, tail);
    assert(layer_type::first_function(all) == Some(v.layer_type.function_spec())) by {
        let p = output::preamble(v, created);
        assert(all[0] == p[0] && all[1] == p[1]);
        assert(layer_type::named_function(all[0]) is None);
        assert(all.skip(1)[0] == all[1]);
        reveal_with_fuel(layer_type::first_function, 3);
    }
    law_function_names_type(v.layer_type);
}

/// A file without a drawing is skipped to its end.
proof fn lemma_end_skipped<N>(a: Seq<CommandView<N>>, end: CommandView<N>)
    requires
        forall|i: int| 0 <= i < a.len() ==> !load::starts_drawing(#[trigger] a[i]),
        load::ends_file(end),
    ensures
        load::header_length(a + seq![end]) == a.len() + 1,
{
    let s = a.push(end);
    assert forall|i: int| 0 <= i < s.len() implies !load::starts_drawing(#[trigger] s[i]) by {
        if i < a.len() {
            assert(s[i] == a[i]);
        }
    }
    let none = Seq::<CommandView<N>>::empty();
    lemma_header_skipped(s, none);
    assert(s + none =~= a + seq![end]);
}

} // verus!
