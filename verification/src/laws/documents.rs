//! What the commands of a written RS-274X file define, as a reader of them collects it.
use crate::error::ParseError;
use crate::gerber::load;
use crate::gerber::load::DocumentView;
use crate::gerber::macros;
use crate::gerber::optimize;
use crate::gerber::output;
use crate::gerber::read;
use crate::gerber::GerberView;
use crate::gerber_types::{
    ApertureMacroView, ApertureView, Command, CommandView, CommentContent, CoordinateFormat,
    ExtendedCode, FileAttribute, FunctionCode, GCode, GerberDate, MCode, Polarity, QuadrantMode,
    StandardComment, Unit,
};
use crate::laws::outputs;
use crate::layer_type::LayerType;
use crate::scalar::Scalar;
use crate::table;
use vstd::prelude::*;

verus! {

/// The command defines the aperture `a` under the number `k`.
pub open spec fn defines<N>(c: CommandView<N>, k: i32, a: ApertureView<N>) -> bool {
    c matches Command::ExtendedCode(ExtendedCode::ApertureDefinition(d)) && (d.code == k
        && d.aperture == a)
}

/// The command defines an aperture.
pub open spec fn is_definition<N>(c: CommandView<N>) -> bool {
    c matches Command::ExtendedCode(ExtendedCode::ApertureDefinition(_))
}

/// The command defines a macro.
pub open spec fn is_macro<N>(c: CommandView<N>) -> bool {
    c matches Command::ExtendedCode(ExtendedCode::ApertureMacro(_))
}

/// No number stands twice.
pub open spec fn numbers_differ<N>(s: Seq<(i32, ApertureView<N>)>) -> bool {
    forall|i: int, j: int| 0 <= i < j < s.len() ==> (#[trigger] s[i]).0 != (#[trigger] s[j]).0
}

/// Which of the apertures is written at a place of their definitions.
proof fn lemma_definition_at<N>(s: Seq<(i32, ApertureView<N>)>, macros: bool, j: int) -> (i: int)
    requires
        0 <= j < output::definitions(s, macros).len(),
    ensures
        0 <= i < s.len(),
        s[i].1 is Macro == macros,
        defines(output::definitions(s, macros)[j], s[i].0, s[i].1),
    decreases s.len(),
{
    let d = output::definitions(s.drop_last(), macros);
    if j < d.len() {
        let i = lemma_definition_at(s.drop_last(), macros, j);
        i
    } else {
        s.len() - 1
    }
}

/// Where an aperture is written, in the order of the apertures.
proof fn lemma_definition_of<N>(s: Seq<(i32, ApertureView<N>)>, i: int) -> (j: int)
    requires
        0 <= i < s.len(),
    ensures
        0 <= j < output::definitions(s, s[i].1 is Macro).len(),
        defines(output::definitions(s, s[i].1 is Macro)[j], s[i].0, s[i].1),
    decreases s.len(),
{
    let macros = s[i].1 is Macro;
    let d = output::definitions(s.drop_last(), macros);
    if i < s.len() - 1 {
        let j = lemma_definition_of(s.drop_last(), i);
        j
    } else {
        d.len() as int
    }
}

/// An aperture is written once.
proof fn lemma_definition_once<N>(
    s: Seq<(i32, ApertureView<N>)>,
    macros: bool,
    j: int,
    q: int,
    k: i32,
    a: ApertureView<N>,
    b: ApertureView<N>,
)
    requires
        numbers_differ(s),
        0 <= j < q < output::definitions(s, macros).len(),
    ensures
        !(defines(output::definitions(s, macros)[j], k, a) && defines(
            output::definitions(s, macros)[q],
            k,
            b,
        )),
    decreases s.len(),
{
    let t = s.drop_last();
    let d = output::definitions(t, macros);
    assert(numbers_differ(t)) by {
        assert forall|i: int, j: int| 0 <= i < j < t.len() implies (#[trigger] t[i]).0 != (
        #[trigger] t[j]).0 by {
            assert(t[i] == s[i] && t[j] == s[j]);
        }
    }
    if q < d.len() {
        lemma_definition_once(t, macros, j, q, k, a, b);
    } else {
        let i = lemma_definition_at(t, macros, j);
        assert(t[i] == s[i]);
        assert(s[i].0 != s[s.len() - 1].0);
    }
}

/// How many commands of a file stand in front of the drawing.
pub open spec fn front_length<N>(v: GerberView<N>, created: GerberDate) -> int {
    output::file_commands(v, created).len() - 1 - optimize::needed(v.commands).len()
}

proof fn lemma_places<N>(v: GerberView<N>, created: GerberDate)
    ensures
        ({
            let s = output::file_commands(v, created);
            let n = front_length(v, created);
            let a = output::definitions(v.apertures, false);
            let b = output::definitions(v.apertures, true);
            let m = v.macros.len() as int;
            &&& n == 8 + a.len() + m + b.len()
            &&& forall|j: int| 0 <= j < 8 ==> !is_definition(#[trigger] s[j]) && !is_macro(s[j])
            &&& forall|j: int| 8 <= j < 8 + a.len() ==> #[trigger] s[j] == a[j - 8]
            &&& forall|j: int|
                8 + a.len() <= j < 8 + a.len() + m ==> (
                #[trigger] s[j] matches Command::ExtendedCode(ExtendedCode::ApertureMacro(x)) && x
                    == v.macros[j - 8 - a.len()])
            &&& forall|j: int|
                8 + a.len() + m <= j < n ==> #[trigger] s[j] == b[j - 8 - a.len() - m]
            &&& s.subrange(n, s.len() - 1) == optimize::needed(v.commands)
        }),
{
    let s = output::file_commands(v, created);
    let n = front_length(v, created);
    let p = output::preamble(v, created);
    let a = output::definitions(v.apertures, false);
    let m = output::macro_definitions(v.macros);
    let b = output::definitions(v.apertures, true);
    assert forall|j: int| 0 <= j < 8 implies !is_definition(#[trigger] s[j]) && !is_macro(s[j]) by {
        assert(s[j] == p[j]);
    }
    assert(s.subrange(n, s.len() - 1) =~= optimize::needed(v.commands));
}

/// The apertures and macros of a written file. In front of the drawing each aperture of the layer
/// is defined once, under its number and as it is; nothing else is defined there; each macro is
/// defined there, in the order of the layer, and an aperture that is made of a macro comes behind
/// all of them. The file ends with the end of the file.
pub proof fn law_definitions_written<N>(v: GerberView<N>, created: GerberDate)
    requires
        numbers_differ(v.apertures),
    ensures
        ({
            let s = output::file_commands(v, created);
            let n = front_length(v, created);
            &&& forall|i: int|
                0 <= i < v.apertures.len() ==> is_defined(
                    s.take(n),
                    (#[trigger] v.apertures[i]).0,
                    v.apertures[i].1,
                )
            &&& forall|j: int|
                0 <= j < n && is_definition(#[trigger] s[j]) ==> exists|i: int|
                    0 <= i < v.apertures.len() && defines(
                        s[j],
                        (#[trigger] v.apertures[i]).0,
                        v.apertures[i].1,
                    )
            &&& forall|j: int, q: int, k: i32, a: ApertureView<N>, b: ApertureView<N>|
                0 <= j < q < n && #[trigger] defines(s[j], k, a) ==> !#[trigger] defines(s[q], k, b)
            &&& forall|j: int|
                0 <= j < n && is_definition(#[trigger] s[j])
                    && s[j]->ExtendedCode_0->ApertureDefinition_0.aperture is Macro ==> !exists|q: int|
                    j < q < n && is_macro(#[trigger] s[q])
            &&& macros_in(s.take(n)) == v.macros
            &&& s.subrange(n, s.len() - 1) == optimize::needed(v.commands)
            &&& s.last() matches Command::FunctionCode(FunctionCode::MCode(MCode::EndOfFile))
        }),
{
    let s = output::file_commands(v, created);
    let n = front_length(v, created);
    let a = output::definitions(v.apertures, false);
    let b = output::definitions(v.apertures, true);
    let m = v.macros.len() as int;
    lemma_places(v, created);
    assert forall|i: int| 0 <= i < v.apertures.len() implies is_defined(
        s.take(n),
        (#[trigger] v.apertures[i]).0,
        v.apertures[i].1,
    ) by {
        let j = lemma_definition_of(v.apertures, i);
        let place = if v.apertures[i].1 is Macro {
            8 + a.len() + m + j
        } else {
            8 + j
        };
        assert(s.take(n)[place] == s[place]);
        assert(defines(s.take(n)[place], v.apertures[i].0, v.apertures[i].1));
    }
    assert forall|j: int| 0 <= j < n && is_definition(#[trigger] s[j]) implies exists|i: int|
        0 <= i < v.apertures.len() && defines(
            s[j],
            (#[trigger] v.apertures[i]).0,
            v.apertures[i].1,
        ) by {
        if 8 <= j < 8 + a.len() {
            let i = lemma_definition_at(v.apertures, false, j - 8);
            assert(defines(s[j], v.apertures[i].0, v.apertures[i].1));
        } else if j >= 8 + a.len() + m {
            let i = lemma_definition_at(v.apertures, true, j - 8 - a.len() - m);
            assert(defines(s[j], v.apertures[i].0, v.apertures[i].1));
        }
    }
    assert forall|j: int, q: int, k: i32, x: ApertureView<N>, y: ApertureView<N>|
        0 <= j < q < n && #[trigger] defines(s[j], k, x) implies !#[trigger] defines(
        s[q],
        k,
        y,
    ) by {
        if defines(s[q], k, y) {
            assert(is_definition(s[j]) && is_definition(s[q]));
            if 8 <= j && q < 8 + a.len() {
                lemma_definition_once(v.apertures, false, j - 8, q - 8, k, x, y);
            } else if j >= 8 + a.len() + m {
                let o = 8 + a.len() + m;
                lemma_definition_once(v.apertures, true, j - o, q - o, k, x, y);
            } else {
                let i = lemma_definition_at(v.apertures, false, j - 8);
                let r = lemma_definition_at(v.apertures, true, q - 8 - a.len() - m);
                if i < r {
                    assert(v.apertures[i].0 != v.apertures[r].0);
                } else if r < i {
                    assert(v.apertures[r].0 != v.apertures[i].0);
                }
            }
        }
    }
    assert forall|j: int|
        0 <= j < n && is_definition(#[trigger] s[j])
            && s[j]->ExtendedCode_0->ApertureDefinition_0.aperture is Macro implies !exists|q: int|
        j < q < n && is_macro(#[trigger] s[q]) by {
        if 8 <= j < 8 + a.len() {
            let i = lemma_definition_at(v.apertures, false, j - 8);
        }
        assert forall|q: int| j < q < n implies !is_macro(#[trigger] s[q]) by {
            let i = lemma_definition_at(v.apertures, true, q - 8 - a.len() - m);
        }
    }
    let front = s.take(n);
    assert forall|j: int| 0 <= j < 8 + a.len() implies !is_macro(#[trigger] front[j]) by {
        assert(front[j] == s[j]);
        if j >= 8 {
            let i = lemma_definition_at(v.apertures, false, j - 8);
        }
    }
    assert forall|j: int| 8 + a.len() + m <= j < n implies !is_macro(#[trigger] front[j]) by {
        assert(front[j] == s[j]);
        let i = lemma_definition_at(v.apertures, true, j - 8 - a.len() - m);
    }
    lemma_macros_in(front, v.macros, 8 + a.len() as int);
}

/// Some command defines the aperture `a` under the number `k`.
pub open spec fn is_defined<N>(s: Seq<CommandView<N>>, k: i32, a: ApertureView<N>) -> bool {
    exists|j: int| 0 <= j < s.len() && defines(#[trigger] s[j], k, a)
}

/// No command defines an aperture under the number `k`.
pub open spec fn is_undefined<N>(s: Seq<CommandView<N>>, k: i32) -> bool {
    forall|a: ApertureView<N>| !#[trigger] is_defined(s, k, a)
}

/// The macros that the commands define, in their order.
pub open spec fn macros_in<N>(s: Seq<CommandView<N>>) -> Seq<ApertureMacroView<N>>
    decreases s.len(),
{
    if s.len() == 0 {
        Seq::empty()
    } else {
        let rest = macros_in(s.drop_last());
        match s.last() {
            Command::ExtendedCode(ExtendedCode::ApertureMacro(m)) => rest.push(m),
            _ => rest,
        }
    }
}

proof fn lemma_macros_in<N>(s: Seq<CommandView<N>>, macros: Seq<ApertureMacroView<N>>, from: int)
    requires
        0 <= from,
        from + macros.len() <= s.len() || macros.len() == 0,
        forall|j: int| 0 <= j < from && j < s.len() ==> !is_macro(#[trigger] s[j]),
        forall|j: int|
            from <= j < from + macros.len() ==> (#[trigger] s[j] matches Command::ExtendedCode(
                ExtendedCode::ApertureMacro(x),
            ) && x == macros[j - from]),
        forall|j: int| from + macros.len() <= j < s.len() ==> !is_macro(#[trigger] s[j]),
    ensures
        macros_in(s) == macros,
    decreases s.len(),
{
    if s.len() == 0 {
        assert(macros =~= Seq::empty());
    } else {
        let t = s.drop_last();
        assert(s.last() == s[s.len() - 1]);
        if macros.len() > 0 && s.len() == from + macros.len() {
            lemma_macros_in(t, macros.drop_last(), from);
            assert(macros.drop_last().push(macros.last()) =~= macros);
        } else {
            lemma_macros_in(t, macros, from);
        }
    }
}

/// The last unit that the commands set.
pub open spec fn unit_set<N>(s: Seq<CommandView<N>>) -> Option<Unit>
    decreases s.len(),
{
    if s.len() == 0 {
        None
    } else {
        match s.last() {
            Command::ExtendedCode(ExtendedCode::Unit(u)) => Some(u),
            _ => unit_set(s.drop_last()),
        }
    }
}

/// The last format that the commands set.
pub open spec fn format_set<N>(s: Seq<CommandView<N>>) -> Option<CoordinateFormat>
    decreases s.len(),
{
    if s.len() == 0 {
        None
    } else {
        match s.last() {
            Command::ExtendedCode(ExtendedCode::CoordinateFormat(f)) => Some(f),
            _ => format_set(s.drop_last()),
        }
    }
}

/// The apertures that the commands define, in the order of their numbers.
pub open spec fn gathered<N>(s: Seq<CommandView<N>>) -> Seq<(i32, ApertureView<N>)>
    decreases s.len(),
{
    if s.len() == 0 {
        Seq::empty()
    } else {
        let rest = gathered(s.drop_last());
        match s.last() {
            Command::ExtendedCode(ExtendedCode::ApertureDefinition(d)) => table::inserted(
                rest,
                d.code,
                d.aperture,
            ),
            _ => rest,
        }
    }
}

/// The document that a reader collects from commands that were all understood: the unit, the format
/// and the apertures are those that the commands set and define.
pub open spec fn collected<N>(s: Seq<CommandView<N>>) -> DocumentView<N> {
    DocumentView {
        units: unit_set(s),
        format_specification: format_set(s),
        apertures: gathered(s),
        commands: outputs::understood(s),
    }
}

/// The command neither sets a unit or a format nor defines an aperture.
pub open spec fn sets_nothing<N>(c: CommandView<N>) -> bool {
    &&& !(c matches Command::ExtendedCode(ExtendedCode::Unit(_)))
    &&& !(c matches Command::ExtendedCode(ExtendedCode::CoordinateFormat(_)))
    &&& !is_definition(c)
}

proof fn lemma_gathered<N>(s: Seq<CommandView<N>>)
    ensures
        table::ordered(gathered(s)),
        forall|k: i32|
            match #[trigger] table::lookup(gathered(s), k) {
                Some(a) => is_defined(s, k, a),
                None => is_undefined(s, k),
            },
    decreases s.len(),
{
    if s.len() > 0 {
        let t = s.drop_last();
        lemma_gathered(t);
        let g = gathered(t);
        match s.last() {
            Command::ExtendedCode(ExtendedCode::ApertureDefinition(d)) => {
                table::lemma_inserted(g, d.code, d.aperture);
                assert(defines(s[s.len() - 1], d.code, d.aperture));
            },
            _ => {},
        }
        assert forall|k: i32|
            match #[trigger] table::lookup(gathered(s), k) {
                Some(a) => is_defined(s, k, a),
                None => is_undefined(s, k),
            } by {
            match table::lookup(gathered(s), k) {
                Some(a) => {
                    if !defines(s.last(), k, a) {
                        assert(table::lookup(g, k) == Some(a));
                        let j = choose|j: int| 0 <= j < t.len() && defines(#[trigger] t[j], k, a);
                        assert(s[j] == t[j]);
                    } else {
                        assert(s[s.len() - 1] == s.last());
                    }
                },
                None => {
                    assert(table::lookup(g, k) is None);
                    assert forall|a: ApertureView<N>| !#[trigger] is_defined(s, k, a) by {
                        if is_defined(s, k, a) {
                            let j = choose|j: int|
                                0 <= j < s.len() && defines(#[trigger] s[j], k, a);
                            if j < t.len() {
                                assert(t[j] == s[j]);
                                assert(is_defined(t, k, a));
                            }
                        }
                    }
                },
            }
        }
    } else {
        assert forall|k: i32|
            match #[trigger] table::lookup(gathered(s), k) {
                Some(a) => is_defined(s, k, a),
                None => is_undefined(s, k),
            } by {}
    }
}

proof fn lemma_sets_nothing<N>(a: Seq<CommandView<N>>, b: Seq<CommandView<N>>)
    requires
        forall|i: int| 0 <= i < b.len() ==> sets_nothing(#[trigger] b[i]),
    ensures
        unit_set(a + b) == unit_set(a),
        format_set(a + b) == format_set(a),
        gathered(a + b) == gathered(a),
    decreases b.len(),
{
    if b.len() == 0 {
        assert(a + b =~= a);
    } else {
        let d = b.drop_last();
        assert forall|i: int| 0 <= i < d.len() implies sets_nothing(#[trigger] d[i]) by {
            assert(d[i] == b[i]);
        }
        lemma_sets_nothing(a, d);
        assert((a + b).drop_last() =~= a + d);
        assert((a + b).last() == b[b.len() - 1]);
    }
}

/// Definitions of apertures and macros set neither unit nor format.
proof fn lemma_units_kept<N>(a: Seq<CommandView<N>>, b: Seq<CommandView<N>>)
    requires
        forall|i: int|
            0 <= i < b.len() ==> is_definition(#[trigger] b[i]) || sets_nothing(b[i]),
    ensures
        unit_set(a + b) == unit_set(a),
        format_set(a + b) == format_set(a),
    decreases b.len(),
{
    if b.len() == 0 {
        assert(a + b =~= a);
    } else {
        let d = b.drop_last();
        assert forall|i: int| 0 <= i < d.len() implies is_definition(#[trigger] d[i])
            || sets_nothing(d[i]) by {
            assert(d[i] == b[i]);
        }
        lemma_units_kept(a, d);
        assert((a + b).drop_last() =~= a + d);
        assert((a + b).last() == b[b.len() - 1]);
    }
}

proof fn lemma_preamble_sets<N>(v: GerberView<N>, created: GerberDate)
    ensures
        unit_set(output::preamble(v, created)) == Some(v.unit),
        format_set(output::preamble(v, created)) == Some(v.coordinate_format),
{
    let p = output::preamble(v, created);
    let a = p.take(6);
    let b = p.skip(6);
    assert(p =~= a + b);
    lemma_sets_nothing(a, b);
    assert(a.last() == p[5]);
    assert(a.drop_last().last() == p[4]);
    reveal_with_fuel(unit_set, 2);
}

/// What a reader collects from a written file is what the layer has: its unit, its format and its
/// apertures.
pub proof fn law_layer_collected<N>(v: GerberView<N>, created: GerberDate)
    requires
        table::ordered(v.apertures),
        forall|i: int| 0 <= i < v.commands.len() ==> sets_nothing(#[trigger] v.commands[i]),
    ensures
        unit_set(output::file_commands(v, created)) == Some(v.unit),
        format_set(output::file_commands(v, created)) == Some(v.coordinate_format),
        gathered(output::file_commands(v, created)) == v.apertures,
{
    let s = output::file_commands(v, created);
    let n = front_length(v, created);
    let p = output::preamble(v, created);
    let front = s.take(n);
    let rest = s.skip(n);
    assert forall|i: int, j: int| 0 <= i < j < v.apertures.len() implies (
    #[trigger] v.apertures[i]).0 != (#[trigger] v.apertures[j]).0 by {
        assert(table::Key::rank_spec(v.apertures[i].0) < table::Key::rank_spec(v.apertures[j].0));
    }
    law_definitions_written(v, created);
    lemma_places(v, created);
    lemma_needed_sets_nothing(v.commands);
    assert(s =~= front + rest);
    let kept = optimize::needed(v.commands);
    assert forall|i: int| 0 <= i < rest.len() implies sets_nothing(#[trigger] rest[i]) by {
        if i < kept.len() {
            assert(s.subrange(n, s.len() - 1)[i] == rest[i]);
            assert(sets_nothing(kept[i]));
        } else {
            assert(rest[i] == s.last());
        }
    }
    lemma_sets_nothing(front, rest);
    let behind = front.skip(8);
    assert(front =~= p + behind);
    assert forall|i: int| 0 <= i < behind.len() implies is_definition(#[trigger] behind[i])
        || sets_nothing(behind[i]) by {
        let j = i + 8;
        let a = output::definitions(v.apertures, false);
        let b = output::definitions(v.apertures, true);
        assert(behind[i] == s[j]);
        if j < 8 + a.len() {
            let q = lemma_definition_at(v.apertures, false, j - 8);
        } else if j >= 8 + a.len() + v.macros.len() {
            let q = lemma_definition_at(v.apertures, true, j - 8 - a.len() - v.macros.len());
        }
    }
    lemma_units_kept(p, behind);
    lemma_preamble_sets(v, created);
    lemma_gathered(front);
    let g = gathered(front);
    assert forall|k: i32| #[trigger] table::lookup(g, k) == table::lookup(v.apertures, k) by {
        table::lemma_lookup(v.apertures, k);
        match table::lookup(g, k) {
            Some(a) => {
                let j = choose|j: int| 0 <= j < front.len() && defines(#[trigger] front[j], k, a);
                assert(is_definition(s[j]));
                let i = choose|i: int|
                    0 <= i < v.apertures.len() && defines(
                        s[j],
                        (#[trigger] v.apertures[i]).0,
                        v.apertures[i].1,
                    );
                assert(v.apertures[i] == (k, a));
            },
            None => {
                if table::lookup(v.apertures, k) is Some {
                    let a = table::lookup(v.apertures, k)->0;
                    let i = choose|i: int|
                        0 <= i < v.apertures.len() && #[trigger] v.apertures[i] == (k, a);
                    assert(is_defined(front, v.apertures[i].0, v.apertures[i].1));
                }
            },
        }
    }
    table::lemma_equal(g, v.apertures);
}

proof fn lemma_needed_sets_nothing<N>(s: Seq<CommandView<N>>)
    requires
        forall|i: int| 0 <= i < s.len() ==> sets_nothing(#[trigger] s[i]),
    ensures
        forall|i: int|
            0 <= i < optimize::needed(s).len() ==> sets_nothing(#[trigger] optimize::needed(s)[i]),
    decreases s.len(),
{
    if s.len() > 0 {
        let d = s.drop_last();
        assert forall|i: int| 0 <= i < d.len() implies sets_nothing(#[trigger] d[i]) by {
            assert(d[i] == s[i]);
        }
        lemma_needed_sets_nothing(d);
        let n = optimize::needed(s);
        let m = optimize::needed(d);
        assert(sets_nothing(s[s.len() - 1]));
        assert forall|i: int| 0 <= i < n.len() implies sets_nothing(#[trigger] n[i]) by {
            if i < m.len() {
                assert(n[i] == m[i]);
            }
        }
    }
}

/// A layer in millimetres is read back from what a reader collects from the commands that it is
/// written as.
pub proof fn law_collected_layer_read_back<N: Scalar>(v: GerberView<N>, created: GerberDate)
    requires
        v.unit == Unit::Millimeters,
        v.layer_type != LayerType::UndefinedGerber,
        outputs::is_drawing(v.commands),
        forall|i: int| 0 <= i < v.commands.len() ==> sets_nothing(#[trigger] v.commands[i]),
        macros::distinct_names(v.macros),
        table::ordered(v.apertures),
    ensures
        ({
            let doc = collected(output::file_commands(v, created));
            &&& read::named_type(doc) == v.layer_type
            &&& load::loaded(v.layer_type, doc) == Ok::<GerberView<N>, ParseError<Seq<char>>>(
                GerberView {
                    commands: optimize::needed(v.commands),
                    parse_errors: Seq::empty(),
                    ..v
                },
            )
        }),
{
    law_layer_collected(v, created);
    outputs::law_layer_read_back(v, created);
    assert(collected(output::file_commands(v, created)) == outputs::written_document(v, created));
}

/// A written file begins with a comment, the function of its layer type and the time, as comments
/// that stand for attributes; it draws full circles, sets the unit and the format of the layer and
/// the dark polarity, and names its image after the ending of its files.
pub proof fn law_preamble_written<N>(v: GerberView<N>, created: GerberDate)
    ensures
        ({
            let s = output::file_commands(v, created);
            &&& s.len() > 8
            &&& s[0] matches Command::FunctionCode(
                FunctionCode::GCode(GCode::Comment(CommentContent::String(t))),
            ) && t == "ProAdm generated panel"@
            &&& s[1] matches Command::FunctionCode(
                FunctionCode::GCode(
                    GCode::Comment(
                        CommentContent::Standard(
                            StandardComment::FileAttribute(FileAttribute::FileFunction(f)),
                        ),
                    ),
                ),
            ) && f == v.layer_type.function_spec()
            &&& s[2] matches Command::FunctionCode(
                FunctionCode::GCode(
                    GCode::Comment(
                        CommentContent::Standard(
                            StandardComment::FileAttribute(FileAttribute::CreationDate(d)),
                        ),
                    ),
                ),
            ) && d == created
            &&& s[3] matches Command::FunctionCode(FunctionCode::GCode(GCode::QuadrantMode(m))) && m
                == QuadrantMode::Multi
            &&& s[4] matches Command::ExtendedCode(ExtendedCode::Unit(u)) && u == v.unit
            &&& s[5] matches Command::ExtendedCode(ExtendedCode::CoordinateFormat(f)) && f
                == v.coordinate_format
            &&& s[6] matches Command::ExtendedCode(ExtendedCode::LoadPolarity(p)) && p
                == Polarity::Dark
            &&& s[7] matches Command::ExtendedCode(ExtendedCode::ImageName(i)) && i.name
                == v.layer_type.file_ending_spec()
        }),
{
    let s = output::file_commands(v, created);
    let p = output::preamble(v, created);
    assert forall|i: int| 0 <= i < 8 implies s[i] == #[trigger] p[i] by {}
    assert(s[0] == p[0] && s[1] == p[1] && s[2] == p[2] && s[3] == p[3]);
    assert(s[4] == p[4] && s[5] == p[5] && s[6] == p[6] && s[7] == p[7]);
}

} // verus!
