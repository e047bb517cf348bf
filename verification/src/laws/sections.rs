//! How the lines of a drill file make up its header and its body.
use crate::excellon_format::line;
use crate::excellon_format::parse;
use crate::excellon_format::parse::Progress;
use crate::excellon_format::{
    Command, EntryView, ExcellonError, MachineCode, UnitDefinition,
    ZeroSuppression,
};
use crate::gerber_types::Unit;
use crate::laws::lines;
use crate::scalar::Scalar;
use crate::text;
use vstd::prelude::*;

verus! {

pub open spec fn is_comment<N>(e: EntryView<N>) -> bool {
    e matches Ok(Command::Comment(_))
}

/// `M95` or `%`.
pub open spec fn is_header_end<N>(e: EntryView<N>) -> bool {
    ||| e matches Ok(Command::Machine(MachineCode::HeaderEnd))
    ||| e matches Ok(Command::Machine(MachineCode::RewindStop))
}

/// The first entry that is no comment is `M48`.
pub open spec fn starts_right<N>(s: Seq<EntryView<N>>) -> bool {
    exists|i: int|
        0 <= i < s.len() && (#[trigger] s[i] matches Ok(Command::Machine(MachineCode::HeaderStart)))
            && forall|j: int| 0 <= j < i ==> is_comment(#[trigger] s[j])
}

/// The last entry that is no comment is `M30`.
pub open spec fn ends_right<N>(s: Seq<EntryView<N>>) -> bool {
    exists|i: int|
        0 <= i < s.len() && (#[trigger] s[i] matches Ok(
            Command::Machine(MachineCode::EndOfProgram),
        )) && forall|j: int| i < j < s.len() ==> is_comment(#[trigger] s[j])
}

proof fn lemma_first<N>(s: Seq<EntryView<N>>)
    ensures
        (parse::first_significant(s) matches Some(Ok(Command::Machine(MachineCode::HeaderStart))))
            == starts_right(s),
        parse::first_significant(s) is None ==> forall|j: int|
            0 <= j < s.len() ==> is_comment(#[trigger] s[j]),
    decreases s.len(),
{
    if s.len() > 0 {
        if is_comment(s[0]) {
            let t = s.skip(1);
            lemma_first(t);
            if starts_right(t) {
                let i = choose|i: int|
                    0 <= i < t.len() && (#[trigger] t[i] matches Ok(
                        Command::Machine(MachineCode::HeaderStart),
                    )) && forall|j: int| 0 <= j < i ==> is_comment(#[trigger] t[j]);
                assert(s[i + 1] == t[i]);
                assert forall|j: int| 0 <= j < i + 1 implies is_comment(#[trigger] s[j]) by {
                    if j > 0 {
                        assert(s[j] == t[j - 1]);
                    }
                }
            }
            if starts_right(s) {
                let i = choose|i: int|
                    0 <= i < s.len() && (#[trigger] s[i] matches Ok(
                        Command::Machine(MachineCode::HeaderStart),
                    )) && forall|j: int| 0 <= j < i ==> is_comment(#[trigger] s[j]);
                assert(t[i - 1] == s[i]);
                assert forall|j: int| 0 <= j < i - 1 implies is_comment(#[trigger] t[j]) by {
                    assert(t[j] == s[j + 1]);
                }
            }
            if parse::first_significant(s) is None {
                assert forall|j: int| 0 <= j < s.len() implies is_comment(#[trigger] s[j]) by {
                    if j > 0 {
                        assert(s[j] == t[j - 1]);
                    }
                }
            }
        } else {
            if starts_right(s) {
                let i = choose|i: int|
                    0 <= i < s.len() && (#[trigger] s[i] matches Ok(
                        Command::Machine(MachineCode::HeaderStart),
                    )) && forall|j: int| 0 <= j < i ==> is_comment(#[trigger] s[j]);
                if i > 0 {
                    assert(is_comment(s[0]));
                }
            }
        }
    }
}

proof fn lemma_last<N>(s: Seq<EntryView<N>>)
    ensures
        (parse::last_significant(s) matches Some(Ok(Command::Machine(MachineCode::EndOfProgram))))
            == ends_right(s),
    decreases s.len(),
{
    if s.len() > 0 {
        let n = s.len() - 1;
        let t = s.drop_last();
        assert(s[n] == s.last());
        if is_comment(s.last()) {
            lemma_last(t);
            if ends_right(t) {
                let i = choose|i: int|
                    0 <= i < t.len() && (#[trigger] t[i] matches Ok(
                        Command::Machine(MachineCode::EndOfProgram),
                    )) && forall|j: int| i < j < t.len() ==> is_comment(#[trigger] t[j]);
                assert(s[i] == t[i]);
                assert forall|j: int| i < j < s.len() implies is_comment(#[trigger] s[j]) by {
                    if j < n {
                        assert(s[j] == t[j]);
                    }
                }
            }
            if ends_right(s) {
                let i = choose|i: int|
                    0 <= i < s.len() && (#[trigger] s[i] matches Ok(
                        Command::Machine(MachineCode::EndOfProgram),
                    )) && forall|j: int| i < j < s.len() ==> is_comment(#[trigger] s[j]);
                assert(t[i] == s[i]);
                assert forall|j: int| i < j < t.len() implies is_comment(#[trigger] t[j]) by {
                    assert(t[j] == s[j]);
                }
            }
        } else {
            if ends_right(s) {
                let i = choose|i: int|
                    0 <= i < s.len() && (#[trigger] s[i] matches Ok(
                        Command::Machine(MachineCode::EndOfProgram),
                    )) && forall|j: int| i < j < s.len() ==> is_comment(#[trigger] s[j]);
                if i < n {
                    assert(is_comment(s[n]));
                }
            }
        }
    }
}

proof fn lemma_header<N>(s: Seq<EntryView<N>>)
    ensures
        ({
            let n = parse::header_length(s) as int;
            &&& n <= s.len()
            &&& forall|j: int| 0 <= j < n ==> !is_header_end(#[trigger] s[j])
            &&& n < s.len() ==> is_header_end(s[n])
        }),
    decreases s.len(),
{
    if s.len() > 0 && !parse::ends_header(s[0]) {
        let t = s.skip(1);
        lemma_header(t);
        let n = parse::header_length(s) as int;
        assert forall|j: int| 0 <= j < n implies !is_header_end(#[trigger] s[j]) by {
            if j > 0 {
                assert(s[j] == t[j - 1]);
            }
        }
    }
}

/// The unit of a program: the first definition of its header, or inches with two digits before the
/// point and four behind it.
pub open spec fn is_unit_of<N>(header: Seq<EntryView<N>>, u: UnitDefinition) -> bool {
    ||| exists|i: int|
        0 <= i < header.len() && (#[trigger] header[i] matches Ok(Command::UnitDefinition(d)) && d
            == u) && forall|j: int|
            0 <= j < i ==> !(#[trigger] header[j] matches Ok(Command::UnitDefinition(_)))
    ||| u == (UnitDefinition {
        unit: Unit::Inches,
        ty: ZeroSuppression::Leading,
        leading: 2,
        trailing: 4,
        decimal: false,
    }) && forall|j: int|
        0 <= j < header.len() ==> !(#[trigger] header[j] matches Ok(Command::UnitDefinition(_)))
}

proof fn lemma_declared<N>(s: Seq<EntryView<N>>)
    ensures
        match parse::declared_unit(s) {
            Some(u) => exists|i: int|
                0 <= i < s.len() && (#[trigger] s[i] matches Ok(Command::UnitDefinition(d)) && d
                    == u) && forall|j: int|
                    0 <= j < i ==> !(#[trigger] s[j] matches Ok(Command::UnitDefinition(_))),
            None => forall|j: int|
                0 <= j < s.len() ==> !(#[trigger] s[j] matches Ok(Command::UnitDefinition(_))),
        },
    decreases s.len(),
{
    if s.len() > 0 && !(s[0] matches Ok(Command::UnitDefinition(_))) {
        let t = s.skip(1);
        lemma_declared(t);
        match parse::declared_unit(t) {
            Some(u) => {
                let i = choose|i: int|
                    0 <= i < t.len() && (#[trigger] t[i] matches Ok(Command::UnitDefinition(d))
                        && d == u) && forall|j: int|
                        0 <= j < i ==> !(#[trigger] t[j] matches Ok(Command::UnitDefinition(_)));
                assert(s[i + 1] == t[i]);
                assert forall|j: int| 0 <= j < i + 1 implies !(#[trigger] s[j] matches Ok(
                    Command::UnitDefinition(_),
                )) by {
                    if j > 0 {
                        assert(s[j] == t[j - 1]);
                    }
                }
            },
            None => {
                assert forall|j: int| 0 <= j < s.len() implies !(#[trigger] s[j] matches Ok(
                    Command::UnitDefinition(_),
                )) by {
                    if j > 0 {
                        assert(s[j] == t[j - 1]);
                    }
                }
            },
        }
    }
}

/// A program begins with `M48` and ends with `M30`, comments aside, and has `M95` or `%` in between;
/// what is missing is the error, in this order. The header goes up to the first `M95` or `%`, and
/// the body holds all that follows.
pub proof fn law_program<N>(p: Progress<N>)
    ensures
        ({
            let s = p.commands;
            let has_end = exists|i: int| 0 <= i < s.len() && is_header_end(#[trigger] s[i]);
            match parse::program(p) {
                Err(e) => {
                    ||| e == ExcellonError::<Seq<char>>::MissingHeaderStart && !starts_right(s)
                    ||| e == ExcellonError::<Seq<char>>::MissingEndOfProgram && starts_right(s)
                        && !ends_right(s)
                    ||| e == ExcellonError::<Seq<char>>::MissingHeaderEnd && starts_right(s)
                        && ends_right(s) && !has_end
                },
                Ok(v) => {
                    &&& starts_right(s) && ends_right(s) && has_end
                    &&& v.header + v.commands == s
                    &&& v.header.len() > 0 && is_header_end(v.header.last())
                    &&& forall|j: int|
                        0 <= j < v.header.len() - 1 ==> !is_header_end(#[trigger] v.header[j])
                    &&& is_unit_of(v.header, v.unit)
                    &&& v.tools == p.tools
                },
            }
        }),
{
    let s = p.commands;
    let n = parse::header_length(s) as int;
    lemma_first(s);
    lemma_last(s);
    lemma_header(s);
    lemma_declared(s.take(n + 1));
    if n < s.len() {
        assert(is_header_end(s[n]));
        assert(s.take(n + 1) + s.skip(n + 1) =~= s);
        assert forall|j: int| 0 <= j < n implies !is_header_end(#[trigger] s.take(n + 1)[j]) by {
            assert(s.take(n + 1)[j] == s[j]);
        }
    }
}

/// Reading begins with inches and without tools, takes line by line, numbered from zero, and ends
/// where a line ends it. A blank line says nothing.
pub proof fn law_lines_read<N: Scalar>(ls: Seq<Seq<char>>, l: Seq<char>, blank: Seq<char>)
    requires
        forall|i: int| 0 <= i < blank.len() ==> text::is_space(#[trigger] blank[i]),
    ensures
        parse::after_lines::<N>(Seq::empty()) matches Ok(p) && (p.commands.len() == 0
            && p.tools.len() == 0 && !p.unit_set && p.format.unit == Unit::Inches),
        parse::after_lines::<N>(ls) matches Ok(p) ==> parse::after_lines::<N>(ls.push(l))
            == p.after_line(l, ls.len()) && parse::after_lines::<N>(ls.push(blank)) == Ok::<
            Progress<N>,
            line::ErrorView,
        >(p),
        parse::after_lines::<N>(ls) matches Err(e) ==> parse::after_lines::<N>(ls.push(l)) == Err::<
            Progress<N>,
            line::ErrorView,
        >(e),
{
    assert(ls.push(l).drop_last() =~= ls);
    assert(ls.push(blank).drop_last() =~= ls);
    lemma_blank(blank);
}

proof fn lemma_blank(s: Seq<char>)
    requires
        forall|i: int| 0 <= i < s.len() ==> text::is_space(#[trigger] s[i]),
    ensures
        text::trimmed(s).len() == 0,
    decreases s.len(),
{
    if s.len() > 0 {
        let t = s.skip(1);
        assert forall|i: int| 0 <= i < t.len() implies text::is_space(#[trigger] t[i]) by {
            assert(t[i] == s[i + 1]);
        }
        lemma_blank(t);
    }
}

/// A text is cut into lines at its line feeds: what follows the last one is the last line.
pub proof fn law_lines_split(s: Seq<char>, l: Seq<char>)
    requires
        !l.contains('\n'),
    ensures
        text::lines(l) == seq![l],
        text::lines(s.push('\n') + l) == text::lines(s).push(l),
    decreases l.len(),
{
    let a = s.push('\n');
    if l.len() == 0 {
        assert(a + l =~= a);
        assert(a.drop_last() =~= s);
        assert(l =~= Seq::empty());
    } else {
        let t = l.drop_last();
        assert(!t.contains('\n')) by {
            if t.contains('\n') {
                let i = choose|i: int| 0 <= i < t.len() && t[i] == '\n';
                assert(l[i] == '\n');
            }
        }
        law_lines_split(s, t);
        assert(l.contains(l.last()));
        assert((a + l).drop_last() =~= a + t);
        assert((a + l).last() == l.last());
        assert(t.push(l.last()) =~= l);
        let r = text::lines(s).push(t);
        assert(r.drop_last() =~= text::lines(s));
        assert(seq![t].drop_last() =~= Seq::<Seq<char>>::empty());
        assert(text::lines(l) =~= seq![l]);
    }
}

/// White space is left out at both ends of a line, and nowhere else.
pub proof fn law_trimmed(a: Seq<char>, s: Seq<char>, b: Seq<char>)
    requires
        forall|i: int| 0 <= i < a.len() ==> text::is_space(#[trigger] a[i]),
        forall|i: int| 0 <= i < b.len() ==> text::is_space(#[trigger] b[i]),
        s.len() > 0,
        !text::is_space(s[0]),
        !text::is_space(s.last()),
    ensures
        text::trimmed(a + s + b) == s,
    decreases a.len() + b.len(),
{
    let t = a + s + b;
    if a.len() > 0 {
        let r = a.skip(1);
        assert forall|i: int| 0 <= i < r.len() implies text::is_space(#[trigger] r[i]) by {
            assert(r[i] == a[i + 1]);
        }
        law_trimmed(r, s, b);
        assert(t[0] == a[0]);
        assert(t.skip(1) =~= r + s + b);
    } else {
        assert(t =~= s + b);
        assert(t[0] == s[0]);
        if b.len() > 0 {
            let r = b.drop_last();
            assert forall|i: int| 0 <= i < r.len() implies text::is_space(#[trigger] r[i]) by {
                assert(r[i] == b[i]);
            }
            law_trimmed(a, s, r);
            assert(a + s + r =~= s + r);
            assert((s + r)[0] == s[0]);
            assert(t.last() == b[b.len() - 1]);
            assert(t.drop_last() =~= s + r);
        } else {
            assert(t =~= s);
        }
    }
}

/// A text is found where it first occurs, and nowhere where it does not.
pub proof fn law_found(s: Seq<char>, pattern: Seq<char>)
    ensures
        match text::find(s, pattern) {
            Some(i) => {
                &&& 0 <= i <= s.len()
                &&& pattern.is_prefix_of(s.skip(i))
                &&& forall|j: int| 0 <= j < i ==> !pattern.is_prefix_of(#[trigger] s.skip(j))
            },
            None => forall|j: int|
                0 <= j <= s.len() ==> !pattern.is_prefix_of(#[trigger] s.skip(j)),
        },
    decreases s.len(),
{
    assert(s.skip(0) =~= s);
    if !pattern.is_prefix_of(s) && s.len() > 0 {
        let t = s.skip(1);
        law_found(t, pattern);
        match text::find(t, pattern) {
            Some(i) => {
                assert(t.skip(i) =~= s.skip(i + 1));
                assert forall|j: int| 0 <= j < i + 1 implies !pattern.is_prefix_of(
                    #[trigger] s.skip(j),
                ) by {
                    if j > 0 {
                        assert(s.skip(j) =~= t.skip(j - 1));
                    }
                }
            },
            None => {
                assert forall|j: int| 0 <= j <= s.len() implies !pattern.is_prefix_of(
                    #[trigger] s.skip(j),
                ) by {
                    if j > 0 {
                        assert(s.skip(j) =~= t.skip(j - 1));
                    }
                }
            },
        }
    }
}

} // verus!
