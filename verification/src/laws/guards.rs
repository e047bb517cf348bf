//! What the guard in front of the Gerber reader lets through.
use crate::gerber::guard;
use crate::gerber::guard::Scan;
use crate::laws::sections;
use crate::text;
use vstd::prelude::*;

verus! {

/// The largest number that the guard lets through is the largest that stays within 64 bits when it
/// is taken to six decimal places.
pub proof fn law_number_limit(places: nat, n: nat)
    requires
        places <= 6,
    ensures
        n <= guard::number_limit(places) <==> n * text::pow10((6 - places) as nat) <= i64::MAX,
{
    reveal_with_fuel(text::pow10, 7);
    let limit = guard::number_limit(places);
    let p = text::pow10((6 - places) as nat);
    if places == 0 {
        assert(p == 1000000 && limit == 9223372036854);
    } else if places == 1 {
        assert(p == 100000 && limit == 92233720368547);
    } else if places == 2 {
        assert(p == 10000 && limit == 922337203685477);
    } else if places == 3 {
        assert(p == 1000 && limit == 9223372036854775);
    } else if places == 4 {
        assert(p == 100 && limit == 92233720368547758);
    } else if places == 5 {
        assert(p == 10 && limit == 922337203685477580);
    } else {
        assert(p == 1 && limit == 9223372036854775807);
    }
    assert(limit * p <= i64::MAX < (limit + 1) * p) by (nonlinear_arith)
        requires
            (p == 1000000 && limit == 9223372036854)
                || (p == 100000 && limit == 92233720368547)
                || (p == 10000 && limit == 922337203685477)
                || (p == 1000 && limit == 9223372036854775)
                || (p == 100 && limit == 92233720368547758)
                || (p == 10 && limit == 922337203685477580)
                || (p == 1 && limit == 9223372036854775807),
    ;
    if n <= limit {
        assert(n * p <= limit * p) by (nonlinear_arith)
            requires
                n <= limit,
        ;
    } else {
        assert((limit + 1) * p <= n * p) by (nonlinear_arith)
            requires
                limit + 1 <= n,
        ;
    }
}

/// What goes through line by line goes through up to each line, and the guard is passed only by
/// files all of whose beginnings pass it.
pub proof fn law_beginnings_admitted(ls: Seq<Option<Seq<char>>>, i: int)
    requires
        guard::all_admitted(ls),
        0 <= i <= ls.len(),
    ensures
        guard::all_admitted(ls.take(i)),
{
    let t = ls.take(i);
    assert forall|k: int| 0 <= k < t.len() implies guard::scanned(t.take(k)).admits(
        #[trigger] t[k],
    ) by {
        assert(t.take(k) =~= ls.take(k));
        assert(t[k] == ls[k]);
    }
}

/// A file whose first line starts with `G0` passes only if an ASCII character follows.
pub proof fn law_short_codes_admitted(ls: Seq<Option<Seq<char>>>, s: Seq<char>)
    requires
        guard::all_admitted(ls),
        ls.len() > 0,
        ls[0] == Some(s),
        s.len() >= 2,
        s[0] == 'G',
        s[1] == '0',
    ensures
        s.len() > 2 && (s[2] as int) < 128,
{
    assert(ls.take(0).len() == 0);
    assert(guard::scanned(ls.take(0)).admits(ls[0]));
    assert(guard::harmless(s));
}

/// Before a format is in force, and outside macros, no number keeps a line from passing: a line
/// with nothing but digits behind an `X` passes.
pub proof fn law_numbers_before_format(d: Seq<char>)
    requires
        text::all_digits(d),
    ensures
        Scan::start().admits(Some(seq!['X'] + d)),
{
    let s = seq!['X'] + d;
    reveal_strlit("%T");
    reveal_strlit("G04 #@! T");
    reveal_strlit("G04#@! T");
    if "%T"@.is_prefix_of(s) {
        assert("%T"@[0] == s[0]);
    }
    if "G04 #@! T"@.is_prefix_of(s) {
        assert("G04 #@! T"@[0] == s[0]);
    }
    if "G04#@! T"@.is_prefix_of(s) {
        assert("G04#@! T"@[0] == s[0]);
    }
}

/// Under a format with `places` decimal places a line with a coordinate passes only if its number
/// stays within 64 bits when it is taken to six of them, or is too large to be a number there.
pub proof fn law_coordinates_admitted(scan: Scan, places: u8, d: Seq<char>, rest: Seq<char>)
    requires
        scan.places == Some(places),
        scan.open_macro is None,
        !scan.ended,
        d.len() > 0,
        text::all_digits(d),
        rest.len() == 0 || !text::is_digit(rest[0]),
        scan.admits(Some(seq!['X'] + d + rest)),
    ensures
        places <= 6,
        text::dec_value(d) * text::pow10((6 - places) as nat) <= i64::MAX || text::dec_value(d)
            > 0x8000_0000_0000_0000,
{
    let s = seq!['X'] + d + rest;
    assert(guard::operates(s));
    assert(places <= 6 && guard::safe_numbers(s, places as nat));
    assert(s[1] == d[0] && text::is_digit(d[0]));
    assert(guard::starts_number(s, 1));
    let t = s.skip(1);
    assert(t =~= d + rest);
    assert(t.take(d.len() as int) =~= d);
    text::lemma_digit_run_unique(t, d.len() as int);
    assert(guard::number_at(s, 1) == text::dec_value(d));
    law_number_limit(places as nat, text::dec_value(d));
}

/// A line ends with byte 10: what follows the last of them is the last line.
pub proof fn law_lines_of_bytes(a: Seq<u8>, line: Seq<u8>)
    requires
        !line.contains(10),
    ensures
        guard::byte_lines(line) == seq![line],
        guard::byte_lines(a + seq![10u8] + line) == guard::byte_lines(a).push(line),
    decreases line.len(),
{
    let s = a + seq![10u8] + line;
    if line.len() > 0 {
        let t = line.drop_last();
        assert(!t.contains(10)) by {
            if t.contains(10) {
                let i = choose|i: int| 0 <= i < t.len() && t[i] == 10;
                assert(line[i] == 10);
            }
        }
        assert(line[line.len() - 1] == line.last());
        law_lines_of_bytes(a, t);
        assert(s.drop_last() =~= a + seq![10u8] + t);
        assert(s.last() == line.last());
        assert(t.push(line.last()) =~= line);
        assert(guard::byte_lines(a).push(t).drop_last() =~= guard::byte_lines(a));
        assert(seq![t].drop_last().push(line) =~= seq![line]);
    } else {
        assert(s.drop_last() =~= a);
        assert(line =~= Seq::<u8>::empty());
    }
}

/// The statement of a coordinate format with `whole` places in front of the point and `places`
/// behind it, for both axes.
pub open spec fn format_line(
    zeros: char,
    mode: char,
    whole: char,
    places: char,
    other: Seq<char>,
) -> Seq<char> {
    seq!['%', 'F', 'S', zeros, mode, 'X', whole, places, 'Y'] + other + seq!['*', '%']
}

proof fn lemma_last_place(a: Seq<char>, c: char, b: Seq<char>)
    requires
        !b.contains(c),
    ensures
        guard::last_place(a + seq![c] + b, c) == Some(a.len() as int),
    decreases b.len(),
{
    let s = a + seq![c] + b;
    if b.len() > 0 {
        let t = b.drop_last();
        assert(!t.contains(c)) by {
            if t.contains(c) {
                let i = choose|i: int| 0 <= i < t.len() && t[i] == c;
                assert(b[i] == c);
            }
        }
        lemma_last_place(a, c, t);
        assert(b[b.len() - 1] == b.last());
        assert(s.drop_last() =~= a + seq![c] + t);
    }
}

/// The first statement of a coordinate format sets how many decimal places a coordinate has; no
/// other line outside of macros does, and no later one changes it.
pub proof fn law_format_in_force(
    scan: Scan,
    zeros: char,
    mode: char,
    whole: char,
    places: char,
    other: Seq<char>,
    line: Seq<char>,
)
    requires
        scan.open_macro is None,
        zeros == 'L' || zeros == 'T',
        mode == 'A' || mode == 'I',
        '1' <= whole && whole <= '6',
        '0' <= places && places <= '9',
        text::all_digits(other),
    ensures
        ({
            let n = scan.after(Some(format_line(zeros, mode, whole, places, other))).places;
            if scan.places is None {
                n == Some((places as int - 48) as u8)
            } else {
                n == scan.places
            }
        }),
        line.len() < 2 || line[0] != '%' || line[1] != 'F' ==> scan.after(Some(line)).places
            == scan.places,
{
    let s = format_line(zeros, mode, whole, places, other);
    let rest = s.skip(6);
    let body = seq![whole, places] + seq!['Y'] + other;
    assert(rest =~= body + seq!['*', '%']);
    assert(rest.take(rest.len() - 2) =~= body);
    assert(!other.contains('Y')) by {
        if other.contains('Y') {
            let i = choose|i: int| 0 <= i < other.len() && other[i] == 'Y';
            assert(text::is_digit(other[i]));
        }
    }
    lemma_last_place(seq![whole, places], 'Y', other);
    assert(guard::format_width(s) == Some(2int));
    assert(s[0] == '%' && s[1] == 'F' && s[2] == 'S' && s[6] == whole && s[7] == places);
}

/// Inside a macro every line passes; a macro starts at a line with `%AM` that does not end it, and
/// goes on up to the line that ends with `*%`.
pub proof fn law_macros_pass(scan: Scan, c: char, s: Seq<char>)
    requires
        scan.open_macro is None,
        s.len() >= 3,
    ensures
        (Scan { open_macro: Some(c), ..scan }).admits(Some(s)),
        (Scan { open_macro: Some(c), ..scan }).after(Some(s)).open_macro is None <==> s[s.len() - 2]
            == '*' && s[s.len() - 1] == '%',
        scan.after(Some(s)).open_macro is Some <==> s[0] == '%' && s[1] == 'A' && s[2] == 'M' && !(
        s[s.len() - 2] == '*' && s[s.len() - 1] == '%'),
{
    let t = seq![c] + s;
    assert(t.len() == s.len() + 1);
    assert(t[t.len() - 2] == s[s.len() - 2] && t.last() == s.last());
}

/// A text without commas in which a comma follows, and one in which none does.
proof fn lemma_fields(name: Seq<char>, x: Seq<char>)
    requires
        !name.contains(','),
        name.len() > 0,
        !text::is_space(name[0]),
        !text::is_space(name.last()),
    ensures
        guard::first_field(name + seq![','] + x) == name,
        guard::other_fields(name + seq![','] + x) == Some(x),
        !x.contains(',') ==> guard::other_fields(x) is None,
        text::trimmed(name) == name,
{
    reveal_strlit(",");
    let comma = ","@;
    assert(comma =~= seq![',']);
    let s = name + seq![','] + x;
    let n = name.len() as int;
    sections::law_found(s, comma);
    assert(comma.is_prefix_of(s.skip(n))) by {
        assert(s.skip(n)[0] == ',');
    }
    match text::find(s, comma) {
        Some(i) => {
            assert(s.skip(i)[0] == comma[0]);
            if i < n {
                assert(name[i] == ',');
            }
            assert(i == n);
        },
        None => {},
    }
    assert(s.take(n) =~= name);
    assert(s.skip(n + 1) =~= x);
    let none = Seq::<char>::empty();
    sections::law_trimmed(none, name, none);
    assert(none + name + none =~= name);
    if !x.contains(',') {
        sections::law_found(x, comma);
        if let Some(i) = text::find(x, comma) {
            assert(x.skip(i)[0] == comma[0]);
            assert(x[i] == ',');
        }
    }
}

/// The line of an attribute: `%T`, its kind, its body and `*%`.
pub open spec fn attribute_line(kind: char, body: Seq<char>) -> Seq<char> {
    seq!['%', 'T', kind] + body + seq!['*', '%']
}

proof fn lemma_attribute(kind: char, body: Seq<char>)
    ensures
        guard::harmless(attribute_line(kind, body)) <==> !guard::lacks_fields(kind, body),
{
    reveal_strlit("%T");
    let s = attribute_line(kind, body);
    assert("%T"@ =~= seq!['%', 'T']);
    assert("%T"@.is_prefix_of(s));
    let rest = s.skip(2);
    assert(rest =~= seq![kind] + body + seq!['*', '%']);
    assert(rest.take(rest.len() - 2) =~= seq![kind] + body);
    assert((seq![kind] + body).skip(1) =~= body);
}

/// The software that generated a file and the pin of an object are refused with one field behind
/// the name, and pass with two.
pub proof fn law_attribute_fields(scan: Scan, x: Seq<char>, y: Seq<char>)
    requires
        !scan.ended,
        scan.open_macro is None,
        !x.contains(','),
    ensures
        !scan.admits(Some(attribute_line('F', ".GenerationSoftware"@ + seq![','] + x))),
        scan.admits(
            Some(attribute_line('F', ".GenerationSoftware"@ + seq![','] + (x + seq![','] + y))),
        ),
        !scan.admits(Some(attribute_line('O', ".P"@ + seq![','] + x))),
        scan.admits(Some(attribute_line('O', ".P"@ + seq![','] + (x + seq![','] + y)))),
{
    reveal_strlit(".GenerationSoftware");
    reveal_strlit(".FileFunction");
    reveal_strlit(".P");
    let g = ".GenerationSoftware"@;
    let p = ".P"@;
    assert(!g.contains(',') && !p.contains(','));
    let both = x + seq![','] + y;
    lemma_fields(g, x);
    lemma_fields(g, both);
    lemma_fields(p, x);
    lemma_fields(p, both);
    lemma_second_field(x, y);
    assert(g[1] == 'G' && ".FileFunction"@[1] == 'F');
    lemma_attribute('F', g + seq![','] + x);
    lemma_attribute('F', g + seq![','] + both);
    lemma_attribute('O', p + seq![','] + x);
    lemma_attribute('O', p + seq![','] + both);
}

proof fn lemma_second_field(x: Seq<char>, y: Seq<char>)
    ensures
        guard::other_fields(x + seq![','] + y) is Some,
{
    reveal_strlit(",");
    let s = x + seq![','] + y;
    sections::law_found(s, ","@);
    assert(s.skip(x.len() as int)[0] == ',');
    assert(","@.is_prefix_of(s.skip(x.len() as int)));
}

/// A layer function that has a side is refused without one.
pub proof fn law_sides_named(scan: Scan, w: Seq<char>)
    requires
        !scan.ended,
        scan.open_macro is None,
        w == "Legend"@
            || w == "Soldermask"@
            || w == "Carbonmask"@
            || w == "Goldmask"@
            || w == "Heatsinkmask"@
            || w == "Peelablemask"@
            || w == "Silvermask"@
            || w == "Tinmask"@,
    ensures
        !scan.admits(Some(attribute_line('F', ".FileFunction"@ + seq![','] + w))),
{
    reveal_strlit(".FileFunction");
    reveal_strlit("Legend");
    reveal_strlit("Soldermask");
    reveal_strlit("Carbonmask");
    reveal_strlit("Goldmask");
    reveal_strlit("Heatsinkmask");
    reveal_strlit("Peelablemask");
    reveal_strlit("Silvermask");
    reveal_strlit("Tinmask");
    let f = ".FileFunction"@;
    assert(!f.contains(','));
    assert(!w.contains(','));
    lemma_fields(f, w);
    assert(!text::is_space(w[0]) && !text::is_space(w.last()));
    let none = Seq::<char>::empty();
    sections::law_trimmed(none, w, none);
    assert(none + w + none =~= w);
    lemma_attribute('F', f + seq![','] + w);
}

} // verus!
