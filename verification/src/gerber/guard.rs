//! The files that `gerber_parser::parse` goes through without a panic.
//!
//! The parser takes a file line by line. Some lines it cuts, indexes or computes with before it has
//! made sure that it can; the functions below say which, and find them.
use crate::text;
use crate::text::{
    chars_of, decode, digits_from, find_text, is_digit_exec, is_text, parse_number, strip_prefix,
    text_of, trim,
};
use vstd::prelude::*;

verus! {

/// The lines of a file.
pub open spec fn byte_lines(bytes: Seq<u8>) -> Seq<Seq<u8>>
    decreases bytes.len(),
{
    if bytes.len() == 0 {
        seq![Seq::<u8>::empty()]
    } else {
        let before = byte_lines(bytes.drop_last());
        if bytes.last() == 10 {
            before.push(Seq::empty())
        } else {
            before.drop_last().push(before.last().push(bytes.last()))
        }
    }
}

/// What the parser sees of a line: its text without the white space at its ends, if it is text.
pub open spec fn line_text(line: Seq<u8>) -> Option<Seq<char>> {
    if vstd::utf8::valid_utf8(line) {
        Some(text::trimmed(vstd::utf8::decode_utf8(line)))
    } else {
        None
    }
}

/// What the parser sees of lines.
pub open spec fn line_texts(lines: Seq<Seq<u8>>) -> Seq<Option<Seq<char>>> {
    lines.map_values(|line: Seq<u8>| line_text(line))
}

/// The largest number that can be taken from `places` to six decimal places.
pub open spec fn number_limit(places: nat) -> nat {
    if places == 0 {
        9_223_372_036_854
    } else if places == 1 {
        92_233_720_368_547
    } else if places == 2 {
        922_337_203_685_477
    } else if places == 3 {
        9_223_372_036_854_775
    } else if places == 4 {
        92_233_720_368_547_758
    } else if places == 5 {
        922_337_203_685_477_580
    } else {
        9_223_372_036_854_775_807
    }
}

/// Beyond this size, a number is none for the parser.
pub const MAX_NUMBER: u64 = 9_223_372_036_854_775_808;

/// A run of digits starts at `i`.
pub open spec fn starts_number(line: Seq<char>, i: int) -> bool {
    0 <= i < line.len() && text::is_digit(line[i]) && (i == 0 || !text::is_digit(line[i - 1]))
}

/// The number whose digits start at `i`.
pub open spec fn number_at(line: Seq<char>, i: int) -> nat {
    let rest = line.skip(i);
    text::dec_value(rest.take(text::digit_run(rest) as int))
}

/// Every number can be taken to six decimal places, or is so large that it is refused.
pub open spec fn safe_numbers(line: Seq<char>, places: nat) -> bool {
    forall|i: int| #[trigger]
        starts_number(line, i) ==> number_at(line, i) <= number_limit(places) || number_at(line, i)
            > MAX_NUMBER
}

/// The place of the last `c`, if there is one.
pub open spec fn last_place(s: Seq<char>, c: char) -> Option<int>
    decreases s.len(),
{
    if s.len() == 0 {
        None
    } else if s.last() == c {
        Some(s.len() - 1)
    } else {
        last_place(s.drop_last(), c)
    }
}

/// The text in front of the last `*%`.
pub open spec fn before_end(s: Seq<char>) -> Option<Seq<char>>
    decreases s.len(),
{
    if s.len() < 2 {
        None
    } else if s[s.len() - 2] == '*' && s.last() == '%' {
        Some(s.take(s.len() - 2))
    } else {
        before_end(s.drop_last())
    }
}

/// How many characters stand between the `X` and the `Y` of the statement of a coordinate format
/// that starts the text, if one does: `%FS`, `L` or `T`, `A` or `I`, `X`, and later `Y` and `*%`.
pub open spec fn format_width(s: Seq<char>) -> Option<int> {
    if s.len() >= 6 && s[0] == '%' && s[1] == 'F' && s[2] == 'S' && (s[3] == 'L' || s[3] == 'T') && (
    s[4] == 'A' || s[4] == 'I') && s[5] == 'X' {
        match before_end(s.skip(6)) {
            Some(t) => last_place(t, 'Y'),
            None => None,
        }
    } else {
        None
    }
}

/// The decimal places of the coordinate format that the line states. A statement with anything but
/// two digits behind its `X`, the first of them from 1 to 6, is refused.
pub open spec fn format_places(s: Seq<char>) -> Option<u8>
    decreases s.len(),
{
    match format_width(s) {
        Some(n) => if n >= 2 && '1' <= s[6] <= '6' && text::is_digit(s[7]) {
            Some(text::digit_value(s[7]) as u8)
        } else {
            None
        },
        None => if s.len() == 0 {
            None
        } else {
            format_places(s.skip(1))
        },
    }
}

/// The line starts with `G0`.
pub open spec fn has_short_code(line: Seq<char>) -> bool {
    line.len() >= 2 && line[0] == 'G' && line[1] == '0'
}

/// The line holds coordinates, alone or behind an interpolation mode.
pub open spec fn operates(line: Seq<char>) -> bool {
    ||| line.len() > 0 && (line[0] == 'X' || line[0] == 'Y')
    ||| has_short_code(line) && line.len() > 2 && '1' <= line[2] <= '3' && (line.len() > 4 || (
    line.len() == 4 && line[3] as int >= 128))
}

/// The parts of the body of an attribute, which commas part.
pub open spec fn first_field(body: Seq<char>) -> Seq<char> {
    match text::find(body, ","@) {
        Some(n) => text::trimmed(body.take(n)),
        None => text::trimmed(body),
    }
}

pub open spec fn other_fields(body: Seq<char>) -> Option<Seq<char>> {
    match text::find(body, ","@) {
        Some(n) => Some(body.skip(n + 1)),
        None => None,
    }
}

/// At most one field stands behind the first.
pub open spec fn has_few_fields(body: Seq<char>) -> bool {
    match other_fields(body) {
        Some(rest) => other_fields(rest) is None,
        None => true,
    }
}

/// A file function that has a side.
pub open spec fn is_sided(function: Seq<char>) -> bool {
    function == "Legend"@ || function == "Soldermask"@ || function == "Carbonmask"@ || function
        == "Goldmask"@ || function == "Heatsinkmask"@ || function == "Peelablemask"@ || function
        == "Silvermask"@ || function == "Tinmask"@
}

/// An attribute of a file (`F`) or of an object (`O`) lacks a field that the parser takes: the
/// application of the software that generated the file, the side of a layer, or the name of a pin.
pub open spec fn lacks_fields(kind: char, body: Seq<char>) -> bool {
    let name = first_field(body);
    if kind == 'F' {
        ||| name == ".GenerationSoftware"@ && has_few_fields(body)
        ||| name == ".FileFunction"@ && has_few_fields(body) && (other_fields(body) matches Some(
            function,
        ) && is_sided(text::trimmed(function)))
    } else {
        kind == 'O' && name == ".P"@ && has_few_fields(body)
    }
}

/// The attribute lacks a field. `s` holds what follows its `T`.
pub open spec fn is_short_attribute(s: Seq<char>) -> bool {
    s.len() > 0 && lacks_fields(s[0], s.skip(1))
}

/// The text in front of the last `*`.
pub open spec fn before_star(s: Seq<char>) -> Option<Seq<char>>
    decreases s.len(),
{
    if s.len() == 0 {
        None
    } else if s.last() == '*' {
        Some(s.drop_last())
    } else {
        before_star(s.drop_last())
    }
}

/// The comment with which a file without attribute commands states an attribute.
pub open spec fn attribute_comment(line: Seq<char>) -> Option<Seq<char>> {
    match text::after_prefix(line, "G04 #@! T"@) {
        Some(rest) => Some(rest),
        None => text::after_prefix(line, "G04#@! T"@),
    }
}

/// What follows the `T` of the attribute that the line states, if it states one.
pub open spec fn stated_attribute(line: Seq<char>) -> Option<Seq<char>> {
    match text::after_prefix(line, "%T"@) {
        Some(rest) => if rest.len() >= 3 && rest[rest.len() - 2] == '*' && rest.last() == '%' {
            Some(rest.take(rest.len() - 2))
        } else {
            None
        },
        None => match attribute_comment(line) {
            Some(rest) => before_star(rest),
            None => None,
        },
    }
}

/// The parser can take the line apart. A line that starts with `G0` goes on with an ASCII
/// character, which the parser cuts the line behind; and an attribute has the fields that the
/// parser takes.
pub open spec fn harmless(line: Seq<char>) -> bool {
    &&& has_short_code(line) ==> line.len() > 2 && (line[2] as int) < 128
    &&& stated_attribute(line) matches Some(s) ==> !is_short_attribute(s)
}

/// What the parser knows between two lines.
#[verifier::ext_equal]
#[derive(Clone, Copy)]
pub struct Scan {
    /// The decimal places of the format in force.
    pub places: Option<u8>,
    /// The last character of a macro that goes on.
    pub open_macro: Option<char>,
    /// A line that is no text has ended the file.
    pub ended: bool,
}

/// The text ends a macro.
pub open spec fn ends_macro(s: Seq<char>) -> bool {
    s.len() >= 2 && s[s.len() - 2] == '*' && s.last() == '%'
}

pub open spec fn starts_macro(line: Seq<char>) -> bool {
    line.len() >= 3 && line[0] == '%' && line[1] == 'A' && line[2] == 'M'
}

pub open spec fn states_format(line: Seq<char>) -> bool {
    line.len() >= 2 && line[0] == '%' && line[1] == 'F'
}

impl Scan {
    pub open spec fn start() -> Scan {
        Scan { places: None, open_macro: None, ended: false }
    }

    /// A macro goes on until its text ends with `*%`, over the ends of lines. The first format that
    /// is not refused stays in force. A line that is no text ends a macro, or else the file.
    pub open spec fn after(self, line: Option<Seq<char>>) -> Scan {
        match self.open_macro {
            Some(c) => match line {
                Some(s) => {
                    let t = seq![c] + s;
                    Scan {
                        open_macro: if ends_macro(t) {
                            None
                        } else {
                            Some(t.last())
                        },
                        ..self
                    }
                },
                None => Scan { open_macro: None, ..self },
            },
            None => match line {
                Some(s) => if starts_macro(s) && !ends_macro(s) {
                    Scan { open_macro: Some(s.last()), ..self }
                } else if states_format(s) && self.places is None {
                    Scan { places: format_places(s), ..self }
                } else {
                    self
                },
                None => Scan { ended: true, ..self },
            },
        }
    }

    /// The parser goes through the line without a panic. It does not take a line apart that belongs
    /// to a macro, or that stands behind the end; and it computes with the coordinates of a line
    /// only where a format is in force.
    pub open spec fn admits(self, line: Option<Seq<char>>) -> bool {
        !self.ended && self.open_macro is None ==> (line matches Some(s) ==> {
            &&& harmless(s)
            &&& operates(s) ==> (self.places matches Some(places) ==> places <= 6 && safe_numbers(
                s,
                places as nat,
            ))
        })
    }
}

/// What the parser knows behind the lines.
pub open spec fn scanned(lines: Seq<Option<Seq<char>>>) -> Scan
    decreases lines.len(),
{
    if lines.len() == 0 {
        Scan::start()
    } else {
        scanned(lines.drop_last()).after(lines.last())
    }
}

/// The parser goes through each of the lines.
pub open spec fn all_admitted(lines: Seq<Option<Seq<char>>>) -> bool {
    forall|i: int| 0 <= i < lines.len() ==> scanned(lines.take(i)).admits(#[trigger] lines[i])
}

/// `gerber_parser::parse` goes through the bytes of a file without a panic: every line that it
/// takes apart is harmless, and the coordinates of every line fit the format in force. Each number
/// of a line with coordinates counts, also where the parser goes on to refuse the line.
pub open spec fn parsable(bytes: Seq<u8>) -> bool {
    all_admitted(line_texts(byte_lines(bytes)))
}

fn limit(places: u8) -> (r: u64)
    ensures
        r == number_limit(places as nat),
{
    match places {
        0 => 9_223_372_036_854,
        1 => 92_233_720_368_547,
        2 => 922_337_203_685_477,
        3 => 9_223_372_036_854_775,
        4 => 92_233_720_368_547_758,
        5 => 922_337_203_685_477_580,
        _ => 9_223_372_036_854_775_807,
    }
}

fn is_safe_number(digits: &[char], places: u8) -> (r: bool)
    requires
        digits@.len() > 0,
        text::all_digits(digits@),
    ensures
        r == (text::dec_value(digits@) <= number_limit(places as nat) || text::dec_value(digits@)
            > MAX_NUMBER),
{
    parse_number(digits, limit(places)).is_some() || parse_number(digits, MAX_NUMBER).is_none()
}

fn has_safe_numbers(line: &[char], places: u8) -> (r: bool)
    ensures
        r == safe_numbers(line@, places as nat),
{
    let mut i: usize = 0;
    while i < line.len()
        invariant
            i <= line@.len(),
            forall|k: int|
                k < i && #[trigger] starts_number(line@, k) ==> number_at(line@, k) <= number_limit(
                    places as nat,
                ) || number_at(line@, k) > MAX_NUMBER,
        decreases line@.len() - i,
    {
        if is_digit_exec(line[i]) && (i == 0 || !is_digit_exec(line[i - 1])) {
            let n: usize = digits_from(line, i);
            let digits = &line[i..i + n];
            proof {
                let rest = line@.skip(i as int);
                text::lemma_digit_run(rest);
                assert(digits@ =~= rest.take(n as int));
                assert(starts_number(line@, i as int));
                assert(rest[0] == line@[i as int]);
            }
            if !is_safe_number(digits, places) {
                return false;
            }
        }
        i = i + 1;
    }
    true
}

/// The place of the last `c` before `end`.
fn find_last(s: &[char], end: usize, c: char) -> (r: Option<usize>)
    requires
        end <= s@.len(),
    ensures
        match r {
            Some(i) => i < end && last_place(s@.take(end as int), c) == Some(i as int),
            None => last_place(s@.take(end as int), c) is None,
        },
{
    let mut n: usize = end;
    while n > 0
        invariant
            n <= end <= s@.len(),
            last_place(s@.take(end as int), c) == last_place(s@.take(n as int), c),
        decreases n,
    {
        assert(s@.take(n as int).drop_last() =~= s@.take(n - 1));
        assert(s@.take(n as int).last() == s@[n - 1]);
        if s[n - 1] == c {
            return Some(n - 1);
        }
        n = n - 1;
    }
    None
}

/// Where the last `*%` stands.
fn find_end(s: &[char]) -> (r: Option<usize>)
    ensures
        match r {
            Some(i) => i <= s@.len() && before_end(s@) == Some(s@.take(i as int)),
            None => before_end(s@) is None,
        },
{
    let mut n: usize = s.len();
    assert(s@.take(n as int) =~= s@);
    while n >= 2
        invariant
            n <= s@.len(),
            before_end(s@) == before_end(s@.take(n as int)),
        decreases n,
    {
        let ghost t = s@.take(n as int);
        assert(t.drop_last() =~= s@.take(n - 1));
        assert(t.last() == s@[n - 1] && t[t.len() - 2] == s@[n - 2]);
        if s[n - 2] == '*' && s[n - 1] == '%' {
            assert(t.take(t.len() - 2) =~= s@.take(n - 2));
            return Some(n - 2);
        }
        n = n - 1;
    }
    None
}

fn find_format_width(s: &[char]) -> (r: Option<usize>)
    ensures
        match r {
            Some(n) => format_width(s@) == Some(n as int) && n + 6 < s@.len(),
            None => format_width(s@) is None,
        },
{
    let end: usize = s.len();
    if !(end >= 6 && s[0] == '%' && s[1] == 'F' && s[2] == 'S' && (s[3] == 'L' || s[3] == 'T') && (
    s[4] == 'A' || s[4] == 'I') && s[5] == 'X') {
        return None;
    }
    let rest = &s[6..end];
    assert(rest@ =~= s@.skip(6));
    match find_end(rest) {
        Some(i) => find_last(rest, i, 'Y'),
        None => None,
    }
}

fn find_places(s: &[char]) -> (r: Option<u8>)
    ensures
        r == format_places(s@),
{
    let end: usize = s.len();
    let mut i: usize = 0;
    assert(s@.skip(0) =~= s@);
    while i < end
        invariant
            i <= end,
            end == s@.len(),
            format_places(s@) == format_places(s@.skip(i as int)),
        decreases end - i,
    {
        let rest = &s[i..end];
        assert(rest@ =~= s@.skip(i as int));
        if let Some(n) = find_format_width(rest) {
            if n >= 2 && '1' <= rest[6] && rest[6] <= '6' && is_digit_exec(rest[7]) {
                return Some((rest[7] as u32 - '0' as u32) as u8);
            }
            return None;
        }
        assert(s@.skip(i as int).skip(1) =~= s@.skip(i + 1));
        i = i + 1;
    }
    assert(s@.skip(i as int).len() == 0);
    None
}

fn is_ascii(c: char) -> (r: bool)
    ensures
        r == ((c as int) < 128),
{
    (c as u32) < 128
}

fn find_operation(line: &[char]) -> (r: bool)
    ensures
        r == operates(line@),
{
    let end: usize = line.len();
    if end > 0 && (line[0] == 'X' || line[0] == 'Y') {
        return true;
    }
    end > 2 && line[0] == 'G' && line[1] == '0' && '1' <= line[2] && line[2] <= '3' && (end > 4 || (
    end == 4 && !is_ascii(line[3])))
}

/// The first field, and the fields behind it.
fn split_field<'a>(body: &'a [char]) -> (r: (&'a [char], Option<&'a [char]>))
    ensures
        r.0@ == first_field(body@),
        match r.1 {
            Some(rest) => other_fields(body@) == Some(rest@),
            None => other_fields(body@) is None,
        },
{
    let end: usize = body.len();
    match find_text(body, ",") {
        Some(n) => {
            proof {
                reveal_strlit(",");
            }
            assert(n + 1 <= end);
            let head = &body[0..n];
            let rest = &body[n + 1..end];
            assert(head@ =~= body@.take(n as int));
            assert(rest@ =~= body@.skip(n + 1));
            (trim(head), Some(rest))
        },
        None => (trim(body), None),
    }
}

fn is_sided_function(function: &[char]) -> (r: bool)
    ensures
        r == is_sided(function@),
{
    is_text(function, "Legend") || is_text(function, "Soldermask") || is_text(
        function,
        "Carbonmask",
    ) || is_text(function, "Goldmask") || is_text(function, "Heatsinkmask") || is_text(
        function,
        "Peelablemask",
    ) || is_text(function, "Silvermask") || is_text(function, "Tinmask")
}

fn is_lacking(kind: char, body: &[char]) -> (r: bool)
    ensures
        r == lacks_fields(kind, body@),
{
    let (name, rest) = split_field(body);
    let few = match rest {
        Some(rest) => split_field(rest).1.is_none(),
        None => true,
    };
    if kind == 'F' {
        few && (is_text(name, ".GenerationSoftware") || (is_text(name, ".FileFunction")
            && match rest {
            Some(function) => is_sided_function(trim(function)),
            None => false,
        }))
    } else {
        kind == 'O' && is_text(name, ".P") && few
    }
}

fn find_star<'a>(s: &'a [char]) -> (r: Option<&'a [char]>)
    ensures
        match r {
            Some(t) => before_star(s@) == Some(t@),
            None => before_star(s@) is None,
        },
{
    let mut n: usize = s.len();
    assert(s@.take(n as int) =~= s@);
    while n > 0
        invariant
            n <= s@.len(),
            before_star(s@) == before_star(s@.take(n as int)),
        decreases n,
    {
        assert(s@.take(n as int).drop_last() =~= s@.take(n - 1));
        assert(s@.take(n as int).last() == s@[n - 1]);
        if s[n - 1] == '*' {
            let t = &s[0..n - 1];
            assert(t@ =~= s@.take(n - 1));
            return Some(t);
        }
        n = n - 1;
    }
    None
}

fn find_attribute<'a>(line: &'a [char]) -> (r: Option<&'a [char]>)
    ensures
        match r {
            Some(t) => stated_attribute(line@) == Some(t@),
            None => stated_attribute(line@) is None,
        },
{
    if let Some(rest) = strip_prefix(line, "%T") {
        let end: usize = rest.len();
        if end >= 3 && rest[end - 2] == '*' && rest[end - 1] == '%' {
            let s = &rest[0..end - 2];
            assert(s@ =~= rest@.take(rest@.len() - 2));
            return Some(s);
        }
        return None;
    }
    match strip_prefix(line, "G04 #@! T") {
        Some(rest) => find_star(rest),
        None => match strip_prefix(line, "G04#@! T") {
            Some(rest) => find_star(rest),
            None => None,
        },
    }
}

fn is_harmless(line: &[char]) -> (r: bool)
    ensures
        r == harmless(line@),
{
    let end: usize = line.len();
    if end >= 2 && line[0] == 'G' && line[1] == '0' && (end == 2 || !is_ascii(line[2])) {
        return false;
    }
    match find_attribute(line) {
        Some(s) => {
            if s.len() == 0 {
                return true;
            }
            let body = &s[1..s.len()];
            assert(body@ =~= s@.skip(1));
            !is_lacking(s[0], body)
        },
        None => true,
    }
}

fn see_line(line: &[u8]) -> (r: Option<Vec<char>>)
    ensures
        match r {
            Some(s) => line_text(line@) == Some(s@),
            None => line_text(line@) is None,
        },
{
    match decode(line) {
        Some(content) => {
            let chars = chars_of(content);
            Some(chars_of(text_of(trim(&chars)).as_str()))
        },
        None => None,
    }
}

fn is_macro_start(s: &[char]) -> (r: bool)
    ensures
        r == starts_macro(s@),
{
    s.len() >= 3 && s[0] == '%' && s[1] == 'A' && s[2] == 'M'
}

fn is_macro_end(s: &[char]) -> (r: bool)
    ensures
        r == ends_macro(s@),
{
    let end: usize = s.len();
    end >= 2 && s[end - 2] == '*' && s[end - 1] == '%'
}

impl Scan {
    fn is_admitted(&self, line: &Option<Vec<char>>) -> (r: bool)
        ensures
            r == self.admits(
                match *line {
                    Some(s) => Some(s@),
                    None => None,
                },
            ),
    {
        if self.ended || self.open_macro.is_some() {
            return true;
        }
        match line {
            Some(s) => is_harmless(s) && (!find_operation(s) || match self.places {
                Some(places) => places <= 6 && has_safe_numbers(s, places),
                None => true,
            }),
            None => true,
        }
    }

    fn advance(&mut self, line: &Option<Vec<char>>)
        ensures
            *final(self) == old(self).after(
                match *line {
                    Some(s) => Some(s@),
                    None => None,
                },
            ),
    {
        match (self.open_macro, line) {
            (Some(c), Some(s)) => {
                let end: usize = s.len();
                let ghost t = seq![c] + s@;
                if end > 0 {
                    assert(t.last() == s@[end - 1]);
                    let before = if end >= 2 {
                        s[end - 2]
                    } else {
                        c
                    };
                    assert(t[t.len() - 2] == before);
                    self.open_macro = if before == '*' && s[end - 1] == '%' {
                        None
                    } else {
                        Some(s[end - 1])
                    };
                }
            },
            (Some(_), None) => {
                self.open_macro = None;
            },
            (None, Some(s)) => {
                if is_macro_start(s) && !is_macro_end(s) {
                    self.open_macro = Some(s[s.len() - 1]);
                } else if s.len() >= 2 && s[0] == '%' && s[1] == 'F' && self.places.is_none() {
                    self.places = find_places(s);
                }
            },
            (None, None) => {
                self.ended = true;
            },
        }
    }
}

/// Whether the parser goes through the next line. Goes past it.
fn is_next_admitted(scan: &mut Scan, line: &[u8]) -> (r: bool)
    ensures
        r == old(scan).admits(line_text(line@)),
        *final(scan) == old(scan).after(line_text(line@)),
{
    let seen = see_line(line);
    let r = scan.is_admitted(&seen);
    scan.advance(&seen);
    r
}

/// Whether the bytes of a file can be parsed.
pub fn is_parsable(bytes: &[u8]) -> (r: bool)
    ensures
        r == parsable(bytes@),
{
    let end: usize = bytes.len();
    let mut scan = Scan { places: None, open_macro: None, ended: false };
    let mut start: usize = 0;
    let mut i: usize = 0;
    let mut r = true;
    let ghost mut done: Seq<Seq<u8>> = Seq::empty();
    assert(bytes@.take(0).len() == 0);
    assert(bytes@.subrange(0, 0) =~= Seq::<u8>::empty());
    assert(byte_lines(bytes@.take(0)) =~= done.push(bytes@.subrange(0, 0)));
    assert(line_texts(done) =~= Seq::empty());
    while i < end
        invariant
            start <= i <= end,
            end == bytes@.len(),
            byte_lines(bytes@.take(i as int)) == done.push(bytes@.subrange(start as int, i as int)),
            scan == scanned(line_texts(done)),
            r == all_admitted(line_texts(done)),
        decreases end - i,
    {
        let ghost now = bytes@.take(i + 1);
        let ghost current = bytes@.subrange(start as int, i as int);
        assert(now.drop_last() =~= bytes@.take(i as int));
        if bytes[i] == 10 {
            let line = &bytes[start..i];
            assert(line@ =~= current);
            let ok = is_next_admitted(&mut scan, line);
            r = r && ok;
            start = i + 1;
            proof {
                lemma_admitted_push(line_texts(done), line_text(current));
                assert(line_texts(done.push(current)) =~= line_texts(done).push(line_text(current)));
                done = done.push(current);
                assert(bytes@.subrange(start as int, i + 1) =~= Seq::<u8>::empty());
                assert(byte_lines(now) =~= done.push(bytes@.subrange(start as int, i + 1)));
            }
        } else {
            proof {
                assert(done.push(current).drop_last() =~= done);
                assert(current.push(bytes@[i as int]) =~= bytes@.subrange(start as int, i + 1));
            }
        }
        i = i + 1;
    }
    let line = &bytes[start..end];
    let ok = is_next_admitted(&mut scan, line);
    proof {
        assert(bytes@.take(end as int) =~= bytes@);
        let current = bytes@.subrange(start as int, end as int);
        assert(line@ =~= current);
        lemma_admitted_push(line_texts(done), line_text(current));
        assert(line_texts(byte_lines(bytes@)) =~= line_texts(done).push(line_text(current)));
    }
    r && ok
}

proof fn lemma_admitted_push(lines: Seq<Option<Seq<char>>>, line: Option<Seq<char>>)
    ensures
        scanned(lines.push(line)) == scanned(lines).after(line),
        all_admitted(lines.push(line)) == (all_admitted(lines) && scanned(lines).admits(line)),
{
    let all = lines.push(line);
    assert(all.drop_last() =~= lines);
    if all_admitted(all) {
        assert forall|i: int| 0 <= i < lines.len() implies scanned(lines.take(i)).admits(
            #[trigger] lines[i],
        ) by {
            assert(all[i] == lines[i]);
            assert(all.take(i) =~= lines.take(i));
        }
        assert(all[lines.len() as int] == line);
        assert(all.take(lines.len() as int) =~= lines);
    }
    if all_admitted(lines) && scanned(lines).admits(line) {
        assert forall|i: int| 0 <= i < all.len() implies scanned(all.take(i)).admits(
            #[trigger] all[i],
        ) by {
            if i < lines.len() {
                assert(all[i] == lines[i]);
                assert(all.take(i) =~= lines.take(i));
            } else {
                assert(all.take(i) =~= lines);
            }
        }
    }
}

} // verus!
