//! Characters, digits and decimal numerals.
//!
//! Text is handled as slices of characters, whose views are sequences of
//! characters; the functions below say in those terms what they read and what
//! they append.
use vstd::prelude::*;

verus! {

/// `String::push`: appends the character at the end and changes nothing else.
pub assume_specification[ std::string::String::push ](s: &mut std::string::String, c: char)
    ensures
        final(s)@ == old(s)@.push(c),
;

/// `std::str::from_utf8`: the text that the bytes encode, if they are UTF-8.
#[verifier::external_body]
pub(crate) fn decode<'a>(bytes: &'a [u8]) -> (r: Option<&'a str>)
    ensures
        r is Some <==> vstd::utf8::valid_utf8(bytes@),
        r matches Some(text) ==> text@ == vstd::utf8::decode_utf8(bytes@),
{
    std::str::from_utf8(bytes).ok()
}

pub open spec fn is_digit(c: char) -> bool {
    '0' <= c && c <= '9'
}

pub open spec fn all_digits(s: Seq<char>) -> bool {
    forall|i: int| 0 <= i < s.len() ==> is_digit(#[trigger] s[i])
}

pub open spec fn digit_value(c: char) -> nat {
    (c as int - '0' as int) as nat
}

pub open spec fn digit_char(d: nat) -> char {
    ('0' as int + d as int) as char
}

/// The number that a run of decimal digits stands for.
pub open spec fn dec_value(s: Seq<char>) -> nat
    decreases s.len(),
{
    if s.len() == 0 {
        0
    } else {
        dec_value(s.drop_last()) * 10 + digit_value(s.last())
    }
}

/// `10` to the power `n`.
pub open spec fn pow10(n: nat) -> nat
    decreases n,
{
    if n == 0 {
        1
    } else {
        10 * pow10((n - 1) as nat)
    }
}

/// The decimal numeral of `n`, without leading zeros.
pub open spec fn dec_digits(n: nat) -> Seq<char>
    decreases n,
{
    if n < 10 {
        seq![digit_char(n)]
    } else {
        dec_digits(n / 10).push(digit_char(n % 10))
    }
}

pub open spec fn zeros(n: nat) -> Seq<char> {
    Seq::new(n, |i: int| '0')
}

/// The decimal numeral of `n`, filled up with zeros on the left to `width`
/// characters.
pub open spec fn padded_digits(n: nat, width: nat) -> Seq<char> {
    let d = dec_digits(n);
    if d.len() < width {
        zeros((width - d.len()) as nat) + d
    } else {
        d
    }
}

/// How many digits `s` starts with.
pub open spec fn digit_run(s: Seq<char>) -> nat
    decreases s.len(),
{
    if s.len() == 0 || !is_digit(s[0]) {
        0
    } else {
        1 + digit_run(s.skip(1))
    }
}

pub proof fn lemma_digit_run(s: Seq<char>)
    ensures
        digit_run(s) <= s.len(),
        all_digits(s.take(digit_run(s) as int)),
        digit_run(s) < s.len() ==> !is_digit(s[digit_run(s) as int]),
    decreases s.len(),
{
    if s.len() > 0 && is_digit(s[0]) {
        let t = s.skip(1);
        lemma_digit_run(t);
        let r = digit_run(t) as int;
        assert forall|i: int| 0 <= i < r + 1 implies is_digit(#[trigger] s.take(r + 1)[i]) by {
            if i > 0 {
                assert(s.take(r + 1)[i] == t.take(r)[i - 1]);
            }
        }
    }
}

/// The digit run of `s` is the only prefix of digits that no digit follows.
pub proof fn lemma_digit_run_unique(s: Seq<char>, n: int)
    requires
        0 <= n <= s.len(),
        all_digits(s.take(n)),
        n < s.len() ==> !is_digit(s[n]),
    ensures
        digit_run(s) == n,
{
    lemma_digit_run(s);
    let r = digit_run(s) as int;
    if r < n {
        assert(s.take(n)[r] == s[r]);
    } else if n < r {
        assert(s.take(r)[n] == s[n]);
    }
}

pub fn is_digit_exec(c: char) -> (r: bool)
    ensures
        r == is_digit(c),
{
    '0' <= c && c <= '9'
}

/// The length of the digit run that starts at `from`.
pub fn digits_from(s: &[char], from: usize) -> (n: usize)
    requires
        from <= s@.len(),
    ensures
        n == digit_run(s@.skip(from as int)),
        from + n <= s@.len(),
{
    let end: usize = s.len();
    let mut i: usize = from;
    while i < end && is_digit_exec(s[i])
        invariant
            from <= i <= end,
            end == s@.len(),
            all_digits(s@.skip(from as int).take(i - from)),
        decreases end - i,
    {
        proof {
            let t = s@.skip(from as int);
            let n = i - from;
            assert forall|k: int| 0 <= k < n + 1 implies is_digit(#[trigger] t.take(n + 1)[k]) by {
                if k < n {
                    assert(t.take(n + 1)[k] == t.take(n)[k]);
                }
            }
        }
        i = i + 1;
    }
    proof {
        lemma_digit_run_unique(s@.skip(from as int), i - from);
    }
    i - from
}

pub proof fn lemma_dec_value_prefix(s: Seq<char>, n: int)
    requires
        0 <= n <= s.len(),
    ensures
        dec_value(s.take(n)) <= dec_value(s),
    decreases s.len() - n,
{
    if n < s.len() {
        lemma_dec_value_prefix(s, n + 1);
        assert(s.take(n + 1).drop_last() =~= s.take(n));
    } else {
        assert(s.take(n) =~= s);
    }
}

/// The number written by `s`, when `s` is a run of one or more digits and the
/// number is at most `max`.
pub open spec fn number(s: Seq<char>, max: nat) -> Option<nat> {
    if s.len() > 0 && all_digits(s) && dec_value(s) <= max {
        Some(dec_value(s))
    } else {
        None
    }
}

pub fn parse_number(s: &[char], max: u64) -> (r: Option<u64>)
    ensures
        r is Some <==> number(s@, max as nat) is Some,
        r matches Some(v) ==> number(s@, max as nat) == Some(v as nat),
{
    if s.len() == 0 {
        return None;
    }
    let mut v: u64 = 0;
    let mut i: usize = 0;
    while i < s.len()
        invariant
            i <= s@.len(),
            v == dec_value(s@.take(i as int)),
            v <= max,
            all_digits(s@.take(i as int)),
        decreases s@.len() - i,
    {
        let c: char = s[i];
        proof {
            lemma_dec_value_prefix(s@, i + 1);
            assert(s@.take(i + 1).drop_last() =~= s@.take(i as int));
            assert(s@.take(i + 1).last() == c);
        }
        if !is_digit_exec(c) {
            return None;
        }
        let d: u64 = c as u64 - '0' as u64;
        assert(d < 10);
        if v > max / 10 || d > max - v * 10 {
            return None;
        }
        v = v * 10 + d;
        i = i + 1;
    }
    assert(s@.take(i as int) =~= s@);
    Some(v)
}

/// Appends the decimal numeral of `n`.
pub fn push_number(out: &mut String, n: u64)
    ensures
        final(out)@ == old(out)@ + dec_digits(n as nat),
    decreases n,
{
    if n < 10 {
        let c: char = (48u8 + n as u8) as char;
        out.push(c);
    } else {
        push_number(out, n / 10);
        let c: char = (48u8 + (n % 10) as u8) as char;
        out.push(c);
    }
    assert(out@ =~= old(out)@ + dec_digits(n as nat));
}

/// Appends `n` zeros.
pub fn push_zeros(out: &mut String, n: usize)
    ensures
        final(out)@ == old(out)@ + zeros(n as nat),
{
    let mut i: usize = 0;
    while i < n
        invariant
            i <= n,
            out@ == old(out)@ + zeros(i as nat),
        decreases n - i,
    {
        out.push('0');
        i = i + 1;
        assert(out@ =~= old(out)@ + zeros(i as nat));
    }
}

/// Appends the characters of `s`.
pub fn push_chars(out: &mut String, s: &[char])
    ensures
        final(out)@ == old(out)@ + s@,
{
    let mut i: usize = 0;
    while i < s.len()
        invariant
            i <= s@.len(),
            out@ == old(out)@ + s@.take(i as int),
        decreases s@.len() - i,
    {
        out.push(s[i]);
        i = i + 1;
        assert(out@ =~= old(out)@ + s@.take(i as int));
    }
    assert(s@.take(i as int) =~= s@);
}

/// A string that holds the characters of `s`.
pub fn text_of(s: &[char]) -> (r: String)
    ensures
        r@ == s@,
{
    let mut out = String::new();
    push_chars(&mut out, s);
    assert(out@ =~= s@);
    out
}

/// The characters of `s`.
pub fn chars_of(s: &str) -> (r: Vec<char>)
    ensures
        r@ == s@,
{
    let mut out: Vec<char> = Vec::new();
    for c in it: s.chars()
        invariant
            out@ == s@.take(it.index() as int),
            it.seq() == s@,
    {
        out.push(c);
        assert(out@ =~= s@.take(it.index() + 1));
    }
    assert(out@ =~= s@);
    out
}

/// What follows `prefix` in `s`, when `s` starts with it.
pub open spec fn after_prefix(s: Seq<char>, prefix: Seq<char>) -> Option<Seq<char>> {
    if prefix.is_prefix_of(s) {
        Some(s.skip(prefix.len() as int))
    } else {
        None
    }
}

pub fn strip_prefix<'a>(s: &'a [char], prefix: &str) -> (r: Option<&'a [char]>)
    ensures
        r is Some <==> prefix@.is_prefix_of(s@),
        r matches Some(t) ==> after_prefix(s@, prefix@) == Some(t@),
{
    let p = chars_of(prefix);
    if p.len() > s.len() {
        return None;
    }
    let mut i: usize = 0;
    while i < p.len()
        invariant
            i <= p@.len(),
            p@.len() <= s@.len(),
            p@ == prefix@,
            forall|k: int| 0 <= k < i ==> p@[k] == s@[k],
        decreases p@.len() - i,
    {
        if p[i] != s[i] {
            return None;
        }
        i = i + 1;
    }
    assert(p@.is_prefix_of(s@));
    let t = &s[i..s.len()];
    assert(t@ =~= s@.skip(i as int));
    Some(t)
}

/// Whether `s` is exactly the characters of `text`.
pub fn is_text(s: &[char], text: &str) -> (r: bool)
    ensures
        r == (s@ == text@),
{
    let p = chars_of(text);
    if p.len() != s.len() {
        return false;
    }
    let mut i: usize = 0;
    while i < p.len()
        invariant
            i <= p@.len(),
            p@.len() == s@.len(),
            p@ == text@,
            forall|k: int| 0 <= k < i ==> p@[k] == s@[k],
        decreases p@.len() - i,
    {
        if p[i] != s[i] {
            return false;
        }
        i = i + 1;
    }
    assert(s@ =~= text@);
    true
}

/// Appends the numeral of `n`, filled up with zeros on the left to `width` characters.
pub fn push_padded(out: &mut String, n: u64, width: usize)
    ensures
        final(out)@ == old(out)@ + padded_digits(n as nat, width as nat),
{
    let mut digits = String::new();
    push_number(&mut digits, n);
    let chars = chars_of(digits.as_str());
    let len: usize = chars.len();
    if len < width {
        push_zeros(out, width - len);
    }
    push_chars(out, &chars);
    assert(out@ =~= old(out)@ + padded_digits(n as nat, width as nat));
}

pub proof fn lemma_pow10_small()
    ensures
        forall|k: nat| k <= 9 ==> 1 <= #[trigger] pow10(k) <= 1_000_000_000,
        pow10(9) == 1_000_000_000,
{
    reveal_with_fuel(pow10, 10);
    assert forall|k: nat| k <= 9 implies 1 <= #[trigger] pow10(k) <= 1_000_000_000 by {
        assert(k == 0 || k == 1 || k == 2 || k == 3 || k == 4 || k == 5 || k == 6 || k == 7 || k == 8
            || k == 9);
    }
}

/// The characters with the Unicode property `White_Space`.
pub open spec fn is_space(c: char) -> bool {
    let n = c as int;
    9 <= n <= 13 || n == 32 || n == 0x85 || n == 0xa0 || n == 0x1680 || 0x2000 <= n <= 0x200a
        || n == 0x2028 || n == 0x2029 || n == 0x202f || n == 0x205f || n == 0x3000
}

pub fn is_space_exec(c: char) -> (r: bool)
    ensures
        r == is_space(c),
{
    let n: u32 = c as u32;
    (9 <= n && n <= 13) || n == 32 || n == 0x85 || n == 0xa0 || n == 0x1680 || (0x2000 <= n && n
        <= 0x200a) || n == 0x2028 || n == 0x2029 || n == 0x202f || n == 0x205f || n == 0x3000
}

pub open spec fn trim_start(s: Seq<char>) -> Seq<char>
    decreases s.len(),
{
    if s.len() > 0 && is_space(s[0]) {
        trim_start(s.skip(1))
    } else {
        s
    }
}

pub open spec fn trim_end(s: Seq<char>) -> Seq<char>
    decreases s.len(),
{
    if s.len() > 0 && is_space(s.last()) {
        trim_end(s.drop_last())
    } else {
        s
    }
}

/// `s` without the white space at both ends.
pub open spec fn trimmed(s: Seq<char>) -> Seq<char> {
    trim_end(trim_start(s))
}

pub fn trim<'a>(s: &'a [char]) -> (r: &'a [char])
    ensures
        r@ == trimmed(s@),
{
    let mut a: usize = 0;
    let mut b: usize = s.len();
    assert(s@.skip(0) =~= s@);
    while a < b && is_space_exec(s[a])
        invariant
            a <= b,
            b == s@.len(),
            trim_start(s@) == trim_start(s@.skip(a as int)),
        decreases b - a,
    {
        assert(s@.skip(a as int).skip(1) =~= s@.skip(a + 1));
        a = a + 1;
    }
    let ghost t = s@.skip(a as int);
    assert(trim_start(s@) == t);
    assert(t =~= s@.subrange(a as int, b as int));
    while a < b && is_space_exec(s[b - 1])
        invariant
            a <= b <= s@.len(),
            trim_end(t) == trim_end(s@.subrange(a as int, b as int)),
        decreases b - a,
    {
        assert(s@.subrange(a as int, b as int).drop_last() =~= s@.subrange(a as int, b - 1));
        b = b - 1;
    }
    &s[a..b]
}

/// `s` without the copies of `c` that it starts with.
pub open spec fn trim_start_char(s: Seq<char>, c: char) -> Seq<char>
    decreases s.len(),
{
    if s.len() > 0 && s[0] == c {
        trim_start_char(s.skip(1), c)
    } else {
        s
    }
}

/// `s` without the copies of `c` that it ends with.
pub open spec fn trim_end_char(s: Seq<char>, c: char) -> Seq<char>
    decreases s.len(),
{
    if s.len() > 0 && s.last() == c {
        trim_end_char(s.drop_last(), c)
    } else {
        s
    }
}

pub fn strip_start_char<'a>(s: &'a [char], c: char) -> (r: &'a [char])
    ensures
        r@ == trim_start_char(s@, c),
{
    let end: usize = s.len();
    let mut a: usize = 0;
    assert(s@.skip(0) =~= s@);
    while a < end && s[a] == c
        invariant
            a <= end,
            end == s@.len(),
            trim_start_char(s@, c) == trim_start_char(s@.skip(a as int), c),
        decreases end - a,
    {
        assert(s@.skip(a as int).skip(1) =~= s@.skip(a + 1));
        a = a + 1;
    }
    assert(s@.skip(a as int) =~= s@.subrange(a as int, end as int));
    &s[a..end]
}

pub fn strip_end_char<'a>(s: &'a [char], c: char) -> (r: &'a [char])
    ensures
        r@ == trim_end_char(s@, c),
{
    let mut b: usize = s.len();
    assert(s@.take(b as int) =~= s@);
    while b > 0 && s[b - 1] == c
        invariant
            b <= s@.len(),
            trim_end_char(s@, c) == trim_end_char(s@.take(b as int), c),
        decreases b,
    {
        assert(s@.take(b as int).drop_last() =~= s@.take(b - 1));
        b = b - 1;
    }
    assert(s@.take(b as int) =~= s@.subrange(0, b as int));
    &s[0..b]
}

/// Where `pattern` first occurs in `s`.
pub open spec fn find(s: Seq<char>, pattern: Seq<char>) -> Option<int>
    decreases s.len(),
{
    if pattern.is_prefix_of(s) {
        Some(0)
    } else if s.len() == 0 {
        None
    } else {
        match find(s.skip(1), pattern) {
            Some(i) => Some(i + 1),
            None => None,
        }
    }
}

pub fn find_text(s: &[char], pattern: &str) -> (r: Option<usize>)
    ensures
        r is Some <==> find(s@, pattern@) is Some,
        r matches Some(i) ==> find(s@, pattern@) == Some(i as int) && i + pattern@.len() <= s@.len(),
{
    let mut i: usize = 0;
    assert(s@.skip(0) =~= s@);
    let end: usize = s.len();
    loop
        invariant
            i <= end,
            end == s@.len(),
            find(s@.skip(i as int), pattern@) matches Some(k) ==> find(s@, pattern@) == Some(k + i),
            find(s@.skip(i as int), pattern@) is None ==> find(s@, pattern@) is None,
        decreases end - i,
    {
        let rest = &s[i..end];
        assert(rest@ =~= s@.skip(i as int));
        if strip_prefix(rest, pattern).is_some() {
            return Some(i);
        }
        if i == end {
            return None;
        }
        assert(s@.skip(i as int).skip(1) =~= s@.skip(i + 1));
        i = i + 1;
    }
}

/// The lines of a text: what stands between its line feeds.
pub open spec fn lines(s: Seq<char>) -> Seq<Seq<char>>
    decreases s.len(),
{
    if s.len() == 0 {
        seq![Seq::<char>::empty()]
    } else {
        let rest = lines(s.drop_last());
        if s.last() == '\n' {
            rest.push(Seq::empty())
        } else {
            rest.drop_last().push(rest.last().push(s.last()))
        }
    }
}

pub proof fn lemma_lines_nonempty(s: Seq<char>)
    ensures
        lines(s).len() > 0,
    decreases s.len(),
{
    if s.len() > 0 {
        lemma_lines_nonempty(s.drop_last());
    }
}

/// The lines of `text`.
pub fn split_lines(text: &str) -> (r: Vec<Vec<char>>)
    ensures
        r@.len() == lines(text@).len(),
        forall|i: int| 0 <= i < r@.len() ==> #[trigger] r@[i]@ == lines(text@)[i],
{
    let mut done: Vec<Vec<char>> = Vec::new();
    let mut current: Vec<char> = Vec::new();
    assert(text@.take(0) =~= Seq::<char>::empty());
    for c in it: text.chars()
        invariant
            it.seq() == text@,
            done@.len() + 1 == lines(text@.take(it.index() as int)).len(),
            forall|i: int|
                0 <= i < done@.len() ==> #[trigger] done@[i]@ == lines(
                    text@.take(it.index() as int),
                )[i],
            current@ == lines(text@.take(it.index() as int)).last(),
    {
        let ghost before = text@.take(it.index() as int);
        let ghost now = text@.take(it.index() + 1);
        let ghost done0 = done@;
        proof {
            assert(now.drop_last() =~= before);
            assert(now.last() == c);
        }
        if c == '\n' {
            done.push(current);
            current = Vec::new();
            assert forall|i: int| 0 <= i < done@.len() implies #[trigger] done@[i]@ == lines(now)[i] by {
                if i < done0.len() {
                    assert(done@[i] == done0[i]);
                }
            }
            assert(current@ =~= lines(now).last());
        } else {
            current.push(c);
            assert forall|i: int| 0 <= i < done@.len() implies #[trigger] done@[i]@ == lines(now)[i] by {
                assert(done@[i] == done0[i]);
            }
        }
    }
    assert(text@.take(text@.len() as int) =~= text@);
    let ghost done1 = done@;
    done.push(current);
    assert forall|i: int| 0 <= i < done@.len() implies #[trigger] done@[i]@ == lines(text@)[i] by {
        if i < done1.len() {
            assert(done@[i] == done1[i]);
        }
    }
    done
}

/// A numeral is made of digits and stands for its number.
pub proof fn lemma_dec_digits(n: nat)
    ensures
        dec_digits(n).len() > 0,
        all_digits(dec_digits(n)),
        dec_value(dec_digits(n)) == n,
    decreases n,
{
    if n < 10 {
        let d = dec_digits(n);
        assert(d.drop_last() =~= Seq::<char>::empty());
        assert(is_digit(d[0]));
        reveal_with_fuel(dec_value, 2);
        assert(digit_value(d[0]) == n);
    } else {
        lemma_dec_digits(n / 10);
        let d = dec_digits(n);
        assert(d.drop_last() =~= dec_digits(n / 10));
        assert forall|i: int| 0 <= i < d.len() implies is_digit(#[trigger] d[i]) by {
            if i < d.len() - 1 {
                assert(d[i] == dec_digits(n / 10)[i]);
            }
        }
    }
}

pub proof fn lemma_pow10_add(a: nat, b: nat)
    ensures
        pow10(a + b) == pow10(a) * pow10(b),
        pow10(a) > 0,
    decreases a,
{
    if a > 0 {
        lemma_pow10_add((a - 1) as nat, b);
        assert(pow10(a + b) == 10 * pow10((a - 1 + b) as nat));
        assert(10 * (pow10((a - 1) as nat) * pow10(b)) == (10 * pow10((a - 1) as nat)) * pow10(b))
            by (nonlinear_arith);
        assert(pow10(a) == 10 * pow10((a - 1) as nat));
    } else {
        assert(1 * pow10(b) == pow10(b)) by (nonlinear_arith);
    }
}

/// Digits in front of others count as many tens more.
pub proof fn lemma_dec_value_concat(a: Seq<char>, b: Seq<char>)
    ensures
        dec_value(a + b) == dec_value(a) * pow10(b.len()) + dec_value(b),
    decreases b.len(),
{
    if b.len() == 0 {
        assert(a + b =~= a);
        assert(dec_value(a) * pow10(0) == dec_value(a)) by (nonlinear_arith)
            requires
                pow10(0) == 1,
        ;
    } else {
        lemma_dec_value_concat(a, b.drop_last());
        assert((a + b).drop_last() =~= a + b.drop_last());
        let v = dec_value(a);
        let p = pow10((b.len() - 1) as nat);
        assert((v * p) * 10 == v * (10 * p)) by (nonlinear_arith);
        assert((v * p + dec_value(b.drop_last())) * 10 == (v * p) * 10 + dec_value(b.drop_last())
            * 10) by (nonlinear_arith);
    }
}

pub proof fn lemma_zeros_value(n: nat)
    ensures
        dec_value(zeros(n)) == 0,
        all_digits(zeros(n)),
    decreases n,
{
    if n > 0 {
        lemma_zeros_value((n - 1) as nat);
        assert(zeros(n).drop_last() =~= zeros((n - 1) as nat));
    }
}

pub proof fn lemma_all_digits_concat(a: Seq<char>, b: Seq<char>)
    ensures
        all_digits(a) && all_digits(b) ==> all_digits(a + b),
        all_digits(a + b) ==> all_digits(a) && all_digits(b),
{
    if all_digits(a) && all_digits(b) {
        assert forall|i: int| 0 <= i < (a + b).len() implies is_digit(#[trigger] (a + b)[i]) by {
            if i < a.len() {
                assert(is_digit(a[i]));
            } else {
                assert(is_digit(b[i - a.len()]));
            }
        }
    }
    if all_digits(a + b) {
        assert forall|i: int| 0 <= i < a.len() implies is_digit(#[trigger] a[i]) by {
            assert((a + b)[i] == a[i]);
        }
        assert forall|i: int| 0 <= i < b.len() implies is_digit(#[trigger] b[i]) by {
            assert((a + b)[a.len() + i] == b[i]);
        }
    }
}

/// A run of digits stands for a number below the power of ten of its length.
pub proof fn lemma_dec_value_bound(s: Seq<char>)
    requires
        all_digits(s),
    ensures
        dec_value(s) < pow10(s.len()),
    decreases s.len(),
{
    if s.len() > 0 {
        assert(all_digits(s.drop_last())) by {
            assert forall|i: int| 0 <= i < s.drop_last().len() implies is_digit(
                #[trigger] s.drop_last()[i],
            ) by {
                assert(s.drop_last()[i] == s[i]);
            }
        }
        lemma_dec_value_bound(s.drop_last());
        assert(is_digit(s[s.len() - 1]));
    }
}

/// A number below a power of ten has no more digits than its exponent, if that is not zero.
pub proof fn lemma_dec_digits_length(n: nat, k: nat)
    requires
        n < pow10(k),
        k > 0,
    ensures
        dec_digits(n).len() <= k,
    decreases k,
{
    if n >= 10 {
        if k == 1 {
            assert(pow10(1) == 10 * pow10(0));
        } else {
            assert(n / 10 < pow10((k - 1) as nat));
            lemma_dec_digits_length(n / 10, (k - 1) as nat);
        }
    }
}

/// A filled up numeral has the width it was filled up to, and stands for its number.
pub proof fn lemma_padded_digits(n: nat, width: nat)
    requires
        n < pow10(width),
        width > 0,
    ensures
        padded_digits(n, width).len() == width,
        all_digits(padded_digits(n, width)),
        dec_value(padded_digits(n, width)) == n,
{
    lemma_dec_digits(n);
    lemma_dec_digits_length(n, width);
    let d = dec_digits(n);
    if d.len() < width {
        let z = zeros((width - d.len()) as nat);
        lemma_zeros_value((width - d.len()) as nat);
        lemma_all_digits_concat(z, d);
        lemma_dec_value_concat(z, d);
        assert(0 * pow10(d.len()) == 0) by (nonlinear_arith);
    }
}

pub open spec fn repeated(c: char, n: nat) -> Seq<char> {
    Seq::new(n, |i: int| c)
}

/// What is trimmed off the end of a text is nothing but the character in question.
pub proof fn lemma_trim_end_char(s: Seq<char>, c: char)
    ensures
        trim_end_char(s, c).len() <= s.len(),
        trim_end_char(s, c) + repeated(c, (s.len() - trim_end_char(s, c).len()) as nat) == s,
        trim_end_char(s, c).len() > 0 ==> trim_end_char(s, c).last() != c,
    decreases s.len(),
{
    if s.len() > 0 && s.last() == c {
        lemma_trim_end_char(s.drop_last(), c);
        let t = trim_end_char(s, c);
        assert(t + repeated(c, (s.len() - t.len()) as nat) =~= (t + repeated(
            c,
            (s.len() - 1 - t.len()) as nat,
        )).push(c));
        assert(s =~= s.drop_last().push(c));
    } else {
        assert(s + repeated(c, 0) =~= s);
    }
}

/// What is trimmed off the start of a text is nothing but the character in question.
pub proof fn lemma_trim_start_char(s: Seq<char>, c: char)
    ensures
        trim_start_char(s, c).len() <= s.len(),
        repeated(c, (s.len() - trim_start_char(s, c).len()) as nat) + trim_start_char(s, c) == s,
        trim_start_char(s, c).len() > 0 ==> trim_start_char(s, c)[0] != c,
    decreases s.len(),
{
    if s.len() > 0 && s[0] == c {
        lemma_trim_start_char(s.skip(1), c);
        let t = trim_start_char(s, c);
        assert(repeated(c, (s.len() - t.len()) as nat) + t =~= seq![c] + (repeated(
            c,
            (s.len() - 1 - t.len()) as nat,
        ) + t));
        assert(s =~= seq![c] + s.skip(1));
    } else {
        assert(repeated(c, 0) + s =~= s);
    }
}

/// `s` is `word`, a word of small letters, in small or capital letters.
pub open spec fn caseless(s: Seq<char>, word: Seq<char>) -> bool {
    s.len() == word.len() && forall|i: int|
        0 <= i < s.len() ==> (#[trigger] s[i] == word[i] || s[i] as int + 32 == word[i] as int)
}

fn is_letter(c: char, small: char) -> (r: bool)
    ensures
        r == (c == small || c as int + 32 == small as int),
{
    c == small || c as u32 + 32 == small as u32
}

pub fn is_caseless(s: &[char], word: &str) -> (r: bool)
    ensures
        r == caseless(s@, word@),
{
    let letters = chars_of(word);
    if s.len() != letters.len() {
        return false;
    }
    let mut i: usize = 0;
    while i < s.len()
        invariant
            i <= s@.len(),
            s@.len() == letters@.len(),
            letters@ == word@,
            forall|k: int|
                0 <= k < i ==> (#[trigger] s@[k] == word@[k] || s@[k] as int + 32
                    == word@[k] as int),
        decreases s@.len() - i,
    {
        if !is_letter(s[i], letters[i]) {
            assert(!(s@[i as int] == word@[i as int] || s@[i as int] as int + 32
                == word@[i as int] as int));
            return false;
        }
        i = i + 1;
    }
    true
}

} // verus!
