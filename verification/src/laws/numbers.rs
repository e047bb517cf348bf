//! Reading what was written: numbers.
use crate::excellon_format::{UnitDefinition, ZeroSuppression};
use crate::fixed::{Fixed, ONE};
use crate::fixed;
use crate::scalar::Scalar;
use crate::text;
use vstd::prelude::*;

verus! {

/// `x` is a multiple of the smallest number with `places` decimal places.
pub open spec fn on_grid(x: Fixed, places: nat) -> bool {
    x.raw as int % text::pow10((9 - places) as nat) as int == 0
}

/// A minus sign, or nothing.
pub open spec fn sign(negative: bool) -> Seq<char> {
    if negative {
        seq!['-']
    } else {
        Seq::empty()
    }
}

pub open spec fn signed(negative: bool, v: int) -> int {
    if negative {
        -v
    } else {
        v
    }
}

/// A numeral of digits alone is read as what the digits stand for.
pub proof fn lemma_whole_numeral(negative: bool, d: Seq<char>, places: nat)
    requires
        text::all_digits(d),
        d.len() > 0,
        places <= 9,
    ensures
        Fixed::numeral(sign(negative) + d, places as int) == Some(
            Fixed::of(
                signed(negative, (text::dec_value(d) * text::pow10((9 - places) as nat)) as int),
            ),
        ),
{
    let s = sign(negative) + d;
    let body = if negative {
        s.skip(1)
    } else {
        s
    };
    assert(body =~= d);
    if !negative {
        assert(text::is_digit(d[0]));
        assert(s[0] == d[0]);
    }
    assert(d.take(d.len() as int) =~= d);
    text::lemma_digit_run_unique(d, d.len() as int);
    assert(fixed::numeral_parts(s) == Some((negative, d, Seq::<char>::empty())));
    let z = text::zeros((9 - places) as nat);
    assert(d + Seq::<char>::empty() =~= d);
    assert(fixed::nine_places(d, Seq::empty(), places as int) =~= d + z);
    text::lemma_dec_value_concat(d, z);
    text::lemma_zeros_value((9 - places) as nat);
}

/// A number on a grid is a whole number of steps of the grid.
pub proof fn lemma_steps(x: Fixed, places: nat) -> (k: int)
    requires
        places <= 9,
        on_grid(x, places),
    ensures
        x.raw == k * text::pow10((9 - places) as nat),
        x.rounded_spec(places) == (k < 0, fixed::abs(k) as u64),
        fixed::abs(k) <= fixed::abs(x.raw as int),
        fixed::abs(k) * text::pow10((9 - places) as nat) == fixed::abs(x.raw as int),
{
    let g = text::pow10((9 - places) as nat) as int;
    let p = text::pow10(places) as int;
    text::lemma_pow10_small();
    text::lemma_pow10_add(places, (9 - places) as nat);
    text::lemma_pow10_add((9 - places) as nat, 0);
    let raw = x.raw as int;
    let k = raw / g;
    assert(raw == k * g) by (nonlinear_arith)
        requires
            k == raw / g,
            raw % g == 0,
            g > 0,
    ;
    assert(raw * p == k * ONE) by (nonlinear_arith)
        requires
            raw == k * g,
            p * g == ONE,
    ;
    assert(fixed::abs(k * ONE) == fixed::abs(k) * ONE) by (nonlinear_arith)
        requires
            ONE > 0,
    ;
    assert(fixed::round_div(k * ONE, ONE as int) == k);
    assert(fixed::abs(k) <= fixed::abs(raw)) by (nonlinear_arith)
        requires
            raw == k * g,
            g >= 1,
    ;
    assert(fixed::abs(k) * g == fixed::abs(raw)) by (nonlinear_arith)
        requires
            raw == k * g,
            g >= 1,
    ;
    k
}

proof fn lemma_no_point(negative: bool, d: Seq<char>)
    requires
        text::all_digits(d),
    ensures
        !(sign(negative) + d).contains('.'),
{
    let s = sign(negative) + d;
    assert forall|i: int| 0 <= i < s.len() implies s[i] != '.' by {
        if !(negative && i == 0) {
            let j = if negative {
                i - 1
            } else {
                i
            };
            assert(s[i] == d[j]);
            assert(text::is_digit(d[j]));
        }
    }
}

/// A minus sign or none, digits and, where there are more of them, a point and these.
pub open spec fn numeral(negative: bool, whole: Seq<char>, fraction: Seq<char>) -> Seq<char> {
    sign(negative) + whole + if fraction.len() > 0 {
        seq!['.'] + fraction
    } else {
        Seq::empty()
    }
}

pub open spec fn is_numeral(negative: bool, whole: Seq<char>, fraction: Seq<char>) -> bool {
    whole.len() > 0 && text::all_digits(whole) && text::all_digits(fraction)
}

/// A run of digits that stands for `n`, with the sign, is read as `x`, however many zeros it starts
/// with.
pub open spec fn reads<N: Scalar>(x: N, negative: bool, n: nat, places: nat) -> bool {
    forall|d: Seq<char>|
        d.len() > 0 && text::all_digits(d) && text::dec_value(d) == n ==> #[trigger] N::parsed_spec(
            sign(negative) + d,
            places,
        ) == Some(x)
}

/// `x` has no more than `places` decimal places: what it is rounded to is read as `x` again.
pub open spec fn exact<N: Scalar>(x: N, places: nat) -> bool {
    if x.same_spec(N::zero_spec()) {
        reads(x, false, 0, places)
    } else {
        let (negative, n) = x.rounded_spec(places);
        n > 0 && reads(x, negative, n as nat, places)
    }
}

/// `x` is written with these digits, and read from them, whether or not the zeros at the end are
/// there.
pub open spec fn writes_as<N: Scalar>(
    x: N,
    places: nat,
    negative: bool,
    whole: Seq<char>,
    fraction: Seq<char>,
) -> bool {
    &&& is_numeral(negative, whole, fraction)
    &&& fraction.len() == places
    &&& x.text_spec(places) == sign(negative) + whole + seq!['.'] + fraction
    &&& forall|k: int|
        0 <= k <= places && fraction.skip(k) == text::zeros((places - k) as nat)
            ==> #[trigger] N::parsed_spec(numeral(negative, whole, fraction.take(k)), 0) == Some(x)
}

/// `x` has no more than `places` decimal places: its text is read as `x` again.
pub open spec fn exact_text<N: Scalar>(x: N, places: nat) -> bool {
    exists|negative: bool, whole: Seq<char>, fraction: Seq<char>| #[trigger]
        writes_as(x, places, negative, whole, fraction)
}

/// The format can hold `x`. With a point that is six decimal places; without one, `x` has no more
/// decimal places than the format and, where the zeros at the end are left out, no more digits.
pub open spec fn format_holds<N: Scalar>(fmt: UnitDefinition, x: N) -> bool {
    if fmt.decimal {
        exact_text(x, 6)
    } else {
        &&& fmt.trailing <= 9
        &&& exact(x, fmt.trailing as nat)
        &&& fmt.ty == ZeroSuppression::Leading && !x.same_spec(N::zero_spec())
            ==> x.rounded_spec(fmt.trailing as nat).1 < text::pow10(fmt.digits())
    }
}

proof fn lemma_pointless_round_trip<N: Scalar>(fmt: UnitDefinition, x: N) -> (parts: (
    bool,
    Seq<char>,
    Seq<char>,
))
    requires
        !fmt.decimal,
        format_holds(fmt, x),
    ensures
        fmt.parse_num_spec::<N>(fmt.serialize_spec(x)) == Some(x),
        is_numeral(parts.0, parts.1, parts.2),
        fmt.serialize_spec(x) == numeral(parts.0, parts.1, parts.2),
{
    let none = Seq::<char>::empty();
    let t = fmt.trailing as nat;
    let width = fmt.digits();
    if x.same_spec(N::zero_spec()) {
        let s = seq!['0'];
        text::lemma_zeros_value(1);
        assert(s =~= text::zeros(1));
        lemma_no_point(false, s);
        assert(sign(false) + s =~= s);
        if fmt.ty == ZeroSuppression::Leading && 1 < width {
            let z = text::zeros((width - 1) as nat);
            text::lemma_zeros_value(width);
            assert(s + z =~= text::zeros(width));
            assert(N::parsed_spec(sign(false) + (s + z), t) == Some(x));
            assert(sign(false) + (s + z) =~= s + z);
        } else {
            assert(N::parsed_spec(sign(false) + s, t) == Some(x));
        }
        assert(numeral(false, s, none) =~= s);
        (false, s, none)
    } else {
        let (negative, n) = x.rounded_spec(t);
        let m = n as nat;
        let all = text::padded_digits(m, width);
        text::lemma_dec_digits(m);
        let d = text::dec_digits(m);
        if fmt.ty == ZeroSuppression::Trailing {
            if d.len() < width {
                let z = text::zeros((width - d.len()) as nat);
                text::lemma_zeros_value((width - d.len()) as nat);
                text::lemma_all_digits_concat(z, d);
                text::lemma_dec_value_concat(z, d);
                assert(0 * text::pow10(d.len()) == 0) by (nonlinear_arith);
            }
            let kept = text::trim_start_char(all, '0');
            text::lemma_trim_start_char(all, '0');
            let cut = (all.len() - kept.len()) as nat;
            assert(text::repeated('0', cut) =~= text::zeros(cut));
            text::lemma_zeros_value(cut);
            text::lemma_dec_value_concat(text::zeros(cut), kept);
            assert(0 * text::pow10(kept.len()) == 0) by (nonlinear_arith);
            text::lemma_all_digits_concat(text::zeros(cut), kept);
            assert(text::dec_value(kept) == m);
            lemma_no_point(negative, kept);
            assert(kept.len() > 0);
            assert(N::parsed_spec(sign(negative) + kept, t) == Some(x));
            assert(fmt.serialize_spec(x) =~= sign(negative) + kept);
            assert(numeral(negative, kept, none) =~= sign(negative) + kept);
            (negative, kept, none)
        } else {
            assert(width > 0) by {
                if width == 0 {
                    assert(text::pow10(0) == 1);
                }
            }
            text::lemma_padded_digits(m, width);
            let kept = text::trim_end_char(all, '0');
            text::lemma_trim_end_char(all, '0');
            let cut = (all.len() - kept.len()) as nat;
            assert(text::repeated('0', cut) =~= text::zeros(cut));
            text::lemma_all_digits_concat(kept, text::zeros(cut));
            if kept.len() == 0 {
                assert(all =~= text::zeros(cut));
                text::lemma_zeros_value(cut);
            }
            lemma_no_point(negative, kept);
            assert(N::parsed_spec(sign(negative) + all, t) == Some(x));
            let s = fmt.serialize_spec(x);
            assert(s =~= sign(negative) + kept);
            if negative {
                assert(s.skip(1) =~= kept);
            } else {
                assert(text::is_digit(kept[0]));
                assert(s[0] == kept[0]);
            }
            assert(fmt.completed(s) =~= sign(negative) + all);
            assert(numeral(negative, kept, none) =~= sign(negative) + kept);
            (negative, kept, none)
        }
    }
}

/// A numeral with a point is read as what its digits stand for.
pub proof fn lemma_decimal_numeral(negative: bool, whole: Seq<char>, fraction: Seq<char>)
    requires
        text::all_digits(whole),
        whole.len() > 0,
        text::all_digits(fraction),
        fraction.len() <= 9,
    ensures
        Fixed::numeral(sign(negative) + whole + seq!['.'] + fraction, 0) == Some(
            Fixed::of(
                signed(
                    negative,
                    (text::dec_value(whole + fraction) * text::pow10(
                        (9 - fraction.len()) as nat,
                    )) as int,
                ),
            ),
        ),
{
    let rest = whole + seq!['.'] + fraction;
    let s = sign(negative) + whole + seq!['.'] + fraction;
    assert(s =~= sign(negative) + rest);
    let body = if negative {
        s.skip(1)
    } else {
        s
    };
    assert(body =~= rest);
    if !negative {
        assert(text::is_digit(whole[0]));
        assert(s[0] == whole[0]);
    }
    assert(rest.take(whole.len() as int) =~= whole);
    assert(rest[whole.len() as int] == '.');
    text::lemma_digit_run_unique(rest, whole.len() as int);
    assert(rest.skip((whole.len() + 1) as int) =~= fraction);
    assert(fixed::numeral_parts(s) == Some((negative, whole, fraction)));
    let z = text::zeros((9 - fraction.len()) as nat);
    text::lemma_dec_value_concat(whole + fraction, z);
    text::lemma_zeros_value((9 - fraction.len()) as nat);
}

/// The text of a number on the grid of its decimal places is read back as that number.
pub proof fn lemma_text_read_back(x: Fixed, places: nat)
    requires
        1 <= places <= 9,
        on_grid(x, places),
    ensures
        ({
            let m = (fixed::abs(x.raw as int) / text::pow10((9 - places) as nat) as int) as nat;
            let scale = text::pow10(places);
            let whole = text::dec_digits(m / scale);
            let fraction = text::padded_digits(m % scale, places);
            &&& x.text_spec(places) == sign(x.raw < 0) + whole + seq!['.'] + fraction
            &&& text::all_digits(whole) && whole.len() > 0
            &&& text::all_digits(fraction) && fraction.len() == places
            &&& text::dec_value(whole) == m / scale
            &&& text::dec_value(fraction) == m % scale
            &&& text::dec_value(whole + fraction) == m
            &&& m * text::pow10((9 - places) as nat) == fixed::abs(x.raw as int)
        }),
        Fixed::numeral(x.text_spec(places), 0) == Some(x),
{
    let g = text::pow10((9 - places) as nat) as int;
    let p = text::pow10(places) as int;
    text::lemma_pow10_small();
    text::lemma_pow10_add(places, (9 - places) as nat);
    text::lemma_pow10_add((9 - places) as nat, 0);
    let a = fixed::abs(x.raw as int);
    let k = lemma_steps(x, places);
    let m = fixed::abs(k);
    assert(a / g == m) by (nonlinear_arith)
        requires
            m * g == a,
            g > 0,
    ;
    assert(a * p == m * ONE) by (nonlinear_arith)
        requires
            a == m * g,
            p * g == ONE,
    ;
    assert(fixed::abs(a * p) == a * p) by (nonlinear_arith)
        requires
            a >= 0,
            p >= 0,
    ;
    assert(fixed::round_div(m * ONE, ONE as int) == m);
    let whole = text::dec_digits((m / p) as nat);
    let fraction = text::padded_digits((m % p) as nat, places);
    assert(0 <= m / p && 0 <= m % p < p) by (nonlinear_arith)
        requires
            m >= 0,
            p > 0,
    ;
    text::lemma_dec_digits((m / p) as nat);
    text::lemma_padded_digits((m % p) as nat, places);
    text::lemma_dec_value_concat(whole, fraction);
    assert((m / p) * p + m % p == m) by (nonlinear_arith)
        requires
            p > 0,
    ;
    lemma_decimal_numeral(x.raw < 0, whole, fraction);
    assert(x.text_spec(places) =~= sign(x.raw < 0) + whole + seq!['.'] + fraction);
}

/// Trimming goes on in front of a part that is trimmed away.
proof fn lemma_trim_end_concat(a: Seq<char>, b: Seq<char>, c: char)
    ensures
        text::trim_end_char(b, c).len() > 0 ==> text::trim_end_char(a + b, c) == a
            + text::trim_end_char(b, c),
        text::trim_end_char(b, c).len() == 0 ==> text::trim_end_char(a + b, c)
            == text::trim_end_char(a, c),
    decreases b.len(),
{
    if b.len() == 0 {
        assert(a + b =~= a);
    } else {
        assert((a + b).last() == b.last());
        if b.last() == c {
            assert((a + b).drop_last() =~= a + b.drop_last());
            lemma_trim_end_concat(a, b.drop_last(), c);
        }
    }
}

/// The two ways to put a numeral together are one.
pub proof fn lemma_numeral(negative: bool, whole: Seq<char>, fraction: Seq<char>)
    ensures
        fraction.len() > 0 ==> sign(negative) + whole + seq!['.'] + fraction == numeral(
            negative,
            whole,
            fraction,
        ),
        fraction.len() == 0 ==> sign(negative) + whole == numeral(negative, whole, fraction),
{
    if fraction.len() > 0 {
        assert(sign(negative) + whole + seq!['.'] + fraction =~= numeral(negative, whole, fraction));
    } else {
        assert(sign(negative) + whole =~= numeral(negative, whole, fraction));
    }
}

proof fn lemma_decimal_round_trip<N: Scalar>(fmt: UnitDefinition, x: N) -> (parts: (
    bool,
    Seq<char>,
    Seq<char>,
))
    requires
        fmt.decimal,
        format_holds(fmt, x),
    ensures
        fmt.parse_num_spec::<N>(fmt.serialize_spec(x)) == Some(x),
        is_numeral(parts.0, parts.1, parts.2),
        fmt.serialize_spec(x) == numeral(parts.0, parts.1, parts.2),
{
    let (negative, whole, fraction) = choose|
        negative: bool,
        whole: Seq<char>,
        fraction: Seq<char>,
    | #[trigger] writes_as(x, 6, negative, whole, fraction);
    let head = sign(negative) + whole;
    let t = text::trim_end_char(fraction, '0');
    let cut = (6 - t.len()) as nat;
    text::lemma_trim_end_char(fraction, '0');
    assert(text::repeated('0', cut) =~= text::zeros(cut));
    lemma_trim_end_concat(head + seq!['.'], fraction, '0');
    let point = head + seq!['.'];
    assert(point.last() == '.');
    lemma_numeral(negative, whole, t);
    text::lemma_all_digits_concat(t, text::zeros(cut));
    assert(fraction.take(t.len() as int) =~= t);
    assert(fraction.skip(t.len() as int) =~= text::zeros(cut));
    assert(N::parsed_spec(numeral(negative, whole, fraction.take(t.len() as int)), 0) == Some(x));
    if t.len() > 0 {
        let s = point + t;
        assert(s.last() == t.last());
        assert(text::is_digit(t[t.len() - 1]));
        assert(text::trim_end_char(s, '.') == s);
        assert(s =~= sign(negative) + whole + seq!['.'] + t);
    } else {
        assert(text::trim_end_char(point, '0') == point);
        assert(point.drop_last() =~= head);
        assert(head.last() == whole.last());
        assert(text::is_digit(whole[whole.len() - 1]));
        assert(text::trim_end_char(head, '.') == head);
    }
    (negative, whole, t)
}

/// How a number that its format can hold is written, and that it is read back.
pub proof fn lemma_serialized<N: Scalar>(fmt: UnitDefinition, x: N) -> (parts: (
    bool,
    Seq<char>,
    Seq<char>,
))
    requires
        format_holds(fmt, x),
    ensures
        fmt.parse_num_spec::<N>(fmt.serialize_spec(x)) == Some(x),
        is_numeral(parts.0, parts.1, parts.2),
        fmt.serialize_spec(x) == numeral(parts.0, parts.1, parts.2),
{
    if fmt.decimal {
        lemma_decimal_round_trip(fmt, x)
    } else {
        lemma_pointless_round_trip(fmt, x)
    }
}

/// A number that its format can hold is read back as it was written, whatever its type.
pub proof fn law_number_round_trip<N: Scalar>(fmt: UnitDefinition, x: N)
    requires
        format_holds(fmt, x),
    ensures
        fmt.parse_num_spec::<N>(fmt.serialize_spec(x)) == Some(x),
{
    lemma_serialized(fmt, x);
}

/// A number on a grid has no more decimal places than the grid.
pub proof fn lemma_fixed_exact(x: Fixed, places: nat)
    requires
        places <= 9,
        on_grid(x, places),
    ensures
        exact(x, places),
{
    let k = lemma_steps(x, places);
    let g = text::pow10((9 - places) as nat) as int;
    let m = fixed::abs(k) as nat;
    let negative = k < 0;
    if x.raw != 0 {
        assert(m > 0) by (nonlinear_arith)
            requires
                m * g == fixed::abs(x.raw as int),
                x.raw != 0,
        ;
    } else {
        text::lemma_pow10_add((9 - places) as nat, 0);
        assert(m == 0) by (nonlinear_arith)
            requires
                m * g == 0,
                m >= 0,
                g > 0,
        ;
    }
    assert forall|d: Seq<char>|
        d.len() > 0 && text::all_digits(d) && text::dec_value(d)
            == m implies #[trigger] Fixed::parsed_spec(sign(negative) + d, places) == Some(x) by {
        lemma_whole_numeral(negative, d, places);
        assert(signed(negative, (m * g) as int) == x.raw) by (nonlinear_arith)
            requires
                m * g == fixed::abs(x.raw as int),
                x.raw == k * g,
                negative == (k < 0),
                g >= 0,
        ;
    }
}

/// The text of a number on a grid is read as that number.
pub proof fn lemma_fixed_text(x: Fixed, places: nat)
    requires
        1 <= places <= 9,
        on_grid(x, places),
    ensures
        exact_text(x, places),
{
    lemma_text_read_back(x, places);
    let g = text::pow10((9 - places) as nat);
    let m = (fixed::abs(x.raw as int) / g as int) as nat;
    let negative = x.raw < 0;
    let whole = text::dec_digits(m / text::pow10(places));
    let fraction = text::padded_digits(m % text::pow10(places), places);
    assert forall|k: int|
        0 <= k <= places && fraction.skip(k) == text::zeros(
            (places - k) as nat,
        ) implies #[trigger] Fixed::parsed_spec(numeral(negative, whole, fraction.take(k)), 0)
        == Some(x) by {
        let t = fraction.take(k);
        let cut = (places - k) as nat;
        text::lemma_all_digits_concat(t, text::zeros(cut));
        assert(t + text::zeros(cut) =~= fraction);
        assert(whole + fraction =~= (whole + t) + text::zeros(cut));
        text::lemma_all_digits_concat(whole, t);
        text::lemma_dec_value_concat(whole + t, text::zeros(cut));
        text::lemma_zeros_value(cut);
        text::lemma_pow10_add(cut, (9 - places) as nat);
        let v = text::dec_value(whole + t);
        let pc = text::pow10(cut);
        assert((v * pc) * g == v * (pc * g)) by (nonlinear_arith);
        assert(cut + (9 - places) == 9 - k);
        lemma_numeral(negative, whole, t);
        if k > 0 {
            lemma_decimal_numeral(negative, whole, t);
        } else {
            assert(whole + t =~= whole);
            lemma_whole_numeral(negative, whole, 0);
        }
    }
    assert(writes_as(x, places, negative, whole, fraction));
}

/// The format can hold the fixed-point number `x`. With a point that is six decimal places; without
/// one, `x` is a multiple of the smallest number that the format has and, where the zeros at the end
/// are left out, has no more digits than the format.
pub open spec fn format_holds_fixed(fmt: UnitDefinition, x: Fixed) -> bool {
    if fmt.decimal {
        on_grid(x, 6)
    } else {
        &&& fmt.trailing <= 9
        &&& on_grid(x, fmt.trailing as nat)
        &&& fmt.ty == ZeroSuppression::Leading ==> fixed::abs(x.raw as int) < text::pow10(
            fmt.digits(),
        ) * text::pow10((9 - fmt.trailing) as nat)
    }
}

/// A fixed-point number on the grid of its format is one that the format can hold: it is read back
/// as it was written.
pub proof fn law_fixed_round_trip(fmt: UnitDefinition, x: Fixed)
    requires
        format_holds_fixed(fmt, x),
    ensures
        format_holds(fmt, x),
        fmt.parse_num_spec::<Fixed>(fmt.serialize_spec(x)) == Some(x),
{
    if fmt.decimal {
        lemma_fixed_text(x, 6);
    } else {
        let t = fmt.trailing as nat;
        lemma_fixed_exact(x, t);
        let k = lemma_steps(x, t);
        let g = text::pow10((9 - t) as nat) as int;
        text::lemma_pow10_add((9 - t) as nat, 0);
        if fmt.ty == ZeroSuppression::Leading {
            let m = fixed::abs(k);
            assert(m < text::pow10(fmt.digits())) by (nonlinear_arith)
                requires
                    m * g == fixed::abs(x.raw as int),
                    fixed::abs(x.raw as int) < text::pow10(fmt.digits()) * g,
                    g > 0,
            ;
        }
    }
    lemma_serialized(fmt, x);
}

} // verus!
