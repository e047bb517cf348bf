//! How numbers are rounded, read and written, digit by digit.
use crate::excellon_format::{UnitDefinition, ZeroSuppression};
use crate::fixed;
use crate::fixed::{Fixed, ONE};
use crate::laws::edits;
use crate::laws::numbers;
use crate::scalar::Scalar;
use crate::text;
use vstd::prelude::*;

verus! {

/// Digits stand for tens: one more digit multiplies by ten and adds its value, and the last digit of
/// a number is its remainder.
pub proof fn law_digits(s: Seq<char>, c: char, n: nat)
    ensures
        text::dec_value(Seq::<char>::empty()) == 0,
        '0' <= c && c <= '9' ==> text::dec_value(s.push(c)) == 10 * text::dec_value(s) + (c as int
            - 48),
        text::dec_digits(n).last() as int == 48 + n % 10,
        n >= 10 ==> text::dec_digits(n).drop_last() == text::dec_digits(n / 10),
        n < 10 ==> text::dec_digits(n).len() == 1,
{
    assert(s.push(c).drop_last() =~= s);
    if n >= 10 {
        assert(text::dec_digits(n).drop_last() =~= text::dec_digits(n / 10));
    }
}

/// `y` is the multiple of the smallest number with `places` decimal places that is nearest to `x`.
pub open spec fn is_nearest(x: Fixed, y: Fixed, places: nat) -> bool {
    let step = text::pow10((9 - places) as nat) as int;
    &&& y.raw as int % step == 0
    &&& -step <= 2 * (y.raw - x.raw) <= step
}

/// The number that `x` is rounded to, where it is in the range of numbers.
proof fn lemma_nearest(x: Fixed, places: nat) -> (y: Fixed)
    requires
        places <= 9,
        -1_000_000_000_000_000_000 <= x.raw <= 1_000_000_000_000_000_000,
    ensures
        is_nearest(x, y, places),
        numbers::on_grid(y, places),
        y.rounded_spec(places) == x.rounded_spec(places),
        y.raw == 0 <==> x.rounded_spec(places).1 == 0,
        y.raw < 0 ==> x.raw < 0,
        y.raw > 0 ==> x.raw > 0,
        ({
            let p = text::pow10(places) as int;
            fixed::round_div(fixed::abs(y.raw as int) * p, ONE as int) == fixed::round_div(
                fixed::abs(x.raw as int) * p,
                ONE as int,
            )
        }),
{
    let g = text::pow10((9 - places) as nat) as int;
    let p = text::pow10(places) as int;
    text::lemma_pow10_small();
    text::lemma_pow10_add(places, (9 - places) as nat);
    let raw = x.raw as int;
    let m = fixed::round_div(raw * p, ONE as int);
    edits::lemma_round_div(raw * p, ONE as int);
    let v = m * g;
    assert(p * (2 * (v - raw)) == 2 * (ONE * m - raw * p)) by (nonlinear_arith)
        requires
            v == m * g,
            p * g == ONE,
    ;
    assert(-g <= 2 * (v - raw) <= g) by (nonlinear_arith)
        requires
            -ONE <= p * (2 * (v - raw)) <= ONE,
            p * g == ONE,
            p > 0,
    ;
    let y = Fixed { raw: v as i64 };
    assert(y.raw == v);
    assert(v % g == 0) by (nonlinear_arith)
        requires
            v == m * g,
            g > 0,
    ;
    let k = numbers::lemma_steps(y, places);
    assert(k == m) by (nonlinear_arith)
        requires
            k * g == m * g,
            g > 0,
    ;
    assert(m == 0 ==> v == 0) by (nonlinear_arith)
        requires
            v == m * g,
    ;
    assert(m > 0 ==> v > 0) by (nonlinear_arith)
        requires
            v == m * g,
            g > 0,
    ;
    assert(m < 0 ==> v < 0) by (nonlinear_arith)
        requires
            v == m * g,
            g > 0,
    ;
    assert(raw * p > 0 ==> raw > 0) by (nonlinear_arith)
        requires
            p > 0,
    ;
    assert(raw * p < 0 ==> raw < 0) by (nonlinear_arith)
        requires
            p > 0,
    ;
    assert(raw >= 0 ==> raw * p >= 0) by (nonlinear_arith)
        requires
            p > 0,
    ;
    assert(raw <= 0 ==> raw * p <= 0) by (nonlinear_arith)
        requires
            p > 0,
    ;
    let a = fixed::abs(raw);
    assert(a * p == fixed::abs(raw * p)) by (nonlinear_arith)
        requires
            a == fixed::abs(raw),
            p > 0,
    ;
    let b = fixed::abs(v);
    assert(b * p == fixed::abs(v * p)) by (nonlinear_arith)
        requires
            b == fixed::abs(v),
            p > 0,
    ;
    assert(v * p == m * ONE) by (nonlinear_arith)
        requires
            v == m * g,
            p * g == ONE,
    ;
    edits::lemma_round_div(b * p, ONE as int);
    assert(fixed::round_div(a * p, ONE as int) == fixed::abs(m));
    assert(fixed::abs(m * ONE) == fixed::abs(m) * ONE) by (nonlinear_arith)
        requires
            ONE == 1_000_000_000,
    ;
    assert(fixed::round_div(b * p, ONE as int) == fixed::abs(m));
    y
}

/// A coordinate without a point is written as the nearest number that its format can hold: that is
/// what is read back. It is not nearer to zero than half of the smallest number, and has no more
/// digits than the format.
pub proof fn law_number_written_to_nearest(fmt: UnitDefinition, x: Fixed) -> (y: Fixed)
    requires
        !fmt.decimal,
        fmt.trailing <= 9,
        -1_000_000_000_000_000_000 <= x.raw <= 1_000_000_000_000_000_000,
        x.raw == 0 || x.rounded_spec(fmt.trailing as nat).1 > 0,
        fmt.ty == ZeroSuppression::Leading ==> x.rounded_spec(fmt.trailing as nat).1
            < text::pow10(fmt.digits()),
    ensures
        is_nearest(x, y, fmt.trailing as nat),
        fmt.parse_num_spec::<Fixed>(fmt.serialize_spec(x)) == Some(y),
{
    let t = fmt.trailing as nat;
    let y = lemma_nearest(x, t);
    let k = numbers::lemma_steps(y, t);
    if fmt.ty == ZeroSuppression::Leading {
        let g = text::pow10((9 - t) as nat) as int;
        let m = fixed::abs(k);
        let w = text::pow10(fmt.digits()) as int;
        text::lemma_pow10_add((9 - t) as nat, 0);
        text::lemma_pow10_add(fmt.digits(), 0);
        assert(m * g < w * g) by (nonlinear_arith)
            requires
                0 <= m < w,
                g > 0,
        ;
    }
    numbers::law_fixed_round_trip(fmt, y);
    y
}

/// A coordinate with a point is written to the nearest millionth.
pub proof fn law_decimal_written_to_nearest(fmt: UnitDefinition, x: Fixed) -> (y: Fixed)
    requires
        fmt.decimal,
        -1_000_000_000_000_000_000 <= x.raw <= 1_000_000_000_000_000_000,
        x.raw >= 0 || x.rounded_spec(6).1 > 0,
    ensures
        is_nearest(x, y, 6),
        fmt.parse_num_spec::<Fixed>(fmt.serialize_spec(x)) == Some(y),
{
    let y = lemma_nearest(x, 6);
    numbers::law_fixed_round_trip(fmt, y);
    y
}

/// A number as text, such as the diameter of a tool, is written to the nearest number with that many
/// decimal places.
pub proof fn law_text_to_nearest(x: Fixed, places: nat) -> (y: Fixed)
    requires
        1 <= places <= 9,
        -1_000_000_000_000_000_000 <= x.raw <= 1_000_000_000_000_000_000,
        x.raw >= 0 || x.rounded_spec(places).1 > 0,
    ensures
        is_nearest(x, y, places),
        Fixed::parsed_spec(x.text_spec(places), 0) == Some(y),
{
    let y = lemma_nearest(x, places);
    numbers::lemma_text_read_back(y, places);
    y
}

/// Sums and differences are exact; products and quotients are rounded to the nearest billionth.
pub proof fn law_arithmetic(a: Fixed, b: Fixed)
    requires
        -1_000_000_000_000_000_000 <= a.raw <= 1_000_000_000_000_000_000,
        -1_000_000_000_000_000_000 <= b.raw <= 1_000_000_000_000_000_000,
    ensures
        a.plus_spec(b).raw == a.raw + b.raw,
        a.minus_spec(b).raw == a.raw - b.raw,
        a.negated_spec().raw == -a.raw,
        -9_000_000_000_000_000_000_000_000_000 <= a.raw * b.raw
            <= 9_000_000_000_000_000_000_000_000_000 ==> -1_000_000_000 <= 2 * (1_000_000_000
            * a.times_spec(b).raw - a.raw * b.raw) <= 1_000_000_000,
        b.raw >= 1_000_000_000 ==> -b.raw <= 2 * (b.raw * a.over_spec(b).raw - 1_000_000_000
            * a.raw) <= b.raw,
        a.less_spec(b) <==> a.raw < b.raw,
        a.same_spec(b) <==> a.raw == b.raw,
        a.lower_spec(b).raw <= a.raw && a.lower_spec(b).raw <= b.raw,
        a.lower_spec(b) == a || a.lower_spec(b) == b,
        a.higher_spec(b).raw >= a.raw && a.higher_spec(b).raw >= b.raw,
        a.higher_spec(b) == a || a.higher_spec(b) == b,
{
    edits::lemma_round_div(a.raw * b.raw, ONE as int);
    if b.raw >= 1_000_000_000 {
        edits::lemma_round_div(a.raw * ONE, b.raw as int);
        let q = fixed::round_div(a.raw * ONE, b.raw as int);
        assert(-4_000_000_000_000_000_000 <= q <= 4_000_000_000_000_000_000) by (nonlinear_arith)
            requires
                -b.raw <= 2 * (b.raw * q - a.raw * 1_000_000_000) <= b.raw,
                b.raw >= 1_000_000_000,
                -1_000_000_000_000_000_000 <= a.raw <= 1_000_000_000_000_000_000,
        ;
    }
}

proof fn lemma_mantissa(d: Seq<char>, rest: Seq<char>)
    requires
        text::all_digits(d),
        rest.len() > 0,
        rest[0] == 'e' || rest[0] == 'E',
    ensures
        fixed::mantissa_length(d + rest) == d.len(),
    decreases d.len(),
{
    let s = d + rest;
    if d.len() > 0 {
        assert(text::is_digit(d[0]));
        let t = d.skip(1);
        assert(text::all_digits(t)) by {
            assert forall|i: int| 0 <= i < t.len() implies text::is_digit(#[trigger] t[i]) by {
                assert(t[i] == d[i + 1]);
            }
        }
        lemma_mantissa(t, rest);
        assert(s.skip(1) =~= t + rest);
    }
}

/// A number with an exponent is the number with its point moved: to the right by a positive
/// exponent, to the left by a negative one. What is beyond the largest number counts as that.
pub proof fn law_exponents(d: Seq<char>, mark: char, k: Seq<char>)
    requires
        d.len() > 0,
        text::all_digits(d),
        k.len() > 0,
        text::all_digits(k),
        text::dec_value(k) <= 9,
        mark == 'e' || mark == 'E',
    ensures
        ({
            let n = text::dec_value(k);
            let up = text::dec_value(d) * text::pow10(9 + n);
            let down = text::dec_value(d) * text::pow10((9 - n) as nat);
            &&& Fixed::parsed_spec(d + seq![mark] + k, 0) matches Some(v) && (v.raw == if up
                <= i64::MAX {
                up as int
            } else {
                i64::MAX as int
            })
            &&& Fixed::parsed_spec(d + seq![mark, '-'] + k, 0) matches Some(v) && (v.raw == if down
                <= i64::MAX {
                down as int
            } else {
                i64::MAX as int
            })
        }),
{
    let n = text::dec_value(k);
    assert(text::is_digit(d[0]) && text::is_digit(k[0]));
    let e = seq![mark];
    let m = seq![mark, '-'];
    assert(d + e + k =~= d + (e + k));
    assert(d + m + k =~= d + (m + k));
    assert((e + k).skip(1) =~= k);
    assert((m + k).skip(1) =~= seq!['-'] + k);
    assert((seq!['-'] + k).skip(1) =~= k);
    assert(fixed::exponent(k) == Some(n as int));
    assert(fixed::exponent(seq!['-'] + k) == Some(-(n as int)));
    lemma_whole(d, 9 + n);
    lemma_whole(d, (9 - n) as nat);
    lemma_exponent_text(d, e + k);
    lemma_exponent_text(d, m + k);
}

/// A text with an exponent is read as the number in front of it.
proof fn lemma_exponent_text(d: Seq<char>, rest: Seq<char>)
    requires
        d.len() > 0,
        text::all_digits(d),
        rest.len() > 0,
        rest[0] == 'e' || rest[0] == 'E',
        fixed::exponent(rest.skip(1)) is Some,
        Fixed::numeral(d, -fixed::exponent(rest.skip(1))->0) is Some,
    ensures
        Fixed::parsed_spec(d + rest, 0) == Fixed::numeral(d, -fixed::exponent(rest.skip(1))->0),
{
    let s = d + rest;
    lemma_mantissa(d, rest);
    assert(text::is_digit(d[0]));
    assert(s[0] == d[0]);
    assert(s.take(d.len() as int) =~= d);
    text::lemma_digit_run_unique(s, d.len() as int);
    assert(s[d.len() as int] == rest[0]);
    assert(fixed::numeral_parts(s) is None);
    assert(s.skip(d.len() as int + 1) =~= rest.skip(1));
}

/// Digits with `shift` zeros behind them.
proof fn lemma_whole(d: Seq<char>, shift: nat)
    requires
        d.len() > 0,
        text::all_digits(d),
    ensures
        Fixed::numeral(d, 9 - shift) == Some(
            Fixed::of((text::dec_value(d) * text::pow10(shift)) as int),
        ),
{
    assert(text::is_digit(d[0]));
    assert(d.take(d.len() as int) =~= d);
    text::lemma_digit_run_unique(d, d.len() as int);
    let none = Seq::<char>::empty();
    assert(fixed::numeral_parts(d) == Some((false, d, none)));
    assert(d + none =~= d);
    text::lemma_dec_value_concat(d, text::zeros(shift));
    text::lemma_zeros_value(shift);
    assert(text::zeros(shift).len() == shift);
}

/// Infinity, in small or capital letters, is the largest number, or with a minus the smallest.
pub proof fn law_infinity(s: Seq<char>, places: nat)
    requires
        s.len() == 3,
        s[0] == 'i' || s[0] == 'I',
        s[1] == 'n' || s[1] == 'N',
        s[2] == 'f' || s[2] == 'F',
    ensures
        Fixed::parsed_spec(s, places) == Some(Fixed { raw: i64::MAX }),
        Fixed::parsed_spec(seq!['+'] + s, places) == Some(Fixed { raw: i64::MAX }),
        Fixed::parsed_spec(seq!['-'] + s, places) == Some(Fixed { raw: i64::MIN }),
{
    reveal_strlit("inf");
    reveal_strlit("infinity");
    let p = seq!['+'] + s;
    let m = seq!['-'] + s;
    assert(p.skip(1) =~= s && m.skip(1) =~= s);
    assert(s.take(0) =~= Seq::<char>::empty());
    text::lemma_digit_run_unique(s, 0);
    assert(text::caseless(s, "inf"@));
    lemma_no_mantissa(s);
    lemma_no_mantissa(p);
    lemma_no_mantissa(m);
}

/// A text without the mark of an exponent has none.
proof fn lemma_no_mantissa(s: Seq<char>)
    requires
        !s.contains('e'),
        !s.contains('E'),
    ensures
        fixed::mantissa_length(s) == s.len(),
    decreases s.len(),
{
    if s.len() > 0 {
        assert(s.contains(s[0]));
        let t = s.skip(1);
        assert forall|c: char| #[trigger] t.contains(c) implies s.contains(c) by {
            let i = choose|i: int| 0 <= i < t.len() && t[i] == c;
            assert(s[i + 1] == c);
        }
        lemma_no_mantissa(t);
    }
}

} // verus!
