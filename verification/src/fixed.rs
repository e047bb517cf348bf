//! Exact decimal numbers with nine decimal places.
use crate::scalar::Scalar;
use crate::text;
use crate::text::{chars_of, digits_from, is_caseless, parse_number, push_number, push_padded};
use vstd::prelude::*;

verus! {

/// The number `raw / 1_000_000_000`.
///
/// A result that does not fit is brought to the nearer end of the range.
#[derive(Clone, Copy, Debug, PartialEq, Eq, Structural)]
pub struct Fixed {
    pub raw: i64,
}

pub const ONE: i64 = 1_000_000_000;

pub open spec fn abs(v: int) -> int {
    if v < 0 {
        -v
    } else {
        v
    }
}

/// `v` brought into the range of an `i64`.
pub open spec fn clamp(v: int) -> i64 {
    if v > i64::MAX {
        i64::MAX
    } else if v < i64::MIN {
        i64::MIN
    } else {
        v as i64
    }
}

/// The whole number nearest to `n / d`, for a positive `d`. A half is rounded away from zero.
pub open spec fn round_div(n: int, d: int) -> int {
    let q = abs(n) / d;
    let m = if 2 * (abs(n) % d) >= d {
        q + 1
    } else {
        q
    };
    if n < 0 {
        -m
    } else {
        m
    }
}

/// The whole number nearest to `n / d` on the side of zero, for a positive `d`.
pub open spec fn trunc_div(n: int, d: int) -> int {
    if n < 0 {
        -(abs(n) / d)
    } else {
        n / d
    }
}

/// The largest whole number whose square is at most `s`.
pub open spec fn floor_sqrt(s: int) -> int {
    choose|r: int| 0 <= r && #[trigger] (r * r) <= s && s < (r + 1) * (r + 1)
}

fn clamp_exec(v: i128) -> (r: i64)
    ensures
        r == clamp(v as int),
{
    if v > i64::MAX as i128 {
        i64::MAX
    } else if v < i64::MIN as i128 {
        i64::MIN
    } else {
        v as i64
    }
}

fn abs_exec(v: i128) -> (r: i128)
    requires
        v > i128::MIN,
    ensures
        r == abs(v as int),
{
    if v < 0 {
        -v
    } else {
        v
    }
}

fn round_div_exec(n: i128, d: i128) -> (r: i128)
    requires
        0 < d,
        -0x4000_0000_0000_0000_0000_0000_0000_0000 <= n <= 0x4000_0000_0000_0000_0000_0000_0000_0000,
    ensures
        r == round_div(n as int, d as int),
{
    let a: i128 = abs_exec(n);
    let q: i128 = a / d;
    let m: i128 = a % d;
    assert(0 <= m < d);
    assert(0 <= q <= a) by (nonlinear_arith)
        requires
            q == (a as int) / (d as int),
            a >= 0,
            d > 0,
    ;
    let near: i128 = if m >= d - m {
        q + 1
    } else {
        q
    };
    if n < 0 {
        -near
    } else {
        near
    }
}

proof fn lemma_product_bound(a: int, b: int, m: int)
    requires
        abs(a) <= m,
        abs(b) <= m,
    ensures
        -(m * m) <= a * b <= m * m,
{
    assert(abs(a * b) == abs(a) * abs(b)) by (nonlinear_arith);
    assert(abs(a) * abs(b) <= m * m) by (nonlinear_arith)
        requires
            0 <= abs(a) <= m,
            0 <= abs(b) <= m,
    ;
}

/// `a * b`, for two numbers of which each fits in 64 bits.
fn product(a: i64, b: i64) -> (r: i128)
    ensures
        r == a * b,
        -0x4000_0000_0000_0000_0000_0000_0000_0000 <= r <= 0x4000_0000_0000_0000_0000_0000_0000_0000,
{
    proof {
        lemma_product_bound(a as int, b as int, 0x8000_0000_0000_0000);
    }
    (a as i128) * (b as i128)
}

proof fn lemma_sqrt_unique(s: int, a: int, b: int)
    requires
        0 <= a,
        a * a <= s < (a + 1) * (a + 1),
        0 <= b,
        b * b <= s < (b + 1) * (b + 1),
    ensures
        a == b,
{
    if a < b {
        assert((a + 1) * (a + 1) <= b * b) by (nonlinear_arith)
            requires
                0 <= a + 1 <= b,
        ;
    } else if b < a {
        assert((b + 1) * (b + 1) <= a * a) by (nonlinear_arith)
            requires
                0 <= b + 1 <= a,
        ;
    }
}

/// The whole part of the square root of `s`.
fn floor_sqrt_exec(s: u128) -> (r: u128)
    requires
        s <= 0x8000_0000_0000_0000_0000_0000_0000_0000,
    ensures
        r == floor_sqrt(s as int),
        r <= 0x1_0000_0000_0000_0000,
{
    let mut low: u128 = 0;
    let mut high: u128 = 0x1_0000_0000_0000_0000;
    assert(0x1_0000_0000_0000_0000int * 0x1_0000_0000_0000_0000int
        > 0x8000_0000_0000_0000_0000_0000_0000_0000int) by (nonlinear_arith);
    while high - low > 1
        invariant
            low < high <= 0x1_0000_0000_0000_0000,
            (low as int) * (low as int) <= s,
            s < (high as int) * (high as int),
        decreases high - low,
    {
        let middle: u128 = low + (high - low) / 2;
        assert((middle as int) * (middle as int) < 0x1_0000_0000_0000_0000_0000_0000_0000_0000int)
            by (nonlinear_arith)
            requires
                0 <= middle < 0x1_0000_0000_0000_0000,
        ;
        if middle * middle <= s {
            low = middle;
        } else {
            high = middle;
        }
    }
    proof {
        let r = floor_sqrt(s as int);
        let l = low as int;
        assert(l * l <= s && s < (l + 1) * (l + 1));
        lemma_sqrt_unique(s as int, l, r);
    }
    low
}

/// The parts of a plain decimal numeral: whether it is negative, the digits before its point and
/// those behind it.
pub open spec fn numeral_parts(text: Seq<char>) -> Option<(bool, Seq<char>, Seq<char>)> {
    let signed = text.len() > 0 && (text[0] == '-' || text[0] == '+');
    let body = if signed {
        text.skip(1)
    } else {
        text
    };
    let n = text::digit_run(body) as int;
    let whole = body.take(n);
    let fraction = if n < body.len() {
        body.skip(n + 1)
    } else {
        Seq::empty()
    };
    if (n < body.len() ==> body[n] == '.') && text::all_digits(fraction) && whole.len()
        + fraction.len() > 0 {
        Some((signed && text[0] == '-', whole, fraction))
    } else {
        None
    }
}

/// The digits of a whole number, moved `shift` places to the left; those that leave it on the right
/// are dropped.
pub open spec fn moved_digits(digits: Seq<char>, shift: int) -> Seq<char> {
    if shift >= 0 {
        digits + text::zeros(shift as nat)
    } else if digits.len() <= -shift {
        Seq::empty()
    } else {
        digits.take(digits.len() + shift)
    }
}

/// The digits of the numeral `whole.fraction`, with its point moved `places` to the left, up to the
/// ninth decimal place.
pub open spec fn nine_places(whole: Seq<char>, fraction: Seq<char>, places: int) -> Seq<char> {
    moved_digits(whole + fraction, 9 - fraction.len() - places)
}

/// An exponent beyond this counts as this: no number is so large or so small.
pub const MAX_EXPONENT: u64 = 1_000_000_000_000;

/// How many characters stand before the mark of an exponent.
pub open spec fn mantissa_length(text: Seq<char>) -> nat
    decreases text.len(),
{
    if text.len() == 0 || text[0] == 'e' || text[0] == 'E' {
        0
    } else {
        1 + mantissa_length(text.skip(1))
    }
}

/// An exponent, behind its mark.
pub open spec fn exponent(text: Seq<char>) -> Option<int> {
    let signed = text.len() > 0 && (text[0] == '-' || text[0] == '+');
    let digits = if signed {
        text.skip(1)
    } else {
        text
    };
    if digits.len() > 0 && text::all_digits(digits) {
        let e = if text::dec_value(digits) > MAX_EXPONENT {
            MAX_EXPONENT as int
        } else {
            text::dec_value(digits) as int
        };
        Some(
            if signed && text[0] == '-' {
                -e
            } else {
                e
            },
        )
    } else {
        None
    }
}

impl Fixed {
    pub open spec fn of(v: int) -> Fixed {
        Fixed { raw: clamp(v) }
    }

    /// Text in plain decimal notation, with its point moved `places` to the left; digits behind the
    /// ninth decimal place are dropped.
    pub open spec fn numeral(text: Seq<char>, places: int) -> Option<Fixed> {
        match numeral_parts(text) {
            Some((negative, whole, fraction)) => {
                let v = text::dec_value(nine_places(whole, fraction, places)) as int;
                Some(
                    Fixed::of(
                        if negative {
                            -v
                        } else {
                            v
                        },
                    ),
                )
            },
            None => None,
        }
    }

    /// Text in decimal notation with an exponent.
    pub open spec fn scientific(text: Seq<char>, places: int) -> Option<Fixed> {
        let n = mantissa_length(text) as int;
        if n < text.len() {
            match exponent(text.skip(n + 1)) {
                Some(e) => Fixed::numeral(text.take(n), places - e),
                None => None,
            }
        } else {
            None
        }
    }

    /// Infinity counts as the largest number there is, or the smallest.
    pub open spec fn infinite(text: Seq<char>) -> Option<Fixed> {
        let signed = text.len() > 0 && (text[0] == '-' || text[0] == '+');
        let word = if signed {
            text.skip(1)
        } else {
            text
        };
        if text::caseless(word, "inf"@) || text::caseless(word, "infinity"@) {
            Some(
                if signed && text[0] == '-' {
                    Fixed { raw: i64::MIN }
                } else {
                    Fixed { raw: i64::MAX }
                },
            )
        } else {
            None
        }
    }

    /// Text in the notation of floating-point literals. What is not a number is none here, too.
    pub open spec fn literal(text: Seq<char>, places: int) -> Option<Fixed> {
        match Fixed::numeral(text, places) {
            Some(v) => Some(v),
            None => match Fixed::scientific(text, places) {
                Some(v) => Some(v),
                None => Fixed::infinite(text),
            },
        }
    }

    /// An angle is measured along the square with the corners `(1, 0)`, `(0, 1)`, `(-1, 0)` and
    /// `(0, -1)`, in quarter turns.
    pub open spec fn square_angle(y: int, x: int) -> int {
        let up = abs(y);
        let a = if x == 0 && y == 0 {
            0
        } else if x >= 0 {
            round_div(up * ONE, x + up)
        } else {
            ONE + round_div((-x) * ONE, up - x)
        };
        if y < 0 {
            -a
        } else {
            a
        }
    }

    pub open spec fn decimal_text(raw: int, places: nat) -> Seq<char> {
        let scale = text::pow10(places) as int;
        let m = round_div(abs(raw) * scale, ONE as int);
        let sign = if raw < 0 {
            seq!['-']
        } else {
            Seq::empty()
        };
        sign + text::dec_digits((m / scale) as nat) + seq!['.'] + text::padded_digits(
            (m % scale) as nat,
            places,
        )
    }
}

/// The power of ten that moves a point by `places`.
fn scale_of(places: u8) -> (r: i64)
    requires
        places <= 9,
    ensures
        r == text::pow10(places as nat),
        1 <= r <= ONE,
{
    let mut r: i64 = 1;
    let mut i: u8 = 0;
    proof {
        text::lemma_pow10_small();
    }
    while i < places
        invariant
            i <= places <= 9,
            r == text::pow10(i as nat),
            forall|k: nat| k <= 9 ==> 1 <= #[trigger] text::pow10(k) <= ONE,
        decreases places - i,
    {
        i = i + 1;
        assert(text::pow10(i as nat) <= ONE);
        r = 10 * r;
    }
    r
}

impl Scalar for Fixed {
    open spec fn zero_spec() -> Fixed {
        Fixed { raw: 0 }
    }

    fn zero() -> (r: Fixed) {
        Fixed { raw: 0 }
    }

    open spec fn highest_spec() -> Fixed {
        Fixed { raw: i64::MAX }
    }

    fn highest() -> (r: Fixed) {
        Fixed { raw: i64::MAX }
    }

    open spec fn lowest_spec() -> Fixed {
        Fixed { raw: i64::MIN }
    }

    fn lowest() -> (r: Fixed) {
        Fixed { raw: i64::MIN }
    }

    open spec fn plus_spec(self, other: Fixed) -> Fixed {
        Fixed::of(self.raw + other.raw)
    }

    fn plus(self, other: Fixed) -> (r: Fixed) {
        Fixed { raw: clamp_exec(self.raw as i128 + other.raw as i128) }
    }

    open spec fn minus_spec(self, other: Fixed) -> Fixed {
        Fixed::of(self.raw - other.raw)
    }

    fn minus(self, other: Fixed) -> (r: Fixed) {
        Fixed { raw: clamp_exec(self.raw as i128 - other.raw as i128) }
    }

    open spec fn times_spec(self, other: Fixed) -> Fixed {
        Fixed::of(round_div(self.raw * other.raw, ONE as int))
    }

    fn times(self, other: Fixed) -> (r: Fixed) {
        Fixed { raw: clamp_exec(round_div_exec(product(self.raw, other.raw), ONE as i128)) }
    }

    open spec fn over_spec(self, other: Fixed) -> Fixed {
        if other.raw == 0 {
            if self.raw > 0 {
                Fixed { raw: i64::MAX }
            } else if self.raw < 0 {
                Fixed { raw: i64::MIN }
            } else {
                Fixed { raw: 0 }
            }
        } else if other.raw > 0 {
            Fixed::of(round_div(self.raw * ONE, other.raw as int))
        } else {
            Fixed::of(-round_div(self.raw * ONE, -other.raw))
        }
    }

    fn over(self, other: Fixed) -> (r: Fixed) {
        if other.raw == 0 {
            if self.raw > 0 {
                Fixed { raw: i64::MAX }
            } else if self.raw < 0 {
                Fixed { raw: i64::MIN }
            } else {
                Fixed { raw: 0 }
            }
        } else if other.raw > 0 {
            Fixed { raw: clamp_exec(round_div_exec(product(self.raw, ONE), other.raw as i128)) }
        } else {
            let q: i128 = round_div_exec(product(self.raw, ONE), -(other.raw as i128));
            proof {
                lemma_round_div_bound(self.raw * ONE, -other.raw);
            }
            Fixed { raw: clamp_exec(-q) }
        }
    }

    open spec fn negated_spec(self) -> Fixed {
        Fixed::of(-self.raw)
    }

    fn negated(self) -> (r: Fixed) {
        Fixed { raw: clamp_exec(-(self.raw as i128)) }
    }

    /// Zero where `modulus` is not positive.
    open spec fn remainder_spec(self, modulus: Fixed) -> Fixed {
        if modulus.raw <= 0 {
            Fixed { raw: 0 }
        } else {
            Fixed { raw: (self.raw as int % modulus.raw as int) as i64 }
        }
    }

    fn remainder(self, modulus: Fixed) -> (r: Fixed) {
        if modulus.raw <= 0 {
            return Fixed { raw: 0 };
        }
        let m: i128 = modulus.raw as i128;
        let a: i128 = abs_exec(self.raw as i128);
        let r: i128 = a % m;
        if self.raw >= 0 {
            Fixed { raw: r as i64 }
        } else if r == 0 {
            proof {
                lemma_negated_remainder(a as int, m as int);
            }
            Fixed { raw: 0 }
        } else {
            proof {
                lemma_negated_remainder(a as int, m as int);
            }
            Fixed { raw: (m - r) as i64 }
        }
    }

    open spec fn less_spec(self, other: Fixed) -> bool {
        self.raw < other.raw
    }

    fn less(self, other: Fixed) -> (r: bool) {
        self.raw < other.raw
    }

    open spec fn same_spec(self, other: Fixed) -> bool {
        self.raw == other.raw
    }

    fn same(self, other: Fixed) -> (r: bool) {
        self.raw == other.raw
    }

    open spec fn close_spec(self, other: Fixed) -> bool {
        self.raw == other.raw
    }

    fn close(self, other: Fixed) -> (r: bool) {
        self.raw == other.raw
    }

    open spec fn lower_spec(self, other: Fixed) -> Fixed {
        if other.raw < self.raw {
            other
        } else {
            self
        }
    }

    fn lower(self, other: Fixed) -> (r: Fixed) {
        if other.raw < self.raw {
            other
        } else {
            self
        }
    }

    open spec fn higher_spec(self, other: Fixed) -> Fixed {
        if other.raw > self.raw {
            other
        } else {
            self
        }
    }

    fn higher(self, other: Fixed) -> (r: Fixed) {
        if other.raw > self.raw {
            other
        } else {
            self
        }
    }

    open spec fn ratio_spec(num: i64, den: i64) -> Fixed {
        Fixed::of(round_div(num * ONE, den as int))
    }

    fn ratio(num: i64, den: i64) -> (r: Fixed) {
        Fixed { raw: clamp_exec(round_div_exec(product(num, ONE), den as i128)) }
    }

    open spec fn count_spec(n: u64) -> Fixed {
        Fixed::of(n * ONE)
    }

    fn count(n: u64) -> (r: Fixed) {
        Fixed { raw: clamp_exec(n as i128 * ONE as i128) }
    }

    open spec fn from_nano_spec(nano: i64) -> Fixed {
        Fixed::of(nano * 1000)
    }

    fn from_nano(nano: i64) -> (r: Fixed) {
        Fixed { raw: clamp_exec(nano as i128 * 1000) }
    }

    open spec fn to_nano_spec(self) -> Option<i64> {
        Some(trunc_div(self.raw as int, 1000) as i64)
    }

    fn to_nano(self) -> (r: Option<i64>) {
        let q: i128 = abs_exec(self.raw as i128) / 1000;
        if self.raw < 0 {
            Some((-q) as i64)
        } else {
            Some(q as i64)
        }
    }

    open spec fn parsed_spec(text: Seq<char>, places: nat) -> Option<Fixed> {
        Fixed::literal(text, places as int)
    }

    fn parsed(text: &str, places: u8) -> (r: Option<Fixed>) {
        let chars = chars_of(text);
        match parse_numeral(&chars, places as i64) {
            Some(v) => Some(v),
            None => match parse_scientific(&chars, places as i64) {
                Some(v) => Some(v),
                None => parse_infinite(&chars),
            },
        }
    }

    open spec fn rounded_spec(self, places: nat) -> (bool, u64) {
        let m = round_div(self.raw * text::pow10(places), ONE as int);
        (m < 0, abs(m) as u64)
    }

    fn rounded(self, places: u8) -> (r: (bool, u64)) {
        let scale: i64 = scale_of(places);
        let m: i128 = round_div_exec(product(self.raw, scale), ONE as i128);
        proof {
            lemma_rounded_bound(self.raw as int, scale as int);
        }
        (m < 0, abs_exec(m) as u64)
    }

    open spec fn text_spec(self, places: nat) -> Seq<char> {
        Fixed::decimal_text(self.raw as int, places)
    }

    fn text(self, places: u8) -> (r: String) {
        let scale: i64 = scale_of(places);
        let a: i128 = abs_exec(self.raw as i128);
        assert(a * scale <= 0x8000_0000_0000_0000 * 1_000_000_000) by (nonlinear_arith)
            requires
                0 <= a <= 0x8000_0000_0000_0000,
                1 <= scale <= 1_000_000_000,
        ;
        assert(0 <= a * scale) by (nonlinear_arith)
            requires
                0 <= a,
                1 <= scale,
        ;
        let m: i128 = round_div_exec(a * scale as i128, ONE as i128);
        proof {
            lemma_round_div_bound(a * scale, ONE as int);
            lemma_rounded_bound(abs(self.raw as int), scale as int);
        }
        let whole: i128 = m / scale as i128;
        assert(0 <= whole <= m) by (nonlinear_arith)
            requires
                whole == (m as int) / (scale as int),
                m >= 0,
                scale >= 1,
        ;
        let fraction: i128 = m % scale as i128;
        let mut out = String::new();
        if self.raw < 0 {
            out.push('-');
        }
        push_number(&mut out, whole as u64);
        out.push('.');
        push_padded(&mut out, fraction as u64, places as usize);
        out
    }

    open spec fn to_u8_spec(self) -> u8 {
        if self.raw < 0 {
            0
        } else if self.raw / ONE > 255 {
            255
        } else {
            (self.raw / ONE) as u8
        }
    }

    fn to_u8(self) -> (r: u8) {
        if self.raw < 0 {
            0
        } else {
            let q: i64 = self.raw / ONE;
            if q > 255 {
                255
            } else {
                q as u8
            }
        }
    }

    open spec fn norm_spec(x: Fixed, y: Fixed) -> Fixed {
        Fixed::of(floor_sqrt(x.raw * x.raw + y.raw * y.raw))
    }

    fn norm(x: Fixed, y: Fixed) -> (r: Fixed) {
        let xx: i128 = product(x.raw, x.raw);
        let yy: i128 = product(y.raw, y.raw);
        assert(x.raw * x.raw >= 0) by (nonlinear_arith);
        assert(y.raw * y.raw >= 0) by (nonlinear_arith);
        let s: u128 = xx as u128 + yy as u128;
        let root: u128 = floor_sqrt_exec(s);
        Fixed { raw: clamp_exec(root as i128) }
    }

    open spec fn angle_spec(y: Fixed, x: Fixed) -> Fixed {
        Fixed::of(Fixed::square_angle(y.raw as int, x.raw as int))
    }

    fn angle(y: Fixed, x: Fixed) -> (r: Fixed) {
        let up: i128 = abs_exec(y.raw as i128);
        let right: i128 = x.raw as i128;
        let a: i128 = if x.raw == 0 && y.raw == 0 {
            0
        } else if right >= 0 {
            proof {
                lemma_round_div_bound(up * ONE, right + up);
            }
            round_div_exec(up * ONE as i128, right + up)
        } else {
            proof {
                lemma_round_div_bound((-right) * ONE, up - right);
            }
            ONE as i128 + round_div_exec((-right) * ONE as i128, up - right)
        };
        if y.raw < 0 {
            Fixed { raw: clamp_exec(-a) }
        } else {
            Fixed { raw: clamp_exec(a) }
        }
    }

    open spec fn half_turn_spec() -> Fixed {
        Fixed { raw: 2_000_000_000 }
    }

    fn half_turn() -> (r: Fixed) {
        Fixed { raw: 2_000_000_000 }
    }

    open spec fn quarter_turn_spec() -> Fixed {
        Fixed { raw: 1_000_000_000 }
    }

    fn quarter_turn() -> (r: Fixed) {
        Fixed { raw: 1_000_000_000 }
    }
}

proof fn lemma_round_div_bound(n: int, d: int)
    requires
        d > 0,
    ensures
        abs(round_div(n, d)) <= abs(n) + 1,
        n >= 0 ==> round_div(n, d) >= 0,
{
    let q = abs(n) / d;
    assert(0 <= q <= abs(n)) by (nonlinear_arith)
        requires
            q == abs(n) / d,
            abs(n) >= 0,
            d > 0,
    ;
}

/// A number rounded at or before its ninth decimal place needs no more digits than it had.
proof fn lemma_rounded_bound(raw: int, scale: int)
    requires
        abs(raw) <= 0x8000_0000_0000_0000,
        1 <= scale <= ONE,
    ensures
        abs(round_div(raw * scale, ONE as int)) <= abs(raw),
{
    let n = raw * scale;
    assert(abs(n) == abs(raw) * scale) by (nonlinear_arith)
        requires
            n == raw * scale,
            scale >= 1,
    ;
    let q = abs(n) / (ONE as int);
    let m = abs(n) % (ONE as int);
    assert(abs(n) <= abs(raw) * ONE) by (nonlinear_arith)
        requires
            abs(n) == abs(raw) * scale,
            0 <= abs(raw),
            scale <= ONE,
    ;
}

proof fn lemma_negated_remainder(a: int, m: int)
    requires
        a >= 0,
        m > 0,
    ensures
        a % m == 0 ==> (-a) % m == 0,
        a % m != 0 ==> (-a) % m == m - a % m,
{
    let q = a / m;
    let r = a % m;
    assert(a == q * m + r) by (nonlinear_arith)
        requires
            q == a / m,
            r == a % m,
            m > 0,
    ;
    if r == 0 {
        assert(-a == (-q) * m + 0) by (nonlinear_arith)
            requires
                a == q * m + r,
                r == 0,
        ;
        vstd::arithmetic::div_mod::lemma_fundamental_div_mod_converse(-a, m, -q, 0);
    } else {
        assert(-a == (-q - 1) * m + (m - r)) by (nonlinear_arith)
            requires
                a == q * m + r,
        ;
        vstd::arithmetic::div_mod::lemma_fundamental_div_mod_converse(-a, m, -q - 1, m - r);
    }
}

/// The parts of a plain decimal numeral, with the digits of both sides of the point in one run:
/// whether it is negative, those digits, and how many of them stand behind the point.
fn split_numeral(text: &[char]) -> (r: Option<(bool, Vec<char>, usize)>)
    ensures
        r is Some <==> numeral_parts(text@) is Some,
        r matches Some((negative, digits, behind)) ==> {
            let (sign, whole, fraction) = numeral_parts(text@)->0;
            negative == sign && digits@ == whole + fraction && behind == fraction.len()
        },
{
    let end: usize = text.len();
    let signed = end > 0 && (text[0] == '-' || text[0] == '+');
    let negative = signed && text[0] == '-';
    let start: usize = if signed {
        1
    } else {
        0
    };
    let ghost body = text@.skip(start as int);
    assert(!signed ==> body =~= text@);
    let n: usize = digits_from(text, start);
    let point: usize = start + n;
    let behind: usize = if point < end {
        if text[point] != '.' {
            return None;
        }
        point + 1
    } else {
        point
    };
    let m: usize = digits_from(text, behind);
    let ghost whole = body.take(n as int);
    let ghost fraction = if n < body.len() {
        body.skip(n + 1)
    } else {
        Seq::<char>::empty()
    };
    proof {
        text::lemma_digit_run(body);
        assert(text@.skip(behind as int) =~= fraction);
        text::lemma_digit_run(fraction);
        if behind + m == end {
            assert(fraction.take(m as int) =~= fraction);
        } else if text::all_digits(fraction) {
            assert(text::is_digit(fraction[m as int]));
        }
    }
    if behind + m != end || n + m == 0 {
        return None;
    }
    let mut digits: Vec<char> = Vec::new();
    push_all(&mut digits, &text[start..point]);
    push_all(&mut digits, &text[behind..end]);
    proof {
        assert(text@.subrange(start as int, point as int) =~= whole);
        assert(text@.subrange(behind as int, end as int) =~= fraction);
        assert(digits@ =~= whole + fraction);
    }
    Some((negative, digits, m))
}

/// Appends the characters of `s`.
fn push_all(out: &mut Vec<char>, s: &[char])
    ensures
        final(out)@ == old(out)@ + s@,
{
    let mut i: usize = 0;
    while i < s.len()
        invariant
            i <= s@.len(),
            out@ == old(out)@ + s@.take(i as int),
        decreases s@.len() - i,
    {
        out.push(s[i]);
        i = i + 1;
        assert(out@ =~= old(out)@ + s@.take(i as int));
    }
    assert(s@.take(i as int) =~= s@);
}

/// Moves digits `shift` places to the left.
fn shift_digits(mut digits: Vec<char>, shift: i128) -> (r: Vec<char>)
    requires
        shift <= 19,
    ensures
        r@ == moved_digits(digits@, shift as int),
{
    let ghost all = digits@;
    if shift >= 0 {
        let mut k: i128 = 0;
        assert(digits@ =~= all + text::zeros(0));
        while k < shift
            invariant
                0 <= k <= shift,
                digits@ == all + text::zeros(k as nat),
            decreases shift - k,
        {
            digits.push('0');
            k = k + 1;
            assert(digits@ =~= all + text::zeros(k as nat));
        }
        digits
    } else if digits.len() as i128 + shift <= 0 {
        Vec::new()
    } else {
        let kept: usize = (digits.len() as i128 + shift) as usize;
        let mut short: Vec<char> = Vec::new();
        push_all(&mut short, &digits[0..kept]);
        assert(short@ =~= digits@.take(kept as int));
        short
    }
}

proof fn lemma_moved_digits(digits: Seq<char>, shift: int)
    requires
        text::all_digits(digits),
    ensures
        text::all_digits(moved_digits(digits, shift)),
{
    let moved = moved_digits(digits, shift);
    assert forall|k: int| 0 <= k < moved.len() implies text::is_digit(#[trigger] moved[k]) by {
        if k < digits.len() {
            assert(moved[k] == digits[k]);
        }
    }
}

/// A number that is not zero and has more than nineteen zeros behind it is beyond all others.
proof fn lemma_far(digits: Seq<char>, shift: nat)
    requires
        shift > 19,
    ensures
        text::dec_value(digits) == 0 ==> text::dec_value(digits + text::zeros(shift)) == 0,
        text::dec_value(digits) > 0 ==> text::dec_value(digits + text::zeros(shift)) > u64::MAX,
{
    let v = text::dec_value(digits);
    text::lemma_dec_value_concat(digits, text::zeros(shift));
    text::lemma_zeros_value(shift);
    text::lemma_pow10_add(9, 9);
    text::lemma_pow10_add(18, 2);
    text::lemma_pow10_add(20, (shift - 20) as nat);
    text::lemma_pow10_add((shift - 20) as nat, 0);
    text::lemma_pow10_small();
    assert(text::pow10(18) == 1_000_000_000 * 1_000_000_000);
    assert(text::pow10(2) == 100) by {
        reveal_with_fuel(text::pow10, 3);
    }
    let p = text::pow10(shift);
    assert(p > u64::MAX) by (nonlinear_arith)
        requires
            p == text::pow10(20) * text::pow10((shift - 20) as nat),
            text::pow10(20) == 100_000_000_000_000_000_000,
            text::pow10((shift - 20) as nat) > 0,
    ;
    assert(v > 0 ==> v * p >= p) by (nonlinear_arith)
        requires
            p > 0,
    ;
    assert(0 * p == 0);
}

/// What moved digits stand for. A value beyond all numbers may come out as another one.
fn value_of(digits: Vec<char>, shift: i128) -> (r: i128)
    requires
        text::all_digits(digits@),
    ensures
        0 <= r <= u64::MAX,
        ({
            let v = text::dec_value(moved_digits(digits@, shift as int));
            r == v || (r >= i64::MAX && v >= i64::MAX && clamp(-r) == clamp(-v))
        }),
{
    let none = digits.len() == 0;
    if shift > 19 {
        proof {
            lemma_far(digits@, shift as nat);
        }
        if none || parse_number(&digits, 0).is_some() {
            return 0;
        }
        return u64::MAX as i128;
    }
    proof {
        lemma_moved_digits(digits@, shift as int);
    }
    let moved = shift_digits(digits, shift);
    if moved.len() == 0 {
        return 0;
    }
    match parse_number(&moved, u64::MAX) {
        Some(v) => v as i128,
        None => u64::MAX as i128,
    }
}

proof fn lemma_numeral_digits(text: Seq<char>)
    requires
        numeral_parts(text) is Some,
    ensures
        ({
            let (sign, whole, fraction) = numeral_parts(text)->0;
            text::all_digits(whole + fraction)
        }),
{
    let (sign, whole, fraction) = numeral_parts(text)->0;
    let body = if text.len() > 0 && (text[0] == '-' || text[0] == '+') {
        text.skip(1)
    } else {
        text
    };
    text::lemma_digit_run(body);
    let d = whole + fraction;
    assert forall|k: int| 0 <= k < d.len() implies text::is_digit(#[trigger] d[k]) by {
        if k < whole.len() {
            assert(text::is_digit(whole[k]));
        } else {
            assert(text::is_digit(fraction[k - whole.len()]));
        }
    }
}

/// Reads a plain decimal numeral.
fn parse_numeral(text: &[char], places: i64) -> (r: Option<Fixed>)
    ensures
        r == Fixed::numeral(text@, places as int),
{
    match split_numeral(text) {
        None => None,
        Some((negative, digits, behind)) => {
            proof {
                lemma_numeral_digits(text@);
            }
            let value: i128 = value_of(digits, 9 - behind as i128 - places as i128);
            if negative {
                Some(Fixed { raw: clamp_exec(-value) })
            } else {
                Some(Fixed { raw: clamp_exec(value) })
            }
        },
    }
}

fn parse_exponent(text: &[char]) -> (r: Option<i64>)
    ensures
        match r {
            Some(e) => exponent(text@) == Some(e as int),
            None => exponent(text@) is None,
        },
        r matches Some(e) ==> -MAX_EXPONENT <= e <= MAX_EXPONENT,
{
    let end: usize = text.len();
    let signed = end > 0 && (text[0] == '-' || text[0] == '+');
    let start: usize = if signed {
        1
    } else {
        0
    };
    let digits = &text[start..end];
    assert(digits@ =~= text@.skip(start as int));
    assert(!signed ==> digits@ =~= text@);
    assert(digits@.skip(0) =~= digits@);
    let n: usize = digits_from(digits, 0);
    proof {
        text::lemma_digit_run(digits@);
        if n < digits@.len() && text::all_digits(digits@) {
            assert(text::is_digit(digits@[n as int]));
        }
        if n == digits@.len() {
            assert(digits@.take(n as int) =~= digits@);
        }
    }
    if n == 0 || n < digits.len() {
        return None;
    }
    let e: i64 = match parse_number(digits, MAX_EXPONENT) {
        Some(e) => e as i64,
        None => MAX_EXPONENT as i64,
    };
    if signed && text[0] == '-' {
        Some(-e)
    } else {
        Some(e)
    }
}

/// Reads a decimal numeral with an exponent.
fn parse_scientific(text: &[char], places: i64) -> (r: Option<Fixed>)
    requires
        0 <= places <= 255,
    ensures
        r == Fixed::scientific(text@, places as int),
{
    let end: usize = text.len();
    let mut n: usize = 0;
    assert(text@.skip(0) =~= text@);
    while n < end && text[n] != 'e' && text[n] != 'E'
        invariant
            n <= end,
            end == text@.len(),
            mantissa_length(text@) == n + mantissa_length(text@.skip(n as int)),
        decreases end - n,
    {
        assert(text@.skip(n as int).skip(1) =~= text@.skip(n + 1));
        n = n + 1;
    }
    if n == end {
        return None;
    }
    let mantissa = &text[0..n];
    let tail = &text[n + 1..end];
    assert(mantissa@ =~= text@.take(n as int));
    assert(tail@ =~= text@.skip(n + 1));
    match parse_exponent(tail) {
        Some(e) => parse_numeral(mantissa, places - e),
        None => None,
    }
}

fn parse_infinite(text: &[char]) -> (r: Option<Fixed>)
    ensures
        r == Fixed::infinite(text@),
{
    let end: usize = text.len();
    let signed = end > 0 && (text[0] == '-' || text[0] == '+');
    let start: usize = if signed {
        1
    } else {
        0
    };
    let word = &text[start..end];
    assert(word@ =~= text@.skip(start as int));
    assert(!signed ==> word@ =~= text@);
    if is_caseless(word, "inf") || is_caseless(word, "infinity") {
        if signed && text[0] == '-' {
            Some(Fixed { raw: i64::MIN })
        } else {
            Some(Fixed { raw: i64::MAX })
        }
    } else {
        None
    }
}

} // verus!
