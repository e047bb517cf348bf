//! What an arc sweeps over.
use crate::fixed;
use crate::fixed::{Fixed, ONE};
use crate::gerber;
use crate::gerber_types::{CoordinateNumber, CoordinateOffset, InterpolationMode, Unit};
use crate::laws::moves;
use crate::scalar::Scalar;
use crate::Pos;
use vstd::prelude::*;

verus! {

/// A full turn, in the measure of angles.
pub const TURN: i64 = 4_000_000_000;

/// How far it is from the angle `a` to the angle `b`, counter-clockwise.
pub open spec fn way(a: Fixed, b: Fixed) -> int {
    (b.raw - a.raw) % (TURN as int)
}

proof fn lemma_normal(a: Fixed)
    ensures
        -2 * ONE < gerber::arc::normal_angle(a).raw <= 2 * ONE,
        (gerber::arc::normal_angle(a).raw - a.raw) % (TURN as int) == 0,
{
    let two = Fixed::ratio_spec(2, 1);
    assert(two.raw == 2 * ONE);
    let turn = two.times_spec(Fixed::half_turn_spec());
    assert(two.raw * Fixed::half_turn_spec().raw == TURN * ONE);
    assert(turn.raw == TURN);
    let r = a.raw as int % (TURN as int);
    vstd::arithmetic::div_mod::lemma_fundamental_div_mod(a.raw as int, TURN as int);
    let n = gerber::arc::normal_angle(a).raw;
    assert(n == r || n == r - TURN);
    let q = a.raw as int / (TURN as int);
    assert(n - a.raw == TURN * (-q) || n - a.raw == TURN * (-q - 1)) by (nonlinear_arith)
        requires
            a.raw == TURN * q + r,
            n == r || n == r - TURN,
    ;
    if n == r {
        vstd::arithmetic::div_mod::lemma_mod_multiples_basic(-q, TURN as int);
    } else {
        vstd::arithmetic::div_mod::lemma_mod_multiples_basic(-q - 1, TURN as int);
    }
}

/// Angles that differ by whole turns are equally far from others.
proof fn lemma_way(a: int, b: int, c: int, d: int, t: int)
    requires
        t > 0,
        (c - a) % t == 0,
        (d - b) % t == 0,
    ensures
        (b - a) % t == (d - c) % t,
{
    vstd::arithmetic::div_mod::lemma_fundamental_div_mod(c - a, t);
    vstd::arithmetic::div_mod::lemma_fundamental_div_mod(d - b, t);
    let p = (c - a) / t;
    let q = (d - b) / t;
    assert((d - c) == (q - p) * t + (b - a)) by (nonlinear_arith)
        requires
            c - a == t * p,
            d - b == t * q,
    ;
    vstd::arithmetic::div_mod::lemma_mod_multiples_vanish(q - p, b - a, t);
    assert(t * (q - p) + (b - a) == d - c) by (nonlinear_arith)
        requires
            d - c == (q - p) * t + (b - a),
    ;
}

/// A number between minus and plus a turn.
proof fn lemma_small_remainder(d: int, t: int)
    requires
        -t < d < t,
    ensures
        d >= 0 ==> d % t == d,
        d < 0 ==> d % t == d + t,
{
    if d >= 0 {
        vstd::arithmetic::div_mod::lemma_small_mod(d as nat, t as nat);
    } else {
        vstd::arithmetic::div_mod::lemma_small_mod((d + t) as nat, t as nat);
        vstd::arithmetic::div_mod::lemma_mod_multiples_vanish(-1, d + t, t);
        assert(t * -1 + (d + t) == d);
    }
}

proof fn lemma_swept_forward(s: Fixed, e: Fixed, a: Fixed)
    ensures
        gerber::arc::swept(s, e, a, InterpolationMode::CounterclockwiseCircular) <==> (way(s, e)
            == 0 || way(s, a) <= way(s, e)),
{
    let p = gerber::arc::normal_angle(s);
    let q = gerber::arc::normal_angle(e);
    let b = gerber::arc::normal_angle(a);
    lemma_normal(s);
    lemma_normal(e);
    lemma_normal(a);
    lemma_way(s.raw as int, e.raw as int, p.raw as int, q.raw as int, TURN as int);
    lemma_way(s.raw as int, a.raw as int, p.raw as int, b.raw as int, TURN as int);
    lemma_small_remainder(q.raw - p.raw, TURN as int);
    lemma_small_remainder(b.raw - p.raw, TURN as int);
}

/// An angle is swept on a counter-clockwise way if it is no farther from the start than the end is,
/// measured counter-clockwise, and on a clockwise way if it is no farther from the end than the
/// start is; every angle is swept on a way that ends where it starts.
pub proof fn law_swept(s: Fixed, e: Fixed, a: Fixed)
    ensures
        gerber::arc::swept(s, e, a, InterpolationMode::CounterclockwiseCircular) <==> (way(s, e)
            == 0 || way(s, a) <= way(s, e)),
        gerber::arc::swept(s, e, a, InterpolationMode::ClockwiseCircular) <==> (way(e, s) == 0
            || way(e, a) <= way(e, s)),
        !gerber::arc::swept(s, e, a, InterpolationMode::Linear),
{
    lemma_swept_forward(s, e, a);
    lemma_swept_forward(e, s, a);
}

/// Two ways that lead from one angle to another, and back in the same direction, sweep every angle
/// together; an angle that is neither end is swept by one of them alone, where the ends differ.
pub proof fn law_swept_there_and_back(s: Fixed, e: Fixed, a: Fixed, mode: InterpolationMode)
    requires
        mode != InterpolationMode::Linear,
    ensures
        gerber::arc::swept(s, e, a, mode) || gerber::arc::swept(e, s, a, mode),
        gerber::arc::swept(s, e, s, mode) && gerber::arc::swept(s, e, e, mode),
        way(s, e) != 0 && way(s, a) != 0 && way(e, a) != 0 ==> !(gerber::arc::swept(s, e, a, mode)
            && gerber::arc::swept(e, s, a, mode)),
{
    law_swept(s, e, a);
    law_swept(e, s, a);
    law_swept(s, e, s);
    law_swept(s, e, e);
    let t = TURN as int;
    let p = gerber::arc::normal_angle(s).raw as int;
    let q = gerber::arc::normal_angle(e).raw as int;
    let b = gerber::arc::normal_angle(a).raw as int;
    lemma_normal(s);
    lemma_normal(e);
    lemma_normal(a);
    lemma_way(s.raw as int, e.raw as int, p, q, t);
    lemma_way(e.raw as int, s.raw as int, q, p, t);
    lemma_way(s.raw as int, a.raw as int, p, b, t);
    lemma_way(e.raw as int, a.raw as int, q, b, t);
    lemma_small_remainder(q - p, t);
    lemma_small_remainder(p - q, t);
    lemma_small_remainder(b - p, t);
    lemma_small_remainder(b - q, t);
}

/// A vector.
#[derive(Clone, Copy)]
pub ghost struct Arrow {
    pub x: int,
    pub y: int,
}

/// Positive where `w` points to the left of `u`, negative where it points to the right.
pub open spec fn cross(u: Arrow, w: Arrow) -> int {
    u.x * w.y - u.y * w.x
}

/// Positive where the two point to one side.
pub open spec fn dot(u: Arrow, w: Arrow) -> int {
    u.x * w.x + u.y * w.y
}

pub open spec fn is_zero(u: Arrow) -> bool {
    u.x == 0 && u.y == 0
}

/// The counter-clockwise way from the direction of `u` to that of `w` passes over `d`, which is the
/// direction of neither. A way that ends where it starts passes over everything.
pub open spec fn passes(u: Arrow, d: Arrow, w: Arrow) -> bool {
    if cross(u, w) > 0 {
        cross(u, d) > 0 && cross(d, w) > 0
    } else if cross(u, w) < 0 {
        cross(u, d) > 0 || cross(d, w) > 0
    } else if dot(u, w) < 0 {
        cross(u, d) > 0
    } else {
        true
    }
}

/// The directions of the axes.
pub open spec fn right() -> Arrow {
    Arrow { x: 1, y: 0 }
}

pub open spec fn up() -> Arrow {
    Arrow { x: 0, y: 1 }
}

pub open spec fn left() -> Arrow {
    Arrow { x: -1, y: 0 }
}

pub open spec fn down() -> Arrow {
    Arrow { x: 0, y: -1 }
}

/// The angle of the direction of an axis.
pub open spec fn axis_angle(d: Arrow) -> int {
    if d == right() {
        0
    } else if d == up() {
        ONE as int
    } else if d == left() {
        2 * ONE
    } else {
        -ONE
    }
}

pub open spec fn is_axis(d: Arrow) -> bool {
    d == right() || d == up() || d == left() || d == down()
}

/// Rounding keeps the order of fractions.
proof fn lemma_round_order(n: int, d: int, m: int, e: int)
    requires
        0 <= n,
        0 <= m,
        0 < d,
        0 < e,
        n * e <= m * d,
    ensures
        fixed::round_div(n, d) <= fixed::round_div(m, e),
        0 <= fixed::round_div(n, d),
{
    let p = fixed::round_div(n, d);
    let q = fixed::round_div(m, e);
    vstd::arithmetic::div_mod::lemma_fundamental_div_mod(n, d);
    vstd::arithmetic::div_mod::lemma_fundamental_div_mod(m, e);
    vstd::arithmetic::div_mod::lemma_div_pos_is_pos(n, d);
    vstd::arithmetic::div_mod::lemma_div_pos_is_pos(m, e);
    let nq = n / d;
    let nr = n % d;
    let mq = m / e;
    let mr = m % e;
    assert(d * (2 * p - 1) <= 2 * n) by (nonlinear_arith)
        requires
            n == d * nq + nr,
            0 <= nr < d,
            p == nq && 2 * nr < d || p == nq + 1 && 2 * nr >= d,
    ;
    assert(2 * m < e * (2 * q + 1)) by (nonlinear_arith)
        requires
            m == e * mq + mr,
            0 <= mr < e,
            q == mq && 2 * mr < e || q == mq + 1 && 2 * mr >= e,
    ;
    if p >= q + 1 {
        assert(d * (2 * q + 1) <= 2 * n) by (nonlinear_arith)
            requires
                d * (2 * p - 1) <= 2 * n,
                p >= q + 1,
                0 < d,
        ;
        assert(e * (d * (2 * q + 1)) <= e * (2 * n)) by (nonlinear_arith)
            requires
                d * (2 * q + 1) <= 2 * n,
                0 < e,
        ;
        assert(d * (2 * m) < d * (e * (2 * q + 1))) by (nonlinear_arith)
            requires
                2 * m < e * (2 * q + 1),
                0 < d,
        ;
        assert(e * (d * (2 * q + 1)) == d * (e * (2 * q + 1))) by (nonlinear_arith);
        assert(e * (2 * n) == 2 * (n * e) && d * (2 * m) == 2 * (m * d)) by (nonlinear_arith);
    }
}

/// A fraction between nothing and one.
proof fn lemma_part(n: int, d: int)
    requires
        0 <= n <= d,
        0 < d,
    ensures
        0 <= fixed::round_div(n * ONE, d) <= ONE,
        n == 0 ==> fixed::round_div(n * ONE, d) == 0,
        n == d ==> fixed::round_div(n * ONE, d) == ONE,
{
    assert(0 <= n * ONE && (n * ONE) * 1 <= ONE * d) by (nonlinear_arith)
        requires
            0 <= n <= d,
            ONE == 1_000_000_000,
    ;
    lemma_round_order(n * ONE, d, ONE as int, 1);
    assert(fixed::round_div(ONE as int, 1) == ONE);
    if n == 0 {
        assert(fixed::abs(0) / d == 0 && fixed::abs(0) % d == 0) by (nonlinear_arith)
            requires
                d > 0,
        ;
    }
    if n == d {
        assert(ONE * d <= (n * ONE) * 1) by (nonlinear_arith)
            requires
                n == d,
        ;
        lemma_round_order(ONE as int, 1, n * ONE, d);
    }
}

/// The angle of a vector, in steps.
pub open spec fn bearing(u: Arrow) -> int {
    Fixed::square_angle(u.y, u.x)
}

/// In which quarter an angle lies.
proof fn lemma_quarters(u: Arrow)
    requires
        !is_zero(u),
    ensures
        u.x >= 0 && u.y >= 0 ==> 0 <= bearing(u) <= ONE,
        u.x <= 0 && u.y >= 0 ==> ONE <= bearing(u) <= 2 * ONE,
        u.x >= 0 && u.y <= 0 ==> -ONE <= bearing(u) <= 0,
        u.x <= 0 && u.y < 0 ==> -2 * ONE <= bearing(u) <= -ONE,
        u.x > 0 && u.y == 0 ==> bearing(u) == 0,
        u.x == 0 && u.y > 0 ==> bearing(u) == ONE,
        u.x < 0 && u.y == 0 ==> bearing(u) == 2 * ONE,
        u.x == 0 && u.y < 0 ==> bearing(u) == -ONE,
{
    let h = fixed::abs(u.y);
    if u.x >= 0 {
        lemma_part(h, u.x + h);
    } else {
        lemma_part(-u.x, h - u.x);
    }
}

/// In the upper half plane, what points further to the left has no smaller angle.
proof fn lemma_upper_order(u: Arrow, w: Arrow)
    requires
        !is_zero(u),
        !is_zero(w),
        u.y >= 0,
        w.y >= 0,
        cross(u, w) >= 0,
        !(u.y == 0 && w.y == 0 && u.x < 0 && w.x > 0),
    ensures
        bearing(u) <= bearing(w),
{
    lemma_quarters(u);
    lemma_quarters(w);
    if u.x >= 0 && w.x >= 0 {
        let d = u.x + u.y;
        let e = w.x + w.y;
        assert((u.y * ONE) * e <= (w.y * ONE) * d) by (nonlinear_arith)
            requires
                u.x * w.y - u.y * w.x >= 0,
                d == u.x + u.y,
                e == w.x + w.y,
                ONE == 1_000_000_000,
        ;
        assert(0 <= u.y * ONE && 0 <= w.y * ONE) by (nonlinear_arith)
            requires
                u.y >= 0,
                w.y >= 0,
                ONE == 1_000_000_000,
        ;
        lemma_round_order(u.y * ONE, d, w.y * ONE, e);
    } else if u.x < 0 && w.x < 0 {
        let d = u.y - u.x;
        let e = w.y - w.x;
        assert(((-u.x) * ONE) * e <= ((-w.x) * ONE) * d) by (nonlinear_arith)
            requires
                u.x * w.y - u.y * w.x >= 0,
                d == u.y - u.x,
                e == w.y - w.x,
                ONE == 1_000_000_000,
        ;
        assert(0 <= (-u.x) * ONE && 0 <= (-w.x) * ONE) by (nonlinear_arith)
            requires
                u.x < 0,
                w.x < 0,
                ONE == 1_000_000_000,
        ;
        lemma_round_order((-u.x) * ONE, d, (-w.x) * ONE, e);
    } else if u.x < 0 {
        assert(false) by (nonlinear_arith)
            requires
                u.x < 0,
                w.x >= 0,
                u.y >= 0,
                w.y >= 0,
                u.x * w.y - u.y * w.x >= 0,
                !(u.y == 0 && w.y == 0 && u.x < 0 && w.x > 0),
                !(w.x == 0 && w.y == 0),
        ;
    }
}

/// The mirror image of a vector at the X axis has the opposite angle.
proof fn lemma_mirrored(u: Arrow)
    requires
        u.y != 0,
    ensures
        bearing(Arrow { x: u.x, y: -u.y }) == -bearing(u),
{
}

/// In the lower half plane, what points further to the left has no smaller angle.
proof fn lemma_lower_order(u: Arrow, w: Arrow)
    requires
        u.y < 0,
        w.y < 0,
        cross(u, w) >= 0,
    ensures
        bearing(u) <= bearing(w),
{
    let p = Arrow { x: u.x, y: -u.y };
    let q = Arrow { x: w.x, y: -w.y };
    lemma_mirrored(u);
    lemma_mirrored(w);
    assert(cross(q, p) >= 0) by (nonlinear_arith)
        requires
            u.x * w.y - u.y * w.x >= 0,
            cross(q, p) == w.x * (-u.y) - (-w.y) * u.x,
    ;
    lemma_upper_order(q, p);
}

/// How far it is from the direction of an axis to that of a vector, counter-clockwise, in steps.
pub open spec fn from_axis(d: Arrow, u: Arrow) -> int {
    (bearing(u) - axis_angle(d)) % (TURN as int)
}

/// What points to the right of an axis is at least half a turn from it, and what points to its left
/// at most half a turn; and on either side, what points further to the left is farther.
proof fn lemma_sides(d: Arrow, u: Arrow, w: Arrow)
    requires
        is_axis(d),
        !is_zero(u),
        !is_zero(w),
    ensures
        0 <= from_axis(d, u) < TURN,
        cross(u, d) > 0 ==> from_axis(d, u) == 0 || from_axis(d, u) >= 2 * ONE,
        cross(u, d) < 0 ==> from_axis(d, u) <= 2 * ONE,
        cross(u, d) == 0 && dot(u, d) > 0 ==> from_axis(d, u) == 0,
        cross(u, d) == 0 && dot(u, d) < 0 ==> from_axis(d, u) == 2 * ONE,
        (cross(u, d) > 0 && cross(w, d) > 0 || cross(u, d) < 0 && cross(w, d) < 0) && cross(u, w)
            <= 0 ==> from_axis(d, u) == 0 || from_axis(d, w) <= from_axis(d, u),
{
    lemma_quarters(u);
    lemma_quarters(w);
    let t = TURN as int;
    let a = bearing(u) - axis_angle(d);
    let b = bearing(w) - axis_angle(d);
    assert(cross(w, u) == -cross(u, w)) by (nonlinear_arith)
        requires
            cross(w, u) == w.x * u.y - w.y * u.x,
            cross(u, w) == u.x * w.y - u.y * w.x,
    ;
    lemma_axis_sides(d, u);
    lemma_axis_sides(d, w);
    lemma_turned(a, t);
    lemma_turned(b, t);
    if (cross(u, d) > 0 && cross(w, d) > 0 || cross(u, d) < 0 && cross(w, d) < 0) && cross(u, w)
        <= 0 {
        if u.y >= 0 && w.y >= 0 {
            lemma_upper_order(w, u);
        } else if u.y < 0 && w.y < 0 {
            lemma_lower_order(w, u);
        } else {
            lemma_opposite_halves(d, u, w);
        }
    }
}

/// On which side of an axis a vector points.
proof fn lemma_axis_sides(d: Arrow, u: Arrow)
    requires
        is_axis(d),
    ensures
        d == right() ==> cross(u, d) == -u.y && dot(u, d) == u.x,
        d == up() ==> cross(u, d) == u.x && dot(u, d) == u.y,
        d == left() ==> cross(u, d) == u.y && dot(u, d) == -u.x,
        d == down() ==> cross(u, d) == -u.x && dot(u, d) == -u.y,
{
    assert(u.x * 0 == 0 && u.y * 0 == 0 && u.x * 1 == u.x && u.y * 1 == u.y);
    assert(u.x * -1 == -u.x && u.y * -1 == -u.y);
}

proof fn lemma_turned(a: int, t: int)
    requires
        -2 * t < a < 2 * t,
        t > 0,
    ensures
        0 <= a < t ==> a % t == a,
        -t <= a < 0 ==> a % t == a + t,
        -2 * t < a < -t ==> a % t == a + 2 * t,
        t <= a < 2 * t ==> a % t == a - t,
{
    if 0 <= a < t {
        lemma_small_remainder(a, t);
    } else if -t <= a < 0 {
        if a > -t {
            lemma_small_remainder(a, t);
        } else {
            vstd::arithmetic::div_mod::lemma_mod_multiples_vanish(-1, 0, t);
            lemma_small_remainder(0, t);
            assert(t * -1 + 0 == a);
        }
    } else if a < -t {
        lemma_small_remainder(a + 2 * t, t);
        vstd::arithmetic::div_mod::lemma_mod_multiples_vanish(-2, a + 2 * t, t);
        assert(t * -2 + (a + 2 * t) == a);
    } else {
        lemma_small_remainder(a - t, t);
        vstd::arithmetic::div_mod::lemma_mod_multiples_vanish(1, a - t, t);
        assert(t * 1 + (a - t) == a);
    }
}

/// Two vectors on one side of an axis, one of them above the X axis and the other below it.
proof fn lemma_opposite_halves(d: Arrow, u: Arrow, w: Arrow)
    requires
        is_axis(d),
        !is_zero(u),
        !is_zero(w),
        cross(u, d) > 0 && cross(w, d) > 0 || cross(u, d) < 0 && cross(w, d) < 0,
        cross(u, w) <= 0,
        u.y >= 0 && w.y < 0 || u.y < 0 && w.y >= 0,
    ensures
        d == up() || d == down(),
        u.x > 0 && w.x > 0 ==> u.y >= 0 && w.y < 0,
        u.x < 0 && w.x < 0 ==> u.y < 0 && w.y >= 0,
        u.x > 0 && w.x > 0 || u.x < 0 && w.x < 0,
{
    lemma_axis_sides(d, u);
    lemma_axis_sides(d, w);
    if u.x > 0 && w.x > 0 && u.y < 0 {
        assert(u.x * w.y - u.y * w.x > 0) by (nonlinear_arith)
            requires
                u.x > 0,
                w.x > 0,
                u.y < 0,
                w.y >= 0,
        ;
    }
    if u.x < 0 && w.x < 0 && u.y >= 0 {
        assert(u.x * w.y - u.y * w.x > 0) by (nonlinear_arith)
            requires
                u.x < 0,
                w.x < 0,
                u.y >= 0,
                w.y < 0,
        ;
    }
}

/// A way that passes over the direction of an axis sweeps it.
proof fn lemma_passes_sweeps(u: Arrow, d: Arrow, w: Arrow)
    requires
        is_axis(d),
        !is_zero(u),
        !is_zero(w),
        passes(u, d, w),
    ensures
        from_axis(d, u) == 0 || from_axis(d, w) <= from_axis(d, u),
{
    lemma_sides(d, u, w);
    lemma_sides(d, w, u);
    assert(cross(d, w) == -cross(w, d)) by (nonlinear_arith)
        requires
            cross(d, w) == d.x * w.y - d.y * w.x,
            cross(w, d) == w.x * d.y - w.y * d.x,
    ;
    lemma_axis_sides(d, u);
    lemma_axis_sides(d, w);
    if cross(u, w) == 0 {
        lemma_parallel(d, u, w);
    }
}

/// Parallel vectors point to one side of an axis, or to opposite ones.
proof fn lemma_parallel(d: Arrow, u: Arrow, w: Arrow)
    requires
        is_axis(d),
        !is_zero(u),
        !is_zero(w),
        cross(u, w) == 0,
    ensures
        dot(u, w) < 0 && cross(u, d) > 0 ==> cross(w, d) < 0,
        dot(u, w) >= 0 && cross(u, d) > 0 ==> cross(w, d) > 0,
        dot(u, w) >= 0 && cross(u, d) < 0 ==> cross(w, d) < 0,
        dot(u, w) >= 0 && cross(u, d) == 0 && dot(u, d) > 0 ==> cross(w, d) == 0 && dot(w, d) > 0,
        dot(u, w) >= 0 && cross(u, d) == 0 && dot(u, d) < 0 ==> cross(w, d) == 0 && dot(w, d) < 0,
{
    lemma_axis_sides(d, u);
    lemma_axis_sides(d, w);
    let (a, b, p, q) = (u.x, u.y, w.x, w.y);
    assert(a * q == b * p);
    let s = a * p + b * q;
    assert(s * b == q * (a * a + b * b)) by (nonlinear_arith)
        requires
            a * q == b * p,
            s == a * p + b * q,
    ;
    assert(s * a == p * (a * a + b * b)) by (nonlinear_arith)
        requires
            a * q == b * p,
            s == a * p + b * q,
    ;
    let n = a * a + b * b;
    assert(n > 0) by (nonlinear_arith)
        requires
            n == a * a + b * b,
            a != 0 || b != 0,
    ;
    assert(s != 0) by (nonlinear_arith)
        requires
            s * b == q * n,
            s * a == p * n,
            n > 0,
            p != 0 || q != 0,
    ;
    lemma_same_sign(s, a, p, n);
    lemma_same_sign(s, b, q, n);
}

proof fn lemma_same_sign(s: int, a: int, p: int, n: int)
    requires
        s * a == p * n,
        n > 0,
        s != 0,
    ensures
        s > 0 && a > 0 ==> p > 0,
        s > 0 && a < 0 ==> p < 0,
        s < 0 && a > 0 ==> p < 0,
        s < 0 && a < 0 ==> p > 0,
        a == 0 ==> p == 0,
{
    assert(s > 0 && a > 0 ==> p > 0) by (nonlinear_arith)
        requires
            s * a == p * n,
            n > 0,
    ;
    assert(s > 0 && a < 0 ==> p < 0) by (nonlinear_arith)
        requires
            s * a == p * n,
            n > 0,
    ;
    assert(s < 0 && a > 0 ==> p < 0) by (nonlinear_arith)
        requires
            s * a == p * n,
            n > 0,
    ;
    assert(s < 0 && a < 0 ==> p > 0) by (nonlinear_arith)
        requires
            s * a == p * n,
            n > 0,
    ;
    assert(a == 0 ==> p == 0) by (nonlinear_arith)
        requires
            s * a == p * n,
            n > 0,
    ;
}

/// The angle of a vector that is not too long, as a number.
proof fn lemma_angle(u: Arrow, y: Fixed, x: Fixed)
    requires
        !is_zero(u),
        u.x == x.raw,
        u.y == y.raw,
    ensures
        Fixed::angle_spec(y, x).raw == bearing(u),
        -2 * ONE <= bearing(u) <= 2 * ONE,
{
    lemma_quarters(u);
}

/// How far two angles are from a third.
proof fn lemma_ways_from(a: int, s: int, e: int, t: int)
    requires
        t > 0,
    ensures
        (s - a) % t == 0 || (e - a) % t <= (s - a) % t <==> ((e - s) % t == 0 || (a - s) % t <= (e
            - s) % t),
{
    let p = (s - a) % t;
    let q = (e - a) % t;
    vstd::arithmetic::div_mod::lemma_fundamental_div_mod(s - a, t);
    vstd::arithmetic::div_mod::lemma_fundamental_div_mod(e - a, t);
    vstd::arithmetic::div_mod::lemma_mod_bound(s - a, t);
    vstd::arithmetic::div_mod::lemma_mod_bound(e - a, t);
    let m = (s - a) / t;
    let n = (e - a) / t;
    assert(e - s == t * (n - m) + (q - p)) by (nonlinear_arith)
        requires
            s - a == t * m + p,
            e - a == t * n + q,
    ;
    assert(a - s == t * (-m) + (-p)) by (nonlinear_arith)
        requires
            s - a == t * m + p,
    ;
    vstd::arithmetic::div_mod::lemma_mod_multiples_vanish(n - m, q - p, t);
    vstd::arithmetic::div_mod::lemma_mod_multiples_vanish(-m, -p, t);
    lemma_small_remainder(q - p, t);
    lemma_small_remainder(-p, t);
}

/// The counter-clockwise way from `u` to `w` leaves the direction of an axis aside, and the three
/// directions can be told apart in the measure of angles.
pub open spec fn leaves(u: Arrow, d: Arrow, w: Arrow) -> bool {
    &&& passes(w, d, u)
    &&& from_axis(d, u) != 0
    &&& from_axis(d, w) != 0
    &&& from_axis(d, u) != from_axis(d, w)
}

proof fn lemma_axis_swept(u: Arrow, d: Arrow, w: Arrow, s: Fixed, e: Fixed, a: Fixed)
    requires
        is_axis(d),
        !is_zero(u),
        !is_zero(w),
        s.raw == bearing(u),
        e.raw == bearing(w),
        a.raw == axis_angle(d),
    ensures
        passes(u, d, w) ==> gerber::arc::swept(
            s,
            e,
            a,
            InterpolationMode::CounterclockwiseCircular,
        ),
        passes(w, d, u) ==> gerber::arc::swept(s, e, a, InterpolationMode::ClockwiseCircular),
        leaves(u, d, w) ==> !gerber::arc::swept(
            s,
            e,
            a,
            InterpolationMode::CounterclockwiseCircular,
        ),
        leaves(w, d, u) ==> !gerber::arc::swept(s, e, a, InterpolationMode::ClockwiseCircular),
{
    let t = TURN as int;
    law_swept(s, e, a);
    lemma_ways_from(a.raw as int, s.raw as int, e.raw as int, t);
    lemma_ways_from(a.raw as int, e.raw as int, s.raw as int, t);
    if passes(u, d, w) {
        lemma_passes_sweeps(u, d, w);
    }
    if passes(w, d, u) {
        lemma_passes_sweeps(w, d, u);
    }
}

/// A coordinate in millimetres, in nine decimal places; zero where it is left out.
pub open spec fn steps(v: Option<CoordinateNumber>) -> int {
    match v {
        Some(v) => v.nano * 1000,
        None => 0,
    }
}

/// The box holds the point.
pub open spec fn holds(b: (Pos<Fixed>, Pos<Fixed>), p: Arrow) -> bool {
    b.0.x.raw <= p.x <= b.1.x.raw && b.0.y.raw <= p.y <= b.1.y.raw
}

pub open spec fn at(p: Pos<Fixed>) -> Arrow {
    Arrow { x: p.x.raw as int, y: p.y.raw as int }
}

/// The way from `a` to `b`.
pub open spec fn between(a: Arrow, b: Arrow) -> Arrow {
    Arrow { x: b.x - a.x, y: b.y - a.y }
}

/// The point of the circle in the direction of an axis.
pub open spec fn extreme(center: Arrow, r: int, d: Arrow) -> Arrow {
    Arrow { x: center.x + r * d.x, y: center.y + r * d.y }
}

/// An arc in millimetres: where it starts and ends, its center, and its radius to the step below.
pub open spec fn is_arc(
    start: Pos<Fixed>,
    end: Pos<Fixed>,
    offset: CoordinateOffset,
    center: Arrow,
    r: int,
) -> bool {
    let i = steps(offset.x);
    let j = steps(offset.y);
    &&& moves::small(start.x) && moves::small(start.y)
    &&& moves::small(end.x) && moves::small(end.y)
    &&& fixed::abs(i) <= moves::REACH && fixed::abs(j) <= moves::REACH
    &&& center == (Arrow { x: start.x.raw + i, y: start.y.raw + j })
    &&& 0 <= r <= moves::REACH
    &&& r * r <= i * i + j * j < (r + 1) * (r + 1)
    &&& center != at(start) && center != at(end)
}

/// The two ends of an arc as seen from its center, in the order in which a counter-clockwise way
/// comes to them.
pub open spec fn ends(
    start: Pos<Fixed>,
    end: Pos<Fixed>,
    center: Arrow,
    mode: InterpolationMode,
) -> (Arrow, Arrow) {
    let u = between(center, at(start));
    let w = between(center, at(end));
    if mode == InterpolationMode::CounterclockwiseCircular {
        (u, w)
    } else {
        (w, u)
    }
}

/// `v` is the coordinate, on the X axis or on the Y axis, of an end of the arc, or of the point in
/// the direction of an axis that the arc does not leave aside.
pub open spec fn reached(
    v: int,
    on_x: bool,
    start: Pos<Fixed>,
    end: Pos<Fixed>,
    center: Arrow,
    r: int,
    mode: InterpolationMode,
) -> bool {
    let (u, w) = ends(start, end, center, mode);
    let value = |p: Arrow|
        if on_x {
            p.x
        } else {
            p.y
        };
    ||| v == value(at(start))
    ||| v == value(at(end))
    ||| !leaves(u, right(), w) && v == value(extreme(center, r, right()))
    ||| !leaves(u, up(), w) && v == value(extreme(center, r, up()))
    ||| !leaves(u, left(), w) && v == value(extreme(center, r, left()))
    ||| !leaves(u, down(), w) && v == value(extreme(center, r, down()))
}

proof fn lemma_offset(v: Option<CoordinateNumber>)
    requires
        fixed::abs(steps(v)) <= moves::REACH,
    ensures
        gerber::arc::offset_axis::<Fixed>(v, Unit::Millimeters).raw == steps(v),
{
    if let Some(n) = v {
        assert(gerber::corners::in_mm::<Fixed>(n, Unit::Millimeters).raw == n.nano * 1000);
    }
}

proof fn lemma_norm(i: Fixed, j: Fixed, r: int)
    requires
        0 <= r <= moves::REACH,
        r * r <= i.raw * i.raw + j.raw * j.raw < (r + 1) * (r + 1),
    ensures
        Fixed::norm_spec(i, j).raw == r,
{
    let s = i.raw * i.raw + j.raw * j.raw;
    let q = fixed::floor_sqrt(s);
    assert(0 <= q && q * q <= s && s < (q + 1) * (q + 1));
    assert(q == r) by (nonlinear_arith)
        requires
            0 <= q,
            0 <= r,
            q * q <= s < (q + 1) * (q + 1),
            r * r <= s < (r + 1) * (r + 1),
    ;
}

/// A box, with `p` in it if `f` says so.
spec fn widened(b: (Pos<Fixed>, Pos<Fixed>), f: bool, p: Pos<Fixed>) -> (Pos<Fixed>, Pos<Fixed>) {
    if f {
        gerber::arc::with_point(b, p)
    } else {
        b
    }
}

/// Each side of a widened box is a side of the box, or that of the point.
proof fn lemma_widened(b: (Pos<Fixed>, Pos<Fixed>), f: bool, p: Pos<Fixed>)
    ensures
        ({
            let c = widened(b, f, p);
            &&& f ==> holds(c, at(p))
            &&& forall|q: Arrow| holds(b, q) ==> #[trigger] holds(c, q)
            &&& c.0.x == b.0.x || f && c.0.x == p.x
            &&& c.0.y == b.0.y || f && c.0.y == p.y
            &&& c.1.x == b.1.x || f && c.1.x == p.x
            &&& c.1.y == b.1.y || f && c.1.y == p.y
        }),
        b.0.x.raw <= b.1.x.raw && b.0.y.raw <= b.1.y.raw ==> widened(b, f, p).0.x.raw <= widened(
            b,
            f,
            p,
        ).1.x.raw && widened(b, f, p).0.y.raw <= widened(b, f, p).1.y.raw,
{
}

/// The angles of the ends of an arc, and the points of its circle on the axes.
proof fn lemma_arc_parts(
    start: Pos<Fixed>,
    end: Pos<Fixed>,
    offset: CoordinateOffset,
    center: Arrow,
    r: int,
) -> (o: (Fixed, Fixed, Pos<Fixed>, Pos<Fixed>, Pos<Fixed>, Pos<Fixed>))
    requires
        is_arc(start, end, offset, center, r),
    ensures
        o.0.raw == bearing(between(center, at(start))),
        o.1.raw == bearing(between(center, at(end))),
        at(o.2) == extreme(center, r, right()),
        at(o.3) == extreme(center, r, up()),
        at(o.4) == extreme(center, r, left()),
        at(o.5) == extreme(center, r, down()),
        ({
            let i = gerber::arc::offset_axis::<Fixed>(offset.x, Unit::Millimeters);
            let j = gerber::arc::offset_axis::<Fixed>(offset.y, Unit::Millimeters);
            let cx = start.x.plus_spec(i);
            let cy = start.y.plus_spec(j);
            let radius = Fixed::norm_spec(i, j);
            &&& o.0 == Fixed::angle_spec(start.y.minus_spec(cy), start.x.minus_spec(cx))
            &&& o.1 == Fixed::angle_spec(end.y.minus_spec(cy), end.x.minus_spec(cx))
            &&& o.2 == (Pos { x: cx.plus_spec(radius), y: cy })
            &&& o.3 == (Pos { x: cx, y: cy.plus_spec(radius) })
            &&& o.4 == (Pos { x: cx.minus_spec(radius), y: cy })
            &&& o.5 == (Pos { x: cx, y: cy.minus_spec(radius) })
        }),
{
    let i = gerber::arc::offset_axis::<Fixed>(offset.x, Unit::Millimeters);
    let j = gerber::arc::offset_axis::<Fixed>(offset.y, Unit::Millimeters);
    lemma_offset(offset.x);
    lemma_offset(offset.y);
    lemma_norm(i, j, r);
    let cx = start.x.plus_spec(i);
    let cy = start.y.plus_spec(j);
    let radius = Fixed::norm_spec(i, j);
    let u = between(center, at(start));
    let w = between(center, at(end));
    lemma_angle(u, start.y.minus_spec(cy), start.x.minus_spec(cx));
    lemma_angle(w, end.y.minus_spec(cy), end.x.minus_spec(cx));
    assert(r * 1 == r && r * 0 == 0 && r * -1 == -r);
    (
        Fixed::angle_spec(start.y.minus_spec(cy), start.x.minus_spec(cx)),
        Fixed::angle_spec(end.y.minus_spec(cy), end.x.minus_spec(cx)),
        Pos { x: cx.plus_spec(radius), y: cy },
        Pos { x: cx, y: cy.plus_spec(radius) },
        Pos { x: cx.minus_spec(radius), y: cy },
        Pos { x: cx, y: cy.minus_spec(radius) },
    )
}

/// The box of an arc, widened step by step.
proof fn lemma_arc_steps(
    start: Pos<Fixed>,
    end: Pos<Fixed>,
    offset: CoordinateOffset,
    mode: InterpolationMode,
    center: Arrow,
    r: int,
) -> (o: (bool, bool, bool, bool, Pos<Fixed>, Pos<Fixed>, Pos<Fixed>, Pos<Fixed>))
    requires
        mode != InterpolationMode::Linear,
        is_arc(start, end, offset, center, r),
    ensures
        ({
            let (u, w) = ends(start, end, center, mode);
            &&& passes(u, right(), w) ==> o.0
            &&& passes(u, up(), w) ==> o.1
            &&& passes(u, left(), w) ==> o.2
            &&& passes(u, down(), w) ==> o.3
            &&& leaves(u, right(), w) ==> !o.0
            &&& leaves(u, up(), w) ==> !o.1
            &&& leaves(u, left(), w) ==> !o.2
            &&& leaves(u, down(), w) ==> !o.3
        }),
        at(o.4) == extreme(center, r, right()),
        at(o.5) == extreme(center, r, up()),
        at(o.6) == extreme(center, r, left()),
        at(o.7) == extreme(center, r, down()),
        gerber::arc::arc_box(start, end, offset, Unit::Millimeters, mode) == widened(
            widened(
                widened(widened(gerber::arc::span(start, end), o.0, o.4), o.1, o.5),
                o.2,
                o.6,
            ),
            o.3,
            o.7,
        ),
{
    let (s, e, q1, q2, q3, q4) = lemma_arc_parts(start, end, offset, center, r);
    let u = between(center, at(start));
    let w = between(center, at(end));
    lemma_axis_swept(u, right(), w, s, e, Fixed::zero_spec());
    lemma_axis_swept(u, up(), w, s, e, Fixed::quarter_turn_spec());
    lemma_axis_swept(u, left(), w, s, e, Fixed::half_turn_spec());
    lemma_axis_swept(u, down(), w, s, e, Fixed::quarter_turn_spec().negated_spec());
    reveal(gerber::arc::arc_box);
    (
        gerber::arc::swept(s, e, Fixed::zero_spec(), mode),
        gerber::arc::swept(s, e, Fixed::quarter_turn_spec(), mode),
        gerber::arc::swept(s, e, Fixed::half_turn_spec(), mode),
        gerber::arc::swept(s, e, Fixed::quarter_turn_spec().negated_spec(), mode),
        q1,
        q2,
        q3,
        q4,
    )
}

/// The box of an arc holds its ends and, of the four points of its circle that lie furthest to the
/// right, up, to the left and down, those that the arc passes over; and it reaches no further than
/// its ends and those points.
pub proof fn law_arc_box(
    start: Pos<Fixed>,
    end: Pos<Fixed>,
    offset: CoordinateOffset,
    mode: InterpolationMode,
    center: Arrow,
    r: int,
)
    requires
        mode != InterpolationMode::Linear,
        is_arc(start, end, offset, center, r),
    ensures
        ({
            let b = gerber::arc::arc_box(start, end, offset, Unit::Millimeters, mode);
            let (u, w) = ends(start, end, center, mode);
            &&& holds(b, at(start)) && holds(b, at(end))
            &&& passes(u, right(), w) ==> holds(b, extreme(center, r, right()))
            &&& passes(u, up(), w) ==> holds(b, extreme(center, r, up()))
            &&& passes(u, left(), w) ==> holds(b, extreme(center, r, left()))
            &&& passes(u, down(), w) ==> holds(b, extreme(center, r, down()))
            &&& reached(b.0.x.raw as int, true, start, end, center, r, mode)
            &&& reached(b.0.y.raw as int, false, start, end, center, r, mode)
            &&& reached(b.1.x.raw as int, true, start, end, center, r, mode)
            &&& reached(b.1.y.raw as int, false, start, end, center, r, mode)
        }),
{
    let (f1, f2, f3, f4, q1, q2, q3, q4) = lemma_arc_steps(start, end, offset, mode, center, r);
    let b0 = gerber::arc::span(start, end);
    let b1 = widened(b0, f1, q1);
    let b2 = widened(b1, f2, q2);
    let b3 = widened(b2, f3, q3);
    lemma_widened(b0, f1, q1);
    lemma_widened(b1, f2, q2);
    lemma_widened(b2, f3, q3);
    lemma_widened(b3, f4, q4);
    assert(holds(b0, at(start)) && holds(b0, at(end)));
}

/// An angle is the step nearest to where the vector leaves the square with the corners `(1, 0)`,
/// `(0, 1)`, `(-1, 0)` and `(0, -1)`, counted along the square.
pub proof fn law_angle(u: Arrow)
    requires
        !is_zero(u),
    ensures
        ({
            let a = bearing(u);
            let d = fixed::abs(u.x) + fixed::abs(u.y);
            &&& u.x >= 0 ==> -d <= 2 * (a * d - u.y * ONE) <= d
            &&& u.x < 0 && u.y >= 0 ==> -d <= 2 * ((a - ONE) * d + u.x * ONE) <= d
            &&& u.x < 0 && u.y < 0 ==> -d <= 2 * ((a + ONE) * d - u.x * ONE) <= d
        }),
{
    let h = fixed::abs(u.y);
    let d = fixed::abs(u.x) + h;
    let a = bearing(u);
    if u.x >= 0 {
        lemma_nearest(h * ONE, d);
        let m = fixed::round_div(h * ONE, d);
        if u.y < 0 {
            assert(a == -m);
            assert(2 * (a * d - u.y * ONE) == -(2 * (m * d - h * ONE))) by (nonlinear_arith)
                requires
                    a == -m,
                    h == -u.y,
            ;
        }
    } else {
        lemma_nearest((-u.x) * ONE, d);
        let m = fixed::round_div((-u.x) * ONE, d);
        if u.y < 0 {
            assert(a == -(ONE + m));
            assert(2 * ((a + ONE) * d - u.x * ONE) == -(2 * (m * d - (-u.x) * ONE)))
                by (nonlinear_arith)
                requires
                    a == -(ONE + m),
            ;
        } else {
            assert(a == ONE + m);
            assert(2 * ((a - ONE) * d + u.x * ONE) == 2 * (m * d - (-u.x) * ONE))
                by (nonlinear_arith)
                requires
                    a == ONE + m,
            ;
        }
    }
}

/// A rounded fraction is the nearest whole number.
proof fn lemma_nearest(n: int, d: int)
    requires
        0 <= n,
        0 < d,
    ensures
        -d <= 2 * (fixed::round_div(n, d) * d - n) <= d,
{
    vstd::arithmetic::div_mod::lemma_fundamental_div_mod(n, d);
    let q = n / d;
    let r = n % d;
    let m = fixed::round_div(n, d);
    assert(-d <= 2 * (m * d - n) <= d) by (nonlinear_arith)
        requires
            n == d * q + r,
            0 <= r < d,
            m == q && 2 * r < d || m == q + 1 && 2 * r >= d,
    ;
}

} // verus!
