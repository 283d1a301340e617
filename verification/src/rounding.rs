//! How near the doubles of the uptime arithmetic are to the exact quotients.

use vstd::prelude::*;
use crate::uptime::{
    below, days_of, divided, hours_of, lemma_two_to_grows, lemma_two_to_shift, minutes_of, nearest,
    one_decimal, round_half_even, tenths, tenths_text, two_to, uptime_text, Binary64,
};

verus! {

/// Whether `x` is a normal double: its significand has 53 bits.
pub open spec fn normal(x: Binary64) -> bool {
    0x10_0000_0000_0000 <= x.significand < 0x20_0000_0000_0000
}

/// Rounding to the nearest whole number misses `n / d` by a half at most.
pub proof fn lemma_round_half_even(n: nat, d: nat)
    requires
        d > 0,
    ensures
        2 * (round_half_even(n, d) * d - n) <= d,
        2 * (n - round_half_even(n, d) * d) <= d,
{
    let q = n / d;
    let r = n % d;
    assert(n == q * d + r && 0 <= r < d) by (nonlinear_arith)
        requires
            d > 0,
            q == n / d,
            r == n % d,
    ;
    assert((q + 1) * d == q * d + d) by (nonlinear_arith);
}

/// Rounding to the nearest whole number stays between the whole numbers that `n / d`
/// lies between.
pub proof fn lemma_round_between(n: nat, d: nat, low: nat, high: nat)
    requires
        d > 0,
        low * d <= n <= high * d,
    ensures
        low <= round_half_even(n, d) <= high,
{
    let q = n / d;
    let r = n % d;
    assert(n == q * d + r && 0 <= r < d) by (nonlinear_arith)
        requires
            d > 0,
            q == n / d,
            r == n % d,
    ;
    assert(low <= q) by (nonlinear_arith)
        requires
            low * d <= n,
            n == q * d + r,
            r < d,
            d > 0,
    ;
    if r == 0 {
        assert(q <= high) by (nonlinear_arith)
            requires
                n <= high * d,
                n == q * d + r,
                r == 0,
                d > 0,
        ;
    } else {
        assert(q + 1 <= high) by (nonlinear_arith)
            requires
                n <= high * d,
                n == q * d + r,
                r > 0,
                d > 0,
        ;
    }
}

/// The double nearest to a quotient of at least two to the 52nd is normal, and its
/// exponent is not negative.
pub proof fn lemma_nearest_large(n: nat, d: nat)
    requires
        d > 0,
        n >= d * 0x10_0000_0000_0000,
    ensures
        normal(nearest(n, d)),
        nearest(n, d).exponent >= 0,
    decreases n - d * 0x10_0000_0000_0000,
{
    if n >= d * 0x20_0000_0000_0000 {
        lemma_nearest_large(n, 2 * d);
    } else {
        lemma_round_between(n, d, 0x10_0000_0000_0000, 0x20_0000_0000_0000);
    }
}

/// The double nearest to a quotient below two to the 53rd is normal; with its exponent
/// `e`, which is one at most, it misses the quotient by half of `2^e` at most.
pub proof fn lemma_nearest_small(n: nat, d: nat)
    requires
        d > 0,
        0 < n < d * 0x20_0000_0000_0000,
    ensures
        normal(nearest(n, d)),
        nearest(n, d).exponent <= 1,
        n < d * 0x10_0000_0000_0000 ==> nearest(n, d).exponent <= 0,
        nearest(n, d).exponent == 1 ==> nearest(n, d).significand == 0x10_0000_0000_0000 && 2 * (d
            * 0x20_0000_0000_0000 - n) <= d,
        nearest(n, d).exponent <= 0 ==> {
            let unit = two_to((-nearest(n, d).exponent) as nat);
            &&& 2 * (nearest(n, d).significand * d - n * unit) <= d
            &&& 2 * (n * unit - nearest(n, d).significand * d) <= d
        },
    decreases
        (if n < d * 0x10_0000_0000_0000 {
            d * 0x10_0000_0000_0000 - n
        } else {
            0
        }),
{
    let x = nearest(n, d);
    if n < d * 0x10_0000_0000_0000 {
        lemma_nearest_small(2 * n, d);
        let y = nearest(2 * n, d);
        assert(x.exponent == y.exponent - 1);
        assert(x.significand == y.significand);
        if y.exponent <= 0 {
            let unit = two_to((-y.exponent) as nat);
            assert(two_to((-x.exponent) as nat) == 2 * unit);
            assert(n * (2 * unit) == (2 * n) * unit) by (nonlinear_arith);
        } else {
            assert(two_to(0) == 1);
            assert(n * 1 == n) by (nonlinear_arith);
            assert(x.significand * d == d * 0x10_0000_0000_0000) by (nonlinear_arith)
                requires
                    x.significand == 0x10_0000_0000_0000,
            ;
        }
    } else {
        lemma_round_between(n, d, 0x10_0000_0000_0000, 0x20_0000_0000_0000);
        lemma_round_half_even(n, d);
        let m = round_half_even(n, d);
        assert(two_to(0) == 1);
        assert(n * 1 == n) by (nonlinear_arith);
        if m == 0x20_0000_0000_0000 {
            assert(m * d == d * 0x20_0000_0000_0000) by (nonlinear_arith)
                requires
                    m == 0x20_0000_0000_0000,
            ;
        }
    }
}

/// A whole number below two to the 53rd is a double: the nearest double is the number
/// itself.
pub proof fn lemma_nearest_whole(n: nat)
    requires
        0 < n < 0x20_0000_0000_0000,
    ensures
        normal(nearest(n, 1)),
        nearest(n, 1).exponent <= 0,
        nearest(n, 1).significand == n * two_to((-nearest(n, 1).exponent) as nat),
{
    lemma_nearest_small(n, 1);
    let x = nearest(n, 1);
    assert(x.significand * 1 == x.significand) by (nonlinear_arith);
}

/// Whether `x` is a normal double below two to the 53rd that misses `s / divisor` by
/// little: with `x` being `m / 2^k`, the numbers `m * divisor` and `s * 2^k` differ by
/// `slack` at most.
pub open spec fn close(x: Binary64, s: nat, divisor: nat, slack: nat) -> bool {
    &&& normal(x)
    &&& x.exponent <= 0
    &&& x.significand * divisor - s * two_to((-x.exponent) as nat) <= slack
    &&& s * two_to((-x.exponent) as nat) - x.significand * divisor <= slack
}

/// Dividing a double that is close to `s / divisor` by an even `c` gives a double that is
/// close to `s / (c * divisor)`: the slack grows by the factor `2 * c` at most, and by
/// half of `c * divisor` for the new rounding.
pub proof fn lemma_divided_close(x: Binary64, c: nat, s: nat, divisor: nat, slack: nat)
    requires
        close(x, s, divisor, slack),
        c >= 2,
        c % 2 == 0,
    ensures
        close(divided(x, c), s, c * divisor, divisor * (c / 2) + slack * (2 * c)),
{
    let m = x.significand;
    let k = (-x.exponent) as nat;
    let p = two_to(k);
    let part = nearest(m, c);
    assert(m < c * 0x10_0000_0000_0000) by (nonlinear_arith)
        requires
            m < 0x20_0000_0000_0000,
            c >= 2,
    ;
    lemma_nearest_small(m, c);
    let m2 = part.significand;
    let j = (-part.exponent) as nat;
    let u = two_to(j);
    lemma_two_to_shift(k, j);
    lemma_two_to_grows(0, j);
    lemma_two_to_grows(0, k);
    let y = divided(x, c);
    assert(y.significand == m2);
    assert((-y.exponent) as nat == k + j);
    let a = m2 * c - m * u;
    let b = m * divisor - s * p;
    let half = c / 2;
    assert(c == 2 * half);
    assert(u < 2 * c) by (nonlinear_arith)
        requires
            2 * (m * u - m2 * c) <= c,
            m >= 0x10_0000_0000_0000,
            m2 < 0x20_0000_0000_0000,
            c >= 2,
            u > 0,
    ;
    assert(m2 * (c * divisor) - s * (p * u) == divisor * a + u * b) by (nonlinear_arith)
        requires
            a == m2 * c - m * u,
            b == m * divisor - s * p,
    ;
    assert(divisor * a + u * b <= divisor * half + slack * (2 * c) && -(divisor * a + u * b)
        <= divisor * half + slack * (2 * c)) by (nonlinear_arith)
        requires
            2 * a <= c,
            -2 * a <= c,
            c == 2 * half,
            b <= slack,
            -b <= slack,
            0 < u < 2 * c,
            divisor >= 0,
            slack >= 0,
    ;
}

/// Where a double lies, with its exponent, if it is close to a quotient that is small
/// enough: the unit `2^k` of its significand is more than the slack.
pub proof fn lemma_unit_exceeds_slack(x: Binary64, s: nat, divisor: nat, slack: nat)
    requires
        close(x, s, divisor, slack),
        s * slack + s + slack < divisor * 0x10_0000_0000_0000,
    ensures
        two_to((-x.exponent) as nat) > slack,
{
    let m = x.significand;
    let p = two_to((-x.exponent) as nat);
    if p <= slack {
        assert(false) by (nonlinear_arith)
            requires
                m * divisor - s * p <= slack,
                m >= 0x10_0000_0000_0000,
                p <= slack,
                s * slack + s + slack < divisor * 0x10_0000_0000_0000,
                s >= 0,
                divisor >= 0,
        ;
    }
}

/// A double that is close to a quotient below the whole number `bound` is below `bound`
/// itself, if the quotient is small enough for the slack not to matter.
pub proof fn lemma_below_close(x: Binary64, s: nat, divisor: nat, slack: nat, bound: nat)
    requires
        close(x, s, divisor, slack),
        s < bound * divisor,
        s * slack + s + slack < divisor * 0x10_0000_0000_0000,
    ensures
        below(x, bound),
        x.exponent < 0,
{
    lemma_unit_exceeds_slack(x, s, divisor, slack);
    let m = x.significand;
    let p = two_to((-x.exponent) as nat);
    assert(m < bound * p) by (nonlinear_arith)
        requires
            m * divisor - s * p <= slack,
            s < bound * divisor,
            p > slack,
            divisor > 0,
    ;
    if x.exponent == 0 {
        assert(two_to(0) == 1);
        assert(false) by (nonlinear_arith)
            requires
                m * divisor - s * p <= slack,
                p == 1,
                m >= 0x10_0000_0000_0000,
                s * slack + s + slack < divisor * 0x10_0000_0000_0000,
                s >= 0,
                slack >= 0,
                divisor >= 0,
        ;
    }
}

/// Dividing a double of at least `bound * c` by `c` gives a double of at least `bound`:
/// rounding does not pass a whole multiple of the unit.
pub proof fn lemma_divided_not_below(x: Binary64, c: nat, bound: nat)
    requires
        normal(x),
        x.exponent <= 0,
        c >= 2,
        bound > 0,
        x.significand >= bound * c * two_to((-x.exponent) as nat),
    ensures
        normal(divided(x, c)),
        divided(x, c).exponent <= 0,
        divided(x, c).significand >= bound * two_to((-divided(x, c).exponent) as nat),
        !below(divided(x, c), bound),
{
    let m = x.significand;
    let k = (-x.exponent) as nat;
    let p = two_to(k);
    assert(m < c * 0x10_0000_0000_0000) by (nonlinear_arith)
        requires
            m < 0x20_0000_0000_0000,
            c >= 2,
    ;
    lemma_nearest_small(m, c);
    let part = nearest(m, c);
    let m2 = part.significand;
    let j = (-part.exponent) as nat;
    let u = two_to(j);
    lemma_two_to_shift(k, j);
    let y = divided(x, c);
    assert((-y.exponent) as nat == k + j);
    assert(m2 >= bound * (p * u)) by (nonlinear_arith)
        requires
            2 * (m * u - m2 * c) <= c,
            m >= bound * c * p,
            c >= 2,
            u >= 0,
    ;
    if y.exponent == 0 {
        assert(two_to(0) == 1);
        assert(bound * 1 == bound) by (nonlinear_arith);
        assert(m2 * 1 == m2) by (nonlinear_arith);
    }
}

/// Dividing a normal double by 64 or less makes it smaller by seven binary places at
/// most: one whose unit `2^k` was `room` at most, or whose exponent was not negative,
/// has a unit of `128 * room` at most afterwards, and is no less than any `bound` that
/// is small against that.
pub proof fn lemma_divided_large(x: Binary64, c: nat, bound: nat, room: nat)
    requires
        normal(x),
        2 <= c <= 64,
        two_to((-x.exponent) as nat) <= room || x.exponent >= 0,
        bound * room * 128 < 0x10_0000_0000_0000,
        room >= 1,
    ensures
        normal(divided(x, c)),
        two_to((-divided(x, c).exponent) as nat) <= room * 128 || divided(x, c).exponent >= 0,
        !below(divided(x, c), bound),
{
    let m = x.significand;
    assert(m < c * 0x10_0000_0000_0000) by (nonlinear_arith)
        requires
            m < 0x20_0000_0000_0000,
            c >= 2,
    ;
    lemma_nearest_small(m, c);
    let part = nearest(m, c);
    let m2 = part.significand;
    let j = (-part.exponent) as nat;
    let u = two_to(j);
    lemma_two_to_grows(0, j);
    assert(u < 128) by (nonlinear_arith)
        requires
            2 * (m * u - m2 * c) <= c,
            m >= 0x10_0000_0000_0000,
            m2 < 0x20_0000_0000_0000,
            2 <= c <= 64,
            u > 0,
    ;
    let y = divided(x, c);
    if y.exponent >= 0 {
        lemma_two_to_grows(0, y.exponent as nat);
        assert(m2 * two_to(y.exponent as nat) >= m2) by (nonlinear_arith)
            requires
                two_to(y.exponent as nat) >= 1,
                m2 >= 0,
        ;
        assert(bound < 0x10_0000_0000_0000) by (nonlinear_arith)
            requires
                bound * room * 128 < 0x10_0000_0000_0000,
                room >= 1,
        ;
    } else {
        let t = two_to((-y.exponent) as nat);
        if x.exponent >= 0 {
            lemma_two_to_grows((-y.exponent) as nat, j);
            assert(t <= u);
        } else {
            let k = (-x.exponent) as nat;
            lemma_two_to_shift(k, j);
            assert((-y.exponent) as nat == k + j);
        }
        assert(t <= room * 128) by (nonlinear_arith)
            requires
                t <= u || (t == two_to((-x.exponent) as nat) * u && two_to((-x.exponent) as nat)
                    <= room),
                0 < u < 128,
                room >= 1,
        ;
        assert(bound * t < 0x10_0000_0000_0000) by (nonlinear_arith)
            requires
                t <= room * 128,
                bound * room * 128 < 0x10_0000_0000_0000,
        ;
    }
}

/// The only multiple of a positive number strictly between that number and its
/// negative is zero; up to twice the number, it is zero or the number itself.
proof fn lemma_small_multiple(w: int, z: int, x: int)
    requires
        z > 0,
        w * z == x,
        -z < x < 2 * z,
    ensures
        w == 0 || w == 1,
        x < z ==> w == 0,
{
    assert(w > -1 && w < 2 && (x < z ==> w < 1)) by (nonlinear_arith)
        requires
            z > 0,
            w * z == x,
            -z < x < 2 * z,
    ;
}

/// The tenths of a double that is close to `s / (10 * span)` are `s / span` rounded to
/// the nearest whole number; where `s / span` lies halfway between two whole numbers,
/// they are one of the two. Here `s` is `whole * span + rest`.
pub proof fn lemma_tenths_close(
    x: Binary64,
    s: nat,
    span: nat,
    slack: nat,
    whole: nat,
    rest: nat,
)
    requires
        close(x, s, 10 * span, slack),
        x.exponent < 0,
        two_to((-x.exponent) as nat) > slack,
        span >= 2,
        span % 2 == 0,
        s == whole * span + rest,
        rest < span,
    ensures
        2 * rest < span ==> tenths(x) == whole,
        2 * rest > span ==> tenths(x) == whole + 1,
        2 * rest == span ==> tenths(x) == whole || tenths(x) == whole + 1,
{
    let m = x.significand;
    let p = two_to((-x.exponent) as nat);
    let t = tenths(x);
    assert(t == round_half_even(10 * m, p));
    lemma_round_half_even(10 * m, p);
    let a = t * p - 10 * m;
    let b = m * (10 * span) - s * p;
    let half = span / 2;
    assert(span == 2 * half);
    let z = span * p;
    assert(z > 0) by (nonlinear_arith)
        requires
            z == span * p,
            span >= 2,
            p > 0,
    ;
    if 2 * rest <= span {
        let w = t - whole;
        let v = rest * p + span * a + b;
        assert(w * z == v) by (nonlinear_arith)
            requires
                w == t - whole,
                z == span * p,
                v == rest * p + span * a + b,
                a == t * p - 10 * m,
                b == m * (10 * span) - s * p,
                s == whole * span + rest,
        ;
        assert(-z < v < 2 * z && (2 * rest < span ==> v < z)) by (nonlinear_arith)
            requires
                v == rest * p + span * a + b,
                z == span * p,
                2 * a <= p,
                -2 * a <= p,
                b <= slack,
                -b <= slack,
                slack < p,
                0 <= rest,
                2 * rest <= span,
                span == 2 * half,
                span >= 2,
        ;
        lemma_small_multiple(w, z as int, v);
    } else {
        let w = whole + 1 - t;
        let v = (span - rest) * p - span * a - b;
        assert(w * z == v) by (nonlinear_arith)
            requires
                w == whole + 1 - t,
                z == span * p,
                v == (span - rest) * p - span * a - b,
                a == t * p - 10 * m,
                b == m * (10 * span) - s * p,
                s == whole * span + rest,
        ;
        assert(-z < v < z) by (nonlinear_arith)
            requires
                v == (span - rest) * p - span * a - b,
                z == span * p,
                2 * a <= p,
                -2 * a <= p,
                b <= slack,
                -b <= slack,
                slack < p,
                rest < span,
                2 * rest > span,
                span == 2 * half,
                span >= 2,
        ;
        lemma_small_multiple(w, z as int, v);
    }
}

/// How close the minutes, the hours and the days in `seconds` are to the exact
/// quotients, for `seconds` that are themselves a double.
proof fn lemma_uptime_close(seconds: nat)
    requires
        0 < seconds < 0x20_0000_0000_0000,
    ensures
        close(nearest(seconds, 1), seconds, 1, 0),
        close(minutes_of(seconds), seconds, 60, 30),
        close(hours_of(seconds), seconds, 3600, 5400),
        close(days_of(seconds), seconds, 86400, 302400),
{
    lemma_nearest_whole(seconds);
    let x = nearest(seconds, 1);
    assert(x.significand * 1 == x.significand) by (nonlinear_arith);
    lemma_divided_close(x, 60, seconds, 1, 0);
    lemma_divided_close(minutes_of(seconds), 60, seconds, 60, 30);
    lemma_divided_close(hours_of(seconds), 24, seconds, 3600, 5400);
}

/// The unit of an uptime goes by the exact thresholds: minutes for fewer than 6000
/// seconds, which are a hundred minutes; hours from there to fewer than 86400 seconds,
/// which are twenty-four hours; days from there on. Rounding to doubles moves neither
/// threshold.
pub proof fn lemma_uptime_unit(seconds: nat)
    ensures
        seconds < 6000 ==> uptime_text(seconds) == one_decimal(minutes_of(seconds)) + " minutes"@,
        6000 <= seconds < 86400 ==> uptime_text(seconds) == one_decimal(hours_of(seconds))
            + " hours"@,
        86400 <= seconds ==> uptime_text(seconds) == one_decimal(days_of(seconds)) + " days"@,
{
    let x = nearest(seconds, 1);
    if seconds == 0 {
        assert(two_to(0) == 1);
        assert(minutes_of(seconds) == Binary64 { significand: 0, exponent: 0 });
    } else if seconds < 0x20_0000_0000_0000 {
        lemma_uptime_close(seconds);
        let p = two_to((-x.exponent) as nat);
        assert(x.significand == seconds * p) by (nonlinear_arith)
            requires
                x.significand * 1 - seconds * p <= 0,
                seconds * p - x.significand * 1 <= 0,
        ;
        if seconds < 6000 {
            lemma_below_close(minutes_of(seconds), seconds, 60, 30, 100);
        } else {
            assert(x.significand >= 100 * 60 * p) by (nonlinear_arith)
                requires
                    x.significand == seconds * p,
                    seconds >= 6000,
                    p >= 0,
            ;
            lemma_divided_not_below(x, 60, 100);
            if seconds < 86400 {
                lemma_below_close(hours_of(seconds), seconds, 3600, 5400, 24);
            } else {
                assert(x.significand >= 1440 * 60 * p) by (nonlinear_arith)
                    requires
                        x.significand == seconds * p,
                        seconds >= 86400,
                        p >= 0,
                ;
                lemma_divided_not_below(x, 60, 1440);
                let minutes = minutes_of(seconds);
                let q = two_to((-minutes.exponent) as nat);
                assert(minutes.significand >= 24 * 60 * q) by (nonlinear_arith)
                    requires
                        minutes.significand >= 1440 * q,
                ;
                lemma_divided_not_below(minutes, 60, 24);
            }
        }
    } else {
        lemma_nearest_large(seconds, 1);
        lemma_divided_large(x, 60, 100, 1);
        lemma_divided_large(minutes_of(seconds), 60, 24, 128);
    }
}

/// The figure of an uptime is the exact quotient to the nearest tenth: the tenths of
/// the minutes are the nearest whole number to a sixth of the seconds, those of the
/// hours to a 360th, those of the days to a 8640th. Only where the quotient lies
/// exactly halfway between two tenths, double precision decides which of the two it is.
/// This holds for every uptime below two to the 50th seconds, some 35 million years.
pub proof fn lemma_uptime_figure(seconds: nat)
    requires
        seconds < 0x4_0000_0000_0000,
    ensures
        ({
            let figure = if seconds < 6000 {
                minutes_of(seconds)
            } else if seconds < 86400 {
                hours_of(seconds)
            } else {
                days_of(seconds)
            };
            let span: nat = if seconds < 6000 {
                6
            } else if seconds < 86400 {
                360
            } else {
                8640
            };
            &&& 2 * (seconds % span) != span ==> tenths(figure) == (seconds + span / 2) / span
            &&& 2 * (seconds % span) == span ==> tenths(figure) == seconds / span || tenths(figure)
                == seconds / span + 1
        }),
{
    if seconds == 0 {
        assert(two_to(0) == 1);
        assert(minutes_of(seconds) == Binary64 { significand: 0, exponent: 0 });
    } else {
        lemma_uptime_close(seconds);
        if seconds < 6000 {
            let x = minutes_of(seconds);
            lemma_below_close(x, seconds, 60, 30, 100);
            lemma_unit_exceeds_slack(x, seconds, 60, 30);
            lemma_tenths_close(x, seconds, 6, 30, seconds / 6, seconds % 6);
        } else if seconds < 86400 {
            let x = hours_of(seconds);
            lemma_below_close(x, seconds, 3600, 5400, 24);
            lemma_unit_exceeds_slack(x, seconds, 3600, 5400);
            lemma_tenths_close(x, seconds, 360, 5400, seconds / 360, seconds % 360);
        } else {
            let x = days_of(seconds);
            lemma_unit_exceeds_slack(x, seconds, 86400, 302400);
            if x.exponent == 0 {
                assert(two_to(0) == 1);
            }
            lemma_tenths_close(x, seconds, 8640, 302400, seconds / 8640, seconds % 8640);
        }
    }
}

/// The seconds in a tenth of the unit that an uptime of `seconds` is told in.
pub open spec fn span_of(seconds: nat) -> nat {
    if seconds < 6000 {
        6
    } else if seconds < 86400 {
        360
    } else {
        8640
    }
}

/// The unit that an uptime of `seconds` is told in, with the space before it.
pub open spec fn unit_of(seconds: nat) -> Seq<char> {
    if seconds < 6000 {
        " minutes"@
    } else if seconds < 86400 {
        " hours"@
    } else {
        " days"@
    }
}

/// In whole numbers: the text of an uptime is the count of its tenths of a unit,
/// rounded to the nearest, with a point before the last digit, and then the unit. Where
/// the uptime lies exactly halfway between two tenths, the count is one of the two.
/// This holds for every uptime below two to the 50th seconds.
pub proof fn lemma_uptime_exact(seconds: nat)
    requires
        seconds < 0x4_0000_0000_0000,
    ensures
        2 * (seconds % span_of(seconds)) != span_of(seconds) ==> uptime_text(seconds)
            == tenths_text((seconds + span_of(seconds) / 2) / span_of(seconds)) + unit_of(seconds),
        2 * (seconds % span_of(seconds)) == span_of(seconds) ==> uptime_text(seconds)
            == tenths_text(seconds / span_of(seconds)) + unit_of(seconds) || uptime_text(seconds)
            == tenths_text(seconds / span_of(seconds) + 1) + unit_of(seconds),
{
    lemma_uptime_unit(seconds);
    lemma_uptime_figure(seconds);
}

} // verus!
