//! The uptime as text: minutes below a hundred minutes, hours below a day, days from
//! there on, each with one decimal place.
//!
//! The figures are those of double-precision arithmetic: the seconds are taken to the
//! nearest double, each division gives the double nearest to the exact quotient, and the
//! decimal place is the one nearest to the double's exact value. Doubles are modelled
//! here as a significand and a binary exponent, so that no floating-point number is
//! needed to compute or to state the result.

use vstd::prelude::*;
use crate::text::{decimal, digit, push_decimal};

verus! {

/// A double that is zero or positive: the number `significand * 2^exponent`. The
/// significand is zero, or at least two to the 52nd (`0x10_0000_0000_0000`) and below
/// two to the 53rd (`0x20_0000_0000_0000`).
pub struct Binary64 {
    pub significand: nat,
    pub exponent: int,
}

/// Two to the power `k`.
pub open spec fn two_to(k: nat) -> nat
    decreases k,
{
    if k == 0 {
        1
    } else {
        2 * two_to((k - 1) as nat)
    }
}

/// The whole number nearest to `n / d`; of two that are equally near, the even one.
pub open spec fn round_half_even(n: nat, d: nat) -> nat
    recommends
        d > 0,
{
    let q = n / d;
    let r = n % d;
    if 2 * r < d || (2 * r == d && q % 2 == 0) {
        q
    } else {
        q + 1
    }
}

/// `x` times two to the power `k`.
pub open spec fn scaled(x: Binary64, k: int) -> Binary64 {
    Binary64 { significand: x.significand, exponent: x.exponent + k }
}

/// The double nearest to `n / d`; of two that are equally near, the one with the even
/// significand.
pub open spec fn nearest(n: nat, d: nat) -> Binary64
    recommends
        d > 0,
    decreases
        (if n >= d * 0x20_0000_0000_0000 {
            n - d * 0x10_0000_0000_0000
        } else if n < d * 0x10_0000_0000_0000 {
            d * 0x10_0000_0000_0000 - n
        } else {
            0
        }),
{
    if n == 0 || d == 0 {
        Binary64 { significand: 0, exponent: 0 }
    } else if n >= d * 0x20_0000_0000_0000 {
        scaled(nearest(n, 2 * d), 1)
    } else if n < d * 0x10_0000_0000_0000 {
        scaled(nearest(2 * n, d), -1)
    } else {
        let m = round_half_even(n, d);
        if m == 0x20_0000_0000_0000 {
            Binary64 { significand: 0x10_0000_0000_0000, exponent: 1 }
        } else {
            Binary64 { significand: m, exponent: 0 }
        }
    }
}

/// The double nearest to `x / c`.
pub open spec fn divided(x: Binary64, c: nat) -> Binary64 {
    scaled(nearest(x.significand, c), x.exponent)
}

/// Whether `x` is less than the whole number `k`.
pub open spec fn below(x: Binary64, k: nat) -> bool {
    if x.exponent >= 0 {
        x.significand * two_to(x.exponent as nat) < k
    } else {
        x.significand < k * two_to((-x.exponent) as nat)
    }
}

/// The whole number of tenths nearest to `x`; of two that are equally near, the even one.
pub open spec fn tenths(x: Binary64) -> nat {
    if x.exponent >= 0 {
        10 * x.significand * two_to(x.exponent as nat)
    } else {
        round_half_even(10 * x.significand, two_to((-x.exponent) as nat))
    }
}

/// `t` tenths in decimal digits: the whole part, a point and one decimal place.
pub open spec fn tenths_text(t: nat) -> Seq<char> {
    decimal(t / 10) + seq!['.', digit(t % 10)]
}

/// `x` in decimal digits with one decimal place.
pub open spec fn one_decimal(x: Binary64) -> Seq<char> {
    tenths_text(tenths(x))
}

/// The minutes in `seconds`: the double nearest to a sixtieth of the double nearest to
/// `seconds`.
pub open spec fn minutes_of(seconds: nat) -> Binary64 {
    divided(nearest(seconds, 1), 60)
}

/// The hours in `seconds`: the double nearest to a sixtieth of the minutes.
pub open spec fn hours_of(seconds: nat) -> Binary64 {
    divided(minutes_of(seconds), 60)
}

/// The days in `seconds`: the double nearest to a twenty-fourth of the hours.
pub open spec fn days_of(seconds: nat) -> Binary64 {
    divided(hours_of(seconds), 24)
}

/// The text for an uptime of `seconds`.
pub open spec fn uptime_text(seconds: nat) -> Seq<char> {
    if below(minutes_of(seconds), 100) {
        one_decimal(minutes_of(seconds)) + " minutes"@
    } else if below(hours_of(seconds), 24) {
        one_decimal(hours_of(seconds)) + " hours"@
    } else {
        one_decimal(days_of(seconds)) + " days"@
    }
}

/// Powers of two grow with the exponent.
pub proof fn lemma_two_to_grows(j: nat, k: nat)
    requires
        j <= k,
    ensures
        two_to(j) <= two_to(k),
        two_to(j) > 0,
    decreases k,
{
    if j < k {
        lemma_two_to_grows(j, (k - 1) as nat);
    } else if k > 0 {
        lemma_two_to_grows((j - 1) as nat, (k - 1) as nat);
    }
}

/// Some powers of two, written out.
pub proof fn lemma_two_to_values()
    ensures
        two_to(6) == 0x40,
        two_to(11) == 0x800,
        two_to(12) == 0x1000,
        two_to(52) == 0x10_0000_0000_0000,
        two_to(58) == 0x400_0000_0000_0000,
        two_to(80) == 0x1_0000_0000_0000_0000_0000,
{
    reveal_with_fuel(two_to, 13);
    assert(two_to(12) == 0x1000);
    assert(two_to(24) == 0x100_0000) by {
        lemma_two_to_shift(12, 12);
    }
    assert(two_to(48) == 0x1_0000_0000_0000) by {
        lemma_two_to_shift(24, 24);
    }
    assert(two_to(52) == 0x10_0000_0000_0000) by {
        lemma_two_to_shift(48, 4);
    }
    assert(two_to(58) == 0x400_0000_0000_0000) by {
        lemma_two_to_shift(52, 6);
    }
    assert(two_to(80) == 0x1_0000_0000_0000_0000_0000) by {
        lemma_two_to_shift(58, 12);
        lemma_two_to_shift(70, 10);
    }
}

/// Exponents add up.
pub proof fn lemma_two_to_shift(j: nat, k: nat)
    ensures
        two_to(j + k) == two_to(j) * two_to(k),
    decreases k,
{
    if k > 0 {
        lemma_two_to_shift(j, (k - 1) as nat);
        assert((j + k - 1) as nat == j + (k - 1) as nat);
        assert(two_to(j + k) == 2 * two_to((j + k - 1) as nat));
        assert(two_to(j) * (2 * two_to((k - 1) as nat)) == 2 * (two_to(j) * two_to((k - 1) as nat)))
            by (nonlinear_arith);
    } else {
        assert(two_to(j) * 1 == two_to(j)) by (nonlinear_arith);
    }
}

/// A double as it is held while computing.
struct Double {
    significand: u64,
    exponent: i32,
}

impl Double {
    spec fn model(self) -> Binary64 {
        Binary64 { significand: self.significand as nat, exponent: self.exponent as int }
    }

    /// Whether the value is zero or a normal double whose exponent is in the range that
    /// uptimes reach.
    spec fn wf(self) -> bool {
        &&& self.significand == 0 || 0x10_0000_0000_0000 <= self.significand < 0x20_0000_0000_0000
        &&& self.significand == 0 ==> self.exponent == 0
        &&& -80 <= self.exponent <= 40
    }
}

/// Two to the power `k`.
fn power_of_two(k: u32) -> (p: u128)
    requires
        k <= 80,
    ensures
        p == two_to(k as nat),
        0 < p <= 0x1_0000_0000_0000_0000_0000,
{
    let mut p: u128 = 1;
    let mut i: u32 = 0;
    proof {
        lemma_two_to_values();
        lemma_two_to_grows(0, 80);
    }
    while i < k
        invariant
            i <= k <= 80,
            p == two_to(i as nat),
            two_to(80) == 0x1_0000_0000_0000_0000_0000,
        decreases k - i,
    {
        proof {
            lemma_two_to_grows((i + 1) as nat, 80);
        }
        p = p * 2;
        i = i + 1;
    }
    proof {
        lemma_two_to_grows(k as nat, 80);
    }
    p
}

/// The whole number nearest to `n / d`; of two that are equally near, the even one.
fn nearest_whole(n: u128, d: u128) -> (m: u128)
    requires
        d > 0,
        n < 0x1_0000_0000_0000_0000_0000,
    ensures
        m == round_half_even(n as nat, d as nat),
{
    let q = n / d;
    let r = n % d;
    if r < d - r || (r == d - r && q % 2 == 0) {
        q
    } else {
        q + 1
    }
}

/// The double nearest to `n / d`.
fn nearest_double(n: u128, d: u128) -> (x: Double)
    requires
        0 < d <= 64,
        n < 0x1_0000_0000_0000_0000,
    ensures
        x.model() == nearest(n as nat, d as nat),
        x.wf(),
        n > 0 ==> -58 <= x.exponent <= 12 && x.significand > 0,
        n >= 0x10_0000_0000_0000 ==> x.exponent >= -6,
        n < 0x20_0000_0000_0000 ==> x.exponent <= 0,
        d == 1 ==> x.exponent >= -52,
{
    if n == 0 {
        return Double { significand: 0, exponent: 0 };
    }
    let mut num: u128 = n;
    let mut den: u128 = d;
    let mut up: i32 = 0;
    proof {
        lemma_two_to_values();
    }
    while num >= den * 0x20_0000_0000_0000
        invariant
            num == n,
            0 < n < 0x1_0000_0000_0000_0000,
            0 < den <= 0x1000,
            0 <= up <= 11,
            two_to(up as nat) <= den,
            up == 0 ==> den == d,
            up > 0 ==> num >= den * 0x10_0000_0000_0000 && n >= 0x20_0000_0000_0000,
            two_to(11) == 0x800,
            nearest(n as nat, d as nat) == scaled(nearest(num as nat, den as nat), up as int),
        decreases 11 - up,
    {
        proof {
            if up >= 11 {
                lemma_two_to_grows(11, up as nat);
            }
        }
        den = den * 2;
        up = up + 1;
    }
    let mut down: i32 = 0;
    while num < den * 0x10_0000_0000_0000
        invariant
            0 < num < den * 0x20_0000_0000_0000,
            0 < den <= 0x1000,
            0 <= up <= 11,
            0 <= down <= 58,
            up > 0 ==> down == 0 && num >= den * 0x10_0000_0000_0000 && n
                >= 0x20_0000_0000_0000,
            up == 0 ==> den == d,
            down == 0 ==> num == n,
            0 < d <= 64,
            two_to(down as nat) <= num,
            n >= 0x10_0000_0000_0000 ==> 0x10_0000_0000_0000 * two_to(down as nat) <= num,
            two_to(6) == 0x40,
            two_to(52) == 0x10_0000_0000_0000,
            two_to(58) == 0x400_0000_0000_0000,
            nearest(n as nat, d as nat) == scaled(
                nearest(num as nat, den as nat),
                up as int - down as int,
            ),
        decreases 58 - down,
    {
        proof {
            if down >= 58 {
                lemma_two_to_grows(58, down as nat);
            }
            if n >= 0x10_0000_0000_0000 && down >= 6 {
                lemma_two_to_grows(6, down as nat);
            }
            if d == 1 && down >= 52 {
                lemma_two_to_grows(52, down as nat);
            }
        }
        num = num * 2;
        down = down + 1;
    }
    proof {
        if n >= 0x10_0000_0000_0000 && down > 6 {
            lemma_two_to_grows(7, down as nat);
            reveal_with_fuel(two_to, 8);
        }
        if d == 1 && down > 52 {
            lemma_two_to_grows(53, down as nat);
            assert(two_to(53) == 2 * two_to(52));
        }
    }
    let m = nearest_whole(num, den);
    let ghost q = num / den;
    assert(0x10_0000_0000_0000 <= q < 0x20_0000_0000_0000) by (nonlinear_arith)
        requires
            den > 0,
            den * 0x10_0000_0000_0000 <= num < den * 0x20_0000_0000_0000,
            q == num / den,
    ;
    let exponent: i32 = up - down;
    if m == 0x20_0000_0000_0000 {
        Double { significand: 0x10_0000_0000_0000, exponent: exponent + 1 }
    } else {
        Double { significand: m as u64, exponent }
    }
}

/// The double nearest to `x / c`.
fn divide(x: &Double, c: u128) -> (y: Double)
    requires
        x.wf(),
        -70 <= x.exponent <= 30,
        0 < c <= 64,
    ensures
        y.model() == divided(x.model(), c as nat),
        y.wf(),
        x.exponent - 6 <= y.exponent <= x.exponent,
{
    let part = nearest_double(x.significand as u128, c);
    if x.significand == 0 {
        Double { significand: 0, exponent: 0 }
    } else {
        Double { significand: part.significand, exponent: part.exponent + x.exponent }
    }
}

/// Whether `x` is less than `k`.
fn is_below(x: &Double, k: u128) -> (r: bool)
    requires
        x.wf(),
        k <= 100,
    ensures
        r == below(x.model(), k as nat),
{
    if x.exponent >= 0 {
        let unit = power_of_two(x.exponent as u32);
        proof {
            lemma_two_to_values();
            lemma_two_to_grows(x.exponent as nat, 40);
            lemma_two_to_grows(40, 80);
            lemma_two_to_shift(12, 12);
            lemma_two_to_shift(24, 16);
            reveal_with_fuel(two_to, 17);
            assert(x.significand as u128 * unit <= 0x20_0000_0000_0000 * 0x100_0000_0000)
                by (nonlinear_arith)
                requires
                    x.significand < 0x20_0000_0000_0000,
                    unit <= 0x100_0000_0000,
            ;
        }
        (x.significand as u128) * unit < k
    } else {
        let unit = power_of_two((-x.exponent) as u32);
        assert(k * unit <= 100 * 0x1_0000_0000_0000_0000_0000) by (nonlinear_arith)
            requires
                k <= 100,
                unit <= 0x1_0000_0000_0000_0000_0000,
        ;
        (x.significand as u128) < k * unit
    }
}

/// The whole number of tenths nearest to `x`.
fn tenths_of(x: &Double) -> (t: u128)
    requires
        x.wf(),
        x.exponent <= 12,
    ensures
        t == tenths(x.model()),
{
    if x.exponent >= 0 {
        let unit = power_of_two(x.exponent as u32);
        proof {
            lemma_two_to_values();
            lemma_two_to_grows(x.exponent as nat, 12);
            assert(10 * x.significand as u128 * unit <= 10 * 0x20_0000_0000_0000 * 0x1000)
                by (nonlinear_arith)
                requires
                    x.significand < 0x20_0000_0000_0000,
                    unit <= 0x1000,
            ;
        }
        10 * (x.significand as u128) * unit
    } else {
        let unit = power_of_two((-x.exponent) as u32);
        nearest_whole(10 * (x.significand as u128), unit)
    }
}

/// `x` with one decimal place, followed by `unit`.
fn render(x: &Double, unit: &str) -> (text: String)
    requires
        x.wf(),
        x.exponent <= 12,
    ensures
        text@ == one_decimal(x.model()) + unit@,
{
    let t = tenths_of(x);
    let mut text = String::new();
    push_decimal(&mut text, t / 10);
    text.push('.');
    let d: u8 = (t % 10) as u8;
    text.push((0x30u8 + d) as char);
    text.append(unit);
    assert(text@ =~= one_decimal(x.model()) + unit@);
    text
}

/// The uptime of `uptime` seconds as text: in minutes while they are fewer than a
/// hundred, else in hours while they are fewer than twenty-four, else in days.
pub fn format_uptime(uptime: u64) -> (text: String)
    ensures
        text@ == uptime_text(uptime as nat),
{
    let seconds = nearest_double(uptime as u128, 1);
    let minutes = divide(&seconds, 60);
    if is_below(&minutes, 100) {
        return render(&minutes, " minutes");
    }
    let hours = divide(&minutes, 60);
    if is_below(&hours, 24) {
        return render(&hours, " hours");
    }
    let days = divide(&hours, 24);
    render(&days, " days")
}

} // verus!
