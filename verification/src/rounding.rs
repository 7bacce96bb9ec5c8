//! Rounding to a binary precision, the way IEEE-754 arithmetic rounds: to the nearest number with `p` significant
//! bits, ties to the one whose last bit is even; and then, where a whole number is wanted, to the nearest whole
//! number, halves going away from zero, as `round` does.
//!
//! A positive quotient `a / b` rounds to `m * 2^k`, where `m` has `p` bits, or is `2^p` when the rounding carries out
//! of the top bit. The exponent is unbounded here; every quantity the pipeline rounds stays inside the normal range of
//! its format, except where only its side of a threshold is asked.

use vstd::prelude::*;
use vstd::arithmetic::div_mod::lemma_fundamental_div_mod;
use vstd::arithmetic::power2::{
    lemma2_to64, lemma2_to64_rest, lemma_pow2_adds, lemma_pow2_pos, lemma_pow2_strictly_increases, lemma_pow2_unfold,
    pow2,
};

verus! {

/// The largest `e` with `b * 2^e <= a`, for `a >= b >= 1`: where the leading bit of `a / b` sits.
pub open spec fn exponent_of(a: nat, b: nat) -> nat
    decreases a - b,
{
    if b == 0 || 2 * b > a {
        0
    } else {
        1 + exponent_of(a, 2 * b)
    }
}

/// `q` with the remainder `r` out of `d` rounded off: up past the half, and at the half up only when `q` is odd.
pub open spec fn round_even(q: nat, r: nat, d: nat) -> nat {
    if 2 * r > d || (2 * r == d && q % 2 == 1) {
        q + 1
    } else {
        q
    }
}

/// The power of two the rounded `a / b` is a multiple of, when it keeps `p` significant bits.
pub open spec fn rne_scale(a: nat, b: nat, p: nat) -> int {
    exponent_of(a, b) - (p - 1)
}

/// The mantissa of `a / b` rounded to `p` significant bits, ties to even: the rounded value is this times
/// `2^rne_scale(a, b, p)`.
pub open spec fn rne_mantissa(a: nat, b: nat, p: nat) -> nat {
    let e = exponent_of(a, b);
    if e >= p - 1 {
        let d = b * pow2((e - (p - 1)) as nat);
        round_even(a / d, a % d, d)
    } else {
        let t = a * pow2(((p - 1) - e) as nat);
        round_even(t / b, t % b, b)
    }
}

/// `m * 2^k` rounded to the nearest whole number, halves away from zero.
pub open spec fn nearest_whole(m: nat, k: int) -> nat {
    if k >= 0 {
        m * pow2(k as nat)
    } else {
        (2 * m + pow2((-k) as nat)) / pow2((1 - k) as nat)
    }
}

/// `2^100`, the ceiling every quantity here stays under.
pub proof fn lemma_pow2_100()
    ensures
        pow2(100) == 0x10_0000_0000_0000_0000_0000_0000,
{
    lemma2_to64();
    lemma2_to64_rest();
    lemma_pow2_adds(64, 36);
    assert(pow2(100) == pow2(64) * pow2(36));
}

/// Powers of two never shrink as the exponent grows.
pub proof fn lemma_pow2_grows(e1: nat, e2: nat)
    requires
        e1 <= e2,
    ensures
        pow2(e1) <= pow2(e2),
{
    if e1 < e2 {
        lemma_pow2_strictly_increases(e1, e2);
    }
}

/// The leading bit of `a / b` is where [`exponent_of`] says.
pub proof fn lemma_exponent_bounds(a: nat, b: nat)
    requires
        1 <= b <= a,
    ensures
        b * pow2(exponent_of(a, b)) <= a,
        a < b * pow2(exponent_of(a, b) + 1),
    decreases a - b,
{
    lemma2_to64();
    if 2 * b > a {
        assert(exponent_of(a, b) == 0);
        assert(b * pow2(1) == 2 * b);
        assert(b * pow2(0) == b);
    } else {
        lemma_exponent_bounds(a, 2 * b);
        let e = exponent_of(a, 2 * b);
        assert(exponent_of(a, b) == e + 1);
        lemma_pow2_unfold(e + 1);
        lemma_pow2_unfold(e + 2);
        assert(b * pow2(e + 1) == 2 * b * pow2(e)) by (nonlinear_arith)
            requires
                pow2(e + 1) == 2 * pow2(e),
        ;
        assert(b * pow2(e + 2) == 2 * b * pow2(e + 1)) by (nonlinear_arith)
            requires
                pow2(e + 2) == 2 * pow2(e + 1),
        ;
    }
}

/// Only one exponent puts `a / b` in `[2^e, 2^(e + 1))`.
pub proof fn lemma_exponent_unique(a: nat, b: nat, e: nat)
    requires
        1 <= b,
        b * pow2(e) <= a,
        a < b * pow2(e + 1),
    ensures
        exponent_of(a, b) == e,
{
    lemma_pow2_pos(e);
    assert(b <= a) by (nonlinear_arith)
        requires
            b * pow2(e) <= a,
            pow2(e) >= 1,
            b >= 1,
    ;
    lemma_exponent_bounds(a, b);
    let f = exponent_of(a, b);
    if f < e {
        lemma_pow2_grows(f + 1, e);
        assert(b * pow2(f + 1) <= b * pow2(e)) by (nonlinear_arith)
            requires
                pow2(f + 1) <= pow2(e),
        ;
    } else if f > e {
        lemma_pow2_grows(e + 1, f);
        assert(b * pow2(e + 1) <= b * pow2(f)) by (nonlinear_arith)
            requires
                pow2(e + 1) <= pow2(f),
        ;
    }
}

/// A rounded mantissa has its `p` bits: it lies in `[2^(p - 1), 2^p]`.
pub proof fn lemma_mantissa_bounds(a: nat, b: nat, p: nat)
    requires
        1 <= b <= a,
        p >= 1,
    ensures
        pow2((p - 1) as nat) <= rne_mantissa(a, b, p) <= pow2(p),
{
    lemma_exponent_bounds(a, b);
    let e = exponent_of(a, b);
    let top = (p - 1) as nat;
    lemma_pow2_unfold(p);
    assert(pow2(p) == 2 * pow2(top));
    if e >= top {
        let s = (e - top) as nat;
        let d = b * pow2(s);
        lemma_pow2_adds(s, top);
        lemma_pow2_adds(s, p);
        lemma_pow2_pos(s);
        assert(s + top == e && s + p == e + 1);
        assert(d * pow2(top) == b * pow2(e)) by (nonlinear_arith)
            requires
                d == b * pow2(s),
                pow2(e) == pow2(s) * pow2(top),
        ;
        assert(d * pow2(p) == b * pow2(e + 1)) by (nonlinear_arith)
            requires
                d == b * pow2(s),
                pow2(e + 1) == pow2(s) * pow2(p),
        ;
        assert(d > 0) by (nonlinear_arith)
            requires
                d == b * pow2(s),
                b >= 1,
                pow2(s) > 0,
        ;
        assert(pow2(top) <= a / d < pow2(p)) by (nonlinear_arith)
            requires
                d > 0,
                d * pow2(top) <= a,
                a < d * pow2(p),
        ;
    } else {
        let s = (top - e) as nat;
        let t = a * pow2(s);
        lemma_pow2_adds(e, s);
        lemma_pow2_adds(e + 1, s);
        assert(e + s == top && e + 1 + s == p);
        assert(b * pow2(top) <= t) by (nonlinear_arith)
            requires
                t == a * pow2(s),
                b * pow2(e) <= a,
                pow2(top) == pow2(e) * pow2(s),
        ;
        lemma_pow2_pos(s);
        assert(t < b * pow2(p)) by (nonlinear_arith)
            requires
                t == a * pow2(s),
                a < b * pow2(e + 1),
                pow2(p) == pow2(e + 1) * pow2(s),
                pow2(s) > 0,
        ;
        assert(pow2(top) <= t / b < pow2(p)) by (nonlinear_arith)
            requires
                b > 0,
                b * pow2(top) <= t,
                t < b * pow2(p),
        ;
    }
}

/// `a / b` below `2^n` has its leading bit below `n`.
pub proof fn lemma_exponent_below(a: nat, b: nat, n: nat)
    requires
        1 <= b <= a,
        a < pow2(n),
    ensures
        exponent_of(a, b) < n,
{
    lemma_exponent_bounds(a, b);
    let e = exponent_of(a, b);
    lemma_pow2_pos(e);
    assert(pow2(e) <= b * pow2(e)) by (nonlinear_arith)
        requires
            b >= 1,
            pow2(e) > 0,
    ;
    if e >= n {
        lemma_pow2_grows(n, e);
    }
}

/// A value rounded to `p` bits whose leading bit was at `e` is at most `2^(e + 1)`, and so is its nearest whole
/// number.
pub proof fn lemma_whole_at_most(m: nat, p: nat, e: nat)
    requires
        p >= 1,
        m <= pow2(p),
    ensures
        nearest_whole(m, e - (p - 1)) <= pow2(e + 1),
{
    let k = e - (p - 1);
    if k >= 0 {
        lemma_pow2_adds(p, k as nat);
        assert(p + k == e + 1);
        assert(m * pow2(k as nat) <= pow2(p) * pow2(k as nat)) by (nonlinear_arith)
            requires
                m <= pow2(p),
        ;
    } else {
        let j = (-k) as nat;
        assert(p == e + 1 + j);
        assert(1 - k == j + 1);
        lemma_pow2_adds(e + 1, j);
        lemma_pow2_unfold(j + 1);
        lemma_pow2_pos(j);
        let big = pow2(e + 1);
        assert((2 * m + pow2(j)) / pow2(j + 1) <= big) by (nonlinear_arith)
            requires
                m <= big * pow2(j),
                pow2(j + 1) == 2 * pow2(j),
                pow2(j) > 0,
        {
            assert(2 * m + pow2(j) < (big + 1) * pow2(j + 1));
        }
    }
}

/// A quotient below `2^p`, rounded to `p` bits and then to a whole number, lands within one of where it was:
/// `|b * n - a| <= b`.
pub proof fn lemma_whole_within_one(a: nat, b: nat, p: nat)
    requires
        1 <= b <= a,
        p >= 1,
        exponent_of(a, b) < p,
    ensures
        ({
            let n = nearest_whole(rne_mantissa(a, b, p), rne_scale(a, b, p));
            -(b as int) <= b * n - a <= b
        }),
{
    let e = exponent_of(a, b);
    let j = ((p - 1) - e) as nat;
    let big = pow2(j);
    let t = a * big;
    let q = t / b;
    let r = t % b;
    let m = rne_mantissa(a, b, p);
    lemma2_to64();
    if e == p - 1 {
        assert(j == 0);
        assert(big == 1);
        assert(t == a) by (nonlinear_arith)
            requires
                t == a * big,
                big == 1,
        ;
        assert(b * pow2(0) == b) by (nonlinear_arith)
            requires
                pow2(0) == 1,
        ;
    }
    assert(m == round_even(q, r, b));
    lemma_fundamental_div_mod(t as int, b as int);
    if 2 * r > b || (2 * r == b && q % 2 == 1) {
        assert(m == q + 1);
        assert(b * m - t == b - r) by (nonlinear_arith)
            requires
                m == q + 1,
                t == b * q + r,
        ;
    } else {
        assert(m == q);
        assert(b * m - t == -r) by (nonlinear_arith)
            requires
                m == q,
                t == b * q + r,
        ;
    }
    assert(-(b as int) <= 2 * (b * m - t) <= b);
    lemma_pow2_unfold(j + 1);
    lemma_pow2_pos(j);
    let unit = pow2(j + 1);
    assert(rne_scale(a, b, p) == -(j as int));
    assert(1 - rne_scale(a, b, p) == j + 1);
    let n = (2 * m + big) / unit;
    if j == 0 {
        assert(big == 1 && unit == 2);
        assert((2 * m + 1) / 2 == m);
        assert(m * pow2(0) == m);
    }
    assert(nearest_whole(m, rne_scale(a, b, p)) == n);
    lemma_fundamental_div_mod((2 * m + big) as int, unit as int);
    let rest = (2 * m + big) % unit;
    assert(-(big as int) < unit * n - 2 * m <= big) by (nonlinear_arith)
        requires
            2 * m + big == unit * n + rest,
            0 <= rest < unit,
            unit == 2 * big,
    ;
    assert(-(b * big) <= b * (unit * n - 2 * m) <= b * big) by (nonlinear_arith)
        requires
            -(big as int) < unit * n - 2 * m <= big,
            b >= 1,
    ;
    assert(unit * (b * n - a) == b * (unit * n - 2 * m) + 2 * (b * m - t)) by (nonlinear_arith)
        requires
            t == a * big,
            unit == 2 * big,
    ;
    assert(-(b as int) <= b * n - a <= b) by (nonlinear_arith)
        requires
            unit * (b * n - a) == b * (unit * n - 2 * m) + 2 * (b * m - t),
            -(b * big) <= b * (unit * n - 2 * m) <= b * big,
            -(b as int) <= 2 * (b * m - t) <= b,
            unit == 2 * big,
            big >= 1,
            b >= 1,
    ;
}

/// `2^n`, for `n` up to 100.
pub fn power_of_two(n: u32) -> (power: u128)
    requires
        n <= 100,
    ensures
        power == pow2(n as nat),
{
    proof {
        lemma2_to64();
        lemma_pow2_100();
    }
    let mut power: u128 = 1;
    let mut i: u32 = 0;
    while i < n
        invariant
            i <= n <= 100,
            power == pow2(i as nat),
            pow2(100) == 0x10_0000_0000_0000_0000_0000_0000,
        decreases n - i,
    {
        proof {
            lemma_pow2_unfold((i + 1) as nat);
            lemma_pow2_grows((i + 1) as nat, 100);
        }
        power = power * 2;
        i = i + 1;
    }
    power
}

/// `a / b` rounded to `p` significant bits, ties to even, as its mantissa and the power of two it is scaled by.
pub fn rne(a: u128, b: u128, p: u32) -> (rounded: (u128, i32))
    requires
        1 <= b <= a,
        a < pow2(100),
        b * pow2(p as nat) < pow2(100),
        1 <= p <= 60,
    ensures
        rounded.0 == rne_mantissa(a as nat, b as nat, p as nat),
        rounded.1 == rne_scale(a as nat, b as nat, p as nat),
{
    proof {
        lemma2_to64();
        lemma_pow2_100();
        lemma_exponent_bounds(a as nat, b as nat);
    }
    let mut e: u32 = 0;
    let mut d: u128 = b;
    while d <= a / 2
        invariant
            1 <= b <= d <= a,
            a < pow2(100),
            pow2(100) == 0x10_0000_0000_0000_0000_0000_0000,
            d == b * pow2(e as nat),
            e < 100,
            exponent_of(a as nat, b as nat) == e + exponent_of(a as nat, d as nat),
        decreases a - d,
    {
        proof {
            lemma_pow2_unfold((e + 1) as nat);
            assert(2 * d == b * pow2((e + 1) as nat)) by (nonlinear_arith)
                requires
                    d == b * pow2(e as nat),
                    pow2((e + 1) as nat) == 2 * pow2(e as nat),
            ;
            assert(pow2((e + 1) as nat) <= 2 * d) by (nonlinear_arith)
                requires
                    2 * d == b * pow2((e + 1) as nat),
                    b >= 1,
                    pow2((e + 1) as nat) >= 0,
            ;
            if e + 1 >= 100 {
                lemma_pow2_grows(100, (e + 1) as nat);
            }
            assert(exponent_of(a as nat, d as nat) == 1 + exponent_of(a as nat, 2 * d as nat));
        }
        d = d * 2;
        e = e + 1;
    }
    assert(exponent_of(a as nat, d as nat) == 0);
    let top: u32 = p - 1;
    let ghost ex = exponent_of(a as nat, b as nat);
    assert(ex == e);
    let q: u128;
    let r: u128;
    let div: u128;
    if e >= top {
        let s = e - top;
        let power = power_of_two(s);
        proof {
            lemma_pow2_grows(s as nat, e as nat);
            assert(b * power <= d) by (nonlinear_arith)
                requires
                    power <= pow2(e as nat),
                    d == b * pow2(e as nat),
            ;
            lemma_pow2_pos(s as nat);
            assert(b * power >= 1) by (nonlinear_arith)
                requires
                    power >= 1,
                    b >= 1,
            ;
        }
        div = b * power;
        q = a / div;
        r = a % div;
    } else {
        let s = top - e;
        let power = power_of_two(s);
        proof {
            lemma_pow2_adds((e + 1) as nat, s as nat);
            assert(e + 1 + s == p);
            lemma_pow2_pos(s as nat);
            assert(a * power < b * pow2(p as nat)) by (nonlinear_arith)
                requires
                    a < b * pow2((e + 1) as nat),
                    pow2(p as nat) == pow2((e + 1) as nat) * power,
                    power > 0,
            ;
        }
        let t = a * power;
        div = b;
        q = t / b;
        r = t % b;
    }
    proof {
        lemma_mantissa_bounds(a as nat, b as nat, p as nat);
    }
    let m = if 2 * r > div || (2 * r == div && q % 2 == 1) {
        q + 1
    } else {
        q
    };
    (m, e as i32 - top as i32)
}

/// `m * 2^k` rounded to the nearest whole number, halves away from zero, where that stays under `2^100`.
pub fn whole(m: u128, k: i32) -> (n: u128)
    requires
        m <= pow2(60),
        -60 <= k <= 40,
    ensures
        n == nearest_whole(m as nat, k as int),
{
    proof {
        lemma_pow2_100();
    }
    if k >= 0 {
        let power = power_of_two(k as u32);
        proof {
            lemma_pow2_adds(60, k as nat);
            lemma_pow2_grows((60 + k) as nat, 100);
            assert(m * power <= pow2(60) * pow2(k as nat)) by (nonlinear_arith)
                requires
                    m <= pow2(60),
                    power == pow2(k as nat),
            ;
        }
        m * power
    } else {
        let j = (-k) as u32;
        let half = power_of_two(j);
        let unit = power_of_two(j + 1);
        proof {
            lemma_pow2_grows(j as nat, 60);
            lemma_pow2_grows(60, 62);
            lemma_pow2_grows(62, 100);
            lemma_pow2_unfold(61);
            lemma_pow2_unfold(62);
            lemma_pow2_pos((j + 1) as nat);
        }
        (2 * m + half) / unit
    }
}

} // verus!
