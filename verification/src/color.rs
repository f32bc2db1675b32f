//! The colour of a pixel, from the step at which its orbit escaped.
//!
//! With `t = i / max_iter` the escape fraction, a channel is the integer part
//! of 255 times a rational power of `t`. Such a value is pinned down by two
//! inequalities between products of integer powers, and it is computed from
//! those inequalities alone, so that no rounding enters.

use crate::wide::{
    lemma_power_monotone, lemma_power_positive, lemma_power_strictly_monotone, power,
    power_product,
};
use vstd::prelude::*;

verus! {

/// A pixel: red, green and blue.
#[derive(Clone, Copy, Debug, PartialEq, Eq, Structural)]
pub struct Rgb {
    pub r: u8,
    pub g: u8,
    pub b: u8,
}

/// How an escape fraction becomes a colour.
#[derive(Clone, Copy, Debug, PartialEq, Eq, Structural)]
pub enum ColorScheme {
    BlackAndWhite,
    Rainbow,
    Grayscale,
}

/// The colour of a point that never escaped.
pub open spec fn black() -> Rgb {
    Rgb { r: 0, g: 0, b: 0 }
}

/// The grey of one intensity.
pub open spec fn gray(v: u8) -> Rgb {
    Rgb { r: v, g: v, b: v }
}

/// `k <= 255 * (i / max)^(p / q)`, cleared of roots and fractions.
pub open spec fn at_or_below_curve(k: nat, i: nat, max: nat, p: nat, q: nat) -> bool {
    power(k, q) * power(max, p) <= power(255, q) * power(i, p)
}

/// `k >= 255 * (i / max)^(p / q)`, cleared of roots and fractions.
pub open spec fn at_or_above_curve(k: nat, i: nat, max: nat, p: nat, q: nat) -> bool {
    power(255, q) * power(i, p) <= power(k, q) * power(max, p)
}

/// `k` is the integer part of `255 * (i / max)^(p / q)`.
pub open spec fn is_curve_floor(k: nat, i: nat, max: nat, p: nat, q: nat) -> bool {
    at_or_below_curve(k, i, max, p, q) && !at_or_below_curve(k + 1, i, max, p, q)
}

/// `k` is `255 * (i / max)^(p / q)` rounded up to an integer.
pub open spec fn is_curve_ceiling(k: nat, i: nat, max: nat, p: nat, q: nat) -> bool {
    at_or_above_curve(k, i, max, p, q) && (k == 0 || !at_or_above_curve(
        (k - 1) as nat,
        i,
        max,
        p,
        q,
    ))
}

/// The integer part of `255 * (i / max)^(p / q)`.
pub open spec fn curve_floor(i: nat, max: nat, p: nat, q: nat) -> nat {
    choose|k: nat| is_curve_floor(k, i, max, p, q)
}

/// `255 * (i / max)^(p / q)` rounded up to an integer.
pub open spec fn curve_ceiling(i: nat, max: nat, p: nat, q: nat) -> nat {
    choose|k: nat| is_curve_ceiling(k, i, max, p, q)
}

/// The intensity of the grey schemes: the integer part of `255 * i / max_iter`.
pub open spec fn gray_level(i: nat, max_iter: nat) -> nat {
    (255 * i) / max_iter
}

/// The colour of a pixel whose orbit made `i` steps under the bound `max_iter`.
///
/// At `i == max_iter` it is black under every scheme. Below, with
/// `t = i / max_iter`: the rainbow has red `t^0.3`, green `t^0.5` and blue
/// `1 - t^0.7`, the two grey schemes have `t` in all three channels, each
/// scaled by 255 and cut to its integer part. The integer part of
/// `255 * (1 - t^0.7)` is 255 less `255 * t^0.7` rounded up.
pub open spec fn color_of(i: nat, max_iter: nat, scheme: ColorScheme) -> Rgb {
    if i == max_iter {
        black()
    } else {
        match scheme {
            ColorScheme::Rainbow => Rgb {
                r: curve_floor(i, max_iter, 3, 10) as u8,
                g: curve_floor(i, max_iter, 1, 2) as u8,
                b: (255 - curve_ceiling(i, max_iter, 7, 10)) as u8,
            },
            ColorScheme::BlackAndWhite | ColorScheme::Grayscale => gray(
                gray_level(i, max_iter) as u8,
            ),
        }
    }
}

/// What lies at or below the curve stays so for every smaller level.
pub proof fn lemma_below_curve_downward(j: nat, k: nat, i: nat, max: nat, p: nat, q: nat)
    requires
        j <= k,
        at_or_below_curve(k, i, max, p, q),
    ensures
        at_or_below_curve(j, i, max, p, q),
{
    lemma_power_monotone(j, k, q);
    let a = power(j, q);
    let b = power(k, q);
    let m = power(max, p);
    assert(a * m <= b * m) by (nonlinear_arith)
        requires
            a <= b,
    ;
}

/// What lies at or above the curve stays so for every greater level.
pub proof fn lemma_above_curve_upward(j: nat, k: nat, i: nat, max: nat, p: nat, q: nat)
    requires
        j <= k,
        at_or_above_curve(j, i, max, p, q),
    ensures
        at_or_above_curve(k, i, max, p, q),
{
    lemma_power_monotone(j, k, q);
    let a = power(j, q);
    let b = power(k, q);
    let m = power(max, p);
    assert(a * m <= b * m) by (nonlinear_arith)
        requires
            a <= b,
    ;
}

/// Only one level is the integer part.
pub proof fn lemma_curve_floor_unique(k: nat, i: nat, max: nat, p: nat, q: nat)
    requires
        is_curve_floor(k, i, max, p, q),
    ensures
        curve_floor(i, max, p, q) == k,
{
    let j = curve_floor(i, max, p, q);
    assert(is_curve_floor(j, i, max, p, q));
    if j < k {
        lemma_below_curve_downward(j + 1, k, i, max, p, q);
    } else if k < j {
        lemma_below_curve_downward(k + 1, j, i, max, p, q);
    }
}

/// Only one level is the value rounded up.
pub proof fn lemma_curve_ceiling_unique(k: nat, i: nat, max: nat, p: nat, q: nat)
    requires
        is_curve_ceiling(k, i, max, p, q),
    ensures
        curve_ceiling(i, max, p, q) == k,
{
    let j = curve_ceiling(i, max, p, q);
    assert(is_curve_ceiling(j, i, max, p, q));
    if j < k {
        lemma_above_curve_upward(j, (k - 1) as nat, i, max, p, q);
    } else if k < j {
        lemma_above_curve_upward(k, (j - 1) as nat, i, max, p, q);
    }
}

/// Between a level at or below the curve and level 255 lies the integer part.
proof fn lemma_floor_from(k: nat, i: nat, max: nat, p: nat, q: nat)
    requires
        k < 255,
        at_or_below_curve(k, i, max, p, q),
        !at_or_below_curve(255, i, max, p, q),
    ensures
        exists|j: nat| j < 255 && is_curve_floor(j, i, max, p, q),
    decreases 255 - k,
{
    if at_or_below_curve(k + 1, i, max, p, q) {
        lemma_floor_from(k + 1, i, max, p, q);
    } else {
        assert(is_curve_floor(k, i, max, p, q));
    }
}

/// Between level zero and a level at or above the curve lies the value rounded up.
proof fn lemma_ceiling_down_to(k: nat, i: nat, max: nat, p: nat, q: nat)
    requires
        k <= 255,
        at_or_above_curve(k, i, max, p, q),
    ensures
        exists|j: nat| j <= 255 && is_curve_ceiling(j, i, max, p, q),
    decreases k,
{
    if k > 0 && at_or_above_curve((k - 1) as nat, i, max, p, q) {
        lemma_ceiling_down_to((k - 1) as nat, i, max, p, q);
    } else {
        assert(is_curve_ceiling(k, i, max, p, q));
    }
}

/// Every escape fraction below one has its levels: the integer part lies
/// below 255, and the value rounded up lies at or below it.
pub proof fn lemma_curve_levels_exist(i: nat, max: nat, p: nat, q: nat)
    requires
        i < max,
        p >= 1,
        q >= 1,
    ensures
        is_curve_floor(curve_floor(i, max, p, q), i, max, p, q),
        is_curve_ceiling(curve_ceiling(i, max, p, q), i, max, p, q),
        curve_floor(i, max, p, q) < 255,
        curve_ceiling(i, max, p, q) <= 255,
        curve_floor(i, max, p, q) <= curve_ceiling(i, max, p, q),
{
    lemma_zero_is_below(i, max, p, q);
    lemma_top_is_above(i, max, p, q);
    lemma_floor_from(0, i, max, p, q);
    lemma_ceiling_down_to(255, i, max, p, q);
    let f = choose|j: nat| j < 255 && is_curve_floor(j, i, max, p, q);
    let c = choose|j: nat| j <= 255 && is_curve_ceiling(j, i, max, p, q);
    lemma_curve_floor_unique(f, i, max, p, q);
    lemma_curve_ceiling_unique(c, i, max, p, q);
    if c < f {
        lemma_above_curve_upward(c, (f - 1) as nat, i, max, p, q);
        lemma_power_strictly_monotone((f - 1) as nat, f, q);
        lemma_power_positive(max, p);
        let a = power((f - 1) as nat, q);
        let b = power(f, q);
        let m = power(max, p);
        assert(a * m < b * m) by (nonlinear_arith)
            requires
                a < b,
                m > 0,
        ;
    }
}

/// Level 255 lies strictly above the curve of every fraction below one.
proof fn lemma_top_is_above(i: nat, max: nat, p: nat, q: nat)
    requires
        i < max,
        p >= 1,
    ensures
        !at_or_below_curve(255, i, max, p, q),
        at_or_above_curve(255, i, max, p, q),
{
    lemma_power_strictly_monotone(i, max, p);
    lemma_power_positive(255, q);
    let a = power(255, q);
    let x = power(i, p);
    let y = power(max, p);
    assert(a * x < a * y) by (nonlinear_arith)
        requires
            a > 0,
            x < y,
    ;
}

/// Level zero lies at or below every curve, and strictly below where `i > 0`.
proof fn lemma_zero_is_below(i: nat, max: nat, p: nat, q: nat)
    requires
        q >= 1,
    ensures
        at_or_below_curve(0, i, max, p, q),
        i > 0 ==> !at_or_above_curve(0, i, max, p, q),
        i == 0 && p >= 1 ==> at_or_above_curve(0, i, max, p, q),
{
    assert(power(0, q) == 0) by {
        assert(power(0, q) == 0 * power(0, (q - 1) as nat));
    }
    let m = power(max, p);
    assert(0 * m == 0) by (nonlinear_arith);
    if i > 0 {
        lemma_power_positive(255, q);
        lemma_power_positive(i, p);
        let a = power(255, q);
        let x = power(i, p);
        assert(a * x > 0) by (nonlinear_arith)
            requires
                a > 0,
                x > 0,
        ;
    } else if p >= 1 {
        assert(power(0, p) == 0 * power(0, (p - 1) as nat));
        let a = power(255, q);
        assert(a * 0 == 0) by (nonlinear_arith);
    }
}

/// A point that is taken to lie in the set is black under every scheme.
pub proof fn lemma_in_set_is_black(max_iter: nat, scheme: ColorScheme)
    ensures
        color_of(max_iter, max_iter, scheme) == black(),
{
}

/// The two grey schemes are one mapping.
pub proof fn lemma_gray_schemes_agree(i: nat, max_iter: nat)
    ensures
        color_of(i, max_iter, ColorScheme::BlackAndWhite) == color_of(
            i,
            max_iter,
            ColorScheme::Grayscale,
        ),
{
}

/// At an escape fraction of zero the grey schemes give black and the rainbow
/// gives pure blue.
pub proof fn lemma_color_at_zero(max_iter: nat)
    requires
        max_iter > 0,
    ensures
        color_of(0, max_iter, ColorScheme::Grayscale) == black(),
        color_of(0, max_iter, ColorScheme::BlackAndWhite) == black(),
        color_of(0, max_iter, ColorScheme::Rainbow) == (Rgb { r: 0, g: 0, b: 255 }),
{
    lemma_zero_level_at_zero(max_iter, 3, 10);
    lemma_zero_level_at_zero(max_iter, 1, 2);
    lemma_zero_level_at_zero(max_iter, 7, 10);
}

/// Every curve starts at level zero.
proof fn lemma_zero_level_at_zero(max: nat, p: nat, q: nat)
    requires
        max > 0,
        p >= 1,
        q >= 1,
    ensures
        curve_floor(0, max, p, q) == 0,
        curve_ceiling(0, max, p, q) == 0,
{
    lemma_zero_is_below(0, max, p, q);
    lemma_power_positive(1, q);
    lemma_power_positive(max, p);
    assert(power(0, p) == 0 * power(0, (p - 1) as nat));
    let a = power(1, q);
    let m = power(max, p);
    let full = power(255, q);
    assert(a * m > 0) by (nonlinear_arith)
        requires
            a > 0,
            m > 0,
    ;
    assert(full * 0 == 0) by (nonlinear_arith);
    lemma_curve_floor_unique(0, 0, max, p, q);
    lemma_curve_ceiling_unique(0, 0, max, p, q);
}

/// Below the bound no channel reaches full intensity but the blue of the
/// rainbow, which does so at an escape fraction of zero alone.
pub proof fn lemma_escaped_levels_below_full(i: nat, max_iter: nat, scheme: ColorScheme)
    requires
        i < max_iter,
    ensures
        color_of(i, max_iter, scheme).r < 255,
        color_of(i, max_iter, scheme).g < 255,
        color_of(i, max_iter, scheme).b == 255 <==> scheme == ColorScheme::Rainbow && i == 0,
{
    lemma_curve_levels_exist(i, max_iter, 3, 10);
    lemma_curve_levels_exist(i, max_iter, 1, 2);
    lemma_curve_levels_exist(i, max_iter, 7, 10);
    assert((255 * i) / max_iter < 255) by (nonlinear_arith)
        requires
            0 <= i < max_iter,
    ;
    lemma_zero_is_below(i, max_iter, 7, 10);
    if i == 0 {
        lemma_curve_ceiling_unique(0, i, max_iter, 7, 10);
    }
}

/// The integer part of `255 * (i / max)^(p / q)`, for a fraction below one.
pub fn channel_floor(i: u32, max: u32, p: u32, q: u32) -> (k: u8)
    requires
        i < max,
        p >= 1,
        q >= 1,
    ensures
        k == curve_floor(i as nat, max as nat, p as nat, q as nat),
        is_curve_floor(k as nat, i as nat, max as nat, p as nat, q as nat),
        k < 255,
{
    let target = power_product(255, q, i, p);
    let mut lo: u32 = 0;
    let mut hi: u32 = 255;
    proof {
        lemma_zero_is_below(i as nat, max as nat, p as nat, q as nat);
        lemma_top_is_above(i as nat, max as nat, p as nat, q as nat);
    }
    while hi - lo > 1
        invariant
            lo < hi <= 255,
            target@ == power(255, q as nat) * power(i as nat, p as nat),
            at_or_below_curve(lo as nat, i as nat, max as nat, p as nat, q as nat),
            !at_or_below_curve(hi as nat, i as nat, max as nat, p as nat, q as nat),
        decreases hi - lo,
    {
        let mid: u32 = lo + (hi - lo) / 2;
        let level = power_product(mid, q, max, p);
        if level.at_most(&target) {
            lo = mid;
        } else {
            hi = mid;
        }
    }
    proof {
        lemma_curve_floor_unique(lo as nat, i as nat, max as nat, p as nat, q as nat);
    }
    lo as u8
}

/// `255 * (i / max)^(p / q)` rounded up to an integer, for a fraction below one.
pub fn channel_ceiling(i: u32, max: u32, p: u32, q: u32) -> (k: u8)
    requires
        i < max,
        p >= 1,
        q >= 1,
    ensures
        k == curve_ceiling(i as nat, max as nat, p as nat, q as nat),
        is_curve_ceiling(k as nat, i as nat, max as nat, p as nat, q as nat),
        (k == 0) == (i == 0),
{
    proof {
        lemma_zero_is_below(i as nat, max as nat, p as nat, q as nat);
        lemma_top_is_above(i as nat, max as nat, p as nat, q as nat);
    }
    if i == 0 {
        proof {
            lemma_curve_ceiling_unique(0, i as nat, max as nat, p as nat, q as nat);
        }
        return 0;
    }
    let target = power_product(255, q, i, p);
    let mut lo: u32 = 0;
    let mut hi: u32 = 255;
    while hi - lo > 1
        invariant
            lo < hi <= 255,
            target@ == power(255, q as nat) * power(i as nat, p as nat),
            !at_or_above_curve(lo as nat, i as nat, max as nat, p as nat, q as nat),
            at_or_above_curve(hi as nat, i as nat, max as nat, p as nat, q as nat),
        decreases hi - lo,
    {
        let mid: u32 = lo + (hi - lo) / 2;
        let level = power_product(mid, q, max, p);
        if target.at_most(&level) {
            hi = mid;
        } else {
            lo = mid;
        }
    }
    proof {
        lemma_curve_ceiling_unique(hi as nat, i as nat, max as nat, p as nat, q as nat);
    }
    hi as u8
}

/// Maps an escape count to its colour.
pub fn compute_color(i: u32, max_iter: u32, scheme: ColorScheme) -> (c: Rgb)
    requires
        max_iter > 0,
        i <= max_iter,
    ensures
        c == color_of(i as nat, max_iter as nat, scheme),
        i == max_iter ==> c == black(),
{
    if i == max_iter {
        return Rgb { r: 0, g: 0, b: 0 };
    }
    match scheme {
        ColorScheme::Rainbow => {
            let r = channel_floor(i, max_iter, 3, 10);
            let g = channel_floor(i, max_iter, 1, 2);
            let above = channel_ceiling(i, max_iter, 7, 10);
            Rgb { r, g, b: 255 - above }
        },
        ColorScheme::BlackAndWhite | ColorScheme::Grayscale => {
            let scaled: u64 = 255 * (i as u64);
            let v: u64 = scaled / (max_iter as u64);
            assert(v < 255) by (nonlinear_arith)
                requires
                    v == (255 * i) / (max_iter as int),
                    i < max_iter,
            ;
            Rgb { r: v as u8, g: v as u8, b: v as u8 }
        },
    }
}

} // verus!
