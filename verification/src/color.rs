//! Colours, blend parameters and exact linear interpolation of channels.

use vstd::prelude::*;
use vstd::arithmetic::div_mod::{lemma_fundamental_div_mod, lemma_mod_bound};

verus! {

/// One palette entry: red, green and blue, eight bits each.
#[derive(Clone, Copy, Debug, PartialEq, Eq, Structural)]
pub struct Rgb {
    pub r: u8,
    pub g: u8,
    pub b: u8,
}

/// Alpha written into every pixel of a frame: fully opaque.
pub const OPAQUE: u8 = 255;

/// Largest denominator of a well-formed `Fraction`.
pub const DEN_MAX: u64 = 0x1_0000_0000;

/// A blend parameter `num / den` in the closed unit interval.
#[derive(Clone, Copy, Debug, PartialEq, Eq, Structural)]
pub struct Fraction {
    pub num: u64,
    pub den: u64,
}

impl Fraction {
    /// The fraction lies in `[0, 1]` and its denominator is usable.
    pub open spec fn wf(self) -> bool {
        0 < self.den <= DEN_MAX && self.num <= self.den
    }

    /// `self <= other`, compared as rationals.
    pub open spec fn le(self, other: Fraction) -> bool {
        self.num * other.den <= other.num * self.den
    }

    /// Whether the fraction is well formed.
    pub fn is_wf(&self) -> (b: bool)
        ensures
            b == self.wf(),
    {
        0 < self.den && self.den <= DEN_MAX && self.num <= self.den
    }

    /// `num / den`, or `None` where that is no well-formed fraction.
    pub fn new(num: u64, den: u64) -> (r: Option<Fraction>)
        ensures
            r == (if 0 < den <= DEN_MAX && num <= den {
                Some(Fraction { num, den })
            } else {
                None
            }),
    {
        if 0 < den && den <= DEN_MAX && num <= den {
            Some(Fraction { num, den })
        } else {
            None
        }
    }

    /// The parameter 0: the blend is its first colour.
    pub fn zero() -> (t: Fraction)
        ensures
            t == (Fraction { num: 0, den: 1 }),
            t.wf(),
    {
        Fraction { num: 0, den: 1 }
    }

    /// The parameter 1: the blend is its second colour.
    pub fn one() -> (t: Fraction)
        ensures
            t == (Fraction { num: 1, den: 1 }),
            t.wf(),
    {
        Fraction { num: 1, den: 1 }
    }
}

/// The integer nearest to `c1 * (1 - t) + c2 * t`, halves rounded up.
pub open spec fn lerp(c1: int, c2: int, t: Fraction) -> int {
    (2 * (c1 * (t.den - t.num) + c2 * t.num) + t.den) / (2 * t.den)
}

/// Channel-wise `lerp` of two colours.
pub open spec fn lerp_rgb(a: Rgb, b: Rgb, t: Fraction) -> Rgb
    recommends
        t.wf(),
{
    Rgb {
        r: lerp(a.r as int, b.r as int, t) as u8,
        g: lerp(a.g as int, b.g as int, t) as u8,
        b: lerp(a.b as int, b.b as int, t) as u8,
    }
}

/// Floors of two quotients are ordered as the quotients are.
pub proof fn lemma_floor_div_cross(x: int, d: int, y: int, e: int)
    requires
        0 < d,
        0 < e,
        x * e <= y * d,
    ensures
        x / d <= y / e,
{
    let q = x / d;
    let p = y / e;
    lemma_fundamental_div_mod(x, d);
    lemma_mod_bound(x, d);
    lemma_fundamental_div_mod(y, e);
    lemma_mod_bound(y, e);
    assert(d * q <= x);
    assert(y < e * p + e);
    assert(q <= p) by (nonlinear_arith)
        requires
            0 < d,
            0 < e,
            d * q <= x,
            y < e * p + e,
            x * e <= y * d,
    {
        if q >= p + 1 {
            assert(d * q >= d * (p + 1));
            assert(x * e >= (d * (p + 1)) * e);
            assert(y * d < (e * p + e) * d);
        }
    }
}

/// A blend lies between its two endpoints.
pub proof fn lemma_lerp_between(c1: u8, c2: u8, t: Fraction)
    requires
        t.wf(),
    ensures
        c1 <= c2 ==> c1 <= lerp(c1 as int, c2 as int, t) <= c2,
        c2 <= c1 ==> c2 <= lerp(c1 as int, c2 as int, t) <= c1,
{
    let d = t.den as int;
    let n = t.num as int;
    let a = c1 * (d - n) + c2 * n;
    let lo: int = if c1 <= c2 { c1 as int } else { c2 as int };
    let hi: int = if c1 <= c2 { c2 as int } else { c1 as int };
    assert(lo * d <= a <= hi * d) by (nonlinear_arith)
        requires
            0 <= n <= d,
            a == c1 * (d - n) + c2 * n,
            lo <= c1 <= hi,
            lo <= c2 <= hi,
    {
        assert(lo * (d - n) <= c1 * (d - n) <= hi * (d - n));
        assert(lo * n <= c2 * n <= hi * n);
        assert(lo * d == lo * (d - n) + lo * n);
        assert(hi * d == hi * (d - n) + hi * n);
    }
    assert((2 * lo) * (2 * d) <= (2 * a + d) * 2) by (nonlinear_arith)
        requires
            lo * d <= a,
            0 < d,
    ;
    assert((2 * a + d) * 2 <= (2 * hi + 1) * (2 * d)) by (nonlinear_arith)
        requires
            a <= hi * d,
            0 < d,
    ;
    lemma_floor_div_cross(2 * lo, 2, 2 * a + d, 2 * d);
    lemma_floor_div_cross(2 * a + d, 2 * d, 2 * hi + 1, 2);
}

/// At parameter 0 the blend is the first endpoint, exactly.
pub proof fn lemma_lerp_start(c1: u8, c2: u8, t: Fraction)
    requires
        t.wf(),
        t.num == 0,
    ensures
        lerp(c1 as int, c2 as int, t) == c1,
{
    let d = t.den as int;
    assert(c1 * (d - 0) + c2 * 0 == c1 * d) by (nonlinear_arith);
    assert((2 * (c1 * d) + d) * 2 <= (2 * c1 + 1) * (2 * d)) by (nonlinear_arith);
    assert((2 * c1) * (2 * d) <= (2 * (c1 * d) + d) * 2) by (nonlinear_arith)
        requires
            0 < d,
    ;
    lemma_floor_div_cross(2 * (c1 * d) + d, 2 * d, 2 * c1 + 1, 2);
    lemma_floor_div_cross(2 * c1, 2, 2 * (c1 * d) + d, 2 * d);
}

/// At parameter 1 the blend is the second endpoint, exactly.
pub proof fn lemma_lerp_end(c1: u8, c2: u8, t: Fraction)
    requires
        t.wf(),
        t.num == t.den,
    ensures
        lerp(c1 as int, c2 as int, t) == c2,
{
    let d = t.den as int;
    assert(c1 * (d - d) + c2 * d == c2 * d) by (nonlinear_arith);
    assert((2 * (c2 * d) + d) * 2 <= (2 * c2 + 1) * (2 * d)) by (nonlinear_arith);
    assert((2 * c2) * (2 * d) <= (2 * (c2 * d) + d) * 2) by (nonlinear_arith)
        requires
            0 < d,
    ;
    lemma_floor_div_cross(2 * (c2 * d) + d, 2 * d, 2 * c2 + 1, 2);
    lemma_floor_div_cross(2 * c2, 2, 2 * (c2 * d) + d, 2 * d);
}

/// A blend moves monotonically from its first endpoint to its second as
/// the parameter grows.
pub proof fn lemma_lerp_monotone(c1: u8, c2: u8, t: Fraction, u: Fraction)
    requires
        t.wf(),
        u.wf(),
        t.le(u),
    ensures
        c1 <= c2 ==> lerp(c1 as int, c2 as int, t) <= lerp(c1 as int, c2 as int, u),
        c2 <= c1 ==> lerp(c1 as int, c2 as int, u) <= lerp(c1 as int, c2 as int, t),
{
    let d = t.den as int;
    let n = t.num as int;
    let e = u.den as int;
    let m = u.num as int;
    let a = c1 * (d - n) + c2 * n;
    let b = c1 * (e - m) + c2 * m;
    let k = c2 - c1;
    let ne = n * e;
    let md = m * d;
    let de = d * e;
    assert(a == c1 * d + k * n) by (nonlinear_arith)
        requires
            a == c1 * (d - n) + c2 * n,
            k == c2 - c1,
    ;
    assert(b == c1 * e + k * m) by (nonlinear_arith)
        requires
            b == c1 * (e - m) + c2 * m,
            k == c2 - c1,
    ;
    assert(a * e == c1 * de + k * ne) by (nonlinear_arith)
        requires
            a == c1 * d + k * n,
            ne == n * e,
            de == d * e,
    ;
    assert(b * d == c1 * de + k * md) by (nonlinear_arith)
        requires
            b == c1 * e + k * m,
            md == m * d,
            de == d * e,
    ;
    assert(ne <= md);
    if c1 <= c2 {
        assert(k * ne <= k * md) by (nonlinear_arith)
            requires
                k >= 0,
                ne <= md,
        ;
        assert((2 * a + d) * (2 * e) <= (2 * b + e) * (2 * d)) by (nonlinear_arith)
            requires
                a * e <= b * d,
        ;
        lemma_floor_div_cross(2 * a + d, 2 * d, 2 * b + e, 2 * e);
    }
    if c2 <= c1 {
        assert(k * md <= k * ne) by (nonlinear_arith)
            requires
                k <= 0,
                ne <= md,
        ;
        assert((2 * b + e) * (2 * d) <= (2 * a + d) * (2 * e)) by (nonlinear_arith)
            requires
                b * d <= a * e,
        ;
        lemma_floor_div_cross(2 * b + e, 2 * e, 2 * a + d, 2 * d);
    }
}

/// A blend of two colours starts at the first and ends at the second,
/// exactly, and each of its channels moves monotonically between the two as
/// the parameter grows.
pub proof fn lemma_blend_is_monotone(a: Rgb, b: Rgb, t: Fraction, u: Fraction)
    requires
        t.wf(),
        u.wf(),
        t.le(u),
    ensures
        t.num == 0 ==> lerp_rgb(a, b, t) == a,
        u.num == u.den ==> lerp_rgb(a, b, u) == b,
        a.r <= b.r ==> a.r <= lerp_rgb(a, b, t).r <= lerp_rgb(a, b, u).r <= b.r,
        a.g <= b.g ==> a.g <= lerp_rgb(a, b, t).g <= lerp_rgb(a, b, u).g <= b.g,
        a.b <= b.b ==> a.b <= lerp_rgb(a, b, t).b <= lerp_rgb(a, b, u).b <= b.b,
        b.r <= a.r ==> b.r <= lerp_rgb(a, b, u).r <= lerp_rgb(a, b, t).r <= a.r,
        b.g <= a.g ==> b.g <= lerp_rgb(a, b, u).g <= lerp_rgb(a, b, t).g <= a.g,
        b.b <= a.b ==> b.b <= lerp_rgb(a, b, u).b <= lerp_rgb(a, b, t).b <= a.b,
{
    lemma_lerp_between(a.r, b.r, t);
    lemma_lerp_between(a.g, b.g, t);
    lemma_lerp_between(a.b, b.b, t);
    lemma_lerp_between(a.r, b.r, u);
    lemma_lerp_between(a.g, b.g, u);
    lemma_lerp_between(a.b, b.b, u);
    lemma_lerp_monotone(a.r, b.r, t, u);
    lemma_lerp_monotone(a.g, b.g, t, u);
    lemma_lerp_monotone(a.b, b.b, t, u);
    if t.num == 0 {
        lemma_lerp_start(a.r, b.r, t);
        lemma_lerp_start(a.g, b.g, t);
        lemma_lerp_start(a.b, b.b, t);
    }
    if u.num == u.den {
        lemma_lerp_end(a.r, b.r, u);
        lemma_lerp_end(a.g, b.g, u);
        lemma_lerp_end(a.b, b.b, u);
    }
}

/// One channel of a blend: the integer nearest to `c1 * (1 - t) + c2 * t`.
pub fn interpolate_channel(c1: u8, c2: u8, t: Fraction) -> (c: u8)
    requires
        t.wf(),
    ensures
        c == lerp(c1 as int, c2 as int, t),
{
    proof {
        lemma_lerp_between(c1, c2, t);
        let d = t.den as int;
        let n = t.num as int;
        assert(0 <= c1 * (d - n) <= 255 * (d - n)) by (nonlinear_arith)
            requires
                0 <= c1 <= 255,
                0 <= d - n,
        ;
        assert(0 <= c2 * n <= 255 * n) by (nonlinear_arith)
            requires
                0 <= c2 <= 255,
                0 <= n,
        ;
    }
    let rest: u64 = t.den - t.num;
    let weighted: u64 = c1 as u64 * rest + c2 as u64 * t.num;
    let q: u64 = (2 * weighted + t.den) / (2 * t.den);
    q as u8
}

/// Blend of two colours, each channel on its own.
pub fn interpolate_color(color1: Rgb, color2: Rgb, t: Fraction) -> (c: Rgb)
    requires
        t.wf(),
    ensures
        c == lerp_rgb(color1, color2, t),
{
    Rgb {
        r: interpolate_channel(color1.r, color2.r, t),
        g: interpolate_channel(color1.g, color2.g, t),
        b: interpolate_channel(color1.b, color2.b, t),
    }
}

impl Rgb {
    /// The four bytes of a pixel of this colour: red, green, blue, alpha.
    pub open spec fn rgba_seq(self) -> Seq<u8> {
        seq![self.r, self.g, self.b, OPAQUE]
    }

    /// The colour as the four bytes of one pixel: red, green, blue, alpha.
    pub fn to_rgba(self) -> (px: [u8; 4])
        ensures
            px@ == self.rgba_seq(),
    {
        let px = [self.r, self.g, self.b, OPAQUE];
        assert(px@ =~= self.rgba_seq());
        px
    }
}

} // verus!
