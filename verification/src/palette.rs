//! The cyclic colour table and the continuous index into it.

use vstd::prelude::*;
use crate::color::{
    interpolate_color, lemma_lerp_between, lemma_lerp_end, lemma_lerp_start, lerp_rgb, Fraction, Rgb,
    DEN_MAX,
};
use crate::error::ConfigError;
use vstd::arithmetic::div_mod::{
    lemma_fundamental_div_mod, lemma_fundamental_div_mod_converse, lemma_mod_bound,
};

verus! {

/// A continuous position in a palette: entry `whole`, and `frac` of the way
/// on to the entry that follows it.
#[derive(Clone, Copy, Debug, PartialEq, Eq, Structural)]
pub struct ColorIndex {
    pub whole: usize,
    pub frac: Fraction,
}

impl ColorIndex {
    /// The index lies in `[0, size)` of a palette of `size` entries.
    pub open spec fn within(self, size: nat) -> bool {
        self.whole < size && self.frac.wf()
    }

    /// Whether the index lies in `[0, size)`.
    pub fn is_within(&self, size: usize) -> (b: bool)
        ensures
            b == self.within(size as nat),
    {
        self.whole < size && self.frac.is_wf()
    }

    /// The index held by an unsigned fixed-point number with 32 fractional
    /// bits: its whole part and, over `2^32`, what is left.
    pub fn from_fixed(raw: u64) -> (index: ColorIndex)
        ensures
            index.whole == raw as int / DEN_MAX as int,
            index.frac == (Fraction { num: raw % DEN_MAX, den: DEN_MAX }),
            index.frac.wf(),
    {
        let whole: u64 = raw / DEN_MAX;
        assert(whole <= 0xffff_ffff);
        ColorIndex { whole: whole as usize, frac: Fraction { num: raw % DEN_MAX, den: DEN_MAX } }
    }
}

/// The entry after `i` in a cyclic table of `size` entries.
pub open spec fn successor(i: int, size: int) -> int {
    (i + 1) % size
}

/// The index of a point that stays bounded for all of `iterations` steps:
/// the iteration cap reduced modulo `size`, with no fraction.
pub open spec fn inside_position(iterations: int, size: int) -> ColorIndex {
    ColorIndex { whole: (iterations % size) as usize, frac: Fraction { num: 0, den: 1 } }
}

/// The index `(step + 1 - nu)` reduced modulo `size`: where a point escapes
/// at iteration `step` with the fractional correction `nu`.
pub open spec fn escape_position(step: int, nu: Fraction, size: int) -> ColorIndex {
    if nu.num == 0 {
        ColorIndex { whole: ((step + 1) % size) as usize, frac: Fraction { num: 0, den: nu.den } }
    } else {
        ColorIndex {
            whole: (step % size) as usize,
            frac: Fraction { num: (nu.den - nu.num) as u64, den: nu.den },
        }
    }
}

/// The colour at a continuous index: the blend of the entry at `whole` and
/// its cyclic successor.
pub open spec fn color_on(colors: Seq<Rgb>, index: ColorIndex) -> Rgb
    recommends
        index.within(colors.len()),
{
    lerp_rgb(
        colors[index.whole as int],
        colors[successor(index.whole as int, colors.len() as int)],
        index.frac,
    )
}

/// An ordered, cyclic table of at least one colour.
pub struct Palette {
    colors: Vec<Rgb>,
}

impl View for Palette {
    type V = Seq<Rgb>;

    closed spec fn view(&self) -> Seq<Rgb> {
        self.colors@
    }
}

impl Palette {
    #[verifier::type_invariant]
    spec fn nonempty(self) -> bool {
        self.colors@.len() > 0
    }

    /// A palette of the given colours, in their order. An empty table is
    /// turned away.
    pub fn new(colors: Vec<Rgb>) -> (r: Result<Palette, ConfigError>)
        ensures
            colors@.len() == 0 ==> r == Err::<Palette, ConfigError>(ConfigError::EmptyPalette),
            colors@.len() > 0 ==> r.is_ok() && r.unwrap()@ == colors@,
    {
        if colors.len() == 0 {
            Err(ConfigError::EmptyPalette)
        } else {
            Ok(Palette { colors })
        }
    }

    /// Number of entries; never zero.
    pub fn len(&self) -> (n: usize)
        ensures
            n == self@.len(),
            n > 0,
    {
        proof {
            use_type_invariant(self);
        }
        self.colors.len()
    }

    /// The entry at `i`.
    pub fn get(&self, i: usize) -> (c: Rgb)
        requires
            i < self@.len(),
        ensures
            c == self@[i as int],
    {
        self.colors[i]
    }

    /// Index of a point that never escaped within `iterations` steps: the
    /// iteration cap reduced modulo the palette's size, with no fraction.
    pub fn inside_index(&self, iterations: u32) -> (index: ColorIndex)
        ensures
            index == inside_position(iterations as int, self@.len() as int),
            index.whole == iterations as int % self@.len() as int,
            index.within(self@.len()),
    {
        let n = self.len();
        ColorIndex { whole: iterations as usize % n, frac: Fraction::zero() }
    }

    /// Index of a point that escaped at iteration `step`, smoothed by the
    /// correction `nu`: `step + 1 - nu`, reduced modulo the palette's size.
    pub fn escape_index(&self, step: u32, nu: Fraction) -> (index: ColorIndex)
        requires
            nu.wf(),
        ensures
            index == escape_position(step as int, nu, self@.len() as int),
            index.within(self@.len()),
    {
        let n = self.len();
        if nu.num == 0 {
            let next: u64 = step as u64 + 1;
            let whole: u64 = next % (n as u64);
            ColorIndex { whole: whole as usize, frac: Fraction { num: 0, den: nu.den } }
        } else {
            ColorIndex {
                whole: step as usize % n,
                frac: Fraction { num: nu.den - nu.num, den: nu.den },
            }
        }
    }

    /// The colour at a continuous index, blended between the entry at its
    /// whole part and the next entry, the last entry's next being the first.
    pub fn color_at(&self, index: ColorIndex) -> (c: Rgb)
        requires
            index.within(self@.len()),
        ensures
            c == color_on(self@, index),
    {
        let n = self.len();
        let i1 = index.whole;
        let i2 = if i1 + 1 == n { 0 } else { i1 + 1 };
        assert(i2 == successor(i1 as int, n as int)) by {
            if i1 + 1 == n {
                assert(n as int % n as int == 0) by (nonlinear_arith)
                    requires
                        n > 0,
                ;
            } else {
                assert((i1 + 1) % (n as int) == i1 + 1) by (nonlinear_arith)
                    requires
                        0 <= i1 + 1 < n,
                ;
            }
        }
        interpolate_color(self.colors[i1], self.colors[i2], index.frac)
    }
}

/// At a whole index the colour is that palette entry, exactly.
pub proof fn lemma_color_at_entry(colors: Seq<Rgb>, index: ColorIndex)
    requires
        index.within(colors.len()),
        index.frac.num == 0,
    ensures
        color_on(colors, index) == colors[index.whole as int],
{
    let a = colors[index.whole as int];
    let b = colors[successor(index.whole as int, colors.len() as int)];
    lemma_lerp_start(a.r, b.r, index.frac);
    lemma_lerp_start(a.g, b.g, index.frac);
    lemma_lerp_start(a.b, b.b, index.frac);
}

/// As the fraction reaches one the colour is the next entry, exactly: the
/// colour is continuous from each entry to the next and from the last entry
/// round to the first.
pub proof fn lemma_color_at_next(colors: Seq<Rgb>, index: ColorIndex)
    requires
        index.within(colors.len()),
        index.frac.num == index.frac.den,
    ensures
        color_on(colors, index) == colors[successor(index.whole as int, colors.len() as int)],
        index.whole + 1 == colors.len() ==> color_on(colors, index) == colors[0],
        index.whole + 1 < colors.len() ==> color_on(colors, index) == colors[index.whole + 1],
{
    let n = colors.len() as int;
    let i = index.whole as int;
    let a = colors[i];
    let b = colors[successor(i, n)];
    lemma_lerp_end(a.r, b.r, index.frac);
    lemma_lerp_end(a.g, b.g, index.frac);
    lemma_lerp_end(a.b, b.b, index.frac);
    if i + 1 == n {
        assert(n % n == 0) by (nonlinear_arith)
            requires
                n > 0,
        ;
    } else {
        assert((i + 1) % n == i + 1) by (nonlinear_arith)
            requires
                0 <= i + 1 < n,
        ;
    }
}

/// Smoothed indices join up from one iteration to the next: an escape at
/// `step` with no correction and an escape at `step + 1` with the full
/// correction lie at the same place of the palette and have the same colour.
pub proof fn lemma_escape_steps_join(colors: Seq<Rgb>, step: u32, den: u64)
    requires
        colors.len() > 0,
        0 < den <= DEN_MAX,
    ensures
        escape_position(step as int, Fraction { num: 0, den }, colors.len() as int).whole
            == escape_position(step + 1, Fraction { num: den, den }, colors.len() as int).whole,
        color_on(colors, escape_position(step as int, Fraction { num: 0, den }, colors.len() as int))
            == color_on(
            colors,
            escape_position(step + 1, Fraction { num: den, den }, colors.len() as int),
        ),
{
    let n = colors.len() as int;
    let a = escape_position(step as int, Fraction { num: 0, den }, n);
    let b = escape_position(step + 1, Fraction { num: den, den }, n);
    assert(0 <= (step + 1) % n < n) by (nonlinear_arith)
        requires
            n > 0,
    ;
    assert(a.whole == b.whole);
    assert(a.frac.num == 0 && b.frac.num == 0);
    lemma_color_at_entry(colors, a);
    lemma_color_at_entry(colors, b);
}

/// The smoothed index of an escape is `step + 1 - nu` reduced modulo the
/// palette's size, exactly: scaled by the correction's denominator, whole
/// part and fraction together are that number's remainder.
pub proof fn lemma_escape_position_value(step: u32, nu: Fraction, size: usize)
    requires
        nu.wf(),
        size > 0,
    ensures
        ({
            let p = escape_position(step as int, nu, size as int);
            &&& p.within(size as nat)
            &&& p.frac.den == nu.den
            &&& p.frac.num < nu.den
            &&& p.whole * nu.den + p.frac.num == ((step + 1) * nu.den - nu.num) % (size * nu.den)
        }),
{
    let n = size as int;
    let d = nu.den as int;
    let m = nu.num as int;
    let s: int = if m == 0 { step + 1 } else { step as int };
    let rest: int = if m == 0 { 0 } else { d - m };
    let q = s / n;
    let r = s % n;
    lemma_fundamental_div_mod(s, n);
    lemma_mod_bound(s, n);
    assert((step + 1) * d - m == s * d + rest) by (nonlinear_arith)
        requires
            s == (if m == 0 { step + 1 } else { step as int }),
            rest == (if m == 0 { 0 } else { d - m }),
    ;
    assert(s * d + rest == q * (n * d) + (r * d + rest)) by (nonlinear_arith)
        requires
            s == n * q + r,
    ;
    assert(0 <= r * d + rest < n * d) by (nonlinear_arith)
        requires
            0 <= r < n,
            0 <= rest < d,
    ;
    lemma_fundamental_div_mod_converse(s * d + rest, n * d, q, r * d + rest);
}

/// With a single entry every index gives that entry.
pub proof fn lemma_single_entry(colors: Seq<Rgb>, index: ColorIndex)
    requires
        colors.len() == 1,
        index.within(colors.len()),
    ensures
        color_on(colors, index) == colors[0],
{
    let c = colors[0];
    assert(successor(0, 1) == 0);
    lemma_lerp_between(c.r, c.r, index.frac);
    lemma_lerp_between(c.g, c.g, index.frac);
    lemma_lerp_between(c.b, c.b, index.frac);
}

} // verus!
