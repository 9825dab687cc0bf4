//! The pixel grid of a frame and the layout of its RGBA bytes.

use vstd::prelude::*;
use crate::color::{Rgb, OPAQUE};
use crate::error::ConfigError;
use crate::palette::{color_on, ColorIndex, Palette};

verus! {

/// Width and height of a frame as mathematical numbers.
pub struct Extent {
    pub width: nat,
    pub height: nat,
}

/// Width and height of a frame in pixels, neither of them zero.
#[derive(Clone, Copy, Debug)]
pub struct FrameSize {
    width: u32,
    height: u32,
}

impl View for FrameSize {
    type V = Extent;

    closed spec fn view(&self) -> Extent {
        Extent { width: self.width as nat, height: self.height as nat }
    }
}

/// Distance of position `p` from the middle of `extent` pixels, in half
/// pixels: `p - extent / 2`, doubled.
pub open spec fn half_steps(p: int, extent: int) -> int {
    2 * p - extent
}

/// Byte `k` of a pixel of colour `c`: red, green, blue, then alpha.
pub open spec fn channel_byte(c: Rgb, k: int) -> u8 {
    if k == 0 {
        c.r
    } else if k == 1 {
        c.g
    } else if k == 2 {
        c.b
    } else {
        OPAQUE
    }
}

/// The buffer of a row of colours: four bytes for each, in order.
pub open spec fn rgba_bytes(colors: Seq<Rgb>) -> Seq<u8> {
    Seq::new(4 * colors.len(), |j: int| channel_byte(colors[j / 4], j % 4))
}

/// The colours of a sequence of indices on a palette.
pub open spec fn colors_on(palette: Seq<Rgb>, indices: Seq<ColorIndex>) -> Seq<Rgb> {
    Seq::new(indices.len(), |i: int| color_on(palette, indices[i]))
}

/// Every index lies within the palette.
pub open spec fn all_within(palette: Seq<Rgb>, indices: Seq<ColorIndex>) -> bool {
    forall|i: int| 0 <= i < indices.len() ==> (#[trigger] indices[i]).within(palette.len())
}

impl FrameSize {
    #[verifier::type_invariant]
    spec fn nonzero(self) -> bool {
        self.width > 0 && self.height > 0
    }

    /// A frame of `width` by `height` pixels. A frame without pixels is
    /// turned away, a zero width before a zero height.
    pub fn new(width: u32, height: u32) -> (r: Result<FrameSize, ConfigError>)
        ensures
            width == 0 ==> r == Err::<FrameSize, ConfigError>(ConfigError::ZeroWidth),
            width > 0 && height == 0 ==> r == Err::<FrameSize, ConfigError>(
                ConfigError::ZeroHeight,
            ),
            width > 0 && height > 0 ==> r.is_ok() && r.unwrap()@ == (Extent {
                width: width as nat,
                height: height as nat,
            }),
    {
        if width == 0 {
            Err(ConfigError::ZeroWidth)
        } else if height == 0 {
            Err(ConfigError::ZeroHeight)
        } else {
            Ok(FrameSize { width, height })
        }
    }

    /// Pixels in a row; never zero.
    pub fn width(&self) -> (w: u32)
        ensures
            w == self@.width,
            w > 0,
    {
        proof {
            use_type_invariant(self);
        }
        self.width
    }

    /// Rows; never zero.
    pub fn height(&self) -> (h: u32)
        ensures
            h == self@.height,
            h > 0,
    {
        proof {
            use_type_invariant(self);
        }
        self.height
    }

    /// Pixels in the frame.
    pub fn pixel_count(&self) -> (n: u64)
        ensures
            n == self@.width * self@.height,
            n > 0,
    {
        proof {
            use_type_invariant(self);
            assert(0 < self.width * self.height <= 0xffff_ffff * 0xffff_ffff) by (nonlinear_arith)
                requires
                    0 < self.width <= 0xffff_ffff,
                    0 < self.height <= 0xffff_ffff,
            ;
        }
        self.width as u64 * self.height as u64
    }

    /// Place of pixel `(x, y)` in row-major order.
    pub fn index_of(&self, x: u32, y: u32) -> (i: u64)
        requires
            x < self@.width,
            y < self@.height,
        ensures
            i == y * self@.width + x,
            i < self@.width * self@.height,
    {
        proof {
            assert(y * self.width + x < self.width * self.height <= 0xffff_ffff * 0xffff_ffff)
                by (nonlinear_arith)
                requires
                    0 <= x < self.width <= 0xffff_ffff,
                    0 <= y < self.height <= 0xffff_ffff,
            ;
        }
        y as u64 * self.width as u64 + x as u64
    }

    /// Column and row of the pixel at place `i` in row-major order.
    pub fn position(&self, i: u64) -> (p: (u32, u32))
        requires
            i < self@.width * self@.height,
        ensures
            p.0 == i as int % self@.width as int,
            p.1 == i as int / self@.width as int,
            p.0 < self@.width,
            p.1 < self@.height,
            p.1 * self@.width + p.0 == i,
    {
        let w = self.width() as u64;
        proof {
            let wi = w as int;
            let hi = self.height as int;
            let ii = i as int;
            vstd::arithmetic::div_mod::lemma_fundamental_div_mod(ii, wi);
            vstd::arithmetic::div_mod::lemma_mod_bound(ii, wi);
            assert(ii / wi < hi) by (nonlinear_arith)
                requires
                    0 < wi,
                    ii < wi * hi,
                    ii == wi * (ii / wi) + ii % wi,
                    0 <= ii % wi,
            ;
            assert(0 <= ii / wi) by (nonlinear_arith)
                requires
                    0 < wi,
                    0 <= ii,
                    ii == wi * (ii / wi) + ii % wi,
                    ii % wi < wi,
            ;
            assert(wi * (ii / wi) == (ii / wi) * wi) by (nonlinear_arith);
        }
        ((i % w) as u32, (i / w) as u32)
    }

    /// Distance of pixel `(x, y)` from the middle of the frame, in half
    /// pixels: to the right, and downwards.
    pub fn half_steps_from_middle(&self, x: u32, y: u32) -> (d: (i64, i64))
        ensures
            d.0 == half_steps(x as int, self@.width as int),
            d.1 == half_steps(y as int, self@.height as int),
    {
        (2 * (x as i64) - self.width as i64, 2 * (y as i64) - self.height as i64)
    }
}

/// Row-major place and position undo each other: the place of pixel
/// `(x, y)` leads back to column `x` and row `y`.
pub proof fn lemma_position_of_index(width: u32, x: u32, y: u32)
    requires
        x < width,
    ensures
        (y * width + x) % (width as int) == x,
        (y * width + x) / (width as int) == y,
{
    assert(y * width + x == (y as int) * (width as int) + x) by (nonlinear_arith);
    vstd::arithmetic::div_mod::lemma_fundamental_div_mod_converse(
        y * width + x,
        width as int,
        y as int,
        x as int,
    );
}

/// The pixel at half the extent lies no half step from the middle exactly
/// where the extent is even; in an odd extent it lies one half step before.
pub proof fn lemma_middle_pixel(extent: u32)
    ensures
        extent % 2 == 0 <==> half_steps(extent as int / 2, extent as int) == 0,
        extent % 2 == 1 <==> half_steps(extent as int / 2, extent as int) == -1,
{
}

/// The colour of each index on the palette, in order; `None` where an index
/// lies outside the palette.
pub fn render(palette: &Palette, indices: &Vec<ColorIndex>) -> (r: Option<Vec<Rgb>>)
    ensures
        r.is_some() <==> all_within(palette@, indices@),
        r matches Some(colors) ==> colors@ == colors_on(palette@, indices@),
{
    let n = palette.len();
    let mut colors: Vec<Rgb> = Vec::new();
    let mut i: usize = 0;
    while i < indices.len()
        invariant
            i <= indices@.len(),
            n == palette@.len(),
            colors@.len() == i,
            forall|j: int| 0 <= j < i ==> (#[trigger] indices@[j]).within(palette@.len()),
            forall|j: int| 0 <= j < i ==> colors@[j] == color_on(palette@, indices@[j]),
        decreases indices@.len() - i,
    {
        let index = indices[i];
        if !index.is_within(n) {
            return None;
        }
        colors.push(palette.color_at(index));
        i += 1;
    }
    assert(colors@ =~= colors_on(palette@, indices@));
    Some(colors)
}

/// In the buffer of a frame the four bytes of pixel `(x, y)` stand at four
/// times its row-major place, and hold the colour of that pixel's index.
pub proof fn lemma_pixel_bytes(
    size: FrameSize,
    palette: Seq<Rgb>,
    indices: Seq<ColorIndex>,
    x: int,
    y: int,
    k: int,
)
    requires
        indices.len() == size@.width * size@.height,
        0 <= x < size@.width,
        0 <= y < size@.height,
        0 <= k < 4,
    ensures
        y * size@.width + x < indices.len(),
        rgba_bytes(colors_on(palette, indices)).len() == 4 * size@.width * size@.height,
        rgba_bytes(colors_on(palette, indices))[4 * (y * size@.width + x) + k] == channel_byte(
            color_on(palette, indices[y * size@.width + x]),
            k,
        ),
{
    let w = size@.width as int;
    let h = size@.height as int;
    assert(0 <= y * w + x < w * h) by (nonlinear_arith)
        requires
            0 <= x < w,
            0 <= y < h,
    ;
    assert(4 * w * h == 4 * (w * h)) by (nonlinear_arith);
}

} // verus!
