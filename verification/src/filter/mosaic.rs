//! Block-quantization mosaic: every pixel takes the color of its block's
//! top-left pixel.

use vstd::prelude::*;
use vstd::string::StringExecFns;

use crate::buffer::{grid, lemma_grid_eq, BufView, Pixel, PixelBuffer};
use crate::process::{FilterProcessor, FilterProcessorOptions};

verus! {

/// The start of the block that position `t` falls into, for block size `b`.
pub open spec fn block_start(b: int, t: int) -> int {
    (t / b) * b
}

/// A block's start lies at or before the position, inside the same bound.
pub proof fn lemma_block_start(b: int, t: int, bound: int)
    requires
        b >= 1,
        0 <= t < bound,
    ensures
        0 <= block_start(b, t) <= t < bound,
{
    vstd::arithmetic::div_mod::lemma_fundamental_div_mod(t, b);
    vstd::arithmetic::div_mod::lemma_mod_pos_bound(t, b);
    vstd::arithmetic::div_mod::lemma_div_pos_is_pos(t, b);
    vstd::arithmetic::mul::lemma_mul_is_commutative(t / b, b);
    vstd::arithmetic::mul::lemma_mul_nonnegative(t / b, b);
}

/// The output pixel at `(x, y)`: the input pixel at the top-left corner of
/// the `b x b` block containing `(x, y)`.
pub open spec fn mosaic_pix(b: int, v: BufView, x: int, y: int) -> Pixel {
    v.pix(block_start(b, x), block_start(b, y))
}

/// The whole-buffer meaning of the mosaic filter.
pub open spec fn mosaic_apply(b: int, v: BufView) -> BufView {
    BufView {
        width: v.width,
        height: v.height,
        pixels: grid(v.width, v.height, |x: int, y: int| mosaic_pix(b, v, x, y)),
    }
}

/// The sampling law of the mosaic: for block size `b`, the output pixel at
/// `(x, y)` is the input pixel at `((x / b) * b, (y / b) * b)`, which always
/// lies on the canvas.
pub proof fn lemma_mosaic_sampling(b: int, v: BufView, x: int, y: int)
    requires
        v.wf(),
        b >= 1,
        v.in_bounds(x, y),
    ensures
        v.in_bounds(block_start(b, x), block_start(b, y)),
        mosaic_apply(b, v).pix(x, y) == v.pix((x / b) * b, (y / b) * b),
{
    lemma_block_start(b, x, v.width);
    lemma_block_start(b, y, v.height);
    crate::buffer::lemma_grid_read(
        v.width,
        v.height,
        |x2: int, y2: int| mosaic_pix(b, v, x2, y2),
        x,
        y,
    );
}

/// Configuration of [`MosaicFilter`]: the side length of the square blocks.
#[derive(Debug, Clone, Copy, PartialEq, Eq, Structural)]
pub struct MosaicFilterOption {
    pub size: usize,
}

impl MosaicFilterOption {
    pub fn new(size: usize) -> (r: MosaicFilterOption)
        ensures
            r.size == size,
    {
        MosaicFilterOption { size }
    }
}

impl Default for MosaicFilterOption {
    /// Blocks of 50 pixels on each side when nothing is chosen.
    fn default() -> (r: MosaicFilterOption)
        ensures
            r.size == 50,
    {
        MosaicFilterOption { size: 50 }
    }
}

impl FilterProcessorOptions for MosaicFilterOption {

}

/// The filter that overwrites each block with its top-left pixel.
#[derive(Debug, Clone, Copy, PartialEq, Eq, Structural)]
pub struct MosaicFilter {
    pub option: MosaicFilterOption,
}

impl MosaicFilter {
    pub fn new(option: MosaicFilterOption) -> (r: MosaicFilter)
        ensures
            r.option == option,
    {
        MosaicFilter { option }
    }
}

impl FilterProcessor for MosaicFilter {
    type OptionsType = MosaicFilterOption;

    /// A zero block size would make the block of a pixel undefined.
    open spec fn wf(&self) -> bool {
        self.option.size >= 1
    }

    open spec fn apply(&self, v: BufView) -> BufView {
        mosaic_apply(self.option.size as int, v)
    }

    proof fn apply_dims(&self, v: BufView) {
        assert(0 <= v.width * v.height) by (nonlinear_arith)
            requires 0 <= v.width, 0 <= v.height;
    }

    fn process(&self, buf: &PixelBuffer) -> (r: PixelBuffer) {
        let b = self.option.size;
        let ghost f = |x: int, y: int| mosaic_pix(b as int, buf@, x, y);
        let w = buf.width;
        let h = buf.height;
        let mut data: Vec<Pixel> = Vec::new();
        let mut y: u32 = 0;
        while y < h
            invariant
                y <= h,
                data@.len() == y * w,
                forall|x2: int, y2: int|
                    0 <= x2 < w && 0 <= y2 < y ==> data@[y2 * w + x2] == #[trigger] f(x2, y2),
            decreases h - y,
        {
            let mut x: u32 = 0;
            while x < w
                invariant
                    y < h,
                    x <= w,
                    data@.len() == y * w + x,
                    forall|x2: int, y2: int|
                        0 <= x2 < w && 0 <= y2 < y ==> data@[y2 * w + x2] == #[trigger] f(x2, y2),
                    forall|x2: int| 0 <= x2 < x ==> data@[y * w + x2] == #[trigger] f(x2, y as int),
                decreases w - x,
            {
                proof {
                    lemma_block_start(b as int, x as int, w as int);
                    lemma_block_start(b as int, y as int, h as int);
                }
                let sx = ((x as usize) / b) * b;
                let sy = ((y as usize) / b) * b;
                let p = buf.get(sx as u32, sy as u32);
                data.push(p);
                x = x + 1;
                proof {
                    assert forall|x2: int, y2: int| 0 <= x2 < w && 0 <= y2 < y implies data@[y2 * w
                        + x2] == #[trigger] f(x2, y2) by {
                        crate::buffer::lemma_pix_index(w as int, y as int, x2, y2);
                        vstd::arithmetic::mul::lemma_mul_is_commutative(w as int, y as int);
                    }
                }
            }
            y = y + 1;
            proof {
                assert((y - 1) * w + w == y * w) by (nonlinear_arith);
            }
        }
        let r = PixelBuffer { width: w, height: h, data };
        proof {
            vstd::arithmetic::mul::lemma_mul_is_commutative(w as int, h as int);
            lemma_grid_eq(w as int, h as int, f, r.data@);
            assert(r@ =~= self.apply(buf@));
        }
        r
    }

    fn get_option(&self) -> (r: MosaicFilterOption)
        ensures
            r == self.option,
    {
        self.option
    }

    open spec fn describe_view(&self) -> Seq<char> {
        "Mosaic (size="@ + crate::text::dec_chars(self.option.size as int) + ")"@
    }

    fn describe(&self) -> (r: String) {
        let mut s = "Mosaic (size=".to_owned();
        crate::text::push_u64_dec(&mut s, self.option.size as u64);
        s.append(")");
        s
    }
}

} // verus!
