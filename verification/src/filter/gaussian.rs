//! Weighted blur over a square window, the weight of each neighbour read
//! from a table indexed by its Manhattan distance to the centre pixel, so the
//! blur footprint is a diamond. The table is supplied by the caller (fixed
//! point, one entry per distance `0 ..= 2 * window_size`); the filter forms
//! the weighted mean of the clipped window, truncating to 8 bits per channel.

use vstd::prelude::*;
use vstd::string::StringExecFns;

use crate::arithmetic::{
    lemma_sum1d_bounds, lemma_sum2d_bounds, lemma_sum2d_le, lemma_sum2d_lower_one,
    lemma_sum2d_scale, sum1d, sum2d, TripleNums,
};
use crate::buffer::{grid, lemma_grid_eq, BufView, Pixel, PixelBuffer};
use crate::process::{FilterProcessor, FilterProcessorOptions};

verus! {

/// Channel `c` of `p`: red, green, blue for `0`, `1`, `2`.
pub open spec fn chan(p: Pixel, c: int) -> int {
    if c == 0 {
        p.r as int
    } else if c == 1 {
        p.g as int
    } else {
        p.b as int
    }
}

pub open spec fn absi(t: int) -> int {
    if t >= 0 {
        t
    } else {
        -t
    }
}

/// The Manhattan distance between `(x, y)` and `(i, j)`.
pub open spec fn mdist(x: int, y: int, i: int, j: int) -> int {
    absi(x - i) + absi(y - j)
}

/// The first window coordinate on the canvas, on one axis.
pub open spec fn win_lo(c: int, ws: int) -> int {
    if c - ws > 0 {
        c - ws
    } else {
        0
    }
}

/// One past the last window coordinate on the canvas, on one axis.
pub open spec fn win_hi(c: int, ws: int, bound: int) -> int {
    if c + ws + 1 < bound {
        c + ws + 1
    } else {
        bound
    }
}

/// The weight of window pixel `(x, y)` for centre `(i, j)`.
pub open spec fn gweight(wt: Seq<u32>, i: int, j: int, x: int, y: int) -> int {
    wt[mdist(x, y, i, j)] as int
}

/// The sum of the weights actually used at centre `(i, j)`.
pub open spec fn gauss_wsum(wt: Seq<u32>, ws: int, v: BufView, i: int, j: int) -> int {
    sum2d(
        win_lo(i, ws),
        win_hi(i, ws, v.width),
        win_lo(j, ws),
        win_hi(j, ws, v.height),
        |x: int, y: int| gweight(wt, i, j, x, y),
    )
}

/// The weighted sum of channel `c` over the clipped window at `(i, j)`.
pub open spec fn gauss_csum(wt: Seq<u32>, ws: int, v: BufView, i: int, j: int, c: int) -> int {
    sum2d(
        win_lo(i, ws),
        win_hi(i, ws, v.width),
        win_lo(j, ws),
        win_hi(j, ws, v.height),
        |x: int, y: int| gweight(wt, i, j, x, y) * chan(v.pix(x, y), c),
    )
}

/// The blurred pixel at `(i, j)`: per channel, the weight-weighted mean of
/// the clipped window, truncated.
pub open spec fn gaussian_pix(wt: Seq<u32>, ws: int, v: BufView, i: int, j: int) -> Pixel {
    Pixel {
        r: (gauss_csum(wt, ws, v, i, j, 0) / gauss_wsum(wt, ws, v, i, j)) as u8,
        g: (gauss_csum(wt, ws, v, i, j, 1) / gauss_wsum(wt, ws, v, i, j)) as u8,
        b: (gauss_csum(wt, ws, v, i, j, 2) / gauss_wsum(wt, ws, v, i, j)) as u8,
    }
}

/// The whole-buffer meaning of the blur.
pub open spec fn gaussian_apply(wt: Seq<u32>, ws: int, v: BufView) -> BufView {
    BufView {
        width: v.width,
        height: v.height,
        pixels: grid(v.width, v.height, |x: int, y: int| gaussian_pix(wt, ws, v, x, y)),
    }
}

/// The centre pixel is always inside the clipped window, so the weights
/// actually used sum to at least the table's entry for distance zero.
pub proof fn lemma_wsum_pos(wt: Seq<u32>, ws: int, v: BufView, i: int, j: int)
    requires
        wt.len() == 2 * ws + 1,
        wt[0] >= 1,
        0 <= ws,
        v.wf(),
        v.in_bounds(i, j),
    ensures
        gauss_wsum(wt, ws, v, i, j) >= 1,
{
    let fw = |x: int, y: int| gweight(wt, i, j, x, y);
    lemma_sum2d_lower_one(
        win_lo(i, ws),
        win_hi(i, ws, v.width),
        win_lo(j, ws),
        win_hi(j, ws, v.height),
        fw,
        i,
        j,
    );
    assert(fw(i, j) == wt[0]);
}

/// If every channel-`c` value in the clipped window lies in `[lo, hi]`, the
/// weighted channel sum lies between `lo` and `hi` times the weight sum.
pub proof fn lemma_csum_bounds(
    wt: Seq<u32>, ws: int, v: BufView, i: int, j: int, c: int, lo: int, hi: int,
)
    requires
        v.wf(),
        0 <= lo <= hi,
        forall|x: int, y: int|
            win_lo(i, ws) <= x < win_hi(i, ws, v.width) && win_lo(j, ws) <= y < win_hi(
                j,
                ws,
                v.height,
            ) ==> lo <= #[trigger] chan(v.pix(x, y), c) <= hi,
    ensures
        gauss_wsum(wt, ws, v, i, j) * lo <= gauss_csum(wt, ws, v, i, j, c) <= gauss_wsum(
            wt,
            ws,
            v,
            i,
            j,
        ) * hi,
{
    let x0 = win_lo(i, ws);
    let x1 = win_hi(i, ws, v.width);
    let y0 = win_lo(j, ws);
    let y1 = win_hi(j, ws, v.height);
    let fw = |x: int, y: int| gweight(wt, i, j, x, y);
    let fc = |x: int, y: int| gweight(wt, i, j, x, y) * chan(v.pix(x, y), c);
    let flo = |x: int, y: int| gweight(wt, i, j, x, y) * lo;
    let fhi = |x: int, y: int| gweight(wt, i, j, x, y) * hi;
    assert forall|x: int, y: int| x0 <= x < x1 && y0 <= y < y1 implies #[trigger] flo(x, y) <= fc(
        x,
        y,
    ) by {
        let a = gweight(wt, i, j, x, y);
        let b = chan(v.pix(x, y), c);
        assert(a * lo <= a * b) by (nonlinear_arith)
            requires 0 <= a, lo <= b;
    }
    assert forall|x: int, y: int| x0 <= x < x1 && y0 <= y < y1 implies #[trigger] fc(x, y) <= fhi(
        x,
        y,
    ) by {
        let a = gweight(wt, i, j, x, y);
        let b = chan(v.pix(x, y), c);
        assert(a * b <= a * hi) by (nonlinear_arith)
            requires 0 <= a, b <= hi;
    }
    lemma_sum2d_le(x0, x1, y0, y1, flo, fc);
    lemma_sum2d_le(x0, x1, y0, y1, fc, fhi);
    lemma_sum2d_scale(x0, x1, y0, y1, fw, flo, lo);
    lemma_sum2d_scale(x0, x1, y0, y1, fw, fhi, hi);
}

/// The normalization of the blur: the weights actually used at any canvas
/// pixel sum to at least one, and each output channel stays inside any
/// bounds `[lo, hi]` that hold for that channel across the clipped window —
/// the weighted mean never overshoots the window's values.
pub proof fn lemma_gaussian_normalized(
    wt: Seq<u32>, ws: int, v: BufView, i: int, j: int, c: int, lo: int, hi: int,
)
    requires
        wt.len() == 2 * ws + 1,
        wt[0] >= 1,
        0 <= ws,
        v.wf(),
        v.in_bounds(i, j),
        0 <= c <= 2,
        0 <= lo <= hi <= 255,
        forall|x: int, y: int|
            win_lo(i, ws) <= x < win_hi(i, ws, v.width) && win_lo(j, ws) <= y < win_hi(
                j,
                ws,
                v.height,
            ) ==> lo <= #[trigger] chan(v.pix(x, y), c) <= hi,
    ensures
        gauss_wsum(wt, ws, v, i, j) >= 1,
        lo <= gauss_csum(wt, ws, v, i, j, c) / gauss_wsum(wt, ws, v, i, j) <= hi,
        lo <= chan(gaussian_pix(wt, ws, v, i, j), c) <= hi,
{
    lemma_wsum_pos(wt, ws, v, i, j);
    lemma_csum_bounds(wt, ws, v, i, j, c, lo, hi);
    let wsum = gauss_wsum(wt, ws, v, i, j);
    let csum = gauss_csum(wt, ws, v, i, j, c);
    vstd::arithmetic::div_mod::lemma_div_is_ordered(wsum * lo, csum, wsum);
    vstd::arithmetic::div_mod::lemma_div_is_ordered(csum, wsum * hi, wsum);
    vstd::arithmetic::mul::lemma_mul_is_commutative(wsum, lo);
    vstd::arithmetic::mul::lemma_mul_is_commutative(wsum, hi);
    vstd::arithmetic::div_mod::lemma_div_multiples_vanish(lo, wsum);
    vstd::arithmetic::div_mod::lemma_div_multiples_vanish(hi, wsum);
    assert(lo <= csum / wsum <= hi);
    assert(0 <= csum / wsum <= 255);
    assert(chan(gaussian_pix(wt, ws, v, i, j), c) == csum / wsum);
}

/// The blurred value of one canvas pixel.
#[verifier::rlimit(100)]
fn blur_pixel(weights: &Vec<u32>, ws: u32, buf: &PixelBuffer, i: u32, j: u32) -> (p: Pixel)
    requires
        weights@.len() == 2 * ws + 1,
        weights@[0] >= 1,
        buf.wf(),
        i < buf.width,
        j < buf.height,
    ensures
        p == gaussian_pix(weights@, ws as int, buf@, i as int, j as int),
{
    let w = buf.width;
    let h = buf.height;
    let wlen = weights.len();
    let ghost wt = weights@;
    let ghost wsi = ws as int;
    let ghost vv = buf@;
    let ghost ii = i as int;
    let ghost jj = j as int;
    let left: u32 = if i >= ws { i - ws } else { 0 };
    let top: u32 = if j >= ws { j - ws } else { 0 };
    let right: u32 = {
        let e = i as u64 + ws as u64 + 1;
        if e < w as u64 { e as u32 } else { w }
    };
    let bottom: u32 = {
        let e = j as u64 + ws as u64 + 1;
        if e < h as u64 { e as u32 } else { h }
    };
    let ghost li = left as int;
    let ghost ri = right as int;
    let ghost ti = top as int;
    let ghost bi = bottom as int;
    proof {
        assert(li == win_lo(ii, wsi));
        assert(ri == win_hi(ii, wsi, vv.width));
        assert(ti == win_lo(jj, wsi));
        assert(bi == win_hi(jj, wsi, vv.height));
    }
    let ghost fw = |x: int, y: int| gweight(wt, ii, jj, x, y);
    let ghost fc0 = |x: int, y: int| gweight(wt, ii, jj, x, y) * chan(vv.pix(x, y), 0);
    let ghost fc1 = |x: int, y: int| gweight(wt, ii, jj, x, y) * chan(vv.pix(x, y), 1);
    let ghost fc2 = |x: int, y: int| gweight(wt, ii, jj, x, y) * chan(vv.pix(x, y), 2);
    proof {
        assert forall|x: int, y: int| 0 <= #[trigger] fw(x, y) <= 0xFFFF_FFFF by {}
        assert forall|x: int, y: int| 0 <= #[trigger] fc0(x, y) <= 0xFF_FFFF_FF01 by {
            let a = gweight(wt, ii, jj, x, y);
            let b = chan(vv.pix(x, y), 0);
            assert(0 <= a * b <= 0xFF_FFFF_FF01) by (nonlinear_arith)
                requires 0 <= a <= 0xFFFF_FFFF, 0 <= b <= 255;
        }
        assert forall|x: int, y: int| 0 <= #[trigger] fc1(x, y) <= 0xFF_FFFF_FF01 by {
            let a = gweight(wt, ii, jj, x, y);
            let b = chan(vv.pix(x, y), 1);
            assert(0 <= a * b <= 0xFF_FFFF_FF01) by (nonlinear_arith)
                requires 0 <= a <= 0xFFFF_FFFF, 0 <= b <= 255;
        }
        assert forall|x: int, y: int| 0 <= #[trigger] fc2(x, y) <= 0xFF_FFFF_FF01 by {
            let a = gweight(wt, ii, jj, x, y);
            let b = chan(vv.pix(x, y), 2);
            assert(0 <= a * b <= 0xFF_FFFF_FF01) by (nonlinear_arith)
                requires 0 <= a <= 0xFFFF_FFFF, 0 <= b <= 255;
        }
    }
    let mut acc_w: u128 = 0;
    let mut acc: TripleNums = TripleNums::zero();
    let mut y: u32 = top;
    while y < bottom
        invariant
            top <= y <= bottom,
            acc_w == sum2d(li, ri, ti, y as int, fw),
            acc.c0 == sum2d(li, ri, ti, y as int, fc0),
            acc.c1 == sum2d(li, ri, ti, y as int, fc1),
            acc.c2 == sum2d(li, ri, ti, y as int, fc2),
        decreases bottom - y,
    {
        let ghost yi = y as int;
        let ghost row_w = |xx: int| fw(xx, yi);
        let ghost row_c0 = |xx: int| fc0(xx, yi);
        let ghost row_c1 = |xx: int| fc1(xx, yi);
        let ghost row_c2 = |xx: int| fc2(xx, yi);
        proof {
            lemma_sum2d_bounds(li, ri, ti, yi, fw, 0xFFFF_FFFF);
            lemma_sum2d_bounds(li, ri, ti, yi, fc0, 0xFF_FFFF_FF01);
            lemma_sum2d_bounds(li, ri, ti, yi, fc1, 0xFF_FFFF_FF01);
            lemma_sum2d_bounds(li, ri, ti, yi, fc2, 0xFF_FFFF_FF01);
            assert((ri - li) * (yi - ti) * 0xFFFF_FFFF <= 0x1_0000_0000_0000_0000 * 0xFFFF_FFFF)
                by (nonlinear_arith)
                requires 0 <= ri - li < 0x1_0000_0000, 0 <= yi - ti < 0x1_0000_0000;
            assert((ri - li) * (yi - ti) * 0xFF_FFFF_FF01 <= 0x1_0000_0000_0000_0000
                * 0xFF_FFFF_FF01) by (nonlinear_arith)
                requires 0 <= ri - li < 0x1_0000_0000, 0 <= yi - ti < 0x1_0000_0000;
        }
        let mut x: u32 = left;
        while x < right
            invariant
                left <= x <= right,
                y < bottom,
                acc_w == sum2d(li, ri, ti, yi, fw) + sum1d(li, x as int, row_w),
                acc.c0 == sum2d(li, ri, ti, yi, fc0) + sum1d(li, x as int, row_c0),
                acc.c1 == sum2d(li, ri, ti, yi, fc1) + sum1d(li, x as int, row_c1),
                acc.c2 == sum2d(li, ri, ti, yi, fc2) + sum1d(li, x as int, row_c2),
            decreases right - x,
        {
            let ghost xi = x as int;
            let dx = if x >= i { x - i } else { i - x };
            let dy = if y >= j { y - j } else { j - y };
            proof {
                assert(dx + dy == mdist(xi, yi, ii, jj));
                assert(dx + dy < wlen);
            }
            let d = dx as usize + dy as usize;
            let coeff = weights[d];
            let p = buf.get(x, y);
            proof {
                lemma_sum1d_bounds(li, xi, row_w, 0xFFFF_FFFF);
                lemma_sum1d_bounds(li, xi, row_c0, 0xFF_FFFF_FF01);
                lemma_sum1d_bounds(li, xi, row_c1, 0xFF_FFFF_FF01);
                lemma_sum1d_bounds(li, xi, row_c2, 0xFF_FFFF_FF01);
                assert((xi - li) * 0xFFFF_FFFF <= 0x1_0000_0000 * 0xFFFF_FFFF)
                    by (nonlinear_arith)
                    requires 0 <= xi - li < 0x1_0000_0000;
                assert((xi - li) * 0xFF_FFFF_FF01 <= 0x1_0000_0000 * 0xFF_FFFF_FF01)
                    by (nonlinear_arith)
                    requires 0 <= xi - li < 0x1_0000_0000;
                assert((coeff as int) * (p.r as int) <= 0xFF_FFFF_FF01 && (coeff as int) * (
                p.g as int) <= 0xFF_FFFF_FF01 && (coeff as int) * (p.b as int) <= 0xFF_FFFF_FF01)
                    by (nonlinear_arith)
                    requires
                        0 <= coeff <= 0xFFFF_FFFF,
                        0 <= p.r <= 255,
                        0 <= p.g <= 255,
                        0 <= p.b <= 255;
            }
            acc_w = acc_w + coeff as u128;
            let wterm = TripleNums {
                c0: (coeff as u128) * (p.r as u128),
                c1: (coeff as u128) * (p.g as u128),
                c2: (coeff as u128) * (p.b as u128),
            };
            acc = acc.add3(wterm);
            x = x + 1;
            proof {
                assert(row_w(xi) == coeff);
                assert(row_c0(xi) == coeff * chan(vv.pix(xi, yi), 0));
                assert(sum1d(li, xi + 1, row_w) == sum1d(li, xi, row_w) + row_w(xi));
                assert(sum1d(li, xi + 1, row_c0) == sum1d(li, xi, row_c0) + row_c0(xi));
                assert(sum1d(li, xi + 1, row_c1) == sum1d(li, xi, row_c1) + row_c1(xi));
                assert(sum1d(li, xi + 1, row_c2) == sum1d(li, xi, row_c2) + row_c2(xi));
            }
        }
        y = y + 1;
        proof {
            assert(sum2d(li, ri, ti, yi + 1, fw) == sum2d(li, ri, ti, yi, fw) + sum1d(
                li,
                ri,
                |xx: int| fw(xx, yi),
            ));
            assert(sum2d(li, ri, ti, yi + 1, fc0) == sum2d(li, ri, ti, yi, fc0) + sum1d(
                li,
                ri,
                |xx: int| fc0(xx, yi),
            ));
            assert(sum2d(li, ri, ti, yi + 1, fc1) == sum2d(li, ri, ti, yi, fc1) + sum1d(
                li,
                ri,
                |xx: int| fc1(xx, yi),
            ));
            assert(sum2d(li, ri, ti, yi + 1, fc2) == sum2d(li, ri, ti, yi, fc2) + sum1d(
                li,
                ri,
                |xx: int| fc2(xx, yi),
            ));
        }
    }
    proof {
        assert(acc_w == gauss_wsum(wt, wsi, vv, ii, jj));
        assert(acc.c0 == gauss_csum(wt, wsi, vv, ii, jj, 0));
        assert(acc.c1 == gauss_csum(wt, wsi, vv, ii, jj, 1));
        assert(acc.c2 == gauss_csum(wt, wsi, vv, ii, jj, 2));
        lemma_gaussian_normalized(wt, wsi, vv, ii, jj, 0, 0, 255);
        lemma_gaussian_normalized(wt, wsi, vv, ii, jj, 1, 0, 255);
        lemma_gaussian_normalized(wt, wsi, vv, ii, jj, 2, 0, 255);
    }
    let q = acc.div_scalar(acc_w);
    let (pr, pg, pb) = q.to_u8();
    Pixel { r: pr, g: pg, b: pb }
}

/// Configuration of [`GaussianFilter`]: the window half-width and the weight
/// table, one fixed-point entry per Manhattan distance `0 ..= 2 * window_size`.
#[derive(Debug, Clone)]
pub struct GaussianFilterOption {
    pub window_size: u32,
    pub weights: Vec<u32>,
}

impl GaussianFilterOption {
    /// A usable table has one entry per distance and gives the centre pixel
    /// (distance zero) a positive weight, so means are well defined.
    pub open spec fn wf(self) -> bool {
        &&& self.weights@.len() == 2 * self.window_size + 1
        &&& self.weights@[0] >= 1
    }

    pub fn new(window_size: u32, weights: Vec<u32>) -> (r: GaussianFilterOption)
        ensures
            r.window_size == window_size,
            r.weights == weights,
    {
        GaussianFilterOption { window_size, weights }
    }
}

impl FilterProcessorOptions for GaussianFilterOption {

}

/// The diamond-footprint weighted blur.
#[derive(Debug, Clone)]
pub struct GaussianFilter {
    pub option: GaussianFilterOption,
}

impl GaussianFilter {
    pub fn new(option: GaussianFilterOption) -> (r: GaussianFilter)
        ensures
            r.option == option,
    {
        GaussianFilter { option }
    }
}

impl FilterProcessor for GaussianFilter {
    type OptionsType = GaussianFilterOption;

    open spec fn wf(&self) -> bool {
        self.option.wf()
    }

    open spec fn apply(&self, v: BufView) -> BufView {
        gaussian_apply(self.option.weights@, self.option.window_size as int, v)
    }

    proof fn apply_dims(&self, v: BufView) {
        assert(0 <= v.width * v.height) by (nonlinear_arith)
            requires 0 <= v.width, 0 <= v.height;
    }

    fn process(&self, buf: &PixelBuffer) -> (r: PixelBuffer) {
        let ws = self.option.window_size;
        let w = buf.width;
        let h = buf.height;
        let ghost wt = self.option.weights@;
        let ghost wsi = ws as int;
        let ghost vv = buf@;
        let ghost gp = |x: int, y: int| gaussian_pix(wt, wsi, vv, x, y);
        let mut data: Vec<Pixel> = Vec::new();
        let mut j: u32 = 0;
        while j < h
            invariant
                j <= h,
                data@.len() == j * w,
                forall|x2: int, y2: int|
                    0 <= x2 < w && 0 <= y2 < j ==> data@[y2 * w + x2] == #[trigger] gp(x2, y2),
            decreases h - j,
        {
            let mut i: u32 = 0;
            while i < w
                invariant
                    j < h,
                    i <= w,
                    data@.len() == j * w + i,
                    forall|x2: int, y2: int|
                        0 <= x2 < w && 0 <= y2 < j ==> data@[y2 * w + x2] == #[trigger] gp(x2, y2),
                    forall|x2: int| 0 <= x2 < i ==> data@[j * w + x2] == #[trigger] gp(x2, j as int),
                decreases w - i,
            {
                let p = blur_pixel(&self.option.weights, ws, buf, i, j);
                data.push(p);
                i = i + 1;
                proof {
                    assert forall|x2: int, y2: int| 0 <= x2 < w && 0 <= y2 < j implies data@[y2 * w
                        + x2] == #[trigger] gp(x2, y2) by {
                        crate::buffer::lemma_pix_index(w as int, j as int, x2, y2);
                        vstd::arithmetic::mul::lemma_mul_is_commutative(w as int, j as int);
                    }
                }
            }
            j = j + 1;
            proof {
                assert((j - 1) * w + w == j * w) by (nonlinear_arith);
            }
        }
        let r = PixelBuffer { width: w, height: h, data };
        proof {
            vstd::arithmetic::mul::lemma_mul_is_commutative(w as int, h as int);
            lemma_grid_eq(w as int, h as int, gp, r.data@);
            assert(r@ =~= self.apply(buf@));
        }
        r
    }

    fn get_option(&self) -> (r: GaussianFilterOption)
        ensures
            r.window_size == self.option.window_size,
            r.weights@ == self.option.weights@,
    {
        let weights = self.option.weights.clone();
        proof {
            assert forall|i: int| 0 <= i < weights@.len() implies weights@[i]
                == self.option.weights@[i] by {
            }
            assert(weights@ =~= self.option.weights@);
        }
        GaussianFilterOption { window_size: self.option.window_size, weights }
    }

    open spec fn describe_view(&self) -> Seq<char> {
        "Gaussian (window_size="@ + crate::text::dec_chars(self.option.window_size as int) + ")"@
    }

    fn describe(&self) -> (r: String) {
        let mut s = "Gaussian (window_size=".to_owned();
        crate::text::push_u64_dec(&mut s, self.option.window_size as u64);
        s.append(")");
        s
    }
}

} // verus!
