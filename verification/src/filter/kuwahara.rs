//! Kuwahara smoothing: of the four overlapping quadrant windows around each
//! pixel, take the per-channel mean of the one with the smallest summed
//! per-channel population variance, earlier quadrants winning ties.
//!
//! Variances are compared exactly: for quadrant areas `n` and channel sums
//! `s` and square sums `q`, the summed variance is `(n * Σq - Σs²) / n²`, and
//! two quadrants are compared by cross-multiplying with the squared areas, so
//! no rounding enters the choice.

use vstd::prelude::*;
use vstd::string::StringExecFns;

use crate::arithmetic::{
    lemma_sum1d_bounds, lemma_sum2d_bounds, lemma_sum2d_const, sum1d, sum2d, TripleNums,
};
use crate::buffer::{grid, lemma_grid_eq, BufView, Pixel, PixelBuffer};
use crate::filter::gaussian::chan;
use crate::process::{FilterProcessor, FilterProcessorOptions};

verus! {

/// The three quadrant edge markers along one axis: for centre `c`, window
/// `ws` and axis bound `bound`, positions `max(c + 1 - ws, 0)`, `c`, and
/// `min(c + ws, bound) - 1`.
pub open spec fn edge(c: int, ws: int, bound: int, k: int) -> int {
    if k == 0 {
        if c + 1 - ws > 0 {
            c + 1 - ws
        } else {
            0
        }
    } else if k == 1 {
        c
    } else {
        (if c + ws < bound {
            c + ws
        } else {
            bound
        }) - 1
    }
}

/// Quadrant `q` (0 to 3) spans columns `edge(q / 2) ..= edge(q / 2 + 1)` and
/// rows `edge(q % 2) ..= edge(q % 2 + 1)`. These give the exclusive bounds.
pub open spec fn quad_x0(v: BufView, ws: int, i: int, q: int) -> int {
    edge(i, ws, v.width, q / 2)
}

pub open spec fn quad_x1(v: BufView, ws: int, i: int, q: int) -> int {
    edge(i, ws, v.width, q / 2 + 1) + 1
}

pub open spec fn quad_y0(v: BufView, ws: int, j: int, q: int) -> int {
    edge(j, ws, v.height, q % 2)
}

pub open spec fn quad_y1(v: BufView, ws: int, j: int, q: int) -> int {
    edge(j, ws, v.height, q % 2 + 1) + 1
}

/// The number of pixels in quadrant `q`.
pub open spec fn quad_n(v: BufView, ws: int, i: int, j: int, q: int) -> int {
    (quad_x1(v, ws, i, q) - quad_x0(v, ws, i, q)) * (quad_y1(v, ws, j, q) - quad_y0(v, ws, j, q))
}

/// The sum of channel `c` over quadrant `q`.
pub open spec fn quad_csum(v: BufView, ws: int, i: int, j: int, q: int, c: int) -> int {
    sum2d(
        quad_x0(v, ws, i, q),
        quad_x1(v, ws, i, q),
        quad_y0(v, ws, j, q),
        quad_y1(v, ws, j, q),
        |x: int, y: int| chan(v.pix(x, y), c),
    )
}

/// The sum of squared channel `c` over quadrant `q`.
pub open spec fn quad_qsum(v: BufView, ws: int, i: int, j: int, q: int, c: int) -> int {
    sum2d(
        quad_x0(v, ws, i, q),
        quad_x1(v, ws, i, q),
        quad_y0(v, ws, j, q),
        quad_y1(v, ws, j, q),
        |x: int, y: int| chan(v.pix(x, y), c) * chan(v.pix(x, y), c),
    )
}

/// `n²` times the summed per-channel population variance of quadrant `q`:
/// `Σ_c (n * Σx_c² - (Σx_c)²)`.
pub open spec fn quad_var_num(v: BufView, ws: int, i: int, j: int, q: int) -> int {
    let n = quad_n(v, ws, i, j, q);
    let qtot = quad_qsum(v, ws, i, j, q, 0) + quad_qsum(v, ws, i, j, q, 1) + quad_qsum(
        v,
        ws,
        i,
        j,
        q,
        2,
    );
    let s0 = quad_csum(v, ws, i, j, q, 0);
    let s1 = quad_csum(v, ws, i, j, q, 1);
    let s2 = quad_csum(v, ws, i, j, q, 2);
    n * qtot - (s0 * s0 + s1 * s1 + s2 * s2)
}

/// Quadrant `qa` has strictly smaller summed variance than `qb`: the exact
/// rational comparison `var(qa) / n(qa)² < var(qb) / n(qb)²`, cross-multiplied.
pub open spec fn lt_var(v: BufView, ws: int, i: int, j: int, qa: int, qb: int) -> bool {
    let na = quad_n(v, ws, i, j, qa);
    let nb = quad_n(v, ws, i, j, qb);
    quad_var_num(v, ws, i, j, qa) * (nb * nb) < quad_var_num(v, ws, i, j, qb) * (na * na)
}

/// The quadrant with the smallest summed variance, the first of the order
/// 0, 1, 2, 3 winning ties.
pub open spec fn best_quad(v: BufView, ws: int, i: int, j: int) -> int {
    let b1 = if lt_var(v, ws, i, j, 1, 0) {
        1int
    } else {
        0int
    };
    let b2 = if lt_var(v, ws, i, j, 2, b1) {
        2int
    } else {
        b1
    };
    if lt_var(v, ws, i, j, 3, b2) {
        3int
    } else {
        b2
    }
}

/// The per-channel mean of quadrant `q`, truncated to 8 bits.
pub open spec fn quad_mean(v: BufView, ws: int, i: int, j: int, q: int) -> Pixel {
    Pixel {
        r: (quad_csum(v, ws, i, j, q, 0) / quad_n(v, ws, i, j, q)) as u8,
        g: (quad_csum(v, ws, i, j, q, 1) / quad_n(v, ws, i, j, q)) as u8,
        b: (quad_csum(v, ws, i, j, q, 2) / quad_n(v, ws, i, j, q)) as u8,
    }
}

/// The smoothed pixel at `(i, j)`.
pub open spec fn kuwahara_pix(v: BufView, ws: int, i: int, j: int) -> Pixel {
    quad_mean(v, ws, i, j, best_quad(v, ws, i, j))
}

/// The whole-buffer meaning of the smoothing.
pub open spec fn kuwahara_apply(ws: int, v: BufView) -> BufView {
    BufView {
        width: v.width,
        height: v.height,
        pixels: grid(v.width, v.height, |x: int, y: int| kuwahara_pix(v, ws, x, y)),
    }
}

/// Every quadrant contains the centre pixel and spans at most `ws` pixels on
/// each axis.
pub proof fn lemma_quad_geometry(v: BufView, ws: int, i: int, j: int, q: int)
    requires
        v.wf(),
        1 <= ws,
        0 <= i < v.width,
        0 <= j < v.height,
        0 <= q < 4,
    ensures
        0 <= quad_x0(v, ws, i, q) <= i < quad_x1(v, ws, i, q) <= v.width,
        0 <= quad_y0(v, ws, j, q) <= j < quad_y1(v, ws, j, q) <= v.height,
        quad_x1(v, ws, i, q) - quad_x0(v, ws, i, q) <= ws,
        quad_y1(v, ws, j, q) - quad_y0(v, ws, j, q) <= ws,
        1 <= quad_n(v, ws, i, j, q),
        quad_n(v, ws, i, j, q) <= ws * ws,
{
    let dx = quad_x1(v, ws, i, q) - quad_x0(v, ws, i, q);
    let dy = quad_y1(v, ws, j, q) - quad_y0(v, ws, j, q);
    assert(1 <= dx * dy && dx * dy <= ws * ws) by (nonlinear_arith)
        requires 1 <= dx <= ws, 1 <= dy <= ws;
}

/// On a buffer whose pixels are all the same colour, the smoothing returns
/// the buffer unchanged: every quadrant's variance is zero, the first
/// quadrant wins, and its mean is the constant colour.
pub proof fn lemma_kuwahara_flat(ws: int, v: BufView, p0: Pixel)
    requires
        v.wf(),
        1 <= ws,
        forall|k: int| 0 <= k < v.pixels.len() ==> v.pixels[k] == p0,
    ensures
        kuwahara_apply(ws, v) == v,
{
    let w = v.width;
    let h = v.height;
    let cr = p0.r as int;
    let cg = p0.g as int;
    let cb = p0.b as int;
    assert forall|x: int, y: int| 0 <= x < w && 0 <= y < h implies #[trigger] kuwahara_pix(
        v,
        ws,
        x,
        y,
    ) == p0 by {
        assert forall|q: int| 0 <= q < 4 implies {
            &&& #[trigger] quad_var_num(v, ws, x, y, q) == 0
            &&& quad_csum(v, ws, x, y, q, 0) == quad_n(v, ws, x, y, q) * cr
            &&& quad_csum(v, ws, x, y, q, 1) == quad_n(v, ws, x, y, q) * cg
            &&& quad_csum(v, ws, x, y, q, 2) == quad_n(v, ws, x, y, q) * cb
            &&& 1 <= quad_n(v, ws, x, y, q)
        } by {
            lemma_quad_geometry(v, ws, x, y, q);
            let x0 = quad_x0(v, ws, x, q);
            let x1 = quad_x1(v, ws, x, q);
            let y0 = quad_y0(v, ws, y, q);
            let y1 = quad_y1(v, ws, y, q);
            let n = quad_n(v, ws, x, y, q);
            assert forall|px: int, py: int| x0 <= px < x1 && y0 <= py < y1 implies #[trigger] v.pix(
                px,
                py,
            ) == p0 by {
                crate::buffer::lemma_pix_index(w, h, px, py);
            }
            lemma_sum2d_const(x0, x1, y0, y1, |xx: int, yy: int| chan(v.pix(xx, yy), 0), cr);
            lemma_sum2d_const(x0, x1, y0, y1, |xx: int, yy: int| chan(v.pix(xx, yy), 1), cg);
            lemma_sum2d_const(x0, x1, y0, y1, |xx: int, yy: int| chan(v.pix(xx, yy), 2), cb);
            lemma_sum2d_const(
                x0,
                x1,
                y0,
                y1,
                |xx: int, yy: int| chan(v.pix(xx, yy), 0) * chan(v.pix(xx, yy), 0),
                cr * cr,
            );
            lemma_sum2d_const(
                x0,
                x1,
                y0,
                y1,
                |xx: int, yy: int| chan(v.pix(xx, yy), 1) * chan(v.pix(xx, yy), 1),
                cg * cg,
            );
            lemma_sum2d_const(
                x0,
                x1,
                y0,
                y1,
                |xx: int, yy: int| chan(v.pix(xx, yy), 2) * chan(v.pix(xx, yy), 2),
                cb * cb,
            );
            let s0v = quad_csum(v, ws, x, y, q, 0);
            let s1v = quad_csum(v, ws, x, y, q, 1);
            let s2v = quad_csum(v, ws, x, y, q, 2);
            let q0v = quad_qsum(v, ws, x, y, q, 0);
            let q1v = quad_qsum(v, ws, x, y, q, 1);
            let q2v = quad_qsum(v, ws, x, y, q, 2);
            assert(s0v == (x1 - x0) * (y1 - y0) * cr);
            assert(n * (q0v + q1v + q2v) == n * q0v + n * q1v + n * q2v) by (nonlinear_arith);
            assert(n * (n * (cr * cr)) == (n * cr) * (n * cr)) by (nonlinear_arith);
            assert(n * (n * (cg * cg)) == (n * cg) * (n * cg)) by (nonlinear_arith);
            assert(n * (n * (cb * cb)) == (n * cb) * (n * cb)) by (nonlinear_arith);
            assert(n * (q0v + q1v + q2v) - (s0v * s0v + s1v * s1v + s2v * s2v) == 0);
        }
        assert forall|qa: int, qb: int| 0 <= qa < 4 && 0 <= qb < 4 implies !#[trigger] lt_var(
            v,
            ws,
            x,
            y,
            qa,
            qb,
        ) by {
            let na = quad_n(v, ws, x, y, qa);
            let nb = quad_n(v, ws, x, y, qb);
            let va = quad_var_num(v, ws, x, y, qa);
            let vb = quad_var_num(v, ws, x, y, qb);
            assert(va * (nb * nb) == 0 && vb * (na * na) == 0) by (nonlinear_arith)
                requires va == 0, vb == 0;
        }
        assert(best_quad(v, ws, x, y) == 0);
        let n0 = quad_n(v, ws, x, y, 0);
        vstd::arithmetic::div_mod::lemma_div_multiples_vanish(cr, n0);
        vstd::arithmetic::div_mod::lemma_div_multiples_vanish(cg, n0);
        vstd::arithmetic::div_mod::lemma_div_multiples_vanish(cb, n0);
    }
    assert forall|x: int, y: int| 0 <= x < w && 0 <= y < h implies v.pixels[y * w + x]
        == #[trigger] kuwahara_pix(v, ws, x, y) by {
        crate::buffer::lemma_pix_index(w, h, x, y);
    }
    lemma_grid_eq(w, h, |x: int, y: int| kuwahara_pix(v, ws, x, y), v.pixels);
    assert(kuwahara_apply(ws, v) =~= v);
}

/// Quadrant means are 8-bit values: each channel mean lies in `0 ..= 255`.
pub proof fn lemma_quad_mean_range(v: BufView, ws: int, i: int, j: int, q: int)
    requires
        v.wf(),
        1 <= ws,
        0 <= i < v.width,
        0 <= j < v.height,
        0 <= q < 4,
    ensures
        1 <= quad_n(v, ws, i, j, q),
        0 <= quad_csum(v, ws, i, j, q, 0) / quad_n(v, ws, i, j, q) <= 255,
        0 <= quad_csum(v, ws, i, j, q, 1) / quad_n(v, ws, i, j, q) <= 255,
        0 <= quad_csum(v, ws, i, j, q, 2) / quad_n(v, ws, i, j, q) <= 255,
        0 <= quad_csum(v, ws, i, j, q, 0) <= 255 * quad_n(v, ws, i, j, q),
        0 <= quad_csum(v, ws, i, j, q, 1) <= 255 * quad_n(v, ws, i, j, q),
        0 <= quad_csum(v, ws, i, j, q, 2) <= 255 * quad_n(v, ws, i, j, q),
{
    lemma_quad_geometry(v, ws, i, j, q);
    let x0 = quad_x0(v, ws, i, q);
    let x1 = quad_x1(v, ws, i, q);
    let y0 = quad_y0(v, ws, j, q);
    let y1 = quad_y1(v, ws, j, q);
    let n = quad_n(v, ws, i, j, q);
    lemma_sum2d_bounds(x0, x1, y0, y1, |x: int, y: int| chan(v.pix(x, y), 0), 255);
    lemma_sum2d_bounds(x0, x1, y0, y1, |x: int, y: int| chan(v.pix(x, y), 1), 255);
    lemma_sum2d_bounds(x0, x1, y0, y1, |x: int, y: int| chan(v.pix(x, y), 2), 255);
    vstd::arithmetic::div_mod::lemma_div_pos_is_pos(quad_csum(v, ws, i, j, q, 0), n);
    vstd::arithmetic::div_mod::lemma_div_pos_is_pos(quad_csum(v, ws, i, j, q, 1), n);
    vstd::arithmetic::div_mod::lemma_div_pos_is_pos(quad_csum(v, ws, i, j, q, 2), n);
    vstd::arithmetic::div_mod::lemma_div_is_ordered(quad_csum(v, ws, i, j, q, 0), n * 255, n);
    vstd::arithmetic::div_mod::lemma_div_is_ordered(quad_csum(v, ws, i, j, q, 1), n * 255, n);
    vstd::arithmetic::div_mod::lemma_div_is_ordered(quad_csum(v, ws, i, j, q, 2), n * 255, n);
    vstd::arithmetic::div_mod::lemma_div_multiples_vanish(255, n);
}

/// The pixel count, channel sums, and channel square sums of quadrant `q`
/// around `(i, j)`.
#[verifier::rlimit(100)]
fn quad_stats(buf: &PixelBuffer, ws: u32, i: u32, j: u32, q: u32) -> (r: (u128, TripleNums, TripleNums))
    requires
        buf.wf(),
        1 <= ws <= 0x2000,
        i < buf.width,
        j < buf.height,
        q < 4,
    ensures
        r.0 == quad_n(buf@, ws as int, i as int, j as int, q as int),
        1 <= r.0 <= 0x400_0000,
        r.1.c0 == quad_csum(buf@, ws as int, i as int, j as int, q as int, 0),
        r.1.c1 == quad_csum(buf@, ws as int, i as int, j as int, q as int, 1),
        r.1.c2 == quad_csum(buf@, ws as int, i as int, j as int, q as int, 2),
        r.2.c0 == quad_qsum(buf@, ws as int, i as int, j as int, q as int, 0),
        r.2.c1 == quad_qsum(buf@, ws as int, i as int, j as int, q as int, 1),
        r.2.c2 == quad_qsum(buf@, ws as int, i as int, j as int, q as int, 2),
        r.1.c0 <= 255 * r.0 && r.1.c1 <= 255 * r.0 && r.1.c2 <= 255 * r.0,
        r.2.c0 <= 0xFE01 * r.0 && r.2.c1 <= 0xFE01 * r.0 && r.2.c2 <= 0xFE01 * r.0,
{
    let w = buf.width;
    let h = buf.height;
    let ghost vv = buf@;
    let ghost wsi = ws as int;
    let ghost ii = i as int;
    let ghost jj = j as int;
    let ghost qi = q as int;
    let bx = q / 2;
    let by = q % 2;
    let x0: u32 = if bx == 0 {
        if i + 1 > ws { i + 1 - ws } else { 0 }
    } else {
        i
    };
    let x1: u32 = if bx == 0 {
        i + 1
    } else {
        let e = i as u64 + ws as u64;
        if e < w as u64 { e as u32 } else { w }
    };
    let y0: u32 = if by == 0 {
        if j + 1 > ws { j + 1 - ws } else { 0 }
    } else {
        j
    };
    let y1: u32 = if by == 0 {
        j + 1
    } else {
        let e = j as u64 + ws as u64;
        if e < h as u64 { e as u32 } else { h }
    };
    let ghost x0i = x0 as int;
    let ghost x1i = x1 as int;
    let ghost y0i = y0 as int;
    let ghost y1i = y1 as int;
    proof {
        lemma_quad_geometry(vv, wsi, ii, jj, qi);
        assert(x0i == quad_x0(vv, wsi, ii, qi));
        assert(x1i == quad_x1(vv, wsi, ii, qi));
        assert(y0i == quad_y0(vv, wsi, jj, qi));
        assert(y1i == quad_y1(vv, wsi, jj, qi));
    }
    let ghost fs0 = |x: int, y: int| chan(vv.pix(x, y), 0);
    let ghost fs1 = |x: int, y: int| chan(vv.pix(x, y), 1);
    let ghost fs2 = |x: int, y: int| chan(vv.pix(x, y), 2);
    let ghost fq0 = |x: int, y: int| chan(vv.pix(x, y), 0) * chan(vv.pix(x, y), 0);
    let ghost fq1 = |x: int, y: int| chan(vv.pix(x, y), 1) * chan(vv.pix(x, y), 1);
    let ghost fq2 = |x: int, y: int| chan(vv.pix(x, y), 2) * chan(vv.pix(x, y), 2);
    proof {
        assert forall|x: int, y: int| 0 <= #[trigger] fs0(x, y) <= 255 by {}
        assert forall|x: int, y: int| 0 <= #[trigger] fs1(x, y) <= 255 by {}
        assert forall|x: int, y: int| 0 <= #[trigger] fs2(x, y) <= 255 by {}
        assert forall|x: int, y: int| 0 <= #[trigger] fq0(x, y) <= 0xFE01 by {
            let a = chan(vv.pix(x, y), 0);
            assert(0 <= a * a <= 0xFE01) by (nonlinear_arith)
                requires 0 <= a <= 255;
        }
        assert forall|x: int, y: int| 0 <= #[trigger] fq1(x, y) <= 0xFE01 by {
            let a = chan(vv.pix(x, y), 1);
            assert(0 <= a * a <= 0xFE01) by (nonlinear_arith)
                requires 0 <= a <= 255;
        }
        assert forall|x: int, y: int| 0 <= #[trigger] fq2(x, y) <= 0xFE01 by {
            let a = chan(vv.pix(x, y), 2);
            assert(0 <= a * a <= 0xFE01) by (nonlinear_arith)
                requires 0 <= a <= 255;
        }
    }
    let mut s = TripleNums::zero();
    let mut qq = TripleNums::zero();
    let mut y: u32 = y0;
    while y < y1
        invariant
            y0 <= y <= y1,
            s.c0 == sum2d(x0i, x1i, y0i, y as int, fs0),
            s.c1 == sum2d(x0i, x1i, y0i, y as int, fs1),
            s.c2 == sum2d(x0i, x1i, y0i, y as int, fs2),
            qq.c0 == sum2d(x0i, x1i, y0i, y as int, fq0),
            qq.c1 == sum2d(x0i, x1i, y0i, y as int, fq1),
            qq.c2 == sum2d(x0i, x1i, y0i, y as int, fq2),
        decreases y1 - y,
    {
        let ghost yi = y as int;
        let ghost row_s0 = |xx: int| fs0(xx, yi);
        let ghost row_s1 = |xx: int| fs1(xx, yi);
        let ghost row_s2 = |xx: int| fs2(xx, yi);
        let ghost row_q0 = |xx: int| fq0(xx, yi);
        let ghost row_q1 = |xx: int| fq1(xx, yi);
        let ghost row_q2 = |xx: int| fq2(xx, yi);
        proof {
            lemma_sum2d_bounds(x0i, x1i, y0i, yi, fs0, 255);
            lemma_sum2d_bounds(x0i, x1i, y0i, yi, fs1, 255);
            lemma_sum2d_bounds(x0i, x1i, y0i, yi, fs2, 255);
            lemma_sum2d_bounds(x0i, x1i, y0i, yi, fq0, 0xFE01);
            lemma_sum2d_bounds(x0i, x1i, y0i, yi, fq1, 0xFE01);
            lemma_sum2d_bounds(x0i, x1i, y0i, yi, fq2, 0xFE01);
            assert((x1i - x0i) * (yi - y0i) * 0xFE01 <= 0x2000 * 0x2000 * 0xFE01)
                by (nonlinear_arith)
                requires 0 <= x1i - x0i <= 0x2000, 0 <= yi - y0i <= 0x2000;
            assert((x1i - x0i) * (yi - y0i) * 255 <= 0x2000 * 0x2000 * 255) by (nonlinear_arith)
                requires 0 <= x1i - x0i <= 0x2000, 0 <= yi - y0i <= 0x2000;
        }
        let mut x: u32 = x0;
        while x < x1
            invariant
                x0 <= x <= x1,
                y < y1,
                s.c0 == sum2d(x0i, x1i, y0i, yi, fs0) + sum1d(x0i, x as int, row_s0),
                s.c1 == sum2d(x0i, x1i, y0i, yi, fs1) + sum1d(x0i, x as int, row_s1),
                s.c2 == sum2d(x0i, x1i, y0i, yi, fs2) + sum1d(x0i, x as int, row_s2),
                qq.c0 == sum2d(x0i, x1i, y0i, yi, fq0) + sum1d(x0i, x as int, row_q0),
                qq.c1 == sum2d(x0i, x1i, y0i, yi, fq1) + sum1d(x0i, x as int, row_q1),
                qq.c2 == sum2d(x0i, x1i, y0i, yi, fq2) + sum1d(x0i, x as int, row_q2),
            decreases x1 - x,
        {
            let ghost xi = x as int;
            let p = buf.get(x, y);
            proof {
                lemma_sum1d_bounds(x0i, xi, row_s0, 255);
                lemma_sum1d_bounds(x0i, xi, row_s1, 255);
                lemma_sum1d_bounds(x0i, xi, row_s2, 255);
                lemma_sum1d_bounds(x0i, xi, row_q0, 0xFE01);
                lemma_sum1d_bounds(x0i, xi, row_q1, 0xFE01);
                lemma_sum1d_bounds(x0i, xi, row_q2, 0xFE01);
                assert((xi - x0i) * 0xFE01 <= 0x2000 * 0xFE01) by (nonlinear_arith)
                    requires 0 <= xi - x0i <= 0x2000;
                assert((xi - x0i) * 255 <= 0x2000 * 255) by (nonlinear_arith)
                    requires 0 <= xi - x0i <= 0x2000;
                assert((p.r as int) * (p.r as int) <= 0xFE01 && (p.g as int) * (p.g as int)
                    <= 0xFE01 && (p.b as int) * (p.b as int) <= 0xFE01) by (nonlinear_arith)
                    requires 0 <= p.r <= 255, 0 <= p.g <= 255, 0 <= p.b <= 255;
            }
            s = s.add3(TripleNums { c0: p.r as u128, c1: p.g as u128, c2: p.b as u128 });
            qq = qq.add3(
                TripleNums {
                    c0: (p.r as u128) * (p.r as u128),
                    c1: (p.g as u128) * (p.g as u128),
                    c2: (p.b as u128) * (p.b as u128),
                },
            );
            x = x + 1;
            proof {
                assert(row_s0(xi) == chan(vv.pix(xi, yi), 0));
                assert(row_q0(xi) == chan(vv.pix(xi, yi), 0) * chan(vv.pix(xi, yi), 0));
                assert(sum1d(x0i, xi + 1, row_s0) == sum1d(x0i, xi, row_s0) + row_s0(xi));
                assert(sum1d(x0i, xi + 1, row_s1) == sum1d(x0i, xi, row_s1) + row_s1(xi));
                assert(sum1d(x0i, xi + 1, row_s2) == sum1d(x0i, xi, row_s2) + row_s2(xi));
                assert(sum1d(x0i, xi + 1, row_q0) == sum1d(x0i, xi, row_q0) + row_q0(xi));
                assert(sum1d(x0i, xi + 1, row_q1) == sum1d(x0i, xi, row_q1) + row_q1(xi));
                assert(sum1d(x0i, xi + 1, row_q2) == sum1d(x0i, xi, row_q2) + row_q2(xi));
            }
        }
        y = y + 1;
        proof {
            assert(sum2d(x0i, x1i, y0i, yi + 1, fs0) == sum2d(x0i, x1i, y0i, yi, fs0) + sum1d(
                x0i,
                x1i,
                |xx: int| fs0(xx, yi),
            ));
            assert(sum2d(x0i, x1i, y0i, yi + 1, fs1) == sum2d(x0i, x1i, y0i, yi, fs1) + sum1d(
                x0i,
                x1i,
                |xx: int| fs1(xx, yi),
            ));
            assert(sum2d(x0i, x1i, y0i, yi + 1, fs2) == sum2d(x0i, x1i, y0i, yi, fs2) + sum1d(
                x0i,
                x1i,
                |xx: int| fs2(xx, yi),
            ));
            assert(sum2d(x0i, x1i, y0i, yi + 1, fq0) == sum2d(x0i, x1i, y0i, yi, fq0) + sum1d(
                x0i,
                x1i,
                |xx: int| fq0(xx, yi),
            ));
            assert(sum2d(x0i, x1i, y0i, yi + 1, fq1) == sum2d(x0i, x1i, y0i, yi, fq1) + sum1d(
                x0i,
                x1i,
                |xx: int| fq1(xx, yi),
            ));
            assert(sum2d(x0i, x1i, y0i, yi + 1, fq2) == sum2d(x0i, x1i, y0i, yi, fq2) + sum1d(
                x0i,
                x1i,
                |xx: int| fq2(xx, yi),
            ));
        }
    }
    proof {
        assert(1 <= (x1i - x0i) * (y1i - y0i) <= 0x400_0000) by (nonlinear_arith)
            requires 1 <= x1i - x0i <= 0x2000, 1 <= y1i - y0i <= 0x2000;
    }
    let n: u128 = ((x1 - x0) as u128) * ((y1 - y0) as u128);
    proof {
        lemma_sum2d_bounds(x0i, x1i, y0i, y1i, fs0, 255);
        lemma_sum2d_bounds(x0i, x1i, y0i, y1i, fs1, 255);
        lemma_sum2d_bounds(x0i, x1i, y0i, y1i, fs2, 255);
        lemma_sum2d_bounds(x0i, x1i, y0i, y1i, fq0, 0xFE01);
        lemma_sum2d_bounds(x0i, x1i, y0i, y1i, fq1, 0xFE01);
        lemma_sum2d_bounds(x0i, x1i, y0i, y1i, fq2, 0xFE01);
        assert((x1i - x0i) * (y1i - y0i) * 255 == 255 * ((x1i - x0i) * (y1i - y0i)))
            by (nonlinear_arith);
        assert((x1i - x0i) * (y1i - y0i) * 0xFE01 == 0xFE01 * ((x1i - x0i) * (y1i - y0i)))
            by (nonlinear_arith);
    }
    (n, s, qq)
}

/// Whether the quadrant with statistics `(na, qta, sta)` has strictly
/// smaller summed variance than the one with `(nb, qtb, stb)`, where `qt` is
/// the sum of the three channel square sums and `st` the sum of the three
/// squared channel sums. Computed without subtraction, so the comparison is
/// exact over the naturals.
fn less_var(na: u128, qta: u128, sta: u128, nb: u128, qtb: u128, stb: u128) -> (r: bool)
    requires
        1 <= na <= 0x400_0000,
        1 <= nb <= 0x400_0000,
        qta <= 0x1000_0000_0000,
        qtb <= 0x1000_0000_0000,
        sta <= 0x40_0000_0000_0000_0000,
        stb <= 0x40_0000_0000_0000_0000,
    ensures
        r == ((na * qta - sta) * (nb * nb) < (nb * qtb - stb) * (na * na)),
{
    proof {
        assert(na * qta <= u128::MAX && nb * qtb <= u128::MAX && na * na <= u128::MAX && nb * nb
            <= u128::MAX && na * qta * (nb * nb) <= u128::MAX && stb * (na * na) <= u128::MAX && nb
            * qtb * (na * na) <= u128::MAX && sta * (nb * nb) <= u128::MAX && na * qta * (nb * nb)
            + stb * (na * na) <= u128::MAX && nb * qtb * (na * na) + sta * (nb * nb) <= u128::MAX)
            by (nonlinear_arith)
            requires
                1 <= na <= 0x400_0000,
                1 <= nb <= 0x400_0000,
                qta <= 0x1000_0000_0000,
                qtb <= 0x1000_0000_0000,
                sta <= 0x40_0000_0000_0000_0000,
                stb <= 0x40_0000_0000_0000_0000;
    }
    let lhs = na * qta * (nb * nb) + stb * (na * na);
    let rhs = nb * qtb * (na * na) + sta * (nb * nb);
    proof {
        assert((lhs < rhs) == ((na * qta - sta) * (nb * nb) < (nb * qtb - stb) * (na * na)))
            by (nonlinear_arith)
            requires
                lhs == na * qta * (nb * nb) + stb * (na * na),
                rhs == nb * qtb * (na * na) + sta * (nb * nb);
    }
    lhs < rhs
}

/// The smoothed value of one canvas pixel: the mean of the quadrant with
/// the smallest summed variance.
fn smooth_pixel(buf: &PixelBuffer, ws: u32, i: u32, j: u32) -> (p: Pixel)
    requires
        buf.wf(),
        1 <= ws <= 0x2000,
        i < buf.width,
        j < buf.height,
    ensures
        p == kuwahara_pix(buf@, ws as int, i as int, j as int),
{
    let ghost vv = buf@;
    let ghost wsi = ws as int;
    let ghost ii = i as int;
    let ghost jj = j as int;
    let (n0, s0, q0) = quad_stats(buf, ws, i, j, 0);
    let (n1, s1, q1) = quad_stats(buf, ws, i, j, 1);
    let (n2, s2, q2) = quad_stats(buf, ws, i, j, 2);
    let (n3, s3, q3) = quad_stats(buf, ws, i, j, 3);
    let qt0 = q0.c0 + q0.c1 + q0.c2;
    let qt1 = q1.c0 + q1.c1 + q1.c2;
    let qt2 = q2.c0 + q2.c1 + q2.c2;
    let qt3 = q3.c0 + q3.c1 + q3.c2;
    proof {
        assert(s0.c0 * s0.c0 + s0.c1 * s0.c1 + s0.c2 * s0.c2 <= 0x40_0000_0000_0000_0000)
            by (nonlinear_arith)
            requires 0 <= s0.c0 <= 0x3_FC00_0000, 0 <= s0.c1 <= 0x3_FC00_0000, 0 <= s0.c2 <= 0x3_FC00_0000;
        assert(s1.c0 * s1.c0 + s1.c1 * s1.c1 + s1.c2 * s1.c2 <= 0x40_0000_0000_0000_0000)
            by (nonlinear_arith)
            requires 0 <= s1.c0 <= 0x3_FC00_0000, 0 <= s1.c1 <= 0x3_FC00_0000, 0 <= s1.c2 <= 0x3_FC00_0000;
        assert(s2.c0 * s2.c0 + s2.c1 * s2.c1 + s2.c2 * s2.c2 <= 0x40_0000_0000_0000_0000)
            by (nonlinear_arith)
            requires 0 <= s2.c0 <= 0x3_FC00_0000, 0 <= s2.c1 <= 0x3_FC00_0000, 0 <= s2.c2 <= 0x3_FC00_0000;
        assert(s3.c0 * s3.c0 + s3.c1 * s3.c1 + s3.c2 * s3.c2 <= 0x40_0000_0000_0000_0000)
            by (nonlinear_arith)
            requires 0 <= s3.c0 <= 0x3_FC00_0000, 0 <= s3.c1 <= 0x3_FC00_0000, 0 <= s3.c2 <= 0x3_FC00_0000;
    }
    let st0 = s0.c0 * s0.c0 + s0.c1 * s0.c1 + s0.c2 * s0.c2;
    let st1 = s1.c0 * s1.c0 + s1.c1 * s1.c1 + s1.c2 * s1.c2;
    let st2 = s2.c0 * s2.c0 + s2.c1 * s2.c1 + s2.c2 * s2.c2;
    let st3 = s3.c0 * s3.c0 + s3.c1 * s3.c1 + s3.c2 * s3.c2;
    let mut bn = n0;
    let mut bs = s0;
    let mut bqt = qt0;
    let mut bst = st0;
    let ghost mut bidx: int = 0;
    if less_var(n1, qt1, st1, bn, bqt, bst) {
        bn = n1;
        bs = s1;
        bqt = qt1;
        bst = st1;
        proof {
            bidx = 1;
        }
    }
    proof {
        assert(bidx == if lt_var(vv, wsi, ii, jj, 1, 0) { 1int } else { 0int });
    }
    if less_var(n2, qt2, st2, bn, bqt, bst) {
        bn = n2;
        bs = s2;
        bqt = qt2;
        bst = st2;
        proof {
            bidx = 2;
        }
    }
    if less_var(n3, qt3, st3, bn, bqt, bst) {
        bn = n3;
        bs = s3;
        bqt = qt3;
        bst = st3;
        proof {
            bidx = 3;
        }
    }
    proof {
        assert(bidx == best_quad(vv, wsi, ii, jj));
        assert(bn == quad_n(vv, wsi, ii, jj, bidx));
        assert(bs.c0 == quad_csum(vv, wsi, ii, jj, bidx, 0));
        lemma_quad_mean_range(vv, wsi, ii, jj, bidx);
    }
    let m = bs.div_scalar(bn);
    let (mr, mg, mb) = m.to_u8();
    Pixel { r: mr, g: mg, b: mb }
}

/// Configuration of [`KuwaharaFilter`]: how far each quadrant may reach from
/// the centre pixel, in pixels per axis.
#[derive(Debug, Clone, Copy, PartialEq, Eq, Structural)]
pub struct KuwaharaFilterOptions {
    pub window_size: u32,
}

impl KuwaharaFilterOptions {
    pub fn new(window_size: u32) -> (r: KuwaharaFilterOptions)
        ensures
            r.window_size == window_size,
    {
        KuwaharaFilterOptions { window_size }
    }
}

impl Default for KuwaharaFilterOptions {
    /// Quadrants of up to 3 pixels on each side when nothing is chosen.
    fn default() -> (r: KuwaharaFilterOptions)
        ensures
            r.window_size == 3,
    {
        KuwaharaFilterOptions { window_size: 3 }
    }
}

impl FilterProcessorOptions for KuwaharaFilterOptions {

}

/// The edge-preserving quadrant-variance smoother.
#[derive(Debug, Clone, Copy, PartialEq, Eq, Structural)]
pub struct KuwaharaFilter {
    pub option: KuwaharaFilterOptions,
}

impl KuwaharaFilter {
    pub fn new(option: KuwaharaFilterOptions) -> (r: KuwaharaFilter)
        ensures
            r.option == option,
    {
        KuwaharaFilter { option }
    }
}

impl FilterProcessor for KuwaharaFilter {
    type OptionsType = KuwaharaFilterOptions;

    /// A zero window would leave the quadrants empty; the upper bound keeps
    /// the exact variance cross-products inside 128-bit integers.
    open spec fn wf(&self) -> bool {
        1 <= self.option.window_size <= 0x2000
    }

    open spec fn apply(&self, v: BufView) -> BufView {
        kuwahara_apply(self.option.window_size as int, v)
    }

    proof fn apply_dims(&self, v: BufView) {
        assert(0 <= v.width * v.height) by (nonlinear_arith)
            requires 0 <= v.width, 0 <= v.height;
    }

    fn process(&self, buf: &PixelBuffer) -> (r: PixelBuffer) {
        let ws = self.option.window_size;
        let w = buf.width;
        let h = buf.height;
        let ghost vv = buf@;
        let ghost wsi = ws as int;
        let ghost kp = |x: int, y: int| kuwahara_pix(vv, wsi, x, y);
        let mut data: Vec<Pixel> = Vec::new();
        let mut j: u32 = 0;
        while j < h
            invariant
                j <= h,
                data@.len() == j * w,
                forall|x2: int, y2: int|
                    0 <= x2 < w && 0 <= y2 < j ==> data@[y2 * w + x2] == #[trigger] kp(x2, y2),
            decreases h - j,
        {
            let mut i: u32 = 0;
            while i < w
                invariant
                    j < h,
                    i <= w,
                    data@.len() == j * w + i,
                    forall|x2: int, y2: int|
                        0 <= x2 < w && 0 <= y2 < j ==> data@[y2 * w + x2] == #[trigger] kp(x2, y2),
                    forall|x2: int| 0 <= x2 < i ==> data@[j * w + x2] == #[trigger] kp(x2, j as int),
                decreases w - i,
            {
                let p = smooth_pixel(buf, ws, i, j);
                data.push(p);
                i = i + 1;
                proof {
                    assert forall|x2: int, y2: int| 0 <= x2 < w && 0 <= y2 < j implies data@[y2 * w
                        + x2] == #[trigger] kp(x2, y2) by {
                        crate::buffer::lemma_pix_index(w as int, j as int, x2, y2);
                        vstd::arithmetic::mul::lemma_mul_is_commutative(w as int, j as int);
                    }
                }
            }
            j = j + 1;
            proof {
                assert((j - 1) * w + w == j * w) by (nonlinear_arith);
            }
        }
        let r = PixelBuffer { width: w, height: h, data };
        proof {
            vstd::arithmetic::mul::lemma_mul_is_commutative(w as int, h as int);
            lemma_grid_eq(w as int, h as int, kp, r.data@);
            assert(r@ =~= self.apply(buf@));
        }
        r
    }

    fn get_option(&self) -> (r: KuwaharaFilterOptions)
        ensures
            r == self.option,
    {
        self.option
    }

    open spec fn describe_view(&self) -> Seq<char> {
        "Kuwahara (window_size="@ + crate::text::dec_chars(self.option.window_size as int) + ")"@
    }

    fn describe(&self) -> (r: String) {
        let mut s = "Kuwahara (window_size=".to_owned();
        crate::text::push_u64_dec(&mut s, self.option.window_size as u64);
        s.append(")");
        s
    }
}

} // verus!
