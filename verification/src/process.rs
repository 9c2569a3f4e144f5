//! The filter capability, the region compositor and the pipeline driver.

use vstd::prelude::*;

use crate::buffer::{grid, lemma_grid_eq, lemma_pix_index, BufView, Pixel, PixelBuffer};
use crate::filter::AppFilter;
use crate::rect::RectInfo;

verus! {

/// Marks a type as the configuration of one filter.
pub trait FilterProcessorOptions {

}

/// Configuration for filters that take none.
#[derive(Clone, Copy, PartialEq, Eq, Structural, Debug, Default)]
pub struct EmptyOption;

impl FilterProcessorOptions for EmptyOption {

}

/// A pixel-buffer transformation. `apply` is the mathematical meaning of the
/// filter on canvas views; `process` computes it. Filters never change the
/// canvas size, which `apply_dims` records once per filter.
pub trait FilterProcessor {
    type OptionsType: FilterProcessorOptions;

    /// The filter's configuration is usable.
    spec fn wf(&self) -> bool;

    /// What the filter does to a canvas, as a function on views.
    spec fn apply(&self, v: BufView) -> BufView;

    /// Applying a filter preserves well-formedness and the canvas size.
    proof fn apply_dims(&self, v: BufView)
        requires
            self.wf(),
            v.wf(),
        ensures
            self.apply(v).wf(),
            self.apply(v).width == v.width,
            self.apply(v).height == v.height,
    ;

    /// Compute the filter on an owned buffer, returning a new buffer.
    fn process(&self, buf: &PixelBuffer) -> (r: PixelBuffer)
        requires
            self.wf(),
            buf.wf(),
        ensures
            r.wf(),
            r.width == buf.width,
            r.height == buf.height,
            r@ == self.apply(buf@),
    ;

    /// The filter's configuration.
    fn get_option(&self) -> Self::OptionsType;

    /// The characters of the filter's textual description.
    spec fn describe_view(&self) -> Seq<char>;

    /// A human-readable description of the filter and its configuration,
    /// for echoing a pipeline; not correctness-critical.
    fn describe(&self) -> (r: String)
        ensures
            r@ == self.describe_view(),
    ;
}

/// A region whose top-left corner lies outside the canvas: the fatal error
/// of the compositor, reported with the offending coordinates.
#[derive(Debug, Clone, Copy, PartialEq, Eq, Structural)]
pub struct RegionError {
    pub x: u32,
    pub y: u32,
}

/// A requested extent clamped so the region fits inside the canvas.
pub open spec fn clamped(req: int, pos: int, bound: int) -> int {
    if pos + req > bound {
        bound - pos
    } else {
        req
    }
}

/// The `w x h` sub-canvas of `v` whose top-left corner is `(x0, y0)`.
pub open spec fn crop_view(v: BufView, x0: int, y0: int, w: int, h: int) -> BufView {
    BufView { width: w, height: h, pixels: grid(w, h, |dx: int, dy: int| v.pix(x0 + dx, y0 + dy)) }
}

/// `v` with `sub` written over the rectangle whose top-left corner is
/// `(x0, y0)`; every pixel outside that rectangle is unchanged.
pub open spec fn compose_view(v: BufView, sub: BufView, x0: int, y0: int) -> BufView {
    BufView {
        width: v.width,
        height: v.height,
        pixels: grid(
            v.width,
            v.height,
            |px: int, py: int|
                if x0 <= px < x0 + sub.width && y0 <= py < y0 + sub.height {
                    sub.pix(px - x0, py - y0)
                } else {
                    v.pix(px, py)
                },
        ),
    }
}

/// The compositor never writes outside the written rectangle: composing
/// leaves every canvas pixel outside it exactly as it was.
pub proof fn lemma_compose_outside(v: BufView, sub: BufView, x0: int, y0: int, px: int, py: int)
    requires
        v.wf(),
        0 <= px < v.width,
        0 <= py < v.height,
        !(x0 <= px < x0 + sub.width && y0 <= py < y0 + sub.height),
    ensures
        compose_view(v, sub, x0, y0).pix(px, py) == v.pix(px, py),
{
    crate::buffer::lemma_grid_read(
        v.width,
        v.height,
        |px2: int, py2: int|
            if x0 <= px2 < x0 + sub.width && y0 <= py2 < y0 + sub.height {
                sub.pix(px2 - x0, py2 - y0)
            } else {
                v.pix(px2, py2)
            },
        px,
        py,
    );
}

/// One compositor step as a function on views: clamp the region, crop it,
/// run the filter on the crop, write the result back.
pub open spec fn region_apply<F: FilterProcessor>(
    f: F, v: BufView, x: int, y: int, width: int, height: int,
) -> BufView {
    let cw = clamped(width, x, v.width);
    let ch = clamped(height, y, v.height);
    compose_view(v, f.apply(crop_view(v, x, y, cw, ch)), x, y)
}

/// Apply `processor` to the rectangle of `img` with top-left corner
/// `(x, y)` and the requested extent, clamped to the canvas; pixels outside
/// the rectangle keep their values. Fails, without touching the canvas, when
/// the corner lies outside the canvas.
pub fn modify_part_of_img<F: FilterProcessor>(
    img: PixelBuffer, x: u32, y: u32, width: u32, height: u32, processor: &F,
) -> (r: Result<PixelBuffer, RegionError>)
    requires
        img.wf(),
        processor.wf(),
    ensures
        match r {
            Ok(out) => {
                &&& x <= img.width && y <= img.height
                &&& out.wf()
                &&& out.width == img.width && out.height == img.height
                &&& out@ == region_apply(
                    *processor,
                    img@,
                    x as int,
                    y as int,
                    width as int,
                    height as int,
                )
            },
            Err(e) => (x > img.width || y > img.height) && e == (RegionError { x, y }),
        },
{
    let img_width = img.width;
    let img_height = img.height;
    if x > img_width || y > img_height {
        return Err(RegionError { x, y });
    }
    let cw = if width > img_width - x {
        img_width - x
    } else {
        width
    };
    let ch = if height > img_height - y {
        img_height - y
    } else {
        height
    };
    let ghost vv = img@;
    let ghost xi = x as int;
    let ghost yi = y as int;
    let ghost cwi = cw as int;
    let ghost chi = ch as int;
    let ghost cf = |dx: int, dy: int| vv.pix(xi + dx, yi + dy);
    let mut sub_data: Vec<Pixel> = Vec::new();
    let mut dy: u32 = 0;
    while dy < ch
        invariant
            dy <= ch,
            sub_data@.len() == dy * cw,
            forall|dx2: int, dy2: int|
                0 <= dx2 < cw && 0 <= dy2 < dy ==> sub_data@[dy2 * cw + dx2] == #[trigger] cf(
                    dx2,
                    dy2,
                ),
        decreases ch - dy,
    {
        let mut dx: u32 = 0;
        while dx < cw
            invariant
                dy < ch,
                dx <= cw,
                sub_data@.len() == dy * cw + dx,
                forall|dx2: int, dy2: int|
                    0 <= dx2 < cw && 0 <= dy2 < dy ==> sub_data@[dy2 * cw + dx2] == #[trigger] cf(
                        dx2,
                        dy2,
                    ),
                forall|dx2: int|
                    0 <= dx2 < dx ==> sub_data@[dy * cw + dx2] == #[trigger] cf(dx2, dy as int),
            decreases cw - dx,
        {
            let p = img.get(x + dx, y + dy);
            sub_data.push(p);
            dx = dx + 1;
            proof {
                assert forall|dx2: int, dy2: int| 0 <= dx2 < cw && 0 <= dy2 < dy implies
                    sub_data@[dy2 * cw + dx2] == #[trigger] cf(dx2, dy2) by {
                    lemma_pix_index(cw as int, dy as int, dx2, dy2);
                    vstd::arithmetic::mul::lemma_mul_is_commutative(cw as int, dy as int);
                }
            }
        }
        dy = dy + 1;
        proof {
            assert((dy - 1) * cw + cw == dy * cw) by (nonlinear_arith);
        }
    }
    let sub = PixelBuffer { width: cw, height: ch, data: sub_data };
    proof {
        vstd::arithmetic::mul::lemma_mul_is_commutative(cw as int, ch as int);
        lemma_grid_eq(cwi, chi, cf, sub.data@);
        assert(sub@ =~= crop_view(vv, xi, yi, cwi, chi));
    }
    let processed = processor.process(&sub);
    proof {
        processor.apply_dims(sub@);
    }
    let ghost pv = processed@;
    let ghost of = |px: int, py: int|
        if xi <= px < xi + pv.width && yi <= py < yi + pv.height {
            pv.pix(px - xi, py - yi)
        } else {
            vv.pix(px, py)
        };
    let mut out_data: Vec<Pixel> = Vec::new();
    let mut py: u32 = 0;
    while py < img_height
        invariant
            py <= img_height,
            out_data@.len() == py * img_width,
            forall|px2: int, py2: int|
                0 <= px2 < img_width && 0 <= py2 < py ==> out_data@[py2 * img_width + px2]
                    == #[trigger] of(px2, py2),
        decreases img_height - py,
    {
        let mut px: u32 = 0;
        while px < img_width
            invariant
                py < img_height,
                px <= img_width,
                out_data@.len() == py * img_width + px,
                forall|px2: int, py2: int|
                    0 <= px2 < img_width && 0 <= py2 < py ==> out_data@[py2 * img_width + px2]
                        == #[trigger] of(px2, py2),
                forall|px2: int|
                    0 <= px2 < px ==> out_data@[py * img_width + px2] == #[trigger] of(
                        px2,
                        py as int,
                    ),
            decreases img_width - px,
        {
            let p = if px >= x && px < x + cw && py >= y && py < y + ch {
                processed.get(px - x, py - y)
            } else {
                img.get(px, py)
            };
            out_data.push(p);
            px = px + 1;
            proof {
                assert forall|px2: int, py2: int| 0 <= px2 < img_width && 0 <= py2 < py implies
                    out_data@[py2 * img_width + px2] == #[trigger] of(px2, py2) by {
                    lemma_pix_index(img_width as int, py as int, px2, py2);
                    vstd::arithmetic::mul::lemma_mul_is_commutative(img_width as int, py as int);
                }
            }
        }
        py = py + 1;
        proof {
            assert((py - 1) * img_width + img_width == py * img_width) by (nonlinear_arith);
        }
    }
    let out = PixelBuffer { width: img_width, height: img_height, data: out_data };
    proof {
        vstd::arithmetic::mul::lemma_mul_is_commutative(img_width as int, img_height as int);
        lemma_grid_eq(img_width as int, img_height as int, of, out.data@);
        assert(out@.pixels =~= compose_view(vv, pv, xi, yi).pixels);
        assert(out@ =~= region_apply(
            *processor,
            vv,
            x as int,
            y as int,
            width as int,
            height as int,
        ));
    }
    Ok(out)
}

/// Apply `processor` to the whole canvas.
pub fn modify_whole_img<F: FilterProcessor>(img: PixelBuffer, processor: &F) -> (r: Result<
    PixelBuffer,
    RegionError,
>)
    requires
        img.wf(),
        processor.wf(),
    ensures
        r is Ok,
        r matches Ok(out) ==> {
            &&& out.wf()
            &&& out@ == region_apply(
                *processor,
                img@,
                0,
                0,
                img@.width,
                img@.height,
            )
        },
{
    let width = img.width;
    let height = img.height;
    modify_part_of_img(img, 0, 0, width, height, processor)
}

/// One pipeline step: a filter and the rectangle it is scoped to.
#[derive(Debug, Clone)]
pub struct FilterProcess {
    pub filter: AppFilter,
    pub x: u32,
    pub y: u32,
    pub width: u32,
    pub height: u32,
}

impl FilterProcess {
    pub fn new(filter: AppFilter, rect_info: RectInfo) -> (r: FilterProcess)
        ensures
            r.filter == filter,
            r.x == rect_info.0.0,
            r.y == rect_info.0.1,
            r.width == rect_info.0.2,
            r.height == rect_info.0.3,
    {
        let rect = rect_info.0;
        FilterProcess { filter, x: rect.0, y: rect.1, width: rect.2, height: rect.3 }
    }
}

/// The outcome of running the steps in order on `v`: the transformed canvas,
/// or the coordinates of the first step whose corner lies outside it.
pub open spec fn pipeline_view(v: BufView, steps: Seq<FilterProcess>) -> Result<
    BufView,
    RegionError,
>
    decreases steps.len(),
{
    if steps.len() == 0 {
        Ok(v)
    } else {
        let s = steps[0];
        if s.x > v.width || s.y > v.height {
            Err(RegionError { x: s.x, y: s.y })
        } else {
            pipeline_view(
                region_apply(s.filter, v, s.x as int, s.y as int, s.width as int, s.height as int),
                steps.subrange(1, steps.len() as int),
            )
        }
    }
}

/// Run every step in order over one canvas, each step seeing the previous
/// step's output; the first out-of-canvas corner aborts the run.
pub fn run_pipeline(img: PixelBuffer, steps: &Vec<FilterProcess>) -> (r: Result<
    PixelBuffer,
    RegionError,
>)
    requires
        img.wf(),
        forall|i: int| 0 <= i < steps@.len() ==> (#[trigger] steps@[i]).filter.wf(),
    ensures
        match r {
            Ok(out) => out.wf() && pipeline_view(img@, steps@) == Ok::<BufView, RegionError>(out@),
            Err(e) => pipeline_view(img@, steps@) == Err::<BufView, RegionError>(e),
        },
{
    let ghost v0 = img@;
    proof {
        assert(steps@.subrange(0, steps@.len() as int) =~= steps@);
    }
    let mut cur = img;
    let mut k: usize = 0;
    while k < steps.len()
        invariant
            k <= steps@.len(),
            cur.wf(),
            pipeline_view(v0, steps@) == pipeline_view(
                cur@,
                steps@.subrange(k as int, steps@.len() as int),
            ),
        decreases steps@.len() - k,
    {
        let ghost pre = cur@;
        let ghost rest = steps@.subrange(k as int, steps@.len() as int);
        let s = &steps[k];
        let stepped = modify_part_of_img(cur, s.x, s.y, s.width, s.height, &s.filter);
        proof {
            assert(rest[0] == steps@[k as int]);
            assert(rest.subrange(1, rest.len() as int) =~= steps@.subrange(
                k as int + 1,
                steps@.len() as int,
            ));
        }
        match stepped {
            Ok(next) => {
                cur = next;
            },
            Err(e) => {
                return Err(e);
            },
        }
        k = k + 1;
    }
    proof {
        assert(steps@.subrange(steps@.len() as int, steps@.len() as int) =~= Seq::<
            FilterProcess,
        >::empty());
    }
    Ok(cur)
}

} // verus!
