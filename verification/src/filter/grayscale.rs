//! Luminance grayscale: every pixel becomes its luma on all three channels.

use vstd::prelude::*;

use crate::buffer::{BufView, Pixel, PixelBuffer};
use crate::process::{EmptyOption, FilterProcessor, FilterProcessorOptions};

verus! {

/// The BT.709-weighted luma of an RGB triple, as the `image` crate computes
/// it for 8-bit channels: `(2126 r + 7152 g + 722 b) / 10000`, truncating.
pub open spec fn luma_rgb(r: u8, g: u8, b: u8) -> int {
    (2126 * r + 7152 * g + 722 * b) / 10000
}

/// Luma lies in the 8-bit channel range.
pub proof fn lemma_luma_range(r: u8, g: u8, b: u8)
    ensures
        0 <= luma_rgb(r, g, b) <= 255,
{
    let n = 2126 * r + 7152 * g + 722 * b;
    assert(0 <= n <= 2550000);
    vstd::arithmetic::div_mod::lemma_div_pos_is_pos(n, 10000);
    vstd::arithmetic::div_mod::lemma_div_is_ordered(n, 2550000int, 10000);
}

/// `p` replaced by its luma on all three channels.
pub open spec fn gray_pix(p: Pixel) -> Pixel {
    Pixel {
        r: luma_rgb(p.r, p.g, p.b) as u8,
        g: luma_rgb(p.r, p.g, p.b) as u8,
        b: luma_rgb(p.r, p.g, p.b) as u8,
    }
}

/// The whole-buffer meaning of grayscaling.
pub open spec fn grayscale_apply(v: BufView) -> BufView {
    BufView { width: v.width, height: v.height, pixels: v.pixels.map_values(|p: Pixel| gray_pix(p)) }
}

/// Every output pixel of a grayscaled buffer has equal channels.
pub proof fn lemma_grayscale_channels_equal(v: BufView)
    ensures
        forall|i: int|
            0 <= i < grayscale_apply(v).pixels.len() ==> {
                let p = #[trigger] grayscale_apply(v).pixels[i];
                p.r == p.g && p.g == p.b
            },
{
}

/// An already-gray pixel keeps its value: the luma of `(l, l, l)` is `l`.
pub proof fn lemma_gray_pix_idempotent(p: Pixel)
    ensures
        gray_pix(gray_pix(p)) == gray_pix(p),
{
    let l = luma_rgb(p.r, p.g, p.b);
    lemma_luma_range(p.r, p.g, p.b);
    let lu = l as u8;
    assert(2126 * lu + 7152 * lu + 722 * lu == 10000 * lu);
    vstd::arithmetic::div_mod::lemma_div_multiples_vanish(lu as int, 10000);
}

/// Grayscaling twice yields the same buffer as grayscaling once.
pub proof fn lemma_grayscale_idempotent(v: BufView)
    ensures
        grayscale_apply(grayscale_apply(v)) == grayscale_apply(v),
{
    let once = grayscale_apply(v);
    assert forall|i: int| 0 <= i < once.pixels.len() implies #[trigger] grayscale_apply(
        once,
    ).pixels[i] == once.pixels[i] by {
        lemma_gray_pix_idempotent(v.pixels[i]);
    }
    assert(grayscale_apply(once).pixels =~= once.pixels);
    assert(grayscale_apply(once) =~= once);
}

/// Pixel `i` of the byte string `outb` carries, on all three channels, the
/// luma of pixel `i` of the byte string `inb`.
pub open spec fn gray_bytes_at(inb: Seq<u8>, outb: Seq<u8>, i: int) -> bool {
    &&& outb[3 * i] == luma_rgb(inb[3 * i], inb[3 * i + 1], inb[3 * i + 2])
    &&& outb[3 * i + 1] == luma_rgb(inb[3 * i], inb[3 * i + 1], inb[3 * i + 2])
    &&& outb[3 * i + 2] == luma_rgb(inb[3 * i], inb[3 * i + 1], inb[3 * i + 2])
}

/// Relies on `image::DynamicImage::grayscale` followed by `into_rgb8`: for an
/// 8-bit RGB image, every output pixel carries the luma
/// `(2126 r + 7152 g + 722 b) / 10000` of the input pixel on all three
/// channels (`image-0.24` `color.rs`, `rgb_to_luma` and `FromColor<Luma>` for
/// `Rgb`), and the raw container stays row-major with three bytes per pixel.
#[verifier::external_body]
fn grayscale_via_image(width: u32, height: u32, bytes: Vec<u8>) -> (r: Vec<u8>)
    requires
        width >= 1,
        height >= 1,
        bytes@.len() == 3 * (width * height),
    ensures
        r@.len() == bytes@.len(),
        forall|i: int| 0 <= i < (width * height) as int ==> #[trigger] gray_bytes_at(bytes@, r@, i),
{
    let img = image::RgbImage::from_raw(width, height, bytes).unwrap();
    let gray = image::DynamicImage::ImageRgb8(img).grayscale();
    gray.into_rgb8().into_raw()
}

/// The filter that turns the buffer gray while keeping three channels.
#[derive(Debug, Clone, Copy, PartialEq, Eq, Structural)]
pub struct GrayscaleFilter;

impl GrayscaleFilter {
    pub fn new() -> (r: GrayscaleFilter) {
        GrayscaleFilter
    }
}

impl FilterProcessor for GrayscaleFilter {
    type OptionsType = EmptyOption;

    open spec fn wf(&self) -> bool {
        true
    }

    open spec fn apply(&self, v: BufView) -> BufView {
        grayscale_apply(v)
    }

    proof fn apply_dims(&self, v: BufView) {
    }

    fn process(&self, buf: &PixelBuffer) -> (r: PixelBuffer) {
        let bytes = buf.to_bytes();
        if buf.width == 0 || buf.height == 0 {
            let r = PixelBuffer::from_bytes(buf.width, buf.height, &bytes);
            proof {
                assert(r@.pixels =~= grayscale_apply(buf@).pixels);
                assert(r@ =~= self.apply(buf@));
            }
            r
        } else {
            let gray = grayscale_via_image(buf.width, buf.height, bytes);
            let r = PixelBuffer::from_bytes(buf.width, buf.height, &gray);
            proof {
                assert forall|i: int| 0 <= i < r.data@.len() implies r.data@[i] == gray_pix(
                    buf.data@[i],
                ) by {
                    assert(gray_bytes_at(bytes@, gray@, i));
                    lemma_luma_range(buf.data@[i].r, buf.data@[i].g, buf.data@[i].b);
                }
                assert(r@.pixels =~= grayscale_apply(buf@).pixels);
                assert(r@ =~= self.apply(buf@));
            }
            r
        }
    }

    fn get_option(&self) -> (r: EmptyOption)
        ensures
            r == EmptyOption,
    {
        EmptyOption
    }

    open spec fn describe_view(&self) -> Seq<char> {
        "Grayscale"@
    }

    fn describe(&self) -> (r: String) {
        "Grayscale".to_owned()
    }
}

} // verus!
