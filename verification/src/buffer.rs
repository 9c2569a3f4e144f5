//! The RGB canvas: an owned, row-major grid of 8-bit pixels.

use vstd::prelude::*;

verus! {

/// One RGB pixel, 8 bits per channel.
#[derive(Clone, Copy, PartialEq, Eq, Structural, Debug)]
pub struct Pixel {
    pub r: u8,
    pub g: u8,
    pub b: u8,
}

/// The mathematical model of a canvas: its dimensions and the row-major
/// sequence of its pixels.
#[verifier::ext_equal]
pub ghost struct BufView {
    pub width: int,
    pub height: int,
    pub pixels: Seq<Pixel>,
}

impl BufView {
    /// A well-formed view holds exactly `width * height` pixels.
    pub open spec fn wf(self) -> bool {
        &&& 0 <= self.width
        &&& 0 <= self.height
        &&& self.pixels.len() == self.width * self.height
    }

    /// The pixel at column `x`, row `y` (row-major order).
    pub open spec fn pix(self, x: int, y: int) -> Pixel {
        self.pixels[y * self.width + x]
    }

    /// Whether `(x, y)` lies on the canvas.
    pub open spec fn in_bounds(self, x: int, y: int) -> bool {
        0 <= x < self.width && 0 <= y < self.height
    }
}

/// A pixel's row-major position is inside the grid.
pub proof fn lemma_pix_index(w: int, h: int, x: int, y: int)
    by (nonlinear_arith)
    requires
        0 <= x < w,
        0 <= y < h,
    ensures
        0 <= y * w + x < w * h,
{
}

/// The row-major pixel sequence of a `w x h` grid whose pixel at `(x, y)`
/// is `f(x, y)`.
pub open spec fn grid(w: int, h: int, f: spec_fn(int, int) -> Pixel) -> Seq<Pixel> {
    Seq::new((w * h) as nat, |k: int| f(k % w, k / w))
}

/// Reading a grid at a row-major position yields the generating function.
pub proof fn lemma_grid_read(w: int, h: int, f: spec_fn(int, int) -> Pixel, x: int, y: int)
    requires
        0 <= x < w,
        0 <= y < h,
    ensures
        0 <= y * w + x < w * h,
        grid(w, h, f)[y * w + x] == f(x, y),
{
    lemma_pix_index(w, h, x, y);
    vstd::arithmetic::div_mod::lemma_fundamental_div_mod_converse(y * w + x, w, y, x);
}

/// A row-major sequence whose entries match `f` coordinatewise is the grid of `f`.
pub proof fn lemma_grid_eq(w: int, h: int, f: spec_fn(int, int) -> Pixel, s: Seq<Pixel>)
    requires
        0 <= w,
        0 <= h,
        s.len() == w * h,
        forall|x: int, y: int|
            0 <= x < w && 0 <= y < h ==> s[y * w + x] == #[trigger] f(x, y),
    ensures
        s =~= grid(w, h, f),
{
    assert(0 <= w * h) by (nonlinear_arith)
        requires 0 <= w, 0 <= h;
    assert forall|k: int| 0 <= k < s.len() implies s[k] == grid(w, h, f)[k] by {
        let x = k % w;
        let y = k / w;
        vstd::arithmetic::div_mod::lemma_fundamental_div_mod(k, w);
        vstd::arithmetic::div_mod::lemma_mod_pos_bound(k, w);
        assert(y < h) by (nonlinear_arith)
            requires 0 <= k < w * h, 0 <= x < w, k == y * w + x;
        lemma_grid_read(w, h, f, x, y);
    }
}

/// An owned `width x height` canvas of RGB pixels, row-major.
#[derive(Debug, Clone)]
pub struct PixelBuffer {
    pub width: u32,
    pub height: u32,
    pub data: Vec<Pixel>,
}

impl View for PixelBuffer {
    type V = BufView;

    open spec fn view(&self) -> BufView {
        BufView { width: self.width as int, height: self.height as int, pixels: self.data@ }
    }
}

impl PixelBuffer {
    /// The buffer holds exactly one pixel per grid cell.
    pub open spec fn wf(self) -> bool {
        self.data@.len() == self.width * self.height
    }

    /// A canvas of the given size with every pixel set to `fill`.
    pub fn new(width: u32, height: u32, fill: Pixel) -> (r: PixelBuffer)
        requires
            width * height <= usize::MAX,
        ensures
            r.wf(),
            r.width == width,
            r.height == height,
            forall|x: int, y: int| r@.in_bounds(x, y) ==> r@.pix(x, y) == fill,
    {
        let n: usize = (width as usize) * (height as usize);
        let mut data: Vec<Pixel> = Vec::new();
        while data.len() < n
            invariant
                data@.len() <= n,
                forall|i: int| 0 <= i < data@.len() ==> data@[i] == fill,
            decreases n - data@.len(),
        {
            data.push(fill);
        }
        let r = PixelBuffer { width, height, data };
        proof {
            assert forall|x: int, y: int| r@.in_bounds(x, y) implies r@.pix(x, y) == fill by {
                lemma_pix_index(width as int, height as int, x, y);
            }
        }
        r
    }

    /// The row-major index of `(x, y)` in `data`.
    fn pix_index(&self, x: u32, y: u32) -> (i: usize)
        requires
            self.wf(),
            x < self.width,
            y < self.height,
        ensures
            i == y * self.width + x,
            i < self.data@.len(),
    {
        let len: usize = self.data.len();
        proof {
            lemma_pix_index(self.width as int, self.height as int, x as int, y as int);
            assert(y * self.width + x < len);
        }
        (y as usize) * (self.width as usize) + (x as usize)
    }

    /// Read the pixel at `(x, y)`.
    pub fn get(&self, x: u32, y: u32) -> (p: Pixel)
        requires
            self.wf(),
            x < self.width,
            y < self.height,
        ensures
            p == self@.pix(x as int, y as int),
    {
        let i = self.pix_index(x, y);
        self.data[i]
    }

    /// Overwrite the pixel at `(x, y)`.
    pub fn set(&mut self, x: u32, y: u32, p: Pixel)
        requires
            old(self).wf(),
            x < old(self).width,
            y < old(self).height,
        ensures
            final(self).wf(),
            final(self).width == old(self).width,
            final(self).height == old(self).height,
            final(self)@.pixels == old(self)@.pixels.update(y * old(self)@.width + x, p),
    {
        let i = self.pix_index(x, y);
        self.data.set(i, p);
    }

    /// The pixels flattened to bytes, three per pixel, in channel order r, g, b.
    pub fn to_bytes(&self) -> (bytes: Vec<u8>)
        ensures
            bytes@.len() == 3 * self.data@.len(),
            forall|i: int|
                0 <= i < self.data@.len() ==> {
                    &&& bytes@[3 * i] == self.data@[i].r
                    &&& bytes@[3 * i + 1] == self.data@[i].g
                    &&& bytes@[3 * i + 2] == self.data@[i].b
                },
    {
        let mut bytes: Vec<u8> = Vec::new();
        let mut k: usize = 0;
        while k < self.data.len()
            invariant
                k <= self.data@.len(),
                bytes@.len() == 3 * k,
                forall|i: int|
                    0 <= i < k ==> {
                        &&& bytes@[3 * i] == self.data@[i].r
                        &&& bytes@[3 * i + 1] == self.data@[i].g
                        &&& bytes@[3 * i + 2] == self.data@[i].b
                    },
            decreases self.data@.len() - k,
        {
            let p = self.data[k];
            bytes.push(p.r);
            bytes.push(p.g);
            bytes.push(p.b);
            k = k + 1;
        }
        bytes
    }

    /// A canvas rebuilt from bytes as `to_bytes` lays them out.
    pub fn from_bytes(width: u32, height: u32, bytes: &Vec<u8>) -> (r: PixelBuffer)
        requires
            bytes@.len() == 3 * (width * height),
        ensures
            r.wf(),
            r.width == width,
            r.height == height,
            forall|i: int|
                0 <= i < r.data@.len() ==> r.data@[i] == (Pixel {
                    r: bytes@[3 * i],
                    g: bytes@[3 * i + 1],
                    b: bytes@[3 * i + 2],
                }),
    {
        let n: usize = bytes.len() / 3;
        let mut data: Vec<Pixel> = Vec::new();
        let mut k: usize = 0;
        while k < n
            invariant
                k <= n,
                n == width * height,
                bytes@.len() == 3 * n,
                data@.len() == k,
                forall|i: int|
                    0 <= i < k ==> data@[i] == (Pixel {
                        r: bytes@[3 * i],
                        g: bytes@[3 * i + 1],
                        b: bytes@[3 * i + 2],
                    }),
            decreases n - k,
        {
            let p = Pixel { r: bytes[3 * k], g: bytes[3 * k + 1], b: bytes[3 * k + 2] };
            data.push(p);
            k = k + 1;
        }
        PixelBuffer { width, height, data }
    }
}

} // verus!
