use vstd::prelude::*;
use vstd::arithmetic::div_mod::{lemma_fundamental_div_mod, lemma_fundamental_div_mod_converse};
use crate::geometry::Region;

verus! {

/// One 8-bit RGBA pixel.
#[derive(Clone, Copy, Debug, PartialEq, Eq, Structural)]
pub struct Rgba {
    pub r: u8,
    pub g: u8,
    pub b: u8,
    pub a: u8,
}

impl Rgba {
    /// The sentinel value: every channel zero.
    pub open spec fn is_transparent(self) -> bool {
        self.r == 0 && self.g == 0 && self.b == 0 && self.a == 0
    }

    pub fn transparent() -> (r: Rgba)
        ensures
            r == clear(),
    {
        Rgba { r: 0, g: 0, b: 0, a: 0 }
    }

    pub fn check_transparent(&self) -> (r: bool)
        ensures
            r == self.is_transparent(),
    {
        self.r == 0 && self.g == 0 && self.b == 0 && self.a == 0
    }
}

/// The transparent sentinel pixel.
pub open spec fn clear() -> Rgba {
    Rgba { r: 0, g: 0, b: 0, a: 0 }
}

/// The mathematical content of a frame: dimensions and row-major pixels.
pub struct Raster {
    pub width: nat,
    pub height: nat,
    pub pixels: Seq<Rgba>,
}

impl Raster {
    pub open spec fn wf(self) -> bool {
        self.pixels.len() == self.width * self.height
    }

    /// The pixel in column `x` of row `y`.
    pub open spec fn at(self, x: int, y: int) -> Rgba {
        self.pixels[y * self.width + x]
    }
}

/// A raster of `width` × `height` pixels, every one equal to `p`.
pub open spec fn filled(width: nat, height: nat, p: Rgba) -> Raster {
    Raster { width, height, pixels: Seq::new(width * height, |i: int| p) }
}

/// The pixels of `src` in region `r`, as a raster of the region's size.
pub open spec fn cropped(src: Raster, r: Region) -> Raster {
    Raster {
        width: r.width as nat,
        height: r.height as nat,
        pixels: Seq::new(
            (r.width * r.height) as nat,
            |i: int| src.at(r.x + i % (r.width as int), r.y + i / (r.width as int)),
        ),
    }
}

/// `dst` with the pixels of region `r` taken from `src`, which has the
/// region's size; every other pixel is kept.
pub open spec fn pasted(dst: Raster, src: Raster, r: Region) -> Raster {
    Raster {
        width: dst.width,
        height: dst.height,
        pixels: Seq::new(
            dst.pixels.len(),
            |i: int|
                {
                    let x = i % (dst.width as int);
                    let y = i / (dst.width as int);
                    if r.contains(x, y) {
                        src.at(x - r.x, y - r.y)
                    } else {
                        dst.pixels[i]
                    }
                },
        ),
    }
}

/// `base` with every pixel replaced by that of `top` where `top` is not
/// transparent.
pub open spec fn overlaid(base: Raster, top: Raster) -> Raster {
    Raster {
        width: base.width,
        height: base.height,
        pixels: Seq::new(
            base.pixels.len(),
            |i: int|
                if top.pixels[i].is_transparent() {
                    base.pixels[i]
                } else {
                    top.pixels[i]
                },
        ),
    }
}

/// Channel `c` (0 red, 1 green, 2 blue, 3 alpha) of `p`.
pub open spec fn channel(p: Rgba, c: int) -> u8 {
    if c == 0 {
        p.r
    } else if c == 1 {
        p.g
    } else if c == 2 {
        p.b
    } else {
        p.a
    }
}

/// Pixels laid out as interleaved RGBA bytes.
pub open spec fn raw_of(pixels: Seq<Rgba>) -> Seq<u8> {
    Seq::new(4 * pixels.len(), |k: int| channel(pixels[k / 4], k % 4))
}

/// Interleaved RGBA bytes read as pixels; trailing bytes are ignored.
pub open spec fn pixels_of(raw: Seq<u8>) -> Seq<Rgba> {
    Seq::new(
        raw.len() / 4,
        |i: int| Rgba { r: raw[4 * i], g: raw[4 * i + 1], b: raw[4 * i + 2], a: raw[4 * i + 3] },
    )
}

/// Where pixel (`x`, `y`) of a `w` × `h` raster is stored.
pub proof fn lemma_cell(x: int, y: int, w: int, h: int)
    requires
        0 <= x < w,
        0 <= y < h,
    ensures
        0 <= y * w + x < w * h,
        (y * w + x) % w == x,
        (y * w + x) / w == y,
{
    assert(0 <= y * w + x < w * h) by (nonlinear_arith)
        requires
            0 <= x < w,
            0 <= y < h,
    ;
    lemma_fundamental_div_mod_converse(y * w + x, w, y, x);
}

/// Which pixel of a `w` × `h` raster index `i` stores.
pub proof fn lemma_split(i: int, w: int, h: int)
    requires
        0 <= i < w * h,
        w > 0,
    ensures
        0 <= i % w < w,
        0 <= i / w < h,
        i == (i / w) * w + i % w,
{
    lemma_fundamental_div_mod(i, w);
    let q = i / w;
    let m = i % w;
    assert(0 <= q < h) by (nonlinear_arith)
        requires
            i == w * q + m,
            0 <= m < w,
            0 <= i < w * h,
            w > 0,
    ;
    assert(i == q * w + m) by (nonlinear_arith)
        requires
            i == w * q + m,
    ;
}

/// An RGBA frame: `pixels` holds `width` × `height` pixels, row by row.
pub struct Frame {
    pub width: u32,
    pub height: u32,
    pub pixels: Vec<Rgba>,
}

impl View for Frame {
    type V = Raster;

    open spec fn view(&self) -> Raster {
        Raster { width: self.width as nat, height: self.height as nat, pixels: self.pixels@ }
    }
}

impl Frame {
    /// The pixel count matches the dimensions, and the frame's bytes fit in
    /// memory.
    pub open spec fn wf(&self) -> bool {
        &&& self.pixels@.len() == self.width * self.height
        &&& 4 * self.pixels@.len() <= usize::MAX
    }

    /// A frame of the given size with every pixel equal to `p`.
    pub fn filled(width: u32, height: u32, p: Rgba) -> (r: Frame)
        requires
            4 * (width * height) <= usize::MAX,
        ensures
            r.wf(),
            r@ == filled(width as nat, height as nat, p),
    {
        let n = width as usize * height as usize;
        let mut pixels: Vec<Rgba> = Vec::with_capacity(n);
        let mut i: usize = 0;
        while i < n
            invariant
                n == width * height,
                i <= n,
                pixels@.len() == i,
                forall|k: int| 0 <= k < i ==> pixels@[k] == p,
            decreases n - i,
        {
            pixels.push(p);
            i = i + 1;
        }
        let r = Frame { width, height, pixels };
        assert(r@.pixels =~= filled(width as nat, height as nat, p).pixels);
        r
    }

    /// Builds a frame from interleaved RGBA bytes.
    pub fn from_raw(width: u32, height: u32, raw: &Vec<u8>) -> (r: Frame)
        requires
            raw@.len() == 4 * (width * height),
        ensures
            r.wf(),
            r.width == width,
            r.height == height,
            r.pixels@ == pixels_of(raw@),
    {
        let n = raw.len() / 4;
        let mut pixels: Vec<Rgba> = Vec::with_capacity(n);
        let mut i: usize = 0;
        while i < n
            invariant
                n == width * height,
                raw@.len() == 4 * n,
                4 * n <= usize::MAX,
                i <= n,
                pixels@.len() == i,
                forall|k: int| 0 <= k < i ==> pixels@[k] == #[trigger] pixels_of(raw@)[k],
            decreases n - i,
        {
            let j = 4 * i;
            pixels.push(Rgba { r: raw[j], g: raw[j + 1], b: raw[j + 2], a: raw[j + 3] });
            i = i + 1;
        }
        assert(pixels@ =~= pixels_of(raw@));
        Frame { width, height, pixels }
    }

    /// The frame's pixels as interleaved RGBA bytes.
    pub fn to_raw(&self) -> (r: Vec<u8>)
        requires
            self.wf(),
        ensures
            r@ == raw_of(self.pixels@),
    {
        let n = self.pixels.len();
        let mut raw: Vec<u8> = Vec::with_capacity(4 * n);
        let mut i: usize = 0;
        while i < n
            invariant
                n == self.pixels@.len(),
                4 * n <= usize::MAX,
                i <= n,
                raw@.len() == 4 * i,
                forall|k: int| 0 <= k < 4 * i ==> raw@[k] == #[trigger] raw_of(self.pixels@)[k],
            decreases n - i,
        {
            let p = self.pixels[i];
            raw.push(p.r);
            raw.push(p.g);
            raw.push(p.b);
            raw.push(p.a);
            i = i + 1;
        }
        assert(raw@ =~= raw_of(self.pixels@));
        raw
    }

    /// A pixel-for-pixel copy.
    pub fn duplicate(&self) -> (r: Frame)
        ensures
            r@ == self@,
    {
        let n = self.pixels.len();
        let mut pixels: Vec<Rgba> = Vec::with_capacity(n);
        let mut i: usize = 0;
        while i < n
            invariant
                n == self.pixels@.len(),
                i <= n,
                pixels@.len() == i,
                forall|k: int| 0 <= k < i ==> pixels@[k] == self.pixels@[k],
            decreases n - i,
        {
            pixels.push(self.pixels[i]);
            i = i + 1;
        }
        assert(pixels@ =~= self.pixels@);
        Frame { width: self.width, height: self.height, pixels }
    }

    /// Whether the pixel count matches the dimensions and fits in memory.
    pub fn is_well_formed(&self) -> (r: bool)
        ensures
            r == self.wf(),
    {
        let n = self.pixels.len() as u128;
        proof {
            let w = self.width as int;
            let h = self.height as int;
            assert(0 <= w * h <= 0xffff_ffff * 0xffff_ffff) by (nonlinear_arith)
                requires
                    0 <= w <= 0xffff_ffff,
                    0 <= h <= 0xffff_ffff,
            ;
        }
        n == self.width as u128 * self.height as u128 && 4 * n <= usize::MAX as u128
    }

    /// A copy of the pixels of region `r`.
    pub fn crop(&self, r: Region) -> (out: Frame)
        requires
            self.wf(),
            r.within(self.width as nat, self.height as nat),
        ensures
            out.wf(),
            out@ == cropped(self@, r),
    {
        proof {
            assert(r.width * r.height <= self.width * self.height) by (nonlinear_arith)
                requires
                    r.width <= self.width,
                    r.height <= self.height,
            ;
        }
        let n = r.width as usize * r.height as usize;
        let mut pixels: Vec<Rgba> = Vec::with_capacity(n);
        let mut i: usize = 0;
        while i < n
            invariant
                self.wf(),
                r.within(self.width as nat, self.height as nat),
                n == r.width * r.height,
                n <= self.width * self.height,
                i <= n,
                pixels@.len() == i,
                forall|k: int| 0 <= k < i ==> pixels@[k] == #[trigger] cropped(self@, r).pixels[k],
            decreases n - i,
        {
            proof {
                assert(r.width > 0) by (nonlinear_arith)
                    requires
                        i < n,
                        n == r.width * r.height,
                ;
            }
            let cx = i % (r.width as usize);
            let cy = i / (r.width as usize);
            proof {
                lemma_split(i as int, r.width as int, r.height as int);
                lemma_cell(
                    r.x + cx,
                    r.y + cy,
                    self.width as int,
                    self.height as int,
                );
            }
            let idx = (r.y as usize + cy) * self.width as usize + (r.x as usize + cx);
            pixels.push(self.pixels[idx]);
            i = i + 1;
        }
        let out = Frame { width: r.width, height: r.height, pixels };
        assert(out@.pixels =~= cropped(self@, r).pixels);
        out
    }

    /// Writes `src`, which has the size of region `r`, over that region;
    /// every pixel outside the region is kept.
    pub fn paste(&mut self, src: &Frame, r: Region)
        requires
            old(self).wf(),
            src.wf(),
            r.within(old(self).width as nat, old(self).height as nat),
            src.width == r.width,
            src.height == r.height,
        ensures
            final(self).wf(),
            final(self)@ == pasted(old(self)@, src@, r),
    {
        let ghost before = self@;
        let n = self.pixels.len();
        let w = self.width as usize;
        let mut i: usize = 0;
        while i < n
            invariant
                n == self.pixels@.len(),
                n == before.pixels.len(),
                before.wf(),
                self.wf(),
                self.width == before.width,
                self.height == before.height,
                w == self.width,
                src.wf(),
                r.within(self.width as nat, self.height as nat),
                src.width == r.width,
                src.height == r.height,
                i <= n,
                forall|k: int| 0 <= k < i ==> self.pixels@[k] == #[trigger] pasted(before, src@, r).pixels[k],
                forall|k: int| i <= k < n ==> self.pixels@[k] == before.pixels[k],
            decreases n - i,
        {
            proof {
                lemma_split(i as int, w as int, self.height as int);
            }
            let x = i % w;
            let y = i / w;
            if r.x as usize <= x && x < r.x as usize + r.width as usize && r.y as usize <= y && y
                < r.y as usize + r.height as usize {
                proof {
                    lemma_cell(x - r.x, y - r.y, r.width as int, r.height as int);
                }
                let idx = (y - r.y as usize) * r.width as usize + (x - r.x as usize);
                let p = src.pixels[idx];
                self.pixels.set(i, p);
            }
            i = i + 1;
        }
        assert(self@.pixels =~= pasted(before, src@, r).pixels);
    }

    /// Replaces each pixel by that of `top` wherever `top` is not transparent.
    pub fn overlay(&mut self, top: &Frame)
        requires
            old(self).wf(),
            top.wf(),
            top.width == old(self).width,
            top.height == old(self).height,
        ensures
            final(self).wf(),
            final(self)@ == overlaid(old(self)@, top@),
    {
        let ghost before = self@;
        let n = self.pixels.len();
        let mut i: usize = 0;
        while i < n
            invariant
                n == self.pixels@.len(),
                n == before.pixels.len(),
                n == top.pixels@.len(),
                self.wf(),
                self.width == before.width,
                self.height == before.height,
                i <= n,
                forall|k: int| 0 <= k < i ==> self.pixels@[k] == #[trigger] overlaid(before, top@).pixels[k],
                forall|k: int| i <= k < n ==> self.pixels@[k] == before.pixels[k],
            decreases n - i,
        {
            let p = top.pixels[i];
            if !p.check_transparent() {
                self.pixels.set(i, p);
            }
            i = i + 1;
        }
        assert(self@.pixels =~= overlaid(before, top@).pixels);
    }
}

} // verus!
