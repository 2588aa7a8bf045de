//! Pixel buffers and the raster operations the pipeline performs on them:
//! blanking the radar copyright strip, and the quarter-turn applied before
//! the image goes to the display.

use vstd::prelude::*;

verus! {

/// An RGBA bitmap: four bytes per pixel, row-major.
pub struct RasterImage {
    pub width: u32,
    pub height: u32,
    pub pixels: Vec<u8>,
}

/// A single-channel bitmap: one byte per pixel, row-major.
pub struct GrayImage {
    pub width: u32,
    pub height: u32,
    pub pixels: Vec<u8>,
}

impl RasterImage {
    pub open spec fn wf(&self) -> bool {
        self.pixels@.len() == 4 * self.width * self.height
    }
}

impl GrayImage {
    pub open spec fn wf(&self) -> bool {
        self.pixels@.len() == self.width * self.height
    }
}

/// The pixels of the clockwise quarter-turn of a `w` by `h` bitmap:
/// destination column `dy` reads up source column `dy`; destination pixel
/// (`dx`, `dy`) is source pixel (`dy`, `h - 1 - dx`).
pub open spec fn spec_rotated90(p: Seq<u8>, w: int, h: int) -> Seq<u8> {
    Seq::new(
        (4 * w * h) as nat,
        |i: int|
            {
                let pix = i / 4;
                let c = i % 4;
                let dx = pix % h;
                let dy = pix / h;
                p[4 * ((h - 1 - dx) * w + dy) + c]
            },
    )
}

/// Rotate the bitmap a quarter turn clockwise.
pub fn rotate90(img: &RasterImage) -> (r: RasterImage)
    requires
        img.wf(),
        img.width <= 0x8000,
        img.height <= 0x8000,
    ensures
        r.wf(),
        r.width == img.height,
        r.height == img.width,
        r.pixels@ == spec_rotated90(img.pixels@, img.width as int, img.height as int),
{
    let w = img.width;
    let h = img.height;
    let ghost wi = w as int;
    let ghost hi = h as int;
    let ghost target = spec_rotated90(img.pixels@, wi, hi);
    proof {
        assert(4 * wi * hi <= 4 * 0x8000 * 0x8000) by (nonlinear_arith)
            requires
                0 <= wi <= 0x8000,
                0 <= hi <= 0x8000,
        ;
        assert(target.len() == 4 * wi * hi);
    }
    let mut out: Vec<u8> = Vec::new();
    let mut dy: u32 = 0;
    proof {
        assert(out@.len() == 4 * (dy * w + 0));
    }
    while dy < w
        invariant
            dy <= w,
            wi == w as int,
            hi == h as int,
            w == img.width,
            h == img.height,
            img.wf(),
            w <= 0x8000,
            h <= 0x8000,
            target == spec_rotated90(img.pixels@, wi, hi),
            target.len() == 4 * wi * hi,
            out@.len() == 4 * (dy * hi),
            out@.len() <= target.len(),
            out@ == target.subrange(0, out@.len() as int),
        decreases w - dy,
    {
        let mut dx: u32 = 0;
        proof {
            assert(4 * (dy * hi) + 4 * 0 == 4 * (dy * hi + 0));
        }
        while dx < h
            invariant
                dx <= h,
                dy < w,
                wi == w as int,
                hi == h as int,
                w == img.width,
                h == img.height,
                img.wf(),
                w <= 0x8000,
                h <= 0x8000,
                target == spec_rotated90(img.pixels@, wi, hi),
                target.len() == 4 * wi * hi,
                out@.len() == 4 * (dy * hi + dx),
                out@.len() <= target.len(),
                out@ == target.subrange(0, out@.len() as int),
            decreases h - dx,
        {
            let sx = dy;
            let sy = h - 1 - dx;
            proof {
                assert(4 * ((hi - 1 - dx) * wi + dy) + 3 < 4 * wi * hi) by (nonlinear_arith)
                    requires
                        0 <= dx < hi,
                        0 <= dy < wi,
                ;
                assert(4 * (dy * hi + dx) + 3 < 4 * wi * hi) by (nonlinear_arith)
                    requires
                        0 <= dx < hi,
                        0 <= dy < wi,
                ;
                assert((hi - 1 - dx) * wi + dy < 0x4000_0000) by (nonlinear_arith)
                    requires
                        0 <= dx < hi,
                        0 <= dy < wi,
                        wi <= 0x8000,
                        hi <= 0x8000,
                ;
            }
            let base: usize = 4 * ((sy as usize) * (w as usize) + (sx as usize));
            let mut c: usize = 0;
            while c < 4
                invariant
                    c <= 4,
                    dx < h,
                    dy < w,
                    wi == w as int,
                    hi == h as int,
                    img.wf(),
                    w <= 0x8000,
                    h <= 0x8000,
                    base == 4 * ((hi - 1 - dx) * wi + dy),
                    base + 3 < img.pixels@.len(),
                    4 * (dy * hi + dx) + 3 < 4 * wi * hi,
                    target == spec_rotated90(img.pixels@, wi, hi),
                    target.len() == 4 * wi * hi,
                    out@.len() == 4 * (dy * hi + dx) + c,
                    out@ == target.subrange(0, out@.len() as int),
                decreases 4 - c,
            {
                let b = img.pixels[base + c];
                proof {
                    let i = out@.len() as int;
                    assert(i == 4 * (dy * hi + dx) + c);
                    assert(i / 4 == dy * hi + dx && i % 4 == c as int) by (nonlinear_arith)
                        requires
                            i == 4 * (dy * hi + dx) + c,
                            0 <= c < 4,
                            0 <= dy * hi + dx,
                    ;
                    assert((dy * hi + dx) % hi == dx && (dy * hi + dx) / hi == dy as int)
                        by (nonlinear_arith)
                        requires
                            0 <= dx < hi,
                            0 <= dy,
                    ;
                    assert(target[i] == img.pixels@[base as int + c]);
                    assert(out@.push(b) =~= target.subrange(0, i + 1));
                }
                out.push(b);
                c += 1;
            }
            proof {
                assert(4 * (dy * hi + dx) + 4 == 4 * (dy * hi + (dx + 1)));
                assert(4 * (dy * hi + (dx + 1)) <= 4 * wi * hi) by (nonlinear_arith)
                    requires
                        0 <= dx < hi,
                        0 <= dy < wi,
                ;
            }
            dx += 1;
        }
        proof {
            assert(4 * (dy * hi + hi) == 4 * ((dy + 1) * hi)) by (nonlinear_arith);
            assert(4 * ((dy + 1) * hi) <= 4 * wi * hi) by (nonlinear_arith)
                requires
                    0 <= dy < wi,
                    0 <= hi,
            ;
        }
        dy += 1;
    }
    proof {
        assert(out@.len() == 4 * (wi * hi)) by (nonlinear_arith)
            requires
                out@.len() == 4 * (wi * hi),
        ;
        assert(4 * (wi * hi) == 4 * wi * hi) by (nonlinear_arith);
        assert(out@ =~= target);
        assert(4 * hi * wi == 4 * wi * hi) by (nonlinear_arith);
    }
    RasterImage { width: h, height: w, pixels: out }
}

/// Which byte positions the banner blanking clears: the alpha channel of
/// every pixel in the top-left 512 by 16 strip.
pub open spec fn banner_alpha(i: int, w: int) -> bool {
    let pix = i / 4;
    i % 4 == 3 && pix % w < 512 && pix / w < 16
}

/// The pixels of `p` with the banner strip made transparent.
pub open spec fn spec_banner_hidden(p: Seq<u8>, w: int) -> Seq<u8> {
    Seq::new(
        p.len(),
        |i: int|
            if banner_alpha(i, w) {
                0u8
            } else {
                p[i]
            },
    )
}

/// Make the copyright strip at the top of the radar bitmap transparent by
/// zeroing the alpha of its pixels.
pub fn hide_banner(img: RasterImage) -> (r: RasterImage)
    requires
        img.wf(),
        img.width >= 512,
        img.height >= 16,
        img.width <= 0x8000,
        img.height <= 0x8000,
    ensures
        r.wf(),
        r.width == img.width,
        r.height == img.height,
        r.pixels@ == spec_banner_hidden(img.pixels@, img.width as int),
{
    let w = img.width;
    let h = img.height;
    let ghost wi = w as int;
    let ghost orig = img.pixels@;
    let ghost target = spec_banner_hidden(orig, wi);
    let mut pixels = img.pixels;
    proof {
        assert(4 * wi * (img.height as int) >= 4 * wi * 16) by (nonlinear_arith)
            requires
                img.height >= 16,
                wi >= 0,
        ;
        assert(target.len() == orig.len());
    }
    let mut x: u32 = 0;
    while x < 512
        invariant
            x <= 512,
            wi == w as int,
            w >= 512,
            w <= 0x8000,
            orig.len() >= 4 * wi * 16,
            pixels@.len() == orig.len(),
            target == spec_banner_hidden(orig, wi),
            target.len() == orig.len(),
            forall|i: int|
                0 <= i < orig.len() ==> pixels@[i] == (if banner_alpha(i, wi) && (#[trigger] (i
                    / 4)) % wi < x {
                    0u8
                } else {
                    orig[i]
                }),
        decreases 512 - x,
    {
        let mut y: u32 = 0;
        while y < 16
            invariant
                y <= 16,
                x < 512,
                wi == w as int,
                w >= 512,
                w <= 0x8000,
                orig.len() >= 4 * wi * 16,
                pixels@.len() == orig.len(),
                target == spec_banner_hidden(orig, wi),
                target.len() == orig.len(),
                forall|i: int|
                    0 <= i < orig.len() ==> pixels@[i] == (if banner_alpha(i, wi) && ((#[trigger] (
                    i / 4)) % wi < x || ((i / 4) % wi == x && (i / 4) / wi < y)) {
                        0u8
                    } else {
                        orig[i]
                    }),
            decreases 16 - y,
        {
            proof {
                assert(4 * ((y * wi) + x) + 3 < 4 * wi * 16) by (nonlinear_arith)
                    requires
                        0 <= y < 16,
                        0 <= x < wi,
                ;
            }
            let idx: usize = 4 * ((y as usize) * (w as usize) + (x as usize)) + 3;
            let ghost oldp = pixels@;
            pixels.set(idx, 0u8);
            proof {
                let ii = idx as int;
                assert(ii / 4 == y * wi + x && ii % 4 == 3) by (nonlinear_arith)
                    requires
                        ii == 4 * (y * wi + x) + 3,
                        0 <= y * wi + x,
                ;
                assert((y * wi + x) % wi == x && (y * wi + x) / wi == y as int)
                    by (nonlinear_arith)
                    requires
                        0 <= x < wi,
                        0 <= y,
                ;
                assert forall|i: int| 0 <= i < orig.len() implies pixels@[i] == (if banner_alpha(
                    i,
                    wi,
                ) && ((#[trigger] (i / 4)) % wi < x || ((i / 4) % wi == x && (i / 4) / wi < y + 1)) {
                    0u8
                } else {
                    orig[i]
                }) by {
                    if i != ii {
                        assert(pixels@[i] == oldp[i]);
                        if (i / 4) % wi == x && i % 4 == 3 && (i / 4) / wi == y as int {
                            assert(i / 4 == (i / 4) / wi * wi + (i / 4) % wi) by (nonlinear_arith)
                                requires
                                    wi > 0,
                            ;
                            assert(i == 4 * (i / 4) + i % 4);
                            assert(i == ii);
                        }
                    }
                }
            }
            y += 1;
        }
        x += 1;
    }
    proof {
        assert forall|i: int| 0 <= i < orig.len() implies pixels@[i] == target[i] by {
            assert(pixels@[i] == (if banner_alpha(i, wi) && ((i / 4) % wi < 512 || ((i / 4) % wi
                == 512 && (i / 4) / wi < 16)) {
                0u8
            } else {
                orig[i]
            }));
        }
        assert(pixels@ =~= target);
    }
    RasterImage { width: w, height: h, pixels }
}

} // verus!
