//! The engine's own model of a grayscale sub-image: plain bytes in row-major
//! order. The resampling and sharpening themselves are done by outside
//! crates behind trusted wrappers; everything around them — binarising,
//! centring on a white canvas, converting to a packed bit matrix — is
//! verified here.

use vstd::prelude::*;
use vstd::arithmetic::div_mod::lemma_fundamental_div_mod_converse;
use crate::matrix::{mx_bit, row_bit, is_bit_set, lemma_zero_row, lemma_set_bit};

verus! {

/// Threshold below which a grayscale value counts as ink when none is
/// configured.
pub open spec fn spec_default_black_threshold() -> u8 {
    140
}

/// A grayscale image held as one byte per pixel, row-major.
#[derive(Debug)]
pub struct GrayBuffer {
    pub width: u32,
    pub height: u32,
    pub pixels: Vec<u8>,
}

impl GrayBuffer {
    /// The byte count matches the dimensions, and both edges are small
    /// enough that every index fits comfortably in a `u32`.
    pub open spec fn wf(self) -> bool {
        &&& self.pixels@.len() == self.width as int * self.height as int
        &&& self.width <= 4096
        &&& self.height <= 4096
    }

    /// The pixel at (x, y).
    pub open spec fn px(self, x: int, y: int) -> u8 {
        self.pixels@[y * self.width as int + x]
    }

    pub fn new(width: u32, height: u32, pixels: Vec<u8>) -> (r: GrayBuffer)
        requires
            pixels@.len() == width as int * height as int,
            width <= 4096,
            height <= 4096,
        ensures
            r.width == width,
            r.height == height,
            r.pixels@ == pixels@,
            r.wf(),
    {
        GrayBuffer { width, height, pixels }
    }

    pub fn get(&self, x: u32, y: u32) -> (r: u8)
        requires
            self.wf(),
            x < self.width,
            y < self.height,
        ensures
            r == self.px(x as int, y as int),
    {
        proof {
            lemma_grid_index(x as int, y as int, self.width as int, self.height as int);
        }
        self.pixels[(y as usize) * (self.width as usize) + (x as usize)]
    }
}

/// A row-major index stays within the buffer; with both edges at most
/// 4096, buffer length and index fit easily in a `u32`.
pub proof fn lemma_grid_index(x: int, y: int, w: int, h: int)
    by (nonlinear_arith)
    requires
        0 <= x < w,
        0 <= y < h,
        w <= 4096,
        h <= 4096,
    ensures
        0 <= y * w + x < w * h,
        0 <= y * w,
        w * h <= 16777216,
{
}

/// A row-major index decomposes uniquely into its coordinates.
pub proof fn lemma_grid_decompose(x: int, y: int, w: int)
    requires
        0 <= x < w,
        0 <= y,
    ensures
        (y * w + x) / w == y,
        (y * w + x) % w == x,
{
    lemma_fundamental_div_mod_converse(y * w + x, w, y, x);
}

/// Every index of a buffer yields in-range coordinates that recompose to
/// it.
pub proof fn lemma_grid_recompose(i: int, w: int, h: int)
    requires
        0 <= i < w * h,
        0 < w,
        0 < h,
    ensures
        0 <= i % w < w,
        0 <= i / w < h,
        (i / w) * w + (i % w) == i,
{
    vstd::arithmetic::div_mod::lemma_fundamental_div_mod(i, w);
    vstd::arithmetic::div_mod::lemma_mod_bound(i, w);
    assert(i / w < h) by (nonlinear_arith)
        requires
            0 <= i < w * h,
            0 < w,
            0 < h,
            i == w * (i / w) + (i % w),
            0 <= i % w < w,
    ;
    assert(0 <= i / w) by (nonlinear_arith)
        requires
            0 <= i,
            0 < w,
            i == w * (i / w) + (i % w),
            0 <= i % w < w,
    ;
    assert((i / w) * w == w * (i / w)) by (nonlinear_arith);
}

/// What the resampling of an outside crate returns: a function of the
/// source pixels and the four dimensions alone.
pub uninterp spec fn resize_of(pixels: Seq<u8>, w: int, h: int, nw: int, nh: int) -> Seq<u8>;

/// Relies on image::imageops::resize with the Lanczos3 filter: the output
/// buffer holds exactly `nw * nh` bytes, and depends on nothing besides the
/// source pixels and the dimensions.
#[verifier::external_body]
fn resize_gray(pixels: &Vec<u8>, w: u32, h: u32, nw: u32, nh: u32) -> (r: Vec<u8>)
    requires
        pixels@.len() == w as int * h as int,
        1 <= w,
        1 <= h,
        1 <= nw <= 4096,
        1 <= nh <= 4096,
    ensures
        r@ == resize_of(pixels@, w as int, h as int, nw as int, nh as int),
        r@.len() == nw as int * nh as int,
{
    let img = image::GrayImage::from_raw(w, h, pixels.clone()).unwrap();
    let out = image::imageops::resize(&img, nw, nh, image::imageops::FilterType::Lanczos3);
    out.into_raw()
}

/// What the sharpening filter of an outside crate returns: a function of
/// the source pixels and the dimensions alone.
pub uninterp spec fn sharpen_of(pixels: Seq<u8>, w: int, h: int) -> Seq<u8>;

/// Relies on imageproc::filter::sharpen3x3, a 3x3 Laplacian-based sharpen:
/// the output has the same dimensions as the input and depends on nothing
/// besides the input pixels and dimensions.
#[verifier::external_body]
fn sharpen3x3_gray(pixels: &Vec<u8>, w: u32, h: u32) -> (r: Vec<u8>)
    requires
        pixels@.len() == w as int * h as int,
        1 <= w,
        1 <= h,
    ensures
        r@ == sharpen_of(pixels@, w as int, h as int),
        r@.len() == pixels@.len(),
{
    let img = image::GrayImage::from_raw(w, h, pixels.clone()).unwrap();
    imageproc::filter::sharpen3x3(&img).into_raw()
}

/// Sharpens a grayscale image with the fixed 3x3 kernel of the filter
/// crate; dimensions are kept.
pub fn sharpen_image(img: &GrayBuffer) -> (r: GrayBuffer)
    requires
        img.wf(),
        1 <= img.width,
        1 <= img.height,
    ensures
        r.wf(),
        r.width == img.width,
        r.height == img.height,
        r.pixels@ == sharpen_of(img.pixels@, img.width as int, img.height as int),
{
    let out = sharpen3x3_gray(&img.pixels, img.width, img.height);
    GrayBuffer { width: img.width, height: img.height, pixels: out }
}

/// Resizes a grayscale image to the given dimensions through the
/// resampling wrapper.
pub fn stretch(img: &GrayBuffer, width: u32, height: u32) -> (r: GrayBuffer)
    requires
        img.wf(),
        1 <= img.width,
        1 <= img.height,
        1 <= width <= 4096,
        1 <= height <= 4096,
    ensures
        r.wf(),
        r.width == width,
        r.height == height,
        r.pixels@ == resize_of(
            img.pixels@,
            img.width as int,
            img.height as int,
            width as int,
            height as int,
        ),
{
    let out = resize_gray(&img.pixels, img.width, img.height, width, height);
    GrayBuffer { width, height, pixels: out }
}

/// Value of a binarised pixel: pure ink below the threshold, pure paper at
/// or above it.
pub open spec fn bw_px(v: u8, thr: u8) -> u8 {
    if v < thr {
        0
    } else {
        255
    }
}

/// Binarises an image: every pixel below the threshold becomes ink (0),
/// every other pixel paper (255). Without an explicit threshold the stock
/// one is used.
pub fn make_bw(img: &GrayBuffer, black_threshold: Option<u8>) -> (r: GrayBuffer)
    requires
        img.wf(),
    ensures
        r.wf(),
        r.width == img.width,
        r.height == img.height,
        r.pixels@.len() == img.pixels@.len(),
        forall|i: int|
            0 <= i < img.pixels@.len() ==> r.pixels@[i] == bw_px(
                img.pixels@[i],
                match black_threshold {
                    Option::Some(t) => t,
                    Option::None => spec_default_black_threshold(),
                },
            ),
{
    let thr: u8 = match black_threshold {
        Option::Some(t) => t,
        Option::None => 140,
    };
    let mut out: Vec<u8> = Vec::new();
    let mut i: usize = 0;
    let n = img.pixels.len();
    while i < n
        invariant
            n == img.pixels@.len(),
            i <= n,
            out@.len() == i as int,
            forall|j: int| 0 <= j < i as int ==> out@[j] == bw_px(img.pixels@[j], thr),
        decreases n - i,
    {
        let v = img.pixels[i];
        if v < thr {
            out.push(0);
        } else {
            out.push(255);
        }
        i = i + 1;
    }
    GrayBuffer { width: img.width, height: img.height, pixels: out }
}

/// An all-white (paper) image of the given dimensions.
pub fn create_white_image(width: u32, height: u32) -> (r: GrayBuffer)
    requires
        width <= 4096,
        height <= 4096,
    ensures
        r.wf(),
        r.width == width,
        r.height == height,
        forall|i: int| 0 <= i < r.pixels@.len() ==> r.pixels@[i] == 255u8,
{
    proof {
        assert(0 <= width as int * height as int <= 16777216) by (nonlinear_arith)
            requires
                width <= 4096,
                height <= 4096,
        ;
    }
    let n: usize = (width as usize) * (height as usize);
    let mut out: Vec<u8> = Vec::new();
    let mut i: usize = 0;
    while i < n
        invariant
            i <= n,
            out@.len() == i as int,
            forall|j: int| 0 <= j < i as int ==> out@[j] == 255u8,
        decreases n - i,
    {
        out.push(255);
        i = i + 1;
    }
    GrayBuffer { width, height, pixels: out }
}

/// The pixel of a source image centred on a white square canvas of edge
/// `size`: inside the centred copy it is the source pixel, outside it is
/// paper.
pub open spec fn square_px(src: Seq<u8>, w: int, h: int, size: int, x: int, y: int) -> u8 {
    let dx = (size - w) / 2;
    let dy = (size - h) / 2;
    if dx <= x < dx + w && dy <= y < dy + h {
        src[(y - dy) * w + (x - dx)]
    } else {
        255
    }
}

/// Centres the source image on a white square canvas of edge `size`.
pub fn create_square_image(source_img: &GrayBuffer, size: u32) -> (r: GrayBuffer)
    requires
        source_img.wf(),
        source_img.width <= size,
        source_img.height <= size,
        size <= 64,
    ensures
        r.wf(),
        r.width == size,
        r.height == size,
        forall|x: int, y: int|
            0 <= x < size as int && 0 <= y < size as int ==> #[trigger] r.px(x, y) == square_px(
                source_img.pixels@,
                source_img.width as int,
                source_img.height as int,
                size as int,
                x,
                y,
            ),
{
    let w = source_img.width;
    let h = source_img.height;
    let ghost sw = w as int;
    let ghost sh = h as int;
    let ghost ssize = size as int;
    let ghost src = source_img.pixels@;
    let delta_x: u32 = (size - w) / 2;
    let delta_y: u32 = (size - h) / 2;
    let mut block = create_white_image(size, size);
    let mut y: u32 = 0;
    while y < h
        invariant
            y <= h,
            source_img.wf(),
            w == source_img.width,
            h == source_img.height,
            sw == w as int,
            sh == h as int,
            ssize == size as int,
            src == source_img.pixels@,
            w <= size <= 64,
            h <= size,
            delta_x as int == (ssize - sw) / 2,
            delta_y as int == (ssize - sh) / 2,
            block.width == size,
            block.height == size,
            block.pixels@.len() == ssize * ssize,
            forall|i: int|
                0 <= i < ssize * ssize ==> #[trigger] block.pixels@[i] == square_partial(
                    src,
                    sw,
                    sh,
                    ssize,
                    i,
                    y as int,
                ),
        decreases h - y,
    {
        let target_y: u32 = y + delta_y;
        let mut x: u32 = 0;
        while x < w
            invariant
                x <= w,
                y < h,
                source_img.wf(),
                w == source_img.width,
                h == source_img.height,
                sw == w as int,
                sh == h as int,
                ssize == size as int,
                src == source_img.pixels@,
                w <= size <= 64,
                h <= size,
                delta_x as int == (ssize - sw) / 2,
                delta_y as int == (ssize - sh) / 2,
                target_y as int == y as int + delta_y as int,
                block.width == size,
                block.height == size,
                block.pixels@.len() == ssize * ssize,
                forall|i: int|
                    0 <= i < ssize * ssize ==> #[trigger] block.pixels@[i] == square_partial_row(
                        src,
                        sw,
                        sh,
                        ssize,
                        i,
                        y as int,
                        x as int,
                    ),
            decreases w - x,
        {
            let target_x: u32 = x + delta_x;
            let v = source_img.get(x, y);
            proof {
                lemma_grid_index(target_x as int, target_y as int, ssize, ssize);
            }
            let idx: usize = (target_y as usize) * (size as usize) + (target_x as usize);
            block.pixels[idx] = v;
            proof {
                lemma_grid_decompose(target_x as int, target_y as int, ssize);
                lemma_grid_index(x as int, y as int, sw, sh);
                assert forall|i: int| 0 <= i < ssize * ssize implies #[trigger] block.pixels@[i]
                    == square_partial_row(src, sw, sh, ssize, i, y as int, x as int + 1) by {
                    if i != idx as int {
                        assert(i / ssize != target_y as int || i % ssize != target_x as int) by {
                            if i / ssize == target_y as int && i % ssize == target_x as int {
                                vstd::arithmetic::div_mod::lemma_fundamental_div_mod(i, ssize);
                            }
                        }
                    }
                }
            }
            x = x + 1;
        }
        proof {
            assert forall|i: int| 0 <= i < ssize * ssize implies #[trigger] block.pixels@[i]
                == square_partial(src, sw, sh, ssize, i, y as int + 1) by {
                assert(block.pixels@[i] == square_partial_row(src, sw, sh, ssize, i, y as int, sw));
            }
        }
        y = y + 1;
    }
    proof {
        assert forall|x: int, yy: int| 0 <= x < ssize && 0 <= yy < ssize implies #[trigger] block.px(
            x,
            yy,
        ) == square_px(src, sw, sh, ssize, x, yy) by {
            lemma_grid_index(x, yy, ssize, ssize);
            lemma_grid_decompose(x, yy, ssize);
            assert(block.pixels@[yy * ssize + x] == square_partial(src, sw, sh, ssize, yy * ssize
                + x, sh));
        }
    }
    block
}

/// Packs a binarised 32x32 image into a bit matrix: a cell is set exactly
/// where the image holds ink (value 0).
pub fn build_bit_mx_from_32_image(image: &GrayBuffer) -> (r: [u32; 32])
    requires
        image.wf(),
        image.width == 32,
        image.height == 32,
    ensures
        forall|x: int, y: int| #[trigger]
            mx_bit(r@, x, y) == (0 <= x < 32 && 0 <= y < 32 && image.px(x, y) == 0),
{
    let mut mx = [0u32; 32];
    let mut y: u32 = 0;
    while y < 32
        invariant
            y <= 32,
            image.wf(),
            image.width == 32,
            image.height == 32,
            mx@.len() == 32,
            forall|xx: int, yy: int|
                0 <= yy < y as int ==> (#[trigger] mx_bit(mx@, xx, yy) == (0 <= xx < 32
                    && image.px(xx, yy) == 0)),
        decreases 32 - y,
    {
        let mut row: u32 = 0;
        let mut x: u32 = 0;
        proof {
            lemma_zero_row();
        }
        while x < 32
            invariant
                x <= 32,
                image.wf(),
                image.width == 32,
                image.height == 32,
                y < 32,
                forall|c: u32|
                    c < x ==> (#[trigger] row_bit(row, c) == (image.px(c as int, y as int) == 0)),
                forall|c: u32| x <= c ==> !(#[trigger] row_bit(row, c)),
            decreases 32 - x,
        {
            if image.get(x, y) == 0 {
                proof {
                    lemma_set_bit(row, x);
                }
                row = row | (1u32 << (31 - x));
            }
            x = x + 1;
        }
        let ghost mx_before = mx@;
        mx[y as usize] = row;
        proof {
            assert forall|xx: int, yy: int| 0 <= yy < y as int + 1 implies (#[trigger] mx_bit(
                mx@,
                xx,
                yy,
            ) == (0 <= xx < 32 && image.px(xx, yy) == 0)) by {
                if yy < y as int {
                    assert(mx@[yy] == mx_before[yy]);
                    assert(mx_bit(mx@, xx, yy) == mx_bit(mx_before, xx, yy));
                } else {
                    assert(mx@[yy] == row);
                }
            }
        }
        y = y + 1;
    }
    mx
}

/// Renders a bit matrix back to a 32x32 binarised image: ink (0) where a
/// cell is set, paper (255) elsewhere.
pub fn build_image_from_32bit_mx(mx: &[u32; 32]) -> (r: GrayBuffer)
    requires
        mx@.len() == 32,
    ensures
        r.wf(),
        r.width == 32,
        r.height == 32,
        forall|x: int, y: int|
            0 <= x < 32 && 0 <= y < 32 ==> #[trigger] r.px(x, y) == (if mx_bit(mx@, x, y) {
                0u8
            } else {
                255u8
            }),
{
    let mut out: Vec<u8> = Vec::new();
    let mut y: u32 = 0;
    while y < 32
        invariant
            y <= 32,
            mx@.len() == 32,
            out@.len() == y as int * 32,
            forall|xx: int, yy: int|
                0 <= xx < 32 && 0 <= yy < y as int ==> #[trigger] out@[yy * 32 + xx] == (if mx_bit(
                    mx@,
                    xx,
                    yy,
                ) {
                    0u8
                } else {
                    255u8
                }),
        decreases 32 - y,
    {
        let mut x: u32 = 0;
        while x < 32
            invariant
                x <= 32,
                y < 32,
                mx@.len() == 32,
                out@.len() == y as int * 32 + x as int,
                forall|xx: int, yy: int|
                    0 <= xx < 32 && 0 <= yy < y as int ==> #[trigger] out@[yy * 32 + xx] == (
                    if mx_bit(mx@, xx, yy) {
                        0u8
                    } else {
                        255u8
                    }),
                forall|xx: int|
                    0 <= xx < x as int ==> #[trigger] out@[y as int * 32 + xx] == (if mx_bit(
                        mx@,
                        xx,
                        y as int,
                    ) {
                        0u8
                    } else {
                        255u8
                    }),
            decreases 32 - x,
        {
            proof {
                lemma_grid_index(x as int, y as int, 32, 32);
            }
            if is_bit_set(x, y, mx.as_slice()) {
                out.push(0);
            } else {
                out.push(255);
            }
            x = x + 1;
        }
        y = y + 1;
    }
    proof {
        assert(out@.len() == 32 as int * 32);
    }
    GrayBuffer { width: 32, height: 32, pixels: out }
}

/// Upscales an image by pixel replication: every source pixel becomes a
/// `scale` by `scale` block.
pub fn build_scaled_image(image: &GrayBuffer, scale: u32) -> (r: GrayBuffer)
    requires
        image.wf(),
        1 <= scale,
        image.width as int * scale as int <= 4096,
        image.height as int * scale as int <= 4096,
    ensures
        r.wf(),
        r.width as int == image.width as int * scale as int,
        r.height as int == image.height as int * scale as int,
        forall|x: int, y: int|
            0 <= x < r.width as int && 0 <= y < r.height as int ==> #[trigger] r.px(x, y)
                == image.px(x / scale as int, y / scale as int),
{
    proof {
        assert(image.width as int <= image.width as int * scale as int) by (nonlinear_arith)
            requires
                1 <= scale,
                0 <= image.width,
        ;
        assert(image.height as int <= image.height as int * scale as int) by (nonlinear_arith)
            requires
                1 <= scale,
                0 <= image.height,
        ;
    }
    let width: u32 = image.width * scale;
    let height: u32 = image.height * scale;
    let mut out: Vec<u8> = Vec::new();
    let mut ty: u32 = 0;
    while ty < height
        invariant
            image.wf(),
            1 <= scale,
            width as int == image.width as int * scale as int,
            height as int == image.height as int * scale as int,
            width <= 4096,
            height <= 4096,
            ty <= height,
            out@.len() == ty as int * width as int,
            forall|xx: int, yy: int|
                0 <= xx < width as int && 0 <= yy < ty as int ==> #[trigger] out@[yy
                    * width as int + xx] == image.px(xx / scale as int, yy / scale as int),
        decreases height - ty,
    {
        let mut tx: u32 = 0;
        while tx < width
            invariant
                image.wf(),
                1 <= scale,
                width as int == image.width as int * scale as int,
                height as int == image.height as int * scale as int,
                width <= 4096,
                height <= 4096,
                ty < height,
                tx <= width,
                out@.len() == ty as int * width as int + tx as int,
                forall|xx: int, yy: int|
                    0 <= xx < width as int && 0 <= yy < ty as int ==> #[trigger] out@[yy
                        * width as int + xx] == image.px(xx / scale as int, yy / scale as int),
                forall|xx: int|
                    0 <= xx < tx as int ==> #[trigger] out@[ty as int * width as int + xx]
                        == image.px(xx / scale as int, ty as int / scale as int),
            decreases width - tx,
        {
            proof {
                assert((tx as int / scale as int) < image.width as int && (ty as int
                    / scale as int) < image.height as int && (tx as int / scale as int) >= 0 && (
                ty as int / scale as int) >= 0) by (nonlinear_arith)
                    requires
                        0 <= (tx as int) < (image.width as int * scale as int),
                        0 <= (ty as int) < (image.height as int * scale as int),
                        1 <= scale,
                ;
                lemma_grid_index(tx as int, ty as int, width as int, height as int);
            }
            let v = image.get(tx / scale, ty / scale);
            out.push(v);
            proof {
                assert forall|xx: int, yy: int|
                    0 <= xx < width as int && 0 <= yy < ty as int implies #[trigger] out@[yy
                    * width as int + xx] == image.px(xx / scale as int, yy / scale as int) by {
                    assert(0 <= yy * width as int + xx < ty as int * width as int)
                        by (nonlinear_arith)
                        requires
                            0 <= xx < width as int,
                            0 <= yy < ty as int,
                    ;
                }
            }
            tx = tx + 1;
        }
        proof {
            assert((ty as int + 1) * width as int == ty as int * width as int + width as int)
                by (nonlinear_arith);
        }
        ty = ty + 1;
    }
    proof {
        assert(0 <= width as int * height as int <= 16777216) by (nonlinear_arith)
            requires
                0 <= width <= 4096,
                0 <= height <= 4096,
        ;
        assert(out@.len() == width as int * height as int) by (nonlinear_arith)
            requires
                out@.len() == height as int * width as int,
        ;
    }
    GrayBuffer { width, height, pixels: out }
}

/// The ratio of the shorter to the longer edge, in thousandths.
pub open spec fn spec_ratio_permille(w: int, h: int) -> int {
    if w > h {
        1000 * h / w
    } else {
        1000 * w / h
    }
}

/// Width and height a glyph image is resized to: the longer edge becomes
/// `target_size`; the shorter one shrinks down to 8 pixels the more
/// elongated the glyph is.
pub open spec fn spec_stretch_width(w: int, h: int, target_size: int) -> int {
    if w > h {
        target_size
    } else {
        crate::util::spec_scale(spec_ratio_permille(w, h), 100, 400, 8, target_size)
    }
}

pub open spec fn spec_stretch_height(w: int, h: int, target_size: int) -> int {
    if w > h {
        crate::util::spec_scale(spec_ratio_permille(w, h), 100, 400, 8, target_size)
    } else {
        target_size
    }
}

/// The whole pixel buffer produced by `stretch_check_ratio`: the source
/// resampled to the ratio-checked dimensions and centred on a white square
/// canvas of edge `size`.
pub open spec fn spec_check_ratio_px(pix: Seq<u8>, w: int, h: int, size: int) -> Seq<u8> {
    Seq::new(
        (size * size) as nat,
        |i: int|
            square_px(
                resize_of(
                    pix,
                    w,
                    h,
                    spec_stretch_width(w, h, size),
                    spec_stretch_height(w, h, size),
                ),
                spec_stretch_width(w, h, size),
                spec_stretch_height(w, h, size),
                size,
                i % size,
                i / size,
            ),
    )
}

/// Resizes a glyph image so that its longer edge matches `target_size`,
/// keeping very elongated glyphs from being blown up to a square, then
/// centres the result on a white canvas of edge `final_size`.
pub fn stretch_check_ratio(img: &GrayBuffer, target_size: u32, final_size: u32) -> (r: GrayBuffer)
    requires
        img.wf(),
        1 <= img.width,
        1 <= img.height,
        8 <= target_size <= final_size,
        final_size <= 64,
    ensures
        r.wf(),
        r.width == final_size,
        r.height == final_size,
        forall|x: int, y: int|
            0 <= x < final_size as int && 0 <= y < final_size as int ==> #[trigger] r.px(x, y)
                == square_px(
                resize_of(
                    img.pixels@,
                    img.width as int,
                    img.height as int,
                    spec_stretch_width(img.width as int, img.height as int, target_size as int),
                    spec_stretch_height(img.width as int, img.height as int, target_size as int),
                ),
                spec_stretch_width(img.width as int, img.height as int, target_size as int),
                spec_stretch_height(img.width as int, img.height as int, target_size as int),
                final_size as int,
                x,
                y,
            ),
        target_size == final_size ==> r.pixels@ == spec_check_ratio_px(
            img.pixels@,
            img.width as int,
            img.height as int,
            target_size as int,
        ),
{
    let width = img.width;
    let height = img.height;
    let ratio: u32 = if width > height {
        (1000 * height) / width
    } else {
        (1000 * width) / height
    };
    let target_min_dim: u32 = match crate::util::scale(
        ratio as i64,
        100,
        400,
        8,
        target_size as i64,
    ) {
        Result::Ok(v) => v,
        Result::Err(_) => vstd::pervasive::unreached(),
    };
    let target_width: u32 = if width > height {
        target_size
    } else {
        target_min_dim
    };
    let target_height: u32 = if width > height {
        target_min_dim
    } else {
        target_size
    };
    let stretched = stretch(img, target_width, target_height);
    let out = create_square_image(&stretched, final_size);
    proof {
        if target_size == final_size {
            let fs = final_size as int;
            assert forall|i: int| 0 <= i < fs * fs implies out.pixels@[i] == #[trigger]
                spec_check_ratio_px(
                img.pixels@,
                img.width as int,
                img.height as int,
                target_size as int,
            )[i] by {
                lemma_grid_recompose(i, fs, fs);
                assert(out.px(i % fs, i / fs) == out.pixels@[(i / fs) * fs + (i % fs)]);
            }
            assert(out.pixels@ =~= spec_check_ratio_px(
                img.pixels@,
                img.width as int,
                img.height as int,
                target_size as int,
            ));
        }
    }
    out
}

/// Canvas content after the first `rows` source rows have been copied.
pub open spec fn square_partial(src: Seq<u8>, w: int, h: int, size: int, i: int, rows: int) -> u8 {
    square_partial_row(src, w, h, size, i, rows, 0)
}

/// Canvas content after `rows` full source rows plus `cols` pixels of row
/// `rows` have been copied; everything else is still paper, except where a
/// source pixel already landed.
pub open spec fn square_partial_row(
    src: Seq<u8>,
    w: int,
    h: int,
    size: int,
    i: int,
    rows: int,
    cols: int,
) -> u8 {
    let dx = (size - w) / 2;
    let dy = (size - h) / 2;
    let x = i % size;
    let y = i / size;
    if dx <= x < dx + w && dy <= y < dy + h && ((y - dy < rows) || (y - dy == rows && x - dx
        < cols)) {
        src[(y - dy) * w + (x - dx)]
    } else {
        255
    }
}

} // verus!
