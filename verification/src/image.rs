//! The contents of a rendered frame as a function of the renderer's state.

use vstd::prelude::*;
use vstd::arithmetic::div_mod::{
    lemma_fundamental_div_mod,
    lemma_fundamental_div_mod_converse,
};
use crate::fixed::trunc_div;
use crate::fractals::{color_of, escape_time};
use crate::state::{RenderState, mode_of};

verus! {

/// The pixel coordinate at which the block of `v` is sampled: the largest
/// multiple of `stride` that does not exceed `v`.
pub open spec fn anchor(v: int, stride: int) -> int {
    v - v % stride
}

/// The coordinate of the sample at pixel `index` of `size`, on an axis whose
/// visible part has the given centre and extent: the lower edge plus the
/// fraction `index / size` of the extent.
pub open spec fn sample_at(center: int, extent: int, index: int, size: int) -> int {
    center + trunc_div((2 * index - size) * extent, 2 * size)
}

/// The number of rows of pixels that one band of blocks covers.
pub open spec fn band_rows(height: int, stride: int) -> int {
    if stride < height {
        stride
    } else {
        height
    }
}

/// The part of `s` that band `b` covers, where each band but the last holds
/// `band_len` bytes.
pub open spec fn band_of(s: Seq<u8>, b: int, band_len: int) -> Seq<u8> {
    s.subrange(
        b * band_len,
        if (b + 1) * band_len < s.len() {
            (b + 1) * band_len
        } else {
            s.len() as int
        },
    )
}

impl RenderState {
    /// The sample point of the pixel `(x, y)`.
    pub open spec fn sample(self, x: int, y: int) -> (int, int) {
        (
            sample_at(self.center_x, self.scale, x, self.width as int),
            sample_at(self.center_y, self.scale, y, self.height as int),
        )
    }

    /// The colour of the sample at the pixel `(x, y)`.
    pub open spec fn sample_color(self, x: int, y: int) -> (int, int, int) {
        color_of(
            escape_time(self.sample(x, y), self.max_iterations as nat),
            self.max_iterations as nat,
            mode_of(self.color_scheme),
        )
    }

    /// The colour that a pass with the given stride gives to the pixel
    /// `(x, y)`: that of the sample at the corner of its block.
    pub open spec fn pixel_color(self, x: int, y: int, stride: int) -> (int, int, int) {
        self.sample_color(anchor(x, stride), anchor(y, stride))
    }

    /// The byte at position `k` of the frame after a pass with the given
    /// stride: red, green, blue and full opacity for each pixel, row by row
    /// from the top left.
    pub open spec fn byte_at(self, k: int, stride: int) -> u8 {
        let pixel = k / 4;
        let color = self.pixel_color(pixel % (self.width as int), pixel / (self.width as int), stride);
        let channel = k % 4;
        if channel == 0 {
            color.0 as u8
        } else if channel == 1 {
            color.1 as u8
        } else if channel == 2 {
            color.2 as u8
        } else {
            255u8
        }
    }

    /// The length of the frame in bytes.
    pub open spec fn frame_len(self) -> int {
        4 * self.width * self.height
    }

    /// The length in bytes of one band of a pass with the given stride.
    pub open spec fn band_len(self, stride: int) -> int {
        4 * self.width * band_rows(self.height as int, stride)
    }

    /// The frame after a pass with the given stride.
    pub open spec fn image(self, stride: int) -> Seq<u8> {
        Seq::new(self.frame_len() as nat, |k: int| self.byte_at(k, stride))
    }

    /// The frame after a request to render, given the frame before it: the
    /// full image where refinement is off, the image of the current stride
    /// while a pass is owed, and the frame as it was otherwise.
    pub open spec fn frame_after(self, before: Seq<u8>) -> Seq<u8> {
        if !self.scan_config.enabled {
            self.image(1)
        } else if self.stride() >= 1 {
            self.image(self.stride() as int)
        } else {
            before
        }
    }
}

/// The samples of an axis start at the lower edge of the visible part, do
/// not decrease with the pixel, and stay below the upper edge.
pub proof fn lemma_samples_span_extent(center: int, extent: int, index: int, size: int)
    requires
        extent > 0,
        0 <= index < size,
    ensures
        sample_at(center, extent, 0, size) == center - extent / 2,
        center - extent / 2 <= sample_at(center, extent, index, size) < center - extent / 2
            + extent,
        index + 1 < size ==> sample_at(center, extent, index, size) <= sample_at(
            center,
            extent,
            index + 1,
            size,
        ),
{
    let d = 2 * size;
    let n0 = (0 - size) * extent;
    let n = (2 * index - size) * extent;
    let n1 = (2 * (index + 1) - size) * extent;
    let half = extent / 2;
    assert(n0 == -(size * extent) && n1 == n + 2 * extent && -(size * extent) <= n <= (size - 2)
        * extent) by (nonlinear_arith)
        requires
            n0 == (0 - size) * extent,
            n == (2 * index - size) * extent,
            n1 == (2 * (index + 1) - size) * extent,
            0 <= index < size,
            extent > 0,
    ;
    assert((size * extent) / d == half) by (nonlinear_arith)
        requires
            d == 2 * size,
            half == extent / 2,
            size > 0,
            extent > 0,
    {
        let r = extent % 2;
        assert(extent == 2 * half + r);
        assert(size * extent == d * half + size * r);
        assert(0 <= size * r < d);
    }
    assert(-half <= trunc_div(n, d) && trunc_div(n, d) <= trunc_div(n + 2 * extent, d))
        by (nonlinear_arith)
        requires
            -(size * extent) <= n <= (size - 2) * extent,
            (size * extent) / d == half,
            d == 2 * size,
            half == extent / 2,
            size > 0,
            extent > 0,
    {
        if n >= 0 {
            assert(n / d <= (size * extent) / d);
            assert(n / d <= (n + 2 * extent) / d);
        } else {
            assert((-n) / d <= (size * extent) / d);
            if n + 2 * extent < 0 {
                assert((-(n + 2 * extent)) / d <= (-n) / d);
            } else {
                assert((n + 2 * extent) / d >= 0);
            }
        }
    }
    assert(trunc_div(n, d) < extent - half) by (nonlinear_arith)
        requires
            n <= (size - 2) * extent,
            d == 2 * size,
            half == extent / 2,
            size > 0,
            extent > 0,
    {
        if n >= 0 {
            assert(2 * (n / d) * size <= n);
            assert(2 * half <= extent);
        }
    }
}

/// Every sample lies in the visible region, and the first pixel samples its
/// corner: the centre and the scale on one side, the edges on the other,
/// describe the same region.
pub proof fn lemma_samples_lie_in_region(s: RenderState, x: int, y: int)
    requires
        s.valid(),
        0 <= x < s.width,
        0 <= y < s.height,
    ensures
        s.sample(0, 0) == (s.left(), s.top()),
        s.left() <= s.sample(x, y).0 < s.right(),
        s.top() <= s.sample(x, y).1 < s.bottom(),
{
    lemma_samples_span_extent(s.center_x, s.scale, x, s.width as int);
    lemma_samples_span_extent(s.center_y, s.scale, y, s.height as int);
}

/// A pass with stride one gives every pixel the colour of its own sample.
pub proof fn lemma_full_resolution(s: RenderState, x: int, y: int)
    ensures
        anchor(x, 1) == x,
        s.pixel_color(x, y, 1) == s.sample_color(x, y),
{
}

/// A pass samples each block of `stride` by `stride` pixels once, at the
/// corner whose coordinates are multiples of the stride, and gives every
/// pixel of the block the colour of that sample.
pub proof fn lemma_blocks_are_uniform(s: RenderState, x: int, y: int, stride: int)
    requires
        stride >= 1,
        0 <= x,
        0 <= y,
    ensures
        anchor(x, stride) % stride == 0,
        0 <= anchor(x, stride) <= x < anchor(x, stride) + stride,
        anchor(y, stride) % stride == 0,
        0 <= anchor(y, stride) <= y < anchor(y, stride) + stride,
        s.pixel_color(x, y, stride) == s.sample_color(anchor(x, stride), anchor(y, stride)),
        s.pixel_color(x, y, stride) == s.pixel_color(
            anchor(x, stride),
            anchor(y, stride),
            stride,
        ),
{
    lemma_anchor(x, stride);
    lemma_anchor(y, stride);
}

/// The anchor of `v` is the largest multiple of the stride that does not
/// exceed `v`, and is its own anchor.
pub proof fn lemma_anchor(v: int, stride: int)
    requires
        stride >= 1,
        0 <= v,
    ensures
        anchor(v, stride) == (v / stride) * stride,
        anchor(v, stride) % stride == 0,
        0 <= anchor(v, stride) <= v < anchor(v, stride) + stride,
        anchor(anchor(v, stride), stride) == anchor(v, stride),
{
    lemma_fundamental_div_mod(v, stride);
    let q = v / stride;
    assert(q * stride == stride * q) by (nonlinear_arith);
    lemma_fundamental_div_mod_converse(q * stride, stride, q, 0);
}

/// Where the pixel at position `p` of a band lies, and where its block is
/// sampled.
pub proof fn lemma_band_pixel(width: int, height: int, stride: int, b: int, p: int)
    requires
        width > 0,
        height > 0,
        stride >= 1,
        b >= 0,
        0 <= p < width * band_rows(height, stride),
        b * band_rows(height, stride) * width + p < width * height,
    ensures
        ({
            let pixel = b * band_rows(height, stride) * width + p;
            &&& pixel % width == p % width
            &&& pixel / width == b * band_rows(height, stride) + p / width
            &&& 0 <= p / width < band_rows(height, stride)
            &&& pixel / width < height
            &&& anchor(pixel / width, stride) == b * band_rows(height, stride)
            &&& 0 <= b * band_rows(height, stride) < height
            &&& anchor(p % width, stride) == (p % width) / stride * stride
            &&& 0 <= (p % width) / stride * stride <= p % width < width
        }),
{
    let rows = band_rows(height, stride);
    let x = p % width;
    let r = p / width;
    let y0 = b * rows;
    lemma_fundamental_div_mod(p, width);
    assert(0 <= r < rows) by (nonlinear_arith)
        requires
            p == width * r + x,
            0 <= x < width,
            0 <= p < width * rows,
    ;
    assert(y0 * width + p == width * (y0 + r) + x) by (nonlinear_arith)
        requires
            p == width * r + x,
    ;
    lemma_fundamental_div_mod_converse(y0 * width + p, width, y0 + r, x);
    assert(y0 >= 0) by (nonlinear_arith)
        requires
            b >= 0,
            rows >= 1,
            y0 == b * rows,
    ;
    assert(y0 + r < height) by (nonlinear_arith)
        requires
            y0 * width + p < width * height,
            p == width * r + x,
            0 <= x < width,
    ;
    if stride < height {
        lemma_fundamental_div_mod_converse(y0 + r, stride, b, r);
    } else {
        assert(b == 0) by (nonlinear_arith)
            requires
                b >= 0,
                b * height + r < height,
                r >= 0,
                height > 0,
        ;
        assert(0 * stride == 0 && 0 * rows == 0);
        lemma_fundamental_div_mod_converse(y0 + r, stride, 0, r);
    }
    lemma_fundamental_div_mod(x, stride);
    assert(x / stride * stride == stride * (x / stride)) by (nonlinear_arith);
}

/// A frame whose bands agree with those of an image of the same length is
/// that image.
pub proof fn lemma_bands_make_frame(frame: Seq<u8>, image: Seq<u8>, band_len: int)
    requires
        band_len > 0,
        frame.len() == image.len(),
        forall|b: int|
            0 <= b && b * band_len < image.len() ==> #[trigger] band_of(frame, b, band_len)
                == band_of(image, b, band_len),
    ensures
        frame == image,
{
    assert forall|k: int| 0 <= k < frame.len() implies frame[k] == image[k] by {
        let b = k / band_len;
        let off = k % band_len;
        lemma_fundamental_div_mod(k, band_len);
        assert(b >= 0 && b * band_len <= k < (b + 1) * band_len) by (nonlinear_arith)
            requires
                k == band_len * b + off,
                0 <= off < band_len,
                k >= 0,
        ;
        assert(band_of(frame, b, band_len) == band_of(image, b, band_len));
        assert(band_of(frame, b, band_len)[k - b * band_len] == frame[k]);
        assert(band_of(image, b, band_len)[k - b * band_len] == image[k]);
    }
    assert(frame =~= image);
}

} // verus!
