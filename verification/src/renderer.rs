//! The renderer: viewport, refinement schedule and frame composition.

use vstd::prelude::*;
use rayon::iter::{IndexedParallelIterator, ParallelIterator};
use rayon::slice::ParallelSliceMut;
use crate::args::{Args, ColorScheme, ScanConfig};
use crate::complex::Complex;
use crate::fixed::{Fixed, ONE, fx_mul, mul_wide, trunc_div, lemma_product_bound};
use crate::fractals::{ColorMode, channels, color_map, color_of, escape_time, mandelbrot};
use crate::image::{anchor, band_of, band_rows, sample_at, lemma_band_pixel, lemma_bands_make_frame};
use crate::state::{
    CENTER_LIMIT,
    MAX_SCALE,
    PAN_SPEED_DEN,
    PAN_SPEED_NUM,
    RenderState,
    mode_of,
    stride_at,
    within_limit,
};

verus! {

/// The number of colours that a renderer keeps ready at most.
pub const PALETTE_SIZE: usize = 1024;

/// Renders the Mandelbrot set into frames of RGBA bytes, coarse passes first
/// where progressive refinement is on.
pub struct Renderer {
    width: u32,
    height: u32,
    center_x: Fixed,
    center_y: Fixed,
    scale: Fixed,
    max_iterations: u32,
    color_scheme: ColorScheme,
    scan_level: u32,
    scan_config: ScanConfig,
    /// The colours of the lowest iteration counts under the current cap and
    /// scheme, computed once.
    palette: Vec<[u8; 3]>,
}

impl View for Renderer {
    type V = RenderState;

    closed spec fn view(&self) -> RenderState {
        RenderState {
            width: self.width,
            height: self.height,
            center_x: self.center_x@,
            center_y: self.center_y@,
            scale: self.scale@,
            max_iterations: self.max_iterations,
            color_scheme: self.color_scheme,
            scan_level: self.scan_level,
            scan_config: self.scan_config,
        }
    }
}

/// Whether `palette` holds, for each index that it has, the colour of that
/// iteration count under the cap `cap` and the mode `mode`.
pub open spec fn palette_matches(palette: Seq<[u8; 3]>, cap: u32, mode: ColorMode) -> bool {
    forall|i: int|
        0 <= i < palette.len() ==> i <= cap && channels(#[trigger] palette[i]) == color_of(
            i as nat,
            cap as nat,
            mode,
        )
}

/// The colour-mapping strategy that a scheme selects.
pub fn color_mode(scheme: ColorScheme) -> (mode: ColorMode)
    ensures
        mode == mode_of(scheme),
{
    match scheme {
        ColorScheme::Smooth => ColorMode::Smooth,
        ColorScheme::Zebra => ColorMode::Zebra,
        ColorScheme::Red => ColorMode::Red,
        ColorScheme::Blue => ColorMode::Blue,
        ColorScheme::BlackAndWhite => ColorMode::BlackAndWhite,
        ColorScheme::Rainbow => ColorMode::Rainbow,
        ColorScheme::Psychedelic => ColorMode::Psychedelic,
        ColorScheme::GreenGradient => ColorMode::GreenGradient,
        ColorScheme::Electric => ColorMode::Electric,
    }
}

/// The number of colours kept ready under the cap `cap`: one for each
/// iteration count from zero up to the cap, as far as the palette's size
/// allows.
pub open spec fn palette_len(cap: u32) -> nat {
    if cap + 1 < PALETTE_SIZE {
        (cap + 1) as nat
    } else {
        PALETTE_SIZE as nat
    }
}

/// The colours of the iteration counts from zero up to the cap, as far as
/// the palette's size allows.
fn build_palette(cap: u32, mode: ColorMode) -> (palette: Vec<[u8; 3]>)
    requires
        cap > 0,
    ensures
        palette@.len() == palette_len(cap),
        palette_matches(palette@, cap, mode),
{
    let mut palette: Vec<[u8; 3]> = Vec::new();
    let mut i: u32 = 0;
    while i <= cap && palette.len() < PALETTE_SIZE
        invariant
            cap > 0,
            palette@.len() == i,
            i <= cap + 1,
            i <= PALETTE_SIZE,
            palette_matches(palette@, cap, mode),
        decreases PALETTE_SIZE - palette@.len(),
    {
        let color = color_map(i, cap, mode);
        palette.push(color);
        i = i + 1;
    }
    palette
}

/// The distance that a pan by `amount` extents moves the centre of a region
/// of extent `scale`.
fn pan_distance(amount: Fixed, scale: Fixed) -> (distance: i128)
    ensures
        distance == trunc_div(PAN_SPEED_NUM * fx_mul(amount@, scale@), PAN_SPEED_DEN as int),
        -0x40_0000_0000_0000_0000 <= distance <= 0x40_0000_0000_0000_0000,
{
    let product: i128 = mul_wide(amount.to_raw(), scale.to_raw());
    product * (PAN_SPEED_NUM as i128) / (PAN_SPEED_DEN as i128)
}

/// The coordinate of the sample at pixel `index` of `size`.
fn sample_coordinate(center: Fixed, extent: Fixed, index: u32, size: u32) -> (r: Fixed)
    requires
        index < size,
        0 < extent@ <= MAX_SCALE,
        within_limit(center@),
    ensures
        r@ == sample_at(center@, extent@, index as int, size as int),
{
    let offset: i128 = 2 * (index as i128) - (size as i128);
    proof {
        lemma_product_bound(offset as int, extent@, size as int, MAX_SCALE as int);
        let n = offset * extent@;
        let d = 2 * size;
        let bound = size * MAX_SCALE;
        assert(-MAX_SCALE <= trunc_div(n, d) <= MAX_SCALE) by (nonlinear_arith)
            requires
                -bound <= n <= bound,
                bound == size * MAX_SCALE,
                d == 2 * size,
                size > 0,
        ;
        assert(size * MAX_SCALE <= 0xffff_ffff * MAX_SCALE) by (nonlinear_arith)
            requires
                size <= 0xffff_ffff,
        ;
    }
    let num: i128 = offset * (extent.to_raw() as i128);
    let shift: i128 = num / (2 * (size as i128));
    Fixed::from_raw((center.to_raw() as i128 + shift) as i64)
}

impl Renderer {
    /// The invariant of a renderer: a valid state, and a palette that agrees
    /// with the iteration cap and the colour scheme.
    pub open spec fn wf(&self) -> bool {
        self@.valid() && self.palette_ok()
    }

    /// Whether the colours kept ready are those of the current cap and
    /// scheme, as many as the cap and the palette's size allow.
    pub closed spec fn palette_ok(&self) -> bool {
        &&& self.palette@.len() == palette_len(self.max_iterations)
        &&& palette_matches(self.palette@, self.max_iterations, mode_of(self.color_scheme))
    }

    /// A renderer for a target of 800 by 600 pixels, showing the region of
    /// extent 2.5 around `-0.5`, with 200 iterations, the smooth scheme and
    /// the default refinement.
    pub fn new() -> (r: Self)
        ensures
            r.wf(),
            r@ == (RenderState {
                width: 800,
                height: 600,
                center_x: -(ONE / 2),
                center_y: 0,
                scale: 5 * (ONE / 2),
                max_iterations: 200,
                color_scheme: ColorScheme::Smooth,
                scan_level: 0,
                scan_config: ScanConfig { enabled: true, initial_stride: 8 },
            }),
    {
        Self {
            width: 800,
            height: 600,
            center_x: Fixed::from_raw(-(ONE / 2)),
            center_y: Fixed::from_raw(0),
            scale: Fixed::from_raw(5 * (ONE / 2)),
            max_iterations: 200,
            color_scheme: ColorScheme::Smooth,
            scan_level: 0,
            scan_config: ScanConfig::default(),
            palette: build_palette(200, ColorMode::Smooth),
        }
    }

    /// Moves the centre by `(dx, dy)` times the extent of the region times
    /// the pan speed, and restarts refinement.  A pan that would take the
    /// centre beyond its limit is rejected and changes nothing.  Returns
    /// whether the pan was applied.
    pub fn pan(&mut self, dx: Fixed, dy: Fixed) -> (applied: bool)
        requires
            old(self).wf(),
        ensures
            final(self).wf(),
            applied == old(self)@.pan_accepts(dx@, dy@),
            final(self)@ == old(self)@.panned(dx@, dy@),
            applied ==> final(self)@.scan_level == 0,
    {
        let new_x: i128 = self.center_x.to_raw() as i128 + pan_distance(dx, self.scale);
        let new_y: i128 = self.center_y.to_raw() as i128 + pan_distance(dy, self.scale);
        let limit: i128 = CENTER_LIMIT as i128;
        if -limit <= new_x && new_x <= limit && -limit <= new_y && new_y <= limit {
            self.center_x = Fixed::from_raw(new_x as i64);
            self.center_y = Fixed::from_raw(new_y as i64);
            self.scan_level = 0;
            true
        } else {
            false
        }
    }

    /// Scales the region around its centre by `factor` and restarts
    /// refinement.  The scale never exceeds ten and never reaches zero: a
    /// zoom that would take it there is rejected and changes nothing.
    /// Returns whether the zoom was applied.
    pub fn zoom(&mut self, factor: Fixed) -> (applied: bool)
        requires
            old(self).wf(),
        ensures
            final(self).wf(),
            applied == old(self)@.zoom_accepts(factor@),
            final(self)@ == old(self)@.zoomed(factor@),
            applied ==> final(self)@.scan_level == 0,
    {
        let new_scale: i128 = mul_wide(self.scale.to_raw(), factor.to_raw());
        if 0 < new_scale && new_scale <= MAX_SCALE as i128 {
            self.scale = Fixed::from_raw(new_scale as i64);
            self.scan_level = 0;
            true
        } else {
            false
        }
    }

    /// Switches to another colour scheme and restarts refinement.
    pub fn change_color_scheme(&mut self, scheme: ColorScheme)
        requires
            old(self).wf(),
        ensures
            final(self).wf(),
            final(self)@ == old(self)@.recolored(scheme),
            final(self)@.scan_level == 0,
    {
        self.palette = build_palette(self.max_iterations, color_mode(scheme));
        self.color_scheme = scheme;
        self.scan_level = 0;
    }

    /// The stride of the next pass; zero when refinement is complete.
    pub fn current_stride(&self) -> (stride: u32)
        ensures
            stride == self@.stride(),
    {
        proof {
            lemma_shift_is_stride(self.scan_config.initial_stride, self.scan_level);
        }
        if self.scan_level >= 32 {
            0
        } else {
            self.scan_config.initial_stride >> self.scan_level
        }
    }

    /// Whether a pass is still owed: refinement is on and has not reached
    /// full resolution.
    pub fn is_scanning(&self) -> (scanning: bool)
        ensures
            scanning == self@.is_scanning(),
    {
        if !self.scan_config.enabled {
            return false;
        }
        self.current_stride() >= 1
    }

    /// Gives the target another size and restarts refinement.  A size
    /// without any pixel is rejected and changes nothing.  Returns whether
    /// the size was applied.
    pub fn resize(&mut self, width: u32, height: u32) -> (applied: bool)
        requires
            old(self).wf(),
        ensures
            final(self).wf(),
            applied == (width > 0 && height > 0),
            final(self)@ == old(self)@.resized(width, height),
            applied ==> final(self)@.scan_level == 0,
    {
        if width == 0 || height == 0 {
            return false;
        }
        self.width = width;
        self.height = height;
        self.scan_level = 0;
        true
    }

    /// Takes over the size of the target, the iteration cap and the
    /// refinement from `args`, and restarts refinement.  Returns whether the
    /// size of the target has changed, so that the caller can size its
    /// frames to it.
    pub fn apply_args(&mut self, args: &Args) -> (resized: bool)
        requires
            old(self).wf(),
            args@.valid(),
        ensures
            final(self).wf(),
            final(self)@ == old(self)@.configured(args@),
            resized == (old(self)@.width != args@.width || old(self)@.height != args@.height),
    {
        let resized = self.width != args.get_width() || self.height != args.get_height();
        self.palette = build_palette(args.get_max_iterations(), color_mode(self.color_scheme));
        self.max_iterations = args.get_max_iterations();
        self.scan_config = args.get_scan_config();
        self.width = args.get_width();
        self.height = args.get_height();
        self.scan_level = 0;
        resized
    }

    /// Answers a request to render into `frame`, which holds four bytes for
    /// each pixel of the target.
    ///
    /// Without refinement every request renders the full image.  With it, a
    /// request renders the pass of the current stride and moves on to the
    /// next level; once the stride has reached zero a request changes
    /// nothing.
    pub fn render(&mut self, frame: &mut [u8])
        requires
            old(self).wf(),
            old(frame)@.len() == old(self)@.frame_len(),
        ensures
            final(self).wf(),
            final(self)@ == old(self)@.after_pass(),
            final(frame)@ == old(self)@.frame_after(old(frame)@),
            final(frame)@.len() == old(frame)@.len(),
    {
        if !self.scan_config.enabled {
            self.render_full(frame);
            return ;
        }
        let stride = self.current_stride();
        if stride < 1 {
            return ;
        }
        self.render_with_stride(frame, stride);
        proof {
            lemma_shift_is_stride(self.scan_config.initial_stride, self.scan_level);
        }
        self.scan_level = self.scan_level + 1;
    }

    /// Renders every pixel from its own sample.
    fn render_full(&self, frame: &mut [u8])
        requires
            self.wf(),
            old(frame)@.len() == self@.frame_len(),
        ensures
            final(frame)@ == self@.image(1),
    {
        self.render_with_stride(frame, 1);
    }

    /// Renders one sample for each block of `stride` by `stride` pixels and
    /// gives the whole block, as far as it lies inside the target, the
    /// colour of that sample.
    fn render_with_stride(&self, frame: &mut [u8], stride: u32)
        requires
            self.wf(),
            stride >= 1,
            old(frame)@.len() == self@.frame_len(),
        ensures
            final(frame)@ == self@.image(stride as int),
    {
        let rows: u32 = if stride < self.height {
            stride
        } else {
            self.height
        };
        let total: usize = frame.len();
        proof {
            let w = self.width as int;
            let h = self.height as int;
            assert(total == 4 * w * h);
            assert(0 < 4 * w * rows <= 4 * w * h) by (nonlinear_arith)
                requires
                    0 < rows <= h,
                    w > 0,
            ;
            assert(4 * w <= 4 * w * rows) by (nonlinear_arith)
                requires
                    1 <= rows,
                    w > 0,
            ;
        }
        let band_len: usize = 4 * (self.width as usize) * (rows as usize);
        self.fill_bands(frame, band_len, stride);
        proof {
            lemma_bands_make_frame(frame@, self@.image(stride as int), band_len as int);
        }
    }

    /// Hands the bands of `frame`, each `band_len` bytes long but for the
    /// last, to rayon's `par_chunks_mut`, `enumerate` and `for_each`, which
    /// call `fill_band` once for each band, with the band's index, on
    /// threads of rayon's pool, and return when every call has returned.
    /// The contract claims, band by band, what `fill_band` ensures; that
    /// every band is visited exactly once with its own index is taken from
    /// rayon.
    #[verifier::external_body]
    fn fill_bands(&self, frame: &mut [u8], band_len: usize, stride: u32)
        requires
            self.wf(),
            stride >= 1,
            band_len == self@.band_len(stride as int),
            band_len > 0,
            old(frame)@.len() == self@.frame_len(),
        ensures
            final(frame)@.len() == old(frame)@.len(),
            forall|b: int|
                0 <= b && b * band_len < old(frame)@.len() ==> #[trigger] band_of(
                    final(frame)@,
                    b,
                    band_len as int,
                ) == band_of(self@.image(stride as int), b, band_len as int),
    {
        frame.par_chunks_mut(band_len).enumerate().for_each(
            |(b, band)| self.fill_band(band, b, stride),
        );
    }

    /// Renders band `b` of a pass with the given stride into `band`: the
    /// rows of one row of blocks, or as many of them as the target has left.
    fn fill_band(&self, band: &mut [u8], b: usize, stride: u32)
        requires
            self.wf(),
            stride >= 1,
            old(band)@.len() > 0,
            (old(band)@.len() as int) % (4 * self@.width) == 0,
            old(band)@.len() <= self@.band_len(stride as int),
            b * self@.band_len(stride as int) + old(band)@.len() <= self@.frame_len(),
        ensures
            final(band)@ == self@.image(stride as int).subrange(
                b * self@.band_len(stride as int),
                b * self@.band_len(stride as int) + old(band)@.len(),
            ),
    {
        let ghost state = self@;
        let ghost w = self.width as int;
        let ghost h = self.height as int;
        let ghost rows_int = band_rows(h, stride as int);
        let ghost start = b * state.band_len(stride as int);
        let ghost len = band@.len() as int;
        let rows: u32 = if stride < self.height {
            stride
        } else {
            self.height
        };
        proof {
            assert(len >= 4 * w) by (nonlinear_arith)
                requires
                    len > 0,
                    len % (4 * w) == 0,
                    w > 0,
            {
                assert(len == (4 * w) * (len / (4 * w)) + len % (4 * w));
            }
            assert(len % 4 == 0) by (nonlinear_arith)
                requires
                    len > 0,
                    len % (4 * w) == 0,
                    w > 0,
            {
                assert(len == (4 * w) * (len / (4 * w)) + len % (4 * w));
                assert(len == 4 * (w * (len / (4 * w))));
            }
            assert(start == 4 * (b * rows_int * w)) by (nonlinear_arith)
                requires
                    start == b * (4 * w * rows_int),
            ;
            assert(0 <= b * rows_int < h) by (nonlinear_arith)
                requires
                    4 * (b * rows_int * w) + len <= 4 * w * h,
                    len >= 4 * w,
                    w > 0,
                    b >= 0,
                    rows_int >= 1,
            ;
        }
        let y0: u32 = (b * (rows as usize)) as u32;
        let colors = self.anchor_colors(y0, stride);
        let width: usize = self.width as usize;
        let pixels: usize = band.len() / 4;
        let mut p: usize = 0;
        while p < pixels
            invariant
                self.wf(),
                state == self@,
                stride >= 1,
                w == self@.width,
                h == self@.height,
                width == w,
                rows_int == band_rows(h, stride as int),
                start == 4 * (b * rows_int * w),
                y0 == b * rows_int,
                len == band@.len(),
                len <= 4 * w * rows_int,
                start + len <= 4 * w * h,
                pixels == len / 4,
                len % 4 == 0,
                len <= usize::MAX,
                p <= pixels,
                colors@.len() * stride >= w,
                forall|j: int|
                    0 <= j < colors@.len() ==> channels(#[trigger] colors@[j]) == state.sample_color(
                        j * stride,
                        y0 as int,
                    ),
                forall|k: int| 0 <= k < 4 * p ==> band@[k] == state.byte_at(start + k, stride as int),
            decreases pixels - p,
        {
            let x: usize = p % width;
            proof {
                let n = colors@.len() as int;
                let s = stride as int;
                let xi = x as int;
                assert(0 <= xi / s < n) by (nonlinear_arith)
                    requires
                        0 <= xi < w,
                        w <= n * s,
                        s >= 1,
                ;
            }
            let color = colors[x / (stride as usize)];
            proof {
                assert(b * rows_int * w + p < w * h) by (nonlinear_arith)
                    requires
                        4 * (b * rows_int * w) + len <= 4 * w * h,
                        p < len / 4,
                        len % 4 == 0,
                ;
                assert(p < w * rows_int) by (nonlinear_arith)
                    requires
                        len <= 4 * w * rows_int,
                        p < len / 4,
                ;
                lemma_band_pixel(w, h, stride as int, b as int, p as int);
                crate::fractals::lemma_first_escape_least(
                    state.sample(anchor(x as int, stride as int), y0 as int),
                    0,
                    state.max_iterations as nat,
                );
                crate::fractals::lemma_channels_in_range(
                    escape_time(
                        state.sample(anchor(x as int, stride as int), y0 as int),
                        state.max_iterations as nat,
                    ),
                    state.max_iterations as nat,
                    mode_of(state.color_scheme),
                );
            }
            let at: usize = 4 * p;
            band[at] = color[0];
            band[at + 1] = color[1];
            band[at + 2] = color[2];
            band[at + 3] = 255;
            p = p + 1;
        }
        proof {
            assert(band@ =~= state.image(stride as int).subrange(start, start + len));
        }
    }

    /// The colours of the samples of the row of blocks that starts at row
    /// `y0`, one for each block from left to right.
    fn anchor_colors(&self, y0: u32, stride: u32) -> (colors: Vec<[u8; 3]>)
        requires
            self.wf(),
            stride >= 1,
            y0 < self@.height,
        ensures
            colors@.len() * stride >= self@.width,
            forall|j: int|
                0 <= j < colors@.len() ==> channels(#[trigger] colors@[j]) == self@.sample_color(
                    j * stride,
                    y0 as int,
                ),
    {
        let sy = sample_coordinate(self.center_y, self.scale, y0, self.height);
        let mut colors: Vec<[u8; 3]> = Vec::new();
        let mut ax: u64 = 0;
        while ax < self.width as u64
            invariant
                self.wf(),
                stride >= 1,
                y0 < self@.height,
                sy@ == sample_at(self@.center_y, self@.scale, y0 as int, self@.height as int),
                ax == colors@.len() * stride,
                ax < self@.width + stride,
                forall|j: int|
                    0 <= j < colors@.len() ==> channels(#[trigger] colors@[j]) == self@.sample_color(
                        j * stride,
                        y0 as int,
                    ),
            decreases self@.width + stride - ax,
        {
            let sx = sample_coordinate(self.center_x, self.scale, ax as u32, self.width);
            let n = mandelbrot(sx, sy, self.max_iterations);
            let color = self.get_color(n);
            proof {
                assert((colors@.len() + 1) * stride == colors@.len() * stride + stride)
                    by (nonlinear_arith);
            }
            colors.push(color);
            ax = ax + stride as u64;
        }
        colors
    }

    /// Width of the target in pixels.
    pub fn width(&self) -> (w: u32)
        ensures
            w == self@.width,
    {
        self.width
    }

    /// Height of the target in pixels.
    pub fn height(&self) -> (h: u32)
        ensures
            h == self@.height,
    {
        self.height
    }

    /// Centre of the visible region.
    pub fn center(&self) -> (c: (Fixed, Fixed))
        ensures
            c.0@ == self@.center_x,
            c.1@ == self@.center_y,
    {
        (self.center_x, self.center_y)
    }

    /// The corner of the visible region that the first pixel samples, and the
    /// corner opposite to it.
    pub fn corners(&self) -> (c: (Complex, Complex))
        requires
            self.wf(),
        ensures
            c.0@ == (self@.left(), self@.top()),
            c.1@ == (self@.right(), self@.bottom()),
    {
        let half: i64 = self.scale.to_raw() / 2;
        let left: i64 = self.center_x.to_raw() - half;
        let top: i64 = self.center_y.to_raw() - half;
        (
            Complex::new(Fixed::from_raw(left), Fixed::from_raw(top)),
            Complex::new(
                Fixed::from_raw(left + self.scale.to_raw()),
                Fixed::from_raw(top + self.scale.to_raw()),
            ),
        )
    }

    /// Width and height of the visible region.
    pub fn scale(&self) -> (s: Fixed)
        ensures
            s@ == self@.scale,
    {
        self.scale
    }

    /// The iteration cap.
    pub fn max_iterations(&self) -> (n: u32)
        ensures
            n == self@.max_iterations,
    {
        self.max_iterations
    }

    /// The colour scheme in use.
    pub fn color_scheme(&self) -> (s: ColorScheme)
        ensures
            s == self@.color_scheme,
    {
        self.color_scheme
    }

    /// The number of passes made since refinement last restarted.
    pub fn scan_level(&self) -> (level: u32)
        ensures
            level == self@.scan_level,
    {
        self.scan_level
    }

    /// The refinement in use.
    pub fn scan_config(&self) -> (c: ScanConfig)
        ensures
            c == self@.scan_config,
    {
        self.scan_config
    }

    /// The colour of a sample that took `iterations` iterations.
    pub fn get_color(&self, iterations: u32) -> (rgb: [u8; 3])
        requires
            self.wf(),
            iterations <= self@.max_iterations,
        ensures
            channels(rgb) == color_of(
                iterations as nat,
                self@.max_iterations as nat,
                mode_of(self@.color_scheme),
            ),
    {
        if (iterations as usize) < self.palette.len() {
            self.palette[iterations as usize]
        } else {
            color_map(iterations, self.max_iterations, color_mode(self.color_scheme))
        }
    }
}

/// A shift to the right halves once for each position, and 32 halvings
/// exhaust every stride.
pub proof fn lemma_shift_is_stride(initial: u32, level: u32)
    ensures
        level < 32 ==> (initial >> level) == stride_at(initial as nat, level as nat),
        level >= 32 ==> stride_at(initial as nat, level as nat) == 0,
    decreases level,
{
    if level == 0 {
        assert(initial >> 0u32 == initial) by (bit_vector);
    } else {
        let prev = (level - 1) as u32;
        lemma_shift_is_stride(initial, prev);
        if level < 32 {
            assert((initial >> level) == (initial >> prev) / 2) by (bit_vector)
                requires
                    0 < level < 32,
                    prev == level - 1,
            ;
        } else if level == 32 {
            assert((initial >> prev) / 2 == 0) by (bit_vector)
                requires
                    prev == 31,
            ;
        }
    }
}

} // verus!
