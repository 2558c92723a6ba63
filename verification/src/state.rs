//! The state of a renderer as a mathematical value, the transitions that the
//! renderer's operations make on it, and the laws that they obey.

use vstd::prelude::*;
use crate::args::{ArgsView, ColorScheme, ScanConfig};
use crate::fixed::{ONE, fx_mul, reciprocal, trunc_div, lemma_fx_mul_neg, lemma_trunc_div_neg};
use crate::fractals::ColorMode;

verus! {

/// The largest scale, ten in raw representation: zooming out stops here.
pub const MAX_SCALE: i64 = 720575940379279360;

/// The largest magnitude of a coordinate of the centre, 64 in raw
/// representation: panning stops here.
pub const CENTER_LIMIT: i64 = 0x4000_0000_0000_0000;

/// The numerator of the pan speed, three tenths of the extent per unit.
pub const PAN_SPEED_NUM: i64 = 3;

/// The denominator of the pan speed.
pub const PAN_SPEED_DEN: i64 = 10;

/// The colour-mapping strategy that a scheme selects.
pub open spec fn mode_of(scheme: ColorScheme) -> ColorMode {
    match scheme {
        ColorScheme::Smooth => ColorMode::Smooth,
        ColorScheme::Zebra => ColorMode::Zebra,
        ColorScheme::Red => ColorMode::Red,
        ColorScheme::Blue => ColorMode::Blue,
        ColorScheme::BlackAndWhite => ColorMode::BlackAndWhite,
        ColorScheme::Rainbow => ColorMode::Rainbow,
        ColorScheme::Psychedelic => ColorMode::Psychedelic,
        ColorScheme::GreenGradient => ColorMode::GreenGradient,
        ColorScheme::Electric => ColorMode::Electric,
    }
}

/// The stride of the pass at `level`: the initial stride halved `level`
/// times, rounding down.  Zero means that no pass is left.
pub open spec fn stride_at(initial: nat, level: nat) -> nat
    decreases level,
{
    if level == 0 {
        initial
    } else {
        stride_at(initial, (level - 1) as nat) / 2
    }
}

/// The number of passes from the coarsest to the finest: the number of
/// halvings after which `initial` has reached zero.
pub open spec fn pass_count(initial: nat) -> nat
    decreases initial,
{
    if initial == 0 {
        0
    } else {
        1 + pass_count(initial / 2)
    }
}

/// Whether `v` is within the range allowed to a coordinate of the centre.
pub open spec fn within_limit(v: int) -> bool {
    -CENTER_LIMIT <= v <= CENTER_LIMIT
}

/// The state of a renderer.  Coordinates and the scale are raw fixed-point
/// representations.
pub struct RenderState {
    pub width: u32,
    pub height: u32,
    pub center_x: int,
    pub center_y: int,
    /// Width and height of the visible region.
    pub scale: int,
    pub max_iterations: u32,
    pub color_scheme: ColorScheme,
    pub scan_level: u32,
    pub scan_config: ScanConfig,
}

impl RenderState {
    /// The invariant of the state: a target of at least one pixel, at least
    /// one iteration, a region of positive extent that does not exceed the
    /// largest scale, and a centre within its limit.
    pub open spec fn valid(self) -> bool {
        &&& self.width > 0
        &&& self.height > 0
        &&& self.max_iterations > 0
        &&& 0 < self.scale <= MAX_SCALE
        &&& within_limit(self.center_x)
        &&& within_limit(self.center_y)
    }

    /// Left edge of the region.
    pub open spec fn left(self) -> int {
        self.center_x - self.scale / 2
    }

    /// Right edge of the region.
    pub open spec fn right(self) -> int {
        self.left() + self.scale
    }

    /// Edge of the region that the first row of pixels lies on.
    pub open spec fn top(self) -> int {
        self.center_y - self.scale / 2
    }

    /// Edge of the region beyond the last row of pixels.
    pub open spec fn bottom(self) -> int {
        self.top() + self.scale
    }

    /// The stride of the next pass; zero when refinement is complete.
    pub open spec fn stride(self) -> nat {
        stride_at(self.scan_config.initial_stride as nat, self.scan_level as nat)
    }

    /// Whether a pass is still owed.
    pub open spec fn is_scanning(self) -> bool {
        self.scan_config.enabled && self.stride() >= 1
    }

    /// The distance that a pan by `d` extents moves the centre.
    pub open spec fn pan_delta(self, d: int) -> int {
        trunc_div(PAN_SPEED_NUM * fx_mul(d, self.scale), PAN_SPEED_DEN as int)
    }

    /// Whether a pan by `(dx, dy)` keeps the centre within its limit.
    pub open spec fn pan_accepts(self, dx: int, dy: int) -> bool {
        within_limit(self.center_x + self.pan_delta(dx)) && within_limit(
            self.center_y + self.pan_delta(dy),
        )
    }

    /// The state after a pan by `(dx, dy)`: the centre moved and refinement
    /// restarted, or the same state where the pan is rejected.
    pub open spec fn panned(self, dx: int, dy: int) -> RenderState {
        if self.pan_accepts(dx, dy) {
            RenderState {
                center_x: self.center_x + self.pan_delta(dx),
                center_y: self.center_y + self.pan_delta(dy),
                scan_level: 0,
                ..self
            }
        } else {
            self
        }
    }

    /// Whether a zoom by `factor` leaves a positive scale that does not
    /// exceed the largest one.
    pub open spec fn zoom_accepts(self, factor: int) -> bool {
        0 < fx_mul(self.scale, factor) <= MAX_SCALE
    }

    /// The state after a zoom by `factor`: the region scaled around its
    /// centre and refinement restarted, or the same state where the zoom is
    /// rejected.
    pub open spec fn zoomed(self, factor: int) -> RenderState {
        if self.zoom_accepts(factor) {
            RenderState { scale: fx_mul(self.scale, factor), scan_level: 0, ..self }
        } else {
            self
        }
    }

    /// The state after a change of the colour scheme: refinement restarted.
    pub open spec fn recolored(self, scheme: ColorScheme) -> RenderState {
        RenderState { color_scheme: scheme, scan_level: 0, ..self }
    }

    /// The state after the target was resized: the new size and refinement
    /// restarted, or the same state where the new size has no pixel.
    pub open spec fn resized(self, width: u32, height: u32) -> RenderState {
        if width > 0 && height > 0 {
            RenderState { width, height, scan_level: 0, ..self }
        } else {
            self
        }
    }

    /// The state after new startup options were taken over: the size of the
    /// target, the iteration cap and the refinement are those of the
    /// options, and refinement restarts.
    pub open spec fn configured(self, args: ArgsView) -> RenderState {
        RenderState {
            width: args.width,
            height: args.height,
            max_iterations: args.max_iterations,
            scan_config: args.scan_config,
            scan_level: 0,
            ..self
        }
    }

    /// The state after a request to render: one level further while a pass
    /// was owed, and the same state otherwise.
    pub open spec fn after_pass(self) -> RenderState {
        if self.is_scanning() {
            RenderState { scan_level: (self.scan_level + 1) as u32, ..self }
        } else {
            self
        }
    }

    /// The state after `k` requests to render.
    pub open spec fn after_passes(self, k: nat) -> RenderState
        decreases k,
    {
        if k == 0 {
            self
        } else {
            self.after_passes((k - 1) as nat).after_pass()
        }
    }
}

/// Halving a stride that has reached zero leaves it at zero.
pub proof fn lemma_stride_stays_zero(initial: nat, a: nat, b: nat)
    requires
        a <= b,
        stride_at(initial, a) == 0,
    ensures
        stride_at(initial, b) == 0,
    decreases b,
{
    if a < b {
        lemma_stride_stays_zero(initial, a, (b - 1) as nat);
    }
}

/// The stride at `level` is positive exactly below the number of passes.
pub proof fn lemma_stride_positive(initial: nat, level: nat)
    ensures
        stride_at(initial, level) >= 1 <==> level < pass_count(initial),
    decreases level,
{
    if level > 0 {
        lemma_stride_halves_first(initial, (level - 1) as nat);
        if initial > 0 {
            lemma_stride_positive(initial / 2, (level - 1) as nat);
        } else {
            lemma_stride_stays_zero(initial, 0, level);
        }
    }
}

/// Halving first or last gives the same stride.
pub proof fn lemma_stride_halves_first(initial: nat, level: nat)
    ensures
        stride_at(initial, level + 1) == stride_at(initial / 2, level),
    decreases level,
{
    assert(stride_at(initial, level + 1) == stride_at(initial, level) / 2);
    if level > 0 {
        lemma_stride_halves_first(initial, (level - 1) as nat);
        assert(stride_at(initial / 2, level) == stride_at(initial / 2, (level - 1) as nat) / 2);
    } else {
        assert(stride_at(initial, 0) == initial);
        assert(stride_at(initial / 2, 0) == initial / 2);
    }
}

/// A stride that fits in 32 bits has at most 32 passes.
pub proof fn lemma_pass_count_bound(initial: nat)
    requires
        initial <= u32::MAX,
    ensures
        pass_count(initial) <= 32,
{
    assert(vstd::arithmetic::power2::pow2(32) == 0x1_0000_0000) by {
        vstd::arithmetic::power2::lemma2_to64();
    }
    lemma_pass_count_below(initial, 32);
}

/// A number below `2^e` reaches zero within `e` halvings.
pub proof fn lemma_pass_count_below(initial: nat, e: nat)
    requires
        initial < vstd::arithmetic::power2::pow2(e),
    ensures
        pass_count(initial) <= e,
    decreases e,
{
    if initial > 0 {
        if e == 0 {
            vstd::arithmetic::power2::lemma2_to64();
        } else {
            vstd::arithmetic::power2::lemma_pow2_unfold(e);
            lemma_pass_count_below(initial / 2, (e - 1) as nat);
        }
    }
}

/// After any change of the region or of the colour scheme, refinement starts
/// again at level zero.
pub proof fn lemma_mutation_restarts(s: RenderState, dx: int, dy: int, factor: int, scheme: ColorScheme)
    ensures
        s.pan_accepts(dx, dy) ==> s.panned(dx, dy).scan_level == 0,
        s.zoom_accepts(factor) ==> s.zoomed(factor).scan_level == 0,
        s.recolored(scheme).scan_level == 0,
{
}

/// With refinement switched on and no change in between, `k` requests to
/// render from level zero lead to level `k`, until all passes are done; from
/// then on nothing is owed and further requests change nothing.
pub proof fn lemma_refinement_progress(s: RenderState, k: nat)
    requires
        s.scan_config.enabled,
        s.scan_level == 0,
    ensures
        ({
            let passes = pass_count(s.scan_config.initial_stride as nat);
            let t = s.after_passes(k);
            &&& t == (RenderState { scan_level: t.scan_level, ..s })
            &&& k <= passes ==> t.scan_level == k
            &&& k >= passes ==> t.scan_level == passes
            &&& t.is_scanning() <==> k < passes
            &&& k >= passes ==> t.after_pass() == t
        }),
    decreases k,
{
    let initial = s.scan_config.initial_stride as nat;
    let passes = pass_count(initial);
    lemma_pass_count_bound(initial);
    if k > 0 {
        lemma_refinement_progress(s, (k - 1) as nat);
        let u = s.after_passes((k - 1) as nat);
        lemma_stride_positive(initial, u.scan_level as nat);
    }
    let t = s.after_passes(k);
    lemma_stride_positive(initial, t.scan_level as nat);
}

/// Rounding toward zero makes the distance of a pan odd in its argument.
pub proof fn lemma_pan_delta_neg(s: RenderState, d: int)
    ensures
        s.pan_delta(-d) == -s.pan_delta(d),
{
    lemma_fx_mul_neg(d, s.scale);
    lemma_trunc_div_neg(PAN_SPEED_NUM * fx_mul(d, s.scale), PAN_SPEED_DEN as int);
}

/// A pan followed by the opposite pan restores the centre exactly.
pub proof fn lemma_pan_round_trip(s: RenderState, dx: int, dy: int)
    requires
        s.valid(),
        s.pan_accepts(dx, dy),
    ensures
        s.panned(dx, dy).pan_accepts(-dx, -dy),
        s.panned(dx, dy).panned(-dx, -dy).center_x == s.center_x,
        s.panned(dx, dy).panned(-dx, -dy).center_y == s.center_y,
        s.panned(dx, dy).panned(-dx, -dy).scale == s.scale,
{
    let t = s.panned(dx, dy);
    lemma_pan_delta_neg(t, dx);
    lemma_pan_delta_neg(t, dy);
    assert(t.pan_delta(dx) == s.pan_delta(dx));
    assert(t.pan_delta(dy) == s.pan_delta(dy));
}

/// Two pans lead to the same centre in either order, where each of the four
/// steps is accepted.
pub proof fn lemma_pan_commutes(s: RenderState, ax: int, ay: int, bx: int, by: int)
    requires
        s.pan_accepts(ax, ay),
        s.pan_accepts(bx, by),
        s.panned(ax, ay).pan_accepts(bx, by),
        s.panned(bx, by).pan_accepts(ax, ay),
    ensures
        s.panned(ax, ay).panned(bx, by) == s.panned(bx, by).panned(ax, ay),
{
    let t = s.panned(ax, ay);
    let u = s.panned(bx, by);
    assert(t.pan_delta(bx) == s.pan_delta(bx));
    assert(t.pan_delta(by) == s.pan_delta(by));
    assert(u.pan_delta(ax) == s.pan_delta(ax));
    assert(u.pan_delta(ay) == s.pan_delta(ay));
}

/// The largest loss of scale that a zoom by `factor` followed by a zoom by
/// its reciprocal can cause: a few units of the last place.
pub open spec fn zoom_tolerance(scale: int, factor: int) -> int {
    fx_mul(scale, factor) / (ONE as int) + (ONE as int) / factor + 2
}

/// Scaling by a factor and then by its reciprocal never gains, and loses at
/// most the tolerance.
pub proof fn lemma_scale_round_trip(scale: int, factor: int)
    requires
        scale > 0,
        factor > 0,
    ensures
        scale - zoom_tolerance(scale, factor) <= fx_mul(
            fx_mul(scale, factor),
            reciprocal(factor),
        ) <= scale,
        fx_mul(scale, factor) >= 0,
        reciprocal(factor) >= 0,
{
    let e = ONE as int;
    let s = scale;
    let f = factor;
    let s1 = (s * f) / e;
    let g = (e * e) / f;
    let s2 = (s1 * g) / e;
    let a = s1 / e;
    let b = e / f;
    assert(s * f >= 0) by (nonlinear_arith)
        requires
            s > 0,
            f > 0,
    ;
    assert(s1 >= 0 && s1 * e <= s * f < (s1 + 1) * e) by (nonlinear_arith)
        requires
            s1 == (s * f) / e,
            e > 0,
            s * f >= 0,
    ;
    assert(g >= 0 && g * f <= e * e < (g + 1) * f) by (nonlinear_arith)
        requires
            g == (e * e) / f,
            f > 0,
            e > 0,
    ;
    assert(s1 * g >= 0) by (nonlinear_arith)
        requires
            s1 >= 0,
            g >= 0,
    ;
    assert(s2 >= 0 && s2 * e <= s1 * g < (s2 + 1) * e) by (nonlinear_arith)
        requires
            s2 == (s1 * g) / e,
            e > 0,
            s1 * g >= 0,
    ;
    assert(a >= 0 && s1 < (a + 1) * e) by (nonlinear_arith)
        requires
            a == s1 / e,
            e > 0,
            s1 >= 0,
    ;
    assert(b >= 0 && e < (b + 1) * f) by (nonlinear_arith)
        requires
            b == e / f,
            f > 0,
            e > 0,
    ;
    assert(fx_mul(s, f) == s1);
    assert(fx_mul(s1, g) == s2);
    // No gain: s2 * e * f <= s1 * g * f <= s1 * e * e <= s * f * e.
    assert(s2 <= s) by (nonlinear_arith)
        requires
            s2 * e <= s1 * g,
            g * f <= e * e,
            s1 * e <= s * f,
            s1 >= 0,
            g >= 0,
            e > 0,
            f > 0,
            s2 >= 0,
            s > 0,
    {
        assert((s2 * e) * f <= (s1 * g) * f);
        assert(s1 * (g * f) <= s1 * (e * e));
        assert((s1 * e) * e <= (s * f) * e);
        assert(s2 * (e * f) <= s * (e * f));
    }
    // Bounded loss.
    assert(s - s2 <= a + b + 2) by (nonlinear_arith)
        requires
            s1 * g < (s2 + 1) * e,
            e * e < (g + 1) * f,
            s * f < (s1 + 1) * e,
            s1 < (a + 1) * e,
            e < (b + 1) * f,
            s1 >= 0,
            g >= 0,
            e > 0,
            f > 0,
            s2 >= 0,
            s > 0,
            a >= 0,
            b >= 0,
    {
        let ef = e * f;
        assert(ef > 0);
        assert((s1 * g) * f < ((s2 + 1) * e) * f);
        assert(s1 * (e * e) < s1 * ((g + 1) * f) || s1 == 0);
        assert(s1 * (e * e) <= (s1 * g) * f + s1 * f);
        assert((s * f) * e < ((s1 + 1) * e) * e);
        assert(s * ef < s1 * (e * e) + e * e);
        assert(s1 * f < ((a + 1) * e) * f);
        assert(e * e < ((b + 1) * f) * e);
        assert(s * ef < (s2 + 1) * ef + (a + 1) * ef + (b + 1) * ef);
        assert((s - s2 - a - b - 3) * ef < 0);
    }
}

/// A zoom by a factor followed by a zoom by its reciprocal leaves the centre
/// where it was and restores the scale, and with it the four edges of the
/// region, to within the tolerance, unless one of the two zooms is rejected.
pub proof fn lemma_zoom_round_trip(s: RenderState, factor: int)
    requires
        s.valid(),
        factor > 0,
        s.zoom_accepts(factor),
        s.zoomed(factor).zoom_accepts(reciprocal(factor)),
    ensures
        ({
            let t = s.zoomed(factor).zoomed(reciprocal(factor));
            let tol = zoom_tolerance(s.scale, factor);
            &&& t.center_x == s.center_x
            &&& t.center_y == s.center_y
            &&& s.scale - tol <= t.scale <= s.scale
            &&& s.left() <= t.left() <= s.left() + tol
            &&& s.right() - tol <= t.right() <= s.right()
            &&& s.top() <= t.top() <= s.top() + tol
            &&& s.bottom() - tol <= t.bottom() <= s.bottom()
        }),
{
    lemma_scale_round_trip(s.scale, factor);
}

/// The second zoom of a round trip is rejected only where the region would
/// collapse: it never exceeds the largest scale.
pub proof fn lemma_zoom_back_accepted(s: RenderState, factor: int)
    requires
        s.valid(),
        factor > 0,
        s.zoom_accepts(factor),
    ensures
        s.zoomed(factor).zoom_accepts(reciprocal(factor)) <==> fx_mul(
            fx_mul(s.scale, factor),
            reciprocal(factor),
        ) > 0,
{
    lemma_scale_round_trip(s.scale, factor);
}

} // verus!
