//! Escape-time evaluation and colour mapping.

use vstd::prelude::*;
use vstd::arithmetic::logarithm::{log, lemma_log0, lemma_log_s, lemma_log_nonnegative};
use crate::bignat::{npow, is_power_of, power, log_floor, lemma_npow_step};
use crate::fixed::{Fixed, ONE, fx_mul, mul_wide, lemma_product_bound};

verus! {

/// One step `z*z + c` of the recurrence, on raw fixed-point pairs
/// `(real, imaginary)`.
pub open spec fn step(z: (int, int), c: (int, int)) -> (int, int) {
    (fx_mul(z.0, z.0) - fx_mul(z.1, z.1) + c.0, 2 * fx_mul(z.0, z.1) + c.1)
}

/// The `k`-th point of the orbit of zero under `z -> z*z + c`.
pub open spec fn orbit(c: (int, int), k: nat) -> (int, int)
    decreases k,
{
    if k == 0 {
        (0, 0)
    } else {
        step(orbit(c, (k - 1) as nat), c)
    }
}

/// Whether `|z| > 2`, stated without a square root as `|z|^2 > 4`.
pub open spec fn escaped(z: (int, int)) -> bool {
    z.0 * z.0 + z.1 * z.1 > 4 * (ONE as int) * (ONE as int)
}

/// The least `k` in `from..cap` whose orbit point has escaped, or `cap`.
pub open spec fn first_escape(c: (int, int), from: nat, cap: nat) -> nat
    decreases cap - from,
{
    if from >= cap {
        cap
    } else if escaped(orbit(c, from)) {
        from
    } else {
        first_escape(c, from + 1, cap)
    }
}

/// Number of iterations after which the orbit of `c` has left the disc of
/// radius two, or `cap` where it is still inside after `cap` iterations.
pub open spec fn escape_time(c: (int, int), cap: nat) -> nat {
    first_escape(c, 0, cap)
}

/// `first_escape` returns the least escaping index at or after `from`.
pub proof fn lemma_first_escape_least(c: (int, int), from: nat, cap: nat)
    requires
        from <= cap,
    ensures
        from <= first_escape(c, from, cap) <= cap,
        first_escape(c, from, cap) < cap ==> escaped(orbit(c, first_escape(c, from, cap))),
        forall|k: nat| from <= k < first_escape(c, from, cap) ==> !escaped(#[trigger] orbit(c, k)),
    decreases cap - from,
{
    if from < cap && !escaped(orbit(c, from)) {
        lemma_first_escape_least(c, from + 1, cap);
    }
}

/// An index `n` that is the least escaping one below `cap`, or `cap` where
/// there is none, is the escape time.
pub proof fn lemma_escape_time_unique(c: (int, int), cap: nat, n: nat)
    requires
        n <= cap,
        n < cap ==> escaped(orbit(c, n)),
        forall|k: nat| k < n ==> !escaped(#[trigger] orbit(c, k)),
    ensures
        n == escape_time(c, cap),
{
    lemma_first_escape_least(c, 0, cap);
    let e = escape_time(c, cap);
    if e < n {
        assert(!escaped(orbit(c, e)));
    } else if n < e {
        assert(!escaped(orbit(c, n)));
    }
}

/// A larger cap changes the result only for the points that the smaller cap
/// left undecided.
pub proof fn lemma_escape_time_under_larger_cap(c: (int, int), small: nat, large: nat)
    requires
        small <= large,
    ensures
        escape_time(c, small) == if escape_time(c, large) < small {
            escape_time(c, large)
        } else {
            small
        },
{
    lemma_first_escape_least(c, 0, large);
    let e = escape_time(c, large);
    if e < small {
        lemma_escape_time_unique(c, small, e);
    } else {
        lemma_escape_time_unique(c, small, small);
    }
}

/// The origin never escapes: its escape time is the cap itself.
pub proof fn lemma_origin_never_escapes(cap: nat)
    ensures
        escape_time((0, 0), cap) == cap,
{
    assert forall|k: nat| !escaped(#[trigger] orbit((0, 0), k)) by {
        lemma_origin_orbit(k);
    }
    lemma_escape_time_unique((0, 0), cap, cap);
}

/// The orbit of the origin stays at the origin.
pub proof fn lemma_origin_orbit(k: nat)
    ensures
        orbit((0, 0), k) == (0int, 0int),
    decreases k,
{
    if k > 0 {
        lemma_origin_orbit((k - 1) as nat);
        assert(fx_mul(0, 0) == 0) by (nonlinear_arith);
    }
}

/// A point outside the disc of radius two is recognised after one iteration,
/// provided the cap allows a second one.
pub proof fn lemma_outside_escapes_at_once(c: (int, int), cap: nat)
    requires
        escaped(c),
        cap >= 2,
    ensures
        escape_time(c, cap) == 1,
        escape_time(c, cap) < cap,
{
    assert(fx_mul(0, 0) == 0) by (nonlinear_arith);
    assert(orbit(c, 0) == (0int, 0int));
    assert(orbit(c, 1) == step(orbit(c, 0), c));
    assert(orbit(c, 1) == c);
    assert(!escaped(orbit(c, 0)));
    assert forall|k: nat| k < 1 implies !escaped(#[trigger] orbit(c, k)) by {
        assert(k == 0);
    }
    lemma_escape_time_unique(c, cap, 1);
}

/// Twice the raw representation of one: the escape radius.
const RADIUS: i128 = 0x0200_0000_0000_0000;

/// The square of the escape radius, as a product of raw representations.
const RADIUS_SQUARED: i128 = 0x0004_0000_0000_0000_0000_0000_0000_0000;

/// Whether the point `(re, im)` lies outside the disc of radius two.
fn has_escaped(re: i128, im: i128) -> (r: bool)
    ensures
        r == escaped((re as int, im as int)),
{
    if re > RADIUS || re < -RADIUS || im > RADIUS || im < -RADIUS {
        proof {
            let r = RADIUS as int;
            assert(re * re + im * im > r * r) by (nonlinear_arith)
                requires
                    re > r || re < -r || im > r || im < -r,
                    r > 0,
            ;
        }
        true
    } else {
        proof {
            lemma_product_bound(re as int, re as int, RADIUS as int, RADIUS as int);
            lemma_product_bound(im as int, im as int, RADIUS as int, RADIUS as int);
        }
        re * re + im * im > RADIUS_SQUARED
    }
}

/// Escape-time evaluation of the sample point `re + im*i`.
///
/// Iterates `z -> z*z + c` from zero and returns the number of iterations
/// after which `|z| > 2` was first observed.  A result equal to `max_iter`
/// means that the point was still inside after `max_iter` iterations; callers
/// treat that value as the mark of a point of the set.
pub fn mandelbrot(re: Fixed, im: Fixed, max_iter: u32) -> (n: u32)
    ensures
        n == escape_time((re@, im@), max_iter as nat),
        n <= max_iter,
        n < max_iter ==> escaped(orbit((re@, im@), n as nat)),
        forall|k: nat| k < n ==> !escaped(#[trigger] orbit((re@, im@), k)),
{
    let ghost c = (re@, im@);
    let cr: i128 = re.to_raw() as i128;
    let ci: i128 = im.to_raw() as i128;
    let mut zr: i128 = 0;
    let mut zi: i128 = 0;
    let mut iteration: u32 = 0;
    while iteration < max_iter
        invariant
            iteration <= max_iter,
            c == (re@, im@),
            cr == re@,
            ci == im@,
            (zr as int, zi as int) == orbit(c, iteration as nat),
            forall|k: nat| k < iteration ==> !escaped(#[trigger] orbit(c, k)),
        decreases max_iter - iteration,
    {
        if has_escaped(zr, zi) {
            proof {
                lemma_escape_time_unique(c, max_iter as nat, iteration as nat);
            }
            return iteration;
        }
        proof {
            lemma_inside_is_small(zr as int, zi as int);
        }
        let rr: i128 = mul_wide(zr as i64, zr as i64);
        let ii: i128 = mul_wide(zi as i64, zi as i64);
        let ri: i128 = mul_wide(zr as i64, zi as i64);
        proof {
            lemma_fx_mul_bound(zr as int, zr as int);
            lemma_fx_mul_bound(zi as int, zi as int);
            lemma_fx_mul_bound(zr as int, zi as int);
            assert(orbit(c, (iteration + 1) as nat) == step(orbit(c, iteration as nat), c));
        }
        zr = rr - ii + cr;
        zi = 2 * ri + ci;
        iteration = iteration + 1;
    }
    proof {
        lemma_escape_time_unique(c, max_iter as nat, max_iter as nat);
    }
    max_iter
}

/// The coordinates of a point inside the disc are at most two in magnitude.
proof fn lemma_inside_is_small(re: int, im: int)
    requires
        !escaped((re, im)),
    ensures
        -2 * ONE <= re <= 2 * ONE,
        -2 * ONE <= im <= 2 * ONE,
{
    let r = 2 * (ONE as int);
    assert(-r <= re <= r && -r <= im <= r) by (nonlinear_arith)
        requires
            re * re + im * im <= r * r,
            r > 0,
    ;
}

/// The product of two numbers of magnitude at most two has magnitude at most
/// four.
proof fn lemma_fx_mul_bound(a: int, b: int)
    requires
        -2 * ONE <= a <= 2 * ONE,
        -2 * ONE <= b <= 2 * ONE,
    ensures
        -4 * ONE <= fx_mul(a, b) <= 4 * ONE,
{
    lemma_product_bound(a, b, 2 * ONE, 2 * ONE);
}

/// The colour-mapping strategies.
#[derive(Clone, Copy, Debug, PartialEq, Eq, Structural)]
pub enum ColorMode {
    /// Blend between two fixed colours, weighted by a ratio of logarithms.
    Smooth,
    /// Ten alternating white and black stripes.
    Zebra,
    /// Linear ramp of the red channel.
    Red,
    /// Linear ramp of the blue channel.
    Blue,
    /// Linear ramp of all three channels.
    BlackAndWhite,
    /// One turn of the hue wheel.
    Rainbow,
    /// Wrapping ramps with the multipliers 3, 5 and 7.
    Psychedelic,
    /// Linear ramp of the green channel.
    GreenGradient,
    /// Wrapping ramps with the multipliers 2, 3 and 5.
    Electric,
}

/// The colour of the points that are still inside at the cap: black.
pub open spec fn inside_color() -> (int, int, int) {
    (0, 0, 0)
}

/// `t * 255` rounded down, where `t = i / m` is the escape fraction.
pub open spec fn ramp(i: nat, m: nat) -> int {
    (255 * i) as int / m as int
}

/// The stripe that `i` falls in, where `0..m` is cut into ten equal stripes.
pub open spec fn stripe(i: nat, m: nat) -> int {
    (10 * i) as int / m as int
}

/// `t * 255 * k` rounded down and wrapped around at 256.
pub open spec fn wrapped(i: nat, m: nat, k: nat) -> int {
    ((255 * k * i) as int / m as int) % 256
}

/// The segment of the hue wheel that `t * 6` selects.
pub open spec fn hue_segment(i: nat, m: nat) -> int {
    (6 * i) as int / m as int
}

/// The rising ramp inside a segment: `f * 255` rounded down, where `f` is the
/// fractional part of `t * 6`.
pub open spec fn hue_rise(i: nat, m: nat) -> int {
    (1530 * i) as int / m as int - 255 * hue_segment(i, m)
}

/// The falling ramp inside a segment: `255 - f * 255` rounded down, where `f`
/// is the fractional part of `t * 6`.
pub open spec fn hue_fall(i: nat, m: nat) -> int {
    255 - ((1530 * i + m - 1) as int / m as int - 255 * hue_segment(i, m))
}

/// The hue wheel at full saturation and value: red, yellow, green, cyan,
/// blue, magenta and back toward red, one segment each.
pub open spec fn rainbow(i: nat, m: nat) -> (int, int, int) {
    let seg = hue_segment(i, m);
    let rise = hue_rise(i, m);
    let fall = hue_fall(i, m);
    if seg == 0 {
        (255, rise, 0)
    } else if seg == 1 {
        (fall, 255, 0)
    } else if seg == 2 {
        (0, 255, rise)
    } else if seg == 3 {
        (0, fall, 255)
    } else if seg == 4 {
        (rise, 0, 255)
    } else {
        (255, 0, fall)
    }
}

/// The integer logarithm of `x` to the base `m`, rounded up.
pub open spec fn log_ceil(m: nat, x: nat) -> int {
    if is_power_of(m, x) {
        log(m as int, x as int)
    } else {
        log(m as int, x as int) + 1
    }
}

/// Blend between the colours `(9, 0, 255)` and `(15, 7, 100)` with the
/// weight `w = log(i) / log(m)`, each channel rounded down.
///
/// For `0 < i < m` the weight lies in `[0, 1)` and satisfies `m^w = i`, so
/// that `s * w` rounded down is the integer logarithm of `i^s` to the base
/// `m`.  The channels are `9 + 6w`, `7w` and `255 - 155w`.  Zero has no
/// logarithm: its colour is black.
pub open spec fn smooth(i: nat, m: nat) -> (int, int, int) {
    if i == 0 {
        (0, 0, 0)
    } else {
        (
            9 + log(m as int, npow(i, 6) as int),
            log(m as int, npow(i, 7) as int),
            255 - log_ceil(m, npow(i, 155)),
        )
    }
}

/// The colour of a sample that took `i` of at most `m` iterations, as its
/// red, green and blue channels.
pub open spec fn color_of(i: nat, m: nat, mode: ColorMode) -> (int, int, int) {
    if i == m {
        inside_color()
    } else {
        match mode {
            ColorMode::Smooth => smooth(i, m),
            ColorMode::Zebra => if stripe(i, m) % 2 == 0 {
                (255, 255, 255)
            } else {
                (0, 0, 0)
            },
            ColorMode::Red => (ramp(i, m), 0, 0),
            ColorMode::Blue => (0, 0, ramp(i, m)),
            ColorMode::BlackAndWhite => (ramp(i, m), ramp(i, m), ramp(i, m)),
            ColorMode::Rainbow => rainbow(i, m),
            ColorMode::Psychedelic => (wrapped(i, m, 3), wrapped(i, m, 5), wrapped(i, m, 7)),
            ColorMode::GreenGradient => (0, ramp(i, m), 0),
            ColorMode::Electric => (wrapped(i, m, 2), wrapped(i, m, 3), wrapped(i, m, 5)),
        }
    }
}

/// The three channels of an executable colour.
pub open spec fn channels(rgb: [u8; 3]) -> (int, int, int) {
    (rgb[0] as int, rgb[1] as int, rgb[2] as int)
}

/// Whether each channel lies in `0..=255`.
pub open spec fn in_byte_range(c: (int, int, int)) -> bool {
    0 <= c.0 <= 255 && 0 <= c.1 <= 255 && 0 <= c.2 <= 255
}

/// A power grows strictly with its base.
pub proof fn lemma_npow_base_strict(a: nat, b: nat, e: nat)
    requires
        a < b,
        e >= 1,
    ensures
        npow(a, e) < npow(b, e),
        npow(a, e) >= 1 || a == 0,
    decreases e,
{
    lemma_npow_step(a, (e - 1) as nat);
    lemma_npow_step(b, (e - 1) as nat);
    if e == 1 {
        assert(a * 1 == a && b * 1 == b) by (nonlinear_arith);
    } else {
        lemma_npow_base_strict(a, b, (e - 1) as nat);
        let x = npow(a, (e - 1) as nat);
        let y = npow(b, (e - 1) as nat);
        assert(a * x < b * y && (a * x >= 1 || a == 0)) by (nonlinear_arith)
            requires
                a < b,
                x < y,
                x >= 1 || a == 0,
        ;
    }
}

/// A number below `m^e` has an integer logarithm below `e`.
pub proof fn lemma_log_below_exponent(m: nat, x: nat, e: nat)
    requires
        m >= 2,
        e >= 1,
        x < npow(m, e),
    ensures
        0 <= log(m as int, x as int) < e,
    decreases e,
{
    lemma_log_nonnegative(m as int, x as int);
    if x < m {
        lemma_log0(m as int, x as int);
    } else {
        lemma_npow_step(m, (e - 1) as nat);
        let y = npow(m, (e - 1) as nat);
        if e == 1 {
            assert(m * 1 == m) by (nonlinear_arith);
        }
        lemma_log_s(m as int, x as int);
        assert((x / m) < y) by (nonlinear_arith)
            requires
                x < m * y,
                m >= 2,
        ;
        lemma_log_below_exponent(m, x / m, (e - 1) as nat);
    }
}

/// The channels of the smooth blend are bytes.
pub proof fn lemma_smooth_in_range(i: nat, m: nat)
    requires
        i < m,
    ensures
        in_byte_range(smooth(i, m)),
        i > 0 ==> 0 <= log(m as int, npow(i, 6) as int) < 6,
        i > 0 ==> 0 <= log(m as int, npow(i, 7) as int) < 7,
        i > 0 ==> 0 <= log(m as int, npow(i, 155) as int) < 155,
        i > 0 ==> npow(i, 6) >= 1 && npow(i, 7) >= 1 && npow(i, 155) >= 1,
{
    if i > 0 {
        lemma_npow_base_strict(i, m, 6);
        lemma_npow_base_strict(i, m, 7);
        lemma_npow_base_strict(i, m, 155);
        lemma_log_below_exponent(m, npow(i, 6), 6);
        lemma_log_below_exponent(m, npow(i, 7), 7);
        lemma_log_below_exponent(m, npow(i, 155), 155);
    }
}

/// The two ramps of the hue wheel and its segment are in range.
pub proof fn lemma_hue_in_range(i: nat, m: nat)
    requires
        i < m,
    ensures
        0 <= hue_segment(i, m) <= 5,
        0 <= hue_rise(i, m) <= 254,
        0 <= hue_fall(i, m) <= 255,
{
    let seg = (6 * i) as int / m as int;
    let full = (1530 * i) as int / m as int;
    let up = (1530 * i + m - 1) as int / m as int;
    let mi = m as int;
    let ii = i as int;
    assert(0 <= seg <= 5 && seg * mi <= 6 * ii < (seg + 1) * mi) by (nonlinear_arith)
        requires
            seg == (6 * ii) / mi,
            0 <= ii < mi,
    ;
    assert(255 * seg <= full < 255 * (seg + 1)) by (nonlinear_arith)
        requires
            full == (1530 * ii) / mi,
            seg * mi <= 6 * ii < (seg + 1) * mi,
            mi > 0,
    ;
    assert(255 * seg <= up <= 255 * (seg + 1)) by (nonlinear_arith)
        requires
            up == (1530 * ii + mi - 1) / mi,
            seg * mi <= 6 * ii < (seg + 1) * mi,
            mi > 0,
    ;
}

/// Every channel of every mode lies in `0..=255`.
pub proof fn lemma_channels_in_range(i: nat, m: nat, mode: ColorMode)
    requires
        m > 0,
        i <= m,
    ensures
        in_byte_range(color_of(i, m, mode)),
{
    if i < m {
        let mi = m as int;
        let ii = i as int;
        assert(0 <= (255 * ii) / mi <= 254) by (nonlinear_arith)
            requires
                0 <= ii < mi,
        ;
        lemma_smooth_in_range(i, m);
        lemma_hue_in_range(i, m);
    }
}

/// The integer logarithm of `i^s` to the base `m`, rounded down, and whether
/// `i^s` is a power of `m`.
fn scaled_log(i: u32, m: u32, s: u32) -> (r: (u32, bool))
    requires
        0 < i < m,
        s >= 1,
    ensures
        r.0 == log(m as int, npow(i as nat, s as nat) as int),
        r.0 < s,
        r.1 == is_power_of(m as nat, npow(i as nat, s as nat)),
{
    let x = power(i, s);
    proof {
        lemma_npow_base_strict(i as nat, m as nat, s as nat);
        lemma_log_below_exponent(m as nat, npow(i as nat, s as nat), s as nat);
    }
    log_floor(x, m)
}

/// The smooth blend for `0 < i < m`.
fn smooth_color(i: u32, m: u32) -> (rgb: [u8; 3])
    requires
        0 < i < m,
    ensures
        channels(rgb) == smooth(i as nat, m as nat),
{
    let red = scaled_log(i, m, 6);
    let green = scaled_log(i, m, 7);
    let blue = scaled_log(i, m, 155);
    let weight: u32 = if blue.1 {
        blue.0
    } else {
        blue.0 + 1
    };
    [(9 + red.0) as u8, green.0 as u8, (255 - weight) as u8]
}

/// Maps an iteration count to a colour.
///
/// A count equal to the cap marks a point of the set and is black in every
/// mode.  Any other count is mapped through the curve of the mode, on the
/// escape fraction `t = iterations / max_iterations`.
pub fn color_map(iterations: u32, max_iterations: u32, mode: ColorMode) -> (rgb: [u8; 3])
    requires
        max_iterations > 0,
        iterations <= max_iterations,
    ensures
        channels(rgb) == color_of(iterations as nat, max_iterations as nat, mode),
        iterations == max_iterations ==> channels(rgb) == inside_color(),
        in_byte_range(color_of(iterations as nat, max_iterations as nat, mode)),
{
    proof {
        lemma_channels_in_range(iterations as nat, max_iterations as nat, mode);
    }
    if iterations == max_iterations {
        return [0, 0, 0];
    }
    let i: u64 = iterations as u64;
    let m: u64 = max_iterations as u64;
    proof {
        lemma_hue_in_range(i as nat, m as nat);
    }
    match mode {
        ColorMode::Smooth => {
            if iterations == 0 {
                [0, 0, 0]
            } else {
                smooth_color(iterations, max_iterations)
            }
        },
        ColorMode::Zebra => {
            if (10 * i / m) % 2 == 0 {
                [255, 255, 255]
            } else {
                [0, 0, 0]
            }
        },
        ColorMode::Red => {
            let red: u8 = (255 * i / m) as u8;
            [red, 0, 0]
        },
        ColorMode::Blue => {
            let blue: u8 = (255 * i / m) as u8;
            [0, 0, blue]
        },
        ColorMode::BlackAndWhite => {
            let intensity: u8 = (255 * i / m) as u8;
            [intensity, intensity, intensity]
        },
        ColorMode::Rainbow => {
            let seg: u64 = 6 * i / m;
            let rise: u8 = (1530 * i / m - 255 * seg) as u8;
            let fall: u8 = (255 - ((1530 * i + m - 1) / m - 255 * seg)) as u8;
            if seg == 0 {
                [255, rise, 0]
            } else if seg == 1 {
                [fall, 255, 0]
            } else if seg == 2 {
                [0, 255, rise]
            } else if seg == 3 {
                [0, fall, 255]
            } else if seg == 4 {
                [rise, 0, 255]
            } else {
                [255, 0, fall]
            }
        },
        ColorMode::Psychedelic => {
            let r: u8 = ((765 * i / m) % 256) as u8;
            let g: u8 = ((1275 * i / m) % 256) as u8;
            let b: u8 = ((1785 * i / m) % 256) as u8;
            [r, g, b]
        },
        ColorMode::GreenGradient => {
            let green: u8 = (255 * i / m) as u8;
            [0, green, 0]
        },
        ColorMode::Electric => {
            let r: u8 = ((510 * i / m) % 256) as u8;
            let g: u8 = ((765 * i / m) % 256) as u8;
            let b: u8 = ((1275 * i / m) % 256) as u8;
            [r, g, b]
        },
    }
}

} // verus!
