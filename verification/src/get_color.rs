use vstd::prelude::*;

use crate::gamma::{apply_gamma, gamma, lemma_gamma_darkens, GAMMA8};

use vstd::arithmetic::div_mod::{
    lemma_add_mod_noop_right, lemma_div_multiples_vanish, lemma_fundamental_div_mod,
    lemma_fundamental_div_mod_converse, lemma_mod_bound, lemma_small_mod,
};
use vstd::arithmetic::mul::{lemma_mul_inequality, lemma_mul_is_distributive_add_other_way};

verus! {

/// One color, one byte per channel.
#[derive(Debug, Clone, Copy, PartialEq, Eq, Structural)]
pub struct RGB {
    pub r: u8,
    pub g: u8,
    pub b: u8,
}

/// The configuration of a game's health bar: where it sits on screen, which colors mark
/// health, and which colors to show for it.
///
/// `max_health_ratio_healthy_bits` holds the IEEE-754 bit pattern of the `f32` ratio.
#[derive(Debug, Clone)]
pub struct HealthBar {
    pub program_name: String,
    pub healthy_color: RGB,
    pub unhealthy_color: RGB,
    pub output_healthy: RGB,
    pub output_unhealthy: RGB,
    pub left_x: u32,
    pub top_y: u32,
    pub right_x: u32,
    pub bottom_y: u32,
    pub max_health_ratio_healthy_bits: u32,
    pub priority: u32,
    pub l2r: bool,
}

/// Which part of the screen drives the LEDs.
#[allow(non_camel_case_types)]
#[derive(Debug, Clone)]
pub enum ScreenRegion {
    FULL,
    HEALTH(HealthBar),
}

/// The colors of the LED strip, one per LED.
#[derive(Debug, Clone)]
pub struct Colors {
    pub color_vec: Vec<RGB>,
}

/// One captured screen image: `width * height` pixels in row-major order.
#[derive(Debug, Clone)]
pub struct Frame {
    pub width: u32,
    pub height: u32,
    pub pixels: Vec<RGB>,
}

impl Frame {
    /// The pixel buffer holds exactly one pixel per screen position.
    pub open spec fn wf(&self) -> bool {
        self.pixels@.len() == self.width * self.height
    }
}

/// Number of pixels sampled in each vertical strip.
pub const NUM_SAMPLES: u32 = 1000;

/// Pixels whose three channels are all below this value are ignored as dark.
pub const COLOR_THRESH: u8 = 32;

/// Horizontal distance between consecutive samples, wrapped inside the strip.
pub const X_STEP: u32 = 12;

/// Row-major index of screen position `(x, y)`; positions off the screen map to `0`.
pub open spec fn px_index(x: int, y: int, w: int, h: int) -> int {
    if x >= w || y >= h {
        0
    } else {
        x + y * w
    }
}

/// On-screen positions are numbered row by row: the index of `(x, y)` is below `w * h`,
/// and dividing it by the width gives back the row `y` with remainder the column `x`.
pub proof fn lemma_px_index_row_major(x: int, y: int, w: int, h: int)
    requires
        0 <= x < w,
        0 <= y < h,
    ensures
        0 <= px_index(x, y, w, h) < w * h,
        px_index(x, y, w, h) / w == y,
        px_index(x, y, w, h) % w == x,
{
    assert(x + y * w < w * h && 0 <= y * w) by (nonlinear_arith)
        requires
            0 <= x < w,
            0 <= y < h,
    ;
    lemma_fundamental_div_mod_converse(x + y * w, w, y, x);
}

/// Row-major index of a screen position, `0` for a position off the screen.
pub fn xy_to_px(x: u32, y: u32, w: u32, h: u32) -> (idx: usize)
    requires
        x < w && y < h ==> x + y * w <= usize::MAX,
    ensures
        idx == px_index(x as int, y as int, w as int, h as int),
{
    if x >= w || y >= h {
        return 0;
    }
    assert(0 <= y * w) by (nonlinear_arith);
    x as usize + (y as usize * w as usize)
}

/// The gamma-corrected version of a color.
pub open spec fn gamma_rgb(c: RGB) -> RGB {
    RGB { r: gamma(c.r), g: gamma(c.g), b: gamma(c.b) }
}

/// Applies gamma correction to every channel of every color.
pub fn apply_gamma_vec(v: &mut Vec<RGB>)
    ensures
        final(v)@.len() == old(v)@.len(),
        forall|i: int| 0 <= i < old(v)@.len() ==> final(v)@[i] == gamma_rgb(old(v)@[i]),
{
    let n = v.len();
    for i in 0..n
        invariant
            n == old(v)@.len(),
            v@.len() == n,
            forall|j: int| 0 <= j < i ==> v@[j] == gamma_rgb(old(v)@[j]),
            forall|j: int| i <= j < n ==> v@[j] == old(v)@[j],
    {
        let c = v[i];
        let r = apply_gamma(c.r);
        let g = apply_gamma(c.g);
        let b = apply_gamma(c.b);
        v.set(i, RGB { r, g, b });
    }
}

/// Width in pixels of each of the `n` vertical strips of a screen `w` pixels wide.
pub open spec fn strip_width(w: u32, n: u32) -> int {
    (w / n) as int
}

/// Vertical distance between consecutive samples on a screen `h` pixels high.
pub open spec fn sample_stride(h: u32) -> int {
    (h / NUM_SAMPLES) as int
}

/// Column of sample `k` of strip `led`: the strip's left edge plus `12 * k` wrapped to
/// the strip's width.
pub open spec fn sample_x(w: u32, n: u32, led: int, k: int) -> int {
    strip_width(w, n) * led + (X_STEP * k) % strip_width(w, n)
}

/// Row of sample `k`.
pub open spec fn sample_y(h: u32, k: int) -> int {
    k * sample_stride(h)
}

/// The pixel read for sample `k` of strip `led`.
pub open spec fn sample_of(frame: Frame, n: u32, led: int, k: int) -> RGB {
    frame.pixels@[px_index(
        sample_x(frame.width, n, led, k),
        sample_y(frame.height, k),
        frame.width as int,
        frame.height as int,
    )]
}

/// A pixel is dark when all three channels are below the threshold.
pub open spec fn is_dark(p: RGB) -> bool {
    p.r < COLOR_THRESH && p.g < COLOR_THRESH && p.b < COLOR_THRESH
}

/// Channel sums and count of the non-dark pixels among the first `k` samples of strip `led`.
pub open spec fn strip_totals(frame: Frame, n: u32, led: int, k: nat) -> (int, int, int, int)
    decreases k,
{
    if k == 0 {
        (0, 0, 0, 0)
    } else {
        let t = strip_totals(frame, n, led, (k - 1) as nat);
        let p = sample_of(frame, n, led, k - 1);
        if is_dark(p) {
            t
        } else {
            (t.0 + p.r, t.1 + p.g, t.2 + p.b, t.3 + 1)
        }
    }
}

/// The average of the non-dark samples of strip `led` (rounded down), or black when every
/// sample is dark.
pub open spec fn strip_average(frame: Frame, n: u32, led: int) -> RGB {
    let t = strip_totals(frame, n, led, NUM_SAMPLES as nat);
    if t.3 == 0 {
        RGB { r: 0, g: 0, b: 0 }
    } else {
        RGB { r: (t.0 / t.3) as u8, g: (t.1 / t.3) as u8, b: (t.2 / t.3) as u8 }
    }
}

/// The color shown by LED `led`: the gamma-corrected average of its strip.
pub open spec fn led_color(frame: Frame, n: u32, led: int) -> RGB {
    gamma_rgb(strip_average(frame, n, led))
}

/// The inputs on which the full-screen computation is defined: at least one LED, a strip
/// at least one pixel wide, and a screen at least one pixel high.
pub open spec fn full_screen_accepts(num_leds: u32, frame: Frame) -> bool {
    &&& frame.wf()
    &&& num_leds >= 1
    &&& frame.width >= num_leds
    &&& frame.height >= 1
}

/// Every sample of LED `led` lies inside that LED's vertical strip and on the screen.
pub proof fn lemma_sample_in_strip(frame: Frame, n: u32, led: int, k: int)
    requires
        full_screen_accepts(n, frame),
        0 <= led < n,
        0 <= k < NUM_SAMPLES,
    ensures
        strip_width(frame.width, n) >= 1,
        strip_width(frame.width, n) * led <= sample_x(frame.width, n, led, k),
        sample_x(frame.width, n, led, k) < strip_width(frame.width, n) * (led + 1),
        sample_x(frame.width, n, led, k) < frame.width,
        0 <= sample_y(frame.height, k) < frame.height,
        0 <= px_index(
            sample_x(frame.width, n, led, k),
            sample_y(frame.height, k),
            frame.width as int,
            frame.height as int,
        ) < frame.pixels@.len(),
{
    let w = frame.width as int;
    let h = frame.height as int;
    let c = strip_width(frame.width, n);
    let s = sample_stride(frame.height);
    lemma_fundamental_div_mod(w, n as int);
    lemma_fundamental_div_mod(h, NUM_SAMPLES as int);
    assert(c >= 1) by {
        assert(n * c + w % (n as int) == w);
        lemma_mod_bound(w, n as int);
        if c < 1 {
            assert(c == 0);
            assert(n * c == 0) by (nonlinear_arith)
                requires
                    c == 0,
            ;
        }
    }
    lemma_mod_bound(X_STEP * k, c);
    assert(c * (led + 1) <= c * n) by {
        lemma_mul_inequality(led + 1, n as int, c);
        assert(c * (led + 1) == (led + 1) * c) by (nonlinear_arith);
        assert(c * n == n * c) by (nonlinear_arith);
    }
    assert(c * (led + 1) == c * led + c) by (nonlinear_arith);
    assert(n * c <= w) by {
        lemma_mod_bound(w, n as int);
    }
    assert(c * n == n * c) by (nonlinear_arith);
    assert(0 <= c * led) by (nonlinear_arith)
        requires
            0 <= c,
            0 <= led,
    ;
    let x = sample_x(frame.width, n, led, k);
    let y = sample_y(frame.height, k);
    assert(0 <= s);
    assert(0 <= y <= (NUM_SAMPLES - 1) * s) by {
        assert(0 <= k * s) by (nonlinear_arith)
            requires
                0 <= k,
                0 <= s,
        ;
        lemma_mul_inequality(k, NUM_SAMPLES - 1, s);
    }
    assert(y < h) by {
        lemma_mod_bound(h, NUM_SAMPLES as int);
        assert((NUM_SAMPLES - 1) * s <= NUM_SAMPLES * s) by (nonlinear_arith)
            requires
                0 <= s,
        ;
        if s == 0 {
            assert((NUM_SAMPLES - 1) * s == 0) by (nonlinear_arith)
                requires
                    s == 0,
            ;
        } else {
            assert((NUM_SAMPLES - 1) * s < NUM_SAMPLES * s) by (nonlinear_arith)
                requires
                    s > 0,
            ;
        }
    }
    assert(x + y * w < w * h) by (nonlinear_arith)
        requires
            0 <= x < w,
            0 <= y < h,
    ;
    assert(0 <= y * w) by (nonlinear_arith)
        requires
            0 <= y,
            0 <= w,
    ;
}

/// Totals of the first `k` samples of a strip on a screen of one uniform color.
proof fn lemma_uniform_totals(frame: Frame, n: u32, led: int, p: RGB, k: nat)
    requires
        full_screen_accepts(n, frame),
        0 <= led < n,
        k <= NUM_SAMPLES,
        forall|i: int| 0 <= i < frame.pixels@.len() ==> frame.pixels@[i] == p,
    ensures
        strip_totals(frame, n, led, k) == (if is_dark(p) {
            (0int, 0int, 0int, 0int)
        } else {
            (k * p.r, k * p.g, k * p.b, k as int)
        }),
    decreases k,
{
    if k > 0 {
        lemma_uniform_totals(frame, n, led, p, (k - 1) as nat);
        lemma_sample_in_strip(frame, n, led, k - 1);
        let idx = px_index(
            sample_x(frame.width, n, led, k - 1),
            sample_y(frame.height, k - 1),
            frame.width as int,
            frame.height as int,
        );
        assert(frame.pixels@[idx] == p);
        assert(sample_of(frame, n, led, k - 1) == p);
        assert(k * p.r == (k - 1) * p.r + p.r) by (nonlinear_arith);
        assert(k * p.g == (k - 1) * p.g + p.g) by (nonlinear_arith);
        assert(k * p.b == (k - 1) * p.b + p.b) by (nonlinear_arith);
    } else {
        assert(k * p.r == 0 && k * p.g == 0 && k * p.b == 0) by (nonlinear_arith)
            requires
                k == 0,
        ;
    }
}

/// On a screen of one uniform color, every LED shows that color gamma-corrected, or black
/// when the color is dark.
pub proof fn lemma_uniform_screen(frame: Frame, n: u32, led: int, p: RGB)
    requires
        full_screen_accepts(n, frame),
        0 <= led < n,
        forall|i: int| 0 <= i < frame.pixels@.len() ==> frame.pixels@[i] == p,
    ensures
        led_color(frame, n, led) == (if p.r < 32 && p.g < 32 && p.b < 32 {
            RGB { r: 0, g: 0, b: 0 }
        } else {
            RGB { r: GAMMA8@[p.r as int], g: GAMMA8@[p.g as int], b: GAMMA8@[p.b as int] }
        }),
{
    lemma_uniform_totals(frame, n, led, p, NUM_SAMPLES as nat);
    lemma_gamma_darkens(0);
    let k = NUM_SAMPLES as int;
    assert((k * p.r) / k == p.r) by {
        lemma_div_multiples_vanish(p.r as int, k);
    }
    assert((k * p.g) / k == p.g) by {
        lemma_div_multiples_vanish(p.g as int, k);
    }
    assert((k * p.b) / k == p.b) by {
        lemma_div_multiples_vanish(p.b as int, k);
    }
}

/// The pixel at column `x` and row `y` of a frame.
pub open spec fn pixel_at(frame: Frame, x: int, y: int) -> RGB {
    frame.pixels@[x + y * frame.width]
}

/// Every pixel in the columns of strip `led` is either `p` or has all three channels below
/// 32.
pub open spec fn strip_is_color_or_dark(frame: Frame, n: u32, led: int, p: RGB) -> bool {
    forall|x: int, y: int|
        (frame.width / n) * led <= x < (frame.width / n) * (led + 1) && 0 <= y < frame.height
            ==> {
            let q = #[trigger] pixel_at(frame, x, y);
            q == p || (q.r < 32 && q.g < 32 && q.b < 32)
        }
}

/// Totals over the first `k` samples of a strip whose pixels are all `p` or dark.
proof fn lemma_color_or_dark_totals(frame: Frame, n: u32, led: int, p: RGB, k: nat)
    requires
        full_screen_accepts(n, frame),
        0 <= led < n,
        k <= NUM_SAMPLES,
        strip_is_color_or_dark(frame, n, led, p),
    ensures
        ({
            let t = strip_totals(frame, n, led, k);
            &&& t.0 == t.3 * p.r
            &&& t.1 == t.3 * p.g
            &&& t.2 == t.3 * p.b
            &&& 0 <= t.3 <= k
            &&& (p.r < 32 && p.g < 32 && p.b < 32) ==> t.3 == 0
            &&& (!(p.r < 32 && p.g < 32 && p.b < 32) && k >= 1 && pixel_at(
                frame,
                (frame.width / n) * led,
                0,
            ) == p) ==> t.3 >= 1
        }),
    decreases k,
{
    if k == 0 {
        assert(0 * p.r == 0 && 0 * p.g == 0 && 0 * p.b == 0) by (nonlinear_arith);
    } else {
        lemma_color_or_dark_totals(frame, n, led, p, (k - 1) as nat);
        lemma_sample_in_strip(frame, n, led, k - 1);
        let sx = sample_x(frame.width, n, led, k - 1);
        let sy = sample_y(frame.height, k - 1);
        assert(px_index(sx, sy, frame.width as int, frame.height as int) == sx + sy * frame.width);
        let q = pixel_at(frame, sx, sy);
        assert(q == sample_of(frame, n, led, k - 1));
        let t = strip_totals(frame, n, led, (k - 1) as nat);
        assert((t.3 + 1) * p.r == t.3 * p.r + p.r) by (nonlinear_arith);
        assert((t.3 + 1) * p.g == t.3 * p.g + p.g) by (nonlinear_arith);
        assert((t.3 + 1) * p.b == t.3 * p.b + p.b) by (nonlinear_arith);
        if k == 1 {
            let c = strip_width(frame.width, n);
            lemma_small_mod(0, c as nat);
            assert(sx == c * led);
            assert(sy == 0);
        }
    }
}

/// A strip whose pixels are all one color `p` or dark shows `p` gamma-corrected when `p` is
/// not dark and the strip's first sample, at its top left pixel, is `p`: dark pixels are
/// left out of the average, however many there are. A strip whose pixels are all dark is
/// black.
pub proof fn lemma_strip_of_one_color(frame: Frame, n: u32, led: int, p: RGB)
    requires
        full_screen_accepts(n, frame),
        0 <= led < n,
        strip_is_color_or_dark(frame, n, led, p),
    ensures
        (p.r >= 32 || p.g >= 32 || p.b >= 32) && pixel_at(frame, (frame.width / n) * led, 0) == p
            ==> led_color(frame, n, led) == (RGB {
            r: GAMMA8@[p.r as int],
            g: GAMMA8@[p.g as int],
            b: GAMMA8@[p.b as int],
        }),
        (p.r < 32 && p.g < 32 && p.b < 32) ==> led_color(frame, n, led) == (RGB {
            r: 0,
            g: 0,
            b: 0,
        }),
{
    lemma_color_or_dark_totals(frame, n, led, p, NUM_SAMPLES as nat);
    lemma_gamma_darkens(0);
    let t = strip_totals(frame, n, led, NUM_SAMPLES as nat);
    if t.3 > 0 {
        lemma_div_multiples_vanish(p.r as int, t.3);
        lemma_div_multiples_vanish(p.g as int, t.3);
        lemma_div_multiples_vanish(p.b as int, t.3);
    }
}

/// The samples of strip `led` start at its top left pixel; each next sample is 12 columns
/// further right, wrapping around within the strip, and `h / 1000` rows further down.
pub proof fn lemma_sample_walk(frame: Frame, n: u32, led: int, k: int)
    requires
        full_screen_accepts(n, frame),
        0 <= led < n,
        0 <= k,
    ensures
        sample_x(frame.width, n, led, 0) == (frame.width / n) * led,
        sample_y(frame.height, 0) == 0,
        sample_x(frame.width, n, led, k + 1) - (frame.width / n) * led == (sample_x(
            frame.width,
            n,
            led,
            k,
        ) - (frame.width / n) * led + 12) % ((frame.width / n) as int),
        sample_y(frame.height, k + 1) == sample_y(frame.height, k) + frame.height / 1000,
{
    lemma_sample_in_strip(frame, n, led, 0);
    let c = strip_width(frame.width, n);
    lemma_small_mod(0, c as nat);
    lemma_add_mod_noop_right(12, 12 * k, c);
    assert(12 * (k + 1) == 12 + 12 * k);
    lemma_mul_is_distributive_add_other_way(sample_stride(frame.height), k, 1);
}

/// Sums of the first `k` samples lie between the count times the lower and upper bounds.
proof fn lemma_totals_within(frame: Frame, n: u32, led: int, lo: RGB, hi: RGB, k: nat)
    requires
        forall|j: int|
            0 <= j < NUM_SAMPLES ==> {
                let q = #[trigger] sample_of(frame, n, led, j);
                (q.r < 32 && q.g < 32 && q.b < 32) || (lo.r <= q.r <= hi.r && lo.g <= q.g <= hi.g
                    && lo.b <= q.b <= hi.b)
            },
        k <= NUM_SAMPLES,
    ensures
        ({
            let t = strip_totals(frame, n, led, k);
            &&& t.3 * lo.r <= t.0 <= t.3 * hi.r
            &&& t.3 * lo.g <= t.1 <= t.3 * hi.g
            &&& t.3 * lo.b <= t.2 <= t.3 * hi.b
        }),
    decreases k,
{
    if k == 0 {
        assert(0 * lo.r == 0 && 0 * hi.r == 0 && 0 * lo.g == 0 && 0 * hi.g == 0 && 0 * lo.b == 0
            && 0 * hi.b == 0) by (nonlinear_arith);
    } else {
        lemma_totals_within(frame, n, led, lo, hi, (k - 1) as nat);
        let t = strip_totals(frame, n, led, (k - 1) as nat);
        let q = sample_of(frame, n, led, k - 1);
        assert((t.3 + 1) * lo.r == t.3 * lo.r + lo.r) by (nonlinear_arith);
        assert((t.3 + 1) * hi.r == t.3 * hi.r + hi.r) by (nonlinear_arith);
        assert((t.3 + 1) * lo.g == t.3 * lo.g + lo.g) by (nonlinear_arith);
        assert((t.3 + 1) * hi.g == t.3 * hi.g + hi.g) by (nonlinear_arith);
        assert((t.3 + 1) * lo.b == t.3 * lo.b + lo.b) by (nonlinear_arith);
        assert((t.3 + 1) * hi.b == t.3 * hi.b + hi.b) by (nonlinear_arith);
    }
}

/// A quotient of a sum bounded by count times `lo` and `hi` lies between them.
proof fn lemma_quotient_within(sum: int, count: int, lo: int, hi: int)
    requires
        count > 0,
        count * lo <= sum <= count * hi,
    ensures
        lo <= sum / count <= hi,
{
    assert(lo <= sum / count <= hi) by (nonlinear_arith)
        requires
            count > 0,
            count * lo <= sum <= count * hi,
    ;
}

/// When every sample of strip `led` is dark or has each channel between the channels of `lo`
/// and `hi`, and some sample is not dark, the strip's color before gamma correction has each
/// channel between those of `lo` and `hi`: the average never leaves the range of the samples
/// it averages.
pub proof fn lemma_average_within_samples(frame: Frame, n: u32, led: int, lo: RGB, hi: RGB)
    requires
        forall|j: int|
            0 <= j < NUM_SAMPLES ==> {
                let q = #[trigger] sample_of(frame, n, led, j);
                (q.r < 32 && q.g < 32 && q.b < 32) || (lo.r <= q.r <= hi.r && lo.g <= q.g <= hi.g
                    && lo.b <= q.b <= hi.b)
            },
        exists|j: int|
            0 <= j < NUM_SAMPLES && {
                let q = #[trigger] sample_of(frame, n, led, j);
                !(q.r < 32 && q.g < 32 && q.b < 32)
            },
    ensures
        lo.r <= strip_average(frame, n, led).r <= hi.r,
        lo.g <= strip_average(frame, n, led).g <= hi.g,
        lo.b <= strip_average(frame, n, led).b <= hi.b,
{
    let j = choose|j: int|
        0 <= j < NUM_SAMPLES && {
            let q = #[trigger] sample_of(frame, n, led, j);
            !(q.r < 32 && q.g < 32 && q.b < 32)
        };
    lemma_totals_within(frame, n, led, lo, hi, NUM_SAMPLES as nat);
    lemma_count_positive(frame, n, led, j, NUM_SAMPLES as nat);
    let t = strip_totals(frame, n, led, NUM_SAMPLES as nat);
    lemma_quotient_within(t.0, t.3, lo.r as int, hi.r as int);
    lemma_quotient_within(t.1, t.3, lo.g as int, hi.g as int);
    lemma_quotient_within(t.2, t.3, lo.b as int, hi.b as int);
}

/// A strip with a non-dark sample among its first `k` samples counts at least one sample.
proof fn lemma_count_positive(frame: Frame, n: u32, led: int, j: int, k: nat)
    requires
        0 <= j < k,
        !({
            let q = sample_of(frame, n, led, j);
            q.r < 32 && q.g < 32 && q.b < 32
        }),
    ensures
        strip_totals(frame, n, led, k).3 >= 1,
    decreases k,
{
    if j < k - 1 {
        lemma_count_positive(frame, n, led, j, (k - 1) as nat);
    } else {
        lemma_count_nonneg(frame, n, led, (k - 1) as nat);
    }
    lemma_totals_count_grows(frame, n, led, k);
}

/// The sample count is never negative.
proof fn lemma_count_nonneg(frame: Frame, n: u32, led: int, k: nat)
    ensures
        strip_totals(frame, n, led, k).3 >= 0,
    decreases k,
{
    if k > 0 {
        lemma_count_nonneg(frame, n, led, (k - 1) as nat);
    }
}

/// The sample count never decreases.
proof fn lemma_totals_count_grows(frame: Frame, n: u32, led: int, k: nat)
    requires
        k >= 1,
    ensures
        strip_totals(frame, n, led, k).3 >= strip_totals(frame, n, led, (k - 1) as nat).3,
{
}

/// Channel sums and count of the non-dark samples of strip `col_idx`.
fn strip_sums(num_leds: u32, frame: &Frame, col_idx: u32) -> (t: (u64, u64, u64, u64))
    requires
        full_screen_accepts(num_leds, *frame),
        col_idx < num_leds,
    ensures
        t.0 as int == strip_totals(*frame, num_leds, col_idx as int, NUM_SAMPLES as nat).0,
        t.1 as int == strip_totals(*frame, num_leds, col_idx as int, NUM_SAMPLES as nat).1,
        t.2 as int == strip_totals(*frame, num_leds, col_idx as int, NUM_SAMPLES as nat).2,
        t.3 as int == strip_totals(*frame, num_leds, col_idx as int, NUM_SAMPLES as nat).3,
        t.0 <= 255 * t.3,
        t.1 <= 255 * t.3,
        t.2 <= 255 * t.3,
{
    let w = frame.width;
    let h = frame.height;
    let col_width = w / num_leds;
    let y_stride = h / NUM_SAMPLES;
    proof {
        lemma_sample_in_strip(*frame, num_leds, col_idx as int, 0);
        lemma_fundamental_div_mod(w as int, num_leds as int);
        lemma_mod_bound(w as int, num_leds as int);
        lemma_mul_inequality(col_idx as int, num_leds as int, col_width as int);
        assert(num_leds * col_width == col_width * num_leds) by (nonlinear_arith);
    }
    let base_x = col_width * col_idx;
    let mut tot_r: u64 = 0;
    let mut tot_g: u64 = 0;
    let mut tot_b: u64 = 0;
    let mut tot_px: u64 = 0;
    let mut cur_x_offset: u32 = 0;
    let mut cur_y: u32 = 0;
    proof {
        lemma_small_mod(0, col_width as nat);
    }
    for px_idx in 0..NUM_SAMPLES
        invariant
            full_screen_accepts(num_leds, *frame),
            col_idx < num_leds,
            w == frame.width,
            h == frame.height,
            col_width == strip_width(w, num_leds),
            col_width >= 1,
            y_stride == sample_stride(h),
            base_x == col_width * col_idx,
            cur_x_offset == (X_STEP * px_idx) % (col_width as int),
            cur_y == px_idx * y_stride,
            tot_r as int == strip_totals(*frame, num_leds, col_idx as int, px_idx as nat).0,
            tot_g as int == strip_totals(*frame, num_leds, col_idx as int, px_idx as nat).1,
            tot_b as int == strip_totals(*frame, num_leds, col_idx as int, px_idx as nat).2,
            tot_px as int == strip_totals(*frame, num_leds, col_idx as int, px_idx as nat).3,
            tot_px <= px_idx,
            tot_r <= 255 * tot_px,
            tot_g <= 255 * tot_px,
            tot_b <= 255 * tot_px,
    {
        proof {
            lemma_sample_in_strip(*frame, num_leds, col_idx as int, px_idx as int);
            lemma_mod_bound(X_STEP * px_idx, col_width as int);
            assert(frame.pixels@.len() == frame.pixels.len());
        }
        let idx = xy_to_px(cur_x_offset + base_x, cur_y, w, h);
        let px = frame.pixels[idx];
        assert(px == sample_of(*frame, num_leds, col_idx as int, px_idx as int));
        if !(px.r < COLOR_THRESH && px.g < COLOR_THRESH && px.b < COLOR_THRESH) {
            tot_r += px.r as u64;
            tot_g += px.g as u64;
            tot_b += px.b as u64;
            tot_px += 1;
        }
        proof {
            if col_width as int + 11 > u32::MAX {
                lemma_small_mod((X_STEP * px_idx) as nat, col_width as nat);
            }
        }
        cur_x_offset += X_STEP;
        cur_x_offset %= col_width;
        proof {
            lemma_add_mod_noop_right(X_STEP as int, X_STEP * px_idx, col_width as int);
            assert(X_STEP * (px_idx + 1) == X_STEP + X_STEP * px_idx);
            lemma_mul_is_distributive_add_other_way(y_stride as int, px_idx as int, 1);
            lemma_mul_inequality(px_idx + 1, NUM_SAMPLES as int, y_stride as int);
            lemma_fundamental_div_mod(h as int, NUM_SAMPLES as int);
            lemma_mod_bound(h as int, NUM_SAMPLES as int);
            assert(NUM_SAMPLES * y_stride == y_stride * NUM_SAMPLES) by (nonlinear_arith);
        }
        cur_y += y_stride;
    }
    (tot_r, tot_g, tot_b, tot_px)
}

/// The quotient of a sum of bytes by their count is itself a byte.
proof fn lemma_average_fits(total: int, count: int)
    requires
        0 <= total <= 255 * count,
        count > 0,
    ensures
        0 <= total / count <= 255,
{
    assert(0 <= total / count <= 255) by (nonlinear_arith)
        requires
            0 <= total <= 255 * count,
            count > 0,
    ;
}

/// Computes the LED colors from the whole screen: the screen is split into `num_leds`
/// vertical strips, `NUM_SAMPLES` pixels are sampled in each, the non-dark samples are
/// averaged, and each average is gamma-corrected.
pub fn compute_full_screen(num_leds: u32, frame: &Frame) -> (colors: Colors)
    requires
        full_screen_accepts(num_leds, *frame),
    ensures
        colors.color_vec@.len() == num_leds,
        forall|i: int|
            0 <= i < num_leds ==> colors.color_vec@[i] == led_color(*frame, num_leds, i),
{
    let mut color_vec: Vec<RGB> = Vec::new();
    for col_idx in 0..num_leds
        invariant
            full_screen_accepts(num_leds, *frame),
            color_vec@.len() == col_idx,
            forall|i: int|
                0 <= i < col_idx ==> color_vec@[i] == strip_average(*frame, num_leds, i),
    {
        let (tot_r, tot_g, tot_b, tot_px) = strip_sums(num_leds, frame, col_idx);
        if tot_px == 0 {
            color_vec.push(RGB { r: 0, g: 0, b: 0 });
        } else {
            proof {
                lemma_average_fits(tot_r as int, tot_px as int);
                lemma_average_fits(tot_g as int, tot_px as int);
                lemma_average_fits(tot_b as int, tot_px as int);
            }
            let r = (tot_r / tot_px) as u8;
            let g = (tot_g / tot_px) as u8;
            let b = (tot_b / tot_px) as u8;
            color_vec.push(RGB { r, g, b });
        }
    }
    apply_gamma_vec(&mut color_vec);
    Colors { color_vec: color_vec }
}

/// Computes the LED colors for a health bar; this mode shows nothing yet.
pub fn compute_health(num_leds: u32, h: &HealthBar) -> (colors: Colors)
    ensures
        colors.color_vec@.len() == 0,
{
    Colors { color_vec: Vec::new() }
}

/// The region the color thread uses next: a newly received region replaces the current one.
pub fn next_region(cur: ScreenRegion, received: Option<ScreenRegion>) -> (next: ScreenRegion)
    ensures
        next == (match received {
            Some(reg) => reg,
            None => cur,
        }),
{
    match received {
        Some(reg) => reg,
        None => cur,
    }
}

} // verus!
