use vstd::prelude::*;

use crate::util::color::{mul_channel, mul_u8};

verus! {

/// Texels in a row of an overlay mask.
pub const MASK_WIDTH: usize = 17;

/// Rows of an overlay mask.
pub const MASK_HEIGHT: usize = 33;

/// Bytes of an overlay mask: RGBA texels in raster order.
pub const MASK_BYTES: usize = MASK_WIDTH * MASK_HEIGHT * 4;

/// The lower mask index that destination coordinate `c` of `dim` maps to,
/// with scale `(m - 1) / (dim - 1)`; a one-pixel axis maps to index 0.
pub open spec fn axis_low(c: int, dim: int, m: int) -> int {
    if dim <= 1 {
        0
    } else {
        (c * (m - 1)) / (dim - 1)
    }
}

/// The upper mask index: one past the lower one, clamped to the last index.
pub open spec fn axis_high(c: int, dim: int, m: int) -> int {
    if axis_low(c, dim, m) + 1 < m {
        axis_low(c, dim, m) + 1
    } else {
        m - 1
    }
}

/// The denominator of the fractional part of the mapped coordinate.
pub open spec fn axis_den(dim: int) -> int {
    if dim <= 1 {
        1
    } else {
        dim - 1
    }
}

/// The numerator of the fractional part of the mapped coordinate.
pub open spec fn axis_frac(c: int, dim: int, m: int) -> int {
    if dim <= 1 {
        0
    } else {
        (c * (m - 1)) % (dim - 1)
    }
}

/// Linear interpolation from `a` to `b` at `frac / den`, rounded down.
pub open spec fn lerp(a: int, b: int, frac: int, den: int) -> int {
    (a * (den - frac) + b * frac) / den
}

/// Channel `ch` of the mask texel at column `x`, row `y`.
pub open spec fn texel(mask: Seq<u8>, x: int, y: int, ch: int) -> int {
    mask[(y * MASK_WIDTH + x) * 4 + ch] as int
}

/// Channel `ch` of the mask sampled bilinearly at destination pixel `(x, y)`
/// of a `w` by `h` raster: horizontally within two rows, then vertically.
pub open spec fn sample(mask: Seq<u8>, x: int, y: int, w: int, h: int, ch: int) -> int {
    let x0 = axis_low(x, w, MASK_WIDTH as int);
    let x1 = axis_high(x, w, MASK_WIDTH as int);
    let y0 = axis_low(y, h, MASK_HEIGHT as int);
    let y1 = axis_high(y, h, MASK_HEIGHT as int);
    let fx = axis_frac(x, w, MASK_WIDTH as int);
    let dx = axis_den(w);
    let top = lerp(texel(mask, x0, y0, ch), texel(mask, x1, y0, ch), fx, dx);
    let bottom = lerp(texel(mask, x0, y1, ch), texel(mask, x1, y1, ch), fx, dx);
    lerp(top, bottom, axis_frac(y, h, MASK_HEIGHT as int), axis_den(h))
}

/// Byte `k` of `frame` after blending with `mask`. Pixel `i` of a `w`-wide
/// frame is row `i / w`, column `i % w`; it samples the mask at
/// `(i / w, w - 1 - i % w)` of an `h` by `w` raster, the mask lying transposed
/// to the frame. Pixels past `w * h` and a trailing partial pixel stay as
/// they are.
pub open spec fn blended_byte(frame: Seq<u8>, mask: Seq<u8>, w: int, h: int, k: int) -> u8 {
    let i = k / 4;
    if w > 0 && i / w < h && i < frame.len() / 4 {
        mul_channel(frame[k] as int, sample(mask, i / w, w - 1 - i % w, h, w, k % 4)) as u8
    } else {
        frame[k]
    }
}

/// `frame` with the mask blended onto every pixel.
pub open spec fn blended(frame: Seq<u8>, mask: Seq<u8>, w: int, h: int) -> Seq<u8> {
    Seq::new(frame.len(), |k: int| blended_byte(frame, mask, w, h, k))
}

proof fn lemma_lerp_bound(a: int, b: int, frac: int, den: int)
    requires
        0 <= a <= 255,
        0 <= b <= 255,
        0 <= frac < den,
    ensures
        0 <= lerp(a, b, frac, den) <= 255,
{
    assert(0 <= a * (den - frac) <= 255 * (den - frac)) by (nonlinear_arith)
        requires 0 <= a <= 255, 0 <= frac < den;
    assert(0 <= b * frac <= 255 * frac) by (nonlinear_arith)
        requires 0 <= b <= 255, 0 <= frac;
    let s = a * (den - frac) + b * frac;
    assert(s / den <= 255) by (nonlinear_arith)
        requires 0 <= s <= 255 * den, den > 0;
    assert(s / den >= 0) by (nonlinear_arith)
        requires 0 <= s, den > 0;
}

proof fn lemma_axis(c: int, dim: int, m: int)
    requires
        0 <= c < dim,
        m >= 2,
    ensures
        0 <= axis_low(c, dim, m) < m,
        0 <= axis_high(c, dim, m) < m,
        0 <= axis_frac(c, dim, m) < axis_den(dim),
{
    if dim > 1 {
        assert(0 <= c * (m - 1) <= (dim - 1) * (m - 1)) by (nonlinear_arith)
            requires 0 <= c <= dim - 1, m >= 2;
        assert((c * (m - 1)) / (dim - 1) <= m - 1) by (nonlinear_arith)
            requires 0 <= c * (m - 1) <= (dim - 1) * (m - 1), dim > 1;
        assert((c * (m - 1)) / (dim - 1) >= 0) by (nonlinear_arith)
            requires 0 <= c * (m - 1), dim > 1;
        assert(0 <= (c * (m - 1)) % (dim - 1) < dim - 1) by (nonlinear_arith)
            requires 0 <= c * (m - 1), dim > 1;
    }
}

/// Where destination coordinate `c` of `dim` falls in a mask axis of `m`
/// texels: lower index, upper index, and the fraction `num / den` between them.
fn axis(c: usize, dim: usize, m: usize) -> (r: (usize, usize, u128, u128))
    requires
        c < dim,
        m == MASK_WIDTH || m == MASK_HEIGHT,
    ensures
        r.0 == axis_low(c as int, dim as int, m as int),
        r.1 == axis_high(c as int, dim as int, m as int),
        r.2 == axis_frac(c as int, dim as int, m as int),
        r.3 == axis_den(dim as int),
        r.0 < m,
        r.1 < m,
        r.2 < r.3,
{
    proof {
        lemma_axis(c as int, dim as int, m as int);
    }
    if dim <= 1 {
        (0, 1, 0, 1)
    } else {
        assert(c as int * (m as int - 1) <= usize::MAX as int * 32) by (nonlinear_arith)
            requires c <= usize::MAX, m - 1 <= 32;
        let num: u128 = c as u128 * (m as u128 - 1);
        let den: u128 = dim as u128 - 1;
        let low = (num / den) as usize;
        let high = if low + 1 < m { low + 1 } else { m - 1 };
        (low, high, num % den, den)
    }
}

/// Interpolates each channel from `color` to `color1` at `frac / den`,
/// rounding down.
pub fn lerp_color(color: [u8; 4], color1: [u8; 4], frac: u128, den: u128) -> (r: [u8; 4])
    requires
        frac < den,
        den <= usize::MAX,
    ensures
        forall|ch: int|
            0 <= ch < 4 ==> r@[ch] as int == lerp(
                color@[ch] as int,
                color1@[ch] as int,
                frac as int,
                den as int,
            ),
{
    let r = [
        lerp_u8(color[0], color1[0], frac, den),
        lerp_u8(color[1], color1[1], frac, den),
        lerp_u8(color[2], color1[2], frac, den),
        lerp_u8(color[3], color1[3], frac, den),
    ];
    assert forall|ch: int|
        0 <= ch < 4 implies r@[ch] as int == lerp(
            color@[ch] as int,
            color1@[ch] as int,
            frac as int,
            den as int,
        ) by {
        assert(ch == 0 || ch == 1 || ch == 2 || ch == 3);
    }
    r
}

fn lerp_u8(a: u8, b: u8, frac: u128, den: u128) -> (r: u8)
    requires
        frac < den,
        den <= usize::MAX,
    ensures
        r as int == lerp(a as int, b as int, frac as int, den as int),
{
    proof {
        lemma_lerp_bound(a as int, b as int, frac as int, den as int);
        assert(a as int * (den - frac) <= 255 * (usize::MAX as int)) by (nonlinear_arith)
            requires a <= 255, 0 <= den - frac <= usize::MAX;
        assert(b as int * frac <= 255 * (usize::MAX as int)) by (nonlinear_arith)
            requires b <= 255, 0 <= frac <= usize::MAX;
    }
    ((a as u128 * (den - frac) + b as u128 * frac) / den) as u8
}

/// The mask texel at column `x`, row `y`.
fn texel_at(mask: &[u8], x: usize, y: usize) -> (r: [u8; 4])
    requires
        mask@.len() == MASK_BYTES,
        x < MASK_WIDTH,
        y < MASK_HEIGHT,
    ensures
        forall|ch: int| 0 <= ch < 4 ==> r@[ch] as int == texel(mask@, x as int, y as int, ch),
{
    let at = (y * MASK_WIDTH + x) * 4;
    let r = [mask[at], mask[at + 1], mask[at + 2], mask[at + 3]];
    assert forall|ch: int| 0 <= ch < 4 implies r@[ch] as int == texel(
        mask@,
        x as int,
        y as int,
        ch,
    ) by {
        assert(ch == 0 || ch == 1 || ch == 2 || ch == 3);
    }
    r
}

/// The mask sampled bilinearly at destination pixel `(x, y)` of a `w` by `h`
/// raster.
pub fn get_overlay_color(overlay_frame: &[u8], x: usize, y: usize, w: usize, h: usize) -> (r: [u8; 4])
    requires
        overlay_frame@.len() == MASK_BYTES,
        x < w,
        y < h,
    ensures
        forall|ch: int|
            0 <= ch < 4 ==> r@[ch] as int == sample(
                overlay_frame@,
                x as int,
                y as int,
                w as int,
                h as int,
                ch,
            ),
{
    let (x0, x1, fx, dx) = axis(x, w, MASK_WIDTH);
    let (y0, y1, fy, dy) = axis(y, h, MASK_HEIGHT);
    let tl = texel_at(overlay_frame, x0, y0);
    let tr = texel_at(overlay_frame, x1, y0);
    let bl = texel_at(overlay_frame, x0, y1);
    let br = texel_at(overlay_frame, x1, y1);
    let top = lerp_color(tl, tr, fx, dx);
    let bottom = lerp_color(bl, br, fx, dx);
    lerp_color(top, bottom, fy, dy)
}

/// Multiplies two colors channel by channel, scaled by `1/255`.
pub fn multiply_color(color1: [u8; 4], color2: [u8; 4]) -> (r: [u8; 4])
    ensures
        forall|ch: int|
            0 <= ch < 4 ==> r@[ch] as int == mul_channel(color1@[ch] as int, color2@[ch] as int),
{
    let r = [
        mul_u8(color1[0], color2[0]),
        mul_u8(color1[1], color2[1]),
        mul_u8(color1[2], color2[2]),
        mul_u8(color1[3], color2[3]),
    ];
    assert forall|ch: int|
        0 <= ch < 4 implies r@[ch] as int == mul_channel(color1@[ch] as int, color2@[ch] as int) by {
        assert(ch == 0 || ch == 1 || ch == 2 || ch == 3);
    }
    r
}

/// `frame` with `mask` blended onto it: see `blended`.
pub fn blend_frame(frame: &Vec<u8>, mask: &Vec<u8>, w: usize, h: usize) -> (r: Vec<u8>)
    requires
        mask@.len() == MASK_BYTES,
    ensures
        r@ == blended(frame@, mask@, w as int, h as int),
{
    let mut out = frame.clone();
    let len = frame.len();
    let pixels = len / 4;
    let mut i: usize = 0;
    while i < pixels && w > 0 && i / w < h
        invariant
            frame@.len() == len,
            pixels == len / 4,
            i <= pixels,
            mask@.len() == MASK_BYTES,
            out@.len() == len,
            forall|k: int| 0 <= k < 4 * i ==> out@[k] == blended_byte(frame@, mask@, w as int, h as int, k),
            forall|k: int| 4 * i <= k < len ==> out@[k] == frame@[k],
            i > 0 ==> w > 0 && (i - 1) / (w as int) < h,
        decreases pixels - i,
    {
        let x = i / w;
        let y = w - 1 - i % w;
        let mask_color = get_overlay_color(mask.as_slice(), x, y, h, w);
        let at = 4 * i;
        let pixel = [frame[at], frame[at + 1], frame[at + 2], frame[at + 3]];
        let c = multiply_color(pixel, mask_color);
        out.set(at, c[0]);
        out.set(at + 1, c[1]);
        out.set(at + 2, c[2]);
        out.set(at + 3, c[3]);
        assert forall|k: int| 4 * i <= k < 4 * i + 4 implies out@[k] == blended_byte(
            frame@,
            mask@,
            w as int,
            h as int,
            k,
        ) by {
            assert(k / 4 == i as int);
            assert(k % 4 == k - 4 * i);
        }
        i = i + 1;
    }
    proof {
        assert forall|k: int| 4 * i <= k < len implies frame@[k] == blended_byte(
            frame@,
            mask@,
            w as int,
            h as int,
            k,
        ) by {
            let p = k / 4;
            assert(p >= i);
            if w > 0 && p / (w as int) < h && p < pixels {
                assert(i < pixels);
                assert(i as int / (w as int) <= p / (w as int)) by {
                    vstd::arithmetic::div_mod::lemma_div_is_ordered(i as int, p, w as int);
                }
            }
        }
    }
    assert(out@ =~= blended(frame@, mask@, w as int, h as int));
    out
}

/// Blends each frame with the overlay mask of the same step, in place. Frames
/// past the last mask stay as they are.
pub fn apply_overlay(frames: &mut Vec<Vec<u8>>, overlay_frames: &[Vec<u8>], w: usize, h: usize)
    requires
        forall|j: int| 0 <= j < overlay_frames@.len() ==> (#[trigger] overlay_frames@[j])@.len() == MASK_BYTES,
    ensures
        final(frames)@.len() == old(frames)@.len(),
        forall|j: int|
            0 <= j < final(frames)@.len() ==> (#[trigger] final(frames)@[j])@ == if j < overlay_frames@.len() {
                blended(old(frames)@[j]@, overlay_frames@[j]@, w as int, h as int)
            } else {
                old(frames)@[j]@
            },
{
    let n = frames.len();
    let mut j: usize = 0;
    while j < n && j < overlay_frames.len()
        invariant
            frames@.len() == n,
            n == old(frames)@.len(),
            j <= n,
            j <= overlay_frames@.len(),
            forall|t: int| 0 <= t < overlay_frames@.len() ==> (#[trigger] overlay_frames@[t])@.len() == MASK_BYTES,
            forall|t: int| 0 <= t < j ==> (#[trigger] frames@[t])@ == blended(old(frames)@[t]@, overlay_frames@[t]@, w as int, h as int),
            forall|t: int| j <= t < n ==> #[trigger] frames@[t] == old(frames)@[t],
        decreases n - j,
    {
        let blended_frame = blend_frame(&frames[j], &overlay_frames[j], w, h);
        frames.set(j, blended_frame);
        j = j + 1;
    }
}

/// `true` when every texel of `mask` is the color `c`.
pub open spec fn is_uniform(mask: Seq<u8>, c: Seq<u8>) -> bool {
    &&& mask.len() == MASK_BYTES
    &&& c.len() == 4
    &&& forall|t: int, ch: int|
        0 <= t < MASK_WIDTH * MASK_HEIGHT && 0 <= ch < 4 ==> #[trigger] mask[4 * t + ch] == c[ch]
}

proof fn lemma_lerp_same(a: int, frac: int, den: int)
    requires
        0 <= frac < den,
    ensures
        lerp(a, a, frac, den) == a,
{
    assert(a * (den - frac) + a * frac == a * den) by (nonlinear_arith);
    assert((a * den) / den == a) by (nonlinear_arith)
        requires den > 0;
}

/// A uniform mask samples to its one color everywhere.
pub proof fn lemma_uniform_sample(mask: Seq<u8>, c: Seq<u8>, x: int, y: int, w: int, h: int, ch: int)
    requires
        is_uniform(mask, c),
        0 <= x < w,
        0 <= y < h,
        0 <= ch < 4,
    ensures
        sample(mask, x, y, w, h, ch) == c[ch] as int,
{
    lemma_axis(x, w, MASK_WIDTH as int);
    lemma_axis(y, h, MASK_HEIGHT as int);
    let x0 = axis_low(x, w, MASK_WIDTH as int);
    let x1 = axis_high(x, w, MASK_WIDTH as int);
    let y0 = axis_low(y, h, MASK_HEIGHT as int);
    let y1 = axis_high(y, h, MASK_HEIGHT as int);
    assert(texel(mask, x0, y0, ch) == mask[4 * (y0 * 17 + x0) + ch] as int);
    assert(texel(mask, x1, y0, ch) == mask[4 * (y0 * 17 + x1) + ch] as int);
    assert(texel(mask, x0, y1, ch) == mask[4 * (y1 * 17 + x0) + ch] as int);
    assert(texel(mask, x1, y1, ch) == mask[4 * (y1 * 17 + x1) + ch] as int);
    let a = c[ch] as int;
    lemma_lerp_same(a, axis_frac(x, w, MASK_WIDTH as int), axis_den(w));
    lemma_lerp_same(a, axis_frac(y, h, MASK_HEIGHT as int), axis_den(h));
}

/// Blending with a uniform mask multiplies every blended byte by the mask
/// color's channel, whatever the interpolation weights: a uniform field is its
/// own interpolant.
pub proof fn lemma_uniform_overlay(frame: Seq<u8>, mask: Seq<u8>, c: Seq<u8>, w: int, h: int, k: int)
    requires
        is_uniform(mask, c),
        0 <= k < frame.len(),
    ensures
        blended(frame, mask, w, h)[k] == if w > 0 && (k / 4) / w < h && k / 4 < frame.len() / 4 {
            mul_channel(frame[k] as int, c[k % 4] as int) as u8
        } else {
            frame[k]
        },
{
    let i = k / 4;
    if w > 0 && i / w < h && i < frame.len() / 4 {
        lemma_uniform_sample(mask, c, i / w, w - 1 - i % w, h, w, k % 4);
    }
}

} // verus!
