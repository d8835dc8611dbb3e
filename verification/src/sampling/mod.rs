//! Sampling strategies that extract a single RGB color from a rectangular
//! region of BGRA pixel data.

use vstd::prelude::*;

use crate::text::str_eq;

mod average;
pub mod gpu;
mod max;
mod min;
mod palette;

pub use average::Average;
pub use max::Max;
pub use min::Min;
pub use palette::{bin_index, extract_dominant_from_histogram, Palette};

verus! {

/// An `(r, g, b)` color.
pub type Rgb = (u8, u8, u8);

/// The color stored at byte offset `idx` of a BGRA buffer.
pub open spec fn pixel_at(data: Seq<u8>, idx: int) -> Rgb {
    (data[idx + 2], data[idx + 1], data[idx])
}

/// Pixels of one sampled row: columns `px, px + stride, ...` below `x1`, whose
/// three color bytes (from `row_base + 4 * column`) lie inside `data`.
pub open spec fn row_pixels(data: Seq<u8>, row_base: int, px: int, x1: int, stride: int) -> Seq<Rgb>
    decreases x1 - px + stride,
{
    if px >= x1 || stride <= 0 {
        Seq::empty()
    } else {
        let idx = row_base + px * 4;
        let head = if idx + 2 < data.len() { seq![pixel_at(data, idx)] } else { Seq::empty() };
        head + row_pixels(data, row_base, px + stride, x1, stride)
    }
}

/// All sampled pixels, row by row: rows `py, py + stride, ...` below `y1` of a
/// frame `width` pixels wide, each row visiting columns `x0, x0 + stride, ...`
/// below `x1`. Pixels whose bytes fall outside `data` are skipped.
pub open spec fn grid_pixels(data: Seq<u8>, width: int, x0: int, x1: int, py: int, y1: int, stride: int) -> Seq<Rgb>
    decreases y1 - py + stride,
{
    if py >= y1 || stride <= 0 {
        Seq::empty()
    } else {
        row_pixels(data, py * width * 4, x0, x1, stride) + grid_pixels(data, width, x0, x1, py + stride, y1, stride)
    }
}

/// The last value of `lo, lo + step, ...` that is below `hi` (for `lo < hi`).
pub open spec fn last_step(lo: int, hi: int, step: int) -> int {
    lo + ((hi - 1 - lo) / step) * step
}

/// The stepping over the region neither overflows its `u32` coordinates nor
/// the `usize` byte offsets it computes, and advances (`stride >= 1`).
pub open spec fn grid_ok(width: int, x0: int, y0: int, x1: int, y1: int, stride: int) -> bool {
    y0 < y1 ==> {
        let ly = last_step(y0, y1, stride);
        &&& stride >= 1
        &&& ly + stride <= u32::MAX
        &&& ly * width <= u32::MAX
        &&& ly * width * 4 <= usize::MAX
        &&& x0 < x1 ==> {
            let lx = last_step(x0, x1, stride);
            &&& lx + stride <= u32::MAX
            &&& ly * width * 4 + lx * 4 + 2 <= usize::MAX
        }
    }
}

/// Every value `lo + k * step` below `hi` is at most `last_step(lo, hi, step)`.
pub proof fn lemma_step_le_last(lo: int, hi: int, step: int, k: int)
    requires
        step >= 1,
        k >= 0,
        lo + k * step < hi,
    ensures
        lo + k * step <= last_step(lo, hi, step),
{
    let d = hi - 1 - lo;
    let q = d / step;
    vstd::arithmetic::div_mod::lemma_fundamental_div_mod(d, step);
    assert(k <= q) by (nonlinear_arith)
        requires
            d == step * q + d % step,
            0 <= d % step < step,
            k * step <= d,
            step >= 1,
            k >= 0,
    ;
    assert(k * step <= q * step) by (nonlinear_arith)
        requires k <= q, step >= 1;
}

/// Collect the sampled pixels of a BGRA buffer: rows `y0, y0 + stride, ...`
/// below `y1`, columns `x0, x0 + stride, ...` below `x1`, in a frame `width`
/// pixels wide. Pixels whose bytes lie outside `data` are skipped.
pub fn sampled_pixels(data: &[u8], width: u32, x0: u32, y0: u32, x1: u32, y1: u32, stride: u32) -> (out: Vec<Rgb>)
    requires
        grid_ok(width as int, x0 as int, y0 as int, x1 as int, y1 as int, stride as int),
    ensures
        out@ == grid_pixels(data@, width as int, x0 as int, x1 as int, y0 as int, y1 as int, stride as int),
{
    let ghost total = grid_pixels(data@, width as int, x0 as int, x1 as int, y0 as int, y1 as int, stride as int);
    let ghost w = width as int;
    let ghost s = stride as int;
    let mut out: Vec<Rgb> = Vec::new();
    let mut py = y0;
    let ghost mut ky: int = 0;
    while py < y1
        invariant
            grid_ok(w, x0 as int, y0 as int, x1 as int, y1 as int, s),
            w == width, s == stride,
            ky >= 0,
            py == y0 + ky * s,
            py >= y0,
            y0 < y1 ==> s >= 1,
            out@ + grid_pixels(data@, w, x0 as int, x1 as int, py as int, y1 as int, s) == total,
        decreases y1 as int - py as int + s,
    {
        let ghost ly = last_step(y0 as int, y1 as int, s);
        proof {
            lemma_step_le_last(y0 as int, y1 as int, s, ky);
            vstd::arithmetic::mul::lemma_mul_inequality(py as int, ly, w);
        }
        let row_base: usize = (py * width) as usize * 4;
        let ghost rest = grid_pixels(data@, w, x0 as int, x1 as int, py + s, y1 as int, s);
        assert(grid_pixels(data@, w, x0 as int, x1 as int, py as int, y1 as int, s)
            == row_pixels(data@, row_base as int, x0 as int, x1 as int, s) + rest);
        assert(out@ + row_pixels(data@, row_base as int, x0 as int, x1 as int, s) + rest == total) by {
            assert(out@ + (row_pixels(data@, row_base as int, x0 as int, x1 as int, s) + rest)
                =~= out@ + row_pixels(data@, row_base as int, x0 as int, x1 as int, s) + rest);
        }
        let mut px = x0;
        let ghost mut kx: int = 0;
        while px < x1
            invariant
                grid_ok(w, x0 as int, y0 as int, x1 as int, y1 as int, s),
                w == width, s == stride,
                py < y1,
                py >= y0,
                s >= 1,
                px >= x0,
                py <= ly,
                ly == last_step(y0 as int, y1 as int, s),
                row_base == py * w * 4,
                kx >= 0,
                px == x0 + kx * s,
                rest == grid_pixels(data@, w, x0 as int, x1 as int, py + s, y1 as int, s),
                out@ + row_pixels(data@, row_base as int, px as int, x1 as int, s) + rest == total,
            decreases x1 as int - px as int + s,
        {
            let ghost lx = last_step(x0 as int, x1 as int, s);
            proof {
                lemma_step_le_last(x0 as int, x1 as int, s, kx);
                vstd::arithmetic::mul::lemma_mul_inequality(py as int, ly, w);
            }
            let idx: usize = row_base + (px as usize) * 4;
            let ghost before = out@;
            let ghost tail = row_pixels(data@, row_base as int, px + s, x1 as int, s);
            if idx + 2 < data.len() {
                let p: Rgb = (data[idx + 2], data[idx + 1], data[idx]);
                out.push(p);
                assert(out@ + tail + rest =~= before + row_pixels(data@, row_base as int, px as int, x1 as int, s) + rest);
            } else {
                assert(out@ + tail + rest =~= before + row_pixels(data@, row_base as int, px as int, x1 as int, s) + rest);
            }
            px = px + stride;
            proof {
                assert((kx + 1) * s == kx * s + s) by (nonlinear_arith);
                kx = kx + 1;
            }
        }
        assert(out@ + rest =~= out@ + row_pixels(data@, row_base as int, px as int, x1 as int, s) + rest);
        py = py + stride;
        proof {
            assert((ky + 1) * s == ky * s + s) by (nonlinear_arith);
            ky = ky + 1;
        }
    }
    assert(out@ =~= out@ + grid_pixels(data@, w, x0 as int, x1 as int, py as int, y1 as int, s));
    out
}

} // verus!

verus! {

/// Integer luminance of a color (scaled by 1000).
pub open spec fn lum(p: Rgb) -> int {
    299 * p.0 + 587 * p.1 + 114 * p.2
}

/// Integer luminance: 299*R + 587*G + 114*B (scaled by 1000 vs the float
/// version). Range: 0..=255_000, fits in u32.
pub fn luminance_u32(r: u8, g: u8, b: u8) -> (l: u32)
    ensures
        l as int == lum((r, g, b)),
        l <= 255_000,
{
    299 * r as u32 + 587 * g as u32 + 114 * b as u32
}

/// Scan the pixels in order, keeping the first one seen and replacing it by a
/// later one only when that one is strictly brighter (`is_max`) or strictly
/// darker (`!is_max`).
pub open spec fn extremum_of(s: Seq<Rgb>, is_max: bool) -> Option<Rgb>
    decreases s.len(),
{
    if s.len() == 0 {
        None
    } else {
        let p = s.last();
        match extremum_of(s.drop_last(), is_max) {
            None => Some(p),
            Some(b) => if (if is_max { lum(p) > lum(b) } else { lum(p) < lum(b) }) {
                Some(p)
            } else {
                Some(b)
            },
        }
    }
}

/// The extremum of a nonempty sequence is one of its pixels, no pixel is
/// strictly brighter (resp. darker), and no earlier pixel has the same
/// luminance: it is the first brightest (resp. darkest) pixel.
pub proof fn lemma_extremum_of(s: Seq<Rgb>, is_max: bool)
    ensures
        s.len() == 0 <==> extremum_of(s, is_max) is None,
        extremum_of(s, is_max) matches Some(b) ==> {
            &&& exists|i: int| 0 <= i < s.len() && s[i] == b && (forall|j: int| 0 <= j < i ==> lum(#[trigger] s[j]) != lum(b))
            &&& forall|j: int| 0 <= j < s.len() ==> if is_max { lum(#[trigger] s[j]) <= lum(b) } else { lum(s[j]) >= lum(b) }
        },
    decreases s.len(),
{
    if s.len() > 0 {
        let t = s.drop_last();
        lemma_extremum_of(t, is_max);
        let p = s.last();
        match extremum_of(t, is_max) {
            None => {
                assert(t.len() == 0);
                assert(s[0] == p);
            },
            Some(b) => {
                let i = choose|i: int| 0 <= i < t.len() && t[i] == b && (forall|j: int| 0 <= j < i ==> lum(#[trigger] t[j]) != lum(b));
                if (if is_max { lum(p) > lum(b) } else { lum(p) < lum(b) }) {
                    assert(s[s.len() - 1] == p);
                    assert forall|j: int| 0 <= j < s.len() - 1 implies lum(#[trigger] s[j]) != lum(p) by {
                        assert(s[j] == t[j]);
                    }
                } else {
                    assert(s[i] == b);
                    assert forall|j: int| 0 <= j < i implies lum(#[trigger] s[j]) != lum(b) by {
                        assert(s[j] == t[j]);
                    }
                }
                assert forall|j: int| 0 <= j < s.len() implies (if is_max { lum(#[trigger] s[j]) <= lum(extremum_of(s, is_max).unwrap()) } else { lum(s[j]) >= lum(extremum_of(s, is_max).unwrap()) }) by {
                    if j < s.len() - 1 {
                        assert(s[j] == t[j]);
                    }
                }
            },
        }
    }
}

/// The first brightest (`is_max`) or first darkest pixel of a sequence.
pub fn extremum_of_pixels(pixels: &Vec<Rgb>, is_max: bool) -> (out: Option<Rgb>)
    ensures
        out == extremum_of(pixels@, is_max),
{
    let mut best_rgb: Rgb = (0, 0, 0);
    let mut best_lum: u32 = if is_max { 0 } else { u32::MAX };
    let mut found = false;
    let mut i: usize = 0;
    while i < pixels.len()
        invariant
            i <= pixels@.len(),
            found == (i > 0),
            found ==> extremum_of(pixels@.take(i as int), is_max) == Some(best_rgb),
            found ==> best_lum == lum(best_rgb),
        decreases pixels@.len() - i,
    {
        let (r, g, b) = pixels[i];
        let l = luminance_u32(r, g, b);
        let better = if is_max { l > best_lum } else { l < best_lum };
        assert(pixels@.take(i + 1).drop_last() =~= pixels@.take(i as int));
        if better || !found {
            best_lum = l;
            best_rgb = (r, g, b);
            found = true;
        }
        i = i + 1;
    }
    assert(pixels@.take(i as int) =~= pixels@);
    if found { Some(best_rgb) } else { None }
}

} // verus!

verus! {

pub open spec fn sum_r(s: Seq<Rgb>) -> int
    decreases s.len(),
{
    if s.len() == 0 { 0 } else { sum_r(s.drop_last()) + s.last().0 }
}

pub open spec fn sum_g(s: Seq<Rgb>) -> int
    decreases s.len(),
{
    if s.len() == 0 { 0 } else { sum_g(s.drop_last()) + s.last().1 }
}

pub open spec fn sum_b(s: Seq<Rgb>) -> int
    decreases s.len(),
{
    if s.len() == 0 { 0 } else { sum_b(s.drop_last()) + s.last().2 }
}

/// Per-channel mean (rounded down) of a nonempty pixel sequence.
pub open spec fn average_of(s: Seq<Rgb>) -> Option<Rgb> {
    if s.len() == 0 {
        None
    } else {
        Some(((sum_r(s) / s.len() as int) as u8, (sum_g(s) / s.len() as int) as u8, (sum_b(s) / s.len() as int) as u8))
    }
}

pub proof fn lemma_sums_bounded(s: Seq<Rgb>)
    ensures
        0 <= sum_r(s) <= 255 * s.len(),
        0 <= sum_g(s) <= 255 * s.len(),
        0 <= sum_b(s) <= 255 * s.len(),
    decreases s.len(),
{
    if s.len() > 0 {
        lemma_sums_bounded(s.drop_last());
    }
}

/// Per-channel mean of the pixels, rounded down.
pub fn average_of_pixels(pixels: &Vec<Rgb>) -> (out: Option<Rgb>)
    ensures
        out == average_of(pixels@),
{
    let mut r_sum: u128 = 0;
    let mut g_sum: u128 = 0;
    let mut b_sum: u128 = 0;
    let mut count: u128 = 0;
    let mut i: usize = 0;
    while i < pixels.len()
        invariant
            i <= pixels@.len(),
            count == i,
            r_sum == sum_r(pixels@.take(i as int)),
            g_sum == sum_g(pixels@.take(i as int)),
            b_sum == sum_b(pixels@.take(i as int)),
        decreases pixels@.len() - i,
    {
        proof {
            lemma_sums_bounded(pixels@.take(i as int));
        }
        let (r, g, b) = pixels[i];
        assert(pixels@.take(i + 1).drop_last() =~= pixels@.take(i as int));
        r_sum = r_sum + r as u128;
        g_sum = g_sum + g as u128;
        b_sum = b_sum + b as u128;
        count = count + 1;
        i = i + 1;
    }
    assert(pixels@.take(i as int) =~= pixels@);
    if count == 0 {
        return None;
    }
    Some(((r_sum / count) as u8, (g_sum / count) as u8, (b_sum / count) as u8))
}

/// Bin of a color in an 8x8x8 histogram (three high bits per channel).
pub open spec fn bin_of(p: Rgb) -> int {
    (p.0 / 32) * 64 + (p.1 / 32) * 8 + p.2 / 32
}

/// Number of histogram bins used by the palette strategy.
pub const NUM_BINS: usize = 512;

/// Histogram totals per bin: (sum of r, sum of g, sum of b, count).
pub type BinTotals = (int, int, int, int);

pub open spec fn empty_bins() -> Seq<BinTotals> {
    Seq::new(512, |k: int| (0int, 0int, 0int, 0int))
}

/// The 8x8x8 histogram of a pixel sequence.
pub open spec fn bins_of(s: Seq<Rgb>) -> Seq<BinTotals>
    decreases s.len(),
{
    if s.len() == 0 {
        empty_bins()
    } else {
        let b = bins_of(s.drop_last());
        let p = s.last();
        let k = bin_of(p);
        let e = b[k];
        b.update(k, (e.0 + p.0, e.1 + p.1, e.2 + p.2, e.3 + 1))
    }
}

/// Index of the last maximum among the first `n` counts (the element
/// `Iterator::max_by_key` picks).
pub open spec fn last_argmax(counts: Seq<int>, n: int) -> int
    decreases n,
{
    if n <= 1 {
        0
    } else {
        let a = last_argmax(counts, n - 1);
        if counts[n - 1] >= counts[a] { n - 1 } else { a }
    }
}

/// The last argmax lies in range, its count is maximal, and every later
/// entry is strictly smaller.
pub proof fn lemma_last_argmax(counts: Seq<int>, n: int)
    requires
        1 <= n <= counts.len(),
    ensures
        0 <= last_argmax(counts, n) < n,
        forall|j: int| 0 <= j < n ==> #[trigger] counts[j] <= counts[last_argmax(counts, n)],
        forall|j: int| last_argmax(counts, n) < j < n ==> #[trigger] counts[j] < counts[last_argmax(counts, n)],
    decreases n,
{
    if n > 1 {
        lemma_last_argmax(counts, n - 1);
    }
}

pub open spec fn bin_counts(bins: Seq<BinTotals>) -> Seq<int> {
    Seq::new(bins.len(), |i: int| bins[i].3)
}

/// The mean color of the fullest histogram bin (the last one among equals),
/// or `None` when the histogram is empty or all its bins are.
pub open spec fn dominant_of(bins: Seq<BinTotals>) -> Option<Rgb> {
    if bins.len() == 0 {
        None
    } else {
        let b = bins[last_argmax(bin_counts(bins), bins.len() as int)];
        if b.3 == 0 {
            None
        } else {
            Some(((b.0 / b.3) as u8, (b.1 / b.3) as u8, (b.2 / b.3) as u8))
        }
    }
}

/// What each strategy makes of the sampled pixels.
#[derive(Debug, Clone, Copy, PartialEq, Eq, Structural)]
pub enum StrategyKind {
    Average,
    Max,
    Min,
    Palette,
}

pub open spec fn reduce_by_kind(kind: StrategyKind, pixels: Seq<Rgb>) -> Option<Rgb> {
    match kind {
        StrategyKind::Average => average_of(pixels),
        StrategyKind::Max => extremum_of(pixels, true),
        StrategyKind::Min => extremum_of(pixels, false),
        StrategyKind::Palette => dominant_of(bins_of(pixels)),
    }
}

} // verus!

verus! {

/// Every pixel of the sequence is `c`.
pub open spec fn all_pixels_are(s: Seq<Rgb>, c: Rgb) -> bool {
    forall|i: int| 0 <= i < s.len() ==> #[trigger] s[i] == c
}

proof fn lemma_uniform_sums(s: Seq<Rgb>, c: Rgb)
    requires
        all_pixels_are(s, c),
    ensures
        sum_r(s) == s.len() * c.0,
        sum_g(s) == s.len() * c.1,
        sum_b(s) == s.len() * c.2,
    decreases s.len(),
{
    if s.len() > 0 {
        let t = s.drop_last();
        assert(all_pixels_are(t, c)) by {
            assert forall|i: int| 0 <= i < t.len() implies #[trigger] t[i] == c by {
                assert(t[i] == s[i]);
            }
        }
        lemma_uniform_sums(t, c);
        assert(s.last() == s[s.len() - 1]);
        assert(t.len() * c.0 + c.0 == s.len() * c.0) by (nonlinear_arith)
            requires t.len() + 1 == s.len();
        assert(t.len() * c.1 + c.1 == s.len() * c.1) by (nonlinear_arith)
            requires t.len() + 1 == s.len();
        assert(t.len() * c.2 + c.2 == s.len() * c.2) by (nonlinear_arith)
            requires t.len() + 1 == s.len();
    }
}

proof fn lemma_uniform_extremum(s: Seq<Rgb>, c: Rgb, is_max: bool)
    requires
        s.len() > 0,
        all_pixels_are(s, c),
    ensures
        extremum_of(s, is_max) == Some(c),
    decreases s.len(),
{
    let t = s.drop_last();
    assert(s.last() == s[s.len() - 1]);
    if t.len() > 0 {
        assert(all_pixels_are(t, c)) by {
            assert forall|i: int| 0 <= i < t.len() implies #[trigger] t[i] == c by {
                assert(t[i] == s[i]);
            }
        }
        lemma_uniform_extremum(t, c, is_max);
    }
}

proof fn lemma_uniform_bins(s: Seq<Rgb>, c: Rgb)
    requires
        all_pixels_are(s, c),
    ensures
        bins_of(s).len() == 512,
        0 <= bin_of(c) < 512,
        bins_of(s)[bin_of(c)] == (s.len() * c.0, s.len() * c.1, s.len() * c.2, s.len() as int),
        forall|k: int| 0 <= k < 512 && k != bin_of(c) ==> #[trigger] bins_of(s)[k] == (0int, 0int, 0int, 0int),
    decreases s.len(),
{
    assert(0 <= bin_of(c) < 512) by {
        assert(c.0 / 32 <= 7 && c.1 / 32 <= 7 && c.2 / 32 <= 7);
    }
    if s.len() > 0 {
        let t = s.drop_last();
        assert(all_pixels_are(t, c)) by {
            assert forall|i: int| 0 <= i < t.len() implies #[trigger] t[i] == c by {
                assert(t[i] == s[i]);
            }
        }
        lemma_uniform_bins(t, c);
        assert(s.last() == s[s.len() - 1]);
        assert(t.len() * c.0 + c.0 == s.len() * c.0) by (nonlinear_arith)
            requires t.len() + 1 == s.len();
        assert(t.len() * c.1 + c.1 == s.len() * c.1) by (nonlinear_arith)
            requires t.len() + 1 == s.len();
        assert(t.len() * c.2 + c.2 == s.len() * c.2) by (nonlinear_arith)
            requires t.len() + 1 == s.len();
    }
}

/// A region of a single color samples to that color, whatever the strategy.
pub proof fn lemma_uniform_region(kind: StrategyKind, s: Seq<Rgb>, c: Rgb)
    requires
        s.len() > 0,
        all_pixels_are(s, c),
    ensures
        reduce_by_kind(kind, s) == Some(c),
{
    let n = s.len() as int;
    match kind {
        StrategyKind::Average => {
            lemma_uniform_sums(s, c);
            assert((n * c.0) / n == c.0 && (n * c.1) / n == c.1 && (n * c.2) / n == c.2) by (nonlinear_arith)
                requires n > 0;
        },
        StrategyKind::Max => {
            lemma_uniform_extremum(s, c, true);
        },
        StrategyKind::Min => {
            lemma_uniform_extremum(s, c, false);
        },
        StrategyKind::Palette => {
            lemma_uniform_bins(s, c);
            let bins = bins_of(s);
            let counts = bin_counts(bins);
            let k0 = bin_of(c);
            lemma_last_argmax(counts, 512);
            let a = last_argmax(counts, 512);
            assert(counts[k0] == n);
            if a != k0 {
                assert(counts[a] == 0);
                assert(counts[k0] <= counts[a]);
            }
            assert((n * c.0) / n == c.0 && (n * c.1) / n == c.1 && (n * c.2) / n == c.2) by (nonlinear_arith)
                requires n > 0;
        },
    }
}

pub open spec fn kind_id(kind: StrategyKind) -> Seq<char> {
    match kind {
        StrategyKind::Average => "average"@,
        StrategyKind::Max => "max"@,
        StrategyKind::Min => "min"@,
        StrategyKind::Palette => "palette"@,
    }
}

pub open spec fn kind_name(kind: StrategyKind) -> Seq<char> {
    match kind {
        StrategyKind::Average => "Average"@,
        StrategyKind::Max => "Max (brightest)"@,
        StrategyKind::Min => "Min (darkest)"@,
        StrategyKind::Palette => "Palette (dominant)"@,
    }
}

pub open spec fn kind_supports_gpu(kind: StrategyKind) -> bool {
    kind == StrategyKind::Average || kind == StrategyKind::Palette
}

/// A sampling strategy extracts a single RGB color from a rectangular region
/// of BGRA pixel data.
///
/// Every strategy sees the same pixels: rows `y0, y0 + stride, ...` below `y1`
/// and columns `x0, x0 + stride, ...` below `x1` of a frame `width` pixels
/// wide, skipping pixels whose bytes lie outside `data`; it differs only in how
/// it reduces them (its kind).
pub trait SamplingStrategy {
    spec fn strategy_kind(&self) -> StrategyKind;

    /// Which reduction this strategy applies.
    fn kind(&self) -> (k: StrategyKind)
        ensures
            k == self.strategy_kind(),
    ;

    /// Unique identifier for this strategy (used for equality and serialization).
    fn id(&self) -> (s: &'static str)
        ensures
            s@ == kind_id(self.strategy_kind()),
    ;

    /// Human-readable display name for the UI.
    fn name(&self) -> (s: &'static str)
        ensures
            s@ == kind_name(self.strategy_kind()),
    ;

    /// Sample the pixel data within the given bounds.
    fn sample(&self, data: &[u8], width: u32, x0: u32, y0: u32, x1: u32, y1: u32, stride: u32) -> (out: Option<Rgb>)
        requires
            grid_ok(width as int, x0 as int, y0 as int, x1 as int, y1 as int, stride as int),
        ensures
            out == reduce_by_kind(
                self.strategy_kind(),
                grid_pixels(data@, width as int, x0 as int, x1 as int, y0 as int, y1 as int, stride as int),
            ),
    ;

    /// Whether this strategy supports GPU-accelerated sampling via compute shaders.
    fn supports_gpu(&self) -> (b: bool)
        ensures
            b == kind_supports_gpu(self.strategy_kind()),
    ;
}

/// Max/Min sampling: `IS_MAX = true` gives the first brightest pixel,
/// `IS_MAX = false` the first darkest one.
pub fn sample_extremum<const IS_MAX: bool>(data: &[u8], width: u32, x0: u32, y0: u32, x1: u32, y1: u32, stride: u32) -> (out: Option<Rgb>)
    requires
        grid_ok(width as int, x0 as int, y0 as int, x1 as int, y1 as int, stride as int),
    ensures
        out == extremum_of(grid_pixels(data@, width as int, x0 as int, x1 as int, y0 as int, y1 as int, stride as int), IS_MAX),
{
    let pixels = sampled_pixels(data, width, x0, y0, x1, y1, stride);
    extremum_of_pixels(&pixels, IS_MAX)
}

/// A sampling strategy chosen at run time, comparable and cloneable so it can
/// be stored in regions and offered in pickers. Two strategies are equal when
/// their ids are.
#[derive(Debug, Clone, Copy, PartialEq, Eq, Structural)]
pub struct BoxedStrategy {
    kind: StrategyKind,
}

impl View for BoxedStrategy {
    type V = StrategyKind;

    closed spec fn view(&self) -> StrategyKind {
        self.kind
    }
}

impl BoxedStrategy {
    pub fn new<S: SamplingStrategy>(strategy: S) -> (out: Self)
        ensures
            out@ == strategy.strategy_kind(),
    {
        BoxedStrategy { kind: strategy.kind() }
    }

    /// The strategy of the given kind.
    pub fn from_kind(kind: StrategyKind) -> (out: Self)
        ensures
            out@ == kind,
    {
        BoxedStrategy { kind }
    }

    pub fn kind(&self) -> (k: StrategyKind)
        ensures
            k == self@,
    {
        self.kind
    }

    pub fn sample(&self, data: &[u8], width: u32, x0: u32, y0: u32, x1: u32, y1: u32, stride: u32) -> (out: Option<Rgb>)
        requires
            grid_ok(width as int, x0 as int, y0 as int, x1 as int, y1 as int, stride as int),
        ensures
            out == reduce_by_kind(
                self@,
                grid_pixels(data@, width as int, x0 as int, x1 as int, y0 as int, y1 as int, stride as int),
            ),
    {
        match self.kind {
            StrategyKind::Average => Average.sample(data, width, x0, y0, x1, y1, stride),
            StrategyKind::Max => Max.sample(data, width, x0, y0, x1, y1, stride),
            StrategyKind::Min => Min.sample(data, width, x0, y0, x1, y1, stride),
            StrategyKind::Palette => Palette.sample(data, width, x0, y0, x1, y1, stride),
        }
    }

    pub fn supports_gpu(&self) -> (b: bool)
        ensures
            b == kind_supports_gpu(self@),
    {
        match self.kind {
            StrategyKind::Average => Average.supports_gpu(),
            StrategyKind::Max => Max.supports_gpu(),
            StrategyKind::Min => Min.supports_gpu(),
            StrategyKind::Palette => Palette.supports_gpu(),
        }
    }

    pub fn id(&self) -> (s: &'static str)
        ensures
            s@ == kind_id(self@),
    {
        match self.kind {
            StrategyKind::Average => Average.id(),
            StrategyKind::Max => Max.id(),
            StrategyKind::Min => Min.id(),
            StrategyKind::Palette => Palette.id(),
        }
    }

    /// Display name of the strategy.
    pub fn name(&self) -> (s: &'static str)
        ensures
            s@ == kind_name(self@),
    {
        match self.kind {
            StrategyKind::Average => Average.name(),
            StrategyKind::Max => Max.name(),
            StrategyKind::Min => Min.name(),
            StrategyKind::Palette => Palette.name(),
        }
    }

    /// The strategy among `all_strategies()` whose id is `id`, if any.
    pub fn from_id(id: &str) -> (out: Option<Self>)
        ensures
            match out {
                Some(b) => kind_id(b@) == id@,
                None => forall|k: StrategyKind| kind_id(k) != id@,
            },
    {
        let all = all_strategies();
        let mut i: usize = 0;
        while i < all.len()
            invariant
                i <= all@.len(),
                all@.len() == 4,
                all@[0]@ == StrategyKind::Average,
                all@[1]@ == StrategyKind::Max,
                all@[2]@ == StrategyKind::Min,
                all@[3]@ == StrategyKind::Palette,
                forall|j: int| 0 <= j < i ==> kind_id(#[trigger] all@[j]@) != id@,
            decreases all@.len() - i,
        {
            if str_eq(all[i].id(), id) {
                return Some(all[i]);
            }
            i = i + 1;
        }
        assert forall|k: StrategyKind| kind_id(k) != id@ by {
            match k {
                StrategyKind::Average => assert(kind_id(all@[0]@) != id@),
                StrategyKind::Max => assert(kind_id(all@[1]@) != id@),
                StrategyKind::Min => assert(kind_id(all@[2]@) != id@),
                StrategyKind::Palette => assert(kind_id(all@[3]@) != id@),
            }
        }
        None
    }
}

impl Default for BoxedStrategy {
    fn default() -> (out: Self)
        ensures
            out@ == StrategyKind::Average,
    {
        Self::new(Average)
    }
}

/// All available sampling strategies, in picker order.
pub fn all_strategies() -> (out: Vec<BoxedStrategy>)
    ensures
        out@.len() == 4,
        out@[0]@ == StrategyKind::Average,
        out@[1]@ == StrategyKind::Max,
        out@[2]@ == StrategyKind::Min,
        out@[3]@ == StrategyKind::Palette,
{
    let mut v = Vec::new();
    v.push(BoxedStrategy::new(Average));
    v.push(BoxedStrategy::new(Max));
    v.push(BoxedStrategy::new(Min));
    v.push(BoxedStrategy::new(Palette));
    v
}

/// A boxed strategy behaves as the strategy it was made from: on the same
/// arguments both sample the same color, and both report the same id and GPU
/// support.
pub proof fn lemma_boxed_behaves_as_inner<S: SamplingStrategy>(
    strategy: S,
    boxed: BoxedStrategy,
    data: &[u8],
    width: u32,
    x0: u32,
    y0: u32,
    x1: u32,
    y1: u32,
    stride: u32,
    inner_color: Option<Rgb>,
    boxed_color: Option<Rgb>,
    inner_id: &'static str,
    boxed_id: &'static str,
    inner_gpu: bool,
    boxed_gpu: bool,
)
    requires
        call_ensures(BoxedStrategy::new::<S>, (strategy,), boxed),
        call_ensures(S::sample, (&strategy, data, width, x0, y0, x1, y1, stride), inner_color),
        call_ensures(BoxedStrategy::sample, (&boxed, data, width, x0, y0, x1, y1, stride), boxed_color),
        call_ensures(S::id, (&strategy,), inner_id),
        call_ensures(BoxedStrategy::id, (&boxed,), boxed_id),
        call_ensures(S::supports_gpu, (&strategy,), inner_gpu),
        call_ensures(BoxedStrategy::supports_gpu, (&boxed,), boxed_gpu),
    ensures
        inner_color == boxed_color,
        inner_id@ == boxed_id@,
        inner_gpu == boxed_gpu,
{
}

/// The brightest and darkest reductions: on no pixel there is no color;
/// otherwise the color is one of the pixels, and no pixel has a strictly
/// greater (for the brightest) or strictly smaller (for the darkest)
/// luminance `299 R + 587 G + 114 B`. This holds for the `Max` and `Min`
/// strategies and the `Max` and `Min` kinds alike.
pub proof fn lemma_brightest_and_darkest(pixels: Seq<Rgb>)
    ensures
        forall|k: StrategyKind| (k == StrategyKind::Max || k == StrategyKind::Min) ==> {
            &&& (pixels.len() == 0 <==> reduce_by_kind(k, pixels) is None)
            &&& reduce_by_kind(k, pixels) matches Some(c) ==> {
                &&& exists|i: int| 0 <= i < pixels.len() && pixels[i] == c
                &&& forall|j: int| 0 <= j < pixels.len() ==> if k == StrategyKind::Max {
                    299 * (#[trigger] pixels[j]).0 + 587 * pixels[j].1 + 114 * pixels[j].2 <= 299 * c.0 + 587 * c.1 + 114 * c.2
                } else {
                    299 * pixels[j].0 + 587 * pixels[j].1 + 114 * pixels[j].2 >= 299 * c.0 + 587 * c.1 + 114 * c.2
                }
            }
        },
        Max.strategy_kind() == StrategyKind::Max,
        Min.strategy_kind() == StrategyKind::Min,
{
    lemma_extremum_of(pixels, true);
    lemma_extremum_of(pixels, false);
    assert forall|k: StrategyKind| (k == StrategyKind::Max || k == StrategyKind::Min) implies {
        &&& (pixels.len() == 0 <==> reduce_by_kind(k, pixels) is None)
        &&& reduce_by_kind(k, pixels) matches Some(c) ==> {
            &&& exists|i: int| 0 <= i < pixels.len() && pixels[i] == c
            &&& forall|j: int| 0 <= j < pixels.len() ==> if k == StrategyKind::Max {
                299 * (#[trigger] pixels[j]).0 + 587 * pixels[j].1 + 114 * pixels[j].2 <= 299 * c.0 + 587 * c.1 + 114 * c.2
            } else {
                299 * pixels[j].0 + 587 * pixels[j].1 + 114 * pixels[j].2 >= 299 * c.0 + 587 * c.1 + 114 * c.2
            }
        }
    } by {
        if let Some(c) = reduce_by_kind(k, pixels) {
            assert forall|j: int| 0 <= j < pixels.len() implies if k == StrategyKind::Max {
                299 * (#[trigger] pixels[j]).0 + 587 * pixels[j].1 + 114 * pixels[j].2 <= 299 * c.0 + 587 * c.1 + 114 * c.2
            } else {
                299 * pixels[j].0 + 587 * pixels[j].1 + 114 * pixels[j].2 >= 299 * c.0 + 587 * c.1 + 114 * c.2
            } by {
                assert(lum(pixels[j]) == 299 * pixels[j].0 + 587 * pixels[j].1 + 114 * pixels[j].2);
            }
        }
    }
}

proof fn lemma_sum_r_bounds(s: Seq<Rgb>, lo: int, hi: int)
    requires
        forall|i: int| 0 <= i < s.len() ==> lo <= (#[trigger] s[i]).0 <= hi,
    ensures
        lo * s.len() <= sum_r(s) <= hi * s.len(),
    decreases s.len(),
{
    if s.len() > 0 {
        let t = s.drop_last();
        assert forall|i: int| 0 <= i < t.len() implies lo <= (#[trigger] t[i]).0 <= hi by {
            assert(t[i] == s[i]);
        }
        lemma_sum_r_bounds(t, lo, hi);
        assert(s.last() == s[s.len() - 1]);
        assert(lo * t.len() + lo == lo * s.len() && hi * t.len() + hi == hi * s.len()) by (nonlinear_arith)
            requires t.len() + 1 == s.len();
    }
}

proof fn lemma_sum_g_bounds(s: Seq<Rgb>, lo: int, hi: int)
    requires
        forall|i: int| 0 <= i < s.len() ==> lo <= (#[trigger] s[i]).1 <= hi,
    ensures
        lo * s.len() <= sum_g(s) <= hi * s.len(),
    decreases s.len(),
{
    if s.len() > 0 {
        let t = s.drop_last();
        assert forall|i: int| 0 <= i < t.len() implies lo <= (#[trigger] t[i]).1 <= hi by {
            assert(t[i] == s[i]);
        }
        lemma_sum_g_bounds(t, lo, hi);
        assert(s.last() == s[s.len() - 1]);
        assert(lo * t.len() + lo == lo * s.len() && hi * t.len() + hi == hi * s.len()) by (nonlinear_arith)
            requires t.len() + 1 == s.len();
    }
}

proof fn lemma_sum_b_bounds(s: Seq<Rgb>, lo: int, hi: int)
    requires
        forall|i: int| 0 <= i < s.len() ==> lo <= (#[trigger] s[i]).2 <= hi,
    ensures
        lo * s.len() <= sum_b(s) <= hi * s.len(),
    decreases s.len(),
{
    if s.len() > 0 {
        let t = s.drop_last();
        assert forall|i: int| 0 <= i < t.len() implies lo <= (#[trigger] t[i]).2 <= hi by {
            assert(t[i] == s[i]);
        }
        lemma_sum_b_bounds(t, lo, hi);
        assert(s.last() == s[s.len() - 1]);
        assert(lo * t.len() + lo == lo * s.len() && hi * t.len() + hi == hi * s.len()) by (nonlinear_arith)
            requires t.len() + 1 == s.len();
    }
}

/// A quotient rounded down brackets the dividend.
proof fn lemma_quotient_brackets(sum: int, n: int, q: int)
    requires
        n > 0,
        q == sum / n,
    ensures
        q * n <= sum < (q + 1) * n,
{
    assert(q * n <= sum < (q + 1) * n) by (nonlinear_arith)
        requires n > 0, q == sum / n;
}

/// The average strategy: on no pixel there is no color; otherwise each
/// channel of the color is the mean of that channel over the pixels, rounded
/// down (`n * c <= sum < n * (c + 1)`), so it lies between the channel's
/// smallest and largest value among the pixels.
pub proof fn lemma_average_is_mean(pixels: Seq<Rgb>)
    ensures
        (pixels.len() == 0 <==> reduce_by_kind(StrategyKind::Average, pixels) is None),
        reduce_by_kind(StrategyKind::Average, pixels) matches Some(c) ==> {
            let n = pixels.len() as int;
            &&& n * c.0 <= sum_r(pixels) < n * (c.0 + 1)
            &&& n * c.1 <= sum_g(pixels) < n * (c.1 + 1)
            &&& n * c.2 <= sum_b(pixels) < n * (c.2 + 1)
            &&& exists|i: int| 0 <= i < n && (#[trigger] pixels[i]).0 <= c.0
            &&& exists|i: int| 0 <= i < n && (#[trigger] pixels[i]).0 >= c.0
            &&& exists|i: int| 0 <= i < n && (#[trigger] pixels[i]).1 <= c.1
            &&& exists|i: int| 0 <= i < n && (#[trigger] pixels[i]).1 >= c.1
            &&& exists|i: int| 0 <= i < n && (#[trigger] pixels[i]).2 <= c.2
            &&& exists|i: int| 0 <= i < n && (#[trigger] pixels[i]).2 >= c.2
        },
{
    let n = pixels.len() as int;
    if n > 0 {
        lemma_sums_bounded(pixels);
        let qr = sum_r(pixels) / n;
        let qg = sum_g(pixels) / n;
        let qb = sum_b(pixels) / n;
        lemma_quotient_brackets(sum_r(pixels), n, qr);
        lemma_quotient_brackets(sum_g(pixels), n, qg);
        lemma_quotient_brackets(sum_b(pixels), n, qb);
        assert(0 <= qr <= 255 && 0 <= qg <= 255 && 0 <= qb <= 255) by (nonlinear_arith)
            requires
                qr * n <= sum_r(pixels) < (qr + 1) * n,
                qg * n <= sum_g(pixels) < (qg + 1) * n,
                qb * n <= sum_b(pixels) < (qb + 1) * n,
                0 <= sum_r(pixels) <= 255 * n,
                0 <= sum_g(pixels) <= 255 * n,
                0 <= sum_b(pixels) <= 255 * n,
                n > 0;
        let c = average_of(pixels)->0;
        assert(c.0 == qr && c.1 == qg && c.2 == qb);
        assert(n * c.0 <= sum_r(pixels) < n * (c.0 + 1)) by (nonlinear_arith)
            requires qr * n <= sum_r(pixels) < (qr + 1) * n, c.0 == qr;
        assert(n * c.1 <= sum_g(pixels) < n * (c.1 + 1)) by (nonlinear_arith)
            requires qg * n <= sum_g(pixels) < (qg + 1) * n, c.1 == qg;
        assert(n * c.2 <= sum_b(pixels) < n * (c.2 + 1)) by (nonlinear_arith)
            requires qb * n <= sum_b(pixels) < (qb + 1) * n, c.2 == qb;
        assert forall|i: int| 0 <= i < n implies 0 <= (#[trigger] pixels[i]).0 <= 255 && 0 <= pixels[i].1 <= 255
            && 0 <= pixels[i].2 <= 255 by {}
        if forall|i: int| 0 <= i < n ==> (#[trigger] pixels[i]).0 > c.0 {
            lemma_sum_r_bounds(pixels, c.0 + 1, 255);
        }
        if forall|i: int| 0 <= i < n ==> (#[trigger] pixels[i]).0 < c.0 {
            lemma_sum_r_bounds(pixels, 0, c.0 - 1);
            assert((c.0 - 1) * n < n * c.0) by (nonlinear_arith) requires n > 0;
        }
        if forall|i: int| 0 <= i < n ==> (#[trigger] pixels[i]).1 > c.1 {
            lemma_sum_g_bounds(pixels, c.1 + 1, 255);
        }
        if forall|i: int| 0 <= i < n ==> (#[trigger] pixels[i]).1 < c.1 {
            lemma_sum_g_bounds(pixels, 0, c.1 - 1);
            assert((c.1 - 1) * n < n * c.1) by (nonlinear_arith) requires n > 0;
        }
        if forall|i: int| 0 <= i < n ==> (#[trigger] pixels[i]).2 > c.2 {
            lemma_sum_b_bounds(pixels, c.2 + 1, 255);
        }
        if forall|i: int| 0 <= i < n ==> (#[trigger] pixels[i]).2 < c.2 {
            lemma_sum_b_bounds(pixels, 0, c.2 - 1);
            assert((c.2 - 1) * n < n * c.2) by (nonlinear_arith) requires n > 0;
        }
    }
}

/// Distinct strategies have distinct ids, so looking a strategy up by its own
/// id gives it back.
pub proof fn lemma_kind_ids_distinct(a: StrategyKind, b: StrategyKind)
    ensures
        kind_id(a) == kind_id(b) ==> a == b,
{
    reveal_strlit("average");
    reveal_strlit("max");
    reveal_strlit("min");
    reveal_strlit("palette");
    if a != b {
        match (a, b) {
            (StrategyKind::Average, _) => assert(kind_id(a)[0] != kind_id(b)[0] || kind_id(a).len() != kind_id(b).len()),
            (StrategyKind::Max, StrategyKind::Min) => assert(kind_id(a)[1] != kind_id(b)[1]),
            (StrategyKind::Min, StrategyKind::Max) => assert(kind_id(a)[1] != kind_id(b)[1]),
            _ => assert(kind_id(a)[0] != kind_id(b)[0] || kind_id(a).len() != kind_id(b).len()),
        }
    }
}

} // verus!

verus! {

/// `ceil(a / s)`: how many of `0, s, 2s, ...` lie below `a`.
pub open spec fn ceil_div(a: int, s: int) -> int {
    (a + s - 1) / s
}

/// `ceil_div(a, s)` is the least `q` with `s * q >= a`.
proof fn lemma_ceil_div_bounds(a: int, s: int)
    requires
        a >= 0,
        s >= 1,
    ensures
        ceil_div(a, s) >= 0,
        s * ceil_div(a, s) >= a,
        s * (ceil_div(a, s) - 1) < a,
{
    let n = a + s - 1;
    vstd::arithmetic::div_mod::lemma_fundamental_div_mod(n, s);
    vstd::arithmetic::div_mod::lemma_mod_pos_bound(n, s);
    vstd::arithmetic::div_mod::lemma_div_pos_is_pos(n, s);
    let q = n / s;
    let r = n % s;
    assert(s * (q - 1) == s * q - s) by (nonlinear_arith);
}

/// Pixels a region is sampled at, about: the grid of a region one stride or
/// more on each side fits this many strides squared.
pub const MAX_SAMPLED_PIXELS: u128 = 1000;

/// The area of a `w` x `h` region, each side counted as at least one stride
/// `s`, fits `1000` squares of side `s`.
pub open spec fn strided_area_fits(w: int, h: int, s: int) -> bool {
    let mw = if w >= s { w } else { s };
    let mh = if h >= s { h } else { s };
    mw * mh <= MAX_SAMPLED_PIXELS * s * s
}

/// The stride that samples a `w` x `h` region at about 1000 pixels: the
/// smallest `s >= 1` with `max(w, s) * max(h, s) <= 1000 * s * s`. On a region
/// at least one stride wide and tall this is the smallest `s` with
/// `1000 * s * s >= w * h`; a strip thinner than that counts as one stride wide.
pub open spec fn is_sample_stride(w: int, h: int, s: int) -> bool {
    &&& s >= 1
    &&& strided_area_fits(w, h, s)
    &&& s == 1 || !strided_area_fits(w, h, s - 1)
}

/// How close a sampled grid of `n` pixels keeps to 1000 for a `w` x `h` region
/// and stride `s`: over 1000 by less than one partial row and one partial
/// column of the grid, and at most 1000 for a strip no wider (or no taller)
/// than the stride.
pub open spec fn sample_cap_met(w: int, h: int, s: int, n: int) -> bool {
    &&& n < MAX_SAMPLED_PIXELS + ceil_div(w, s) + ceil_div(h, s)
    &&& (w <= s || h <= s) ==> n <= MAX_SAMPLED_PIXELS
}

/// A longer stride still fits.
proof fn lemma_strided_area_monotone(w: int, h: int, s: int, t: int)
    requires
        w >= 0,
        h >= 0,
        1 <= s <= t,
        strided_area_fits(w, h, s),
    ensures
        strided_area_fits(w, h, t),
{
    let ws = if w >= s { w } else { s };
    let hs = if h >= s { h } else { s };
    let wt = if w >= t { w } else { t };
    let ht = if h >= t { h } else { t };
    assert(s * wt <= t * ws) by (nonlinear_arith)
        requires 1 <= s <= t, wt == (if w >= t { w } else { t }), ws == (if w >= s { w } else { s }), w >= 0;
    assert(s * ht <= t * hs) by (nonlinear_arith)
        requires 1 <= s <= t, ht == (if h >= t { h } else { t }), hs == (if h >= s { h } else { s }), h >= 0;
    assert(wt * ht <= 1000 * t * t) by (nonlinear_arith)
        requires
            s * wt <= t * ws,
            s * ht <= t * hs,
            ws * hs <= 1000 * s * s,
            s >= 1,
            wt >= 0,
            ht >= 0,
            ws >= 0,
            hs >= 0,
    {
        assert((s * wt) * (s * ht) <= (t * ws) * (t * hs));
        assert((t * ws) * (t * hs) == (t * t) * (ws * hs));
        assert((t * t) * (ws * hs) <= (t * t) * (1000 * s * s));
        assert((s * wt) * (s * ht) == (s * s) * (wt * ht));
    }
}

/// The cap `is_sample_stride` keeps to: see `sample_cap_met`.
proof fn lemma_sample_stride_cap(w: int, h: int, s: int)
    requires
        w >= 1,
        h >= 1,
        is_sample_stride(w, h, s),
    ensures
        sample_cap_met(w, h, s, ceil_div(w, s) * ceil_div(h, s)),
{
    lemma_ceil_div_bounds(w, s);
    lemma_ceil_div_bounds(h, s);
    let cw = ceil_div(w, s);
    let ch = ceil_div(h, s);
    let mw = if w >= s { w } else { s };
    let mh = if h >= s { h } else { s };
    assert(cw >= 1 && ch >= 1) by (nonlinear_arith)
        requires s * cw >= w, s * ch >= h, w >= 1, h >= 1, s >= 1;
    assert((cw - 1) * (ch - 1) < 1000) by (nonlinear_arith)
        requires
            0 <= s * (cw - 1) < w,
            0 <= s * (ch - 1) < h,
            w <= mw,
            h <= mh,
            mw * mh <= 1000 * s * s,
            s >= 1,
            cw >= 1,
            ch >= 1,
    {
        let a = s * (cw - 1);
        let b = s * (ch - 1);
        assert(a * b <= a * mh);
        assert(a * mh < mw * mh);
        assert(a * b == (s * s) * ((cw - 1) * (ch - 1)));
    }
    assert(cw * ch == (cw - 1) * (ch - 1) + cw + ch - 1) by (nonlinear_arith);
    if w <= s {
        assert(cw == 1) by (nonlinear_arith)
            requires s * (cw - 1) < w, w <= s, cw >= 1, s >= 1;
        assert(ch <= 1000) by (nonlinear_arith)
            requires s * (ch - 1) < h, h <= mh, s * mh <= 1000 * s * s, s >= 1, mw == s;
        assert(cw * ch <= 1000) by (nonlinear_arith)
            requires cw == 1, ch <= 1000;
    }
    if h <= s {
        assert(ch == 1) by (nonlinear_arith)
            requires s * (ch - 1) < h, h <= s, ch >= 1, s >= 1;
        assert(cw <= 1000) by (nonlinear_arith)
            requires s * (cw - 1) < w, w <= mw, mw * s <= 1000 * s * s, s >= 1, mh == s;
        assert(cw * ch <= 1000) by (nonlinear_arith)
            requires ch == 1, cw <= 1000;
    }
}

/// On a region at least one stride wide and tall, the stride is the smallest
/// `s >= 1` with `1000 * s * s >= w * h`.
pub proof fn lemma_stride_keeps_area_rule(w: int, h: int, s: int)
    requires
        is_sample_stride(w, h, s),
        s <= w,
        s <= h,
    ensures
        MAX_SAMPLED_PIXELS * s * s >= w * h,
        s == 1 || MAX_SAMPLED_PIXELS * (s - 1) * (s - 1) < w * h,
{
}

/// `strided_area_fits` computed on machine integers.
fn strided_area_fits_exec(w: u32, h: u32, s: u32) -> (b: bool)
    ensures
        b == strided_area_fits(w as int, h as int, s as int),
{
    let mw: u128 = if w >= s { w as u128 } else { s as u128 };
    let mh: u128 = if h >= s { h as u128 } else { s as u128 };
    assert(mw * mh <= 0xffff_ffff * 0xffff_ffffu128) by (nonlinear_arith)
        requires mw <= 0xffff_ffff, mh <= 0xffff_ffff;
    assert(1000 * (s as int) * (s as int) <= 1000 * 0xffff_ffff * 0xffff_ffffu128) by (nonlinear_arith)
        requires s <= 0xffff_ffff;
    mw * mh <= MAX_SAMPLED_PIXELS * (s as u128) * (s as u128)
}

/// The stride that samples a `w` x `h` region at about 1000 pixels: the
/// smallest `s >= 1` with `max(w, s) * max(h, s) <= 1000 * s * s`.
pub fn sample_stride(w: u32, h: u32) -> (s: u32)
    ensures
        is_sample_stride(w as int, h as int, s as int),
{
    if strided_area_fits_exec(w, h, 1) {
        return 1;
    }
    let mut lo: u32 = 1;
    let mut hi: u32 = if w < h { h } else { w };
    proof {
        assert(hi > 1) by (nonlinear_arith)
            requires
                !strided_area_fits(w as int, h as int, 1),
                hi == (if w < h { h } else { w }),
                w >= 0,
                h >= 0;
        assert(hi as int * hi as int <= 1000 * hi as int * hi as int) by (nonlinear_arith);
        assert(strided_area_fits(w as int, h as int, hi as int));
    }
    while hi - lo > 1
        invariant
            1 <= lo < hi,
            !strided_area_fits(w as int, h as int, lo as int),
            strided_area_fits(w as int, h as int, hi as int),
        decreases hi - lo,
    {
        let mid = lo + (hi - lo) / 2;
        if strided_area_fits_exec(w, h, mid) {
            hi = mid;
        } else {
            lo = mid;
        }
    }
    hi
}

/// Clamp pixel bounds to a `frame_w` x `frame_h` frame; `None` when the
/// clamped region is empty.
pub fn clamp_bounds(x0: u32, y0: u32, x1: u32, y1: u32, frame_w: u32, frame_h: u32) -> (out: Option<(u32, u32, u32, u32)>)
    ensures
        out == clamp_bounds_spec(x0, y0, x1, y1, frame_w, frame_h),
{
    let cx0 = if x0 < frame_w { x0 } else { frame_w };
    let cy0 = if y0 < frame_h { y0 } else { frame_h };
    let cx1 = if x1 < frame_w { x1 } else { frame_w };
    let cy1 = if y1 < frame_h { y1 } else { frame_h };
    if cx0 >= cx1 || cy0 >= cy1 {
        None
    } else {
        Some((cx0, cy0, cx1, cy1))
    }
}

/// The stride `sample_region` uses for the clamped region `(x0, y0, x1, y1)`.
pub open spec fn region_stride(b: (u32, u32, u32, u32)) -> int {
    choose|s: int| #[trigger] is_sample_stride(b.2 - b.0, b.3 - b.1, s)
}

/// Exactly one stride meets `is_sample_stride` for a region.
pub proof fn lemma_sample_stride_unique(w: int, h: int, s: int, t: int)
    requires
        w >= 0,
        h >= 0,
        is_sample_stride(w, h, s),
        is_sample_stride(w, h, t),
    ensures
        s == t,
{
    if s < t {
        lemma_strided_area_monotone(w, h, s, t - 1);
    } else if t < s {
        lemma_strided_area_monotone(w, h, t, s - 1);
    }
}

/// A sampled row holds at most `ceil((x1 - px) / stride)` pixels.
proof fn lemma_row_pixels_len(data: Seq<u8>, row_base: int, px: int, x1: int, stride: int)
    requires
        stride >= 1,
        px < x1 + stride,
    ensures
        row_pixels(data, row_base, px, x1, stride).len() <= ceil_div(x1 - px, stride),
    decreases x1 - px + stride,
{
    if px >= x1 {
        vstd::arithmetic::div_mod::lemma_div_pos_is_pos(x1 - px + stride - 1, stride);
    } else {
        lemma_row_pixels_len(data, row_base, px + stride, x1, stride);
        vstd::arithmetic::div_mod::lemma_div_plus_one(x1 - px - 1, stride);
        assert(ceil_div(x1 - (px + stride), stride) + 1 == ceil_div(x1 - px, stride));
    }
}

/// The sampled grid holds at most `ceil(h / stride) * ceil(w / stride)` pixels.
proof fn lemma_grid_pixels_len(data: Seq<u8>, width: int, x0: int, x1: int, py: int, y1: int, stride: int)
    requires
        stride >= 1,
        x0 <= x1,
        py < y1 + stride,
    ensures
        grid_pixels(data, width, x0, x1, py, y1, stride).len() <= ceil_div(y1 - py, stride) * ceil_div(x1 - x0, stride),
    decreases y1 - py + stride,
{
    let rw = ceil_div(x1 - x0, stride);
    lemma_ceil_div_bounds(x1 - x0, stride);
    if py >= y1 {
        vstd::arithmetic::div_mod::lemma_div_pos_is_pos(y1 - py + stride - 1, stride);
        let c = ceil_div(y1 - py, stride);
        assert(c * rw >= 0) by (nonlinear_arith)
            requires c >= 0, rw >= 0;
    } else {
        lemma_row_pixels_len(data, py * width * 4, x0, x1, stride);
        lemma_grid_pixels_len(data, width, x0, x1, py + stride, y1, stride);
        vstd::arithmetic::div_mod::lemma_div_plus_one(y1 - py - 1, stride);
        let c = ceil_div(y1 - py, stride);
        assert(ceil_div(y1 - (py + stride), stride) == c - 1);
        assert((c - 1) * rw + rw == c * rw) by (nonlinear_arith);
    }
}

/// Sample the pixel region `[x0, x1) x [y0, y1)` of a BGRA frame (bounds
/// clamped to the frame) at about 1000 sampled pixels (see `is_sample_stride`
/// and `sample_cap_met`); `None` when the clamped region is empty or none of
/// its sampled pixels lies inside `data`.
pub fn sample_region_px(
    data: &[u8],
    width: u32,
    height: u32,
    x0: u32,
    y0: u32,
    x1: u32,
    y1: u32,
    strategy: &BoxedStrategy,
) -> (out: Option<Rgb>)
    requires
        ({
            let c = (
                if x0 < width { x0 } else { width },
                if y0 < height { y0 } else { height },
                if x1 < width { x1 } else { width },
                if y1 < height { y1 } else { height },
            );
            c.0 < c.2 && c.1 < c.3 ==> grid_ok(width as int, c.0 as int, c.1 as int, c.2 as int, c.3 as int, region_stride(c))
        }),
    ensures
        match clamp_bounds_spec(x0, y0, x1, y1, width, height) {
            None => out is None,
            Some(c) => {
                &&& is_sample_stride(c.2 - c.0, c.3 - c.1, region_stride(c))
                &&& sample_cap_met(
                    c.2 - c.0,
                    c.3 - c.1,
                    region_stride(c),
                    grid_pixels(data@, width as int, c.0 as int, c.2 as int, c.1 as int, c.3 as int, region_stride(c)).len() as int,
                )
                &&& out == reduce_by_kind(
                    strategy@,
                    grid_pixels(data@, width as int, c.0 as int, c.2 as int, c.1 as int, c.3 as int, region_stride(c)),
                )
            },
        },
{
    let bounds = clamp_bounds(x0, y0, x1, y1, width, height);
    match bounds {
        None => None,
        Some((cx0, cy0, cx1, cy1)) => {
            let stride = sample_stride(cx1 - cx0, cy1 - cy0);
            proof {
                let c = (cx0, cy0, cx1, cy1);
                let w = (cx1 - cx0) as int;
                let h = (cy1 - cy0) as int;
                assert(is_sample_stride(w, h, stride as int));
                lemma_sample_stride_unique(w, h, stride as int, region_stride(c));
                lemma_grid_pixels_len(data@, width as int, cx0 as int, cx1 as int, cy0 as int, cy1 as int, stride as int);
                lemma_sample_stride_cap(w, h, stride as int);
                let cy = ceil_div(h, stride as int);
                let cx = ceil_div(w, stride as int);
                assert(cy * cx == cx * cy) by (nonlinear_arith);
            }
            strategy.sample(data, width, cx0, cy0, cx1, cy1, stride)
        },
    }
}

/// The bounds `clamp_bounds` returns.
pub open spec fn clamp_bounds_spec(x0: u32, y0: u32, x1: u32, y1: u32, frame_w: u32, frame_h: u32) -> Option<(u32, u32, u32, u32)> {
    let cx0 = if x0 < frame_w { x0 } else { frame_w };
    let cy0 = if y0 < frame_h { y0 } else { frame_h };
    let cx1 = if x1 < frame_w { x1 } else { frame_w };
    let cy1 = if y1 < frame_h { y1 } else { frame_h };
    if cx0 >= cx1 || cy0 >= cy1 { None } else { Some((cx0, cy0, cx1, cy1)) }
}

} // verus!
