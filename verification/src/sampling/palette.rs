//! The palette strategy: the mean color of the fullest bin of an 8x8x8
//! color histogram, on the CPU and from a GPU histogram readback.

use vstd::prelude::*;

use super::gpu::HistogramBin;
use super::{
    bin_counts, bin_of, bins_of, dominant_of, empty_bins, grid_ok, grid_pixels, kind_id, kind_name,
    kind_supports_gpu, last_argmax, reduce_by_kind, sampled_pixels, BinTotals, Rgb, SamplingStrategy,
    StrategyKind, NUM_BINS,
};

verus! {

/// Computes the dominant color using Fixed Histogram Quantization (8x8x8 bins).
#[derive(Debug, Clone, Copy)]
pub struct Palette;

/// Running totals of one histogram bin.
#[derive(Clone, Copy)]
struct Bin {
    r_sum: u128,
    g_sum: u128,
    b_sum: u128,
    count: u128,
}

spec fn bin_totals(b: Bin) -> BinTotals {
    (b.r_sum as int, b.g_sum as int, b.b_sum as int, b.count as int)
}

/// Histogram bin of a color: the three high bits of r, g and b.
pub fn bin_index(r: u8, g: u8, b: u8) -> (k: usize)
    ensures
        k as int == bin_of((r, g, b)),
        k < NUM_BINS,
{
    let k = ((r as usize >> 5) << 6) | ((g as usize >> 5) << 3) | (b as usize >> 5);
    let ru = r as usize;
    let gu = g as usize;
    let bu = b as usize;
    assert(((ru >> 5) << 6) | ((gu >> 5) << 3) | (bu >> 5) == (ru / 32) * 64 + (gu / 32) * 8 + bu / 32) by (bit_vector)
        requires ru < 256, gu < 256, bu < 256;
    k
}

pub proof fn lemma_bins_of_len(s: Seq<Rgb>)
    ensures
        bins_of(s).len() == 512,
    decreases s.len(),
{
    if s.len() > 0 {
        lemma_bins_of_len(s.drop_last());
    }
}

/// Index of the last bin with the greatest count (as `max_by_key` picks it).
fn last_max_count(counts: &Vec<u128>) -> (best: usize)
    requires
        counts@.len() >= 1,
    ensures
        best as int == last_argmax(Seq::new(counts@.len(), |i: int| counts@[i] as int), counts@.len() as int),
        best < counts@.len(),
{
    let ghost cs = Seq::new(counts@.len(), |i: int| counts@[i] as int);
    let mut best: usize = 0;
    let mut i: usize = 1;
    while i < counts.len()
        invariant
            1 <= i <= counts@.len(),
            cs == Seq::new(counts@.len(), |i: int| counts@[i] as int),
            best as int == last_argmax(cs, i as int),
            best < i,
        decreases counts@.len() - i,
    {
        if counts[i] >= counts[best] {
            best = i;
        }
        i = i + 1;
    }
    best
}

/// Dominant color of a pixel sequence: the mean of its fullest 8x8x8 bin.
fn palette_of_pixels(pixels: &Vec<Rgb>) -> (out: Option<Rgb>)
    ensures
        out == dominant_of(bins_of(pixels@)),
{
    let mut bins: Vec<Bin> = Vec::new();
    while bins.len() < NUM_BINS
        invariant
            bins@.len() <= 512,
            forall|k: int| 0 <= k < bins@.len() ==> bin_totals(#[trigger] bins@[k]) == (0int, 0int, 0int, 0int),
        decreases 512 - bins@.len(),
    {
        bins.push(Bin { r_sum: 0, g_sum: 0, b_sum: 0, count: 0 });
    }
    assert(pixels@.take(0) =~= Seq::<Rgb>::empty());
    let mut i: usize = 0;
    while i < pixels.len()
        invariant
            i <= pixels@.len(),
            bins@.len() == 512,
            bins_of(pixels@.take(i as int)).len() == 512,
            forall|k: int| 0 <= k < 512 ==> bin_totals(#[trigger] bins@[k]) == bins_of(pixels@.take(i as int))[k],
            forall|k: int| 0 <= k < 512 ==> (#[trigger] bins@[k]).count <= i && bins@[k].r_sum <= 255 * i
                && bins@[k].g_sum <= 255 * i && bins@[k].b_sum <= 255 * i,
        decreases pixels@.len() - i,
    {
        let (r, g, b) = pixels[i];
        let k = bin_index(r, g, b);
        let old = bins[k];
        let ghost prev = bins@;
        bins.set(k, Bin {
            r_sum: old.r_sum + r as u128,
            g_sum: old.g_sum + g as u128,
            b_sum: old.b_sum + b as u128,
            count: old.count + 1,
        });
        assert(pixels@.take(i + 1).drop_last() =~= pixels@.take(i as int));
        assert(pixels@.take(i + 1).last() == (r, g, b));
        proof {
            lemma_bins_of_len(pixels@.take(i + 1));
        }
        assert forall|k2: int| 0 <= k2 < 512 implies bin_totals(#[trigger] bins@[k2]) == bins_of(pixels@.take(i + 1))[k2] by {
            if k2 != k as int {
                assert(bins@[k2] == prev[k2]);
            }
        }
        i = i + 1;
    }
    assert(pixels@.take(i as int) =~= pixels@);
    let ghost bs = bins_of(pixels@);
    let mut counts: Vec<u128> = Vec::new();
    let mut j: usize = 0;
    while j < bins.len()
        invariant
            j <= 512,
            bins@.len() == 512,
            counts@.len() == j,
            forall|k: int| 0 <= k < j ==> #[trigger] counts@[k] == bins@[k].count,
        decreases 512 - j,
    {
        counts.push(bins[j].count);
        j = j + 1;
    }
    let best = last_max_count(&counts);
    assert(Seq::new(counts@.len(), |i: int| counts@[i] as int) =~= bin_counts(bs));
    let b = bins[best];
    if b.count == 0 {
        return None;
    }
    Some(((b.r_sum / b.count) as u8, (b.g_sum / b.count) as u8, (b.b_sum / b.count) as u8))
}

/// Bin totals of a histogram readback.
pub open spec fn histogram_totals(bins: Seq<HistogramBin>) -> Seq<BinTotals> {
    Seq::new(bins.len(), |i: int| (bins[i].r_sum as int, bins[i].g_sum as int, bins[i].b_sum as int, bins[i].count as int))
}

/// Extract the dominant color from a histogram: the mean color of the bin with
/// the greatest count (the last such bin on ties); `None` for an empty
/// histogram or one whose fullest bin is empty.
pub fn extract_dominant_from_histogram(bins: &[HistogramBin]) -> (out: Option<Rgb>)
    ensures
        out == dominant_of(histogram_totals(bins@)),
{
    if bins.len() == 0 {
        return None;
    }
    let ghost hs = histogram_totals(bins@);
    let mut best: usize = 0;
    let mut i: usize = 1;
    while i < bins.len()
        invariant
            1 <= i <= bins@.len(),
            hs == histogram_totals(bins@),
            best as int == last_argmax(bin_counts(hs), i as int),
            best < i,
        decreases bins@.len() - i,
    {
        if bins[i].count >= bins[best].count {
            best = i;
        }
        i = i + 1;
    }
    let b = bins[best];
    if b.count == 0 {
        return None;
    }
    Some(((b.r_sum / b.count) as u8, (b.g_sum / b.count) as u8, (b.b_sum / b.count) as u8))
}

impl SamplingStrategy for Palette {
    open spec fn strategy_kind(&self) -> StrategyKind {
        StrategyKind::Palette
    }

    fn kind(&self) -> (k: StrategyKind) {
        StrategyKind::Palette
    }

    fn id(&self) -> (s: &'static str) {
        "palette"
    }

    fn name(&self) -> (s: &'static str) {
        "Palette (dominant)"
    }

    fn supports_gpu(&self) -> (b: bool) {
        true
    }

    fn sample(&self, data: &[u8], width: u32, x0: u32, y0: u32, x1: u32, y1: u32, stride: u32) -> (out: Option<Rgb>) {
        let pixels = sampled_pixels(data, width, x0, y0, x1, y1, stride);
        palette_of_pixels(&pixels)
    }
}

} // verus!
