//! The fixed set of CPU sampling modes offered by the simple sampler.

use vstd::prelude::*;

use crate::sampling::{
    lemma_brightest_and_darkest, clamp_bounds_spec, grid_ok, grid_pixels, is_sample_stride, reduce_by_kind, region_stride, sample_cap_met, sample_region_px, BoxedStrategy, Rgb,
    StrategyKind,
};

verus! {

/// How a region's pixels are reduced to one color.
#[derive(Debug, Clone, Copy, PartialEq, Eq, Structural)]
pub enum SamplingStrategy {
    Average,
    Max,
    Min,
}

/// The reduction a mode applies.
pub open spec fn mode_kind(s: SamplingStrategy) -> StrategyKind {
    match s {
        SamplingStrategy::Average => StrategyKind::Average,
        SamplingStrategy::Max => StrategyKind::Max,
        SamplingStrategy::Min => StrategyKind::Min,
    }
}

/// The name a mode is shown under.
pub open spec fn mode_label(s: SamplingStrategy) -> Seq<char> {
    match s {
        SamplingStrategy::Average => "Average"@,
        SamplingStrategy::Max => "Max (brightest)"@,
        SamplingStrategy::Min => "Min (darkest)"@,
    }
}

impl SamplingStrategy {
    /// Every mode, in picker order.
    pub fn all() -> (out: Vec<SamplingStrategy>)
        ensures
            out@ == seq![SamplingStrategy::Average, SamplingStrategy::Max, SamplingStrategy::Min],
    {
        let mut v: Vec<SamplingStrategy> = Vec::new();
        v.push(SamplingStrategy::Average);
        v.push(SamplingStrategy::Max);
        v.push(SamplingStrategy::Min);
        assert(v@ =~= seq![SamplingStrategy::Average, SamplingStrategy::Max, SamplingStrategy::Min]);
        v
    }

    /// The name the mode is shown under.
    pub fn label(&self) -> (s: &'static str)
        ensures
            s@ == mode_label(*self),
    {
        match self {
            SamplingStrategy::Average => "Average",
            SamplingStrategy::Max => "Max (brightest)",
            SamplingStrategy::Min => "Min (darkest)",
        }
    }

    /// The reduction the mode applies.
    pub fn kind(&self) -> (k: StrategyKind)
        ensures
            k == mode_kind(*self),
    {
        match self {
            SamplingStrategy::Average => StrategyKind::Average,
            SamplingStrategy::Max => StrategyKind::Max,
            SamplingStrategy::Min => StrategyKind::Min,
        }
    }
}

impl Default for SamplingStrategy {
    fn default() -> (out: Self)
        ensures
            out == SamplingStrategy::Average,
    {
        SamplingStrategy::Average
    }
}

/// Sample the pixel region `[x0, x1) x [y0, y1)` of a BGRA frame (clamped to
/// the frame) with the given mode, visiting about 1000 pixels (see
/// `is_sample_stride` and `sample_cap_met`); `None` when the clamped region is
/// empty or none of its sampled pixels lies inside `data`.
pub fn sample_region(
    data: &[u8],
    width: u32,
    height: u32,
    x0: u32,
    y0: u32,
    x1: u32,
    y1: u32,
    strategy: SamplingStrategy,
) -> (out: Option<Rgb>)
    requires
        ({
            let c = (
                if x0 < width { x0 } else { width },
                if y0 < height { y0 } else { height },
                if x1 < width { x1 } else { width },
                if y1 < height { y1 } else { height },
            );
            c.0 < c.2 && c.1 < c.3 ==> grid_ok(width as int, c.0 as int, c.1 as int, c.2 as int, c.3 as int, region_stride(c))
        }),
    ensures
        match clamp_bounds_spec(x0, y0, x1, y1, width, height) {
            None => out is None,
            Some(c) => {
                &&& is_sample_stride(c.2 - c.0, c.3 - c.1, region_stride(c))
                &&& sample_cap_met(
                    c.2 - c.0,
                    c.3 - c.1,
                    region_stride(c),
                    grid_pixels(data@, width as int, c.0 as int, c.2 as int, c.1 as int, c.3 as int, region_stride(c)).len() as int,
                )
                &&& out == reduce_by_kind(
                    mode_kind(strategy),
                    grid_pixels(data@, width as int, c.0 as int, c.2 as int, c.1 as int, c.3 as int, region_stride(c)),
                )
            },
        },
{
    let boxed = BoxedStrategy::from_kind(strategy.kind());
    sample_region_px(data, width, height, x0, y0, x1, y1, &boxed)
}

/// In `Max` mode the sampled color is the brightest sampled pixel and in
/// `Min` mode the darkest: it is one of the pixels, and no pixel has a
/// strictly greater (resp. smaller) luminance `299 R + 587 G + 114 B`; with no
/// pixel there is no color.
pub proof fn lemma_max_brightest_min_darkest(pixels: Seq<Rgb>)
    ensures
        ({
            let hi = reduce_by_kind(mode_kind(SamplingStrategy::Max), pixels);
            &&& (pixels.len() == 0 <==> hi is None)
            &&& hi matches Some(c) ==> {
                &&& exists|i: int| 0 <= i < pixels.len() && pixels[i] == c
                &&& forall|j: int| 0 <= j < pixels.len() ==>
                    299 * (#[trigger] pixels[j]).0 + 587 * pixels[j].1 + 114 * pixels[j].2 <= 299 * c.0 + 587 * c.1 + 114 * c.2
            }
        }),
        ({
            let lo = reduce_by_kind(mode_kind(SamplingStrategy::Min), pixels);
            &&& (pixels.len() == 0 <==> lo is None)
            &&& lo matches Some(c) ==> {
                &&& exists|i: int| 0 <= i < pixels.len() && pixels[i] == c
                &&& forall|j: int| 0 <= j < pixels.len() ==>
                    299 * (#[trigger] pixels[j]).0 + 587 * pixels[j].1 + 114 * pixels[j].2 >= 299 * c.0 + 587 * c.1 + 114 * c.2
            }
        }),
{
    lemma_brightest_and_darkest(pixels);
    assert(mode_kind(SamplingStrategy::Max) == StrategyKind::Max || mode_kind(SamplingStrategy::Max) == StrategyKind::Min);
    assert(mode_kind(SamplingStrategy::Min) == StrategyKind::Max || mode_kind(SamplingStrategy::Min) == StrategyKind::Min);
}

} // verus!
