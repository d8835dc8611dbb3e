//! The darkest-pixel strategy.

use vstd::prelude::*;

use super::{sample_extremum, grid_ok, grid_pixels, reduce_by_kind, kind_id, kind_name, kind_supports_gpu, Rgb, SamplingStrategy, StrategyKind};

verus! {

/// Finds the darkest pixel by luminance.
#[derive(Debug, Clone, Copy)]
pub struct Min;

impl SamplingStrategy for Min {
    open spec fn strategy_kind(&self) -> StrategyKind {
        StrategyKind::Min
    }

    fn kind(&self) -> (k: StrategyKind) {
        StrategyKind::Min
    }

    fn id(&self) -> (s: &'static str) {
        "min"
    }

    fn name(&self) -> (s: &'static str) {
        "Min (darkest)"
    }

    fn supports_gpu(&self) -> (b: bool) {
        false
    }

    fn sample(&self, data: &[u8], width: u32, x0: u32, y0: u32, x1: u32, y1: u32, stride: u32) -> (out: Option<Rgb>) {
        sample_extremum::<false>(data, width, x0, y0, x1, y1, stride)
    }
}

} // verus!
