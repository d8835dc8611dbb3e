//! The averaging strategy: per-channel mean of the sampled pixels.

use vstd::prelude::*;

use super::{average_of_pixels, sampled_pixels, grid_ok, grid_pixels, reduce_by_kind, kind_id, kind_name, kind_supports_gpu, Rgb, SamplingStrategy, StrategyKind};

verus! {

/// Computes the mean R, G, B across sampled pixels.
#[derive(Debug, Clone, Copy)]
pub struct Average;

impl SamplingStrategy for Average {
    open spec fn strategy_kind(&self) -> StrategyKind {
        StrategyKind::Average
    }

    fn kind(&self) -> (k: StrategyKind) {
        StrategyKind::Average
    }

    fn id(&self) -> (s: &'static str) {
        "average"
    }

    fn name(&self) -> (s: &'static str) {
        "Average"
    }

    fn supports_gpu(&self) -> (b: bool) {
        true
    }

    fn sample(&self, data: &[u8], width: u32, x0: u32, y0: u32, x1: u32, y1: u32, stride: u32) -> (out: Option<Rgb>) {
        let pixels = sampled_pixels(data, width, x0, y0, x1, y1, stride);
        average_of_pixels(&pixels)
    }
}

} // verus!
