//! CPU-side pieces of GPU sampling: readback layouts, buffer strides and the
//! split of regions between GPU pipelines and the CPU fallback.

use vstd::prelude::*;

use super::palette::{extract_dominant_from_histogram, histogram_totals};
use super::{
    clamp_bounds_spec, dominant_of, grid_ok, grid_pixels, kind_supports_gpu, reduce_by_kind, region_stride,
    sample_region_px, BoxedStrategy, Rgb, StrategyKind,
};

verus! {

/// Histogram bin for palette quantization readback (512 bins, non-atomic CPU side).
#[derive(Debug, Clone, Copy, Default, PartialEq, Eq)]
pub struct HistogramBin {
    pub r_sum: u32,
    pub g_sum: u32,
    pub b_sum: u32,
    pub count: u32,
}

/// Number of bins in a palette histogram readback.
pub const PALETTE_BINS: usize = 512;

/// Per-region sums read back from the averaging pipeline.
#[derive(Debug, Clone, Copy, Default, PartialEq, Eq, Structural)]
pub struct GpuResult {
    pub r_sum: u32,
    pub g_sum: u32,
    pub b_sum: u32,
    pub count: u32,
}

/// Clamped pixel bounds of one region, as handed to the compute shaders.
#[derive(Debug, Clone, Copy, Default, PartialEq, Eq, Structural)]
pub struct GpuParams {
    pub x0: u32,
    pub y0: u32,
    pub x1: u32,
    pub y1: u32,
}

/// `(params slot, result slot, region index)` of a GPU-sampled region.
pub type SlotAssignment = (usize, usize, usize);

/// A slot whose region has a non-empty clamped area, with that area.
pub type ValidSlot = (usize, usize, usize, GpuParams);

/// Errors of the GPU sampler.
#[derive(Debug, Clone, PartialEq, Eq)]
pub enum GpuSamplerError {
    ImportFailed(String),
    MapFailed,
}

impl GpuSamplerError {
    /// Human-readable description of the error.
    pub fn message(&self) -> (s: String)
        ensures
            s@ == match *self {
                GpuSamplerError::ImportFailed(msg) => "frame import failed: "@ + msg@,
                GpuSamplerError::MapFailed => "buffer mapping failed"@,
            },
    {
        match self {
            GpuSamplerError::ImportFailed(msg) => {
                let mut s = String::from_str("frame import failed: ");
                s.append(msg.as_str());
                s
            },
            GpuSamplerError::MapFailed => String::from_str("buffer mapping failed"),
        }
    }
}

/// Round `size` up to the next multiple of `alignment`.
pub fn aligned_stride(size: usize, alignment: u32) -> (out: usize)
    requires
        alignment > 0,
        size + alignment <= usize::MAX,
    ensures
        out == (size + alignment - 1) / (alignment as int) * alignment,
        out >= size,
        out < size + alignment,
        (out as int) % (alignment as int) == 0,
{
    let align = alignment as usize;
    let q = (size + align - 1) / align;
    assert(q * align <= size + align - 1) by (nonlinear_arith)
        requires q == (size + align - 1) / (align as int), align > 0, size + align - 1 >= 0;
    assert(q * align >= size && q * align < size + align && (q * align) % (align as int) == 0) by (nonlinear_arith)
        requires q == (size + align - 1) / (align as int), align > 0, size >= 0;
    q * align
}

/// Split regions between the GPU pipelines and the CPU fallback, region by
/// region: a region whose strategy has no GPU support goes to the CPU list; a
/// GPU region takes the next params slot, and the next result slot of the
/// palette pipeline (palette strategy) or of the averaging pipeline.
pub open spec fn classify_spec(kinds: Seq<StrategyKind>) -> (Seq<SlotAssignment>, Seq<SlotAssignment>, Seq<usize>, int)
    decreases kinds.len(),
{
    if kinds.len() == 0 {
        (Seq::empty(), Seq::empty(), Seq::empty(), 0)
    } else {
        let (avg, pal, cpu, gpu) = classify_spec(kinds.drop_last());
        let i = (kinds.len() - 1) as usize;
        let k = kinds.last();
        if !kind_supports_gpu(k) {
            (avg, pal, cpu.push(i), gpu)
        } else if k == StrategyKind::Palette {
            (avg, pal.push((gpu as usize, pal.len() as usize, i)), cpu, gpu + 1)
        } else {
            (avg.push((gpu as usize, avg.len() as usize, i)), pal, cpu, gpu + 1)
        }
    }
}

/// The regions' strategies, in region order.
pub open spec fn strategy_kinds(strategies: Seq<BoxedStrategy>) -> Seq<StrategyKind> {
    Seq::new(strategies.len(), |i: int| strategies[i]@)
}

/// Classification of regions into GPU strategy groups and CPU fallback.
pub struct ClassifiedRegions {
    pub avg_slots: Vec<SlotAssignment>,
    pub palette_slots: Vec<SlotAssignment>,
    pub cpu_indices: Vec<usize>,
    pub gpu_count: usize,
}

/// Every region lands in exactly one of the three lists, and the GPU regions
/// number `gpu_count`, each with its own params slot.
pub proof fn lemma_classify_counts(kinds: Seq<StrategyKind>)
    requires
        kinds.len() <= usize::MAX,
    ensures
        ({
            let (avg, pal, cpu, gpu) = classify_spec(kinds);
            &&& avg.len() + pal.len() + cpu.len() == kinds.len()
            &&& gpu == avg.len() + pal.len()
            &&& forall|j: int| 0 <= j < avg.len() ==> (#[trigger] avg[j]).1 == j
            &&& forall|j: int| 0 <= j < pal.len() ==> (#[trigger] pal[j]).1 == j
        }),
    decreases kinds.len(),
{
    if kinds.len() > 0 {
        lemma_classify_counts(kinds.drop_last());
    }
}

/// Sort regions (given by their strategies) into averaging slots, palette
/// slots and CPU fallback indices.
pub fn classify_regions(strategies: &[BoxedStrategy]) -> (out: ClassifiedRegions)
    ensures
        ({
            let (avg, pal, cpu, gpu) = classify_spec(strategy_kinds(strategies@));
            &&& out.avg_slots@ == avg
            &&& out.palette_slots@ == pal
            &&& out.cpu_indices@ == cpu
            &&& out.gpu_count == gpu
        }),
{
    let mut avg_slots: Vec<SlotAssignment> = Vec::new();
    let mut palette_slots: Vec<SlotAssignment> = Vec::new();
    let mut cpu_indices: Vec<usize> = Vec::new();
    let mut gpu_slot: usize = 0;
    let mut i: usize = 0;
    while i < strategies.len()
        invariant
            i <= strategies@.len(),
            gpu_slot <= i,
            ({
                let (avg, pal, cpu, gpu) = classify_spec(strategy_kinds(strategies@).take(i as int));
                &&& avg_slots@ == avg
                &&& palette_slots@ == pal
                &&& cpu_indices@ == cpu
                &&& gpu_slot == gpu
            }),
        decreases strategies@.len() - i,
    {
        proof {
            let ks = strategy_kinds(strategies@);
            assert(ks.take(i + 1).drop_last() =~= ks.take(i as int));
            assert(ks.take(i + 1).last() == strategies@[i as int]@);
            lemma_classify_counts(ks.take(i as int));
        }
        let strategy = strategies[i];
        if !strategy.supports_gpu() {
            cpu_indices.push(i);
        } else {
            let ps = gpu_slot;
            gpu_slot = gpu_slot + 1;
            if strategy.kind() == StrategyKind::Palette {
                let rs = palette_slots.len();
                palette_slots.push((ps, rs, i));
            } else {
                let rs = avg_slots.len();
                avg_slots.push((ps, rs, i));
            }
        }
        i = i + 1;
    }
    assert(strategy_kinds(strategies@).take(i as int) =~= strategy_kinds(strategies@));
    ClassifiedRegions { avg_slots, palette_slots, cpu_indices, gpu_count: gpu_slot }
}

/// The slots whose regions have clamped bounds (`Some`), in slot order, each
/// with its bounds.
pub open spec fn valid_slots_spec(slots: Seq<SlotAssignment>, bounds: Seq<Option<GpuParams>>) -> Seq<ValidSlot>
    decreases slots.len(),
{
    if slots.len() == 0 {
        Seq::empty()
    } else {
        let prev = valid_slots_spec(slots.drop_last(), bounds);
        let (ps, rs, ri) = slots.last();
        match bounds[ri as int] {
            Some(p) => prev.push((ps, rs, ri, p)),
            None => prev,
        }
    }
}

/// Keep the slots whose region has a non-empty clamped area (`bounds[ri]` is
/// `Some`), pairing each with its bounds.
pub fn build_valid_slots(slots: &[SlotAssignment], bounds: &[Option<GpuParams>]) -> (out: Vec<ValidSlot>)
    requires
        forall|j: int| 0 <= j < slots@.len() ==> (#[trigger] slots@[j]).2 < bounds@.len(),
    ensures
        out@ == valid_slots_spec(slots@, bounds@),
{
    let mut out: Vec<ValidSlot> = Vec::new();
    let mut i: usize = 0;
    while i < slots.len()
        invariant
            i <= slots@.len(),
            forall|j: int| 0 <= j < slots@.len() ==> (#[trigger] slots@[j]).2 < bounds@.len(),
            out@ == valid_slots_spec(slots@.take(i as int), bounds@),
        decreases slots@.len() - i,
    {
        proof {
            assert(slots@.take(i + 1).drop_last() =~= slots@.take(i as int));
            assert(slots@.take(i + 1).last() == slots@[i as int]);
        }
        let (ps, rs, ri) = slots[i];
        assert(ri < bounds@.len());
        if let Some(p) = bounds[ri] {
            out.push((ps, rs, ri, p));
        }
        i = i + 1;
    }
    assert(slots@.take(i as int) =~= slots@);
    out
}

/// Compute workgroups (16 x 16 pixels each) covering a region.
pub fn workgroup_counts(p: GpuParams) -> (out: (u32, u32))
    requires
        p.x0 <= p.x1,
        p.y0 <= p.y1,
    ensures
        out.0 == (p.x1 - p.x0 + 15) / 16,
        out.1 == (p.y1 - p.y0 + 15) / 16,
{
    let w = p.x1 - p.x0;
    let h = p.y1 - p.y0;
    let wx = w / 16 + if w % 16 != 0 { 1 } else { 0 };
    let wy = h / 16 + if h % 16 != 0 { 1 } else { 0 };
    (wx, wy)
}

/// The mean color of an averaging readback (each mean truncated to a byte);
/// `None` when no pixel was counted.
pub open spec fn average_readback(r: GpuResult) -> Option<Rgb> {
    if r.count == 0 {
        None
    } else {
        Some(((r.r_sum / r.count) as u8, (r.g_sum / r.count) as u8, (r.b_sum / r.count) as u8))
    }
}

/// Decode one averaging readback.
pub fn decode_average(r: GpuResult) -> (out: Option<Rgb>)
    ensures
        out == average_readback(r),
{
    if r.count > 0 {
        Some(((r.r_sum / r.count) as u8, (r.g_sum / r.count) as u8, (r.b_sum / r.count) as u8))
    } else {
        None
    }
}

/// Store the averaging readbacks of the valid slots into the per-region
/// results, slot by slot; a readback that counted no pixel leaves the region
/// as it was.
pub open spec fn apply_average_spec(results: Seq<Option<Rgb>>, valid: Seq<ValidSlot>, readback: Seq<GpuResult>) -> Seq<Option<Rgb>>
    decreases valid.len(),
{
    if valid.len() == 0 {
        results
    } else {
        let prev = apply_average_spec(results, valid.drop_last(), readback);
        let (_, rs, ri, _) = valid.last();
        match average_readback(readback[rs as int]) {
            Some(c) => prev.update(ri as int, Some(c)),
            None => prev,
        }
    }
}

/// Store the palette readbacks of the valid slots into the per-region
/// results: slot `rs` owns histogram bins `rs * 512 .. rs * 512 + 512`.
pub open spec fn apply_palette_spec(results: Seq<Option<Rgb>>, valid: Seq<ValidSlot>, bins: Seq<HistogramBin>) -> Seq<Option<Rgb>>
    decreases valid.len(),
{
    if valid.len() == 0 {
        results
    } else {
        let prev = apply_palette_spec(results, valid.drop_last(), bins);
        let (_, rs, ri, _) = valid.last();
        let start = rs * 512;
        prev.update(ri as int, dominant_of(histogram_totals(bins.subrange(start, start + 512))))
    }
}

/// Apply the averaging readbacks to the per-region results.
pub fn apply_average_readback(results: &mut Vec<Option<Rgb>>, valid: &[ValidSlot], readback: &[GpuResult])
    requires
        forall|j: int| 0 <= j < valid@.len() ==> (#[trigger] valid@[j]).2 < old(results)@.len() && valid@[j].1 < readback@.len(),
    ensures
        final(results)@ == apply_average_spec(old(results)@, valid@, readback@),
{
    let ghost start = results@;
    let mut i: usize = 0;
    while i < valid.len()
        invariant
            i <= valid@.len(),
            results@.len() == start.len(),
            forall|j: int| 0 <= j < valid@.len() ==> (#[trigger] valid@[j]).2 < start.len() && valid@[j].1 < readback@.len(),
            results@ == apply_average_spec(start, valid@.take(i as int), readback@),
        decreases valid@.len() - i,
    {
        proof {
            assert(valid@.take(i + 1).drop_last() =~= valid@.take(i as int));
            assert(valid@.take(i + 1).last() == valid@[i as int]);
        }
        let (_, rs, ri, _) = valid[i];
        assert(ri < start.len() && rs < readback@.len());
        if let Some(c) = decode_average(readback[rs]) {
            results.set(ri, Some(c));
        }
        i = i + 1;
    }
    assert(valid@.take(i as int) =~= valid@);
}

/// Apply the palette readbacks to the per-region results.
pub fn apply_palette_readback(results: &mut Vec<Option<Rgb>>, valid: &[ValidSlot], bins: &[HistogramBin])
    requires
        forall|j: int| 0 <= j < valid@.len() ==> (#[trigger] valid@[j]).2 < old(results)@.len() && valid@[j].1 * 512 + 512 <= bins@.len(),
    ensures
        final(results)@ == apply_palette_spec(old(results)@, valid@, bins@),
{
    let ghost start = results@;
    let nb = bins.len();
    let mut i: usize = 0;
    while i < valid.len()
        invariant
            nb == bins@.len(),
            i <= valid@.len(),
            results@.len() == start.len(),
            forall|j: int| 0 <= j < valid@.len() ==> (#[trigger] valid@[j]).2 < start.len() && valid@[j].1 * 512 + 512 <= bins@.len(),
            results@ == apply_palette_spec(start, valid@.take(i as int), bins@),
        decreases valid@.len() - i,
    {
        proof {
            assert(valid@.take(i + 1).drop_last() =~= valid@.take(i as int));
            assert(valid@.take(i + 1).last() == valid@[i as int]);
        }
        let (_, rs, ri, _) = valid[i];
        assert(ri < start.len() && rs * 512 + 512 <= bins@.len());
        let lo = rs * 512;
        let slot_bins = slice_range(bins, lo, lo + 512);
        let color = extract_dominant_from_histogram(slot_bins);
        results.set(ri, color);
        i = i + 1;
    }
    assert(valid@.take(i as int) =~= valid@);
}

/// The sub-slice `s[lo..hi]`.
fn slice_range<T>(s: &[T], lo: usize, hi: usize) -> (out: &[T])
    requires
        lo <= hi <= s@.len(),
    ensures
        out@ == s@.subrange(lo as int, hi as int),
{
    &s[lo..hi]
}

/// Pair each region id with its result, in region order.
pub fn pair_region_colors(region_ids: &[usize], results: &[Option<Rgb>]) -> (out: Vec<(usize, Option<Rgb>)>)
    requires
        region_ids@.len() == results@.len(),
    ensures
        out@.len() == region_ids@.len(),
        forall|i: int| 0 <= i < region_ids@.len() ==> #[trigger] out@[i] == (region_ids@[i], results@[i]),
{
    let mut out: Vec<(usize, Option<Rgb>)> = Vec::new();
    let mut i: usize = 0;
    while i < region_ids.len()
        invariant
            i <= region_ids@.len(),
            region_ids@.len() == results@.len(),
            out@.len() == i,
            forall|k: int| 0 <= k < i ==> #[trigger] out@[k] == (region_ids@[k], results@[k]),
        decreases region_ids@.len() - i,
    {
        out.push((region_ids[i], results[i]));
        i = i + 1;
    }
    out
}

/// Sizes of a result buffer and its readback twin: one slot per region of
/// `stride` bytes, room for `capacity` slots.
#[derive(Debug, Clone, Copy, PartialEq, Eq, Structural)]
pub struct ResultLayout {
    pub stride: usize,
    pub capacity: usize,
}

impl ResultLayout {
    /// Slots of `elem_size` bytes aligned to `alignment`, room for one.
    pub fn new(elem_size: usize, alignment: u32) -> (out: Self)
        requires
            alignment > 0,
            elem_size + alignment <= usize::MAX,
        ensures
            out.stride == (elem_size + alignment - 1) / (alignment as int) * alignment,
            out.capacity == 1,
    {
        ResultLayout { stride: aligned_stride(elem_size, alignment), capacity: 1 }
    }

    /// Make room for `count` slots. Returns `true` when the buffers must be
    /// reallocated with `stride * count` bytes (`count` is nonzero and above
    /// the capacity, which becomes `count`); otherwise nothing changes.
    pub fn ensure_capacity(&mut self, count: usize) -> (grow: bool)
        ensures
            grow == (count != 0 && count > old(self).capacity),
            final(self).stride == old(self).stride,
            final(self).capacity == if grow { count } else { old(self).capacity },
    {
        if count == 0 || count <= self.capacity {
            return false;
        }
        self.capacity = count;
        true
    }

    /// Bytes used by `slot_count` slots.
    pub fn total_bytes(&self, slot_count: usize) -> (out: u64)
        requires
            self.stride * slot_count <= u64::MAX,
            self.stride * slot_count <= usize::MAX,
        ensures
            out == self.stride * slot_count,
    {
        (self.stride * slot_count) as u64
    }
}

/// What a failed GPU pass reports: every region without a color.
pub fn no_colors(region_ids: &[usize]) -> (out: Vec<(usize, Option<Rgb>)>)
    ensures
        out@.len() == region_ids@.len(),
        forall|i: int| 0 <= i < region_ids@.len() ==> #[trigger] out@[i] == (region_ids@[i], None::<Rgb>),
{
    let mut out: Vec<(usize, Option<Rgb>)> = Vec::new();
    let mut i: usize = 0;
    while i < region_ids.len()
        invariant
            i <= region_ids@.len(),
            out@.len() == i,
            forall|k: int| 0 <= k < i ==> #[trigger] out@[k] == (region_ids@[k], None::<Rgb>),
        decreases region_ids@.len() - i,
    {
        out.push((region_ids[i], None));
        i = i + 1;
    }
    out
}

/// Whether a region of this strategy goes to the given GPU pipeline (the
/// palette one when `palette`, the averaging one otherwise).
pub open spec fn in_gpu_group(kind: StrategyKind, palette: bool) -> bool {
    kind_supports_gpu(kind) && ((kind == StrategyKind::Palette) == palette)
}

/// How many of the regions go to the given GPU pipeline; for a prefix of the
/// regions, the result slot of the next region of that pipeline.
pub open spec fn group_count(kinds: Seq<StrategyKind>, palette: bool) -> nat
    decreases kinds.len(),
{
    if kinds.len() == 0 {
        0
    } else {
        group_count(kinds.drop_last(), palette) + if in_gpu_group(kinds.last(), palette) { 1nat } else { 0nat }
    }
}

proof fn lemma_group_count_prefix(kinds: Seq<StrategyKind>, i: int, palette: bool)
    requires
        0 <= i <= kinds.len(),
    ensures
        group_count(kinds.take(i), palette) <= group_count(kinds, palette),
    decreases kinds.len(),
{
    if i < kinds.len() {
        assert(kinds.drop_last().take(i) =~= kinds.take(i));
        lemma_group_count_prefix(kinds.drop_last(), i, palette);
    } else {
        assert(kinds.take(i) =~= kinds);
    }
}

/// The clamped bounds under which CPU sampling of these bounds meets its
/// machine limits.
pub open spec fn cpu_bounds_ok(width: u32, height: u32, p: GpuParams) -> bool {
    match clamp_bounds_spec(p.x0, p.y0, p.x1, p.y1, width, height) {
        None => true,
        Some(c) => grid_ok(width as int, c.0 as int, c.1 as int, c.2 as int, c.3 as int, region_stride(c)),
    }
}

/// What CPU sampling gives for a region with pixel bounds `p`.
pub open spec fn cpu_region_color(data: Seq<u8>, width: u32, height: u32, kind: StrategyKind, p: GpuParams) -> Option<Rgb> {
    match clamp_bounds_spec(p.x0, p.y0, p.x1, p.y1, width, height) {
        None => None,
        Some(c) => reduce_by_kind(
            kind,
            grid_pixels(data, width as int, c.0 as int, c.2 as int, c.1 as int, c.3 as int, region_stride(c)),
        ),
    }
}

/// The color of region `i` in a GPU sampling pass: `None` when its clamped
/// area is empty; for a strategy without GPU support, CPU sampling of the CPU
/// frame (`None` when there is none); for the palette pipeline, the dominant
/// color of its 512 histogram bins; for the averaging pipeline, the mean of
/// its readback. GPU regions take result slots in region order, per pipeline.
pub open spec fn region_color_spec(
    kinds: Seq<StrategyKind>,
    i: int,
    bounds: Seq<Option<GpuParams>>,
    readback: Seq<GpuResult>,
    bins: Seq<HistogramBin>,
    cpu: Option<Seq<u8>>,
    width: u32,
    height: u32,
) -> Option<Rgb> {
    let k = kinds[i];
    match bounds[i] {
        None => None,
        Some(p) => if !kind_supports_gpu(k) {
            match cpu {
                None => None,
                Some(d) => cpu_region_color(d, width, height, k, p),
            }
        } else if k == StrategyKind::Palette {
            let r = group_count(kinds.take(i), true) as int;
            dominant_of(histogram_totals(bins.subrange(r * 512, r * 512 + 512)))
        } else {
            average_readback(readback[group_count(kinds.take(i), false) as int])
        },
    }
}

/// The `(region id, color)` result of a GPU sampling pass, one entry per
/// region in region order, from the averaging readbacks, the palette
/// histograms and, for strategies without GPU support, CPU sampling of the
/// frame's CPU pixels (`cpu`; `None` when the frame has none).
pub fn region_colors(
    region_ids: &[usize],
    strategies: &[BoxedStrategy],
    bounds: &[Option<GpuParams>],
    readback: &[GpuResult],
    bins: &[HistogramBin],
    cpu: Option<&[u8]>,
    width: u32,
    height: u32,
) -> (out: Vec<(usize, Option<Rgb>)>)
    requires
        region_ids@.len() == strategies@.len(),
        bounds@.len() == strategies@.len(),
        readback@.len() >= group_count(strategy_kinds(strategies@), false),
        bins@.len() >= 512 * group_count(strategy_kinds(strategies@), true),
        forall|i: int|
            0 <= i < strategies@.len() && !kind_supports_gpu(#[trigger] strategies@[i]@) && bounds@[i] is Some
                ==> cpu_bounds_ok(width, height, bounds@[i]->0),
    ensures
        out@.len() == region_ids@.len(),
        forall|i: int|
            0 <= i < region_ids@.len() ==> #[trigger] out@[i] == (
                region_ids@[i],
                region_color_spec(
                    strategy_kinds(strategies@),
                    i,
                    bounds@,
                    readback@,
                    bins@,
                    match cpu { Some(d) => Some(d@), None => None },
                    width,
                    height,
                ),
            ),
{
    let ghost kinds = strategy_kinds(strategies@);
    let ghost cpu_view: Option<Seq<u8>> = match cpu { Some(d) => Some(d@), None => None };
    let mut out: Vec<(usize, Option<Rgb>)> = Vec::new();
    let nb = bins.len();
    let nr = readback.len();
    let mut n_avg: usize = 0;
    let mut n_pal: usize = 0;
    let mut i: usize = 0;
    while i < strategies.len()
        invariant
            nb == bins@.len(),
            nr == readback@.len(),
            kinds == strategy_kinds(strategies@),
            cpu_view == (match cpu { Some(d) => Some(d@), None => None::<Seq<u8>> }),
            region_ids@.len() == strategies@.len(),
            bounds@.len() == strategies@.len(),
            readback@.len() >= group_count(kinds, false),
            bins@.len() >= 512 * group_count(kinds, true),
            forall|j: int|
                0 <= j < strategies@.len() && !kind_supports_gpu(#[trigger] strategies@[j]@) && bounds@[j] is Some
                    ==> cpu_bounds_ok(width, height, bounds@[j]->0),
            i <= strategies@.len(),
            n_avg == group_count(kinds.take(i as int), false),
            n_pal == group_count(kinds.take(i as int), true),
            out@.len() == i,
            forall|j: int| 0 <= j < i ==> #[trigger] out@[j] == (
                region_ids@[j],
                region_color_spec(kinds, j, bounds@, readback@, bins@, cpu_view, width, height),
            ),
        decreases strategies@.len() - i,
    {
        let strategy = strategies[i];
        proof {
            assert(kinds.take(i + 1).drop_last() =~= kinds.take(i as int));
            assert(kinds.take(i + 1).last() == strategy@);
            lemma_group_count_prefix(kinds, i + 1, false);
            lemma_group_count_prefix(kinds, i + 1, true);
        }
        let gpu = strategy.supports_gpu();
        let palette = strategy.kind() == StrategyKind::Palette;
        proof {
            if gpu && palette {
                assert(group_count(kinds.take(i + 1), true) == n_pal + 1);
            }
            if gpu && !palette {
                assert(group_count(kinds.take(i + 1), false) == n_avg + 1);
            }
        }
        let color: Option<Rgb> = match bounds[i] {
            None => None,
            Some(p) => {
                if !gpu {
                    match cpu {
                        None => None,
                        Some(d) => sample_region_px(d, width, height, p.x0, p.y0, p.x1, p.y1, &strategy),
                    }
                } else if palette {
                    proof {
                        assert(n_pal + 1 <= group_count(kinds, true));
                        assert((n_pal + 1) * 512 <= 512 * group_count(kinds, true)) by (nonlinear_arith)
                            requires n_pal + 1 <= group_count(kinds, true);
                        assert(n_pal * 512 + 512 <= bins@.len());
                    }
                    let lo = n_pal * 512;
                    let slot_bins = slice_range(bins, lo, lo + 512);
                    extract_dominant_from_histogram(slot_bins)
                } else {
                    decode_average(readback[n_avg])
                }
            },
        };
        out.push((region_ids[i], color));
        if gpu {
            if palette {
                n_pal = n_pal + 1;
            } else {
                n_avg = n_avg + 1;
            }
        }
        proof {
            assert forall|j: int| 0 <= j < i + 1 implies #[trigger] out@[j] == (
                region_ids@[j],
                region_color_spec(kinds, j, bounds@, readback@, bins@, cpu_view, width, height),
            ) by {}
        }
        i = i + 1;
    }
    out
}

/// The result slots `classify_regions` hands out are the ones `region_colors`
/// reads: the `j`-th region of a pipeline is a region of that pipeline with
/// `j` regions of the same pipeline before it.
pub proof fn lemma_classify_slots(kinds: Seq<StrategyKind>)
    requires
        kinds.len() <= usize::MAX,
    ensures
        ({
            let (avg, pal, cpu, gpu) = classify_spec(kinds);
            &&& avg.len() == group_count(kinds, false)
            &&& pal.len() == group_count(kinds, true)
            &&& forall|j: int| 0 <= j < avg.len() ==> {
                &&& (#[trigger] avg[j]).2 < kinds.len()
                &&& avg[j].1 == j
                &&& in_gpu_group(kinds[avg[j].2 as int], false)
                &&& group_count(kinds.take(avg[j].2 as int), false) == j
            }
            &&& forall|j: int| 0 <= j < pal.len() ==> {
                &&& (#[trigger] pal[j]).2 < kinds.len()
                &&& pal[j].1 == j
                &&& in_gpu_group(kinds[pal[j].2 as int], true)
                &&& group_count(kinds.take(pal[j].2 as int), true) == j
            }
        }),
    decreases kinds.len(),
{
    if kinds.len() > 0 {
        let init = kinds.drop_last();
        lemma_classify_slots(init);
        lemma_classify_counts(init);
        let (avg0, pal0, cpu0, gpu0) = classify_spec(init);
        let (avg, pal, cpu, gpu) = classify_spec(kinds);
        let n = kinds.len() - 1;
        assert(kinds.take(n) =~= init);
        assert forall|j: int| 0 <= j < avg0.len() implies #[trigger] kinds.take(avg0[j].2 as int) == init.take(avg0[j].2 as int) by {
            assert(kinds.take(avg0[j].2 as int) =~= init.take(avg0[j].2 as int));
        }
        assert forall|j: int| 0 <= j < pal0.len() implies #[trigger] kinds.take(pal0[j].2 as int) == init.take(pal0[j].2 as int) by {
            assert(kinds.take(pal0[j].2 as int) =~= init.take(pal0[j].2 as int));
        }
        assert forall|j: int| 0 <= j < avg0.len() implies kinds[(#[trigger] avg0[j]).2 as int] == init[avg0[j].2 as int] by {}
        assert forall|j: int| 0 <= j < pal0.len() implies kinds[(#[trigger] pal0[j]).2 as int] == init[pal0[j].2 as int] by {}
        assert forall|j: int| 0 <= j < avg.len() implies {
            &&& (#[trigger] avg[j]).2 < kinds.len()
            &&& avg[j].1 == j
            &&& in_gpu_group(kinds[avg[j].2 as int], false)
            &&& group_count(kinds.take(avg[j].2 as int), false) == j
        } by {
            if j < avg0.len() {
                assert(avg[j] == avg0[j]);
            } else {
                assert(in_gpu_group(kinds.last(), false));
                assert(avg[j] == (gpu0 as usize, avg0.len() as usize, n as usize));
                assert(kinds[n] == kinds.last());
            }
        }
        assert forall|j: int| 0 <= j < pal.len() implies {
            &&& (#[trigger] pal[j]).2 < kinds.len()
            &&& pal[j].1 == j
            &&& in_gpu_group(kinds[pal[j].2 as int], true)
            &&& group_count(kinds.take(pal[j].2 as int), true) == j
        } by {
            if j < pal0.len() {
                assert(pal[j] == pal0[j]);
            } else {
                assert(in_gpu_group(kinds.last(), true));
                assert(pal[j] == (gpu0 as usize, pal0.len() as usize, n as usize));
                assert(kinds[n] == kinds.last());
            }
        }
    }
}

} // verus!
