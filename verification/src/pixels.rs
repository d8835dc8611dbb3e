//! Pixel-buffer conversions: removing row padding, swapping BGRA to RGBA,
//! and normalizing mapped DMA-BUF rows to tightly packed 4-byte pixels.

use vstd::prelude::*;

verus! {

/// Where row `row` starts in a buffer whose rows are `bytes_per_row` apart.
pub open spec fn row_start(row: int, bytes_per_row: int) -> int {
    row * bytes_per_row
}

/// Reading rows one after the other never overflows `usize`: whenever a row
/// starts inside `src` and another row follows, that next row's start fits.
pub open spec fn row_starts_fit(src_len: int, height: int, bytes_per_row: int) -> bool {
    forall|row: int|
        0 <= row && row + 1 < height && #[trigger] row_start(row, bytes_per_row) < src_len
            ==> row_start(row + 1, bytes_per_row) <= usize::MAX
}

/// Byte `col` of row `row` of a padded image, or 0 once past the end of `src`.
pub open spec fn padded_byte(src: Seq<u8>, bytes_per_row: int, row: int, col: int) -> u8 {
    if row * bytes_per_row + col < src.len() {
        src[row * bytes_per_row + col]
    } else {
        0
    }
}

proof fn lemma_cell_before_row(rr: int, cc: int, row: int, width: int)
    requires
        0 <= rr < row,
        0 <= cc < width,
    ensures
        rr * width + cc < row * width,
        rr * width + cc >= 0,
{
    assert(rr * width + cc < row * width) by (nonlinear_arith)
        requires 0 <= rr < row, 0 <= cc < width;
    assert(rr * width >= 0) by (nonlinear_arith)
        requires 0 <= rr, 0 <= width;
}

proof fn lemma_row_start_monotone(a: int, b: int, bytes_per_row: int)
    requires
        0 <= a <= b,
        bytes_per_row >= 0,
    ensures
        row_start(a, bytes_per_row) <= row_start(b, bytes_per_row),
{
    assert(a * bytes_per_row <= b * bytes_per_row) by (nonlinear_arith)
        requires 0 <= a <= b, bytes_per_row >= 0;
}

/// Copy BGRA pixel data, stripping row padding if present.
///
/// When rows are already tightly packed (`bytes_per_row == width * 4`), the
/// result is the first `width * 4 * height` bytes of `src` (fewer if `src` is
/// shorter). Otherwise the result is `width * 4 * height` bytes, row `r`
/// holding the bytes of `src` from `r * bytes_per_row` on, zero-filled past
/// the end of `src`.
pub fn strip_stride_padding(src: &[u8], width: usize, height: usize, bytes_per_row: usize) -> (out: Vec<u8>)
    requires
        width * 4 <= usize::MAX,
        width * 4 * height <= usize::MAX,
        row_starts_fit(src@.len() as int, height as int, bytes_per_row as int),
    ensures
        bytes_per_row == width * 4 ==> out@ == src@.subrange(
            0,
            if width * 4 * height < src@.len() { width * 4 * height } else { src@.len() as int },
        ),
        bytes_per_row != width * 4 ==> {
            &&& out@.len() == width * 4 * height
            &&& forall|row: int, col: int|
                0 <= row < height && 0 <= col < width * 4 ==> out@[row * (width * 4) + col]
                    == #[trigger] padded_byte(src@, bytes_per_row as int, row, col)
        },
{
    let stride = width * 4;
    assert(stride * height <= usize::MAX) by (nonlinear_arith)
        requires stride == width * 4, width * 4 * height <= usize::MAX;
    if bytes_per_row == stride {
        let total = stride * height;
        let end = if total < src.len() { total } else { src.len() };
        let mut out: Vec<u8> = Vec::new();
        let mut i: usize = 0;
        while i < end
            invariant
                end <= src@.len(),
                i <= end,
                out@ == src@.subrange(0, i as int),
            decreases end - i,
        {
            out.push(src[i]);
            i = i + 1;
            assert(out@ =~= src@.subrange(0, i as int));
        }
        return out;
    }
    copy_padded_rows(src, stride, height, bytes_per_row)
}

/// Append row `row` of the padded image: `stride` bytes taken from `src` at
/// `start` while inside `src`, zeros after.
fn push_padded_row(
    out: &mut Vec<u8>,
    src: &[u8],
    start: usize,
    in_range: bool,
    stride: usize,
    Ghost(row): Ghost<int>,
    Ghost(bpr): Ghost<int>,
)
    requires
        old(out)@.len() + stride <= usize::MAX,
        in_range ==> start == row_start(row, bpr) && start < src@.len(),
        !in_range ==> row_start(row, bpr) >= src@.len(),
    ensures
        final(out)@ == old(out)@ + Seq::new(stride as nat, |cc: int| padded_byte(src@, bpr, row, cc)),
{
    let ghost before = out@;
    let mut col: usize = 0;
    while col < stride
        invariant
            col <= stride,
            before.len() + stride <= usize::MAX,
            in_range ==> start == row_start(row, bpr) && start < src@.len(),
            !in_range ==> row_start(row, bpr) >= src@.len(),
            out@ == before + Seq::new(col as nat, |cc: int| padded_byte(src@, bpr, row, cc)),
        decreases stride - col,
    {
        let byte: u8 = if in_range && col < src.len() - start { src[start + col] } else { 0 };
        assert(byte == padded_byte(src@, bpr, row, col as int));
        out.push(byte);
        col = col + 1;
        assert(out@ =~= before + Seq::new(col as nat, |cc: int| padded_byte(src@, bpr, row, cc)));
    }
}

/// All `height` rows of the padded image, each `stride` bytes.
fn copy_padded_rows(src: &[u8], stride: usize, height: usize, bytes_per_row: usize) -> (out: Vec<u8>)
    requires
        stride * height <= usize::MAX,
        row_starts_fit(src@.len() as int, height as int, bytes_per_row as int),
    ensures
        out@.len() == stride * height,
        forall|row: int, col: int|
            0 <= row < height && 0 <= col < stride ==> out@[row * stride + col]
                == #[trigger] padded_byte(src@, bytes_per_row as int, row, col),
{
    let ghost s = stride as int;
    let ghost bpr = bytes_per_row as int;
    let mut out: Vec<u8> = Vec::new();
    let mut row: usize = 0;
    let mut start: usize = 0;
    let mut in_range: bool = 0 < src.len();
    while row < height
        invariant
            s == stride,
            bpr == bytes_per_row,
            stride * height <= usize::MAX,
            row <= height,
            row_starts_fit(src@.len() as int, height as int, bpr),
            out@.len() == row * s,
            row < height && in_range ==> start == row_start(row as int, bpr) && start < src@.len(),
            row < height && !in_range ==> row_start(row as int, bpr) >= src@.len(),
            forall|rr: int, cc: int|
                0 <= rr < row && 0 <= cc < s ==> out@[rr * s + cc] == #[trigger] padded_byte(src@, bpr, rr, cc),
        decreases height - row,
    {
        assert(row * s + s <= stride * height) by (nonlinear_arith)
            requires row < height, s == stride, s >= 0;
        let ghost before = out@;
        push_padded_row(&mut out, src, start, in_range, stride, Ghost(row as int), Ghost(bpr));
        assert forall|rr: int, cc: int| 0 <= rr < row + 1 && 0 <= cc < s implies out@[rr * s + cc]
            == #[trigger] padded_byte(src@, bpr, rr, cc) by {
            if rr < row {
                lemma_cell_before_row(rr, cc, row as int, s);
                assert(out@[rr * s + cc] == before[rr * s + cc]);
            } else {
                assert(out@[rr * s + cc] == out@[before.len() + cc]);
            }
        }
        assert(out@.len() == (row + 1) * s) by (nonlinear_arith)
            requires out@.len() == row * s + s;
        if in_range && row + 1 < height {
            assert(row_start(row as int + 1, bpr) <= usize::MAX);
            assert((row + 1) * bpr == row * bpr + bpr) by (nonlinear_arith);
            start = start + bytes_per_row;
            in_range = start < src.len();
        } else if !in_range && row + 1 < height {
            proof { lemma_row_start_monotone(row as int, row as int + 1, bpr); }
        }
        row = row + 1;
    }
    assert(out@.len() == stride * height) by (nonlinear_arith)
        requires out@.len() == row * s, row == height, s == stride;
    out
}

/// Byte `i` of the RGBA copy of the BGRA pixels starting at `start`: blue and
/// red trade places, green and alpha stay.
pub open spec fn swapped_byte(src: Seq<u8>, start: int, i: int) -> u8 {
    let k = i % 4;
    let base = start + i - k;
    if k == 3 { src[base + 3] } else { src[base + 2 - k] }
}

/// The RGBA bytes of the source row starting at `start`: its whole 4-byte
/// pixels among the `stride` bytes from `start` that lie inside `src`.
pub open spec fn rgba_row(src: Seq<u8>, start: int, stride: int) -> Seq<u8> {
    let avail = if src.len() - start < stride { src.len() - start } else { stride };
    Seq::new(((avail / 4) * 4) as nat, |i: int| swapped_byte(src, start, i))
}

/// The RGBA bytes of the first `n` rows; rows starting past the end of `src`
/// contribute nothing.
pub open spec fn rgba_rows(src: Seq<u8>, stride: int, bytes_per_row: int, n: int) -> Seq<u8>
    decreases n,
{
    if n <= 0 {
        Seq::empty()
    } else {
        let start = row_start(n - 1, bytes_per_row);
        rgba_rows(src, stride, bytes_per_row, n - 1) + if start < src.len() {
            rgba_row(src, start, stride)
        } else {
            Seq::empty()
        }
    }
}

proof fn lemma_rgba_rows_past_end(src: Seq<u8>, stride: int, bytes_per_row: int, row: int, n: int)
    requires
        0 <= row <= n,
        bytes_per_row >= 0,
        row_start(row, bytes_per_row) >= src.len(),
    ensures
        rgba_rows(src, stride, bytes_per_row, n) == rgba_rows(src, stride, bytes_per_row, row),
    decreases n - row,
{
    if n > row {
        lemma_rgba_rows_past_end(src, stride, bytes_per_row, row, n - 1);
        lemma_row_start_monotone(row, n - 1, bytes_per_row);
        assert(rgba_rows(src, stride, bytes_per_row, n) =~= rgba_rows(src, stride, bytes_per_row, n - 1));
    }
}

/// Tightly packed rows: the RGBA bytes of the first `n` rows are byte for
/// byte the swap of the source's first `n * 4 * w` bytes.
proof fn lemma_rgba_rows_packed(src: Seq<u8>, w: int, n: int)
    requires
        w >= 0,
        n >= 0,
        n * (4 * w) <= src.len(),
    ensures
        rgba_rows(src, 4 * w, 4 * w, n).len() == n * (4 * w),
        forall|j: int| 0 <= j < n * (4 * w) ==> #[trigger] rgba_rows(src, 4 * w, 4 * w, n)[j] == swapped_byte(src, 0, j),
    decreases n,
{
    if n == 0 {
        assert(n * (4 * w) == 0) by (nonlinear_arith) requires n == 0;
    } else {
        let s = 4 * w;
        assert((n - 1) * s + s == n * s) by (nonlinear_arith);
        assert((n - 1) * s >= 0) by (nonlinear_arith) requires n >= 1, s >= 0;
        lemma_rgba_rows_packed(src, w, n - 1);
        let prev = rgba_rows(src, s, s, n - 1);
        let start = row_start(n - 1, s);
        assert(start == (n - 1) * s);
        if s > 0 {
            assert(start < src.len());
            let row = rgba_row(src, start, s);
            assert(s / 4 == w) by (nonlinear_arith) requires s == 4 * w;
            assert(src.len() - start >= s);
            assert(row.len() == s);
            assert(rgba_rows(src, s, s, n) == prev + row);
            assert forall|j: int| 0 <= j < n * s implies #[trigger] rgba_rows(src, s, s, n)[j] == swapped_byte(src, 0, j) by {
                if j >= (n - 1) * s {
                    let i = j - (n - 1) * s;
                    vstd::arithmetic::div_mod::lemma_mod_multiples_vanish((n - 1) * w, i, 4);
                    assert(4 * ((n - 1) * w) == (n - 1) * s) by (nonlinear_arith) requires s == 4 * w;
                    assert(j % 4 == i % 4);
                    assert(rgba_rows(src, s, s, n)[j] == row[i]);
                } else {
                    assert(rgba_rows(src, s, s, n)[j] == prev[j]);
                }
            }
        } else {
            assert(n * s == 0) by (nonlinear_arith) requires s == 0;
            assert(rgba_rows(src, s, s, n) =~= prev + if start < src.len() { rgba_row(src, start, s) } else { Seq::empty() });
        }
    }
}

/// Converting a tightly packed BGRA image (`width * height` pixels, no row
/// padding) keeps its size and every pixel, with red and blue traded: pixel
/// `p` goes from `(B, G, R, A)` to `(R, G, B, A)`.
pub proof fn lemma_rgba_swaps_red_and_blue(src: Seq<u8>, width: int, height: int)
    requires
        width >= 0,
        height >= 0,
        src.len() == width * height * 4,
    ensures
        ({
            let out = rgba_rows(src, width * 4, width * 4, height);
            &&& out.len() == src.len()
            &&& forall|p: int| 0 <= p < width * height ==> {
                &&& #[trigger] out[4 * p] == src[4 * p + 2]
                &&& out[4 * p + 1] == src[4 * p + 1]
                &&& out[4 * p + 2] == src[4 * p]
                &&& out[4 * p + 3] == src[4 * p + 3]
            }
        }),
{
    assert(height * (4 * width) == width * height * 4) by (nonlinear_arith);
    assert(4 * width == width * 4);
    lemma_rgba_rows_packed(src, width, height);
    let out = rgba_rows(src, width * 4, width * 4, height);
    assert forall|p: int| 0 <= p < width * height implies {
        &&& #[trigger] out[4 * p] == src[4 * p + 2]
        &&& out[4 * p + 1] == src[4 * p + 1]
        &&& out[4 * p + 2] == src[4 * p]
        &&& out[4 * p + 3] == src[4 * p + 3]
    } by {
        vstd::arithmetic::div_mod::lemma_mod_multiples_vanish(p, 0, 4);
        vstd::arithmetic::div_mod::lemma_mod_multiples_vanish(p, 1, 4);
        vstd::arithmetic::div_mod::lemma_mod_multiples_vanish(p, 2, 4);
        vstd::arithmetic::div_mod::lemma_mod_multiples_vanish(p, 3, 4);
        assert(out[4 * p] == swapped_byte(src, 0, 4 * p));
        assert(out[4 * p + 1] == swapped_byte(src, 0, 4 * p + 1));
        assert(out[4 * p + 2] == swapped_byte(src, 0, 4 * p + 2));
        assert(out[4 * p + 3] == swapped_byte(src, 0, 4 * p + 3));
    }
}

/// Append the RGBA bytes of the source row starting at `start`.
fn push_rgba_row(out: &mut Vec<u8>, src: &[u8], start: usize, stride: usize)
    requires
        start < src@.len(),
    ensures
        final(out)@ == old(out)@ + rgba_row(src@, start as int, stride as int),
{
    let ghost before = out@;
    let avail = if src.len() - start < stride { src.len() - start } else { stride };
    let pixels = avail / 4;
    let n = src.len();
    let mut p: usize = 0;
    while p < pixels
        invariant
            n == src@.len(),
            start < src@.len(),
            avail <= src@.len() - start,
            pixels == avail / 4,
            p <= pixels,
            out@ == before + Seq::new((p * 4) as nat, |i: int| swapped_byte(src@, start as int, i)),
        decreases pixels - p,
    {
        assert(p * 4 + 4 <= avail) by (nonlinear_arith)
            requires p < pixels, pixels == avail / 4;
        let i = start + p * 4;
        out.push(src[i + 2]);
        out.push(src[i + 1]);
        out.push(src[i]);
        out.push(src[i + 3]);
        p = p + 1;
        assert(out@ =~= before + Seq::new((p * 4) as nat, |i: int| swapped_byte(src@, start as int, i)));
    }
    assert(out@ =~= before + rgba_row(src@, start as int, stride as int));
}

/// Convert BGRA pixel data to RGBA, stripping row padding if present.
///
/// Rows start every `bytes_per_row` bytes; each contributes its whole pixels
/// among its first `width * 4` bytes that lie inside `src` (the last row may
/// be short), with blue and red swapped. Rows starting past the end of `src`
/// contribute nothing.
pub fn bgra_to_rgba(src: &[u8], width: usize, height: usize, bytes_per_row: usize) -> (out: Vec<u8>)
    requires
        width * 4 <= usize::MAX,
        width * height * 4 <= usize::MAX,
        row_starts_fit(src@.len() as int, height as int, bytes_per_row as int),
    ensures
        out@ == rgba_rows(src@, width * 4, bytes_per_row as int, height as int),
{
    let stride = width * 4;
    let ghost bpr = bytes_per_row as int;
    let mut out: Vec<u8> = Vec::new();
    let mut row: usize = 0;
    let mut start: usize = 0;
    while row < height
        invariant
            stride == width * 4,
            bpr == bytes_per_row,
            row <= height,
            row_starts_fit(src@.len() as int, height as int, bpr),
            row < height ==> start == row_start(row as int, bpr),
            out@ == rgba_rows(src@, stride as int, bpr, row as int),
        decreases height - row,
    {
        if start >= src.len() {
            proof { lemma_rgba_rows_past_end(src@, stride as int, bpr, row as int, height as int); }
            return out;
        }
        push_rgba_row(&mut out, src, start, stride);
        assert(out@ =~= rgba_rows(src@, stride as int, bpr, row as int + 1));
        if row + 1 < height {
            assert(row_start(row as int + 1, bpr) <= usize::MAX);
            assert((row + 1) * bpr == row * bpr + bpr) by (nonlinear_arith);
            start = start + bytes_per_row;
        }
        row = row + 1;
    }
    out
}

/// Byte `i` of a converted row whose source pixels start at `row_base` in
/// `mapped`: channels 0 and 2 trade places when `swap_rb`, and the alpha byte
/// is 255 when `opaque_alpha` (the source's fourth byte is padding).
pub open spec fn mapped_byte(mapped: Seq<u8>, row_base: int, i: int, swap_rb: bool, opaque_alpha: bool) -> u8 {
    let k = i % 4;
    let base = row_base + i - k;
    if k == 3 {
        if opaque_alpha { 255 } else { mapped[base + 3] }
    } else if swap_rb {
        mapped[base + 2 - k]
    } else {
        mapped[base + k]
    }
}

/// Every one of the `height` rows, `width * 4` bytes starting at
/// `offset + row * stride`, lies inside a buffer of `len` bytes.
pub open spec fn mapped_rows_fit(len: int, width: int, height: int, stride: int, offset: int) -> bool {
    height > 0 ==> offset + (height - 1) * stride + width * 4 <= len
}

/// Append one converted row.
fn push_mapped_row(
    out: &mut Vec<u8>,
    mapped: &[u8],
    row_base: usize,
    width: usize,
    swap_rb: bool,
    opaque_alpha: bool,
)
    requires
        row_base + width * 4 <= mapped@.len(),
    ensures
        final(out)@ == old(out)@ + Seq::new(
            (width * 4) as nat,
            |i: int| mapped_byte(mapped@, row_base as int, i, swap_rb, opaque_alpha),
        ),
{
    let ghost before = out@;
    let n = mapped.len();
    let mut px: usize = 0;
    while px < width
        invariant
            n == mapped@.len(),
            row_base + width * 4 <= mapped@.len(),
            px <= width,
            out@ == before + Seq::new(
                (px * 4) as nat,
                |i: int| mapped_byte(mapped@, row_base as int, i, swap_rb, opaque_alpha),
            ),
        decreases width - px,
    {
        let si = row_base + px * 4;
        if swap_rb {
            out.push(mapped[si + 2]);
            out.push(mapped[si + 1]);
            out.push(mapped[si]);
        } else {
            out.push(mapped[si]);
            out.push(mapped[si + 1]);
            out.push(mapped[si + 2]);
        }
        out.push(if opaque_alpha { 255u8 } else { mapped[si + 3] });
        px = px + 1;
        assert(out@ =~= before + Seq::new(
            (px * 4) as nat,
            |i: int| mapped_byte(mapped@, row_base as int, i, swap_rb, opaque_alpha),
        ));
    }
}

/// Tightly packed 4-byte pixels from mapped rows: row `y` is read from
/// `offset + y * stride`, its channels 0 and 2 swapped when `swap_rb`, its
/// alpha forced to 255 when `opaque_alpha`.
pub fn convert_mapped_rows(
    mapped: &[u8],
    width: u32,
    height: u32,
    stride: u32,
    offset: u32,
    swap_rb: bool,
    opaque_alpha: bool,
) -> (out: Vec<u8>)
    requires
        width * 4 <= usize::MAX,
        width * 4 * height <= usize::MAX,
        mapped_rows_fit(mapped@.len() as int, width as int, height as int, stride as int, offset as int),
    ensures
        out@.len() == width * 4 * height,
        forall|y: int, i: int|
            0 <= y < height && 0 <= i < width * 4 ==> out@[y * (width * 4) + i] == #[trigger] mapped_byte(
                mapped@,
                offset + y * stride,
                i,
                swap_rb,
                opaque_alpha,
            ),
{
    let row_bytes: usize = (width as usize) * 4;
    let ghost rb = row_bytes as int;
    let mut out: Vec<u8> = Vec::new();
    let n = mapped.len();
    let mut y: usize = 0;
    while y < height as usize
        invariant
            n == mapped@.len(),
            rb == row_bytes,
            row_bytes == width * 4,
            width * 4 * height <= usize::MAX,
            mapped_rows_fit(mapped@.len() as int, width as int, height as int, stride as int, offset as int),
            y <= height,
            out@.len() == y * rb,
            forall|yy: int, i: int|
                0 <= yy < y && 0 <= i < rb ==> out@[yy * rb + i] == #[trigger] mapped_byte(
                    mapped@,
                    offset + yy * stride,
                    i,
                    swap_rb,
                    opaque_alpha,
                ),
        decreases height - y,
    {
        proof { lemma_row_start_monotone(y as int, height - 1, stride as int); }
        assert(offset + y * stride + rb <= n);
        let row_base: usize = offset as usize + y * (stride as usize);
        let ghost before = out@;
        push_mapped_row(&mut out, mapped, row_base, width as usize, swap_rb, opaque_alpha);
        assert forall|yy: int, i: int| 0 <= yy < y + 1 && 0 <= i < rb implies out@[yy * rb + i]
            == #[trigger] mapped_byte(mapped@, offset + yy * stride, i, swap_rb, opaque_alpha) by {
            if yy < y {
                lemma_cell_before_row(yy, i, y as int, rb);
                assert(out@[yy * rb + i] == before[yy * rb + i]);
            } else {
                assert(out@[yy * rb + i] == out@[before.len() + i]);
            }
        }
        assert(out@.len() == (y + 1) * rb) by (nonlinear_arith)
            requires out@.len() == y * rb + rb;
        y = y + 1;
    }
    assert(out@.len() == width * 4 * height) by (nonlinear_arith)
        requires out@.len() == y * rb, y == height, rb == width * 4;
    out
}

} // verus!
