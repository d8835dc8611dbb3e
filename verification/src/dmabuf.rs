//! DMA-BUF capture on Linux: pixel-format tables, buffer checks, CPU readback
//! planning and the decisions of the Vulkan zero-copy import.

use vstd::prelude::*;

use crate::pixels::{convert_mapped_rows, mapped_byte, mapped_rows_fit};
use crate::texture_format::{non_srgb_equivalent, non_srgb_spec, TextureFormat};

verus! {

/// A PipeWire (SPA) raw video format; `Other` carries the SPA format id of
/// any format not listed.
#[derive(Debug, Clone, Copy, PartialEq, Eq, Structural)]
pub enum VideoFormat {
    Rgb,
    Rgba,
    Rgbx,
    Bgrx,
    Yuy2,
    I420,
    Other(u32),
}

/// A DRM fourcc pixel format; `Other` carries the fourcc code of any format
/// not listed.
#[derive(Debug, Clone, Copy, PartialEq, Eq, Structural)]
pub enum DrmFormat {
    Rgb888,
    Abgr8888,
    Xbgr8888,
    Xrgb8888,
    Argb8888,
    Yuyv,
    Yuv420,
    Other(u32),
}

/// The Vulkan image formats a DMA-BUF is imported as.
#[derive(Debug, Clone, Copy, PartialEq, Eq, Structural)]
pub enum VkFormat {
    B8G8R8A8Srgb,
    R8G8B8A8Srgb,
}

/// Supported video formats for capture and conversion.
pub fn supported_formats() -> (out: Vec<VideoFormat>)
    ensures
        out@ == seq![
            VideoFormat::Rgb,
            VideoFormat::Rgba,
            VideoFormat::Rgbx,
            VideoFormat::Bgrx,
            VideoFormat::Yuy2,
            VideoFormat::I420,
        ],
{
    let mut v: Vec<VideoFormat> = Vec::new();
    v.push(VideoFormat::Rgb);
    v.push(VideoFormat::Rgba);
    v.push(VideoFormat::Rgbx);
    v.push(VideoFormat::Bgrx);
    v.push(VideoFormat::Yuy2);
    v.push(VideoFormat::I420);
    assert(v@ =~= seq![
        VideoFormat::Rgb,
        VideoFormat::Rgba,
        VideoFormat::Rgbx,
        VideoFormat::Bgrx,
        VideoFormat::Yuy2,
        VideoFormat::I420,
    ]);
    v
}

/// The GStreamer caps name of a video format.
pub open spec fn gst_format_name(format: VideoFormat) -> Option<Seq<char>> {
    match format {
        VideoFormat::Rgb => Some("RGB"@),
        VideoFormat::Rgba => Some("RGBA"@),
        VideoFormat::Rgbx => Some("RGBx"@),
        VideoFormat::Bgrx => Some("BGRx"@),
        VideoFormat::Yuy2 => Some("YUY2"@),
        VideoFormat::I420 => Some("I420"@),
        VideoFormat::Other(_) => None,
    }
}

/// Converts a PipeWire video format to a GStreamer format string.
pub fn to_gst_format(format: VideoFormat) -> (out: Option<&'static str>)
    ensures
        match out {
            Some(s) => gst_format_name(format) == Some(s@),
            None => gst_format_name(format) is None,
        },
{
    match format {
        VideoFormat::Rgb => Some("RGB"),
        VideoFormat::Rgba => Some("RGBA"),
        VideoFormat::Rgbx => Some("RGBx"),
        VideoFormat::Bgrx => Some("BGRx"),
        VideoFormat::Yuy2 => Some("YUY2"),
        VideoFormat::I420 => Some("I420"),
        VideoFormat::Other(_) => None,
    }
}

/// The DRM fourcc of a video format.
pub open spec fn drm_format_of(format: VideoFormat) -> Option<DrmFormat> {
    match format {
        VideoFormat::Rgb => Some(DrmFormat::Rgb888),
        VideoFormat::Rgba => Some(DrmFormat::Abgr8888),
        VideoFormat::Rgbx => Some(DrmFormat::Xbgr8888),
        VideoFormat::Bgrx => Some(DrmFormat::Xrgb8888),
        VideoFormat::Yuy2 => Some(DrmFormat::Yuyv),
        VideoFormat::I420 => Some(DrmFormat::Yuv420),
        VideoFormat::Other(_) => None,
    }
}

/// Converts a PipeWire video format to a DRM fourcc code.
pub fn to_drm_format(format: VideoFormat) -> (out: Option<DrmFormat>)
    ensures
        out == drm_format_of(format),
{
    match format {
        VideoFormat::Rgb => Some(DrmFormat::Rgb888),
        VideoFormat::Rgba => Some(DrmFormat::Abgr8888),
        VideoFormat::Rgbx => Some(DrmFormat::Xbgr8888),
        VideoFormat::Bgrx => Some(DrmFormat::Xrgb8888),
        VideoFormat::Yuy2 => Some(DrmFormat::Yuyv),
        VideoFormat::I420 => Some(DrmFormat::Yuv420),
        VideoFormat::Other(_) => None,
    }
}

/// The Vulkan format a DRM format is imported as (the four 32-bit RGB layouts).
pub open spec fn vk_format_of(format: DrmFormat) -> Option<VkFormat> {
    match format {
        DrmFormat::Xrgb8888 | DrmFormat::Argb8888 => Some(VkFormat::B8G8R8A8Srgb),
        DrmFormat::Abgr8888 | DrmFormat::Xbgr8888 => Some(VkFormat::R8G8B8A8Srgb),
        _ => None,
    }
}

/// The wgpu texture format a DRM format is imported as.
pub open spec fn wgpu_format_of(format: DrmFormat) -> Option<TextureFormat> {
    match format {
        DrmFormat::Xrgb8888 | DrmFormat::Argb8888 => Some(TextureFormat::Bgra8UnormSrgb),
        DrmFormat::Abgr8888 | DrmFormat::Xbgr8888 => Some(TextureFormat::Rgba8UnormSrgb),
        _ => None,
    }
}

/// Maps a DRM fourcc format to the corresponding Vulkan format.
pub fn drm_to_vk_format(format: DrmFormat) -> (out: Option<VkFormat>)
    ensures
        out == vk_format_of(format),
{
    match format {
        DrmFormat::Xrgb8888 => Some(VkFormat::B8G8R8A8Srgb),
        DrmFormat::Argb8888 => Some(VkFormat::B8G8R8A8Srgb),
        DrmFormat::Abgr8888 => Some(VkFormat::R8G8B8A8Srgb),
        DrmFormat::Xbgr8888 => Some(VkFormat::R8G8B8A8Srgb),
        _ => None,
    }
}

/// Maps a DRM fourcc format to the corresponding wgpu texture format.
pub fn drm_to_wgpu_format(format: DrmFormat) -> (out: Option<TextureFormat>)
    ensures
        out == wgpu_format_of(format),
{
    match format {
        DrmFormat::Xrgb8888 | DrmFormat::Argb8888 => Some(TextureFormat::Bgra8UnormSrgb),
        DrmFormat::Abgr8888 | DrmFormat::Xbgr8888 => Some(TextureFormat::Rgba8UnormSrgb),
        _ => None,
    }
}

/// Returns whether a DRM format can be directly imported into Vulkan as a 2D texture.
pub fn is_importable_format(format: DrmFormat) -> (b: bool)
    ensures
        b == vk_format_of(format) is Some,
{
    drm_to_vk_format(format).is_some()
}

/// Every importable DRM format has both a Vulkan and a wgpu format, and both
/// agree on the channel order (BGRA or RGBA).
pub proof fn lemma_import_formats_agree(format: DrmFormat)
    ensures
        (vk_format_of(format) is Some) == (wgpu_format_of(format) is Some),
        vk_format_of(format) == Some(VkFormat::B8G8R8A8Srgb) <==> wgpu_format_of(format) == Some(
            TextureFormat::Bgra8UnormSrgb,
        ),
{
}

} // verus!

verus! {

/// Error building a DMA-BUF buffer description from a capture buffer.
#[derive(Debug, Clone, PartialEq, Eq)]
pub enum DmaBufError {
    NotAvailable(String),
    InvalidBuffer(String),
    UnsupportedFormat(String),
}

/// The text `message()` gives for an error.
pub open spec fn dmabuf_error_text(e: DmaBufError) -> Seq<char> {
    match e {
        DmaBufError::NotAvailable(msg) => "DMA-BUF not available: "@ + msg@,
        DmaBufError::InvalidBuffer(msg) => "Invalid buffer: "@ + msg@,
        DmaBufError::UnsupportedFormat(msg) => "Unsupported format: "@ + msg@,
    }
}

impl DmaBufError {
    /// Human-readable description of the error.
    pub fn message(&self) -> (s: String)
        ensures
            s@ == dmabuf_error_text(*self),
    {
        match self {
            DmaBufError::NotAvailable(msg) => {
                let mut s = String::from_str("DMA-BUF not available: ");
                s.append(msg.as_str());
                s
            },
            DmaBufError::InvalidBuffer(msg) => {
                let mut s = String::from_str("Invalid buffer: ");
                s.append(msg.as_str());
                s
            },
            DmaBufError::UnsupportedFormat(msg) => {
                let mut s = String::from_str("Unsupported format: ");
                s.append(msg.as_str());
                s
            },
        }
    }
}

/// A DMA-BUF plane shared by the compositor.
#[derive(Debug, Clone, PartialEq, Eq)]
pub struct DmaBufBuffer {
    pub fd: i32,
    pub width: u32,
    pub height: u32,
    pub format: DrmFormat,
    pub stride: u32,
    pub offset: u32,
    pub modifier: u64,
}

/// The file descriptor of a capture buffer's first plane.
///
/// Fails with `InvalidBuffer` when the buffer has no planes, `NotAvailable`
/// when the plane carries no descriptor (negative), and `InvalidBuffer` when
/// the descriptor does not fit a C `int`.
pub fn dmabuf_plane_fd(plane_count: usize, raw_fd: i64) -> (out: Result<i32, DmaBufError>)
    ensures
        plane_count == 0 ==> (out matches Err(DmaBufError::InvalidBuffer(m)) && m@ == "Buffer has no data planes"@),
        plane_count > 0 && raw_fd < 0 ==> (out matches Err(DmaBufError::NotAvailable(m))
            && m@ == "Buffer does not contain DMA-BUF file descriptor"@),
        plane_count > 0 && raw_fd > i32::MAX ==> (out matches Err(DmaBufError::InvalidBuffer(m))
            && m@ == "File descriptor "@ + decimal(raw_fd as nat) + " out of range"@),
        plane_count > 0 && 0 <= raw_fd <= i32::MAX ==> out == Ok::<i32, DmaBufError>(raw_fd as i32),
{
    if plane_count == 0 {
        return Err(DmaBufError::InvalidBuffer(String::from_str("Buffer has no data planes")));
    }
    if raw_fd < 0 {
        return Err(DmaBufError::NotAvailable(String::from_str("Buffer does not contain DMA-BUF file descriptor")));
    }
    if raw_fd > i32::MAX as i64 {
        let mut m = String::from_str("File descriptor ");
        m.append(decimal_u64(raw_fd as u64).as_str());
        m.append(" out of range");
        return Err(DmaBufError::InvalidBuffer(m));
    }
    Ok(raw_fd as i32)
}

/// The decimal digit `d` (0 to 9) as a character.
pub open spec fn digit_char(d: nat) -> char {
    (48 + d) as char
}

/// The decimal representation of `n`: its digits, most significant first,
/// without leading zeros (a single "0" for zero).
pub open spec fn decimal(n: nat) -> Seq<char>
    decreases n,
{
    if n < 10 {
        seq![digit_char(n)]
    } else {
        decimal(n / 10).push(digit_char(n % 10))
    }
}

/// The decimal digit `d` as a one-character string.
fn digit_str(d: u64) -> (s: &'static str)
    requires
        d < 10,
    ensures
        s@ == seq![digit_char(d as nat)],
{
    match d {
        0 => {
            proof { reveal_strlit("0"); }
            "0"
        },
        1 => {
            proof { reveal_strlit("1"); }
            "1"
        },
        2 => {
            proof { reveal_strlit("2"); }
            "2"
        },
        3 => {
            proof { reveal_strlit("3"); }
            "3"
        },
        4 => {
            proof { reveal_strlit("4"); }
            "4"
        },
        5 => {
            proof { reveal_strlit("5"); }
            "5"
        },
        6 => {
            proof { reveal_strlit("6"); }
            "6"
        },
        7 => {
            proof { reveal_strlit("7"); }
            "7"
        },
        8 => {
            proof { reveal_strlit("8"); }
            "8"
        },
        _ => {
            proof { reveal_strlit("9"); }
            "9"
        },
    }
}

/// The decimal digits of `n`, most significant first.
fn decimal_u64(n: u64) -> (s: String)
    ensures
        s@ == decimal(n as nat),
    decreases n,
{
    if n < 10 {
        String::from_str(digit_str(n))
    } else {
        let mut s = decimal_u64(n / 10);
        s.append(digit_str(n % 10));
        proof {
            assert(s@ =~= decimal((n / 10) as nat).push(digit_char((n % 10) as nat)));
        }
        s
    }
}

/// Describe a checked DMA-BUF plane: its format must have a DRM fourcc, else
/// `UnsupportedFormat` naming the format by `format_label`.
pub fn dmabuf_buffer(
    fd: i32,
    width: u32,
    height: u32,
    format: VideoFormat,
    format_label: &str,
    stride: u32,
    offset: u32,
    modifier: u64,
) -> (out: Result<DmaBufBuffer, DmaBufError>)
    ensures
        match drm_format_of(format) {
            Some(drm) => out == Ok::<DmaBufBuffer, DmaBufError>(
                DmaBufBuffer { fd, width, height, format: drm, stride, offset, modifier },
            ),
            None => out matches Err(DmaBufError::UnsupportedFormat(m))
                && m@ == "Format "@ + format_label@ + " not supported for DMA-BUF"@,
        },
{
    match to_drm_format(format) {
        Some(drm) => Ok(DmaBufBuffer { fd, width, height, format: drm, stride, offset, modifier }),
        None => {
            let mut m = String::from_str("Format ");
            m.append(format_label);
            m.append(" not supported for DMA-BUF");
            Err(DmaBufError::UnsupportedFormat(m))
        },
    }
}

} // verus!

verus! {

/// Error reading a DMA-BUF's pixels on the CPU; the `i32` values are errno codes.
#[derive(Debug, Clone, Copy, PartialEq, Eq, Structural)]
pub enum DmaBufReadError {
    MmapFailed(i32),
    SyncFailed(i32),
    MunmapFailed(i32),
    UnsupportedFormat(DrmFormat),
    InvalidBufferSize,
}

/// How to read a DMA-BUF on the CPU: map `map_size` bytes, then convert the
/// rows with `convert_mapped_rows`.
#[derive(Debug, Clone, Copy, PartialEq, Eq, Structural)]
pub struct DmaBufReadPlan {
    pub map_size: usize,
    pub swap_rb: bool,
    pub opaque_alpha: bool,
}

/// The four 32-bit RGB layouts a DMA-BUF can be read back from.
pub open spec fn readable_format(format: DrmFormat) -> bool {
    format == DrmFormat::Xrgb8888 || format == DrmFormat::Argb8888 || format == DrmFormat::Abgr8888
        || format == DrmFormat::Xbgr8888
}

/// Whether the fourth byte of a format is padding rather than alpha.
pub open spec fn has_padding_alpha(format: DrmFormat) -> bool {
    format == DrmFormat::Xrgb8888 || format == DrmFormat::Xbgr8888
}

/// Whether a format is stored R, G, B in memory (read as BGRA it needs a swap).
pub open spec fn is_rgb_order(format: DrmFormat) -> bool {
    format == DrmFormat::Abgr8888 || format == DrmFormat::Xbgr8888
}

fn padding_alpha(format: DrmFormat) -> (b: bool)
    ensures
        b == has_padding_alpha(format),
{
    match format {
        DrmFormat::Xrgb8888 | DrmFormat::Xbgr8888 => true,
        _ => false,
    }
}

fn rgb_order(format: DrmFormat) -> (b: bool)
    ensures
        b == is_rgb_order(format),
{
    match format {
        DrmFormat::Abgr8888 | DrmFormat::Xbgr8888 => true,
        _ => false,
    }
}

fn readable(format: DrmFormat) -> (b: bool)
    ensures
        b == readable_format(format),
{
    match format {
        DrmFormat::Xrgb8888 | DrmFormat::Argb8888 | DrmFormat::Abgr8888 | DrmFormat::Xbgr8888 => true,
        _ => false,
    }
}

/// Plan a readback to tightly packed BGRA: refuses formats other than the four
/// 32-bit RGB layouts, rows shorter than `width * 4` bytes and an empty
/// mapping; RGBA-ordered formats get red and blue swapped, formats with a
/// padding byte get opaque alpha.
pub fn bgra_read_plan(width: u32, height: u32, stride: u32, offset: u32, format: DrmFormat) -> (out: Result<DmaBufReadPlan, DmaBufReadError>)
    requires
        width * 4 <= usize::MAX,
        offset + stride * height <= usize::MAX,
    ensures
        !readable_format(format) ==> out == Err::<DmaBufReadPlan, DmaBufReadError>(DmaBufReadError::UnsupportedFormat(format)),
        readable_format(format) && stride < width * 4 ==> out == Err::<DmaBufReadPlan, DmaBufReadError>(DmaBufReadError::InvalidBufferSize),
        readable_format(format) && stride >= width * 4 && offset + stride * height == 0 ==> out == Err::<DmaBufReadPlan, DmaBufReadError>(DmaBufReadError::InvalidBufferSize),
        readable_format(format) && stride >= width * 4 && offset + stride * height > 0 ==> out == Ok::<DmaBufReadPlan, DmaBufReadError>(
            DmaBufReadPlan {
                map_size: (offset + stride * height) as usize,
                swap_rb: is_rgb_order(format),
                opaque_alpha: has_padding_alpha(format),
            },
        ),
{
    if !readable(format) {
        return Err(DmaBufReadError::UnsupportedFormat(format));
    }
    let row_bytes: usize = (width as usize) * 4;
    if (stride as usize) < row_bytes {
        return Err(DmaBufReadError::InvalidBufferSize);
    }
    assert(stride * height <= usize::MAX);
    let map_size: usize = offset as usize + (stride as usize) * (height as usize);
    if map_size == 0 {
        return Err(DmaBufReadError::InvalidBufferSize);
    }
    Ok(DmaBufReadPlan { map_size, swap_rb: rgb_order(format), opaque_alpha: padding_alpha(format) })
}

/// Plan a readback to tightly packed RGBA: refuses formats other than the four
/// 32-bit RGB layouts and an empty mapping; BGRA-ordered formats get red and
/// blue swapped, formats with a padding byte get opaque alpha.
pub fn rgba_read_plan(width: u32, height: u32, stride: u32, offset: u32, format: DrmFormat) -> (out: Result<DmaBufReadPlan, DmaBufReadError>)
    requires
        offset + stride * height <= usize::MAX,
    ensures
        !readable_format(format) ==> out == Err::<DmaBufReadPlan, DmaBufReadError>(DmaBufReadError::UnsupportedFormat(format)),
        readable_format(format) && offset + stride * height == 0 ==> out == Err::<DmaBufReadPlan, DmaBufReadError>(DmaBufReadError::InvalidBufferSize),
        readable_format(format) && offset + stride * height > 0 ==> out == Ok::<DmaBufReadPlan, DmaBufReadError>(
            DmaBufReadPlan {
                map_size: (offset + stride * height) as usize,
                swap_rb: !is_rgb_order(format),
                opaque_alpha: has_padding_alpha(format),
            },
        ),
{
    if !readable(format) {
        return Err(DmaBufReadError::UnsupportedFormat(format));
    }
    assert(stride * height <= usize::MAX);
    let map_size: usize = offset as usize + (stride as usize) * (height as usize);
    if map_size == 0 {
        return Err(DmaBufReadError::InvalidBufferSize);
    }
    Ok(DmaBufReadPlan { map_size, swap_rb: !rgb_order(format), opaque_alpha: padding_alpha(format) })
}

/// A plan from `bgra_read_plan` yields rows of exactly `width * 4` bytes in
/// the mapping it asks for, so the conversion's bounds hold for it.
pub proof fn lemma_bgra_plan_rows_fit(width: u32, height: u32, stride: u32, offset: u32, plan: DmaBufReadPlan)
    requires
        stride >= width * 4,
        plan.map_size == offset + stride * height,
    ensures
        mapped_rows_fit(plan.map_size as int, width as int, height as int, stride as int, offset as int),
{
    if height > 0 {
        assert((height - 1) * stride + stride == stride * height) by (nonlinear_arith);
    }
}

/// Read the pixels of a mapped DMA-BUF per a plan: `width * 4 * height` bytes,
/// row `y` converted from `offset + y * stride`.
pub fn read_mapped_pixels(
    mapped: &[u8],
    width: u32,
    height: u32,
    stride: u32,
    offset: u32,
    plan: DmaBufReadPlan,
) -> (out: Vec<u8>)
    requires
        width * 4 <= usize::MAX,
        width * 4 * height <= usize::MAX,
        mapped_rows_fit(mapped@.len() as int, width as int, height as int, stride as int, offset as int),
    ensures
        out@.len() == width * 4 * height,
        forall|y: int, i: int|
            0 <= y < height && 0 <= i < width * 4 ==> out@[y * (width * 4) + i] == #[trigger] mapped_byte(
                mapped@,
                offset + y * stride,
                i,
                plan.swap_rb,
                plan.opaque_alpha,
            ),
{
    convert_mapped_rows(mapped, width, height, stride, offset, plan.swap_rb, plan.opaque_alpha)
}

} // verus!

verus! {

/// Error importing a DMA-BUF as a GPU texture; the `i32` values are Vulkan
/// result codes and errno codes.
#[derive(Debug, Clone, Copy, PartialEq, Eq)]
pub enum DmaBufImportError {
    UnsupportedFormat(DrmFormat),
    VulkanNotAvailable,
    ExtensionNotAvailable(&'static str),
    VulkanError(&'static str, i32),
    NoCompatibleMemoryType,
    FdDupFailed(i32),
}

/// The formats of an imported DMA-BUF texture: the Vulkan image format, the
/// wgpu texture format, and the linear twin the texture may also be viewed as
/// (when it differs).
pub fn dmabuf_texture_formats(format: DrmFormat) -> (out: Result<(VkFormat, TextureFormat, Option<TextureFormat>), DmaBufImportError>)
    ensures
        match (vk_format_of(format), wgpu_format_of(format)) {
            (Some(vk), Some(tex)) => out == Ok::<(VkFormat, TextureFormat, Option<TextureFormat>), DmaBufImportError>(
                (vk, tex, if non_srgb_spec(tex) != tex { Some(non_srgb_spec(tex)) } else { None }),
            ),
            _ => out == Err::<(VkFormat, TextureFormat, Option<TextureFormat>), DmaBufImportError>(
                DmaBufImportError::UnsupportedFormat(format),
            ),
        },
{
    let vk = match drm_to_vk_format(format) {
        Some(v) => v,
        None => return Err(DmaBufImportError::UnsupportedFormat(format)),
    };
    let tex = match drm_to_wgpu_format(format) {
        Some(t) => t,
        None => return Err(DmaBufImportError::UnsupportedFormat(format)),
    };
    let linear = non_srgb_equivalent(tex);
    let alt = if linear != tex { Some(linear) } else { None };
    Ok((vk, tex, alt))
}

/// Both device extensions the import needs must be enabled; the external
/// memory fd extension is checked first.
pub fn check_dmabuf_extensions(has_external_memory_fd: bool, has_dmabuf: bool) -> (out: Result<(), DmaBufImportError>)
    ensures
        !has_external_memory_fd ==> out == Err::<(), DmaBufImportError>(
            DmaBufImportError::ExtensionNotAvailable("VK_KHR_external_memory_fd"),
        ),
        has_external_memory_fd && !has_dmabuf ==> out == Err::<(), DmaBufImportError>(
            DmaBufImportError::ExtensionNotAvailable("VK_EXT_external_memory_dma_buf"),
        ),
        has_external_memory_fd && has_dmabuf ==> out == Ok::<(), DmaBufImportError>(()),
{
    if !has_external_memory_fd {
        return Err(DmaBufImportError::ExtensionNotAvailable("VK_KHR_external_memory_fd"));
    }
    if !has_dmabuf {
        return Err(DmaBufImportError::ExtensionNotAvailable("VK_EXT_external_memory_dma_buf"));
    }
    Ok(())
}

/// Memory type `i` is allowed by `type_bits` and has every required property flag.
pub open spec fn memory_type_fits(flags: Seq<u32>, type_bits: u32, required: u32, i: int) -> bool {
    &&& 0 <= i < flags.len()
    &&& (type_bits >> (i as u32)) & 1 == 1
    &&& flags[i] & required == required
}

/// The first memory type (by index) allowed by `type_bits` whose property
/// flags contain `required_flags`; `memory_type_flags[i]` holds the property
/// flags of memory type `i`.
pub fn find_memory_type_index(memory_type_flags: &[u32], type_bits: u32, required_flags: u32) -> (out: Option<usize>)
    requires
        memory_type_flags@.len() <= 32,
    ensures
        match out {
            Some(i) => memory_type_fits(memory_type_flags@, type_bits, required_flags, i as int)
                && forall|j: int| 0 <= j < i ==> !memory_type_fits(memory_type_flags@, type_bits, required_flags, j),
            None => forall|j: int| !memory_type_fits(memory_type_flags@, type_bits, required_flags, j),
        },
{
    let mut i: usize = 0;
    while i < memory_type_flags.len()
        invariant
            memory_type_flags@.len() <= 32,
            i <= memory_type_flags@.len(),
            forall|j: int| 0 <= j < i ==> !memory_type_fits(memory_type_flags@, type_bits, required_flags, j),
        decreases memory_type_flags@.len() - i,
    {
        let shift: u32 = i as u32;
        let bit_set = (type_bits & (1u32 << shift)) != 0;
        assert(bit_set == ((type_bits >> shift) & 1 == 1)) by (bit_vector)
            requires shift < 32, bit_set == ((type_bits & (1u32 << shift)) != 0);
        if bit_set && (memory_type_flags[i] & required_flags) == required_flags {
            return Some(i);
        }
        i = i + 1;
    }
    None
}

/// Bytes to allocate when importing: at least the bind offset plus the image's
/// required size (saturating), and the DMA-BUF's own size when that is known
/// (nonzero) and larger.
pub fn dmabuf_allocation_size(dmabuf_size: u64, offset: u32, required_size: u64) -> (out: u64)
    ensures
        ({
            let bound = if offset + required_size > u64::MAX { u64::MAX as int } else { offset + required_size };
            out == if dmabuf_size > 0 && dmabuf_size > bound { dmabuf_size as int } else { bound }
        }),
{
    let bind_offset: u64 = offset as u64;
    let required_bound = bind_offset.saturating_add(required_size);
    if dmabuf_size > 0 {
        if dmabuf_size > required_bound { dmabuf_size } else { required_bound }
    } else {
        required_bound
    }
}

} // verus!

verus! {

/// `SPA_VIDEO_FLAG_MODIFIER`: the format's DRM modifier was explicitly negotiated.
pub const SPA_VIDEO_FLAG_MODIFIER: u32 = 4;

/// `DRM_FORMAT_MOD_LINEAR`: plain row-major layout.
pub const DRM_FORMAT_MOD_LINEAR: u64 = 0;

/// `DRM_FORMAT_MOD_INVALID`: no modifier given (implicitly linear).
pub const DRM_FORMAT_MOD_INVALID: u64 = 0x00ff_ffff_ffff_ffff;

/// Why a DMA-BUF frame goes through conversion instead of zero-copy import.
#[derive(Debug, Clone, Copy, PartialEq, Eq, Structural)]
pub enum ConvertReason {
    /// The modifier was not explicitly negotiated (the buffer may be tiled).
    ModifierNotNegotiated,
    /// The negotiated modifier is not linear.
    NonLinearModifier,
    /// Vulkan cannot import the format directly.
    NotImportable,
    /// Zero-copy import failed before and is disabled.
    ImportDisabled,
}

/// How a DMA-BUF frame reaches the sampler.
#[derive(Debug, Clone, Copy, PartialEq, Eq, Structural)]
pub enum FramePath {
    /// Hand the buffer to the GPU as is.
    ZeroCopy,
    /// Convert it on the CPU side first.
    Convert(ConvertReason),
}

/// The format flags say the modifier was negotiated.
pub open spec fn modifier_negotiated(format_flags: u32) -> bool {
    format_flags & SPA_VIDEO_FLAG_MODIFIER != 0
}

/// The modifier describes a linear layout.
pub open spec fn modifier_is_linear(modifier: u64) -> bool {
    modifier == DRM_FORMAT_MOD_LINEAR || modifier == DRM_FORMAT_MOD_INVALID
}

/// Choose the path of a DMA-BUF frame: zero-copy only when the modifier was
/// negotiated and is linear, the format is importable and zero-copy import is
/// still enabled; otherwise conversion, with the first of these that fails as
/// the reason.
pub fn choose_dmabuf_path(format_flags: u32, modifier: u64, format: DrmFormat, import_available: bool) -> (out: FramePath)
    ensures
        out == if !modifier_negotiated(format_flags) {
            FramePath::Convert(ConvertReason::ModifierNotNegotiated)
        } else if !modifier_is_linear(modifier) {
            FramePath::Convert(ConvertReason::NonLinearModifier)
        } else if vk_format_of(format) is None {
            FramePath::Convert(ConvertReason::NotImportable)
        } else if !import_available {
            FramePath::Convert(ConvertReason::ImportDisabled)
        } else {
            FramePath::ZeroCopy
        },
{
    let negotiated = (format_flags & SPA_VIDEO_FLAG_MODIFIER) != 0;
    let linear = negotiated && (modifier == DRM_FORMAT_MOD_LINEAR || modifier == DRM_FORMAT_MOD_INVALID);
    let importable = is_importable_format(format);
    if linear && importable && import_available {
        FramePath::ZeroCopy
    } else if !negotiated {
        FramePath::Convert(ConvertReason::ModifierNotNegotiated)
    } else if !linear {
        FramePath::Convert(ConvertReason::NonLinearModifier)
    } else if !importable {
        FramePath::Convert(ConvertReason::NotImportable)
    } else {
        FramePath::Convert(ConvertReason::ImportDisabled)
    }
}

} // verus!
