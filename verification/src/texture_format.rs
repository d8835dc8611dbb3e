//! GPU texture formats and their sRGB / linear counterparts.

use vstd::prelude::*;

verus! {

/// The texture formats the capture and sampling paths deal with.
#[derive(Debug, Clone, Copy, PartialEq, Eq, Structural)]
pub enum TextureFormat {
    R8Unorm,
    Rgba8Unorm,
    Rgba8UnormSrgb,
    Bgra8Unorm,
    Bgra8UnormSrgb,
    Rgb10a2Unorm,
    Rgba16Float,
}

/// The linear (non-sRGB) counterpart of a format; other formats map to themselves.
pub open spec fn non_srgb_spec(format: TextureFormat) -> TextureFormat {
    match format {
        TextureFormat::Rgba8UnormSrgb => TextureFormat::Rgba8Unorm,
        TextureFormat::Bgra8UnormSrgb => TextureFormat::Bgra8Unorm,
        other => other,
    }
}

/// The sRGB counterpart of a format; other formats map to themselves.
pub open spec fn srgb_spec(format: TextureFormat) -> TextureFormat {
    match format {
        TextureFormat::Rgba8Unorm => TextureFormat::Rgba8UnormSrgb,
        TextureFormat::Bgra8Unorm => TextureFormat::Bgra8UnormSrgb,
        other => other,
    }
}

/// Whether a format stores sRGB-encoded color.
pub open spec fn is_srgb(format: TextureFormat) -> bool {
    format == TextureFormat::Rgba8UnormSrgb || format == TextureFormat::Bgra8UnormSrgb
}

/// Map a format to its non-sRGB equivalent (identity for non-sRGB formats).
pub fn non_srgb_equivalent(format: TextureFormat) -> (out: TextureFormat)
    ensures
        out == non_srgb_spec(format),
{
    match format {
        TextureFormat::Rgba8UnormSrgb => TextureFormat::Rgba8Unorm,
        TextureFormat::Bgra8UnormSrgb => TextureFormat::Bgra8Unorm,
        other => other,
    }
}

/// Map a format to its sRGB equivalent (identity for already-sRGB formats).
pub fn srgb_equivalent(format: TextureFormat) -> (out: TextureFormat)
    ensures
        out == srgb_spec(format),
{
    match format {
        TextureFormat::Rgba8Unorm => TextureFormat::Rgba8UnormSrgb,
        TextureFormat::Bgra8Unorm => TextureFormat::Bgra8UnormSrgb,
        other => other,
    }
}

/// Adjust a format's sRGB-ness to match the render target.
pub fn adjust_srgb(format: TextureFormat, target_is_srgb: bool) -> (out: TextureFormat)
    ensures
        out == (if target_is_srgb { srgb_spec(format) } else { non_srgb_spec(format) }),
{
    if target_is_srgb {
        srgb_equivalent(format)
    } else {
        non_srgb_equivalent(format)
    }
}

/// Converting to linear or to sRGB twice is the same as once, and the result
/// is linear, respectively sRGB, whenever the format has an sRGB twin.
pub proof fn lemma_srgb_idempotent(format: TextureFormat)
    ensures
        non_srgb_spec(non_srgb_spec(format)) == non_srgb_spec(format),
        srgb_spec(srgb_spec(format)) == srgb_spec(format),
        !is_srgb(non_srgb_spec(format)),
        srgb_spec(format) != format ==> is_srgb(srgb_spec(format)),
{
}

/// Linear and sRGB twins convert into each other: going to sRGB and back to
/// linear gives the linear format, and the other way round.
pub proof fn lemma_srgb_round_trip(format: TextureFormat)
    ensures
        non_srgb_spec(srgb_spec(format)) == non_srgb_spec(format),
        srgb_spec(non_srgb_spec(format)) == srgb_spec(format),
{
}

/// Adjusting for a target and then for the same target again changes nothing.
pub proof fn lemma_adjust_srgb_stable(format: TextureFormat, target_is_srgb: bool)
    ensures
        ({
            let once = if target_is_srgb { srgb_spec(format) } else { non_srgb_spec(format) };
            let twice = if target_is_srgb { srgb_spec(once) } else { non_srgb_spec(once) };
            twice == once
        }),
{
}

} // verus!
