use cocuyo::texture_format::{adjust_srgb, non_srgb_equivalent, srgb_equivalent, TextureFormat};

#[test]
fn non_srgb_equivalent_maps_srgb_formats() {
    assert_eq!(non_srgb_equivalent(TextureFormat::Bgra8UnormSrgb), TextureFormat::Bgra8Unorm);
    assert_eq!(non_srgb_equivalent(TextureFormat::Rgba8UnormSrgb), TextureFormat::Rgba8Unorm);
}

#[test]
fn non_srgb_equivalent_identity_for_non_srgb() {
    assert_eq!(non_srgb_equivalent(TextureFormat::Bgra8Unorm), TextureFormat::Bgra8Unorm);
    assert_eq!(non_srgb_equivalent(TextureFormat::Rgba8Unorm), TextureFormat::Rgba8Unorm);
}

#[test]
fn srgb_equivalent_maps_non_srgb_formats() {
    assert_eq!(srgb_equivalent(TextureFormat::Bgra8Unorm), TextureFormat::Bgra8UnormSrgb);
    assert_eq!(srgb_equivalent(TextureFormat::Rgba8Unorm), TextureFormat::Rgba8UnormSrgb);
}

#[test]
fn srgb_equivalent_identity_for_srgb() {
    assert_eq!(srgb_equivalent(TextureFormat::Bgra8UnormSrgb), TextureFormat::Bgra8UnormSrgb);
    assert_eq!(srgb_equivalent(TextureFormat::Rgba8UnormSrgb), TextureFormat::Rgba8UnormSrgb);
}

#[test]
fn adjust_srgb_selects_correct_variant() {
    assert_eq!(adjust_srgb(TextureFormat::Bgra8UnormSrgb, false), TextureFormat::Bgra8Unorm);
    assert_eq!(adjust_srgb(TextureFormat::Bgra8Unorm, true), TextureFormat::Bgra8UnormSrgb);
    assert_eq!(adjust_srgb(TextureFormat::Rgba8Unorm, false), TextureFormat::Rgba8Unorm);
    assert_eq!(adjust_srgb(TextureFormat::Rgba8UnormSrgb, true), TextureFormat::Rgba8UnormSrgb);
}

#[test]
fn formats_without_srgb_twin_are_left_alone() {
    for f in [TextureFormat::R8Unorm, TextureFormat::Rgb10a2Unorm, TextureFormat::Rgba16Float] {
        assert_eq!(srgb_equivalent(f), f);
        assert_eq!(non_srgb_equivalent(f), f);
    }
}

#[test]
fn srgb_round_trip_and_idempotence() {
    for f in [
        TextureFormat::Rgba8Unorm,
        TextureFormat::Rgba8UnormSrgb,
        TextureFormat::Bgra8Unorm,
        TextureFormat::Bgra8UnormSrgb,
    ] {
        assert_eq!(non_srgb_equivalent(srgb_equivalent(f)), non_srgb_equivalent(f));
        assert_eq!(srgb_equivalent(srgb_equivalent(f)), srgb_equivalent(f));
        assert_eq!(adjust_srgb(adjust_srgb(f, true), true), adjust_srgb(f, true));
    }
}
