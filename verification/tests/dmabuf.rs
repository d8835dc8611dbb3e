use cocuyo::dmabuf::{
    bgra_read_plan, check_dmabuf_extensions, choose_dmabuf_path, dmabuf_allocation_size, dmabuf_buffer,
    dmabuf_plane_fd, dmabuf_texture_formats, drm_to_vk_format, drm_to_wgpu_format, find_memory_type_index,
    is_importable_format, read_mapped_pixels, rgba_read_plan, supported_formats, to_drm_format, to_gst_format,
    ConvertReason, DmaBufBuffer, DmaBufError, DmaBufImportError, DmaBufReadError, DmaBufReadPlan, DrmFormat,
    FramePath, VideoFormat, VkFormat, DRM_FORMAT_MOD_INVALID, SPA_VIDEO_FLAG_MODIFIER,
};
use cocuyo::texture_format::TextureFormat;

#[test]
fn test_dmabuf_error_display() {
    let err = DmaBufError::NotAvailable("test".to_string());
    assert!(err.message().contains("test"));
}

#[test]
fn dmabuf_error_messages() {
    assert_eq!(DmaBufError::NotAvailable("x".to_string()).message(), "DMA-BUF not available: x");
    assert_eq!(DmaBufError::InvalidBuffer("y".to_string()).message(), "Invalid buffer: y");
    assert_eq!(DmaBufError::UnsupportedFormat("z".to_string()).message(), "Unsupported format: z");
}

#[test]
fn format_tables() {
    assert_eq!(to_gst_format(VideoFormat::Bgrx), Some("BGRx"));
    assert_eq!(to_gst_format(VideoFormat::I420), Some("I420"));
    assert_eq!(to_gst_format(VideoFormat::Other(99)), None);
    assert_eq!(to_drm_format(VideoFormat::Rgba), Some(DrmFormat::Abgr8888));
    assert_eq!(to_drm_format(VideoFormat::Bgrx), Some(DrmFormat::Xrgb8888));
    assert_eq!(to_drm_format(VideoFormat::Yuy2), Some(DrmFormat::Yuyv));
    assert_eq!(drm_to_vk_format(DrmFormat::Argb8888), Some(VkFormat::B8G8R8A8Srgb));
    assert_eq!(drm_to_vk_format(DrmFormat::Xbgr8888), Some(VkFormat::R8G8B8A8Srgb));
    assert_eq!(drm_to_vk_format(DrmFormat::Rgb888), None);
    assert_eq!(drm_to_wgpu_format(DrmFormat::Xrgb8888), Some(TextureFormat::Bgra8UnormSrgb));
    assert!(is_importable_format(DrmFormat::Abgr8888));
    assert!(!is_importable_format(DrmFormat::Yuv420));
    assert_eq!(supported_formats().len(), 6);
}

#[test]
fn plane_checks() {
    assert_eq!(
        dmabuf_plane_fd(0, 5),
        Err(DmaBufError::InvalidBuffer("Buffer has no data planes".to_string()))
    );
    assert_eq!(
        dmabuf_plane_fd(1, -1),
        Err(DmaBufError::NotAvailable("Buffer does not contain DMA-BUF file descriptor".to_string()))
    );
    assert_eq!(
        dmabuf_plane_fd(1, 1 << 40),
        Err(DmaBufError::InvalidBuffer("File descriptor 1099511627776 out of range".to_string()))
    );
    assert_eq!(dmabuf_plane_fd(2, 7), Ok(7));
}

#[test]
fn buffer_description() {
    assert_eq!(
        dmabuf_buffer(7, 640, 480, VideoFormat::Bgrx, "BGRx", 2560, 0, 0),
        Ok(DmaBufBuffer { fd: 7, width: 640, height: 480, format: DrmFormat::Xrgb8888, stride: 2560, offset: 0, modifier: 0 })
    );
    assert_eq!(
        dmabuf_buffer(7, 640, 480, VideoFormat::Other(3), "NV12", 640, 0, 0),
        Err(DmaBufError::UnsupportedFormat("Format NV12 not supported for DMA-BUF".to_string()))
    );
}

#[test]
fn read_plans() {
    assert_eq!(bgra_read_plan(2, 2, 8, 0, DrmFormat::Yuyv), Err(DmaBufReadError::UnsupportedFormat(DrmFormat::Yuyv)));
    assert_eq!(bgra_read_plan(2, 2, 7, 0, DrmFormat::Xrgb8888), Err(DmaBufReadError::InvalidBufferSize));
    assert_eq!(bgra_read_plan(0, 0, 0, 0, DrmFormat::Xrgb8888), Err(DmaBufReadError::InvalidBufferSize));
    assert_eq!(
        bgra_read_plan(2, 2, 8, 4, DrmFormat::Xbgr8888),
        Ok(DmaBufReadPlan { map_size: 20, swap_rb: true, opaque_alpha: true })
    );
    assert_eq!(
        bgra_read_plan(2, 2, 8, 0, DrmFormat::Argb8888),
        Ok(DmaBufReadPlan { map_size: 16, swap_rb: false, opaque_alpha: false })
    );
    assert_eq!(
        rgba_read_plan(2, 2, 8, 0, DrmFormat::Argb8888),
        Ok(DmaBufReadPlan { map_size: 16, swap_rb: true, opaque_alpha: false })
    );
    assert_eq!(rgba_read_plan(2, 2, 0, 0, DrmFormat::Abgr8888), Err(DmaBufReadError::InvalidBufferSize));
}

#[test]
fn read_mapped_xrgb_as_bgra() {
    let plan = bgra_read_plan(1, 2, 4, 0, DrmFormat::Xrgb8888).unwrap();
    let mapped = vec![1u8, 2, 3, 0, 4, 5, 6, 0];
    assert_eq!(read_mapped_pixels(&mapped, 1, 2, 4, 0, plan), vec![1, 2, 3, 255, 4, 5, 6, 255]);
    let rgba = rgba_read_plan(1, 2, 4, 0, DrmFormat::Xrgb8888).unwrap();
    assert_eq!(read_mapped_pixels(&mapped, 1, 2, 4, 0, rgba), vec![3, 2, 1, 255, 6, 5, 4, 255]);
}

#[test]
fn import_decisions() {
    assert_eq!(
        dmabuf_texture_formats(DrmFormat::Xrgb8888),
        Ok((VkFormat::B8G8R8A8Srgb, TextureFormat::Bgra8UnormSrgb, Some(TextureFormat::Bgra8Unorm)))
    );
    assert_eq!(dmabuf_texture_formats(DrmFormat::Rgb888), Err(DmaBufImportError::UnsupportedFormat(DrmFormat::Rgb888)));
    assert_eq!(
        check_dmabuf_extensions(false, false),
        Err(DmaBufImportError::ExtensionNotAvailable("VK_KHR_external_memory_fd"))
    );
    assert_eq!(
        check_dmabuf_extensions(true, false),
        Err(DmaBufImportError::ExtensionNotAvailable("VK_EXT_external_memory_dma_buf"))
    );
    assert_eq!(check_dmabuf_extensions(true, true), Ok(()));
}

#[test]
fn memory_type_choice() {
    let flags = [0b001u32, 0b110, 0b111];
    assert_eq!(find_memory_type_index(&flags, 0b111, 0), Some(0));
    assert_eq!(find_memory_type_index(&flags, 0b110, 0b010), Some(1));
    assert_eq!(find_memory_type_index(&flags, 0b101, 0b110), Some(2));
    assert_eq!(find_memory_type_index(&flags, 0b001, 0b100), None);
    assert_eq!(find_memory_type_index(&[], u32::MAX, 0), None);
}

#[test]
fn allocation_size() {
    assert_eq!(dmabuf_allocation_size(0, 16, 100), 116);
    assert_eq!(dmabuf_allocation_size(200, 16, 100), 200);
    assert_eq!(dmabuf_allocation_size(50, 16, 100), 116);
    assert_eq!(dmabuf_allocation_size(0, 1, u64::MAX), u64::MAX);
}

#[test]
fn frame_path_choice() {
    let f = SPA_VIDEO_FLAG_MODIFIER;
    assert_eq!(choose_dmabuf_path(f, 0, DrmFormat::Xrgb8888, true), FramePath::ZeroCopy);
    assert_eq!(choose_dmabuf_path(f | 1, DRM_FORMAT_MOD_INVALID, DrmFormat::Abgr8888, true), FramePath::ZeroCopy);
    assert_eq!(
        choose_dmabuf_path(0, 0, DrmFormat::Xrgb8888, true),
        FramePath::Convert(ConvertReason::ModifierNotNegotiated)
    );
    assert_eq!(choose_dmabuf_path(f, 5, DrmFormat::Xrgb8888, true), FramePath::Convert(ConvertReason::NonLinearModifier));
    assert_eq!(choose_dmabuf_path(f, 0, DrmFormat::Yuyv, true), FramePath::Convert(ConvertReason::NotImportable));
    assert_eq!(choose_dmabuf_path(f, 0, DrmFormat::Xrgb8888, false), FramePath::Convert(ConvertReason::ImportDisabled));
}

#[test]
fn out_of_range_descriptor_is_named_in_decimal() {
    assert_eq!(
        dmabuf_plane_fd(1, 2147483648),
        Err(DmaBufError::InvalidBuffer("File descriptor 2147483648 out of range".to_string()))
    );
    assert_eq!(
        dmabuf_plane_fd(1, i64::MAX),
        Err(DmaBufError::InvalidBuffer("File descriptor 9223372036854775807 out of range".to_string()))
    );
}
