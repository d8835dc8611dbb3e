use cocuyo::capture_target::{PickerIntent, PickerTab};
use cocuyo::cpu_sampling::{sample_region, SamplingStrategy};
use cocuyo::errors::{Dx12ImportError, ImportError, MetalImportError, RecordingError, SharedTextureError};
use cocuyo::frame::ImportGuard;
use cocuyo::gst::{
    assemble_backends, first_pipeline, is_drm_card_entry, resolved_backend, CudaDevice, GpuBackend, GstError,
    PipelineKind, VaapiDevice,
};

#[test]
fn error_messages() {
    assert_eq!(ImportError::wrap("vk failed".to_string()).message(), "vk failed");
    assert_eq!(RecordingError::StreamFailed("gone".to_string()).message(), "Capture stream error: gone");
    assert_eq!(RecordingError::ThreadPanicked.message(), "Capture thread panicked");
    assert_eq!(MetalImportError::MetalHalNotAvailable.message(), "Metal HAL backend not available");
    assert_eq!(
        MetalImportError::TextureCreationFailed.message(),
        "Failed to create Metal texture from IOSurface"
    );
    assert_eq!(Dx12ImportError::Dx12HalNotAvailable.message(), "DX12 HAL backend not available");
    assert_eq!(
        Dx12ImportError::OpenSharedHandleFailed("E_FAIL".to_string()).message(),
        "OpenSharedHandle failed: E_FAIL"
    );
    assert_eq!(SharedTextureError::Windows("bad".to_string()).message(), "Windows error: bad");
    assert_eq!(GstError::PipelineError("x".to_string()).message(), "Pipeline error: x");
    assert_eq!(GstError::InitError("y".to_string()).message(), "GStreamer init error: y");
    assert_eq!(GstError::ConversionError("z".to_string()).message(), "Conversion error: z");
}

#[test]
fn import_guard_disables_until_reset() {
    let mut guard = ImportGuard::new();
    assert!(guard.is_available());
    guard.mark_failed();
    assert!(!guard.is_available());
    guard.mark_failed();
    assert!(!guard.is_available());
    guard.reset();
    assert!(guard.is_available());
}

#[test]
fn backends_are_listed_with_cpu_last() {
    let cuda = CudaDevice { index: 0, name: "NVIDIA GPU (CUDA)".to_string() };
    let gl = VaapiDevice { path: "opengl".to_string(), name: "OpenGL (GPU)".to_string() };
    let all = assemble_backends(Some(cuda.clone()), Some(vec![gl.clone()]));
    assert_eq!(all, vec![GpuBackend::Cuda(cuda.clone()), GpuBackend::Vaapi(gl.clone()), GpuBackend::Cpu]);
    assert_eq!(assemble_backends(None, None), vec![GpuBackend::Cpu]);
    assert_eq!(all[0].label(), "NVIDIA GPU (CUDA)");
    assert_eq!(GpuBackend::Cpu.label(), "CPU (Software)");
}

#[test]
fn pipeline_fallback() {
    let cuda = GpuBackend::Cuda(CudaDevice { index: 2, name: "n".to_string() });
    assert_eq!(first_pipeline(&cuda), PipelineKind::Cuda(2));
    assert_eq!(first_pipeline(&GpuBackend::Cpu), PipelineKind::Cpu);
    assert_eq!(resolved_backend(&cuda, true), cuda);
    assert_eq!(resolved_backend(&cuda, false), GpuBackend::Cpu);
    assert_eq!(resolved_backend(&GpuBackend::Cpu, true), GpuBackend::Cpu);
}

#[test]
fn drm_card_entries() {
    assert!(is_drm_card_entry("card0"));
    assert!(is_drm_card_entry("card1-DP-2"));
    assert!(!is_drm_card_entry("renderD128"));
    assert!(!is_drm_card_entry("card0-render"));
    assert!(!is_drm_card_entry("car"));
}

#[test]
fn simple_sampling_modes() {
    assert_eq!(SamplingStrategy::default(), SamplingStrategy::Average);
    assert_eq!(
        SamplingStrategy::all(),
        vec![SamplingStrategy::Average, SamplingStrategy::Max, SamplingStrategy::Min]
    );
    assert_eq!(SamplingStrategy::Max.label(), "Max (brightest)");
    let data = vec![0u8, 0, 255, 255, 255, 255, 255, 255];
    assert_eq!(sample_region(&data, 2, 1, 0, 0, 2, 1, SamplingStrategy::Average), Some((255, 127, 127)));
    assert_eq!(sample_region(&data, 2, 1, 0, 0, 2, 1, SamplingStrategy::Min), Some((255, 0, 0)));
    assert_eq!(sample_region(&data, 2, 1, 3, 0, 4, 1, SamplingStrategy::Max), None);
}

#[test]
fn picker_choices_compare() {
    assert_ne!(PickerTab::Screens, PickerTab::Windows);
    assert_eq!(PickerIntent::StartAmbient, PickerIntent::StartAmbient);
}
