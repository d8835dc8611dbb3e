use cocuyo::adapters::{build_picker_options, resolve_selection, GpuAdapter, GpuAdapterSelection, GraphicsBackend};

fn adapter(name: &str, backend: GraphicsBackend) -> GpuAdapter {
    GpuAdapter { name: name.to_string(), backend }
}

fn named(sel: &GpuAdapterSelection) -> Option<(&str, GraphicsBackend)> {
    match sel {
        GpuAdapterSelection::Auto => None,
        GpuAdapterSelection::Named(a) => Some((a.name.as_str(), a.backend)),
    }
}

#[test]
fn picker_lists_auto_first() {
    let adapters = [adapter("A", GraphicsBackend::Vulkan), adapter("B", GraphicsBackend::Gl)];
    let options = build_picker_options(&adapters);
    assert_eq!(options.len(), 3);
    assert!(matches!(options[0], GpuAdapterSelection::Auto));
    assert_eq!(named(&options[2]), Some(("B", GraphicsBackend::Gl)));
}

#[test]
fn resolve_matches_case_insensitive_substring_and_backend() {
    let adapters = [
        adapter("Intel(R) UHD Graphics 630", GraphicsBackend::Vulkan),
        adapter("NVIDIA GeForce RTX 3080", GraphicsBackend::Dx12),
        adapter("NVIDIA GeForce RTX 3080", GraphicsBackend::Vulkan),
    ];
    let pref = adapter("geforce rtx", GraphicsBackend::Vulkan);
    let sel = resolve_selection(Some(&pref), &adapters);
    assert_eq!(named(&sel), Some(("NVIDIA GeForce RTX 3080", GraphicsBackend::Vulkan)));
}

#[test]
fn resolve_falls_back_to_auto() {
    let adapters = [adapter("Intel(R) UHD Graphics 630", GraphicsBackend::Vulkan)];
    assert!(matches!(resolve_selection(None, &adapters), GpuAdapterSelection::Auto));
    let pref = adapter("Radeon", GraphicsBackend::Vulkan);
    assert!(matches!(resolve_selection(Some(&pref), &adapters), GpuAdapterSelection::Auto));
    let wrong_backend = adapter("intel", GraphicsBackend::Metal);
    assert!(matches!(resolve_selection(Some(&wrong_backend), &adapters), GpuAdapterSelection::Auto));
}
