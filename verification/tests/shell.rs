use cocuyo::config::{
    default_bulb_update_ms, default_capture_fps_limit, default_capture_resolution_scale, default_min_brightness,
    default_minimize_to_tray, default_smooth_transitions, default_white_temp, AppConfig,
};
use cocuyo::shell::{
    header_title, on_tray_action, on_window_closed, window_title, ConfigDirty, MainClose, TrayAction, TrayResponse,
    WindowKind,
};

#[test]
fn titles() {
    assert_eq!(window_title(Some(WindowKind::Main)), "Cocuyo");
    assert_eq!(window_title(Some(WindowKind::BulbSetup)), "Cocuyo - Bulb Setup");
    assert_eq!(window_title(None), "");
    assert_eq!(header_title(Some(WindowKind::CapturePicker)), "Select Capture Target");
    assert_eq!(header_title(Some(WindowKind::ProfileDialog)), "Profiles");
}

#[test]
fn closing_windows() {
    let settings = on_window_closed(Some(WindowKind::Settings), true, true, false);
    assert!(settings.flush_config && !settings.drop_picker && settings.main == MainClose::NotMain);
    let picker = on_window_closed(Some(WindowKind::CapturePicker), true, true, false);
    assert!(picker.drop_picker && !picker.flush_config);
    let dialog = on_window_closed(Some(WindowKind::ProfileDialog), false, false, false);
    assert!(dialog.drop_profile_dialog && dialog.flush_config);
    assert_eq!(on_window_closed(Some(WindowKind::Main), true, true, false).main, MainClose::HideToTray);
    assert_eq!(on_window_closed(Some(WindowKind::Main), true, false, true).main, MainClose::HideToTray);
    assert_eq!(on_window_closed(Some(WindowKind::Main), true, false, false).main, MainClose::Shutdown);
    assert_eq!(on_window_closed(Some(WindowKind::Main), false, true, true).main, MainClose::Shutdown);
    assert_eq!(on_window_closed(None, true, true, true).main, MainClose::NotMain);
}

#[test]
fn tray_actions() {
    assert_eq!(on_tray_action(TrayAction::ToggleWindow, true, false), TrayResponse::HideMainWindow);
    assert_eq!(on_tray_action(TrayAction::ToggleWindow, false, false), TrayResponse::OpenMainWindow);
    assert_eq!(on_tray_action(TrayAction::ToggleAmbient, true, true), TrayResponse::StopAmbient);
    assert_eq!(on_tray_action(TrayAction::ToggleAmbient, true, false), TrayResponse::StartAmbient);
    assert_eq!(on_tray_action(TrayAction::Exit, true, true), TrayResponse::Shutdown);
}

#[test]
fn settings_are_written_once_per_change() {
    let mut dirty = ConfigDirty::new();
    assert!(!dirty.take_flush());
    dirty.mark();
    dirty.mark();
    assert!(dirty.take_flush());
    assert!(!dirty.take_flush());
}

#[test]
fn default_config_values() {
    let c = AppConfig::default();
    assert!(c.preferred_adapter.is_none() && c.preferred_backend.is_none());
    assert!(c.saved_bulbs.is_empty() && c.selected_bulb_macs.is_empty());
    assert!(!c.force_cpu_sampling && !c.show_perf_overlay);
    assert_eq!(c.bulb_update_interval_ms, 150);
    assert_eq!(c.min_brightness_percent, 10);
    assert_eq!(c.white_color_temp, 6500);
    assert_eq!(c.capture_resolution_scale, 100);
    assert_eq!(c.capture_fps_limit, 0);
    assert!(c.minimize_to_tray && c.smooth_transitions);
    assert!(default_minimize_to_tray() && default_smooth_transitions());
    assert_eq!(
        (default_capture_fps_limit(), default_bulb_update_ms(), default_min_brightness()),
        (0, 150, 10)
    );
    assert_eq!((default_white_temp(), default_capture_resolution_scale()), (6500, 100));
}
