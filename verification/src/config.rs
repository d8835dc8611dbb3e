//! Application settings and their defaults.

use vstd::prelude::*;

use crate::adapters::GpuAdapter;
use crate::ambient::BulbInfo;

verus! {

/// Persisted application settings.
#[derive(Debug)]
pub struct AppConfig {
    pub preferred_adapter: Option<GpuAdapter>,
    pub preferred_backend: Option<String>,
    pub saved_bulbs: Vec<BulbInfo>,
    pub selected_bulb_macs: Vec<String>,
    pub force_cpu_sampling: bool,
    pub bulb_update_interval_ms: u64,
    pub min_brightness_percent: u8,
    pub white_color_temp: u16,
    pub minimize_to_tray: bool,
    pub capture_fps_limit: u32,
    pub show_perf_overlay: bool,
    pub capture_resolution_scale: u32,
    pub smooth_transitions: bool,
}

/// Closing the main window hides it to the tray by default.
pub fn default_minimize_to_tray() -> (b: bool)
    ensures
        b,
{
    true
}

/// No capture frame-rate limit by default (0 means unlimited).
pub fn default_capture_fps_limit() -> (v: u32)
    ensures
        v == 0,
{
    0
}

/// Bulbs are updated every 150 ms by default.
pub fn default_bulb_update_ms() -> (v: u64)
    ensures
        v == 150,
{
    150
}

/// Bulbs never go below 10% brightness by default.
pub fn default_min_brightness() -> (v: u8)
    ensures
        v == 10,
{
    10
}

/// White is sent as 6500 K by default.
pub fn default_white_temp() -> (v: u16)
    ensures
        v == 6500,
{
    6500
}

/// Frames are captured at full resolution (100%) by default.
pub fn default_capture_resolution_scale() -> (v: u32)
    ensures
        v == 100,
{
    100
}

/// Color changes are smoothed by default.
pub fn default_smooth_transitions() -> (b: bool)
    ensures
        b,
{
    true
}

/// The settings of a fresh installation.
pub open spec fn is_default_config(c: AppConfig) -> bool {
    &&& c.preferred_adapter is None
    &&& c.preferred_backend is None
    &&& c.saved_bulbs@.len() == 0
    &&& c.selected_bulb_macs@.len() == 0
    &&& !c.force_cpu_sampling
    &&& c.bulb_update_interval_ms == 150
    &&& c.min_brightness_percent == 10
    &&& c.white_color_temp == 6500
    &&& c.minimize_to_tray
    &&& c.capture_fps_limit == 0
    &&& !c.show_perf_overlay
    &&& c.capture_resolution_scale == 100
    &&& c.smooth_transitions
}

impl Default for AppConfig {
    fn default() -> (out: Self)
        ensures
            is_default_config(out),
    {
        AppConfig {
            preferred_adapter: None,
            preferred_backend: None,
            saved_bulbs: Vec::new(),
            selected_bulb_macs: Vec::new(),
            force_cpu_sampling: false,
            bulb_update_interval_ms: default_bulb_update_ms(),
            min_brightness_percent: default_min_brightness(),
            white_color_temp: default_white_temp(),
            minimize_to_tray: default_minimize_to_tray(),
            capture_fps_limit: default_capture_fps_limit(),
            show_perf_overlay: false,
            capture_resolution_scale: default_capture_resolution_scale(),
            smooth_transitions: default_smooth_transitions(),
        }
    }
}

} // verus!
