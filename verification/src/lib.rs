//! Screen-driven ambient lighting: pixel sampling, color mapping for WiZ
//! bulbs, bulb bookkeeping and the recording lifecycle, with contracts.

pub mod adapters;
pub mod ambient;
pub mod bulb_setup;
pub mod capture_target;
pub mod config;
pub mod cpu_sampling;
pub mod dmabuf;
pub mod errors;
pub mod frame;
pub mod gst;
pub mod lighting;
pub mod pixels;
pub mod recording;
pub mod sampling;
pub mod shell;
pub mod text;
pub mod texture_format;
