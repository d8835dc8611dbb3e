//! The WiZ backend: light commands, restore plans and the checks that
//! `wiz_lights_rs` applies to command values.

use vstd::prelude::*;
use vstd::utf8::{encode_utf8, is_char_boundary};

use crate::ambient::{brightness_of, max3, max_u8, scale_channel, scaled_channel, BulbColor, IpAddress};
use crate::sampling::Rgb;

use super::{LightColor, LightId, SavedBackendState};

verus! {

/// The WiZ lighting backend.
#[derive(Debug, Clone, Copy)]
pub struct WizBackend;

/// The light command a sampled pixel maps to: the brightest channel scaled to
/// 255, its intensity as brightness, and a white temperature for black or
/// all-white pixels.
pub open spec fn light_color_spec(r: u8, g: u8, b: u8, min_brightness: u8, white_temp: u16) -> LightColor {
    let m = max3(r as int, g as int, b as int);
    if m == 0 {
        LightColor { r: 0, g: 0, b: 0, brightness: min_brightness, color_temp: Some(white_temp) }
    } else {
        let br = brightness_of(m, min_brightness as int) as u8;
        let nr = scaled_channel(r as int, m) as u8;
        let ng = scaled_channel(g as int, m) as u8;
        let nb = scaled_channel(b as int, m) as u8;
        if nr == 255 && ng == 255 && nb == 255 {
            LightColor { r: nr, g: ng, b: nb, brightness: br, color_temp: Some(white_temp) }
        } else {
            LightColor { r: nr, g: ng, b: nb, brightness: br, color_temp: None }
        }
    }
}

/// Byte offset where the short form of an id starts: its last 8 bytes.
pub open spec fn short_id_start(len: int) -> int {
    if len >= 8 { len - 8 } else { 0 }
}

/// Slicing the id at that offset is allowed (it falls on a character boundary).
pub open spec fn short_id_start_ok(id: Seq<char>) -> bool {
    &&& encode_utf8(id).len() <= usize::MAX
    &&& is_char_boundary(encode_utf8(id), short_id_start(encode_utf8(id).len() as int))
}

/// The bytes of the short form of an id.
pub open spec fn short_id_bytes(id: Seq<char>) -> Seq<u8> {
    let bytes = encode_utf8(id);
    bytes.subrange(short_id_start(bytes.len() as int), bytes.len() as int)
}

impl WizBackend {
    pub fn new() -> (out: Self) {
        WizBackend
    }

    /// Name of the backend for display.
    pub fn display_name(&self) -> (s: &'static str)
        ensures
            s@ == "WiZ"@,
    {
        "WiZ"
    }

    /// What a light of this backend is called.
    pub fn light_noun(&self) -> (s: &'static str)
        ensures
            s@ == "Bulb"@,
    {
        "Bulb"
    }

    /// Map a sampled pixel to a WiZ command: WiZ expects "pure" colors where
    /// the dominant channel is 0xFF; intensity becomes brightness; black and
    /// all-white pixels become a white-temperature command.
    pub fn map_color(&self, r: u8, g: u8, b: u8, min_brightness: u8, white_temp: u16) -> (out: LightColor)
        requires
            max3(r as int, g as int, b as int) == 0 || min_brightness <= 100,
        ensures
            out == light_color_spec(r, g, b, min_brightness, white_temp),
    {
        let max = max_u8(max_u8(r, g), b);
        if max == 0 {
            return LightColor { r: 0, g: 0, b: 0, brightness: min_brightness, color_temp: Some(white_temp) };
        }
        let p: u16 = (max as u16 * 100) / 255;
        let brightness: u8 = if p < min_brightness as u16 {
            min_brightness
        } else if p > 100 {
            100
        } else {
            p as u8
        };
        let nr = scale_channel(r, max);
        let ng = scale_channel(g, max);
        let nb = scale_channel(b, max);
        if nr == 255 && ng == 255 && nb == 255 {
            LightColor { r: nr, g: ng, b: nb, brightness, color_temp: Some(white_temp) }
        } else {
            LightColor { r: nr, g: ng, b: nb, brightness, color_temp: None }
        }
    }

    /// The last 8 bytes of the light id (the whole id if shorter).
    pub fn short_id(&self, id: &LightId) -> (out: String)
        requires
            short_id_start_ok(id.0@),
        ensures
            encode_utf8(out@) == short_id_bytes(id.0@),
    {
        let s: &str = id.0.as_str();
        let len = s.len();
        let start = if len >= 8 { len - 8 } else { 0 };
        let (_, tail) = s.split_at(start);
        tail.to_owned()
    }
}

/// Scene ids that `wiz_lights_rs::SceneMode` knows.
pub open spec fn valid_scene_id(id: u16) -> bool {
    (1 <= id <= 33) || id == 35 || id == 36 || id == 1000
}

/// Calls `wiz_lights_rs::Kelvin::create`. Trusted: it accepts exactly the
/// temperatures 1000..=8000 K and keeps the value.
#[verifier::external_body]
fn kelvin_create(kelvin: u16) -> (out: Option<u16>)
    ensures
        out == (if 1000 <= kelvin <= 8000 { Some(kelvin) } else { None::<u16> }),
{
    match wiz_lights_rs::Kelvin::create(kelvin) {
        Some(k) => Some(k.kelvin()),
        None => None,
    }
}

/// Calls `wiz_lights_rs::Brightness::create`. Trusted: it accepts exactly the
/// percentages 10..=100 and keeps the value.
#[verifier::external_body]
fn brightness_create(value: u8) -> (out: Option<u8>)
    ensures
        out == (if 10 <= value <= 100 { Some(value) } else { None::<u8> }),
{
    match wiz_lights_rs::Brightness::create(value) {
        Some(b) => Some(b.value()),
        None => None,
    }
}

/// Calls `wiz_lights_rs::SceneMode::create`. Trusted: it accepts exactly the
/// scene ids of its `SceneMode` enum, and the scene keeps the id.
#[verifier::external_body]
fn scene_create(id: u16) -> (out: Option<u16>)
    ensures
        out == (if valid_scene_id(id) { Some(id) } else { None::<u16> }),
{
    match wiz_lights_rs::SceneMode::create(id) {
        Some(s) => Some(s.id()),
        None => None,
    }
}

/// The fields of a WiZ `setPilot` payload that this application sets.
#[derive(Debug, Clone, Copy, PartialEq, Eq)]
pub struct WizCommand {
    pub scene: Option<u16>,
    pub dimming: Option<u8>,
    pub temp: Option<u16>,
    pub rgb: Option<Rgb>,
}

impl WizCommand {
    /// A command with nothing set.
    pub fn new() -> (out: Self)
        ensures
            out == (WizCommand { scene: None, dimming: None, temp: None, rgb: None }),
    {
        WizCommand { scene: None, dimming: None, temp: None, rgb: None }
    }

    /// True if at least one lighting attribute is set (the payload is worth sending).
    pub fn is_valid(&self) -> (b: bool)
        ensures
            b == (self.scene is Some || self.dimming is Some || self.temp is Some || self.rgb is Some),
    {
        self.scene.is_some() || self.dimming.is_some() || self.temp.is_some() || self.rgb.is_some()
    }
}

pub open spec fn checked_kelvin(k: u16) -> Option<u16> {
    if 1000 <= k <= 8000 { Some(k) } else { None }
}

pub open spec fn checked_brightness(b: u8) -> Option<u8> {
    if 10 <= b <= 100 { Some(b) } else { None }
}

/// The payload sent for a light command: a white temperature (when the
/// command has one WiZ accepts) or the RGB color, plus the brightness when
/// WiZ accepts it.
pub open spec fn light_command_spec(color: LightColor) -> WizCommand {
    match color.color_temp {
        Some(t) => WizCommand { scene: None, dimming: checked_brightness(color.brightness), temp: checked_kelvin(t), rgb: None },
        None => WizCommand { scene: None, dimming: checked_brightness(color.brightness), temp: None, rgb: Some((color.r, color.g, color.b)) },
    }
}

/// Build the payload sent for a light command.
pub fn light_command(color: &LightColor) -> (out: WizCommand)
    ensures
        out == light_command_spec(*color),
{
    let mut cmd = WizCommand::new();
    match color.color_temp {
        Some(t) => {
            cmd.temp = kelvin_create(t);
        },
        None => {
            cmd.rgb = Some((color.r, color.g, color.b));
        },
    }
    cmd.dimming = brightness_create(color.brightness);
    cmd
}

/// The payload sent for a bulb command of the ambient loop.
pub open spec fn bulb_command_spec(color: BulbColor, brightness: u8) -> WizCommand {
    match color {
        BulbColor::Rgb(r, g, b) => WizCommand { scene: None, dimming: checked_brightness(brightness), temp: None, rgb: Some((r, g, b)) },
        BulbColor::White(k) => WizCommand { scene: None, dimming: checked_brightness(brightness), temp: checked_kelvin(k), rgb: None },
    }
}

/// Build the payload sent for a bulb command of the ambient loop.
pub fn bulb_command(color: BulbColor, brightness: u8) -> (out: WizCommand)
    ensures
        out == bulb_command_spec(color, brightness),
{
    let mut cmd = WizCommand::new();
    match color {
        BulbColor::Rgb(r, g, b) => {
            cmd.rgb = Some((r, g, b));
        },
        BulbColor::White(k) => {
            cmd.temp = kelvin_create(k);
        },
    }
    cmd.dimming = brightness_create(brightness);
    cmd
}

/// How to put a light back as it was.
#[derive(Debug, Clone, Copy, PartialEq, Eq)]
pub struct RestorePlan {
    /// Payload restoring the saved mode and brightness.
    pub command: WizCommand,
    /// Whether the payload is sent (it sets at least one attribute).
    pub send_command: bool,
    /// Whether the light is switched off afterwards (it was off before).
    pub power_off: bool,
}

/// The restore plan for a saved state. A light reports both its scene and
/// the RGB values that scene currently produces, so a single mode is
/// restored: the scene if one was active, else the white temperature, else
/// the color; the brightness applies to all modes.
pub open spec fn restore_plan_spec(state: SavedBackendState) -> RestorePlan {
    match state {
        SavedBackendState::Wiz { was_on, color, brightness, scene_id, temperature } => {
            let dimming = match brightness {
                Some(b) => checked_brightness(b),
                None => None,
            };
            let base = WizCommand { scene: None, dimming, temp: None, rgb: None };
            let cmd = match scene_id {
                Some(id) => WizCommand { scene: if valid_scene_id(id) { Some(id) } else { None }, ..base },
                None => match temperature {
                    Some(k) => WizCommand { temp: checked_kelvin(k), ..base },
                    None => match color {
                        Some(c) => WizCommand { rgb: Some(c), ..base },
                        None => base,
                    },
                },
            };
            RestorePlan {
                command: cmd,
                send_command: cmd.scene is Some || cmd.dimming is Some || cmd.temp is Some || cmd.rgb is Some,
                power_off: !was_on,
            }
        },
    }
}

/// Plan how to restore a light to its saved state (best-effort).
pub fn restore_plan(state: &SavedBackendState) -> (out: RestorePlan)
    ensures
        out == restore_plan_spec(*state),
{
    match state {
        SavedBackendState::Wiz { was_on, color, brightness, scene_id, temperature } => {
            let mut cmd = WizCommand::new();
            if let Some(id) = scene_id {
                cmd.scene = scene_create(*id);
            } else if let Some(k) = temperature {
                cmd.temp = kelvin_create(*k);
            } else if let Some(c) = color {
                cmd.rgb = Some(*c);
            }
            if let Some(b) = brightness {
                cmd.dimming = brightness_create(*b);
            }
            let send = cmd.is_valid();
            RestorePlan { command: cmd, send_command: send, power_off: !*was_on }
        },
    }
}

/// A WiZ bulb's state as read before ambient mode took over.
#[derive(Debug, Clone, Copy, PartialEq, Eq)]
pub struct SavedBulbState {
    pub ip: IpAddress,
    pub was_on: bool,
    pub color: Option<Rgb>,
    pub brightness: Option<u8>,
    pub scene_id: Option<u16>,
    pub temperature: Option<u16>,
}

/// The backend state a saved bulb state stands for.
pub open spec fn bulb_backend_state(s: SavedBulbState) -> SavedBackendState {
    SavedBackendState::Wiz {
        was_on: s.was_on,
        color: s.color,
        brightness: s.brightness,
        scene_id: s.scene_id,
        temperature: s.temperature,
    }
}

/// Plan how to restore a bulb to its saved state: the same plan as for the
/// light with that backend state.
pub fn bulb_restore_plan(state: &SavedBulbState) -> (out: RestorePlan)
    ensures
        out == restore_plan_spec(bulb_backend_state(*state)),
{
    restore_plan(
        &SavedBackendState::Wiz {
            was_on: state.was_on,
            color: state.color,
            brightness: state.brightness,
            scene_id: state.scene_id,
            temperature: state.temperature,
        },
    )
}

/// A pixel becomes a white-temperature light command exactly when its three
/// channels are equal (black included), at the given temperature; any other
/// pixel keeps RGB channels in which a channel is 255 exactly when it is (one
/// of) the brightest of the pixel.
pub proof fn lemma_light_white_exactly_for_grey(r: u8, g: u8, b: u8, min_brightness: u8, white_temp: u16)
    ensures
        ({
            let light = light_color_spec(r, g, b, min_brightness, white_temp);
            &&& (light.color_temp is Some) <==> (r == g && g == b)
            &&& light.color_temp is Some ==> light.color_temp == Some(white_temp)
            &&& light.color_temp is None ==> {
                &&& (light.r == 255 <==> (r >= g && r >= b))
                &&& (light.g == 255 <==> (g >= r && g >= b))
                &&& (light.b == 255 <==> (b >= r && b >= g))
            }
            &&& (r == 0 && g == 0 && b == 0) ==> light.brightness == min_brightness
        }),
{
    let m = max3(r as int, g as int, b as int);
    if m > 0 {
        crate::ambient::lemma_scaled_channel_bounds(r as int, m);
        crate::ambient::lemma_scaled_channel_bounds(g as int, m);
        crate::ambient::lemma_scaled_channel_bounds(b as int, m);
    }
}

/// The payload of a light command: the brightness is set exactly when it is
/// one WiZ accepts (10 to 100), whatever the mode; a white command sets the
/// temperature (when WiZ accepts it, 1000 to 8000 K) and no color; a color
/// command sets its channels and no temperature; no scene is set.
pub proof fn lemma_light_command_payload(color: LightColor)
    ensures
        ({
            let cmd = light_command_spec(color);
            &&& (10 <= color.brightness <= 100) ==> cmd.dimming == Some(color.brightness)
            &&& !(10 <= color.brightness <= 100) ==> cmd.dimming is None
            &&& cmd.scene is None
            &&& match color.color_temp {
                Some(t) => cmd.rgb is None && ((1000 <= t <= 8000) ==> cmd.temp == Some(t))
                    && (!(1000 <= t <= 8000) ==> cmd.temp is None),
                None => cmd.temp is None && cmd.rgb == Some((color.r, color.g, color.b)),
            }
        }),
{
}

/// The payload of a bulb command of the ambient loop: the brightness is set
/// exactly when WiZ accepts it (10 to 100), for RGB and white alike; an RGB
/// command sets its channels and no temperature; a white command sets the
/// temperature when WiZ accepts it (1000 to 8000 K) and no channels; no scene
/// is set.
pub proof fn lemma_bulb_command_payload(color: BulbColor, brightness: u8)
    ensures
        ({
            let cmd = bulb_command_spec(color, brightness);
            &&& (10 <= brightness <= 100) ==> cmd.dimming == Some(brightness)
            &&& !(10 <= brightness <= 100) ==> cmd.dimming is None
            &&& cmd.scene is None
            &&& match color {
                BulbColor::Rgb(r, g, b) => cmd.temp is None && cmd.rgb == Some((r, g, b)),
                BulbColor::White(k) => cmd.rgb is None && ((1000 <= k <= 8000) ==> cmd.temp == Some(k))
                    && (!(1000 <= k <= 8000) ==> cmd.temp is None),
            }
        }),
{
}

/// Restoring a light: the saved brightness is applied (when WiZ accepts it,
/// 10 to 100) whatever mode is restored, and none is set without one; the
/// mode restored is the saved scene if any (when WiZ knows it), else the
/// saved temperature (when accepted), else the saved color, one mode only;
/// the payload is sent when it sets anything, and the light is switched off
/// afterwards exactly when it was off.
pub proof fn lemma_restore_plan_payload(
    was_on: bool,
    color: Option<Rgb>,
    brightness: Option<u8>,
    scene_id: Option<u16>,
    temperature: Option<u16>,
)
    ensures
        ({
            let plan = restore_plan_spec(SavedBackendState::Wiz { was_on, color, brightness, scene_id, temperature });
            let cmd = plan.command;
            &&& match brightness {
                Some(b) => ((10 <= b <= 100) ==> cmd.dimming == Some(b)) && (!(10 <= b <= 100) ==> cmd.dimming is None),
                None => cmd.dimming is None,
            }
            &&& match scene_id {
                Some(id) => cmd.temp is None && cmd.rgb is None
                    && ((1 <= id <= 33 || id == 35 || id == 36 || id == 1000) ==> cmd.scene == scene_id),
                None => match temperature {
                    Some(k) => cmd.scene is None && cmd.rgb is None && ((1000 <= k <= 8000) ==> cmd.temp == temperature),
                    None => cmd.scene is None && cmd.temp is None && cmd.rgb == color,
                },
            }
            &&& plan.send_command == (cmd.scene is Some || cmd.dimming is Some || cmd.temp is Some || cmd.rgb is Some)
            &&& plan.power_off == !was_on
        }),
{
}

/// A restored light never gets both a scene and a color or temperature.
pub proof fn lemma_restore_single_mode(state: SavedBackendState)
    ensures
        ({
            let c = restore_plan_spec(state).command;
            &&& c.scene is Some ==> c.temp is None && c.rgb is None
            &&& c.temp is Some ==> c.rgb is None
        }),
{
}

/// The light command of a pixel and the bulb command of the ambient loop
/// agree: same brightness, a white temperature exactly when the bulb command
/// is white, and otherwise the same RGB channels.
pub proof fn lemma_light_color_matches_bulb_color(r: u8, g: u8, b: u8, min_brightness: u8, white_temp: u16)
    ensures
        ({
            let light = light_color_spec(r, g, b, min_brightness, white_temp);
            let (bulb, brightness) = crate::ambient::bulb_color_spec(r, g, b, min_brightness, white_temp);
            &&& light.brightness == brightness
            &&& match bulb {
                BulbColor::White(t) => light.color_temp == Some(t),
                BulbColor::Rgb(nr, ng, nb) => light.color_temp is None && light.r == nr && light.g == ng && light.b == nb,
            }
        }),
{
    let m = max3(r as int, g as int, b as int);
    if m > 0 {
        crate::ambient::lemma_scaled_channel_bounds(r as int, m);
        crate::ambient::lemma_scaled_channel_bounds(g as int, m);
        crate::ambient::lemma_scaled_channel_bounds(b as int, m);
    }
}

/// The IPv4 address to reach a light at; WiZ lights are IPv4 only.
pub fn ipv4_target(ip: IpAddress) -> (out: Option<u32>)
    ensures
        out == (match ip {
            IpAddress::V4(a) => Some(a),
            IpAddress::V6(_) => None::<u32>,
        }),
{
    match ip {
        IpAddress::V4(a) => Some(a),
        IpAddress::V6(_) => None,
    }
}

} // verus!
