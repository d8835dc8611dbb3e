//! Lighting backends: mapping sampled colors to light commands and the data
//! kept about each light.

pub mod wiz;

use vstd::prelude::*;

use crate::ambient::{IpAddress, RegionColor};
use crate::sampling::Rgb;

pub use self::wiz::WizBackend;
use self::wiz::light_color_spec;

verus! {

/// Opaque light identifier. For WiZ this is the MAC address; for other
/// backends it may be an entity ID or similar unique key.
#[derive(Debug)]
pub struct LightId(pub String);

impl Clone for LightId {
    fn clone(&self) -> (out: Self)
        ensures
            out == *self,
    {
        LightId(self.0.clone())
    }
}

/// Backend-specific data stored alongside each light.
#[derive(Debug)]
pub enum BackendData {
    Wiz { ip: IpAddress, mac: String },
}

impl Clone for BackendData {
    fn clone(&self) -> (out: Self)
        ensures
            out == *self,
    {
        match self {
            BackendData::Wiz { ip, mac } => BackendData::Wiz { ip: *ip, mac: mac.clone() },
        }
    }
}

/// Information about a discovered light.
#[derive(Debug)]
pub struct LightInfo {
    pub id: LightId,
    pub name: Option<String>,
    pub backend_data: BackendData,
}

impl Clone for LightInfo {
    fn clone(&self) -> (out: Self)
        ensures
            out == *self,
    {
        let name = match &self.name {
            Some(n) => Some(n.clone()),
            None => None,
        };
        LightInfo { id: self.id.clone(), name, backend_data: self.backend_data.clone() }
    }
}

/// A color command ready to send to a light.
#[derive(Debug, Clone, Copy, PartialEq, Eq, Structural)]
pub struct LightColor {
    pub r: u8,
    pub g: u8,
    pub b: u8,
    pub brightness: u8,
    pub color_temp: Option<u16>,
}

/// Backend-specific saved state data.
#[derive(Debug, Clone, Copy, PartialEq, Eq)]
pub enum SavedBackendState {
    Wiz {
        was_on: bool,
        color: Option<Rgb>,
        brightness: Option<u8>,
        scene_id: Option<u16>,
        temperature: Option<u16>,
    },
}

/// Saved state for restoring a light to its previous configuration.
#[derive(Debug)]
pub struct SavedLightState {
    pub info: LightInfo,
    pub backend_state: SavedBackendState,
}

/// Top-level enum wrapping concrete lighting backends.
pub enum LightingBackend {
    Wiz(WizBackend),
}

impl LightingBackend {
    /// Map a sampled pixel to this backend's light command.
    pub fn map_color(&self, r: u8, g: u8, b: u8, min_brightness: u8, white_temp: u16) -> (out: LightColor)
        requires
            crate::ambient::max3(r as int, g as int, b as int) == 0 || min_brightness <= 100,
        ensures
            out == light_color_spec(r, g, b, min_brightness, white_temp),
    {
        match self {
            Self::Wiz(backend) => backend.map_color(r, g, b, min_brightness, white_temp),
        }
    }

    /// A short form of a light id for display (the last 8 bytes for WiZ).
    pub fn short_id(&self, id: &LightId) -> (out: String)
        requires
            wiz::short_id_start_ok(id.0@),
        ensures
            vstd::utf8::encode_utf8(out@) == wiz::short_id_bytes(id.0@),
    {
        match self {
            Self::Wiz(b) => b.short_id(id),
        }
    }
}

/// Index of the first light whose id is `id`.
pub open spec fn first_light(lights: Seq<LightInfo>, id: Seq<char>) -> Option<int>
    decreases lights.len(),
{
    if lights.len() == 0 {
        None
    } else {
        match first_light(lights.drop_last(), id) {
            Some(i) => Some(i),
            None => if lights.last().id.0@ == id { Some(lights.len() - 1) } else { None },
        }
    }
}

pub proof fn lemma_first_light(lights: Seq<LightInfo>, id: Seq<char>)
    ensures
        first_light(lights, id) matches Some(i) ==> 0 <= i < lights.len() && lights[i].id.0@ == id
            && forall|j: int| 0 <= j < i ==> (#[trigger] lights[j]).id.0@ != id,
        first_light(lights, id) is None ==> forall|j: int| 0 <= j < lights.len() ==> (#[trigger] lights[j]).id.0@ != id,
    decreases lights.len(),
{
    if lights.len() > 0 {
        let t = lights.drop_last();
        lemma_first_light(t, id);
        assert forall|j: int| 0 <= j < t.len() implies t[j] == lights[j] by {}
    }
}

fn find_light(lights: &[LightInfo], id: &String) -> (out: Option<usize>)
    ensures
        match first_light(lights@, id@) {
            Some(i) => out == Some(i as usize),
            None => out is None,
        },
{
    let mut i: usize = 0;
    while i < lights.len()
        invariant
            i <= lights@.len(),
            first_light(lights@.take(i as int), id@) is None,
        decreases lights@.len() - i,
    {
        assert(lights@.take(i + 1).drop_last() =~= lights@.take(i as int));
        if lights[i].id.0 == *id {
            assert(first_light(lights@.take(i + 1), id@) == Some(i as int));
            proof {
                lemma_first_light(lights@, id@);
                lemma_first_light(lights@.take(i as int), id@);
                match first_light(lights@, id@) {
                    Some(j) => {
                        if j < i {
                            assert(lights@.take(i as int)[j] == lights@[j]);
                        } else if j > i {
                            assert(lights@[i as int].id.0@ == id@);
                        }
                    },
                    None => {
                        assert(lights@[i as int].id.0@ == id@);
                    },
                }
            }
            return Some(i);
        }
        i = i + 1;
    }
    assert(lights@.take(i as int) =~= lights@);
    None
}

/// Light targets of the regions, in region order: each region with a sampled
/// color and a known light gives that light and its mapped command.
pub open spec fn light_targets(
    regions: Seq<RegionColor>,
    lights: Seq<LightInfo>,
    min_brightness: u8,
    white_temp: u16,
) -> Seq<(LightInfo, LightColor)>
    decreases regions.len(),
{
    if regions.len() == 0 {
        Seq::empty()
    } else {
        let prev = light_targets(regions.drop_last(), lights, min_brightness, white_temp);
        let r = regions.last();
        match r.sampled_color {
            None => prev,
            Some(c) => match first_light(lights, r.bulb_mac@) {
                None => prev,
                Some(i) => prev.push((lights[i], light_color_spec(c.0, c.1, c.2, min_brightness, white_temp))),
            },
        }
    }
}

/// Mapping this region's color cannot hit the brightness clamp with a
/// minimum above 100.
pub open spec fn region_light_ok(r: RegionColor, lights: Seq<LightInfo>, min_brightness: u8) -> bool {
    match r.sampled_color {
        Some(c) => first_light(lights, r.bulb_mac@) is Some ==> crate::ambient::max3(c.0 as int, c.1 as int, c.2 as int) == 0
            || min_brightness <= 100,
        None => true,
    }
}

/// Build light color targets from the pre-computed sampled color of each
/// region (the region's bulb MAC is the light id). `None` when no region
/// produces a target.
pub fn build_light_targets(
    regions: &[RegionColor],
    lights: &[LightInfo],
    backend: &LightingBackend,
    min_brightness: u8,
    white_temp: u16,
) -> (out: Option<Vec<(LightInfo, LightColor)>>)
    requires
        forall|i: int| 0 <= i < regions@.len() ==> region_light_ok(#[trigger] regions@[i], lights@, min_brightness),
    ensures
        ({
            let spec = light_targets(regions@, lights@, min_brightness, white_temp);
            match out {
                None => spec.len() == 0,
                Some(t) => spec.len() > 0 && t@ == spec,
            }
        }),
{
    let mut targets: Vec<(LightInfo, LightColor)> = Vec::new();
    let mut i: usize = 0;
    while i < regions.len()
        invariant
            i <= regions@.len(),
            forall|j: int| 0 <= j < regions@.len() ==> region_light_ok(#[trigger] regions@[j], lights@, min_brightness),
            targets@ == light_targets(regions@.take(i as int), lights@, min_brightness, white_temp),
        decreases regions@.len() - i,
    {
        let region = &regions[i];
        assert(regions@.take(i + 1).drop_last() =~= regions@.take(i as int));
        assert(regions@.take(i + 1).last() == regions@[i as int]);
        assert(region_light_ok(regions@[i as int], lights@, min_brightness));
        if let Some((r, g, b)) = region.sampled_color {
            if let Some(li) = find_light(lights, &region.bulb_mac) {
                proof {
                    lemma_first_light(lights@, region.bulb_mac@);
                }
                let color = backend.map_color(r, g, b, min_brightness, white_temp);
                targets.push((lights[li].clone(), color));
            }
        }
        i = i + 1;
    }
    assert(regions@.take(i as int) =~= regions@);
    if targets.len() == 0 {
        None
    } else {
        Some(targets)
    }
}

} // verus!
