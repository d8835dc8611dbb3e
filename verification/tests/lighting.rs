use cocuyo::ambient::{IpAddress, RegionColor};
use cocuyo::lighting::wiz::{
    bulb_command, bulb_restore_plan, ipv4_target, light_command, restore_plan, SavedBulbState, WizBackend, WizCommand,
};
use cocuyo::lighting::{
    build_light_targets, BackendData, LightColor, LightId, LightInfo, LightingBackend, SavedBackendState,
};
use cocuyo::ambient::BulbColor;

fn light(id: &str) -> LightInfo {
    LightInfo {
        id: LightId(id.to_string()),
        name: None,
        backend_data: BackendData::Wiz { ip: IpAddress::V4(1), mac: id.to_string() },
    }
}

#[test]
fn wiz_map_color() {
    let backend = LightingBackend::Wiz(WizBackend::new());
    assert_eq!(
        backend.map_color(0, 0, 0, 10, 6500),
        LightColor { r: 0, g: 0, b: 0, brightness: 10, color_temp: Some(6500) }
    );
    assert_eq!(
        backend.map_color(128, 0, 0, 10, 6500),
        LightColor { r: 255, g: 0, b: 0, brightness: 50, color_temp: None }
    );
    assert_eq!(
        backend.map_color(200, 200, 200, 10, 4200),
        LightColor { r: 255, g: 255, b: 255, brightness: 78, color_temp: Some(4200) }
    );
}

#[test]
fn wiz_short_id_is_last_eight_bytes() {
    let backend = LightingBackend::Wiz(WizBackend::new());
    assert_eq!(backend.short_id(&LightId("a8bb5006e2f1c4d3".to_string())), "e2f1c4d3");
    assert_eq!(backend.short_id(&LightId("abc".to_string())), "abc");
    let wiz = WizBackend::new();
    assert_eq!(wiz.display_name(), "WiZ");
    assert_eq!(wiz.light_noun(), "Bulb");
}

#[test]
fn light_targets_follow_regions() {
    let backend = LightingBackend::Wiz(WizBackend::new());
    let lights = [light("AA"), light("BB")];
    let regions = [
        RegionColor { bulb_mac: "BB".to_string(), sampled_color: Some((0, 0, 128)) },
        RegionColor { bulb_mac: "ZZ".to_string(), sampled_color: Some((1, 1, 1)) },
        RegionColor { bulb_mac: "AA".to_string(), sampled_color: None },
    ];
    let targets = build_light_targets(&regions, &lights, &backend, 10, 6500).unwrap();
    assert_eq!(targets.len(), 1);
    assert_eq!(targets[0].0.id.0, "BB");
    assert_eq!(targets[0].1, LightColor { r: 0, g: 0, b: 255, brightness: 50, color_temp: None });
    assert!(build_light_targets(&regions[1..], &lights, &backend, 10, 6500).is_none());
}

#[test]
fn commands_drop_values_wiz_rejects() {
    assert_eq!(
        light_command(&LightColor { r: 1, g: 2, b: 3, brightness: 5, color_temp: None }),
        WizCommand { scene: None, dimming: None, temp: None, rgb: Some((1, 2, 3)) }
    );
    assert_eq!(
        light_command(&LightColor { r: 255, g: 255, b: 255, brightness: 60, color_temp: Some(9000) }),
        WizCommand { scene: None, dimming: Some(60), temp: None, rgb: None }
    );
    assert_eq!(
        bulb_command(BulbColor::White(2700), 100),
        WizCommand { scene: None, dimming: Some(100), temp: Some(2700), rgb: None }
    );
    assert_eq!(
        bulb_command(BulbColor::Rgb(255, 10, 0), 101),
        WizCommand { scene: None, dimming: None, temp: None, rgb: Some((255, 10, 0)) }
    );
}

#[test]
fn restore_picks_a_single_mode() {
    let scene = restore_plan(&SavedBackendState::Wiz {
        was_on: true,
        color: Some((1, 2, 3)),
        brightness: Some(40),
        scene_id: Some(4),
        temperature: Some(3000),
    });
    assert_eq!(scene.command, WizCommand { scene: Some(4), dimming: Some(40), temp: None, rgb: None });
    assert!(scene.send_command && !scene.power_off);
    let temp = restore_plan(&SavedBackendState::Wiz {
        was_on: false,
        color: Some((1, 2, 3)),
        brightness: None,
        scene_id: None,
        temperature: Some(3000),
    });
    assert_eq!(temp.command, WizCommand { scene: None, dimming: None, temp: Some(3000), rgb: None });
    assert!(temp.power_off);
    let nothing = restore_plan(&SavedBackendState::Wiz {
        was_on: false,
        color: None,
        brightness: Some(5),
        scene_id: Some(34),
        temperature: None,
    });
    assert!(!nothing.send_command && nothing.power_off);
}

#[test]
fn only_ipv4_is_reachable() {
    assert_eq!(ipv4_target(IpAddress::V4(42)), Some(42));
    assert_eq!(ipv4_target(IpAddress::V6(1)), None);
}

#[test]
fn saved_bulb_restores_like_its_light() {
    let saved = SavedBulbState {
        ip: IpAddress::V4(9),
        was_on: false,
        color: Some((9, 8, 7)),
        brightness: Some(70),
        scene_id: None,
        temperature: None,
    };
    let plan = bulb_restore_plan(&saved);
    assert_eq!(plan.command, WizCommand { scene: None, dimming: Some(70), temp: None, rgb: Some((9, 8, 7)) });
    assert!(plan.send_command && plan.power_off);
}
