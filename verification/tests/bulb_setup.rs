use cocuyo::ambient::{BulbInfo, IpAddress};
use cocuyo::bulb_setup::{BulbSetupCommand, BulbSetupMessage, BulbSetupState};

fn bulb(mac: &str, ip: u32, name: Option<&str>) -> BulbInfo {
    BulbInfo { mac: mac.to_string(), ip: IpAddress::V4(ip), name: name.map(|n| n.to_string()) }
}

fn macs(state: &BulbSetupState) -> Vec<String> {
    let mut v = state.selected_bulbs_vec();
    v.sort();
    v
}

#[test]
fn new_keeps_only_known_selections() {
    let state = BulbSetupState::new(
        vec![bulb("AA", 1, None), bulb("BB", 2, None)],
        vec!["BB".to_string(), "ZZ".to_string(), "BB".to_string()],
    );
    assert_eq!(macs(&state), vec!["BB".to_string()]);
    assert_eq!(state.discovered_bulbs().len(), 2);
    assert!(!state.is_scanning());
    assert!(state.has_selected_bulbs());
}

#[test]
fn scan_then_discovery_merges_bulbs() {
    let mut state = BulbSetupState::new(vec![bulb("AA", 1, Some("Lamp"))], vec![]);
    assert_eq!(state.update(BulbSetupMessage::Scan), BulbSetupCommand::Discover);
    assert!(state.is_scanning());
    let found = vec![bulb("BB", 2, None), bulb("AA", 9, None), bulb("BB", 3, Some("Desk"))];
    assert_eq!(state.update(BulbSetupMessage::BulbsDiscovered(found)), BulbSetupCommand::Nothing);
    assert!(!state.is_scanning());
    let known = state.discovered_bulbs();
    assert_eq!(known.len(), 2);
    assert_eq!(known[0].mac, "AA");
    assert_eq!(known[0].ip, IpAddress::V4(9));
    assert_eq!(known[0].name.as_deref(), Some("Lamp"));
    assert_eq!(known[1].mac, "BB");
    assert_eq!(known[1].ip, IpAddress::V4(3));
    assert_eq!(known[1].name.as_deref(), Some("Desk"));
}

#[test]
fn toggle_twice_restores_selection() {
    let mut state = BulbSetupState::new(vec![bulb("AA", 1, None), bulb("BB", 2, None)], vec!["AA".to_string()]);
    state.update(BulbSetupMessage::ToggleBulb("BB".to_string()));
    assert_eq!(macs(&state), vec!["AA".to_string(), "BB".to_string()]);
    state.update(BulbSetupMessage::ToggleBulb("BB".to_string()));
    assert_eq!(macs(&state), vec!["AA".to_string()]);
    state.toggle("AA".to_string());
    assert!(!state.has_selected_bulbs());
    assert_eq!(state.update(BulbSetupMessage::Done), BulbSetupCommand::Nothing);
}

#[test]
fn selected_infos_follow_discovery_order() {
    let state = BulbSetupState::new(
        vec![bulb("AA", 1, None), bulb("BB", 2, None), bulb("CC", 3, None)],
        vec!["CC".to_string(), "AA".to_string()],
    );
    let infos = state.selected_bulb_infos();
    let order: Vec<&str> = infos.iter().map(|b| b.mac.as_str()).collect();
    assert_eq!(order, vec!["AA", "CC"]);
    assert_eq!(state.selected_bulbs().len(), 2);
}
