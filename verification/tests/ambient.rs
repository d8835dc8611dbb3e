use cocuyo::ambient::{
    build_bulb_targets, color_changed, map_to_bulb_color, scale_channel, BulbColor, BulbInfo, IpAddress, LastSent, RegionColor,
};

fn make_region(mac: &str, color: Option<(u8, u8, u8)>) -> RegionColor {
    RegionColor { bulb_mac: mac.to_string(), sampled_color: color }
}

fn make_bulb(mac: &str) -> BulbInfo {
    BulbInfo { mac: mac.to_string(), ip: IpAddress::V4(u32::from_be_bytes([192, 168, 1, 100])), name: None }
}

// -- map_to_bulb_color --

#[test]
fn black_pixel_returns_white_min_brightness() {
    let (color, brightness) = map_to_bulb_color(0, 0, 0, 10, 6500);
    assert_eq!(color, BulbColor::White(6500));
    assert_eq!(brightness, 10);
}

#[test]
fn pure_red_normalizes_to_255() {
    let (color, _brightness) = map_to_bulb_color(128, 0, 0, 10, 6500);
    assert_eq!(color, BulbColor::Rgb(255, 0, 0));
}

#[test]
fn white_pixel_returns_white_temp() {
    let (color, brightness) = map_to_bulb_color(255, 255, 255, 10, 6500);
    assert_eq!(color, BulbColor::White(6500));
    assert_eq!(brightness, 100);
}

#[test]
fn near_white_returns_white() {
    let (color, _) = map_to_bulb_color(200, 200, 200, 10, 4200);
    assert_eq!(color, BulbColor::White(4200));
}

#[test]
fn mixed_color_preserves_ratios() {
    let (color, _) = map_to_bulb_color(100, 50, 25, 10, 6500);
    match color {
        BulbColor::Rgb(r, g, b) => {
            assert_eq!(r, 255);
            assert!((g as f32 / 255.0 - 0.5).abs() < 0.02, "g ratio: {g}");
            assert!((b as f32 / 255.0 - 0.25).abs() < 0.02, "b ratio: {b}");
        }
        other => panic!("expected Rgb, got {other:?}"),
    }
}

#[test]
fn brightness_clamps_to_min() {
    let (_, brightness) = map_to_bulb_color(5, 2, 1, 20, 6500);
    assert_eq!(brightness, 20);
}

// -- color_changed --

#[test]
fn identical_rgb_is_not_changed() {
    let a = (BulbColor::Rgb(255, 100, 50), 80u8);
    assert!(!color_changed(&a, &a));
}

#[test]
fn small_rgb_delta_is_not_changed() {
    let a = (BulbColor::Rgb(255, 100, 50), 80u8);
    let b = (BulbColor::Rgb(255, 103, 47), 82u8);
    assert!(!color_changed(&a, &b));
}

#[test]
fn large_rgb_delta_is_changed() {
    let a = (BulbColor::Rgb(255, 100, 50), 80u8);
    let b = (BulbColor::Rgb(255, 100, 60), 80u8);
    assert!(color_changed(&a, &b));
}

#[test]
fn brightness_delta_triggers_change() {
    let a = (BulbColor::Rgb(255, 100, 50), 80u8);
    let b = (BulbColor::Rgb(255, 100, 50), 90u8);
    assert!(color_changed(&a, &b));
}

#[test]
fn variant_switch_is_changed() {
    let a = (BulbColor::Rgb(255, 255, 200), 80u8);
    let b = (BulbColor::White(6500), 80u8);
    assert!(color_changed(&a, &b));
}

#[test]
fn identical_white_is_not_changed() {
    let a = (BulbColor::White(6500), 50u8);
    assert!(!color_changed(&a, &a));
}

#[test]
fn white_temp_change_is_changed() {
    let a = (BulbColor::White(6500), 50u8);
    let b = (BulbColor::White(4200), 50u8);
    assert!(color_changed(&a, &b));
}

// -- build_bulb_targets --

#[test]
fn empty_regions_returns_none() {
    let result = build_bulb_targets(&[], &[make_bulb("AA:BB")], 10, 6500, &LastSent::new());
    assert!(result.is_none());
}

#[test]
fn matching_region_produces_target() {
    let regions = [make_region("AA:BB", Some((255, 0, 0)))];
    let bulbs = [make_bulb("AA:BB")];
    let (targets, _) = build_bulb_targets(&regions, &bulbs, 10, 6500, &LastSent::new()).expect("should have targets");
    assert_eq!(targets.len(), 1);
    assert_eq!(targets[0].0, IpAddress::V4(u32::from_be_bytes([192, 168, 1, 100])));
}

#[test]
fn unchanged_color_is_filtered_out() {
    let regions = [make_region("AA:BB", Some((255, 0, 0)))];
    let bulbs = [make_bulb("AA:BB")];
    let (_, new_entries) = build_bulb_targets(&regions, &bulbs, 10, 6500, &LastSent::new()).unwrap();
    let mut cache = LastSent::new();
    for (mac, color, brightness) in new_entries {
        cache.insert(mac, color, brightness);
    }
    let result = build_bulb_targets(&regions, &bulbs, 10, 6500, &cache);
    assert!(result.is_none());
}

#[test]
fn changed_color_passes_through() {
    let bulbs = [make_bulb("AA:BB")];
    let mut cache = LastSent::new();
    cache.insert("AA:BB".to_string(), BulbColor::Rgb(255, 0, 0), 100);
    let regions = [make_region("AA:BB", Some((0, 255, 0)))];
    let result = build_bulb_targets(&regions, &bulbs, 10, 6500, &cache);
    assert!(result.is_some());
}

// -- further cases --

#[test]
fn mixed_color_exact_values() {
    // 50 * 255 / 100 = 127.5 lands just below .5 in double precision: 127.
    assert_eq!(map_to_bulb_color(100, 50, 25, 10, 6500), (BulbColor::Rgb(255, 127, 64), 39));
}

#[test]
fn brightness_is_percent_of_brightest_channel() {
    assert_eq!(map_to_bulb_color(0, 128, 64, 10, 6500), (BulbColor::Rgb(0, 255, 128), 50));
}

#[test]
fn region_without_color_or_bulb_is_skipped() {
    let regions = [make_region("AA:BB", None), make_region("CC:DD", Some((10, 20, 30)))];
    let bulbs = [make_bulb("AA:BB")];
    assert!(build_bulb_targets(&regions, &bulbs, 10, 6500, &LastSent::new()).is_none());
}

#[test]
fn targets_follow_region_order_with_macs() {
    let regions = [make_region("CC:DD", Some((0, 0, 200))), make_region("AA:BB", Some((200, 0, 0)))];
    let bulbs = [
        make_bulb("AA:BB"),
        BulbInfo { mac: "CC:DD".to_string(), ip: IpAddress::V4(7), name: Some("Desk".to_string()) },
    ];
    let (targets, entries) = build_bulb_targets(&regions, &bulbs, 10, 6500, &LastSent::new()).unwrap();
    assert_eq!(targets.len(), 2);
    assert_eq!(targets[0], (IpAddress::V4(7), BulbColor::Rgb(0, 0, 255), 78));
    assert_eq!(entries[1].0, "AA:BB");
    assert_eq!(entries[1].1, BulbColor::Rgb(255, 0, 0));
}

#[test]
fn last_sent_reads_back_what_was_written() {
    let mut sent = LastSent::new();
    assert_eq!(sent.get(&"AA".to_string()), None);
    sent.insert("AA".to_string(), BulbColor::White(3000), 40);
    sent.insert("BB".to_string(), BulbColor::Rgb(1, 2, 3), 50);
    sent.insert("AA".to_string(), BulbColor::Rgb(255, 0, 0), 60);
    assert_eq!(sent.get(&"AA".to_string()), Some((BulbColor::Rgb(255, 0, 0), 60)));
    assert_eq!(sent.get(&"BB".to_string()), Some((BulbColor::Rgb(1, 2, 3), 50)));
    sent.clear();
    assert_eq!(sent.get(&"BB".to_string()), None);
}

#[test]
fn color_change_is_symmetric() {
    let a = (BulbColor::Rgb(255, 100, 50), 80u8);
    let b = (BulbColor::Rgb(255, 100, 55), 80u8);
    assert_eq!(color_changed(&a, &b), color_changed(&b, &a));
    assert!(color_changed(&a, &b));
}

#[test]
fn scale_channel_matches_double_precision_for_every_input() {
    for max in 1u8..=255 {
        for c in 0..=max {
            let scale = 255.0 / max as f64;
            let expected = (c as f64 * scale).round().min(255.0) as u8;
            assert_eq!(scale_channel(c, max), expected, "channel {} of max {}", c, max);
        }
    }
}

#[test]
fn second_dispatch_with_recorded_entries_sends_nothing() {
    let regions = [
        make_region("AA:01", Some((255, 0, 0))),
        make_region("AA:02", Some((10, 200, 30))),
        make_region("AA:03", None),
        make_region("AA:04", Some((0, 0, 0))),
    ];
    let bulbs = [make_bulb("AA:01"), make_bulb("AA:02"), make_bulb("AA:04")];
    let mut cache = LastSent::new();
    let (_, entries) = build_bulb_targets(&regions, &bulbs, 10, 6500, &cache).unwrap();
    assert_eq!(entries.len(), 3);
    for (mac, color, brightness) in entries {
        cache.insert(mac, color, brightness);
    }
    assert!(build_bulb_targets(&regions, &bulbs, 10, 6500, &cache).is_none());
}
