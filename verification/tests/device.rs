use lib::device::hal_attr;
use lib::device::{fmt_kb, fmt_kb_short, fmt_uptime, Battery, Line, Snapshot, Storage, ABSENT};
use lib::hal;

#[test]
fn battery_percent_scales_bars_and_hides_unknown() {
    assert_eq!(Battery { level: 7, charging: false }.percent(), Some(100));
    assert_eq!(Battery { level: 0, charging: false }.percent(), Some(0));
    assert_eq!(Battery { level: -1, charging: false }.percent(), None);
}

#[test]
fn storage_reports_fullness_and_survives_an_empty_slot() {
    let mounted = Storage { letter: 'C', media: 0, removable: false, total_kb: Some(1000), free_kb: Some(250) };
    assert!(mounted.mounted());
    assert_eq!(mounted.used_kb(), Some(750));
    assert_eq!(mounted.percent_used(), Some(75));
    let slot = Storage { letter: 'E', media: 0, removable: true, total_kb: None, free_kb: None };
    assert!(!slot.mounted());
    assert_eq!(slot.used_kb(), None);
    assert_eq!(slot.percent_used(), None);
}

#[test]
fn a_zero_sized_volume_does_not_divide_by_zero() {
    let rom = Storage { letter: 'Z', media: 0, removable: false, total_kb: Some(0), free_kb: Some(0) };
    assert_eq!(rom.percent_used(), None);
}

#[test]
fn kb_formatting_picks_a_unit_a_screen_can_hold() {
    assert_eq!(fmt_kb(48), "48 KB");
    assert_eq!(fmt_kb(1024), "1.0 MB");
    assert_eq!(fmt_kb(1536), "1.5 MB");
    assert_eq!(fmt_kb(50028), "48.8 MB");
    assert_eq!(fmt_kb(1024 * 1024 + 512 * 1024), "1.5 GB");
}

#[test]
fn the_short_form_fits_a_status_bar() {
    assert_eq!(fmt_kb_short(50_028), "48M");
    assert_eq!(fmt_kb_short(1024), "1M");
    assert_eq!(fmt_kb_short(512), "512K");
    assert_eq!(fmt_kb_short(2 * 1024 * 1024), "2G");
    for kb in [0, 1, 999, 50_028, 265_272, 4 * 1024 * 1024] {
        assert!(fmt_kb_short(kb).len() <= 5, "{kb} formats too wide");
    }
}

#[test]
fn uptime_drops_seconds_as_it_grows() {
    assert_eq!(fmt_uptime(90 * 1_000_000), "1:30");
    assert_eq!(fmt_uptime(3_725 * 1_000_000), "1:02:05");
    assert_eq!(fmt_uptime(3 * 86_400 * 1_000_000 + 4 * 3600 * 1_000_000), "3d 04:00");
}

fn e72() -> Snapshot {
    Snapshot {
        ram_free_kb: Some(50_028),
        ram_total_kb: Some(122_752),
        heap_used_kb: Some(96),
        battery: Some(Battery { level: 5, charging: false }),
        signal: None,
        uptime_us: 3_725_000_000,
        machine_uid: Some(0x2001_5090),
        cpu_speed_khz: Some(192_000),
        screen: Some((320, 240)),
        drives: vec![
            Storage { letter: 'C', media: 9, removable: false, total_kb: Some(265_272), free_kb: Some(191_960) },
            Storage { letter: 'E', media: 0, removable: true, total_kb: None, free_kb: None },
            Storage { letter: 'Z', media: 7, removable: false, total_kb: Some(0), free_kb: Some(0) },
        ],
    }
}

fn values(lines: &[Line], label: &str) -> Option<String> {
    lines.iter().find_map(|l| match l {
        Line::Field { label: got, value, .. } if got == label => Some(value.clone()),
        _ => None,
    })
}

#[test]
fn the_report_says_what_the_handset_cannot_answer() {
    let lines = e72().report();
    assert_eq!(values(&lines, "CPU load").as_deref(), Some(ABSENT));
    assert_eq!(values(&lines, "Signal").as_deref(), Some("not read here"));
    assert_eq!(values(&lines, "E:").as_deref(), Some("no card"));
    assert_eq!(values(&lines, "Z:").as_deref(), Some("read-only"));
}

#[test]
fn the_report_scales_the_real_numbers() {
    let lines = e72().report();
    assert_eq!(values(&lines, "Free").as_deref(), Some("48.8 MB"));
    assert_eq!(values(&lines, "C:").as_deref(), Some("187.4 MB free"));
    assert_eq!(values(&lines, "CPU clock").as_deref(), Some("192 MHz"));
    assert_eq!(values(&lines, "Model").as_deref(), Some("0x20015090"));
    assert_eq!(values(&lines, "Uptime").as_deref(), Some("1:02:05"));
}

#[test]
fn every_meter_stays_in_range() {
    for line in e72().report() {
        if let Line::Field { label, meter: Some(pct), .. } = line {
            assert!((0..=100).contains(&pct), "{label} meter out of range: {pct}");
        }
    }
}

#[test]
fn a_report_off_device_still_has_every_section() {
    let lines = Snapshot::default().report();
    let sections: Vec<_> = lines
        .iter()
        .filter_map(|l| match l {
            Line::Section(s) => Some(s.as_str()),
            _ => None,
        })
        .collect();
    assert_eq!(sections, vec!["Memory", "Storage", "Power", "Device"]);
    assert_eq!(values(&lines, "RAM").as_deref(), Some(ABSENT));
    assert_eq!(values(&lines, "Drives").as_deref(), Some(ABSENT));
    assert_eq!(values(&lines, "Battery").as_deref(), Some(ABSENT));
}

#[test]
fn the_hal_ids_agree_with_the_shared_inventory() {
    let inventory = hal::inventory();
    for (id, name) in [
        (hal_attr::MACHINE_UID, "EMachineUid"),
        (hal_attr::CPU_SPEED, "ECPUSpeed"),
        (hal_attr::DISPLAY_X_PIXELS, "EDisplayXPixels"),
        (hal_attr::DISPLAY_Y_PIXELS, "EDisplayYPixels"),
    ] {
        let found = inventory.iter().find(|a| a.id == id);
        assert_eq!(found.map(|a| a.name), Some(name), "attribute {id} should be {name}");
    }
}

#[test]
fn a_drive_is_found_by_letter_in_either_case() {
    let s = e72();
    assert_eq!(s.drive('c').map(|d| d.total_kb), Some(Some(265_272)));
    assert!(s.drive('D').is_none());
    assert_eq!(s.ram_used_kb(), Some(122_752 - 50_028));
    assert_eq!(Snapshot::default().ram_used_kb(), None);
}

#[test]
fn a_charging_battery_and_a_signal_are_reported() {
    let mut s = e72();
    s.battery = Some(Battery { level: 3, charging: true });
    s.signal = Some((4, -87));
    let lines = s.report();
    assert_eq!(values(&lines, "Battery").as_deref(), Some("42% (charging)"));
    assert_eq!(values(&lines, "Signal").as_deref(), Some("4/7  -87 dBm"));
}

#[test]
fn a_missing_charging_key_reads_as_on_battery() {
    assert_eq!(Battery::from_keys(5, Some(1)), Battery { level: 5, charging: true });
    assert_eq!(Battery::from_keys(5, Some(0)), Battery { level: 5, charging: false });
    assert_eq!(Battery::from_keys(5, Some(2)), Battery { level: 5, charging: false });
    assert_eq!(Battery::from_keys(-1, None), Battery { level: -1, charging: false });
}
