use lib::bt::{
    found, Bt, Device, FakeBt, Local, RawDevice, RawLocal, Visibility, CACHE_LIMIT, FLAG_FRIENDLY,
    FLAG_PAIRED, FLAG_TRUSTED, PS_CATEGORY, PS_INQUIRY_ACTIVE, PS_NAME_GET, PS_PAIRED_ONLY_SET,
    PS_REGISTRY_CHANGED, PS_SCANNING_GET, PS_SCANNING_SET,
};
use lib::Error;

#[test]
fn the_ps_keys_are_the_offsets_bt_subscribe_documents() {
    assert_eq!(PS_CATEGORY, 0x101f_75b6, "KUidSystemCategory");
    assert_eq!(PS_SCANNING_GET, 0x1020_363a);
    assert_eq!(PS_SCANNING_SET, 0x1020_363b);
    assert_eq!(PS_REGISTRY_CHANGED, 0x1020_3642);
    assert_eq!(PS_NAME_GET, 0x1020_3646);
    assert_eq!(PS_PAIRED_ONLY_SET, 0x1020_364a);
    assert_eq!(PS_INQUIRY_ACTIVE, 0x1020_364b);
}

#[test]
fn hidden_is_not_the_same_as_unset() {
    assert_eq!(Visibility::from_raw(0), Some(Visibility::Hidden));
    assert_eq!(Visibility::from_raw(-1), None);
    assert_eq!(Visibility::from_raw(4), None);
}

#[test]
fn page_only_is_connectable_but_not_findable() {
    assert!(!Visibility::PageOnly.discoverable());
    assert!(Visibility::Visible.discoverable());
    assert!(Visibility::InquiryOnly.discoverable());
    assert!(!Visibility::Hidden.discoverable());
}

#[test]
fn a_raw_device_becomes_one_with_an_owned_name() {
    let mut raw = RawDevice::default();
    raw.addr = [0x00, 0x1B, 0xAF, 0x12, 0x34, 0x56];
    raw.device_class = 0x24_04_18;
    raw.flags = FLAG_PAIRED | FLAG_TRUSTED | FLAG_FRIENDLY;
    let name: Vec<u16> = "HS-16".encode_utf16().collect();
    raw.name[..name.len()].copy_from_slice(&name);
    raw.name_len = name.len() as i32;

    let d = Device::from_raw(&raw);
    assert_eq!(d.name, "HS-16");
    assert_eq!(d.addr_string(), "00:1B:AF:12:34:56");
    assert_eq!(d.major_class(), 4);
    assert!(d.paired && d.trusted && d.friendly_name);
    assert!(!d.blocked && !d.encrypted);
    assert!(!d.name_truncated);
}

#[test]
fn a_name_longer_than_the_shim_carries_says_so() {
    let mut raw = RawDevice::default();
    raw.name_len = 200;
    let d = Device::from_raw(&raw);
    assert!(d.name_truncated);
    assert_eq!(d.name.len(), 32);
}

#[test]
fn the_fake_records_what_was_asked_for_not_just_the_result() {
    let mut bt = FakeBt::new().with_device("HS-16", [1, 2, 3, 4, 5, 6]);
    bt.set_power(true).unwrap();
    bt.set_trusted(&[1, 2, 3, 4, 5, 6], true).unwrap();
    bt.rename(&[1, 2, 3, 4, 5, 6], "Fone").unwrap();

    assert_eq!(bt.log, ["power on", "trust", "rename"]);
    let (devices, total) = bt.paired().unwrap();
    assert_eq!(total, 1);
    assert_eq!(devices[0].name, "Fone");
    assert!(devices[0].trusted);
}

#[test]
fn forgetting_an_unknown_device_is_not_found_and_changes_nothing() {
    let mut bt = FakeBt::new().with_device("HS-16", [1, 2, 3, 4, 5, 6]);
    assert_eq!(bt.unpair(&[9, 9, 9, 9, 9, 9]), Err(Error::NotFound));
    assert_eq!(bt.paired().unwrap().1, 1);
    assert!(bt.log.is_empty());
}

#[test]
fn a_count_larger_than_what_fits_is_reported_as_both_numbers() {
    let mut bt = FakeBt::new().with_device("one", [1; 6]);
    bt.total_override = 40;
    let (devices, total) = bt.paired().unwrap();
    assert_eq!(devices.len(), 1);
    assert_eq!(total, 40);
}

#[test]
fn a_local_record_keeps_unset_apart_from_zero() {
    let mut raw = RawLocal::default();
    raw.scan_enable = -1;
    raw.limited = 1;
    raw.power_setting = -1;
    raw.paired_only = 7;
    let l = Local::from_raw(&raw);
    assert_eq!(l.visibility, None);
    assert_eq!(l.limited_discoverable, Some(true));
    assert_eq!(l.power_setting, None);
    assert_eq!(l.accept_paired_only, None);
    raw.scan_enable = 2;
    raw.power_setting = 0;
    let l = Local::from_raw(&raw);
    assert_eq!(l.visibility, Some(Visibility::PageOnly));
    assert_eq!(l.power_setting, Some(0));
}

#[test]
fn a_cache_walk_stops_at_the_end_and_at_the_limit() {
    let dev = |i: i32| Device { device_class: i as u32, ..Device::default() };
    let three = found(|i| if i < 3 { Some(dev(i)) } else { None });
    assert_eq!(three.len(), 3);
    assert_eq!(three[2].device_class, 2);
    let all = found(|i| Some(dev(i)));
    assert_eq!(all.len(), CACHE_LIMIT);
}

#[test]
fn a_failing_stack_changes_nothing() {
    let mut bt = FakeBt::new().with_device("a", [2; 6]);
    bt.fail = Some(Error::NotReady);
    assert_eq!(bt.set_power(true), Err(Error::NotReady));
    assert_eq!(bt.rename(&[2; 6], "b"), Err(Error::NotReady));
    assert!(bt.log.is_empty());
    assert!(!bt.on);
    bt.fail = None;
    bt.unpair(&[2; 6]).unwrap();
    assert_eq!(bt.paired().unwrap(), (vec![], 0));
    assert_eq!(bt.log, ["unpair"]);
}
