use lib::location::{Cell, Cells, MemCells, MemLocation, Module, Watch};
use lib::Error;

#[test]
fn a_module_reply_is_decoded_field_by_field() {
    let mut name = [0u16; 64];
    for (i, u) in "Assisted GPS".encode_utf16().enumerate() {
        name[i] = u;
    }
    let v = [0x101, 1, 4, 1, 2, 3, 10_000, 20_000, 30_000, 1_000];
    let m = Module::from_reply(0, &name, 12, &v).unwrap();
    assert_eq!(m.name, "Assisted GPS");
    assert_eq!(m.uid, 0x101);
    assert!(m.available);
    assert_eq!(m.technology, 4, "assisted, not network");
    assert_eq!((m.device_location, m.cost, m.power), (1, 2, 3));
    assert_eq!((m.horizontal_accuracy_mm, m.vertical_accuracy_mm), (10_000, 20_000));
    assert_eq!((m.time_to_first_fix_ms, m.time_to_next_fix_ms), (30_000, 1_000));
}

#[test]
fn a_cut_name_is_still_a_module_and_a_failure_is_not() {
    let name = [0x41u16; 64];
    let v = [0; 10];
    let m = Module::from_reply(-9, &name, 100, &v).unwrap();
    assert_eq!(m.name.len(), 64);
    assert!(!m.available);
    assert_eq!(Module::from_reply(-1, &name, 3, &v), Err(Error::NotFound));
}

/// A position report as a test writes one; the subscription only keeps it.
#[derive(Copy, Clone, Debug, Default, PartialEq)]
struct Fix {
    lat: f64,
    lon: f64,
    accuracy_m: Option<f64>,
}

fn fix_at(lat: f64, lon: f64) -> Fix {
    Fix { lat, lon, accuracy_m: Some(12.0) }
}

fn gps(status: i32) -> lib::net::RawEvent {
    lib::net::RawEvent { kind: lib::net::EventKind::GpsFix, handle: 0, status, a: 0 }
}

#[test]
fn no_fix_until_one_arrives() {
    let w = Watch::new(MemLocation::<Fix>::new(vec![]));
    assert!(w.fix().is_none());
    assert!(w.last_status().is_none());
}

#[test]
fn a_fix_is_kept_and_an_error_does_not_erase_it() {
    let mut w = Watch::new(MemLocation::new(vec![Ok(fix_at(-8.05, -34.9))]));
    assert!(w.on_event(&gps(0)));
    assert_eq!(w.fix().map(|f| f.lat), Some(-8.05));

    // The tunnel. The position is stale, not gone, and the status says which.
    assert!(w.on_event(&gps(lib::error::ERR_TIMED_OUT)));
    assert_eq!(w.fix().map(|f| f.lat), Some(-8.05));
    assert_eq!(w.last_status(), Some(lib::error::ERR_TIMED_OUT));
}

#[test]
fn other_events_are_not_ours() {
    let mut w = Watch::new(MemLocation::new(vec![Ok(fix_at(0.0, 0.0))]));
    let other = lib::net::RawEvent { kind: lib::net::EventKind::Other, handle: 0, status: 0, a: 0 };
    assert!(!w.on_event(&other));
    assert!(w.fix().is_none());
}

#[test]
fn asking_again_for_the_running_module_does_not_restart_it() {
    let mut w = Watch::new(MemLocation::new(vec![Ok(fix_at(0.0, 0.0))]));
    w.start(1000, 0, true, 0x101f_e98a).unwrap();
    w.location_mut().starts = 0;

    // The four presses that made a handset restart a cold start four times.
    for _ in 0..4 {
        w.switch_to(1000, 0, true, 0x101f_e98a).unwrap();
    }
    assert_eq!(w.location_mut().starts, 0, "a live subscription was restarted");
}

#[test]
fn switching_to_a_different_module_does_restart() {
    let mut w = Watch::new(MemLocation::new(vec![Ok(fix_at(0.0, 0.0))]));
    w.start(0, 0, false, 0x1020_6915).unwrap();
    w.location_mut().starts = 0;
    w.switch_to(1000, 0, true, 0x101f_e98a).unwrap();
    assert_eq!(w.location_mut().starts, 1);
    assert_eq!(w.module(), 0x101f_e98a);
}

#[test]
fn a_second_start_leaves_the_live_subscription_alone() {
    let mut w = Watch::new(MemLocation::<Fix>::new(vec![]));
    w.start(0, 0, false, 7).unwrap();
    w.start(1000, 0, true, 9).unwrap();
    assert_eq!(w.location_mut().starts, 1);
    assert_eq!(w.module(), 7);
    w.stop();
    assert!(!w.is_running());
    assert_eq!(w.module(), 0, "nothing running is module 0");
}

#[test]
fn a_failed_read_after_a_good_status_keeps_the_old_fix() {
    let mut w = Watch::new(MemLocation::new(vec![Ok(fix_at(1.0, 2.0))]));
    assert!(w.on_event(&gps(0)));
    // Nothing left to read: the platform says not ready, and the fix stays.
    assert!(w.on_event(&gps(0)));
    assert_eq!(w.fix().map(|f| (f.lat, f.lon)), Some((1.0, 2.0)));
    assert_eq!(w.last_status(), Some(0));
}

#[test]
fn a_scripted_cell_reader_answers_once_per_queued_reply_then_not_ready() {
    let tower = Cell { mcc: 724, mnc: 5, lac: 1234, cell_id: 98765, area_known: true };
    let mut c = MemCells::new(vec![Ok(tower)]);
    assert!(c.read().is_ok());
    assert_eq!(c.reads, 1);
    assert_eq!(c.get(), Ok(tower));
    assert_eq!(c.get(), Err(Error::NotReady));
    c.stop();
}
