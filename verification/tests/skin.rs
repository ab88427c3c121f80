use lib::skin::{samples_from, Background, Samples, Table, Walk, MAJOR_SKIN, WALK_MAX};
use lib::Error;

/// Runs a walk the way the app does, with `answer` standing for the skin server.
fn walk_with(buf: &mut [(i32, u32)], answer: impl Fn(i32) -> Option<u32>) -> usize {
    let mut w = Walk::new();
    while let Some(i) = w.want(buf.len()) {
        w.answer(buf, answer(i));
    }
    w.filled()
}

#[test]
fn the_major_is_the_aknskins_uid() {
    assert_eq!(MAJOR_SKIN, 0x1000_5a26);
}

#[test]
fn every_table_minor_matches_the_header() {
    assert_eq!(Table::Component.raw(), 0x3000);
    assert_eq!(Table::Icon.raw(), 0x3200);
    assert_eq!(Table::Text.raw(), 0x3300);
    assert_eq!(Table::Line.raw(), 0x3400);
    assert_eq!(Table::Other.raw(), 0x3500);
    assert_eq!(Table::Highlight.raw(), 0x3600);
}

#[test]
fn the_minors_are_distinct() {
    let all = [
        Table::Component.raw(),
        Table::Icon.raw(),
        Table::Text.raw(),
        Table::Line.raw(),
        Table::Other.raw(),
        Table::Highlight.raw(),
    ];
    for (i, a) in all.iter().enumerate() {
        for b in &all[i + 1..] {
            assert_ne!(a, b, "two tables share a minor");
        }
    }
}

#[test]
fn every_background_minor_matches_the_header() {
    assert_eq!(Background::Screen.raw(), 0x1000);
    assert_eq!(Background::Status.raw(), 0x1010);
    assert_eq!(Background::Control.raw(), 0x1020);
    assert_eq!(Background::Main.raw(), 0x1100);
}

#[test]
fn the_mean_of_a_gradient_is_its_midpoint() {
    let mut s = Samples { pixels: [0; 16], count: 2, width: 10, height: 10 };
    s.pixels[0] = 0x00_00_00;
    s.pixels[1] = 0xFF_FF_FF;
    assert_eq!(s.mean(), Some(0x7F_7F_7F));
}

#[test]
fn the_mean_averages_each_channel_and_not_the_packed_number() {
    let mut s = Samples { pixels: [0; 16], count: 2, width: 4, height: 4 };
    s.pixels[0] = 0xFF_00_00;
    s.pixels[1] = 0x00_00_FF;
    assert_eq!(s.mean(), Some(0x7F_00_7F));
}

#[test]
fn no_samples_is_none_rather_than_black() {
    let s = Samples { pixels: [0; 16], count: 0, width: 0, height: 0 };
    assert_eq!(s.mean(), None);
}

#[test]
fn a_walk_with_no_device_finds_nothing_rather_than_looping() {
    let mut buf = [(0i32, 0u32); 8];
    assert_eq!(walk_with(&mut buf, |_| None), 0);
}

#[test]
fn a_walk_cannot_overrun_the_buffer_it_was_given() {
    let mut buf = [(0i32, 0u32); 0];
    assert_eq!(walk_with(&mut buf, |i| Some(i as u32)), 0);
    let mut four = [(0i32, 0u32); 4];
    assert_eq!(walk_with(&mut four, |i| Some(0x100 + i as u32)), 4);
    assert_eq!(four, [(0, 0x100), (1, 0x101), (2, 0x102), (3, 0x103)]);
}

#[test]
fn a_walk_stops_at_the_first_hole_and_at_the_cap() {
    let mut buf = [(0i32, 0u32); 100];
    assert_eq!(walk_with(&mut buf, |i| if i == 5 { None } else { Some(1) }), 5);
    assert_eq!(walk_with(&mut buf, |_| Some(7)), WALK_MAX);
    assert_eq!(buf[63], (63, 7));
}

#[test]
fn a_sample_reply_is_capped_at_the_slots_and_an_error_is_kept() {
    let px = [0x10u32; 16];
    assert_eq!(samples_from(40, px, 3, 4).unwrap().count, 16);
    assert_eq!(samples_from(3, px, 3, 4).unwrap().count, 3);
    assert_eq!(samples_from(-18, px, 0, 0), Err(Error::NotReady));
}
