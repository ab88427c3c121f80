use std::cell::RefCell;
use std::rc::Rc;

use lib::fs::Utf16Path;
use lib::image::{fit, resample, result_pixels, Decoder, Image, Images, MemImages, Progress};
use lib::{Error, Result};

#[test]
fn fit_shrinks_by_the_binding_edge_and_keeps_the_ratio() {
    assert_eq!(fit(1600, 1200, 320, 240), (320, 240));
    assert_eq!(fit(1000, 250, 320, 240), (320, 80));
    assert_eq!(fit(250, 1000, 320, 240), (60, 240));
    assert_eq!(fit(100, 100, 320, 240), (100, 100));
    assert_eq!(fit(320, 240, 320, 240), (320, 240));
}

#[test]
fn fit_refuses_nonsense_instead_of_dividing_by_zero() {
    assert_eq!(fit(0, 10, 320, 240), (0, 0));
    assert_eq!(fit(10, 0, 320, 240), (0, 0));
    assert_eq!(fit(10, 10, 0, 240), (0, 0));
    assert_eq!(fit(-5, 10, 320, 240), (0, 0));
}

#[test]
fn fit_never_rounds_a_dimension_to_zero() {
    let (w, h) = fit(4000, 3, 96, 96);
    assert_eq!(w, 96);
    assert_eq!(h, 1);
}

#[test]
fn fit_handles_the_largest_sizes_without_overflowing() {
    assert_eq!(fit(i32::MAX, i32::MAX, 1, 1), (1, 1));
    assert_eq!(fit(i32::MAX, 1, 100, 100), (100, 1));
}

#[test]
fn resample_halving_picks_every_other_pixel() {
    let src = Image { pixels: vec![1, 2, 3, 4, 5, 6, 7, 8], width: 4, height: 2 };
    let out = resample(&src, 2, 1);
    assert_eq!(out.width, 2);
    assert_eq!(out.height, 1);
    assert_eq!(out.pixels, vec![1, 3]);
}

#[test]
fn resample_to_the_same_size_is_the_same_image() {
    let src = MemImages::solid(3, 3, 0xF800);
    assert_eq!(resample(&src, 3, 3), src);
}

#[test]
fn resample_enlarging_repeats_rather_than_reading_out_of_bounds() {
    let src = Image { pixels: vec![1, 2], width: 2, height: 1 };
    let out = resample(&src, 4, 2);
    assert_eq!(out.width, 4);
    assert_eq!(out.height, 2);
    assert_eq!(out.pixels, vec![1, 1, 2, 2, 1, 1, 2, 2]);
}

#[test]
fn resample_leaves_a_missing_row_blank_and_refuses_nonsense() {
    let short = Image { pixels: vec![5, 5], width: 2, height: 2 };
    let out = resample(&short, 2, 4);
    assert_eq!(out.pixels, vec![5, 5, 5, 5, 0, 0, 0, 0]);
    let none = resample(&short, 0, 4);
    assert_eq!((none.width, none.height, none.pixels.len()), (0, 0, 0));
}

#[test]
fn row_refuses_out_of_range_instead_of_panicking() {
    let img = MemImages::solid(2, 2, 7);
    assert_eq!(img.row(0), Some(&[7u16, 7][..]));
    assert_eq!(img.row(1), Some(&[7u16, 7][..]));
    assert_eq!(img.row(2), None);
    assert_eq!(img.row(-1), None);
}

#[test]
fn row_refuses_a_header_that_disagrees_with_the_pixels() {
    let bad = Image { pixels: vec![1, 2], width: 4, height: 4 };
    assert_eq!(bad.row(0), None);
    assert_eq!(bad.row(3), None);
}

/// An [`Images`] that shares its close log with the test.
#[derive(Clone)]
struct Spy {
    closed: Rc<RefCell<Vec<i32>>>,
    inner: Rc<RefCell<MemImages>>,
}

impl Images for Spy {
    fn probe(&mut self, p: &Utf16Path) -> Result<(i32, i32)> {
        self.inner.borrow_mut().probe(p)
    }
    fn start_file(&mut self, p: &Utf16Path, w: i32, h: i32) -> Result<i32> {
        self.inner.borrow_mut().start_file(p, w, h)
    }
    fn start_mem(&mut self, d: &[u8], w: i32, h: i32) -> Result<i32> {
        self.inner.borrow_mut().start_mem(d, w, h)
    }
    fn result(&mut self, h: i32) -> Result<Image> {
        self.inner.borrow_mut().result(h)
    }
    fn close(&mut self, h: i32) {
        self.closed.borrow_mut().push(h);
        self.inner.borrow_mut().close(h);
    }
}

#[test]
fn a_decoder_closes_its_handle_once() {
    let spy = Spy {
        closed: Rc::new(RefCell::new(Vec::new())),
        inner: Rc::new(RefCell::new(MemImages::new(vec![MemImages::solid(8, 8, 0x1234)]))),
    };
    let mut d = Decoder::memory(spy.clone(), vec![0u8; 4], 8, 8).unwrap();
    let handle = d.handle();
    assert!(d.owns(handle));
    assert!(!d.owns(handle + 1));
    let img = d.take().unwrap();
    assert_eq!((img.width, img.height), (8, 8));
    assert!(spy.closed.borrow().is_empty(), "not closed while still in use");
    assert_eq!(d.progress(), None);
    d.close();
    d.close();
    assert_eq!(*spy.closed.borrow(), vec![handle]);
    assert!(spy.inner.borrow().open.is_empty(), "the slot went back");
    assert!(!d.owns(handle));
}

#[test]
fn an_abandoned_decode_releases_its_slot() {
    let mut images = MemImages::new(vec![MemImages::solid(4, 4, 1), MemImages::solid(4, 4, 2)]);
    let h1 = images.start_mem(&[0], 4, 4).unwrap();
    let h2 = images.start_mem(&[0], 4, 4).unwrap();
    assert_eq!(images.open, vec![h1, h2]);
    images.close(h1);
    assert_eq!(images.open, vec![h2]);
    images.close(h2);
    assert!(images.open.is_empty());
}

#[test]
fn the_fake_reduces_by_powers_of_two_like_the_device_does() {
    let mut images =
        MemImages::new(vec![MemImages::solid(640, 480, 9), MemImages::solid(640, 480, 9)]);
    let h = images.start_mem(&[0], 320, 240).unwrap();
    let got = images.result(h).unwrap();
    assert_eq!((got.width, got.height), (320, 240));

    let h = images.start_mem(&[0], 200, 200).unwrap();
    let got = images.result(h).unwrap();
    assert_eq!((got.width, got.height), (160, 120));
}

#[test]
fn a_format_the_device_cannot_decode_is_an_error_not_a_panic() {
    let unsupported = Error::Platform(-5);
    let mut images = MemImages::new(vec![MemImages::solid(4, 4, 1)]);
    images.fail_with = Some(unsupported);
    assert_eq!(images.start_mem(&[0], 4, 4), Err(unsupported));
    assert!(unsupported.is_unsupported());
    assert!(!Error::NotFound.is_unsupported(), "absent is not the same as unsupported");
}

#[test]
fn a_stale_handle_does_not_resolve() {
    let mut images = MemImages::new(vec![MemImages::solid(4, 4, 1)]);
    let h = images.start_mem(&[0], 4, 4).unwrap();
    assert!(images.result(h).is_ok());
    assert_eq!(images.result(h + 999), Err(Error::Platform(-8)));
}

#[test]
fn the_result_size_comes_from_the_probe_answer() {
    assert_eq!(result_pixels(-9, 4, 3), Ok(12));
    assert_eq!(result_pixels(0, 4, 3), Ok(12));
    assert_eq!(result_pixels(-9, 0, 3), Err(Error::NotFound));
    assert_eq!(result_pixels(-4, 4, 3), Err(Error::NoMemory));
    assert_eq!(result_pixels(-9, 65536, 65536), Err(Error::Overflow));
}

#[test]
fn a_snapshot_reads_the_words_in_the_platforms_order() {
    let p = Progress::from_words(&[2, -1, 3, 640, 480, 2, 160, 120, 0, 6, 4, 1]);
    assert!(p.done);
    assert_eq!((p.error, p.frames, p.native_w, p.native_h), (-1, 3, 640, 480));
    assert_eq!((p.factor, p.out_w, p.out_h), (2, 160, 120));
    assert!(!p.active);
    assert_eq!((p.mode, p.frame_flags, p.continues), (6, 4, 1));
    assert!(!Progress::from_words(&[1; 12]).done);
}
