use lib::backoff::{Backoff, BackoffPoller, Rearm, Wake};

#[test]
fn doubles_from_base_and_caps() {
    let mut b = Backoff::new(10, 100);
    assert_eq!(b.on_tick(), 10);
    assert_eq!(b.on_tick(), 20);
    assert_eq!(b.on_tick(), 40);
    assert_eq!(b.on_tick(), 80);
    assert_eq!(b.on_tick(), 100, "capped at max");
    assert_eq!(b.on_tick(), 100, "stays at the cap");
}

#[test]
fn reset_returns_to_base_plus_jitter_then_doubles_from_base() {
    let mut b = Backoff::new(10, 1000);
    b.on_tick();
    b.on_tick();
    b.on_tick();
    assert_eq!(b.on_reset(3), 13, "base 10 + jitter 3");
    assert_eq!(b.on_tick(), 20, "doubling resumes from base, not from base+jitter");
    assert_eq!(b.on_tick(), 40);
}

#[test]
fn a_hold_arms_the_ceiling_and_stays_there() {
    let mut b = Backoff::new(15, 300);
    b.on_tick();
    assert_eq!(b.on_hold(), 300, "the ceiling, now");
    assert_eq!(b.on_tick(), 300, "and the tick after it is still the ceiling");
    assert_eq!(b.on_reset(0), 15);
    assert_eq!(b.on_tick(), 30, "doubling resumes from base");
}

#[test]
fn negative_jitter_is_ignored() {
    let mut b = Backoff::new(10, 1000);
    assert_eq!(b.on_reset(-5), 10);
}

#[test]
fn a_max_below_base_is_clamped_up() {
    let mut b = Backoff::new(50, 10);
    assert_eq!(b.on_tick(), 50);
    assert_eq!(b.on_tick(), 50, "never below base");
}

#[test]
fn a_deadline_shortens_the_pending_sleep_and_never_lengthens_it() {
    let mut p = BackoffPoller::new(15_000, 300_000, 0, 1, 2);
    p.start();
    assert_eq!(p.armed(), 15_000);
    p.cap_next(4_000);
    assert_eq!(p.armed(), 4_000);
    p.cap_next(60_000);
    assert_eq!(p.armed(), 4_000);
}

#[test]
fn a_deadline_does_not_pin_the_cadence_at_the_base_rate() {
    let mut p = BackoffPoller::new(15_000, 300_000, 0, 1, 2);
    p.start();
    p.cap_next(1_000);
    assert_eq!(p.backoff.current(), 30_000);
}

#[test]
fn a_deadline_already_past_wakes_as_soon_as_the_platform_allows() {
    let mut p = BackoffPoller::new(15_000, 300_000, 0, 1, 2);
    p.start();
    p.cap_next(-5);
    assert_eq!(p.armed(), 1);
}

#[test]
fn a_deadline_before_the_cadence_starts_is_ignored() {
    let mut p = BackoffPoller::new(15_000, 300_000, 0, 1, 2);
    p.cap_next(1_000);
    assert_eq!(p.armed(), 0);
}

#[test]
fn poller_publishes_on_activity_and_ignores_unrelated_events() {
    let mut p = BackoffPoller::new(10, 100, 0, 0xE0AA_0000, 100);
    p.start();
    assert!(p.poll(Wake::Property, false, 0).0);
    assert!(!p.poll(Wake::Other, false, 0).0);
}

#[test]
fn only_our_own_timer_is_a_tick() {
    let mut p = BackoffPoller::new(10, 100, 0, 1, 2);
    let first = p.start();
    assert_eq!(first, Rearm { cancel: None, delay: 10 });
    p.armed_as(Some(7));
    assert_eq!(p.poll(Wake::Timer(8), false, 0), (false, None));
    assert_eq!(p.poll(Wake::Timer(7), false, 0), (true, Some(Rearm { cancel: Some(7), delay: 20 })));
}

#[test]
fn a_held_poller_arms_the_ceiling_and_publishes_nothing() {
    let mut p = BackoffPoller::new(10, 100, 0, 1, 2).with_hold(3, 4);
    assert_eq!(p.hold(), Some((3, 4)));
    p.start();
    assert_eq!(p.poll(Wake::Property, true, 0), (false, Some(Rearm { cancel: None, delay: 100 })));
    assert_eq!(p.armed(), 100);
}

#[test]
fn the_jitter_comes_from_the_clock_and_stays_under_its_bound() {
    let p = BackoffPoller::new(10, 100, 7, 1, 2);
    assert_eq!(p.jitter(23), 2);
    let q = BackoffPoller::new(10, 100, 0, 1, 2);
    assert_eq!(q.jitter(23), 0);
    let mut r = BackoffPoller::new(10, 100, 7, 1, 2);
    r.start();
    assert_eq!(r.poll(Wake::Property, false, 23).1.unwrap().delay, 12);
}
