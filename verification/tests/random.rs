use lib::random::{Schedule, RESEED_AFTER};

#[test]
fn a_fresh_generator_does_not_reseed_until_its_quota_is_spent() {
    let mut s = Schedule::new();
    assert!(!s.before_fill(RESEED_AFTER - 1));
    assert!(!s.before_fill(1), "the quota is reached by this fill, not before it");
    assert!(s.before_fill(8), "past the quota, the next fill reseeds first");
    assert!(!s.before_fill(8), "and the count started over");
}

#[test]
fn stirring_starts_the_count_over() {
    let mut s = Schedule::new();
    assert!(!s.before_fill(RESEED_AFTER));
    s.stirred();
    assert!(!s.before_fill(1));
}

#[test]
fn a_huge_request_saturates_rather_than_wrapping() {
    let mut s = Schedule::new();
    assert!(!s.before_fill(usize::MAX));
    assert!(s.before_fill(usize::MAX), "a saturated count is past the quota");
    assert!(s.before_fill(0), "and stays there rather than wrapping round to zero");
}
