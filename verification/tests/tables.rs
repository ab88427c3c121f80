use lib::caps::{all, attempts, CAP_COUNT};
use lib::cenrep::uid_to_setting;
use lib::hal::inventory;
use std::collections::BTreeSet;

#[test]
fn every_attribute_id_appears_once() {
    let mut seen = BTreeSet::new();
    for at in inventory() {
        assert!(seen.insert(at.id), "duplicate HAL attribute id {}", at.id);
    }
}

#[test]
fn every_attribute_is_named() {
    for at in inventory() {
        assert!(!at.name.is_empty(), "HAL attribute {} has no name", at.id);
        assert!(at.name.starts_with('E'), "{} is not a TAttribute name", at.name);
    }
}

#[test]
fn the_timing_attributes_are_in_the_sweep() {
    for want in ["ENanoTickPeriod", "ESystemTickPeriod", "EFastCounterFrequency"] {
        assert!(inventory().iter().any(|a| a.name == want), "{want} missing");
    }
}

#[test]
fn every_capability_id_appears_once() {
    let mut seen = BTreeSet::new();
    for cap in all() {
        assert!(seen.insert(cap.id), "duplicate capability id {}", cap.id);
    }
}

#[test]
fn the_capability_set_is_complete_and_contiguous() {
    assert_eq!(all().len(), 20);
    assert_eq!(CAP_COUNT, 20);
    for (i, cap) in all().iter().enumerate() {
        assert_eq!(cap.id, i as i32, "{} is out of order", cap.name);
    }
}

#[test]
fn every_attempt_names_a_real_capability() {
    for at in attempts() {
        assert!(all().iter().any(|c| c.name == at.cap), "unknown capability {}", at.cap);
        assert!(!at.what.is_empty());
    }
}

#[test]
fn there_is_a_control_that_should_always_succeed() {
    assert!(attempts().iter().any(|a| a.path == "C:\\Data\\"));
}

#[test]
fn a_uid_is_written_as_plain_decimal() {
    assert_eq!(uid_to_setting(0x101F_D60A), "270521866");
    assert_eq!(uid_to_setting(0xE0AA_0000), "3769237504", "the launcher, as this key spells it");
    assert_eq!(uid_to_setting(0), "0");
}
