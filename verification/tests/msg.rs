use std::collections::BTreeSet;

use lib::msg::{
    folders, info_name, mtm_name, MemMsv, Msv, MsvCall, MtmInfo, NewMessage, RawEntry, Session,
    MSV_COMPLETE, MSV_DRAFTS, MSV_FAILED, MSV_INBOX, MSV_IN_PREPARATION, MSV_NEW, MSV_OUTBOX,
    MSV_ROOT, MSV_SENT, MSV_UNREAD, MSV_VISIBLE,
};

fn store() -> Session<MemMsv> {
    Session::with(MemMsv::new()).unwrap()
}

#[test]
fn the_standard_folders_are_all_there() {
    let names: Vec<&str> = folders().iter().map(|(_, n)| *n).collect();
    assert_eq!(names, vec!["root", "inbox", "outbox", "drafts", "sent"]);
}

#[test]
fn folder_ids_match_the_platform_constants() {
    assert_eq!(MSV_INBOX, 0x1002);
    assert_eq!(MSV_OUTBOX, 0x1003);
    assert_eq!(MSV_DRAFTS, 0x1004);
    assert_eq!(MSV_SENT, 0x1005);
}

#[test]
fn the_flag_bits_do_not_overlap() {
    let all = [MSV_NEW, MSV_UNREAD, MSV_COMPLETE, MSV_VISIBLE, MSV_IN_PREPARATION, MSV_FAILED];
    let mut seen = 0i32;
    for f in all {
        assert_eq!(seen & f, 0, "flag {f:#x} overlaps an earlier one");
        seen |= f;
    }
    assert_eq!(seen, 0x3F);
}

#[test]
fn unknown_mtms_are_not_named() {
    assert_eq!(mtm_name(0x1000102C), Some("SMS"));
    assert_eq!(mtm_name(0xDEADBEEF), None);
    assert_eq!(mtm_name(0x100056DE), None);
    assert_eq!(mtm_name(0x100058E1), Some("MMS"));
}

#[test]
fn a_new_message_defaults_to_new_and_unread_in_the_inbox() {
    let m = NewMessage::new(42, 0xE0001234);
    assert_eq!(m.parent_id, MSV_INBOX);
    assert_eq!(m.flags, MSV_NEW | MSV_UNREAD);
    assert_eq!(m.unix_time, 0, "0 means the shim stamps it now");
}

#[test]
fn the_builder_encodes_utf16_and_reports_its_lengths() {
    let m = NewMessage::new(1, 2).from("Ana").subject("oi").body("bom dia").at(99).into_folder(MSV_DRAFTS);
    assert_eq!(m.details_units().len(), 3);
    assert_eq!(m.description_units().len(), 2);
    assert_eq!(m.body_units().len(), 7);
    assert_eq!((m.unix_time, m.parent_id), (99, MSV_DRAFTS));
}

#[test]
fn accents_survive_the_encoding() {
    let m = NewMessage::new(1, 2).body("ação");
    assert_eq!(m.body_units().len(), 4, "one UTF-16 unit per char here, not one per byte");
}

#[test]
fn the_flag_accessors_read_the_bits_they_claim() {
    let mut fake = MemMsv::new();
    let id = fake.push_message(
        MSV_INBOX,
        0xE1,
        1,
        "Ana",
        "hi",
        MSV_NEW | MSV_UNREAD | MSV_IN_PREPARATION,
    );
    let mut s = Session::with(fake).unwrap();
    let e = s.entry(id).unwrap();
    assert!(e.is_new() && e.unread() && e.in_preparation());
    assert!(!e.complete() && !e.visible() && !e.failed());
    assert!(e.is_message() && !e.is_service());
}

#[test]
fn info_name_honours_the_written_length() {
    let mut info = MtmInfo::default();
    info.name[0] = b'S' as u16;
    info.name[1] = b'M' as u16;
    info.name[2] = b'S' as u16;
    info.name_len = 3;
    assert_eq!(info_name(&info), &[83, 77, 83]);
    info.name_len = 9999;
    assert_eq!(info_name(&info).len(), 64);
}

#[test]
fn children_grows_until_the_whole_folder_fits() {
    let mut fake = MemMsv::new();
    for i in 0..40 {
        fake.push_message(MSV_DRAFTS, 0xE1, 1, "Ana", &format!("m{i}"), 0);
    }
    let mut s = Session::with(fake).unwrap();
    let ids = s.children(MSV_DRAFTS).unwrap();
    assert_eq!(ids.len(), 40, "every child, not the first bufferful");
    assert_eq!(ids.iter().collect::<BTreeSet<_>>().len(), 40, "and no id repeated by a re-read");
    let reads = s.msv().calls.iter().filter(|c| **c == MsvCall::Children(MSV_DRAFTS)).count();
    assert_eq!(reads, 2);
}

#[test]
fn children_of_an_empty_folder_is_empty_not_an_error() {
    let mut s = store();
    assert!(s.children(MSV_SENT).unwrap().is_empty());
}

#[test]
fn unread_count_counts_only_unread_in_the_folder() {
    let mut fake = MemMsv::new();
    fake.push_message(MSV_INBOX, 0xE1, 1, "Ana", "hi", MSV_UNREAD);
    fake.push_message(MSV_INBOX, 0xE1, 1, "Bea", "yo", MSV_UNREAD);
    fake.push_message(MSV_INBOX, 0xE1, 1, "Cal", "ok", 0);
    fake.push_message(MSV_DRAFTS, 0xE1, 1, "Dan", "wip", MSV_UNREAD);
    let mut s = Session::with(fake).unwrap();
    assert_eq!(s.unread_count(MSV_INBOX).unwrap(), 2);
    assert_eq!(s.unread_count(MSV_SENT).unwrap(), 0, "empty folder is zero, not an error");
}

#[test]
fn body_grows_until_the_whole_text_fits() {
    let long: String = "x".repeat(1000);
    let mut fake = MemMsv::new();
    let id = fake.push_message(MSV_INBOX, 0xE1, 1, "Ana", &long, 0);
    let mut s = Session::with(fake).unwrap();
    assert_eq!(s.body(id).unwrap().len(), 1000);
    assert_eq!(s.msv().calls.iter().filter(|c| **c == MsvCall::Body(id)).count(), 2);
}

#[test]
fn an_entry_with_no_body_reads_as_empty() {
    let mut fake = MemMsv::new();
    let id = fake.push_message(MSV_INBOX, 0xE1, 1, "Ana", "", 0);
    let mut s = Session::with(fake).unwrap();
    assert_eq!(s.body(id).unwrap(), "");
}

#[test]
fn services_finds_only_our_own_type() {
    let mut fake = MemMsv::new();
    fake.push_service(0xE1, "ours");
    fake.push_service(0xE2, "somebody else's");
    let mut s = Session::with(fake).unwrap();
    assert_eq!(s.services(0xE1).unwrap().len(), 1);
    assert_eq!(s.services(0xE3).unwrap().len(), 0);
}

#[test]
fn a_long_correspondent_is_reported_as_truncated() {
    let long: String = "a".repeat(100);
    let mut fake = MemMsv::new();
    let id = fake.push_message(MSV_INBOX, 0xE1, 1, &long, "hi", 0);
    let mut s = Session::with(fake).unwrap();
    let e = s.entry(id).unwrap();
    assert!(e.details_truncated);
    assert_eq!(e.details.len(), 64, "what fitted, and no more");

    let e2 = {
        let mut fake = MemMsv::new();
        let id = fake.push_message(MSV_INBOX, 0xE1, 1, "Ana", "hi", 0);
        let mut s = Session::with(fake).unwrap();
        s.entry(id).unwrap()
    };
    assert!(!e2.details_truncated);
    assert_eq!(e2.details, "Ana");
}

#[test]
fn mark_read_clears_only_new_and_unread() {
    let mut fake = MemMsv::new();
    let id = fake.push_message(
        MSV_INBOX,
        0xE1,
        1,
        "Ana",
        "hi",
        MSV_NEW | MSV_UNREAD | MSV_COMPLETE | MSV_VISIBLE,
    );
    let mut s = Session::with(fake).unwrap();
    s.mark_read(id).unwrap();
    let e = s.entry(id).unwrap();
    assert!(!e.is_new() && !e.unread());
    assert!(e.complete() && e.visible());
}

#[test]
fn set_wins_over_clear_on_the_same_bit() {
    let mut fake = MemMsv::new();
    let id = fake.push_message(MSV_INBOX, 0xE1, 1, "Ana", "hi", 0);
    let mut s = Session::with(fake).unwrap();
    s.set_flags(id, MSV_FAILED, MSV_FAILED).unwrap();
    assert!(s.entry(id).unwrap().failed());
}

#[test]
fn moving_an_entry_changes_its_parent() {
    let mut fake = MemMsv::new();
    let id = fake.push_reply(MSV_DRAFTS, 0xE1, 1, "Ana", "ok");
    let mut s = Session::with(fake).unwrap();
    s.move_entry(id, MSV_SENT).unwrap();
    assert_eq!(s.entry(id).unwrap().parent, MSV_SENT);
    assert!(s.children(MSV_DRAFTS).unwrap().is_empty());
}

#[test]
fn installing_swallows_the_first_runs_missing_deinstall() {
    let mut s = store();
    s.install_mtm("C:\\resource\\messaging\\mtm\\x.rsc").unwrap();
    s.install_mtm("C:\\resource\\messaging\\mtm\\x.rsc").unwrap();
    assert_eq!(s.mtm_count().unwrap(), 1, "installed once, not twice over");
}

#[test]
fn deinstalling_something_absent_is_not_an_error() {
    let mut s = store();
    s.deinstall_mtm("C:\\resource\\messaging\\mtm\\nothing.rsc").unwrap();
}

#[test]
fn creating_a_message_lands_it_complete_and_visible() {
    let mut s = store();
    let svc = s.create_service(0xE1, "Telegram").unwrap();
    let id = s
        .create_message(&NewMessage::new(svc, 0xE1).from("Ana").body("bom dia"))
        .unwrap();
    let e = s.entry(id).unwrap();
    assert!(e.complete() && e.visible() && e.is_new() && e.unread());
    assert_eq!(e.details, "Ana");
    assert_eq!(s.body(id).unwrap(), "bom dia");
}

#[test]
fn observing_is_off_until_asked() {
    let mut s = Session::with(MemMsv::new()).unwrap();
    s.observe().unwrap();
    s.stop_observing().unwrap();
    assert_eq!(s.msv().calls, vec![MsvCall::Open, MsvCall::Observe(true), MsvCall::Observe(false)]);
}

#[test]
fn children_come_newest_first() {
    let mut fake = MemMsv::new();
    let a = fake.push_message(MSV_INBOX, 0xE1, 1, "Ana", "one", 0);
    let _elsewhere = fake.push_message(MSV_DRAFTS, 0xE1, 1, "Bea", "two", 0);
    let c = fake.push_message(MSV_INBOX, 0xE1, 1, "Cal", "three", 0);
    let mut s = Session::with(fake).unwrap();
    assert_eq!(s.children(MSV_INBOX).unwrap(), vec![c, a]);
    assert_eq!(s.folder_count(MSV_INBOX).unwrap(), 2);
}

#[test]
fn a_service_sits_under_the_root_and_deleting_services_removes_only_that_type() {
    let mut s = store();
    let ours = s.create_service(0xE1, "ours").unwrap();
    let _theirs = s.create_service(0xE2, "theirs").unwrap();
    let again = s.create_service(0xE1, "ours again").unwrap();
    assert_eq!(s.services(0xE1).unwrap(), vec![ours, again]);
    let e = s.entry(ours).unwrap();
    assert_eq!(e.parent, MSV_ROOT);
    assert!(e.is_service() && e.complete() && e.visible());
    assert_eq!(s.delete_services(0xE1).unwrap(), 2);
    assert!(s.services(0xE1).unwrap().is_empty());
    assert_eq!(s.services(0xE2).unwrap().len(), 1);
}

#[test]
fn a_deleted_entry_is_gone_and_deleting_it_again_is_not_found() {
    let mut fake = MemMsv::new();
    let id = fake.push_message(MSV_INBOX, 0xE1, 1, "Ana", "hi", 0);
    let mut s = Session::with(fake).unwrap();
    s.delete_entry(id).unwrap();
    assert_eq!(s.delete_entry(id), Err(lib::Error::NotFound));
    assert!(s.entry(id).is_err());
    assert!(s.body(id).is_err());
}

#[test]
fn an_injected_failure_comes_back_once() {
    let mut fake = MemMsv::new();
    fake.fail_next = Some(lib::Error::InUse);
    assert_eq!(Session::with(fake).err(), Some(lib::Error::InUse));

    let mut fake = MemMsv::new();
    let id = fake.push_message(MSV_INBOX, 0xE1, 1, "Ana", "hi", 0);
    let mut s = Session::with(fake).unwrap();
    let mut m = s.close();
    assert_eq!(m.calls, vec![MsvCall::Open, MsvCall::Close]);
    m.fail_next = Some(lib::Error::NotReady);
    assert_eq!(m.body_of(id), Some("hi".to_string()), "reading the fake itself asks nothing");
    s = Session::with(MemMsv::new()).unwrap();
    assert!(s.entry(id).is_err());
}

#[test]
fn a_refused_observe_leaves_delivery_off() {
    let mut fake = MemMsv::new();
    fake.refuse_observe = true;
    let mut s = Session::with(fake).unwrap();
    assert!(s.observe().is_err());
    assert!(!s.msv().observing);
}

#[test]
fn a_record_decodes_what_fitted_and_says_when_it_did_not() {
    let mut raw = RawEntry::default();
    raw.details[0] = b'A' as u16;
    raw.details_len = 1;
    raw.description_len = -1;
    let e = lib::msg::Entry::from_raw(&raw);
    assert_eq!(e.details, "A");
    assert!(!e.details_truncated);
    assert_eq!(e.description, "");
    assert!(e.description_truncated, "a negative length is not a length");
}

#[test]
fn the_fake_store_fails_once_when_told_and_then_recovers() {
    let mut fake = MemMsv::new();
    fake.fail_next = Some(lib::Error::InUse);
    assert_eq!(fake.open(), Err(lib::Error::InUse));
    assert_eq!(fake.open(), Ok(1));
    assert_eq!(fake.entry(1, 0x4242), Err(lib::Error::NotFound));
    assert_eq!(fake.mtm_info(1, 0), Err(lib::Error::NotFound));
    assert_eq!(fake.deinstall_mtm(&[0x41]), Err(lib::Error::NotFound));
    assert!(fake.install_mtm(&[0x41]).is_ok());
    assert!(fake.deinstall_mtm(&[0x41]).is_ok());
    fake.refuse_observe = true;
    assert!(fake.observe(1, true).is_err());
    assert_eq!(
        fake.calls,
        vec![
            MsvCall::Open,
            MsvCall::Open,
            MsvCall::Entry(0x4242),
            MsvCall::DeinstallMtm,
            MsvCall::InstallMtm,
            MsvCall::DeinstallMtm,
            MsvCall::Observe(true),
        ]
    );
}
