use lib::apps::{
    app_entry, icon_attempt, icon_first, icon_second, open_at, sort_apps, sort_by_keys, AppInfo, Apps,
    Attempt,
    IconStep, LaunchDoc, Launcher, CAPTION_MAX,
};
use lib::{Error, Result};

/// A fake roster: whatever apps it is handed, and a record of what got launched.
#[derive(Clone, Debug, Default)]
struct FakeApps {
    roster: Vec<AppInfo>,
    launched: Vec<u32>,
    fail_launch: bool,
}

impl Apps for FakeApps {
    fn installed(&mut self) -> Result<Vec<AppInfo>> {
        Ok(self.roster.clone())
    }
    fn launch(&mut self, uid3: u32) -> Result<()> {
        if self.fail_launch {
            return Err(Error::Platform(-1));
        }
        self.launched.push(uid3);
        Ok(())
    }
}

fn app(uid3: u32, caption: &str) -> AppInfo {
    AppInfo { uid3, caption: String::from(caption), hidden: false, system: false }
}

#[test]
fn fake_lists_and_records_launches() {
    let mut apps = FakeApps { roster: vec![app(0xE1, "One"), app(0xE2, "Two")], ..Default::default() };
    let listed = apps.installed().unwrap();
    assert_eq!(listed.len(), 2);
    assert_eq!(listed[1].caption, "Two");

    apps.launch(0xE2).unwrap();
    assert_eq!(apps.launched, vec![0xE2]);
    apps.fail_launch = true;
    assert!(apps.launch(0xE3).is_err());
}

fn units(s: &str) -> Vec<u16> {
    let mut v: Vec<u16> = s.encode_utf16().collect();
    v.resize(CAPTION_MAX, 0);
    v
}

#[test]
fn a_registry_entry_becomes_an_app_with_its_flags_split_out() {
    let a = app_entry(0, 0xE000_1234, 3, &units("Notes"), 5).unwrap().unwrap();
    assert_eq!(a.uid3, 0xE000_1234);
    assert_eq!(a.caption, "Notes");
    assert!(a.hidden && a.system);
    let b = app_entry(0, 7, 0, &units("Calendar"), 3).unwrap().unwrap();
    assert_eq!(b.caption, "Cal", "only the written length counts");
    assert!(!b.hidden && !b.system);
}

#[test]
fn a_blank_caption_falls_back_to_the_uid_in_hex() {
    let a = app_entry(0, 0xE0001234, 0, &units("   "), 3).unwrap().unwrap();
    assert_eq!(a.caption, "[E0001234]");
    let b = app_entry(0, 0x10005A26, 0, &units(""), 0).unwrap().unwrap();
    assert_eq!(b.caption, "[10005A26]");
}

#[test]
fn a_vanished_entry_is_skipped_and_another_failure_is_kept() {
    assert_eq!(app_entry(-1, 1, 0, &units("x"), 1), Ok(None));
    assert_eq!(app_entry(-4, 1, 0, &units("x"), 1), Err(Error::NoMemory));
}

#[test]
fn apps_sort_by_caption_ignoring_case_and_keep_ties_in_order() {
    let sorted = sort_apps(vec![
        app(1, "camera"),
        app(2, "Browser"),
        app(3, "alarm"),
        app(4, "browser"),
        app(5, "Calendar"),
    ]);
    let uids: Vec<u32> = sorted.iter().map(|a| a.uid3).collect();
    assert_eq!(uids, vec![3, 2, 4, 5, 1]);
    assert!(sort_apps(Vec::new()).is_empty());
}

#[test]
fn an_icon_is_cut_to_the_size_the_platform_reported() {
    match icon_attempt(0, 2, 3, vec![7u16; 16], vec![255u8; 16]) {
        Attempt::Got(i) => {
            assert_eq!((i.w, i.h), (2, 3));
            assert_eq!(i.pixels, vec![7u16; 6]);
            assert_eq!(i.mask, vec![255u8; 6]);
        }
        other => panic!("{other:?}"),
    }
    assert_eq!(icon_attempt(0, 5, 5, vec![0; 16], vec![0; 16]), Attempt::Failed(Error::NotFound));
    assert_eq!(icon_attempt(0, 0, 5, vec![0; 16], vec![0; 16]), Attempt::Failed(Error::NotFound));
    assert_eq!(icon_attempt(-9, 48, 40, vec![], vec![]), Attempt::TooSmall(48, 40));
    assert_eq!(icon_attempt(-5, 1, 1, vec![0], vec![0]), Attempt::Failed(Error::Platform(-5)));
}

#[test]
fn a_too_small_buffer_is_retried_once_at_the_reported_edge() {
    assert_eq!(icon_first(Attempt::TooSmall(48, 40)), IconStep::Retry(48));
    assert_eq!(icon_first(Attempt::TooSmall(300, 40)), IconStep::Done(Err(Error::NotFound)));
    assert_eq!(icon_first(Attempt::TooSmall(0, 0)), IconStep::Done(Err(Error::NotFound)));
    assert_eq!(icon_second(Attempt::TooSmall(64, 64)), Err(Error::NotFound));
    assert_eq!(icon_second(Attempt::Failed(Error::NotReady)), Err(Error::NotReady));
}

#[derive(Default)]
struct FakeLauncher {
    /// Each call, spelled out.
    log: Vec<String>,
    /// Which call (by position in the log) is the first to be accepted.
    accept_at: Option<usize>,
}

impl FakeLauncher {
    fn answer(&mut self, what: String) -> Result<()> {
        self.log.push(what);
        if Some(self.log.len() - 1) == self.accept_at {
            Ok(())
        } else {
            Err(Error::NotFound)
        }
    }
}

impl Launcher for FakeLauncher {
    fn task_message(&mut self, uid3: u32, msg: &[u8]) -> Result<()> {
        self.answer(format!("task {uid3:x} {}", String::from_utf8_lossy(msg)))
    }
    fn launch_doc(&mut self, uid3: u32, doc: &str, route: LaunchDoc) -> Result<()> {
        self.answer(format!("doc {uid3:x} {doc} {}", route.raw()))
    }
    fn launch(&mut self, uid3: u32) -> Result<()> {
        self.answer(format!("launch {uid3:x}"))
    }
    fn to_background(&mut self) -> Result<()> {
        self.log.push(String::from("background"));
        Ok(())
    }
}

#[test]
fn a_running_browser_gets_the_address_and_the_caller_steps_aside() {
    let mut l = FakeLauncher { accept_at: Some(0), ..Default::default() };
    assert!(open_at(&mut l, 0x10008D39, "http://x.org").is_ok());
    assert_eq!(l.log, vec!["task 10008d39 4 http://x.org", "background"]);
}

#[test]
fn the_routes_are_tried_in_order_and_a_failure_keeps_the_screen() {
    let mut l = FakeLauncher { accept_at: Some(3), ..Default::default() };
    assert!(open_at(&mut l, 1, "u").is_ok());
    assert_eq!(l.log, vec!["task 1 4 u", "doc 1 u 1", "doc 1 4 u 0", "doc 1 4 u 2", "background"]);

    let mut none = FakeLauncher::default();
    assert!(open_at(&mut none, 1, "u").is_err());
    assert_eq!(none.log, vec!["task 1 4 u", "doc 1 u 1", "doc 1 4 u 0", "doc 1 4 u 2", "doc 1 u 3", "launch 1"]);
}

#[test]
fn sorting_by_given_keys_is_stable_and_carries_the_keys_along() {
    let keys: Vec<Vec<char>> = vec![vec!['b'], vec!['a'], vec!['b'], vec!['a', 'a']];
    let (sorted, sorted_keys) =
        sort_by_keys(vec![app(1, "x"), app(2, "y"), app(3, "z"), app(4, "w")], keys);
    let uids: Vec<u32> = sorted.iter().map(|a| a.uid3).collect();
    assert_eq!(uids, vec![2, 4, 1, 3]);
    assert_eq!(sorted_keys, vec![vec!['a'], vec!['a', 'a'], vec!['b'], vec!['b']]);
}
