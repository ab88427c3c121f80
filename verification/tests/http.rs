use lib::http::{
    clamp_status, inflate_error, Body, Fetch, Flags, Http, HttpEvent, InflateFailure, Progress,
    Response, Validators, GZIP, GZIP_MAGIC,
};
use lib::{Error, Result};

#[derive(Default)]
struct FakeHttp {
    opened: Option<i32>,
    asked: Vec<(String, bool)>,
    conditions: Vec<(String, String)>,
    body: Vec<u8>,
    cancels: u32,
    effective: String,
    validators: Validators,
    resets: u32,
}

impl Http for FakeHttp {
    fn open(&mut self, bearer: i32) -> Result<()> {
        self.opened = Some(bearer);
        Ok(())
    }
    fn get(&mut self, url: &str, want_gzip: bool) -> Result<()> {
        self.get_conditional(url, want_gzip, "", "")
    }
    fn get_conditional(&mut self, url: &str, want_gzip: bool, etag: &str, last_modified: &str) -> Result<()> {
        self.asked.push((String::from(url), want_gzip));
        self.conditions.push((String::from(etag), String::from(last_modified)));
        Ok(())
    }
    fn validators(&mut self) -> Result<Validators> {
        Ok(self.validators.clone())
    }
    fn reset(&mut self, bearer: i32) -> Result<()> {
        self.resets += 1;
        self.opened = Some(bearer);
        Ok(())
    }
    fn read(&mut self, out: &mut [u8]) -> Result<usize> {
        let n = core::cmp::min(out.len(), self.body.len());
        out[..n].copy_from_slice(&self.body[..n]);
        self.body.drain(..n);
        Ok(n)
    }
    fn effective_url(&mut self) -> Result<String> {
        Ok(self.effective.clone())
    }
    fn cancel(&mut self) {
        self.cancels += 1;
    }
    fn post(&mut self, _url: &str, _content_type: &str, _body: &[u8]) -> Result<()> {
        Err(Error::Platform(lib::error::ERR_NOT_SUPPORTED))
    }
    fn range_from(&mut self, _offset: u64) -> Result<()> {
        Err(Error::Platform(lib::error::ERR_NOT_SUPPORTED))
    }
}

fn done(code: i32, status: i32, total: i32, flags: i32, parts: i32) -> HttpEvent {
    HttpEvent::Done { code, status, total, flags, parts }
}

#[test]
fn a_body_over_its_cap_reports_what_it_dropped() {
    let mut body = Body::with_cap(4);
    body.push(b"abcdefgh");
    assert_eq!(body.len(), 4);
    assert_eq!(body.dropped(), 4);
    assert_eq!(body.raw(), b"abcd");
}

#[test]
fn status_is_clamped() {
    assert_eq!(clamp_status(200), 200);
    assert_eq!(clamp_status(0), 0);
    assert_eq!(clamp_status(-1), 0);
    assert_eq!(clamp_status(70000), 0);
}

#[test]
fn read_drains_the_buffer() {
    let mut h = FakeHttp { body: vec![b'h', b'i', b'!'], ..Default::default() };
    let mut f = Fetch::start(&mut h, "http://x/", false).unwrap();
    let mut buf = [0u8; 2];
    assert_eq!(f.read(&mut h, &mut buf).unwrap(), 2);
    assert_eq!(&buf, b"hi");
    assert_eq!(f.read(&mut h, &mut buf).unwrap(), 1);
    assert_eq!(f.read(&mut h, &mut buf).unwrap(), 0);
}

#[test]
fn head_then_body_then_done() {
    let mut h = FakeHttp::default();
    let mut f = Fetch::start(&mut h, "https://example.com/", true).unwrap();
    assert_eq!(h.asked, vec![(String::from("https://example.com/"), true)]);
    assert_eq!(f.on_event(&HttpEvent::Head { status: 200 }), Progress::Head(200));
    assert_eq!(f.on_event(&HttpEvent::Body { total: 512 }), Progress::Body(512));
    assert_eq!(f.on_event(&HttpEvent::Body { total: 900 }), Progress::Body(900));
    match f.on_event(&done(0, 200, 900, 0, 2)) {
        Progress::Done(r) => {
            assert_eq!(r.status, 200);
            assert_eq!(r.total, 900);
            assert_eq!(r.parts, 2);
            assert!(r.is_ok());
        }
        other => panic!("expected Done, got {:?}", other),
    }
    assert!(f.is_done());
}

#[test]
fn failure_keeps_the_code() {
    let mut h = FakeHttp::default();
    let mut f = Fetch::start(&mut h, "https://expired.example/", false).unwrap();
    f.on_event(&HttpEvent::Head { status: 0 });
    match f.on_event(&done(-7548, 0, 0, 0, 0)) {
        Progress::Failed(e) => assert_eq!(e.code(), -7548),
        other => panic!("expected Failed, got {:?}", other),
    }
    assert!(f.is_done());
}

#[test]
fn completion_after_cancel_is_ignored() {
    let mut h = FakeHttp::default();
    let mut f = Fetch::start(&mut h, "http://x/", false).unwrap();
    f.cancel(&mut h);
    assert_eq!(h.cancels, 1);
    assert_eq!(f.on_event(&done(0, 200, 10, 0, 1)), Progress::Idle);
}

#[test]
fn a_304_is_not_modified_and_not_an_empty_page() {
    let mut h = FakeHttp::default();
    let mut f = Fetch::start_conditional(&mut h, "https://e.com/", true, "\"v1\"", "").unwrap();

    assert_eq!(f.on_event_with(&mut h, &HttpEvent::Head { status: 304 }), Progress::NotModified);
    assert_eq!(f.on_event_with(&mut h, &done(0, 304, 0, 0, 0)), Progress::NotModified);
    assert!(f.is_done());
}

#[test]
fn a_silent_redirect_is_reported_and_validators_are_captured() {
    let mut h = FakeHttp {
        effective: String::from("http://www.google.com/"),
        validators: Validators { etag: String::from("\"e\""), last_modified: String::new() },
        ..Default::default()
    };
    let mut f = Fetch::start(&mut h, "http://google.com/", true).unwrap();
    assert_eq!(f.effective_url(), "http://google.com/");
    f.on_event_with(&mut h, &HttpEvent::Head { status: 200 });
    assert_eq!(f.validators().etag, "\"e\"");
    assert!(f.validators().any());
    f.on_event_with(&mut h, &done(0, 200, 1, 0, 1));
    assert!(f.was_redirected());
    assert_eq!(f.effective_url(), "http://www.google.com/");
    assert_eq!(f.url(), "http://google.com/");
}

#[test]
fn needs_inflate_is_declared_and_not_decoded() {
    assert!(Flags(GZIP | GZIP_MAGIC).needs_inflate());
    assert!(!Flags(GZIP).needs_inflate());
    assert!(!Flags(GZIP_MAGIC).needs_inflate());
    assert!(Flags(GZIP).gzip() && !Flags(GZIP).chunked() && !Flags(GZIP).truncated());
}

#[test]
fn a_post_is_not_supported_unless_the_platform_says_so() {
    let mut h = FakeHttp::default();
    assert_eq!(Fetch::post(&mut h, "http://x/", "text/plain", b"hi").err(), Some(Error::Platform(-5)));
    assert_eq!(Fetch::start_from(&mut h, "http://x/", false, 10).err(), Some(Error::Platform(-5)));
    let r = Response { status: 404, total: 0, parts: 0, flags: Flags(0) };
    assert!(!r.is_ok());
}

#[test]
fn total_comes_from_the_stack_not_from_summing() {
    let mut h = FakeHttp::default();
    let mut f = Fetch::start(&mut h, "http://x/", false).unwrap();
    f.on_event(&HttpEvent::Body { total: 100 });
    f.on_event(&HttpEvent::Body { total: 250 });
    match f.on_event(&done(0, 200, 250, 0, 2)) {
        Progress::Done(r) => assert_eq!(r.total, 250),
        other => panic!("expected Done, got {:?}", other),
    }
}

#[test]
fn a_silent_redirect_is_reported() {
    let mut h = FakeHttp { effective: String::from("https://www.google.com/"), ..Default::default() };
    let mut f = Fetch::start(&mut h, "http://google.com/", false).unwrap();

    assert_eq!(f.effective_url(), "http://google.com/", "unknown until it ends");
    assert!(!f.was_redirected());

    f.on_event_with(&mut h, &done(0, 200, 10, 0, 1));
    assert_eq!(f.effective_url(), "https://www.google.com/");
    assert!(f.was_redirected());
    assert_eq!(f.url(), "http://google.com/", "what was asked for is still available");
}

#[test]
fn without_a_redirect_nothing_is_reported() {
    let mut h = FakeHttp { effective: String::from("https://example.com/"), ..Default::default() };
    let mut f = Fetch::start(&mut h, "https://example.com/", false).unwrap();
    f.on_event_with(&mut h, &done(0, 200, 10, 0, 1));
    assert_eq!(f.effective_url(), "https://example.com/");
    assert!(!f.was_redirected());
}

#[test]
fn an_unknown_effective_url_falls_back() {
    let mut h = FakeHttp { effective: String::new(), ..Default::default() };
    let mut f = Fetch::start(&mut h, "https://example.com/x", false).unwrap();
    f.on_event_with(&mut h, &done(0, 200, 0, 0, 0));
    assert_eq!(f.effective_url(), "https://example.com/x");
    assert!(!f.was_redirected());
}

#[test]
fn a_conditional_request_sends_what_it_was_given() {
    let mut h = FakeHttp::default();
    Fetch::start_conditional(&mut h, "https://e.com/", true, "\"v1\"", "Sat, 23 Aug 2026 00:00:00 GMT")
        .unwrap();
    assert_eq!(
        h.conditions[0],
        (String::from("\"v1\""), String::from("Sat, 23 Aug 2026 00:00:00 GMT"))
    );

    Fetch::start(&mut h, "https://e.com/x", false).unwrap();
    assert_eq!(h.conditions[1], (String::new(), String::new()), "plain GET sends neither");
}

#[test]
fn a_200_answering_a_conditional_request_is_a_fresh_page() {
    let mut h = FakeHttp::default();
    let mut f = Fetch::start_conditional(&mut h, "https://e.com/", true, "\"old\"", "").unwrap();
    f.on_event_with(&mut h, &HttpEvent::Head { status: 200 });
    match f.on_event_with(&mut h, &done(0, 200, 42, 0, 1)) {
        Progress::Done(r) => assert_eq!(r.total, 42),
        other => panic!("expected Done, got {other:?}"),
    }
}

#[test]
fn the_response_validators_are_captured() {
    let mut h = FakeHttp {
        validators: Validators {
            etag: String::from("\"abc\""),
            last_modified: String::from("Sat, 23 Aug 2026 00:00:00 GMT"),
        },
        ..Default::default()
    };
    let mut f = Fetch::start(&mut h, "https://e.com/", true).unwrap();
    assert!(!f.validators().any(), "unknown until the headers arrive");

    f.on_event_with(&mut h, &HttpEvent::Head { status: 200 });
    assert_eq!(f.validators().etag, "\"abc\"");
    assert!(f.validators().any());
}

#[test]
fn a_304_can_refresh_the_validator() {
    let mut h = FakeHttp {
        validators: Validators { etag: String::from("\"v2\""), last_modified: String::new() },
        ..Default::default()
    };
    let mut f = Fetch::start_conditional(&mut h, "https://e.com/", true, "\"v1\"", "").unwrap();
    f.on_event_with(&mut h, &HttpEvent::Head { status: 304 });
    assert_eq!(f.validators().etag, "\"v2\"");
}

#[test]
fn no_validators_is_reported_as_none() {
    let mut h = FakeHttp::default();
    let mut f = Fetch::start(&mut h, "https://e.com/", true).unwrap();
    f.on_event_with(&mut h, &HttpEvent::Head { status: 200 });
    assert!(!f.validators().any(), "a page that cannot be revalidated must say so");
}

#[test]
fn a_session_can_be_thrown_away() {
    let mut h = FakeHttp::default();
    h.open(7).unwrap();
    assert_eq!(h.resets, 0);
    h.reset(7).unwrap();
    assert_eq!(h.resets, 1);
    assert_eq!(h.opened, Some(7), "and comes back on the same bearer");
}

#[test]
fn an_inflate_failure_maps_to_what_a_caller_can_act_on() {
    assert_eq!(inflate_error(InflateFailure::TooLarge), Error::Overflow);
    assert_eq!(inflate_error(InflateFailure::Sink), Error::Argument);
    assert_eq!(inflate_error(InflateFailure::Truncated), Error::UnexpectedEof);
    assert_eq!(inflate_error(InflateFailure::Corrupt), Error::Platform(-20));
}
