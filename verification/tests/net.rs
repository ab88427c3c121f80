use lib::net::{
    Bearer, EventKind, Iap, Ipv4, Lookup, Net, Progress, RawEvent, State, TcpStream, UdpSocket,
};
use lib::{Error, Result};

/// A [`Net`] that records calls and lets a test hand back events in any order.
#[derive(Default)]
struct FakeNet {
    next_handle: i32,
    /// Every issued read, as (handle, capacity).
    reads: Vec<(i32, usize)>,
    /// Every issued write, as (handle, bytes).
    writes: Vec<(i32, Vec<u8>)>,
    starts: Vec<Iap>,
    stops: Vec<i32>,
    closes: Vec<i32>,
    fail_recv: bool,
    /// Bytes the peer has waiting; `tcp_recv` writes the next into the buffer it is handed.
    queued: Vec<Vec<u8>>,
    /// The address of every buffer a read was issued into. Never dereferenced.
    read_at: Vec<usize>,
}

impl FakeNet {
    fn new() -> Self {
        FakeNet { next_handle: 10, ..Default::default() }
    }
    fn next(&mut self) -> i32 {
        self.next_handle += 1;
        self.next_handle
    }
}

impl Net for FakeNet {
    fn net_start(&mut self, iap: Iap) -> Result<i32> {
        self.starts.push(iap);
        Ok(self.next())
    }
    fn net_stop(&mut self, handle: i32) {
        self.stops.push(handle);
    }
    fn resolve(&mut self, _conn: i32, _host: &str) -> Result<i32> {
        Ok(self.next())
    }
    fn dns_close(&mut self, _handle: i32) {}
    fn tcp_open(&mut self, _conn: i32) -> Result<i32> {
        Ok(self.next())
    }
    fn tcp_connect(&mut self, _h: i32, _a: Ipv4, _p: u16) -> Result<()> {
        Ok(())
    }
    fn tcp_send(&mut self, h: i32, buf: &[u8]) -> Result<()> {
        self.writes.push((h, buf.to_vec()));
        Ok(())
    }
    fn tcp_recv(&mut self, h: i32, buf: &mut [u8], len: usize) -> Result<()> {
        if self.fail_recv {
            return Err(Error::InUse);
        }
        self.reads.push((h, len));
        self.read_at.push(buf.as_ptr() as usize);
        if !self.queued.is_empty() {
            let next = self.queued.remove(0);
            let n = next.len().min(len);
            buf[..n].copy_from_slice(&next[..n]);
        }
        Ok(())
    }
    fn tcp_close(&mut self, h: i32) {
        self.closes.push(h);
    }
    fn udp_open(&mut self, _conn: i32) -> Result<i32> {
        Ok(self.next())
    }
    fn udp_send_to(&mut self, h: i32, _addr: Ipv4, _port: u16, buf: &[u8]) -> Result<()> {
        self.writes.push((h, buf.to_vec()));
        Ok(())
    }
}

fn ev(kind: EventKind, handle: i32, status: i32, a: i32) -> RawEvent {
    RawEvent { kind, handle, status, a }
}

fn connected(net: &mut FakeNet) -> (Bearer, TcpStream) {
    let mut bearer = Bearer::start(net, None).unwrap();
    let h = bearer.handle();
    bearer.on_event(net, &ev(EventKind::NetReady, h, 0, 7)).unwrap();

    let mut s = TcpStream::open(net, &bearer, 16, 16).unwrap();
    s.connect(net, Ipv4::new(10, 0, 0, 1), 9).unwrap();
    let sh = s.handle();
    assert_eq!(s.on_event(net, &ev(EventKind::Connected, sh, 0, 0)), Progress::Connected);
    (bearer, s)
}

// ---- the receive path ----

#[test]
fn a_second_reply_does_not_arrive_with_the_first_one_glued_to_it() {
    let mut net = FakeNet::new();
    let mut bearer = Bearer::start(&mut net, None).unwrap();
    let bh = bearer.handle();
    bearer.on_event(&mut net, &ev(EventKind::NetReady, bh, 0, 7)).unwrap();

    let mut s = TcpStream::open(&mut net, &bearer, 64, 64).unwrap();
    s.connect(&mut net, Ipv4::new(10, 0, 0, 1), 9).unwrap();
    let h = s.handle();

    net.queued = vec![b"first...".to_vec(), b"second!!".to_vec()];
    assert_eq!(s.on_event(&mut net, &ev(EventKind::Connected, h, 0, 0)), Progress::Connected);

    let mut out = [0u8; 64];
    assert_eq!(s.on_event(&mut net, &ev(EventKind::Recv, h, 0, 8)), Progress::Received(8));
    assert_eq!(s.read(&mut net, &mut out).unwrap(), 8);
    assert_eq!(&out[..8], b"first...");

    assert_eq!(s.on_event(&mut net, &ev(EventKind::Recv, h, 0, 8)), Progress::Received(8));
    assert_eq!(s.read(&mut net, &mut out).unwrap(), 8);
    assert_eq!(&out[..8], b"second!!", "the previous reply came back instead of the new one");
}

#[test]
fn every_read_is_issued_into_the_same_address() {
    let mut net = FakeNet::new();
    let mut bearer = Bearer::start(&mut net, None).unwrap();
    let bh = bearer.handle();
    bearer.on_event(&mut net, &ev(EventKind::NetReady, bh, 0, 7)).unwrap();

    let mut s = TcpStream::open(&mut net, &bearer, 64, 64).unwrap();
    s.connect(&mut net, Ipv4::new(10, 0, 0, 1), 9).unwrap();
    let h = s.handle();
    s.on_event(&mut net, &ev(EventKind::Connected, h, 0, 0));

    let mut out = [0u8; 3];
    for _ in 0..4 {
        s.on_event(&mut net, &ev(EventKind::Recv, h, 0, 8));
        let _ = s.read(&mut net, &mut out);
    }
    assert!(net.read_at.len() >= 4, "no reads were issued");
    assert!(
        net.read_at.windows(2).all(|w| w[0] == w[1]),
        "the address handed to the platform moved: {:?}",
        net.read_at
    );
}

// ---- addresses ----

#[test]
fn dotted_quad_parses_and_round_trips() {
    assert_eq!(Ipv4::parse("192.168.15.74"), Some(Ipv4::new(192, 168, 15, 74)));
    assert_eq!(Ipv4::parse("0.0.0.0"), Some(Ipv4::new(0, 0, 0, 0)));
    assert_eq!(Ipv4::parse("255.255.255.255").unwrap().octets(), [255, 255, 255, 255]);
}

#[test]
fn a_hostname_is_not_a_dotted_quad() {
    for s in [
        "example.com",
        "1.2.3",
        "1.2.3.4.5",
        "256.0.0.1",
        "1.2.3.a",
        "",
        "1.2..4",
        "01.02.03.0004",
        "1.2.3.4 ",
    ] {
        assert!(Ipv4::parse(s).is_none(), "{s:?} parsed as an address");
    }
}

#[test]
fn an_address_packs_most_significant_first() {
    assert_eq!(Ipv4::new(10, 0, 0, 1), Ipv4(0x0A00_0001));
    assert_eq!(Ipv4(0xC0A8_0F4A).octets(), [192, 168, 15, 74]);
    assert_eq!(Ipv4::parse("010.1.1.1"), Some(Ipv4::new(10, 1, 1, 1)));
    assert_eq!(Ipv4::parse("1,2.3.4"), None);
}

// ---- bearer ----

#[test]
fn a_first_run_prompts_and_remembers() {
    let mut net = FakeNet::new();
    let mut b = Bearer::start(&mut net, None).unwrap();
    assert_eq!(net.starts, vec![Iap::Prompt]);
    assert!(!b.is_up());
    assert_eq!(b.iap(), None, "no IAP is known until the bearer is up");

    let h = b.handle();
    assert!(b.on_event(&mut net, &ev(EventKind::NetReady, h, 0, 42)).unwrap());
    assert!(b.is_up());
    assert_eq!(b.iap(), Some(42), "the id the OS chose is what gets persisted");
}

#[test]
fn a_saved_iap_connects_without_prompting() {
    let mut net = FakeNet::new();
    let mut b = Bearer::start(&mut net, Some(42)).unwrap();
    assert_eq!(net.starts, vec![Iap::Id(42)]);
    let h = b.handle();
    assert!(b.on_event(&mut net, &ev(EventKind::NetReady, h, 0, 42)).unwrap());
}

#[test]
fn a_saved_iap_that_no_longer_works_falls_back_to_a_prompt() {
    let mut net = FakeNet::new();
    let mut b = Bearer::start(&mut net, Some(42)).unwrap();
    let h = b.handle();

    assert!(!b.on_event(&mut net, &ev(EventKind::NetReady, h, -1, 0)).unwrap());
    assert_eq!(net.starts, vec![Iap::Id(42), Iap::Prompt]);
    assert_eq!(net.stops, vec![h], "the failed bearer must be released");

    let h2 = b.handle();
    assert_ne!(h2, h);
    assert!(b.on_event(&mut net, &ev(EventKind::NetReady, h2, 0, 99)).unwrap());
    assert_eq!(b.iap(), Some(99));
}

#[test]
fn a_prompt_that_fails_is_not_retried_forever() {
    let mut net = FakeNet::new();
    let mut b = Bearer::start(&mut net, None).unwrap();
    let h = b.handle();
    let r = b.on_event(&mut net, &ev(EventKind::NetReady, h, -1, 0));
    assert!(r.is_err(), "a failed prompt has nothing left to fall back to");
    assert_eq!(net.starts.len(), 1);
}

#[test]
fn a_bearer_ignores_another_bearers_event() {
    let mut net = FakeNet::new();
    let mut b = Bearer::start(&mut net, None).unwrap();
    let other = b.handle() + 1;
    assert!(!b.on_event(&mut net, &ev(EventKind::NetReady, other, 0, 1)).unwrap());
    assert!(!b.is_up());
}

#[test]
fn the_other_ways_to_start_ask_for_what_they_say() {
    let mut net = FakeNet::new();
    let mut a = Bearer::attach(&mut net).unwrap();
    let _p = Bearer::start_prompt(&mut net).unwrap();
    let _d = Bearer::start_default(&mut net).unwrap();
    assert_eq!(net.starts, vec![Iap::Attach, Iap::Prompt, Iap::Default]);
    // Finding nothing to join falls back to the dialog once.
    let h = a.handle();
    assert!(!a.on_event(&mut net, &ev(EventKind::NetReady, h, -1, 0)).unwrap());
    assert_eq!(net.starts.last(), Some(&Iap::Prompt));
    a.stop(&mut net);
    assert!(!a.is_up());
}

// ---- stream ----

#[test]
fn connecting_issues_a_read_immediately() {
    let mut net = FakeNet::new();
    let (_b, s) = connected(&mut net);
    assert_eq!(net.reads, vec![(s.handle(), 16)]);
}

#[test]
fn a_partial_read_accumulates_across_events() {
    let mut net = FakeNet::new();
    let (_b, mut s) = connected(&mut net);
    let h = s.handle();

    assert_eq!(s.on_event(&mut net, &ev(EventKind::Recv, h, 0, 5)), Progress::Received(5));
    assert_eq!(s.available(), 5);
    assert_eq!(s.on_event(&mut net, &ev(EventKind::Recv, h, 0, 3)), Progress::Received(3));
    assert_eq!(s.available(), 8);

    assert_eq!(net.reads, vec![(h, 16), (h, 11), (h, 8)]);
}

#[test]
fn a_full_receive_buffer_stops_asking_for_more_until_drained() {
    let mut net = FakeNet::new();
    let (_b, mut s) = connected(&mut net);
    let h = s.handle();

    s.on_event(&mut net, &ev(EventKind::Recv, h, 0, 10));
    s.on_event(&mut net, &ev(EventKind::Recv, h, 0, 6));
    assert_eq!(s.available(), 16);
    assert_eq!(net.reads, vec![(h, 16), (h, 6)], "no read issued with a full buffer");

    let mut out = [0u8; 8];
    assert_eq!(s.read(&mut net, &mut out).unwrap(), 8);
    assert_eq!(net.reads.last(), Some(&(h, 8)), "draining resumes reading");
    assert_eq!(s.state(), State::Connected);
}

#[test]
fn a_zero_length_read_is_end_of_stream() {
    let mut net = FakeNet::new();
    let (_b, mut s) = connected(&mut net);
    let h = s.handle();
    assert_eq!(s.on_event(&mut net, &ev(EventKind::Recv, h, 0, 0)), Progress::Closed);
    assert_eq!(s.state(), State::Closed);
}

#[test]
fn eof_and_disconnected_are_a_close_not_a_failure() {
    for status in [-25, -36] {
        let mut net = FakeNet::new();
        let (_b, mut s) = connected(&mut net);
        let h = s.handle();
        assert_eq!(
            s.on_event(&mut net, &ev(EventKind::Recv, h, status, 0)),
            Progress::Closed,
            "status {status}"
        );
        assert_eq!(s.state(), State::Closed);
    }
}

#[test]
fn writes_queue_and_drain_in_order() {
    let mut net = FakeNet::new();
    let (_b, mut s) = connected(&mut net);
    let h = s.handle();

    assert_eq!(s.write(&mut net, b"abc").unwrap(), 3);
    assert_eq!(s.write(&mut net, b"def").unwrap(), 3);
    assert_eq!(net.writes, vec![(h, b"abc".to_vec())]);

    assert_eq!(s.on_event(&mut net, &ev(EventKind::Sent, h, 0, 0)), Progress::Sent(3));
    assert_eq!(net.writes, vec![(h, b"abc".to_vec()), (h, b"def".to_vec())]);
}

#[test]
fn a_full_send_queue_accepts_a_partial_write() {
    let mut net = FakeNet::new();
    let (_b, mut s) = connected(&mut net);
    assert_eq!(s.write(&mut net, &[0u8; 20]).unwrap(), 16);
    assert_eq!(s.write(&mut net, b"x").unwrap(), 0);
}

#[test]
fn a_close_while_a_send_is_queued_abandons_it() {
    let mut net = FakeNet::new();
    let (_b, mut s) = connected(&mut net);
    let h = s.handle();
    s.write(&mut net, b"request").unwrap();
    s.write(&mut net, b"more").unwrap();

    assert_eq!(s.on_event(&mut net, &ev(EventKind::Closed, h, 0, 0)), Progress::Closed);
    let before = net.writes.len();
    s.on_event(&mut net, &ev(EventKind::Sent, h, 0, 0));
    assert_eq!(net.writes.len(), before);
}

#[test]
fn a_failed_connect_leaves_the_stream_failed() {
    let mut net = FakeNet::new();
    let mut b = Bearer::start(&mut net, None).unwrap();
    let bh = b.handle();
    b.on_event(&mut net, &ev(EventKind::NetReady, bh, 0, 1)).unwrap();
    let mut s = TcpStream::open(&mut net, &b, 16, 16).unwrap();
    s.connect(&mut net, Ipv4::new(10, 0, 0, 1), 9).unwrap();
    let h = s.handle();

    let p = s.on_event(&mut net, &ev(EventKind::Connected, h, -33, 0));
    assert!(matches!(p, Progress::Failed(_)));
    assert!(matches!(s.state(), State::Failed(_)));
    assert!(net.reads.is_empty());
}

#[test]
fn writing_before_connected_is_refused() {
    let mut net = FakeNet::new();
    let mut b = Bearer::start(&mut net, None).unwrap();
    let bh = b.handle();
    b.on_event(&mut net, &ev(EventKind::NetReady, bh, 0, 1)).unwrap();
    let mut s = TcpStream::open(&mut net, &b, 16, 16).unwrap();
    assert!(s.write(&mut net, b"x").is_err());
}

#[test]
fn connecting_twice_is_refused() {
    let mut net = FakeNet::new();
    let mut b = Bearer::start(&mut net, None).unwrap();
    let bh = b.handle();
    b.on_event(&mut net, &ev(EventKind::NetReady, bh, 0, 1)).unwrap();
    let mut s = TcpStream::open(&mut net, &b, 16, 16).unwrap();
    s.connect(&mut net, Ipv4::new(10, 0, 0, 1), 9).unwrap();
    assert_eq!(s.connect(&mut net, Ipv4::new(10, 0, 0, 2), 9).unwrap_err(), Error::InUse);
}

#[test]
fn one_streams_event_is_not_consumed_by_another() {
    let mut net = FakeNet::new();
    let mut b = Bearer::start(&mut net, None).unwrap();
    let bh = b.handle();
    b.on_event(&mut net, &ev(EventKind::NetReady, bh, 0, 1)).unwrap();

    let mut a = TcpStream::open(&mut net, &b, 16, 16).unwrap();
    let mut c = TcpStream::open(&mut net, &b, 16, 16).unwrap();
    a.connect(&mut net, Ipv4::new(10, 0, 0, 1), 9).unwrap();
    c.connect(&mut net, Ipv4::new(10, 0, 0, 2), 9).unwrap();
    assert_ne!(a.handle(), c.handle());

    let for_a = ev(EventKind::Connected, a.handle(), 0, 0);
    assert_eq!(c.on_event(&mut net, &for_a), Progress::Idle);
    assert_eq!(c.state(), State::Connecting, "c must not have taken a's completion");
    assert_eq!(a.on_event(&mut net, &for_a), Progress::Connected);
}

#[test]
fn read_shifts_the_remainder_down() {
    let mut net = FakeNet::new();
    let mut b = Bearer::start(&mut net, None).unwrap();
    let bh = b.handle();
    b.on_event(&mut net, &ev(EventKind::NetReady, bh, 0, 1)).unwrap();
    let mut s = TcpStream::open(&mut net, &b, 16, 16).unwrap();
    s.connect(&mut net, Ipv4::new(10, 0, 0, 1), 9).unwrap();
    let h = s.handle();
    net.queued = vec![b"abcdef".to_vec()];
    s.on_event(&mut net, &ev(EventKind::Connected, h, 0, 0));
    assert_eq!(s.on_event(&mut net, &ev(EventKind::Recv, h, 0, 6)), Progress::Received(6));

    let mut out = [0u8; 2];
    assert_eq!(s.read(&mut net, &mut out).unwrap(), 2);
    assert_eq!(&out, b"ab");
    assert_eq!(s.available(), 4);

    let mut rest = [0u8; 8];
    assert_eq!(s.read(&mut net, &mut rest).unwrap(), 4);
    assert_eq!(&rest[..4], b"cdef", "the remainder must survive the shift intact");
    assert_eq!(h, s.handle());
}

#[test]
fn reading_an_empty_stream_yields_nothing_rather_than_failing() {
    let mut net = FakeNet::new();
    let (_b, mut s) = connected(&mut net);
    let mut out = [0u8; 4];
    assert_eq!(s.read(&mut net, &mut out).unwrap(), 0);
}

#[test]
fn a_failed_reissue_fails_the_stream_rather_than_stalling_it() {
    let mut net = FakeNet::new();
    let (_b, mut s) = connected(&mut net);
    let h = s.handle();
    net.fail_recv = true;
    assert_eq!(
        s.on_event(&mut net, &ev(EventKind::Recv, h, 0, 4)),
        Progress::Failed(Error::from_code(-2))
    );
    assert_eq!(s.available(), 4, "what arrived stays readable");
    s.close(&mut net);
    assert_eq!(net.closes, vec![h]);
    assert_eq!(s.state(), State::Closed);
}

// ---- DNS ----

#[test]
fn a_lookup_reports_its_address() {
    let mut net = FakeNet::new();
    let mut b = Bearer::start(&mut net, None).unwrap();
    let bh = b.handle();
    b.on_event(&mut net, &ev(EventKind::NetReady, bh, 0, 1)).unwrap();

    let mut l = Lookup::start(&mut net, &b, "example.com").unwrap();
    let h = l.handle();
    assert_eq!(
        l.on_event(&ev(EventKind::Resolved, h, 0, 0x0A00_0001)).unwrap(),
        Some(Ipv4::new(10, 0, 0, 1))
    );
}

#[test]
fn a_lookup_that_resolves_to_nothing_is_an_error_not_an_address() {
    let mut net = FakeNet::new();
    let mut b = Bearer::start(&mut net, None).unwrap();
    let bh = b.handle();
    b.on_event(&mut net, &ev(EventKind::NetReady, bh, 0, 1)).unwrap();
    let mut l = Lookup::start(&mut net, &b, "v6only.example").unwrap();
    let h = l.handle();
    assert_eq!(l.on_event(&ev(EventKind::Resolved, h, 0, 0)).unwrap_err(), Error::NotFound);
}

#[test]
fn a_lookup_ignores_another_lookups_event() {
    let mut net = FakeNet::new();
    let mut b = Bearer::start(&mut net, None).unwrap();
    let bh = b.handle();
    b.on_event(&mut net, &ev(EventKind::NetReady, bh, 0, 1)).unwrap();
    let mut l = Lookup::start(&mut net, &b, "a.example").unwrap();
    let other = l.handle() + 1;
    assert_eq!(l.on_event(&ev(EventKind::Resolved, other, 0, 0x7F000001)).unwrap(), None);
}

#[test]
fn a_datagram_goes_out_on_its_own_socket() {
    let mut net = FakeNet::new();
    let mut u = UdpSocket::open(&mut net, 3).unwrap();
    u.send_to(&mut net, Ipv4::new(255, 255, 255, 255), 5000, b"hi").unwrap();
    assert_eq!(net.writes, vec![(u.handle(), b"hi".to_vec())]);
}
