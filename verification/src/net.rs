//! TCP, UDP and DNS: the address format, and the state machines that drive a bearer, a
//! stream and a lookup through the platform's completion events.
//!
//! The platform's socket calls stand behind [`Net`], one call per request, so that the
//! accumulating and routing happen above that line where they are verified:
//!
//! - a receive completion delivers *whatever arrived*, so a reader accumulates across several;
//! - events carry a handle, and one socket must never take another's completion;
//! - a close or an error can arrive while a send is outstanding, and the pending bytes are
//!   abandoned rather than reported as delivered;
//! - a full receive buffer withholds the next read instead of asking for zero bytes;
//! - every read is issued into the same landing buffer, whose address never depends on how
//!   much is queued.

use vstd::prelude::*;

use crate::error::{spec_from_code, Error, Result, ERR_GENERAL};
use crate::pkg::{all_digits, chars_of, digits_value, is_digit};

verus! {

broadcast use {vstd::seq::group_seq_axioms, vstd::slice::group_slice_axioms};

/// Which access point to use.
#[derive(Copy, Clone, Debug, PartialEq, Eq, Structural)]
pub enum Iap {
    /// Let the OS ask the user: right on a first run, wrong on every run after it.
    Prompt,
    /// Take the configured default without asking.
    Default,
    /// A specific access point, from a previous [`Bearer::iap`].
    Id(u32),
    /// Join a connection that is already up, rather than negotiating one.
    Attach,
}

// ------------------------------------------------------------------------ address --

/// An IPv4 address, host byte order.
#[derive(Copy, Clone, Debug, PartialEq, Eq, Structural)]
pub struct Ipv4(pub u32);

/// The address whose octets, most significant first, are `a.b.c.d`.
pub open spec fn pack(a: u8, b: u8, c: u8, d: u8) -> u32 {
    ((a as u32) * 0x100_0000 + (b as u32) * 0x1_0000 + (c as u32) * 0x100 + (d as u32)) as u32
}

/// `s` split at every `.`, as `str::split('.')` does: one more field than dots.
pub open spec fn dot_fields(s: Seq<char>) -> Seq<Seq<char>>
    decreases s.len(),
{
    if s.len() == 0 {
        seq![Seq::empty()]
    } else {
        let r = dot_fields(s.drop_last());
        if s.last() == '.' {
            r.push(Seq::empty())
        } else {
            r.update(r.len() - 1, r.last().push(s.last()))
        }
    }
}

/// A decimal octet: one to three digits, no more than 255.
pub open spec fn octet(t: Seq<char>) -> Option<u8> {
    if 1 <= t.len() <= 3 && all_digits(t) && digits_value(t) <= 255 {
        Some(digits_value(t) as u8)
    } else {
        None
    }
}

/// What [`Ipv4::parse`] reads: exactly four decimal octets separated by dots.
pub open spec fn dotted_quad(s: Seq<char>) -> Option<Ipv4> {
    let f = dot_fields(s);
    if f.len() != 4 {
        None
    } else {
        match (octet(f[0]), octet(f[1]), octet(f[2]), octet(f[3])) {
            (Some(a), Some(b), Some(c), Some(d)) => Some(Ipv4(pack(a, b, c, d))),
            _ => None,
        }
    }
}

proof fn lemma_dot_fields_grow(p: Seq<char>, q: Seq<char>)
    requires
        p.len() <= q.len(),
        q.subrange(0, p.len() as int) == p,
    ensures
        dot_fields(q).len() >= dot_fields(p).len(),
    decreases q.len() - p.len(),
{
    if q.len() > p.len() {
        let d = q.drop_last();
        assert(d.subrange(0, p.len() as int) =~= p);
        lemma_dot_fields_grow(p, d);
    } else {
        assert(q =~= p);
    }
}

/// The octet `cs[from..to]` spells.
fn field_octet(cs: &Vec<char>, from: usize, to: usize) -> (r: Option<u8>)
    requires
        from <= to <= cs@.len(),
    ensures
        r == octet(cs@.subrange(from as int, to as int)),
{
    let ghost t = cs@.subrange(from as int, to as int);
    if from == to || to - from > 3 {
        return None;
    }
    let mut value: u32 = 0;
    let mut i = from;
    while i < to
        invariant
            from < to <= cs@.len(),
            to - from <= 3,
            from <= i <= to,
            t == cs@.subrange(from as int, to as int),
            forall|k: int| from <= k < i ==> is_digit(#[trigger] cs@[k]),
            value == digits_value(cs@.subrange(from as int, i as int)),
            value < 1000,
        decreases to - i,
    {
        let c = cs[i];
        if !('0' <= c && c <= '9') {
            proof {
                assert(t[i - from] == c);
                assert(!is_digit(t[i - from]));
            }
            return None;
        }
        proof {
            let p = cs@.subrange(from as int, i + 1);
            assert(p.drop_last() =~= cs@.subrange(from as int, i as int));
            assert(p.last() == c);
            lemma_digits_small(cs@.subrange(from as int, i + 1));
        }
        value = value * 10 + (c as u32 - 48);
        i = i + 1;
    }
    proof {
        assert forall|k: int| 0 <= k < t.len() implies is_digit(#[trigger] t[k]) by {
            assert(t[k] == cs@[from + k]);
        }
    }
    if value > 255 {
        None
    } else {
        Some(value as u8)
    }
}

proof fn lemma_digits_small(d: Seq<char>)
    requires
        d.len() <= 3,
        all_digits(d),
    ensures
        digits_value(d) < 1000,
    decreases d.len(),
{
    if d.len() > 0 {
        let e = d.drop_last();
        assert forall|k: int| 0 <= k < e.len() implies is_digit(#[trigger] e[k]) by {
            assert(e[k] == d[k]);
        }
        lemma_digits_small(e);
        assert(is_digit(d[d.len() - 1]));
        if e.len() <= 2 {
            lemma_digits_small(e);
        }
        lemma_digits_bound(e);
    }
}

proof fn lemma_digits_bound(d: Seq<char>)
    requires
        all_digits(d),
    ensures
        d.len() == 0 ==> digits_value(d) == 0,
        d.len() <= 1 ==> digits_value(d) < 10,
        d.len() <= 2 ==> digits_value(d) < 100,
        d.len() <= 3 ==> digits_value(d) < 1000,
    decreases d.len(),
{
    if d.len() > 0 {
        let e = d.drop_last();
        assert forall|k: int| 0 <= k < e.len() implies is_digit(#[trigger] e[k]) by {
            assert(e[k] == d[k]);
        }
        lemma_digits_bound(e);
        assert(is_digit(d[d.len() - 1]));
    }
}

impl Ipv4 {
    pub fn new(a: u8, b: u8, c: u8, d: u8) -> (r: Self)
        ensures
            r.0 == pack(a, b, c, d),
    {
        let v = ((a as u32) << 24u32) | ((b as u32) << 16u32) | ((c as u32) << 8u32) | d as u32;
        assert(v == pack(a, b, c, d)) by (bit_vector)
            requires
                v == ((a as u32) << 24u32) | ((b as u32) << 16u32) | ((c as u32) << 8u32) | d as u32,
        ;
        Ipv4(v)
    }

    /// The four octets, most significant first.
    pub fn octets(self) -> (r: [u8; 4])
        ensures
            r@ == seq![
                (self.0 >> 24u32) as u8,
                (self.0 >> 16u32) as u8,
                (self.0 >> 8u32) as u8,
                self.0 as u8,
            ],
            pack(r[0], r[1], r[2], r[3]) == self.0,
    {
        let v = self.0;
        let a = (v >> 24u32) as u8;
        let b = (v >> 16u32) as u8;
        let c = (v >> 8u32) as u8;
        let d = v as u8;
        assert(pack(a, b, c, d) == v) by (bit_vector)
            requires
                a == (v >> 24u32) as u8,
                b == (v >> 16u32) as u8,
                c == (v >> 8u32) as u8,
                d == v as u8,
        ;
        [a, b, c, d]
    }

    /// Parse dotted-quad. `None` for anything that is not exactly four decimal octets —
    /// including a hostname, which is how a caller decides whether it needs DNS at all.
    pub fn parse(s: &str) -> (r: Option<Self>)
        ensures
            r == dotted_quad(s@),
    {
        let cs = chars_of(s);
        let n = cs.len();
        // The dots' positions, at most three of them (a fourth means no address).
        let mut dots: Vec<usize> = Vec::new();
        let mut i: usize = 0;
        while i < n
            invariant
                n == cs@.len(),
                cs@ == s@,
                i <= n,
                dots@.len() <= 3,
                dot_fields(cs@.subrange(0, i as int)).len() == dots@.len() + 1,
                forall|k: int| 0 <= k < dots@.len() ==> #[trigger] dots@[k] < i,
                forall|k: int| 0 <= k < dots@.len() ==> cs@[#[trigger] dots@[k] as int] == '.',
                forall|k: int, l: int| 0 <= k < l < dots@.len() ==> #[trigger] dots@[k] < #[trigger] dots@[l],
                forall|k: int|
                    0 <= k < dots@.len() + 1 ==> #[trigger] dot_fields(cs@.subrange(0, i as int))[k]
                        == cs@.subrange(
                        if k == 0 {
                            0
                        } else {
                            dots@[k - 1] + 1
                        },
                        if k < dots@.len() {
                            dots@[k] as int
                        } else {
                            i as int
                        },
                    ),
            decreases n - i,
        {
            let ch = cs[i];
            proof {
                let p = cs@.subrange(0, i + 1);
                assert(p.drop_last() =~= cs@.subrange(0, i as int));
                assert(p.last() == ch);
            }
            if ch == '.' {
                if dots.len() == 3 {
                    proof {
                        let p = cs@.subrange(0, i + 1);
                        assert(cs@.subrange(0, p.len() as int) =~= p);
                        lemma_dot_fields_grow(p, cs@);
                    }
                    return None;
                }
                dots.push(i);
            }
            proof {
                let prev = dot_fields(cs@.subrange(0, i as int));
                let now = dot_fields(cs@.subrange(0, i + 1));
                assert forall|k: int| 0 <= k < dots@.len() + 1 implies #[trigger] now[k] == cs@.subrange(
                    if k == 0 {
                        0
                    } else {
                        dots@[k - 1] + 1
                    },
                    if k < dots@.len() {
                        dots@[k] as int
                    } else {
                        i + 1
                    },
                ) by {
                    if ch == '.' {
                        if k < dots@.len() {
                            assert(now[k] == prev[k]);
                        }
                    } else {
                        if k < dots@.len() {
                            assert(now[k] == prev[k]);
                        } else {
                            let lo = if k == 0 {
                                0
                            } else {
                                dots@[k - 1] + 1
                            };
                            assert(cs@.subrange(lo, i + 1) =~= cs@.subrange(lo, i as int).push(ch));
                        }
                    }
                }
            }
            i = i + 1;
        }
        proof {
            assert(cs@.subrange(0, n as int) =~= s@);
        }
        if dots.len() != 3 {
            return None;
        }
        let p = dots[0];
        let q = dots[1];
        let t = dots[2];
        let a = match field_octet(&cs, 0, p) {
            Some(v) => v,
            None => {
                return None;
            },
        };
        let b = match field_octet(&cs, p + 1, q) {
            Some(v) => v,
            None => {
                return None;
            },
        };
        let c = match field_octet(&cs, q + 1, t) {
            Some(v) => v,
            None => {
                return None;
            },
        };
        let d = match field_octet(&cs, t + 1, n) {
            Some(v) => v,
            None => {
                return None;
            },
        };
        Some(Ipv4::new(a, b, c, d))
    }
}

/// Reading back the octets of a packed address gives the four it was packed from; with
/// [`Ipv4::octets`]'s own promise that its octets pack back to the address, the two are one
/// thing written two ways.
pub proof fn lemma_octets_of_pack(a: u8, b: u8, c: u8, d: u8)
    ensures
        (pack(a, b, c, d) >> 24u32) as u8 == a,
        (pack(a, b, c, d) >> 16u32) as u8 == b,
        (pack(a, b, c, d) >> 8u32) as u8 == c,
        pack(a, b, c, d) as u8 == d,
{
    let v = pack(a, b, c, d);
    assert(pack(a, b, c, d) == ((a as u32) << 24u32) | ((b as u32) << 16u32) | ((c as u32) << 8u32)
        | d as u32) by (bit_vector);
    assert((v >> 24u32) as u8 == a && (v >> 16u32) as u8 == b && (v >> 8u32) as u8 == c
        && v as u8 == d) by (bit_vector)
        requires
            v == ((a as u32) << 24u32) | ((b as u32) << 16u32) | ((c as u32) << 8u32) | d as u32,
    ;
}


// ------------------------------------------------------------------------- platform --

/// Which completion an event reports.
#[derive(Copy, Clone, Debug, PartialEq, Eq, Structural)]
pub enum EventKind {
    /// A bearer came up, or failed to.
    NetReady,
    /// A connect completed.
    Connected,
    /// A receive completed; `a` is how many bytes landed.
    Recv,
    /// A send completed.
    Sent,
    /// The peer closed.
    Closed,
    /// A lookup completed; `a` is the address.
    Resolved,
    /// A position update completed, with a fix or without one.
    GpsFix,
    /// Anything this module does not handle.
    Other,
}

/// A platform completion: what completed, for which handle, with which status, and the one
/// number it carries.
#[derive(Copy, Clone, Debug, PartialEq, Eq, Structural)]
pub struct RawEvent {
    pub kind: EventKind,
    pub handle: i32,
    pub status: i32,
    pub a: i32,
}

/// One request made of the platform, as a [`Net`] records it.
pub ghost enum NetCall {
    Start(Iap),
    Stop(i32),
    Resolve(i32, Seq<char>),
    DnsClose(i32),
    TcpOpen(i32),
    Connect(i32, Ipv4, u16),
    Send(i32, Seq<u8>),
    Recv(i32, nat),
    TcpClose(i32),
    UdpOpen(i32),
    SendTo(i32, Ipv4, u16, Seq<u8>),
}

/// The raw operations everything here is built from, one call per request. Each records
/// itself in [`Net::calls`]; what the platform answers is its own.
pub trait Net {
    /// Every request made so far, oldest first. An implementation keeps its own record;
    /// one that keeps none has nothing to show.
    closed spec fn calls(&self) -> Seq<NetCall> {
        Seq::empty()
    }

    fn net_start(&mut self, iap: Iap) -> (r: Result<i32>)
        ensures
            final(self).calls() == old(self).calls().push(NetCall::Start(iap)),
    ;

    fn net_stop(&mut self, handle: i32)
        ensures
            final(self).calls() == old(self).calls().push(NetCall::Stop(handle)),
    ;

    fn resolve(&mut self, conn: i32, host: &str) -> (r: Result<i32>)
        ensures
            final(self).calls() == old(self).calls().push(NetCall::Resolve(conn, host@)),
    ;

    /// Abandon a lookup: a resolver nobody answers holds its connection.
    fn dns_close(&mut self, handle: i32)
        ensures
            final(self).calls() == old(self).calls().push(NetCall::DnsClose(handle)),
    ;

    fn tcp_open(&mut self, conn: i32) -> (r: Result<i32>)
        ensures
            final(self).calls() == old(self).calls().push(NetCall::TcpOpen(conn)),
    ;

    fn tcp_connect(&mut self, handle: i32, addr: Ipv4, port: u16) -> (r: Result<()>)
        ensures
            final(self).calls() == old(self).calls().push(NetCall::Connect(handle, addr, port)),
    ;

    /// The buffer must stay untouched until the send completes.
    fn tcp_send(&mut self, handle: i32, buf: &[u8]) -> (r: Result<()>)
        ensures
            final(self).calls() == old(self).calls().push(NetCall::Send(handle, buf@)),
    ;

    /// Receive at most `len` bytes into the front of `buf`, which must stay alive and
    /// untouched until the receive completes.
    fn tcp_recv(&mut self, handle: i32, buf: &mut [u8], len: usize) -> (r: Result<()>)
        requires
            len <= old(buf)@.len(),
        ensures
            final(self).calls() == old(self).calls().push(NetCall::Recv(handle, len as nat)),
            final(buf)@.len() == old(buf)@.len(),
    ;

    fn tcp_close(&mut self, handle: i32)
        ensures
            final(self).calls() == old(self).calls().push(NetCall::TcpClose(handle)),
    ;

    fn udp_open(&mut self, conn: i32) -> (r: Result<i32>)
        ensures
            final(self).calls() == old(self).calls().push(NetCall::UdpOpen(conn)),
    ;

    fn udp_send_to(&mut self, handle: i32, addr: Ipv4, port: u16, buf: &[u8]) -> (r: Result<()>)
        ensures
            final(self).calls() == old(self).calls().push(NetCall::SendTo(handle, addr, port, buf@)),
    ;
}

// ------------------------------------------------------------------------- bearer --

/// The access point, with the prompt-once-then-remember behaviour: a saved access point
/// that fails is asked about again, once.
pub struct Bearer {
    handle: i32,
    iap: Option<u32>,
    /// Set once a saved id has already failed, so the retry does not loop.
    retried: bool,
    up: bool,
}

impl Bearer {
    /// The platform's handle for this bearer.
    pub closed spec fn id(&self) -> i32 {
        self.handle
    }

    /// The access point known so far, up or not.
    pub closed spec fn known(&self) -> Option<u32> {
        self.iap
    }

    /// Whether a failure would still fall back to a prompt.
    pub closed spec fn can_retry(&self) -> bool {
        !self.retried
    }

    /// Whether the bearer is up.
    pub closed spec fn live(&self) -> bool {
        self.up
    }

    /// Join a connection that is already up, with a prompt as the fallback.
    pub fn attach<N: Net>(net: &mut N) -> (r: Result<Self>)
        ensures
            final(net).calls() == old(net).calls().push(NetCall::Start(Iap::Attach)),
            r matches Ok(b) ==> b.known() is None && b.can_retry() && !b.live(),
    {
        let handle = net.net_start(Iap::Attach)?;
        Ok(Bearer { handle, iap: None, retried: false, up: false })
    }

    /// Bring up a bearer, with the id from a previous session if there is one.
    pub fn start<N: Net>(net: &mut N, saved: Option<u32>) -> (r: Result<Self>)
        ensures
            final(net).calls() == old(net).calls().push(
                NetCall::Start(
                    match saved {
                        Some(id) => Iap::Id(id),
                        None => Iap::Prompt,
                    },
                ),
            ),
            r matches Ok(b) ==> b.known() == saved && b.can_retry() == saved is Some && !b.live(),
    {
        let iap = match saved {
            Some(id) => Iap::Id(id),
            None => Iap::Prompt,
        };
        let handle = net.net_start(iap)?;
        Ok(Bearer { handle, iap: saved, retried: saved.is_none(), up: false })
    }

    /// Ask which access point, whatever was saved: the recovery from a transport failure.
    pub fn start_prompt<N: Net>(net: &mut N) -> (r: Result<Self>)
        ensures
            final(net).calls() == old(net).calls().push(NetCall::Start(Iap::Prompt)),
            r matches Ok(b) ==> b.known() is None && !b.can_retry() && !b.live(),
    {
        let handle = net.net_start(Iap::Prompt)?;
        Ok(Bearer { handle, iap: None, retried: true, up: false })
    }

    /// Bring up the configured default access point, without asking and without joining.
    pub fn start_default<N: Net>(net: &mut N) -> (r: Result<Self>)
        ensures
            final(net).calls() == old(net).calls().push(NetCall::Start(Iap::Default)),
            r matches Ok(b) ==> b.known() is None && !b.can_retry() && !b.live(),
    {
        let handle = net.net_start(Iap::Default)?;
        Ok(Bearer { handle, iap: None, retried: true, up: false })
    }

    /// The access point in use, once up: what to persist.
    pub fn iap(&self) -> (r: Option<u32>)
        ensures
            r == (if self.live() {
                self.known()
            } else {
                None
            }),
    {
        if self.up {
            self.iap
        } else {
            None
        }
    }

    pub fn handle(&self) -> (r: i32)
        ensures
            r == self.id(),
    {
        self.handle
    }

    pub fn is_up(&self) -> (r: bool)
        ensures
            r == self.live(),
    {
        self.up
    }

    /// Feed a platform event. `Ok(true)` when the bearer has just come up; a failure with
    /// a saved id retries once with a prompt, and a failure after that is returned.
    pub fn on_event<N: Net>(&mut self, net: &mut N, ev: &RawEvent) -> (r: Result<bool>)
        ensures
            ev.kind != EventKind::NetReady || ev.handle != old(self).id() ==> {
                &&& r == Ok::<bool, Error>(false)
                &&& *final(self) == *old(self)
                &&& final(net).calls() == old(net).calls()
            },
            ev.kind == EventKind::NetReady && ev.handle == old(self).id() && ev.status == 0 ==> {
                &&& r == Ok::<bool, Error>(true)
                &&& final(self).live()
                &&& final(self).known() == (if ev.a > 0 {
                    Some(ev.a as u32)
                } else {
                    old(self).known()
                })
                &&& final(self).id() == old(self).id()
                &&& final(self).can_retry() == old(self).can_retry()
                &&& final(net).calls() == old(net).calls()
            },
            ev.kind == EventKind::NetReady && ev.handle == old(self).id() && ev.status != 0
                && old(self).can_retry() ==> {
                &&& final(net).calls() == old(net).calls().push(NetCall::Stop(old(self).id())).push(
                    NetCall::Start(Iap::Prompt),
                )
                &&& !final(self).can_retry()
                &&& final(self).known() is None
                &&& final(self).live() == old(self).live()
                &&& (r is Ok ==> r == Ok::<bool, Error>(false))
                &&& (r is Err ==> final(self).id() == old(self).id())
            },
            ev.kind == EventKind::NetReady && ev.handle == old(self).id() && ev.status != 0
                && !old(self).can_retry() ==> {
                &&& r == Err::<bool, Error>(spec_from_code(ev.status))
                &&& *final(self) == *old(self)
                &&& final(net).calls() == old(net).calls()
            },
    {
        if ev.kind != EventKind::NetReady || ev.handle != self.handle {
            return Ok(false);
        }
        if ev.status == 0 {
            self.up = true;
            // `a` is the access point the OS settled on; zero when it could not be read back.
            if ev.a > 0 {
                self.iap = Some(ev.a as u32);
            }
            return Ok(true);
        }
        if !self.retried {
            self.retried = true;
            self.iap = None;
            net.net_stop(self.handle);
            self.handle = net.net_start(Iap::Prompt)?;
            return Ok(false);
        }
        Err(Error::from_code(ev.status))
    }

    pub fn stop<N: Net>(&mut self, net: &mut N)
        ensures
            final(net).calls() == old(net).calls().push(NetCall::Stop(old(self).id())),
            !final(self).live(),
            final(self).id() == old(self).id(),
            final(self).known() == old(self).known(),
            final(self).can_retry() == old(self).can_retry(),
    {
        net.net_stop(self.handle);
        self.up = false;
    }
}

// ------------------------------------------------------------------------- stream --

#[derive(Copy, Clone, Debug, PartialEq, Eq, Structural)]
pub enum State {
    Opening,
    Connecting,
    Connected,
    /// The peer closed, or we did. Data already received is still readable.
    Closed,
    Failed(Error),
}

/// What feeding an event produced.
#[derive(Copy, Clone, Debug, PartialEq, Eq, Structural)]
pub enum Progress {
    /// The event was not ours, or changed nothing observable.
    Idle,
    Connected,
    /// Bytes arrived and are readable with [`TcpStream::read`].
    Received(usize),
    /// A send completed; that many bytes left the queue.
    Sent(usize),
    Closed,
    Failed(Error),
}

/// What a receive status of `status` means: the peer's end of stream (`KErrEof`,
/// `KErrDisconnected`) rather than a fault.
pub open spec fn is_end_of_stream(status: i32) -> bool {
    status == -25 || status == -36
}

/// A TCP connection, owning its buffers: received bytes waiting to be read, a landing
/// buffer every read is issued into, and bytes queued to send.
pub struct TcpStream {
    handle: i32,
    state: State,
    /// Received but not yet read by the caller.
    rx: Vec<u8>,
    rx_len: usize,
    /// Where the platform writes: never `rx`, and never an address that depends on how
    /// much is buffered, since a read outstanding while the caller drains `rx` would
    /// otherwise land its bytes at a stale offset.
    land: Vec<u8>,
    /// Whether a read is outstanding.
    rx_pending: bool,
    /// Queued to send; the platform holds a pointer into it until the send completes.
    tx: Vec<u8>,
    tx_len: usize,
    /// How much of `tx` the outstanding send covers.
    tx_pending: usize,
}

/// The smaller of two lengths.
pub open spec fn least(a: nat, b: nat) -> nat {
    if a < b {
        a
    } else {
        b
    }
}

/// Two streams on the same socket with the same queues either way.
pub open spec fn same_queues(a: TcpStream, b: TcpStream) -> bool {
    &&& a.id() == b.id()
    &&& a.inbox() == b.inbox()
    &&& a.outbox() == b.outbox()
    &&& a.in_flight() == b.in_flight()
    &&& a.rx_cap() == b.rx_cap()
    &&& a.tx_cap() == b.tx_cap()
}

/// What a connect completion does: a failure fails the stream; success connects it and
/// issues the first read at once, so a server that speaks first is heard.
pub open spec fn connected_step(
    s0: TcpStream,
    s1: TcpStream,
    status: i32,
    c0: Seq<NetCall>,
    c1: Seq<NetCall>,
    r: Progress,
) -> bool {
    if status != 0 {
        &&& r == Progress::Failed(spec_from_code(status))
        &&& s1.status() == State::Failed(spec_from_code(status))
        &&& same_queues(s0, s1)
        &&& s1.reading() == s0.reading()
        &&& c1 == c0
    } else {
        let asks = !s0.reading() && s0.inbox().len() < s0.rx_cap();
        &&& same_queues(s0, s1)
        &&& c1 == (if asks {
            c0.push(s1.read_request())
        } else {
            c0
        })
        &&& {
            ||| r == Progress::Connected && s1.status() == State::Connected && s1.reading() == (
            s0.reading() || asks)
            ||| asks && r == Progress::Failed(spec_from_code(ERR_GENERAL)) && s1.status()
                == State::Failed(spec_from_code(ERR_GENERAL)) && !s1.reading()
        }
    }
}

/// What a receive completion does. The peer's end of stream, or a zero-length read, closes;
/// another failure fails; otherwise the landed bytes join the inbox, as many as fit, and the
/// next read is issued into the room that is left.
pub open spec fn recv_step(
    s0: TcpStream,
    s1: TcpStream,
    status: i32,
    a: i32,
    c0: Seq<NetCall>,
    c1: Seq<NetCall>,
    r: Progress,
) -> bool {
    if is_end_of_stream(status) || (status == 0 && a <= 0) {
        &&& r == Progress::Closed
        &&& s1.status() == State::Closed
        &&& same_queues(s0, s1)
        &&& !s1.reading()
        &&& c1 == c0
    } else if status != 0 {
        &&& r == Progress::Failed(spec_from_code(status))
        &&& s1.status() == State::Failed(spec_from_code(status))
        &&& same_queues(s0, s1)
        &&& !s1.reading()
        &&& c1 == c0
    } else {
        let take = least(a as nat, (s0.rx_cap() - s0.inbox().len()) as nat);
        let asks = s0.status() == State::Connected && s1.inbox().len() < s1.rx_cap();
        &&& s1.inbox() == s0.inbox() + s0.landed().subrange(0, take as int)
        &&& s1.id() == s0.id()
        &&& s1.outbox() == s0.outbox()
        &&& s1.in_flight() == s0.in_flight()
        &&& s1.rx_cap() == s0.rx_cap()
        &&& s1.tx_cap() == s0.tx_cap()
        &&& c1 == (if asks {
            c0.push(s1.read_request())
        } else {
            c0
        })
        &&& {
            ||| r == Progress::Received(take as usize) && s1.status() == s0.status() && s1.reading()
                == asks
            ||| asks && r == Progress::Failed(spec_from_code(ERR_GENERAL)) && s1.status()
                == State::Failed(spec_from_code(ERR_GENERAL)) && !s1.reading()
        }
    }
}

/// What a send completion does. A failure drops the whole queue rather than resending
/// bytes the peer may have seen; success drops what was sent and sends the rest.
pub open spec fn sent_step(
    s0: TcpStream,
    s1: TcpStream,
    status: i32,
    c0: Seq<NetCall>,
    c1: Seq<NetCall>,
    r: Progress,
) -> bool {
    let sent = s0.in_flight();
    if status != 0 {
        &&& r == Progress::Failed(spec_from_code(status))
        &&& s1.status() == State::Failed(spec_from_code(status))
        &&& s1.outbox() == Seq::<u8>::empty()
        &&& s1.in_flight() == 0
        &&& s1.inbox() == s0.inbox()
        &&& s1.reading() == s0.reading()
        &&& c1 == c0
    } else {
        let rest = s0.outbox().subrange(sent as int, s0.outbox().len() as int);
        let asks = rest.len() > 0 && s0.status() == State::Connected;
        &&& s1.outbox() == rest
        &&& s1.inbox() == s0.inbox()
        &&& s1.reading() == s0.reading()
        &&& c1 == (if asks {
            c0.push(NetCall::Send(s0.id(), rest))
        } else {
            c0
        })
        &&& {
            ||| r == Progress::Sent(sent as usize) && s1.status() == s0.status() && s1.in_flight() == (
            if asks {
                rest.len()
            } else {
                0
            })
            ||| asks && r == Progress::Failed(spec_from_code(ERR_GENERAL)) && s1.status()
                == State::Failed(spec_from_code(ERR_GENERAL)) && s1.in_flight() == 0
        }
    }
}

/// What the peer's close does: the stream is closed and whatever was queued to send is
/// abandoned, never reported as sent.
pub open spec fn closed_step(s0: TcpStream, s1: TcpStream, c0: Seq<NetCall>, c1: Seq<NetCall>, r: Progress) -> bool {
    &&& r == Progress::Closed
    &&& s1.status() == State::Closed
    &&& s1.outbox() == Seq::<u8>::empty()
    &&& s1.in_flight() == 0
    &&& s1.inbox() == s0.inbox()
    &&& s1.reading() == s0.reading()
    &&& c1 == c0
}

impl TcpStream {
    /// The buffers' bookkeeping agrees with the buffers.
    pub closed spec fn wf(&self) -> bool {
        &&& self.land@.len() == self.rx@.len()
        &&& self.rx_len <= self.rx@.len()
        &&& self.tx_len <= self.tx@.len()
        &&& self.tx_pending <= self.tx_len
    }

    /// The platform's handle for this socket.
    pub closed spec fn id(&self) -> i32 {
        self.handle
    }

    pub closed spec fn status(&self) -> State {
        self.state
    }

    /// Received bytes not yet read, oldest first.
    pub closed spec fn inbox(&self) -> Seq<u8> {
        self.rx@.subrange(0, self.rx_len as int)
    }

    /// Bytes queued to send, oldest first; the front [`Self::in_flight`] of them are out.
    pub closed spec fn outbox(&self) -> Seq<u8> {
        self.tx@.subrange(0, self.tx_len as int)
    }

    /// How many queued bytes the outstanding send covers.
    pub closed spec fn in_flight(&self) -> nat {
        self.tx_pending as nat
    }

    /// Whether a read is outstanding.
    pub closed spec fn reading(&self) -> bool {
        self.rx_pending
    }

    /// The receive queue's fixed size.
    pub closed spec fn rx_cap(&self) -> nat {
        self.rx@.len()
    }

    /// The send queue's fixed size.
    pub closed spec fn tx_cap(&self) -> nat {
        self.tx@.len()
    }

    /// The landing buffer: what the platform wrote for the outstanding read.
    pub closed spec fn landed(&self) -> Seq<u8> {
        self.land@
    }

    /// A new stream on socket `handle`, nothing queued either way.
    pub open spec fn is_fresh(&self, handle: i32, rx_cap: nat, tx_cap: nat) -> bool {
        &&& self.id() == handle
        &&& self.status() == State::Opening
        &&& self.inbox() == Seq::<u8>::empty()
        &&& self.outbox() == Seq::<u8>::empty()
        &&& self.in_flight() == 0
        &&& !self.reading()
        &&& self.rx_cap() == rx_cap
        &&& self.tx_cap() == tx_cap
        &&& self.landed().len() == rx_cap
        &&& self.wf()
    }

    /// The read a stream in this state issues: none while one is outstanding, before it
    /// is connected, or while the queue is full.
    pub open spec fn asks_to_read(&self) -> bool {
        !self.reading() && self.status() == State::Connected && self.inbox().len() < self.rx_cap()
    }

    /// The receive it issues: the free room, into the landing buffer.
    pub open spec fn read_request(&self) -> NetCall {
        NetCall::Recv(self.id(), (self.rx_cap() - self.inbox().len()) as nat)
    }

    fn fresh(handle: i32, rx_cap: usize, tx_cap: usize) -> (s: Self)
        ensures
            s.is_fresh(handle, rx_cap as nat, tx_cap as nat),
    {
        let s = TcpStream {
            handle,
            state: State::Opening,
            rx: vec![0u8; rx_cap],
            rx_len: 0,
            land: vec![0u8; rx_cap],
            rx_pending: false,
            tx: vec![0u8; tx_cap],
            tx_len: 0,
            tx_pending: 0,
        };
        assert(s.inbox() =~= Seq::<u8>::empty());
        assert(s.outbox() =~= Seq::<u8>::empty());
        s
    }

    /// Open a socket on `bearer`; the two capacities are fixed for the life of the stream.
    pub fn open<N: Net>(net: &mut N, bearer: &Bearer, rx_cap: usize, tx_cap: usize) -> (r: Result<
        Self,
    >)
        ensures
            final(net).calls() == old(net).calls().push(NetCall::TcpOpen(bearer.id())),
            r matches Ok(s) ==> s.is_fresh(s.id(), rx_cap as nat, tx_cap as nat),
    {
        let handle = net.tcp_open(bearer.handle())?;
        Ok(Self::fresh(handle, rx_cap, tx_cap))
    }

    /// Open a socket on the default route; `-1` asks the platform for no particular bearer.
    pub fn open_default<N: Net>(net: &mut N, rx_cap: usize, tx_cap: usize) -> (r: Result<Self>)
        ensures
            final(net).calls() == old(net).calls().push(NetCall::TcpOpen(-1i32)),
            r matches Ok(s) ==> s.is_fresh(s.id(), rx_cap as nat, tx_cap as nat),
    {
        let handle = net.tcp_open(-1)?;
        Ok(Self::fresh(handle, rx_cap, tx_cap))
    }

    /// Open a socket on a bearer known only by its handle.
    pub fn open_handle<N: Net>(net: &mut N, bearer_handle: i32, rx_cap: usize, tx_cap: usize) -> (r:
        Result<Self>)
        ensures
            final(net).calls() == old(net).calls().push(NetCall::TcpOpen(bearer_handle)),
            r matches Ok(s) ==> s.is_fresh(s.id(), rx_cap as nat, tx_cap as nat),
    {
        let handle = net.tcp_open(bearer_handle)?;
        Ok(Self::fresh(handle, rx_cap, tx_cap))
    }

    pub fn state(&self) -> (r: State)
        ensures
            r == self.status(),
    {
        self.state
    }

    /// The handle, for a caller routing events across several sockets itself.
    pub fn handle(&self) -> (r: i32)
        ensures
            r == self.id(),
    {
        self.handle
    }

    /// How much is waiting to be read.
    pub fn available(&self) -> (r: usize)
        requires
            self.wf(),
        ensures
            r == self.inbox().len(),
            r <= self.rx_cap(),
    {
        self.rx_len
    }

    pub fn connect<N: Net>(&mut self, net: &mut N, addr: Ipv4, port: u16) -> (r: Result<()>)
        requires
            old(self).wf(),
        ensures
            final(self).wf(),
            old(self).status() != State::Opening ==> {
                &&& r == Err::<(), Error>(Error::InUse)
                &&& *final(self) == *old(self)
                &&& final(net).calls() == old(net).calls()
            },
            old(self).status() == State::Opening ==> {
                &&& final(net).calls() == old(net).calls().push(
                    NetCall::Connect(old(self).id(), addr, port),
                )
                &&& r is Ok ==> final(self).status() == State::Connecting
                &&& r is Err ==> final(self).status() == State::Opening
                &&& final(self).id() == old(self).id()
                &&& final(self).inbox() == old(self).inbox()
                &&& final(self).outbox() == old(self).outbox()
                &&& final(self).in_flight() == old(self).in_flight()
                &&& final(self).reading() == old(self).reading()
                &&& final(self).rx_cap() == old(self).rx_cap()
                &&& final(self).tx_cap() == old(self).tx_cap()
            },
    {
        if self.state != State::Opening {
            return Err(Error::InUse);
        }
        net.tcp_connect(self.handle, addr, port)?;
        self.state = State::Connecting;
        Ok(())
    }

    /// Issue a read if one is not already outstanding and there is room for it: with a full
    /// queue the platform would be handed zero bytes, which it refuses as an argument error.
    fn pump_rx<N: Net>(&mut self, net: &mut N) -> (r: Result<()>)
        requires
            old(self).wf(),
        ensures
            final(self).wf(),
            final(self).id() == old(self).id(),
            final(self).status() == old(self).status(),
            final(self).inbox() == old(self).inbox(),
            final(self).outbox() == old(self).outbox(),
            final(self).in_flight() == old(self).in_flight(),
            final(self).rx_cap() == old(self).rx_cap(),
            final(self).tx_cap() == old(self).tx_cap(),
            old(self).asks_to_read() ==> {
                &&& final(net).calls() == old(net).calls().push(old(self).read_request())
                &&& final(self).reading() == r is Ok
            },
            !old(self).asks_to_read() ==> {
                &&& r is Ok
                &&& *final(self) == *old(self)
                &&& final(net).calls() == old(net).calls()
            },
    {
        if self.rx_pending || self.state != State::Connected {
            return Ok(());
        }
        if self.rx_len >= self.rx.len() {
            return Ok(());
        }
        // Always the front of the landing buffer: the length shrinks as the queue fills,
        // the address does not move.
        let free = self.rx.len() - self.rx_len;
        let h = self.handle;
        let r = net.tcp_recv(h, self.land.as_mut_slice(), free);
        match r {
            Ok(()) => {
                self.rx_pending = true;
                Ok(())
            },
            Err(e) => Err(e),
        }
    }

    /// Issue a send of everything queued, unless one is outstanding or nothing is queued.
    fn pump_tx<N: Net>(&mut self, net: &mut N) -> (r: Result<()>)
        requires
            old(self).wf(),
        ensures
            final(self).wf(),
            final(self).id() == old(self).id(),
            final(self).status() == old(self).status(),
            final(self).inbox() == old(self).inbox(),
            final(self).outbox() == old(self).outbox(),
            final(self).reading() == old(self).reading(),
            final(self).landed() == old(self).landed(),
            final(self).rx_cap() == old(self).rx_cap(),
            final(self).tx_cap() == old(self).tx_cap(),
            old(self).in_flight() == 0 && old(self).outbox().len() > 0 && old(self).status()
                == State::Connected ==> {
                &&& final(net).calls() == old(net).calls().push(
                    NetCall::Send(old(self).id(), old(self).outbox()),
                )
                &&& r is Ok ==> final(self).in_flight() == old(self).outbox().len()
                &&& r is Err ==> final(self).in_flight() == 0
            },
            !(old(self).in_flight() == 0 && old(self).outbox().len() > 0 && old(self).status()
                == State::Connected) ==> {
                &&& r is Ok
                &&& *final(self) == *old(self)
                &&& final(net).calls() == old(net).calls()
            },
    {
        if self.tx_pending > 0 || self.tx_len == 0 || self.state != State::Connected {
            return Ok(());
        }
        let queued = vstd::slice::slice_subrange(self.tx.as_slice(), 0, self.tx_len);
        net.tcp_send(self.handle, queued)?;
        self.tx_pending = self.tx_len;
        Ok(())
    }

    fn fail(&mut self, status: i32) -> (p: Progress)
        requires
            old(self).wf(),
        ensures
            final(self).wf(),
            p == Progress::Failed(spec_from_code(status)),
            final(self).status() == State::Failed(spec_from_code(status)),
            final(self).id() == old(self).id(),
            final(self).inbox() == old(self).inbox(),
            final(self).outbox() == old(self).outbox(),
            final(self).in_flight() == old(self).in_flight(),
            final(self).reading() == old(self).reading(),
            final(self).landed() == old(self).landed(),
            final(self).rx_cap() == old(self).rx_cap(),
            final(self).tx_cap() == old(self).tx_cap(),
    {
        let e = Error::from_code(status);
        self.state = State::Failed(e);
        Progress::Failed(e)
    }

    /// Append the front `take` landed bytes to the inbox.
    fn take_landed(&mut self, take: usize)
        requires
            old(self).wf(),
            take <= old(self).rx_cap() - old(self).inbox().len(),
        ensures
            final(self).wf(),
            final(self).inbox() == old(self).inbox() + old(self).landed().subrange(0, take as int),
            final(self).id() == old(self).id(),
            final(self).status() == old(self).status(),
            final(self).outbox() == old(self).outbox(),
            final(self).in_flight() == old(self).in_flight(),
            final(self).reading() == old(self).reading(),
            final(self).landed() == old(self).landed(),
            final(self).rx_cap() == old(self).rx_cap(),
            final(self).tx_cap() == old(self).tx_cap(),
    {
        let start = self.rx_len;
        let cap = self.rx.len();
        let mut i: usize = 0;
        while i < take
            invariant
                cap == self.rx@.len(),
                self.rx@.len() == old(self).rx@.len(),
                self.land@ == old(self).land@,
                self.rx_len == start,
                start == old(self).rx_len,
                start <= self.rx@.len(),
                take <= self.rx@.len() - start,
                self.land@.len() == self.rx@.len(),
                i <= take,
                self.handle == old(self).handle,
                self.state == old(self).state,
                self.rx_pending == old(self).rx_pending,
                self.tx == old(self).tx,
                self.tx_len == old(self).tx_len,
                self.tx_pending == old(self).tx_pending,
                forall|k: int| 0 <= k < start ==> #[trigger] self.rx@[k] == old(self).rx@[k],
                forall|k: int| 0 <= k < i ==> #[trigger] self.rx@[start + k] == old(self).land@[k],
            decreases take - i,
        {
            let b = self.land[i];
            self.rx[start + i] = b;
            i = i + 1;
        }
        self.rx_len = start + take;
        assert(self.inbox() =~= old(self).inbox() + old(self).landed().subrange(0, take as int)) by {
            assert forall|k: int| 0 <= k < start + take implies #[trigger] self.inbox()[k] == (
            old(self).inbox() + old(self).landed().subrange(0, take as int))[k] by {
                if k >= start {
                    assert(self.rx@[start + (k - start)] == old(self).land@[k - start]);
                }
            }
        }
    }

    /// Drop the front `n` bytes of the inbox, shifting the rest down.
    fn drop_read(&mut self, n: usize)
        requires
            old(self).wf(),
            n <= old(self).inbox().len(),
        ensures
            final(self).wf(),
            final(self).inbox() == old(self).inbox().subrange(n as int, old(self).inbox().len() as int),
            final(self).id() == old(self).id(),
            final(self).status() == old(self).status(),
            final(self).outbox() == old(self).outbox(),
            final(self).in_flight() == old(self).in_flight(),
            final(self).reading() == old(self).reading(),
            final(self).landed() == old(self).landed(),
            final(self).rx_cap() == old(self).rx_cap(),
            final(self).tx_cap() == old(self).tx_cap(),
    {
        let len = self.rx_len;
        let rest = len - n;
        let mut i: usize = 0;
        while i < rest
            invariant
                self.rx@.len() == old(self).rx@.len(),
                self.land@ == old(self).land@,
                self.rx_len == len,
                len == old(self).rx_len,
                len <= self.rx@.len(),
                rest == len - n,
                n <= len,
                i <= rest,
                self.handle == old(self).handle,
                self.state == old(self).state,
                self.rx_pending == old(self).rx_pending,
                self.tx == old(self).tx,
                self.tx_len == old(self).tx_len,
                self.tx_pending == old(self).tx_pending,
                forall|k: int| 0 <= k < i ==> #[trigger] self.rx@[k] == old(self).rx@[k + n],
                forall|k: int| i <= k < self.rx@.len() ==> #[trigger] self.rx@[k] == old(self).rx@[k],
            decreases rest - i,
        {
            let b = self.rx[i + n];
            self.rx[i] = b;
            i = i + 1;
        }
        self.rx_len = rest;
        assert(self.inbox() =~= old(self).inbox().subrange(n as int, old(self).inbox().len() as int));
    }

    /// Append `data[..take]` to the outbox.
    fn enqueue(&mut self, data: &[u8], take: usize)
        requires
            old(self).wf(),
            take <= data@.len(),
            take <= old(self).tx_cap() - old(self).outbox().len(),
        ensures
            final(self).wf(),
            final(self).outbox() == old(self).outbox() + data@.subrange(0, take as int),
            final(self).id() == old(self).id(),
            final(self).status() == old(self).status(),
            final(self).inbox() == old(self).inbox(),
            final(self).in_flight() == old(self).in_flight(),
            final(self).reading() == old(self).reading(),
            final(self).landed() == old(self).landed(),
            final(self).rx_cap() == old(self).rx_cap(),
            final(self).tx_cap() == old(self).tx_cap(),
    {
        let start = self.tx_len;
        let cap = self.tx.len();
        let mut i: usize = 0;
        while i < take
            invariant
                cap == self.tx@.len(),
                self.tx@.len() == old(self).tx@.len(),
                self.tx_len == start,
                start == old(self).tx_len,
                start <= self.tx@.len(),
                take <= self.tx@.len() - start,
                take <= data@.len(),
                i <= take,
                self.handle == old(self).handle,
                self.state == old(self).state,
                self.rx == old(self).rx,
                self.rx_len == old(self).rx_len,
                self.land == old(self).land,
                self.rx_pending == old(self).rx_pending,
                self.tx_pending == old(self).tx_pending,
                forall|k: int| 0 <= k < start ==> #[trigger] self.tx@[k] == old(self).tx@[k],
                forall|k: int| 0 <= k < i ==> #[trigger] self.tx@[start + k] == data@[k],
            decreases take - i,
        {
            self.tx[start + i] = data[i];
            i = i + 1;
        }
        self.tx_len = start + take;
        assert(self.outbox() =~= old(self).outbox() + data@.subrange(0, take as int)) by {
            assert forall|k: int| 0 <= k < start + take implies #[trigger] self.outbox()[k] == (
            old(self).outbox() + data@.subrange(0, take as int))[k] by {
                if k >= start {
                    assert(self.tx@[start + (k - start)] == data@[k - start]);
                }
            }
        }
    }

    /// Drop the front `n` bytes of the outbox, the ones a completed send covered.
    fn drop_sent(&mut self, n: usize)
        requires
            old(self).wf(),
            n <= old(self).outbox().len(),
            old(self).in_flight() == 0,
        ensures
            final(self).wf(),
            final(self).outbox() == old(self).outbox().subrange(n as int, old(self).outbox().len() as int),
            final(self).id() == old(self).id(),
            final(self).status() == old(self).status(),
            final(self).inbox() == old(self).inbox(),
            final(self).in_flight() == 0,
            final(self).reading() == old(self).reading(),
            final(self).landed() == old(self).landed(),
            final(self).rx_cap() == old(self).rx_cap(),
            final(self).tx_cap() == old(self).tx_cap(),
    {
        let len = self.tx_len;
        let rest = len - n;
        let mut i: usize = 0;
        while i < rest
            invariant
                self.tx@.len() == old(self).tx@.len(),
                self.tx_len == len,
                len == old(self).tx_len,
                len <= self.tx@.len(),
                rest == len - n,
                n <= len,
                i <= rest,
                self.tx_pending == 0,
                self.handle == old(self).handle,
                self.state == old(self).state,
                self.rx == old(self).rx,
                self.rx_len == old(self).rx_len,
                self.land == old(self).land,
                self.rx_pending == old(self).rx_pending,
                forall|k: int| 0 <= k < i ==> #[trigger] self.tx@[k] == old(self).tx@[k + n],
                forall|k: int| i <= k < self.tx@.len() ==> #[trigger] self.tx@[k] == old(self).tx@[k],
            decreases rest - i,
        {
            let b = self.tx[i + n];
            self.tx[i] = b;
            i = i + 1;
        }
        self.tx_len = rest;
        assert(self.outbox() =~= old(self).outbox().subrange(n as int, old(self).outbox().len() as int));
    }

    /// Queue bytes. Returns how many were accepted, fewer than offered when the queue is
    /// full; the caller loops, as with a real socket.
    pub fn write<N: Net>(&mut self, net: &mut N, data: &[u8]) -> (r: Result<usize>)
        requires
            old(self).wf(),
        ensures
            final(self).wf(),
            old(self).status() != State::Connected ==> {
                &&& r == Err::<usize, Error>(Error::NotFound)
                &&& *final(self) == *old(self)
                &&& final(net).calls() == old(net).calls()
            },
            old(self).status() == State::Connected ==> {
                let take = least((old(self).tx_cap() - old(self).outbox().len()) as nat, data@.len());
                let asks = old(self).in_flight() == 0 && final(self).outbox().len() > 0;
                &&& final(self).outbox() == old(self).outbox() + data@.subrange(0, take as int)
                &&& final(self).id() == old(self).id()
                &&& final(self).status() == old(self).status()
                &&& final(self).inbox() == old(self).inbox()
                &&& final(self).reading() == old(self).reading()
                &&& final(self).rx_cap() == old(self).rx_cap()
                &&& final(self).tx_cap() == old(self).tx_cap()
                &&& r is Ok ==> r == Ok::<usize, Error>(take as usize)
                &&& asks ==> final(net).calls() == old(net).calls().push(
                    NetCall::Send(old(self).id(), final(self).outbox()),
                )
                &&& asks && r is Ok ==> final(self).in_flight() == final(self).outbox().len()
                &&& asks && r is Err ==> final(self).in_flight() == 0
                &&& !asks ==> r is Ok && final(net).calls() == old(net).calls()
                    && final(self).in_flight() == old(self).in_flight()
            },
    {
        if self.state != State::Connected {
            return Err(Error::NotFound);
        }
        let room = self.tx.len() - self.tx_len;
        let take = if room < data.len() {
            room
        } else {
            data.len()
        };
        self.enqueue(data, take);
        self.pump_tx(net)?;
        Ok(take)
    }

    /// Drain received bytes into `out`; returns how many were copied. Draining makes room,
    /// so a read held back by a full queue is issued now.
    pub fn read<N: Net>(&mut self, net: &mut N, out: &mut [u8]) -> (r: Result<usize>)
        requires
            old(self).wf(),
        ensures
            final(self).wf(),
            ({
                let take = least(old(self).inbox().len(), old(out)@.len());
                &&& final(out)@.len() == old(out)@.len()
                &&& final(out)@.subrange(0, take as int) == old(self).inbox().subrange(0, take as int)
                &&& final(out)@.subrange(take as int, old(out)@.len() as int) == old(out)@.subrange(
                    take as int,
                    old(out)@.len() as int,
                )
                &&& final(self).inbox() == old(self).inbox().subrange(
                    take as int,
                    old(self).inbox().len() as int,
                )
                &&& r is Ok ==> r == Ok::<usize, Error>(take as usize)
            }),
            final(self).id() == old(self).id(),
            final(self).status() == old(self).status(),
            final(self).outbox() == old(self).outbox(),
            final(self).in_flight() == old(self).in_flight(),
            final(self).rx_cap() == old(self).rx_cap(),
            final(self).tx_cap() == old(self).tx_cap(),
            ({
                let asks = !old(self).reading() && old(self).status() == State::Connected
                    && final(self).inbox().len() < final(self).rx_cap();
                &&& asks ==> final(net).calls() == old(net).calls().push(final(self).read_request())
                    && final(self).reading() == r is Ok
                &&& !asks ==> final(net).calls() == old(net).calls() && r is Ok && final(self).reading()
                    == old(self).reading()
            }),
    {
        let take = if self.rx_len < out.len() {
            self.rx_len
        } else {
            out.len()
        };
        let mut i: usize = 0;
        while i < take
            invariant
                take <= self.rx_len <= self.rx@.len(),
                take <= out@.len(),
                out@.len() == old(out)@.len(),
                i <= take,
                *self == *old(self),
                forall|k: int| 0 <= k < i ==> #[trigger] out@[k] == self.rx@[k],
                forall|k: int| i <= k < out@.len() ==> #[trigger] out@[k] == old(out)@[k],
            decreases take - i,
        {
            out[i] = self.rx[i];
            i = i + 1;
        }
        assert(out@.subrange(0, take as int) =~= old(self).inbox().subrange(0, take as int));
        assert(out@.subrange(take as int, out@.len() as int) =~= old(out)@.subrange(
            take as int,
            old(out)@.len() as int,
        ));
        self.drop_read(take);
        self.pump_rx(net)?;
        Ok(take)
    }

    /// Feed a platform event. Only this socket's events count: one socket never takes
    /// another's completion.
    pub fn on_event<N: Net>(&mut self, net: &mut N, ev: &RawEvent) -> (r: Progress)
        requires
            old(self).wf(),
        ensures
            final(self).wf(),
            final(self).id() == old(self).id(),
            final(self).rx_cap() == old(self).rx_cap(),
            final(self).tx_cap() == old(self).tx_cap(),
            ev.handle != old(self).id() || ev.kind == EventKind::NetReady || ev.kind
                == EventKind::Resolved || ev.kind == EventKind::GpsFix || ev.kind == EventKind::Other
                ==> {
                &&& r == Progress::Idle
                &&& *final(self) == *old(self)
                &&& final(net).calls() == old(net).calls()
            },
            ev.handle == old(self).id() && ev.kind == EventKind::Connected ==> connected_step(
                *old(self),
                *final(self),
                ev.status,
                old(net).calls(),
                final(net).calls(),
                r,
            ),
            ev.handle == old(self).id() && ev.kind == EventKind::Recv ==> recv_step(
                *old(self),
                *final(self),
                ev.status,
                ev.a,
                old(net).calls(),
                final(net).calls(),
                r,
            ),
            ev.handle == old(self).id() && ev.kind == EventKind::Sent ==> sent_step(
                *old(self),
                *final(self),
                ev.status,
                old(net).calls(),
                final(net).calls(),
                r,
            ),
            ev.handle == old(self).id() && ev.kind == EventKind::Closed ==> closed_step(
                *old(self),
                *final(self),
                old(net).calls(),
                final(net).calls(),
                r,
            ),
    {
        if ev.handle != self.handle {
            return Progress::Idle;
        }
        match ev.kind {
            EventKind::Connected => {
                if ev.status != 0 {
                    return self.fail(ev.status);
                }
                self.state = State::Connected;
                if self.pump_rx(net).is_err() {
                    return self.fail(ERR_GENERAL);
                }
                Progress::Connected
            },
            EventKind::Recv => {
                self.rx_pending = false;
                if ev.status == -25 || ev.status == -36 {
                    self.state = State::Closed;
                    return Progress::Closed;
                }
                if ev.status != 0 {
                    return self.fail(ev.status);
                }
                if ev.a <= 0 {
                    // A zero-length read on a stream socket is the end of the stream too.
                    self.state = State::Closed;
                    return Progress::Closed;
                }
                let n = ev.a as usize;
                let room = self.rx.len() - self.rx_len;
                let take = if n < room {
                    n
                } else {
                    room
                };
                self.take_landed(take);
                if self.pump_rx(net).is_err() {
                    return self.fail(ERR_GENERAL);
                }
                Progress::Received(take)
            },
            EventKind::Sent => {
                let sent = self.tx_pending;
                self.tx_pending = 0;
                if ev.status != 0 {
                    self.tx_len = 0;
                    let p = self.fail(ev.status);
                    assert(self.outbox() =~= Seq::<u8>::empty());
                    return p;
                }
                self.drop_sent(sent);
                if self.pump_tx(net).is_err() {
                    return self.fail(ERR_GENERAL);
                }
                Progress::Sent(sent)
            },
            EventKind::Closed => {
                self.state = State::Closed;
                self.tx_len = 0;
                self.tx_pending = 0;
                assert(self.outbox() =~= Seq::<u8>::empty());
                Progress::Closed
            },
            _ => Progress::Idle,
        }
    }

    /// Close now, when the caller wants the socket gone before the value is.
    pub fn close<N: Net>(&mut self, net: &mut N)
        requires
            old(self).wf(),
        ensures
            final(self).wf(),
            old(self).id() >= 0 ==> {
                &&& final(net).calls() == old(net).calls().push(NetCall::TcpClose(old(self).id()))
                &&& final(self).id() == -1
                &&& final(self).status() == State::Closed
            },
            old(self).id() < 0 ==> *final(self) == *old(self) && final(net).calls() == old(net).calls(),
            final(self).inbox() == old(self).inbox(),
    {
        if self.handle >= 0 {
            net.tcp_close(self.handle);
            self.handle = -1;
            self.state = State::Closed;
        }
    }
}

// -------------------------------------------------------------------------- DNS --

/// A hostname lookup in flight.
pub struct Lookup {
    handle: i32,
}

impl Lookup {
    pub closed spec fn id(&self) -> i32 {
        self.handle
    }

    pub fn start<N: Net>(net: &mut N, bearer: &Bearer, host: &str) -> (r: Result<Self>)
        ensures
            final(net).calls() == old(net).calls().push(NetCall::Resolve(bearer.id(), host@)),
    {
        Ok(Lookup { handle: net.resolve(bearer.handle(), host)? })
    }

    /// The platform's handle for this lookup.
    pub fn handle(&self) -> (r: i32)
        ensures
            r == self.id(),
    {
        self.handle
    }

    /// `Ok(Some(addr))` once resolved, `Ok(None)` while still waiting; a name that resolves
    /// to nothing usable is [`Error::NotFound`], never `0.0.0.0`.
    pub fn on_event(&mut self, ev: &RawEvent) -> (r: Result<Option<Ipv4>>)
        ensures
            *final(self) == *old(self),
            r == (if ev.kind != EventKind::Resolved || ev.handle != old(self).id() {
                Ok(None)
            } else if ev.status != 0 {
                Err(spec_from_code(ev.status))
            } else if ev.a as u32 == 0 {
                Err(Error::NotFound)
            } else {
                Ok(Some(Ipv4(ev.a as u32)))
            }),
    {
        if ev.kind != EventKind::Resolved || ev.handle != self.handle {
            return Ok(None);
        }
        if ev.status != 0 {
            return Err(Error::from_code(ev.status));
        }
        let raw = ev.a as u32;
        if raw == 0 {
            return Err(Error::NotFound);
        }
        Ok(Some(Ipv4(raw)))
    }
}

// ------------------------------------------------------------------------- UDP --

/// A UDP socket, for the beacon and device discovery.
pub struct UdpSocket {
    handle: i32,
}

impl UdpSocket {
    pub closed spec fn id(&self) -> i32 {
        self.handle
    }

    pub fn open<N: Net>(net: &mut N, bearer_handle: i32) -> (r: Result<Self>)
        ensures
            final(net).calls() == old(net).calls().push(NetCall::UdpOpen(bearer_handle)),
    {
        let handle = net.udp_open(bearer_handle)?;
        Ok(UdpSocket { handle })
    }

    pub fn send_to<N: Net>(&mut self, net: &mut N, addr: Ipv4, port: u16, data: &[u8]) -> (r: Result<()>)
        ensures
            final(net).calls() == old(net).calls().push(
                NetCall::SendTo(old(self).id(), addr, port, data@),
            ),
            *final(self) == *old(self),
    {
        net.udp_send_to(self.handle, addr, port, data)
    }

    /// The platform's handle, for the caller that closes it.
    pub fn handle(&self) -> (r: i32)
        ensures
            r == self.id(),
    {
        self.handle
    }
}

} // verus!
