//! HTTP over the platform stack: the response flags, the body as it accumulates, and the
//! state machine of one fetch.
//!
//! The platform side is the [`Http`] trait, so everything here runs on a host against a fake.
//! Events reach a [`Fetch`] as [`HttpEvent`]s, already told apart by kind.

use vstd::prelude::*;

use crate::error::{Error, Result, ERR_CORRUPT};

pub mod cache;

verus! {

broadcast use {vstd::seq::group_seq_axioms, vstd::slice::group_slice_axioms};

/// The response said `Content-Encoding: gzip`.
pub const GZIP: i32 = 1;

/// The response said `Transfer-Encoding: chunked`.
pub const CHUNKED: i32 = 2;

/// The body starts `1f 8b`: the compressed bytes came through undecoded.
pub const GZIP_MAGIC: i32 = 4;

/// More body arrived than the platform buffers.
pub const TRUNCATED: i32 = 8;

/// What the response turned out to be, past the status code: a set of the bits above.
#[derive(Copy, Clone, Debug, Default, PartialEq, Eq, Structural)]
pub struct Flags(pub i32);

impl Flags {
    /// The response said `Content-Encoding: gzip`.
    pub fn gzip(self) -> (r: bool)
        ensures
            r == (self.0 & GZIP != 0),
    {
        self.0 & GZIP != 0
    }

    /// The response said `Transfer-Encoding: chunked`.
    pub fn chunked(self) -> (r: bool)
        ensures
            r == (self.0 & CHUNKED != 0),
    {
        self.0 & CHUNKED != 0
    }

    /// The body starts `1f 8b`, so the compressed bytes came through undecoded.
    pub fn gzip_magic(self) -> (r: bool)
        ensures
            r == (self.0 & GZIP_MAGIC != 0),
    {
        self.0 & GZIP_MAGIC != 0
    }

    /// More body arrived than the platform buffers.
    pub fn truncated(self) -> (r: bool)
        ensures
            r == (self.0 & TRUNCATED != 0),
    {
        self.0 & TRUNCATED != 0
    }

    /// Whether the caller has to inflate the body itself: gzip declared **and** not already
    /// decoded.
    pub fn needs_inflate(self) -> (r: bool)
        ensures
            r == (self.0 & GZIP != 0 && self.0 & GZIP_MAGIC != 0),
    {
        self.gzip() && self.gzip_magic()
    }
}

/// The response body, accumulated as it arrives: the compressed side, which is the small one.
#[derive(Debug)]
pub struct Body {
    buf: Vec<u8>,
    cap: usize,
    dropped: usize,
}

impl View for Body {
    /// The bytes held, the cap, and how many did not fit.
    type V = (Seq<u8>, nat, nat);

    closed spec fn view(&self) -> (Seq<u8>, nat, nat) {
        (self.buf@, self.cap as nat, self.dropped as nat)
    }
}

impl Body {
    /// `cap` bounds the bytes held. Past it, bytes are counted and dropped.
    pub fn with_cap(cap: usize) -> (r: Self)
        ensures
            r@ == (Seq::<u8>::empty(), cap as nat, 0nat),
    {
        Body { buf: Vec::new(), cap, dropped: 0 }
    }

    /// Feed bytes as they arrive: as many as fit under the cap are kept, the rest counted.
    pub fn push(&mut self, bytes: &[u8])
        requires
            ({
                let room = if old(self)@.1 > old(self)@.0.len() {
                    old(self)@.1 - old(self)@.0.len()
                } else {
                    0
                };
                let take = if room < bytes@.len() {
                    room
                } else {
                    bytes@.len() as int
                };
                old(self)@.2 + (bytes@.len() - take) <= usize::MAX
            }),
        ensures
            ({
                let room = if old(self)@.1 > old(self)@.0.len() {
                    old(self)@.1 - old(self)@.0.len()
                } else {
                    0
                };
                let take = if room < bytes@.len() {
                    room
                } else {
                    bytes@.len() as int
                };
                final(self)@ == (
                    old(self)@.0 + bytes@.subrange(0, take),
                    old(self)@.1,
                    (old(self)@.2 + (bytes@.len() - take)) as nat,
                )
            }),
    {
        let room = if self.cap > self.buf.len() {
            self.cap - self.buf.len()
        } else {
            0
        };
        let take = if room < bytes.len() {
            room
        } else {
            bytes.len()
        };
        let head = vstd::slice::slice_subrange(bytes, 0, take);
        self.buf.extend_from_slice(head);
        self.dropped = self.dropped + (bytes.len() - take);
    }

    /// How many bytes are held.
    pub fn len(&self) -> (r: usize)
        ensures
            r == self@.0.len(),
    {
        self.buf.len()
    }

    pub fn is_empty(&self) -> (r: bool)
        ensures
            r == (self@.0.len() == 0),
    {
        self.buf.len() == 0
    }

    /// Bytes that did not fit. Non-zero means the content is incomplete.
    pub fn dropped(&self) -> (r: usize)
        ensures
            r == self@.2,
    {
        self.dropped
    }

    /// The bytes as they came off the wire.
    pub fn raw(&self) -> (r: &[u8])
        ensures
            r@ == self@.0,
    {
        self.buf.as_slice()
    }
}

/// A finished transaction.
#[derive(Copy, Clone, Debug, PartialEq, Eq, Structural)]
pub struct Response {
    /// The HTTP status of the page that actually loaded; redirects are already followed.
    pub status: u16,
    /// Every body byte the stack delivered, including any past the platform's buffer.
    pub total: usize,
    /// How many body callbacks it took.
    pub parts: u32,
    pub flags: Flags,
}

impl Response {
    /// Whether the status is one that carries a page worth parsing: 2xx.
    pub fn is_ok(&self) -> (r: bool)
        ensures
            r == (200 <= self.status < 300),
    {
        self.status >= 200 && self.status < 300
    }
}

/// The validators a response carried. Empty strings when it carried none.
#[derive(Clone, Debug, Default, PartialEq, Eq)]
pub struct Validators {
    pub etag: String,
    pub last_modified: String,
}

impl Validators {
    /// Whether a stored copy carrying these could be revalidated instead of refetched.
    pub fn any(&self) -> (r: bool)
        ensures
            r == (self.etag@.len() > 0 || self.last_modified@.len() > 0),
    {
        !crate::codec::str_is_empty(self.etag.as_str()) || !crate::codec::str_is_empty(
            self.last_modified.as_str(),
        )
    }
}

/// What feeding an event to a [`Fetch`] produced.
#[derive(Copy, Clone, Debug, PartialEq, Eq)]
pub enum Progress {
    /// Not for this fetch, or nothing to report yet.
    Idle,
    /// Headers arrived; the status is known and the body is on its way.
    Head(u16),
    /// Body bytes arrived. The running total, as the stack counts it.
    Body(usize),
    /// The transaction finished.
    Done(Response),
    /// The server says the stored copy is still current: 304, no body.
    NotModified,
    /// It failed, with the platform's code.
    Failed(Error),
}

/// Why decompressing a body stopped, as far as a caller's next step goes.
#[derive(Copy, Clone, Debug, PartialEq, Eq, Structural)]
pub enum InflateFailure {
    /// The decoded body would exceed the bound the caller set.
    TooLarge,
    /// The caller's own sink refused the bytes.
    Sink,
    /// The body ended in the middle of the stream.
    Truncated,
    /// The bytes are not what they claim to be: corrupt, a bad distance, a checksum mismatch.
    Corrupt,
}

/// The error a failed decompression is reported as: too large is a limit the caller chose
/// and can raise, a refused sink is the caller's, a short body is an early end, and anything
/// else is a body that must not be shown (`KErrCorrupt`).
pub fn inflate_error(f: InflateFailure) -> (e: Error)
    ensures
        e == match f {
            InflateFailure::TooLarge => Error::Overflow,
            InflateFailure::Sink => Error::Argument,
            InflateFailure::Truncated => Error::UnexpectedEof,
            InflateFailure::Corrupt => Error::Platform(ERR_CORRUPT),
        },
{
    match f {
        InflateFailure::TooLarge => Error::Overflow,
        InflateFailure::Sink => Error::Argument,
        InflateFailure::Truncated => Error::UnexpectedEof,
        InflateFailure::Corrupt => Error::Platform(ERR_CORRUPT),
    }
}

/// A platform event for a fetch, told apart by kind.
#[derive(Copy, Clone, Debug, PartialEq, Eq, Structural)]
pub enum HttpEvent {
    /// Headers arrived, with the status the stack reported.
    Head { status: i32 },
    /// Body arrived: the stack's running total.
    Body { total: i32 },
    /// The transaction ended: the completion code (0 for success), the status, the total, the
    /// response flags and how many parts the body came in.
    Done { code: i32, status: i32, total: i32, flags: i32, parts: i32 },
    /// Anything else.
    Other,
}

/// What the platform answered when asked for a response's validators or for where its bytes
/// came from; `None` for a refusal.
pub ghost enum HttpReply {
    Validators(Option<(Seq<char>, Seq<char>)>),
    EffectiveUrl(Option<Seq<char>>),
}

/// One request handed to the platform side of a fetch.
pub ghost enum HttpCall {
    /// Open the session over this bearer.
    Open(i32),
    /// A GET of this URL, asking for compression or not, conditional on these validators
    /// (empty for none).
    Get(Seq<char>, bool, Seq<char>, Seq<char>),
    /// A POST of this body, of this content type, to this URL.
    Post(Seq<char>, Seq<char>, Seq<u8>),
    /// Start the next GET at this byte offset.
    RangeFrom(u64),
    /// Copy out buffered body bytes, into room for this many.
    Read(nat),
    /// Abandon the transaction.
    Cancel,
    /// Throw the session away and open a new one over this bearer.
    Reset(i32),
}

/// The platform side of a fetch.
pub trait Http {
    /// Every request handed over so far, oldest first. An implementation keeps its own record;
    /// one that keeps none has nothing to show.
    closed spec fn asked(&self) -> Seq<HttpCall> {
        Seq::empty()
    }

    /// Every answer to [`Http::validators`] and [`Http::effective_url`] so far, oldest first.
    /// An implementation keeps its own record; one that keeps none has nothing to show.
    closed spec fn heard(&self) -> Seq<HttpReply> {
        Seq::empty()
    }

    /// Open the session over a bearer handle that is already **up**.
    fn open(&mut self, bearer: i32) -> (r: Result<()>)
        ensures
            final(self).asked() == old(self).asked().push(HttpCall::Open(bearer)),
    ;

    /// Begin a GET. Replaces any transaction in flight.
    fn get(&mut self, url: &str, want_gzip: bool) -> (r: Result<()>)
        ensures
            final(self).asked() == old(self).asked().push(
                HttpCall::Get(url@, want_gzip, Seq::empty(), Seq::empty()),
            ),
    ;

    /// One POST with a body already in memory. An implementation that cannot post answers
    /// `Platform(ERR_NOT_SUPPORTED)`.
    fn post(&mut self, url: &str, content_type: &str, body: &[u8]) -> (r: Result<()>)
        ensures
            final(self).asked() == old(self).asked().push(
                HttpCall::Post(url@, content_type@, body@),
            ),
    ;

    /// The same as [`Http::get`], conditional on a stored copy's validators. Empty strings
    /// mean unconditional.
    fn get_conditional(&mut self, url: &str, want_gzip: bool, etag: &str, last_modified: &str) -> (r:
        Result<()>)
        ensures
            final(self).asked() == old(self).asked().push(
                HttpCall::Get(url@, want_gzip, etag@, last_modified@),
            ),
    ;

    /// The validators the response carried. Read after the headers arrive.
    fn validators(&mut self) -> (r: Result<Validators>)
        ensures
            final(self).heard() == old(self).heard().push(
                HttpReply::Validators(
                    match r {
                        Ok(v) => Some((v.etag@, v.last_modified@)),
                        Err(_) => None,
                    },
                ),
            ),
    ;

    /// Copy out buffered body bytes. Returns how many; 0 when none are held.
    fn read(&mut self, out: &mut [u8]) -> (r: Result<usize>)
        ensures
            final(self).asked() == old(self).asked().push(HttpCall::Read(old(out)@.len())),
            final(out)@.len() == old(out)@.len(),
            r matches Ok(n) ==> n <= old(out)@.len(),
    ;

    /// Where the bytes came from, after any redirect the stack followed silently.
    fn effective_url(&mut self) -> (r: Result<String>)
        ensures
            final(self).heard() == old(self).heard().push(
                HttpReply::EffectiveUrl(
                    match r {
                        Ok(u) => Some(u@),
                        Err(_) => None,
                    },
                ),
            ),
    ;

    /// Abandon the transaction, keeping the session.
    fn cancel(&mut self)
        ensures
            final(self).asked() == old(self).asked().push(HttpCall::Cancel),
    ;

    /// Resume the next [`Http::get`] from a byte offset. An implementation that cannot
    /// resume answers `Platform(ERR_NOT_SUPPORTED)` rather than fetching from the start.
    fn range_from(&mut self, offset: u64) -> (r: Result<()>)
        ensures
            final(self).asked() == old(self).asked().push(HttpCall::RangeFrom(offset)),
    ;

    /// Throw the session away, so the next fetch builds a new one.
    fn reset(&mut self, bearer: i32) -> (r: Result<()>)
        ensures
            final(self).asked() == old(self).asked().push(HttpCall::Reset(bearer)),
    ;
}

/// An HTTP status the platform reported, kept in range: anything outside `0..=599` is 0.
pub fn clamp_status(raw: i32) -> (r: u16)
    ensures
        0 <= raw <= 599 ==> r == raw,
        !(0 <= raw <= 599) ==> r == 0,
{
    if raw < 0 || raw > 599 {
        0
    } else {
        raw as u16
    }
}

/// One fetch, driven by events. Start it, feed every event to [`Fetch::on_event`], and read
/// the body once [`Progress::Done`] arrives.
#[derive(Debug)]
pub struct Fetch {
    url: String,
    /// Where the bytes came from, once known. Empty until the transaction ends.
    effective: String,
    /// What the response says can be used to revalidate it next time.
    validators: Validators,
    done: bool,
    status: u16,
    total: usize,
}

/// A fetch as values: the URL asked for, where the bytes came from (empty until known),
/// whether it is over, the status and the running total.
pub type FetchState = (Seq<char>, Seq<char>, bool, u16, usize);

impl View for Fetch {
    type V = FetchState;

    closed spec fn view(&self) -> FetchState {
        (self.url@, self.effective@, self.done, self.status, self.total)
    }
}

/// What a [`Fetch`] does with an event: the progress it reports and the state it moves to.
pub open spec fn step(s: FetchState, ev: HttpEvent) -> (Progress, FetchState) {
    if s.2 {
        (Progress::Idle, s)
    } else {
        match ev {
            HttpEvent::Head { status } => {
                let st = if 0 <= status <= 599 {
                    status as u16
                } else {
                    0u16
                };
                (
                    if st == 304 {
                        Progress::NotModified
                    } else {
                        Progress::Head(st)
                    },
                    (s.0, s.1, s.2, st, s.4),
                )
            },
            HttpEvent::Body { total } => {
                let t = if total < 0 {
                    0usize
                } else {
                    total as usize
                };
                (Progress::Body(t), (s.0, s.1, s.2, s.3, t))
            },
            HttpEvent::Done { code, status, total, flags, parts } => {
                if code != 0 {
                    (Progress::Failed(crate::error::spec_from_code(code)), (s.0, s.1, true, s.3, s.4))
                } else {
                    let st = if 0 <= status <= 599 {
                        status as u16
                    } else {
                        0u16
                    };
                    let t = if total < 0 {
                        0usize
                    } else {
                        total as usize
                    };
                    (
                        if st == 304 {
                            Progress::NotModified
                        } else {
                            Progress::Done(
                                Response {
                                    status: st,
                                    total: t,
                                    parts: if parts < 0 {
                                        0u32
                                    } else {
                                        parts as u32
                                    },
                                    flags: Flags(flags),
                                },
                            )
                        },
                        (s.0, s.1, true, st, t),
                    )
                }
            },
            HttpEvent::Other => (Progress::Idle, s),
        }
    }
}

/// Whether a fetch that reported `p` asks for the response's validators: once the headers
/// are in.
pub open spec fn asks_validators(p: Progress) -> bool {
    p is Head || p is NotModified
}

/// Whether a fetch that reported `p` asks where the bytes came from: once it is over.
pub open spec fn asks_url(p: Progress) -> bool {
    p is Done || p is Failed || p is NotModified
}

/// The validators a fetch keeps after hearing `reply`: the answered ones when there are
/// any, else what it had.
pub open spec fn kept_validators(had: (Seq<char>, Seq<char>), reply: HttpReply) -> (Seq<char>, Seq<char>) {
    match reply {
        HttpReply::Validators(Some((e, l))) => if e.len() > 0 || l.len() > 0 {
            (e, l)
        } else {
            had
        },
        _ => had,
    }
}

/// Where a fetch says its bytes came from after hearing `reply`: the answered address when
/// it is not empty, else what it had.
pub open spec fn kept_url(had: Seq<char>, reply: HttpReply) -> Seq<char> {
    match reply {
        HttpReply::EffectiveUrl(Some(u)) => if u.len() > 0 {
            u
        } else {
            had
        },
        _ => had,
    }
}

impl Fetch {
    /// What the response can be revalidated with, as values.
    pub closed spec fn validators_spec(&self) -> (Seq<char>, Seq<char>) {
        (self.validators.etag@, self.validators.last_modified@)
    }

    fn fresh(url: &str) -> (r: Self)
        ensures
            r@ == (url@, Seq::<char>::empty(), false, 0u16, 0usize),
            r.validators_spec() == (Seq::<char>::empty(), Seq::<char>::empty()),
    {
        Fetch {
            url: crate::codec::owned(url),
            effective: String::new(),
            validators: Validators { etag: String::new(), last_modified: String::new() },
            done: false,
            status: 0,
            total: 0,
        }
    }

    /// Begin a GET. `want_gzip` asks the server for compression.
    pub fn start<H: Http>(http: &mut H, url: &str, want_gzip: bool) -> (r: Result<Self>)
        ensures
            r matches Ok(f) ==> f@ == (url@, Seq::<char>::empty(), false, 0u16, 0usize)
                && f.validators_spec() == (Seq::<char>::empty(), Seq::<char>::empty()),
            final(http).asked() == old(http).asked().push(
                HttpCall::Get(url@, want_gzip, Seq::empty(), Seq::empty()),
            ),
    {
        let none = "";
        proof {
            reveal_strlit("");
            assert(none@ =~= Seq::<char>::empty());
        }
        Self::start_conditional(http, url, want_gzip, none, none)
    }

    /// The same state machine, driving a POST instead of a GET.
    pub fn post<H: Http>(http: &mut H, url: &str, content_type: &str, body: &[u8]) -> (r: Result<Self>)
        ensures
            r matches Ok(f) ==> f@ == (url@, Seq::<char>::empty(), false, 0u16, 0usize)
                && f.validators_spec() == (Seq::<char>::empty(), Seq::<char>::empty()),
            final(http).asked() == old(http).asked().push(
                HttpCall::Post(url@, content_type@, body@),
            ),
    {
        http.post(url, content_type, body)?;
        Ok(Self::fresh(url))
    }

    /// A GET resuming from `offset`, for a download with a partial file on disk. The caller
    /// must look at the status: 206 is the remainder, 200 is the whole thing again.
    pub fn start_from<H: Http>(http: &mut H, url: &str, want_gzip: bool, offset: u64) -> (r: Result<Self>)
        ensures
            r matches Ok(f) ==> f@ == (url@, Seq::<char>::empty(), false, 0u16, 0usize)
                && f.validators_spec() == (Seq::<char>::empty(), Seq::<char>::empty()),
            offset == 0 ==> final(http).asked() == old(http).asked().push(
                HttpCall::Get(url@, want_gzip, Seq::empty(), Seq::empty()),
            ),
            offset > 0 ==> final(http).asked() == old(http).asked().push(HttpCall::RangeFrom(offset))
                && r is Err || final(http).asked() == old(http).asked().push(
                HttpCall::RangeFrom(offset),
            ).push(HttpCall::Get(url@, want_gzip, Seq::empty(), Seq::empty())),
    {
        if offset > 0 {
            http.range_from(offset)?;
        }
        Self::start(http, url, want_gzip)
    }

    /// A GET conditional on a stored copy's validators. Empty validators make it an ordinary
    /// GET.
    pub fn start_conditional<H: Http>(
        http: &mut H,
        url: &str,
        want_gzip: bool,
        etag: &str,
        last_modified: &str,
    ) -> (r: Result<Self>)
        ensures
            r matches Ok(f) ==> f@ == (url@, Seq::<char>::empty(), false, 0u16, 0usize)
                && f.validators_spec() == (Seq::<char>::empty(), Seq::<char>::empty()),
            final(http).asked() == old(http).asked().push(
                HttpCall::Get(url@, want_gzip, etag@, last_modified@),
            ),
    {
        http.get_conditional(url, want_gzip, etag, last_modified)?;
        Ok(Self::fresh(url))
    }

    /// The URL as asked for.
    pub fn url(&self) -> (r: &str)
        ensures
            r@ == self@.0,
    {
        self.url.as_str()
    }

    /// Where the bytes came from; the URL asked for until the transaction ends. This, not
    /// `url`, is what a relative link resolves against.
    pub fn effective_url(&self) -> (r: &str)
        ensures
            r@ == if self@.1.len() == 0 {
                self@.0
            } else {
                self@.1
            },
    {
        if crate::codec::str_is_empty(self.effective.as_str()) {
            self.url.as_str()
        } else {
            self.effective.as_str()
        }
    }

    /// Whether the stack redirected us somewhere else.
    pub fn was_redirected(&self) -> (r: bool)
        ensures
            r == (self@.1.len() > 0 && self@.1 != self@.0),
    {
        !crate::codec::str_is_empty(self.effective.as_str()) && !(self.effective == self.url)
    }

    /// What this response can be revalidated with next time.
    pub fn validators(&self) -> (r: &Validators)
        ensures
            (r.etag@, r.last_modified@) == self.validators_spec(),
    {
        &self.validators
    }

    pub fn is_done(&self) -> (r: bool)
        ensures
            r == self@.2,
    {
        self.done
    }

    /// Feed a platform event. A completion for a fetch already finished — a cancel racing a
    /// completion — is `Idle`, so nobody parses a body twice.
    pub fn on_event(&mut self, ev: &HttpEvent) -> (r: Progress)
        ensures
            (r, final(self)@) == step(old(self)@, *ev),
            final(self).validators_spec() == old(self).validators_spec(),
    {
        if self.done {
            return Progress::Idle;
        }
        match *ev {
            HttpEvent::Head { status } => {
                self.status = clamp_status(status);
                if self.status == 304 {
                    return Progress::NotModified;
                }
                Progress::Head(self.status)
            },
            HttpEvent::Body { total } => {
                self.total = if total < 0 {
                    0
                } else {
                    total as usize
                };
                Progress::Body(self.total)
            },
            HttpEvent::Done { code, status, total, flags, parts } => {
                self.done = true;
                if code != 0 {
                    return Progress::Failed(Error::from_code(code));
                }
                self.status = clamp_status(status);
                self.total = if total < 0 {
                    0
                } else {
                    total as usize
                };
                if self.status == 304 {
                    return Progress::NotModified;
                }
                Progress::Done(
                    Response {
                        status: self.status,
                        total: self.total,
                        parts: if parts < 0 {
                            0
                        } else {
                            parts as u32
                        },
                        flags: Flags(flags),
                    },
                )
            },
            HttpEvent::Other => Progress::Idle,
        }
    }

    /// Feed a platform event, and ask the platform for the validators once the headers are in
    /// and for where the bytes came from once it is over — the one moment either can be read.
    pub fn on_event_with<H: Http>(&mut self, http: &mut H, ev: &HttpEvent) -> (r: Progress)
        ensures
            (r, (final(self)@.0, final(self)@.2, final(self)@.3, final(self)@.4)) == ({
                let (p, s) = step(old(self)@, *ev);
                (p, (s.0, s.2, s.3, s.4))
            }),
            final(http).heard().len() == old(http).heard().len() + (if asks_validators(r) {
                1int
            } else {
                0int
            }) + (if asks_url(r) {
                1int
            } else {
                0int
            }),
            final(http).heard().subrange(0, old(http).heard().len() as int) == old(http).heard(),
            asks_validators(r) ==> final(http).heard()[old(http).heard().len() as int] is Validators
                && final(self).validators_spec() == kept_validators(
                old(self).validators_spec(),
                final(http).heard()[old(http).heard().len() as int],
            ),
            !asks_validators(r) ==> final(self).validators_spec() == old(self).validators_spec(),
            asks_url(r) ==> final(http).heard().last() is EffectiveUrl && final(self)@.1 == kept_url(
                old(self)@.1,
                final(http).heard().last(),
            ),
            !asks_url(r) ==> final(self)@.1 == old(self)@.1,
    {
        let p = self.on_event(ev);
        let head = match p {
            Progress::Head(_) => true,
            Progress::NotModified => true,
            _ => false,
        };
        if head {
            match http.validators() {
                Ok(v) => {
                    if v.any() {
                        self.validators = v;
                    }
                },
                Err(_) => {},
            }
        }
        let over = match p {
            Progress::Done(_) => true,
            Progress::Failed(_) => true,
            Progress::NotModified => true,
            _ => false,
        };
        if over {
            match http.effective_url() {
                Ok(u) => {
                    if !crate::codec::str_is_empty(u.as_str()) {
                        self.effective = u;
                    }
                },
                Err(_) => {},
            }
        }
        p
    }

    /// Copy out buffered body bytes. Call until it returns 0.
    pub fn read<H: Http>(&mut self, http: &mut H, out: &mut [u8]) -> (r: Result<usize>)
        ensures
            final(self)@ == old(self)@,
            final(self).validators_spec() == old(self).validators_spec(),
            final(http).asked() == old(http).asked().push(HttpCall::Read(old(out)@.len())),
            final(out)@.len() == old(out)@.len(),
            r matches Ok(n) ==> n <= old(out)@.len(),
    {
        http.read(out)
    }

    /// Abandon it. This is Back being pressed.
    pub fn cancel<H: Http>(&mut self, http: &mut H)
        ensures
            final(self)@ == (old(self)@.0, old(self)@.1, true, old(self)@.3, old(self)@.4),
            final(self).validators_spec() == old(self).validators_spec(),
            final(http).asked() == old(http).asked().push(HttpCall::Cancel),
    {
        http.cancel();
        self.done = true;
    }
}

/// Once a fetch is over it stays over: every later event is `Idle` and changes nothing.
pub proof fn lemma_done_is_final(s: FetchState, ev: HttpEvent)
    requires
        s.2,
    ensures
        step(s, ev) == (Progress::Idle, s),
{
}

} // verus!
