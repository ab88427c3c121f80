//! Installed applications, for a launcher: what the registry's answers mean, an icon fetch's
//! one retry at the size the platform asked for, and the order of the routes that ask an
//! application to open an address.
//!
//! Reaching the registry and the window server is the platform's; the decisions are here.

use vstd::prelude::*;
use vstd::string::StringSliceAdditionalSpecFns;

use crate::codec::{from_utf16_lossy, owned, push_char, push_str, utf16_lossy};
use crate::error::{spec_from_code, Error, Result, ERR_NOT_FOUND, ERR_OVERFLOW};
use crate::pkg::{chars_of, hex8_upper, is_space, push_hex8_upper, space};

verus! {

broadcast use {vstd::seq::group_seq_axioms, vstd::slice::group_slice_axioms};

/// The longest caption the registry copies out, in UTF-16 units.
pub const CAPTION_MAX: usize = 64;

/// The bitmap index an icon fetch wants for a MIF (scalable) icon file.
pub const ICON_ID_MIF: i32 = 16384;

/// The bitmap index an icon fetch wants for a plain MBM icon file, which numbers from zero.
pub const ICON_ID_MBM: i32 = 0;

/// The largest icon edge worth allocating for, in pixels: the platform refuses anything wider.
pub const MAX_ICON_EDGE: i32 = 256;

/// One installed application, as the registry sees it.
#[derive(Debug, PartialEq, Eq)]
pub struct AppInfo {
    /// The application's UID3: its identity, and what a launch takes.
    pub uid3: u32,
    /// The menu caption, decoded from UTF-16.
    pub caption: String,
    /// The app asked to be kept out of the menu.
    pub hidden: bool,
    /// A control-panel item registered as an app, not a standalone program.
    pub system: bool,
}

impl Clone for AppInfo {
    fn clone(&self) -> (r: Self)
        ensures
            r.uid3 == self.uid3,
            r.caption@ == self.caption@,
            r.hidden == self.hidden,
            r.system == self.system,
    {
        AppInfo {
            uid3: self.uid3,
            caption: self.caption.clone(),
            hidden: self.hidden,
            system: self.system,
        }
    }
}

/// Whether `s` is empty once trimmed: nothing but white space.
pub open spec fn blank(s: Seq<char>) -> bool {
    forall|i: int| 0 <= i < s.len() ==> is_space(#[trigger] s[i])
}

/// The caption a registry entry shows: its own, or for an entry with none, its UID in hex
/// between brackets, so a blank row never looks like a bug.
pub open spec fn caption_of(uid3: u32, units: Seq<u16>) -> Seq<char> {
    if blank(utf16_lossy(units)) {
        seq!['['] + hex8_upper(uid3) + seq![']']
    } else {
        utf16_lossy(units)
    }
}

/// How many caption units of `len` the entry keeps, from a buffer of `cap`.
pub open spec fn caption_kept(len: i32, cap: nat) -> nat {
    let n: nat = if len <= 0 {
        0
    } else {
        len as nat
    };
    let m: nat = if cap < CAPTION_MAX {
        cap
    } else {
        CAPTION_MAX as nat
    };
    if n < m {
        n
    } else {
        m
    }
}

fn is_blank(s: &str) -> (r: bool)
    ensures
        r == blank(s@),
{
    let cs = chars_of(s);
    let mut i: usize = 0;
    while i < cs.len()
        invariant
            cs@ == s@,
            i <= cs@.len(),
            forall|k: int| 0 <= k < i ==> is_space(#[trigger] cs@[k]),
        decreases cs@.len() - i,
    {
        if !space(cs[i]) {
            return false;
        }
        i = i + 1;
    }
    true
}

/// One registry entry, as the platform answered for it: `rc` is its status, `flags` packs
/// hidden (bit 0) and control panel (bit 1), and `units` holds `caption_len` units of
/// caption. `Ok(None)` for an entry a racing uninstall removed between the scan and the read,
/// which is skipped rather than failing the whole enumeration.
pub fn app_entry(rc: i32, uid3: u32, flags: u8, units: &[u16], caption_len: i32) -> (r: Result<
    Option<AppInfo>,
>)
    ensures
        rc == ERR_NOT_FOUND ==> r == Ok::<Option<AppInfo>, Error>(None),
        rc != ERR_NOT_FOUND && rc < 0 ==> r == Err::<Option<AppInfo>, Error>(spec_from_code(rc)),
        rc >= 0 ==> (r matches Ok(Some(a)) && {
            &&& a.uid3 == uid3
            &&& a.caption@ == caption_of(
                uid3,
                units@.subrange(0, caption_kept(caption_len, units@.len()) as int),
            )
            &&& a.hidden == (flags & 1 != 0)
            &&& a.system == (flags & 2 != 0)
        }),
{
    if rc == ERR_NOT_FOUND {
        return Ok(None);
    }
    if rc < 0 {
        return Err(Error::from_code(rc));
    }
    let n: usize = if caption_len <= 0 {
        0
    } else {
        caption_len as usize
    };
    let m: usize = if units.len() < CAPTION_MAX {
        units.len()
    } else {
        CAPTION_MAX
    };
    let kept = if n < m {
        n
    } else {
        m
    };
    let mut caption = from_utf16_lossy(vstd::slice::slice_subrange(units, 0, kept));
    if is_blank(caption.as_str()) {
        let mut c = owned("[");
        push_hex8_upper(&mut c, uid3);
        push_char(&mut c, ']');
        proof {
            reveal_strlit("[");
            assert(c@ =~= seq!['['] + hex8_upper(uid3) + seq![']']);
        }
        caption = c;
    }
    Ok(Some(AppInfo { uid3, caption, hidden: flags & 1 != 0, system: flags & 2 != 0 }))
}

/// One app's icon: an RGB565 colour plane and an 8-bit coverage mask, row-major `w`*`h`.
#[derive(Debug, PartialEq, Eq)]
pub struct Icon {
    pub w: i32,
    pub h: i32,
    pub pixels: Vec<u16>,
    pub mask: Vec<u8>,
}

/// What one icon fetch came to.
#[derive(Debug, PartialEq, Eq)]
pub enum Attempt {
    Got(Icon),
    /// The buffers were too small; the platform wants this size.
    TooSmall(i32, i32),
    Failed(Error),
}

/// What to do after a first fetch: the answer, or one retry at this edge.
#[derive(Debug, PartialEq, Eq)]
pub enum IconStep {
    Done(Result<Icon>),
    Retry(i32),
}

/// The pixels a reported `w` × `h` covers, as a count; negative sides count as none.
pub open spec fn reported_pixels(w: i32, h: i32) -> int {
    (if w > 0 {
        w as int
    } else {
        0
    }) * (if h > 0 {
        h as int
    } else {
        0
    })
}

/// What a fetch into buffers of `cap` pixels came to, from the platform's code and the size
/// it reported: an overflow carries the size it wants; a size of nothing, or bigger than the
/// buffers, is no usable icon rather than a slice out of bounds.
pub fn icon_attempt(rc: i32, w: i32, h: i32, pixels: Vec<u16>, mask: Vec<u8>) -> (r: Attempt)
    requires
        pixels@.len() == mask@.len(),
    ensures
        rc == ERR_OVERFLOW ==> r == Attempt::TooSmall(w, h),
        rc != ERR_OVERFLOW && rc < 0 ==> r == Attempt::Failed(spec_from_code(rc)),
        rc >= 0 && (reported_pixels(w, h) == 0 || reported_pixels(w, h) > pixels@.len()) ==> r
            == Attempt::Failed(Error::NotFound),
        rc >= 0 && 0 < reported_pixels(w, h) <= pixels@.len() ==> (r matches Attempt::Got(i) && {
            &&& i.w == w
            &&& i.h == h
            &&& i.pixels@ == pixels@.subrange(0, reported_pixels(w, h))
            &&& i.mask@ == mask@.subrange(0, reported_pixels(w, h))
        }),
{
    if rc == ERR_OVERFLOW {
        return Attempt::TooSmall(w, h);
    }
    if rc < 0 {
        return Attempt::Failed(Error::from_code(rc));
    }
    let cap = pixels.len();
    let wn: usize = if w > 0 {
        w as usize
    } else {
        0
    };
    let hn: usize = if h > 0 {
        h as usize
    } else {
        0
    };
    if wn == 0 || hn == 0 {
        assert(reported_pixels(w, h) == 0) by (nonlinear_arith)
            requires
                wn == 0 || hn == 0,
                wn == (if w > 0 {
                    w as int
                } else {
                    0
                }),
                hn == (if h > 0 {
                    h as int
                } else {
                    0
                }),
        ;
        return Attempt::Failed(Error::NotFound);
    }
    // `wn * hn > cap`, without the product overflowing.
    if wn > cap / hn {
        assert(wn * hn > cap) by (nonlinear_arith)
            requires
                wn > cap / hn,
                hn > 0,
        ;
        return Attempt::Failed(Error::NotFound);
    }
    assert(0 < wn * hn <= cap) by (nonlinear_arith)
        requires
            wn <= cap / hn,
            hn > 0,
            wn > 0,
    ;
    assert(reported_pixels(w, h) == (wn as int) * (hn as int)) by {
        assert(w as int == wn as int && h as int == hn as int);
    }
    let n = wn * hn;
    let mut pixels = pixels;
    let mut mask = mask;
    pixels.truncate(n);
    mask.truncate(n);
    Attempt::Got(Icon { w, h, pixels, mask })
}

/// After the first fetch: its answer, or — when the buffers were too small — one retry at the
/// size the platform reported, if that size is one worth allocating.
pub fn icon_first(a: Attempt) -> (r: IconStep)
    ensures
        a matches Attempt::Got(i) ==> r == IconStep::Done(Ok(i)),
        a matches Attempt::Failed(e) ==> r == IconStep::Done(Err(e)),
        a matches Attempt::TooSmall(w, h) ==> {
            let edge = if w >= h {
                w
            } else {
                h
            };
            &&& edge <= 0 || edge > MAX_ICON_EDGE ==> r == IconStep::Done(Err(Error::NotFound))
            &&& 0 < edge <= MAX_ICON_EDGE ==> r == IconStep::Retry(edge)
        },
{
    match a {
        Attempt::Got(i) => IconStep::Done(Ok(i)),
        Attempt::Failed(e) => IconStep::Done(Err(e)),
        Attempt::TooSmall(w, h) => {
            let edge = if w >= h {
                w
            } else {
                h
            };
            if edge <= 0 || edge > MAX_ICON_EDGE {
                IconStep::Done(Err(Error::NotFound))
            } else {
                IconStep::Retry(edge)
            }
        },
    }
}

/// After the retry: never another one. The retry was sized from the platform's own answer,
/// so a second overflow means that answer was not usable.
pub fn icon_second(a: Attempt) -> (r: Result<Icon>)
    ensures
        a matches Attempt::Got(i) ==> r == Ok::<Icon, Error>(i),
        a matches Attempt::Failed(e) ==> r == Err::<Icon, Error>(e),
        a is TooSmall ==> r == Err::<Icon, Error>(Error::NotFound),
{
    match a {
        Attempt::Got(i) => Ok(i),
        Attempt::Failed(e) => Err(e),
        Attempt::TooSmall(_, _) => Err(Error::NotFound),
    }
}

/// Which convention to use when asking an app to open a URL. There is no `OpenUrl` on the
/// platform, only conventions, and which one a firmware honours only that firmware answers.
#[derive(Copy, Clone, PartialEq, Eq, Debug, Structural)]
pub enum LaunchDoc {
    /// `CApaCommandLine::SetDocumentNameL` + `EApaCommandOpen`, at an explicit app.
    DocumentName,
    /// `SetTailEndL("4 <url>")`: the browser's own command set, where 4 means "open URL".
    BrowserTail,
    /// `RApaLsSession::StartDocument` at an explicit app.
    StartDocument,
    /// `StartDocument` with no app named, letting the platform resolve the handler.
    Resolve,
}

/// The number the platform knows each route by.
pub open spec fn launch_doc_raw(d: LaunchDoc) -> i32 {
    match d {
        LaunchDoc::DocumentName => 0,
        LaunchDoc::BrowserTail => 1,
        LaunchDoc::StartDocument => 2,
        LaunchDoc::Resolve => 3,
    }
}

impl LaunchDoc {
    pub fn raw(self) -> (r: i32)
        ensures
            r == launch_doc_raw(self),
    {
        match self {
            LaunchDoc::DocumentName => 0,
            LaunchDoc::BrowserTail => 1,
            LaunchDoc::StartDocument => 2,
            LaunchDoc::Resolve => 3,
        }
    }
}

/// Listing and launching installed apps, as an interface a launcher's screen is written
/// against: the device supplies the platform's, a test a fixed roster.
pub trait Apps {
    /// Re-scan and return the installed applications.
    fn installed(&mut self) -> Result<Vec<AppInfo>>;

    /// Start the app with this UID3.
    fn launch(&mut self, uid3: u32) -> Result<()>;
}

/// One request of the window server or the application registry, as a [`Launcher`] records it.
pub ghost enum LaunchCall {
    TaskMessage(u32, Seq<u8>),
    LaunchDoc(u32, Seq<char>, LaunchDoc),
    Launch(u32),
    ToBackground,
}

/// The four calls that hand an address to an application, one per request. Each records
/// itself in [`Launcher::calls`]; what the platform answers is its own.
pub trait Launcher {
    /// Every request made so far, oldest first. An implementation keeps its own record;
    /// one that keeps none has nothing to show.
    closed spec fn calls(&self) -> Seq<LaunchCall> {
        Seq::empty()
    }

    /// What each request was answered, in the same order as [`Launcher::calls`].
    closed spec fn replies(&self) -> Seq<Result<()>> {
        Seq::empty()
    }

    /// Hand a message to a running application, bringing it forward.
    fn task_message(&mut self, uid3: u32, msg: &[u8]) -> (r: Result<()>)
        ensures
            final(self).calls() == old(self).calls().push(LaunchCall::TaskMessage(uid3, msg@)),
            final(self).replies() == old(self).replies().push(r),
    ;

    /// Ask an application to open a document, by a route.
    fn launch_doc(&mut self, uid3: u32, doc: &str, route: LaunchDoc) -> (r: Result<()>)
        ensures
            final(self).calls() == old(self).calls().push(LaunchCall::LaunchDoc(uid3, doc@, route)),
            final(self).replies() == old(self).replies().push(r),
    ;

    /// Start an application.
    fn launch(&mut self, uid3: u32) -> (r: Result<()>)
        ensures
            final(self).calls() == old(self).calls().push(LaunchCall::Launch(uid3)),
            final(self).replies() == old(self).replies().push(r),
    ;

    /// Drop this application behind whatever else is on screen.
    fn to_background(&mut self) -> (r: Result<()>)
        ensures
            final(self).calls() == old(self).calls().push(LaunchCall::ToBackground),
            final(self).replies() == old(self).replies().push(r),
    ;
}

/// The browser's own command to open `url`: `4 <url>`.
pub open spec fn url_command(url: Seq<char>) -> Seq<char> {
    seq!['4', ' '] + url
}

/// Every route that can hand `url` to `uid3`, in the order the handset taught: the running
/// application first, then each document route with the form it reads, then a plain launch.
pub open spec fn url_routes(uid3: u32, url: Seq<char>) -> Seq<LaunchCall> {
    seq![
        LaunchCall::TaskMessage(uid3, vstd::utf8::encode_utf8(url_command(url))),
        LaunchCall::LaunchDoc(uid3, url, LaunchDoc::BrowserTail),
        LaunchCall::LaunchDoc(uid3, url_command(url), LaunchDoc::DocumentName),
        LaunchCall::LaunchDoc(uid3, url_command(url), LaunchDoc::StartDocument),
        LaunchCall::LaunchDoc(uid3, url, LaunchDoc::Resolve),
        LaunchCall::Launch(uid3),
    ]
}

/// The answers a route search got, in order: every one refused but the last, which is the
/// first acceptance, or the plain launch's answer when all five hand-offs were refused.
pub open spec fn searched(answers: Seq<Result<()>>) -> bool {
    &&& 1 <= answers.len() <= 6
    &&& forall|j: int| 0 <= j < answers.len() - 1 ==> #[trigger] answers[j] is Err
    &&& answers.len() < 6 ==> answers.last() is Ok
}

/// A search that tried the first `k` routes for `url`: those requests were made, in order,
/// their answers are `answers`, and the search stopped where [`searched`] says, with the last
/// answer as its result.
pub open spec fn tried(
    calls: Seq<LaunchCall>,
    answers: Seq<Result<()>>,
    uid3: u32,
    url: Seq<char>,
    k: int,
    r: Result<()>,
) -> bool {
    &&& 1 <= k <= 6
    &&& answers.len() == k
    &&& searched(answers)
    &&& r == answers.last()
    &&& calls == url_routes(uid3, url).take(k)
}

/// Ask `uid3` to open `url`, by whichever convention this firmware honours: each route in
/// turn until one is accepted. `Ok` means something accepted it, not that the address opened.
/// On success this steps aside, because what the application puts in front of the user
/// arrives behind whatever is already there; a failed hand-off keeps the screen.
pub fn open_at<L: Launcher>(l: &mut L, uid3: u32, url: &str) -> (r: Result<()>)
    ensures
        final(l).calls().subrange(0, old(l).calls().len() as int) == old(l).calls(),
        final(l).replies().subrange(0, old(l).replies().len() as int) == old(l).replies(),
        exists|k: int|
            #[trigger] tried(
                final(l).calls().subrange(old(l).calls().len() as int, old(l).calls().len() + k),
                final(l).replies().subrange(old(l).replies().len() as int, old(l).replies().len() + k),
                uid3,
                url@,
                k,
                r,
            ) && final(l).calls().len() == old(l).calls().len() + k + (if r is Ok {
                1int
            } else {
                0int
            }) && (r is Ok ==> final(l).calls().last() == LaunchCall::ToBackground)
                && final(l).replies().len() == final(l).calls().len() - old(l).calls().len()
                + old(l).replies().len(),
{
    let mut cmd = owned("4 ");
    push_str(&mut cmd, url);
    proof {
        reveal_strlit("4 ");
        assert(cmd@ =~= url_command(url@));
    }
    let ghost c0 = l.calls();
    let ghost r0 = l.replies();
    let accepted = accept_url(l, uid3, url, cmd.as_str());
    let ghost c1 = l.calls();
    let ghost r1 = l.replies();
    if accepted.is_ok() {
        // Whether the step aside works says nothing about whether the address opened.
        let _ = l.to_background();
    }
    proof {
        let k = (c1.len() - c0.len()) as int;
        assert(tried(
            c1.subrange(c0.len() as int, c0.len() + k),
            r1.subrange(r0.len() as int, r0.len() + k),
            uid3,
            url@,
            k,
            accepted,
        ));
        assert(l.calls().subrange(c0.len() as int, c0.len() + k) =~= c1.subrange(
            c0.len() as int,
            c0.len() + k,
        ));
        assert(l.replies().subrange(r0.len() as int, r0.len() + k) =~= r1.subrange(
            r0.len() as int,
            r0.len() + k,
        ));
        assert(l.calls().subrange(0, c0.len() as int) =~= c1.subrange(0, c0.len() as int));
        assert(l.replies().subrange(0, r0.len() as int) =~= r1.subrange(0, r0.len() as int));
    }
    accepted
}

fn accept_url<L: Launcher>(l: &mut L, uid3: u32, url: &str, cmd: &str) -> (r: Result<()>)
    requires
        cmd@ == url_command(url@),
    ensures
        final(l).calls().subrange(0, old(l).calls().len() as int) == old(l).calls(),
        final(l).replies().subrange(0, old(l).replies().len() as int) == old(l).replies(),
        tried(
            final(l).calls().subrange(old(l).calls().len() as int, final(l).calls().len() as int),
            final(l).replies().subrange(old(l).replies().len() as int, final(l).replies().len() as int),
            uid3,
            url@,
            final(l).calls().len() - old(l).calls().len(),
            r,
        ),
        final(l).replies().len() - old(l).replies().len() == final(l).calls().len() - old(l).calls().len(),
{
    let ghost c0 = l.calls();
    let ghost r0 = l.replies();
    let ghost n = r0.len() as int;
    let ghost m = c0.len() as int;
    let ghost routes = url_routes(uid3, url@);
    let a1 = l.task_message(uid3, cmd.as_bytes());
    proof {
        assert(l.replies().subrange(n, n + 1) =~= seq![a1]);
        assert(l.replies().subrange(0, n) =~= r0);
        assert(l.calls().subrange(m, m + 1) =~= routes.take(1));
        assert(l.calls().subrange(0, m) =~= c0);
    }
    if a1.is_ok() {
        return a1;
    }
    let a2 = l.launch_doc(uid3, url, LaunchDoc::BrowserTail);
    proof {
        assert(l.replies().subrange(n, n + 2) =~= seq![a1, a2]);
        assert(l.replies().subrange(0, n) =~= r0);
        assert(l.calls().subrange(m, m + 2) =~= routes.take(2));
        assert(l.calls().subrange(0, m) =~= c0);
    }
    if a2.is_ok() {
        return a2;
    }
    let a3 = l.launch_doc(uid3, cmd, LaunchDoc::DocumentName);
    proof {
        assert(l.replies().subrange(n, n + 3) =~= seq![a1, a2, a3]);
        assert(l.replies().subrange(0, n) =~= r0);
        assert(l.calls().subrange(m, m + 3) =~= routes.take(3));
        assert(l.calls().subrange(0, m) =~= c0);
    }
    if a3.is_ok() {
        return a3;
    }
    let a4 = l.launch_doc(uid3, cmd, LaunchDoc::StartDocument);
    proof {
        assert(l.replies().subrange(n, n + 4) =~= seq![a1, a2, a3, a4]);
        assert(l.replies().subrange(0, n) =~= r0);
        assert(l.calls().subrange(m, m + 4) =~= routes.take(4));
        assert(l.calls().subrange(0, m) =~= c0);
    }
    if a4.is_ok() {
        return a4;
    }
    let a5 = l.launch_doc(uid3, url, LaunchDoc::Resolve);
    proof {
        assert(l.replies().subrange(n, n + 5) =~= seq![a1, a2, a3, a4, a5]);
        assert(l.replies().subrange(0, n) =~= r0);
        assert(l.calls().subrange(m, m + 5) =~= routes.take(5));
        assert(l.calls().subrange(0, m) =~= c0);
    }
    if a5.is_ok() {
        return a5;
    }
    let r = l.launch(uid3);
    proof {
        assert(l.replies().subrange(n, n + 6) =~= seq![a1, a2, a3, a4, a5, r]);
        assert(l.replies().subrange(0, n) =~= r0);
        assert(l.calls().subrange(m, m + 6) =~= routes.take(6));
        assert(l.calls().subrange(0, m) =~= c0);
    }
    r
}


// ------------------------------------------------------------------- ordering --

/// What `str::to_lowercase` makes of a text.
pub uninterp spec fn lowercase(s: Seq<char>) -> Seq<char>;

/// A text in lower case, by Unicode's full case mapping. `str::to_lowercase`; its result is
/// named, not stated.
#[verifier::external_body]
pub(crate) fn to_lowercase(s: &str) -> (r: String)
    ensures
        r@ == lowercase(s@),
{
    s.to_lowercase()
}

/// `a` sorts no later than `b`, character by character: the order of `String`s, since UTF-8
/// keeps code points in order.
pub open spec fn text_le(a: Seq<char>, b: Seq<char>) -> bool
    decreases a.len(),
{
    if a.len() == 0 {
        true
    } else if b.len() == 0 {
        false
    } else if (a[0] as u32) < (b[0] as u32) {
        true
    } else if (a[0] as u32) > (b[0] as u32) {
        false
    } else {
        text_le(a.drop_first(), b.drop_first())
    }
}

/// An application as the ordering sees it: its caption in lower case, then the rest.
pub type AppView = (Seq<char>, u32, Seq<char>, bool, bool);

pub open spec fn app_view(a: AppInfo) -> AppView {
    (lowercase(a.caption@), a.uid3, a.caption@, a.hidden, a.system)
}

pub open spec fn app_views(s: Seq<AppInfo>) -> Seq<AppView> {
    s.map_values(|a: AppInfo| app_view(a))
}

/// Where `x` goes in a sorted `s` so that it lands after everything whose caption sorts no
/// later than its own.
pub open spec fn app_slot(s: Seq<AppView>, x: AppView) -> int
    decreases s.len(),
{
    if s.len() == 0 {
        0
    } else if text_le(s[0].0, x.0) {
        1 + app_slot(s.drop_first(), x)
    } else {
        0
    }
}

/// The stable sort of `s` by lower-cased caption: equal captions keep the order they came in.
pub open spec fn by_caption(s: Seq<AppView>) -> Seq<AppView>
    decreases s.len(),
{
    if s.len() == 0 {
        s
    } else {
        let r = by_caption(s.drop_last());
        r.insert(app_slot(r, s.last()), s.last())
    }
}

/// `s` in order by lower-cased caption.
pub open spec fn caption_sorted(s: Seq<AppView>) -> bool {
    forall|i: int, j: int| 0 <= i < j < s.len() ==> text_le(s[i].0, s[j].0)
}

/// Any two texts are ordered one way or the other.
pub proof fn lemma_text_total(a: Seq<char>, b: Seq<char>)
    ensures
        text_le(a, b) || text_le(b, a),
    decreases a.len(),
{
    if a.len() > 0 && b.len() > 0 && a[0] as u32 == b[0] as u32 {
        lemma_text_total(a.drop_first(), b.drop_first());
    }
}

/// The order is transitive.
pub proof fn lemma_text_trans(a: Seq<char>, b: Seq<char>, c: Seq<char>)
    requires
        text_le(a, b),
        text_le(b, c),
    ensures
        text_le(a, c),
    decreases a.len(),
{
    if a.len() > 0 && b.len() > 0 && c.len() > 0 && a[0] as u32 == b[0] as u32 && b[0] as u32
        == c[0] as u32 {
        lemma_text_trans(a.drop_first(), b.drop_first(), c.drop_first());
    }
}

proof fn lemma_app_slot(s: Seq<AppView>, x: AppView)
    requires
        caption_sorted(s),
    ensures
        0 <= app_slot(s, x) <= s.len(),
        forall|i: int| 0 <= i < app_slot(s, x) ==> text_le((#[trigger] s[i]).0, x.0),
        app_slot(s, x) < s.len() ==> !text_le(s[app_slot(s, x)].0, x.0),
    decreases s.len(),
{
    if s.len() > 0 {
        let t = s.drop_first();
        assert(caption_sorted(t)) by {
            assert forall|i: int, j: int| 0 <= i < j < t.len() implies text_le(t[i].0, t[j].0) by {
                assert(t[i] == s[i + 1] && t[j] == s[j + 1]);
            }
        }
        lemma_app_slot(t, x);
        if text_le(s[0].0, x.0) {
            assert forall|i: int| 0 <= i < app_slot(s, x) implies text_le((#[trigger] s[i]).0, x.0) by {
                if i > 0 {
                    assert(s[i] == t[i - 1]);
                }
            }
            if app_slot(s, x) < s.len() {
                assert(s[app_slot(s, x)] == t[app_slot(t, x)]);
            }
        }
    }
}

/// Sorting by caption puts the list in order, keeps every application exactly once, and
/// keeps its length.
pub proof fn lemma_by_caption(s: Seq<AppView>)
    ensures
        caption_sorted(by_caption(s)),
        by_caption(s).to_multiset() == s.to_multiset(),
        by_caption(s).len() == s.len(),
    decreases s.len(),
{
    broadcast use vstd::seq_lib::group_to_multiset_ensures;

    if s.len() > 0 {
        let d = s.drop_last();
        let x = s.last();
        lemma_by_caption(d);
        let r = by_caption(d);
        lemma_app_slot(r, x);
        let p = app_slot(r, x);
        let out = r.insert(p, x);
        assert(caption_sorted(out)) by {
            assert forall|i: int, j: int| 0 <= i < j < out.len() implies text_le(out[i].0, out[j].0) by {
                if j < p {
                    assert(out[i] == r[i] && out[j] == r[j]);
                } else if j == p {
                    assert(out[i] == r[i]);
                } else if i == p {
                    assert(out[j] == r[j - 1]);
                    lemma_text_total(r[p].0, x.0);
                    if p < j - 1 {
                        lemma_text_trans(x.0, r[p].0, r[j - 1].0);
                    }
                } else if i < p {
                    assert(out[i] == r[i] && out[j] == r[j - 1]);
                } else {
                    assert(out[i] == r[i - 1] && out[j] == r[j - 1]);
                }
            }
        }
        r.insert_ensures(p, x);
        assert(s =~= d.push(x));
        vstd::seq_lib::to_multiset_build(d, x);
        vstd::seq_lib::to_multiset_insert(r, p, x);
    }
}

fn text_le_exec(a: &Vec<char>, b: &Vec<char>) -> (r: bool)
    ensures
        r == text_le(a@, b@),
{
    let mut i: usize = 0;
    assert(a@.subrange(0, a@.len() as int) =~= a@);
    assert(b@.subrange(0, b@.len() as int) =~= b@);
    while i < a.len()
        invariant
            i <= a@.len(),
            i <= b@.len(),
            text_le(a@, b@) == text_le(a@.subrange(i as int, a@.len() as int), b@.subrange(
                i as int,
                b@.len() as int,
            )),
        decreases a@.len() - i,
    {
        let ghost ta = a@.subrange(i as int, a@.len() as int);
        let ghost tb = b@.subrange(i as int, b@.len() as int);
        if i >= b.len() {
            return false;
        }
        let x = a[i] as u32;
        let y = b[i] as u32;
        proof {
            assert(ta[0] == a@[i as int] && tb[0] == b@[i as int]);
        }
        if x < y {
            return true;
        }
        if x > y {
            return false;
        }
        proof {
            assert(ta.drop_first() =~= a@.subrange(i + 1, a@.len() as int));
            assert(tb.drop_first() =~= b@.subrange(i + 1, b@.len() as int));
        }
        i = i + 1;
    }
    true
}

/// `a` as it sorts under `key`.
pub open spec fn keyed_view(a: AppInfo, key: Seq<char>) -> AppView {
    (key, a.uid3, a.caption@, a.hidden, a.system)
}

/// Each application with its key, in order.
pub open spec fn keyed_views(apps: Seq<AppInfo>, keys: Seq<Vec<char>>) -> Seq<AppView> {
    Seq::new(apps.len(), |i: int| keyed_view(apps[i], keys[i]@))
}

/// Sort applications by the key beside each, stably: a key that sorts no later than another
/// keeps its application in front, and equal keys keep their order. The keys come back in
/// the same order as their applications.
pub fn sort_by_keys(apps: Vec<AppInfo>, keys: Vec<Vec<char>>) -> (r: (Vec<AppInfo>, Vec<Vec<char>>))
    requires
        apps@.len() == keys@.len(),
    ensures
        r.0@.len() == r.1@.len(),
        keyed_views(r.0@, r.1@) == by_caption(keyed_views(apps@, keys@)),
{
    let ghost m = keyed_views(apps@, keys@);
    let mut out: Vec<AppInfo> = Vec::new();
    let mut out_keys: Vec<Vec<char>> = Vec::new();
    let mut rest = apps;
    let mut rest_keys = keys;
    let n = rest.len();
    let mut i: usize = 0;
    proof {
        assert(m.take(0) =~= Seq::<AppView>::empty());
        assert(keyed_views(out@, out_keys@) =~= Seq::<AppView>::empty());
        assert(keyed_views(rest@, rest_keys@) =~= m.subrange(0, n as int));
    }
    while i < n
        invariant
            n == m.len(),
            i <= n,
            rest@.len() == n - i,
            rest_keys@.len() == n - i,
            keyed_views(rest@, rest_keys@) == m.subrange(i as int, n as int),
            out@.len() == out_keys@.len(),
            keyed_views(out@, out_keys@) == by_caption(m.take(i as int)),
        decreases n - i,
    {
        let ghost r0 = rest@;
        let ghost k0 = rest_keys@;
        let x = rest.remove(0);
        let xk = rest_keys.remove(0);
        let ghost xv = keyed_view(x, xk@);
        proof {
            assert(keyed_views(r0, k0)[0] == xv);
            assert(m.subrange(i as int, n as int)[0] == m[i as int]);
            assert(xv == m[i as int]);
            assert(keyed_views(rest@, rest_keys@) =~= m.subrange(i + 1, n as int)) by {
                assert forall|k: int| 0 <= k < rest@.len() implies #[trigger] keyed_views(
                    rest@,
                    rest_keys@,
                )[k] == m.subrange(i + 1, n as int)[k] by {
                    assert(rest@[k] == r0[k + 1]);
                    assert(rest_keys@[k] == k0[k + 1]);
                    assert(keyed_views(r0, k0)[k + 1] == m.subrange(i as int, n as int)[k + 1]);
                }
            }
        }
        let ghost s = keyed_views(out@, out_keys@);
        let mut pos: usize = 0;
        assert(s.subrange(0, s.len() as int) =~= s);
        while pos < out.len() && text_le_exec(&out_keys[pos], &xk)
            invariant
                keyed_views(out@, out_keys@) == s,
                out@.len() == out_keys@.len(),
                pos <= out@.len(),
                app_slot(s, xv) == pos + app_slot(s.subrange(pos as int, s.len() as int), xv),
                xv.0 == xk@,
            decreases out@.len() - pos,
        {
            proof {
                let t = s.subrange(pos as int, s.len() as int);
                assert(t.drop_first() =~= s.subrange(pos + 1, s.len() as int));
                assert(t[0] == s[pos as int]);
                assert(s[pos as int].0 == out_keys@[pos as int]@);
            }
            pos = pos + 1;
        }
        proof {
            let t = s.subrange(pos as int, s.len() as int);
            if pos < out.len() {
                assert(t[0] == s[pos as int]);
                assert(s[pos as int].0 == out_keys@[pos as int]@);
            }
            assert(m.take(i + 1).drop_last() =~= m.take(i as int));
            assert(m.take(i + 1).last() == m[i as int]);
        }
        let ghost ob = out@;
        let ghost kb = out_keys@;
        out.insert(pos, x);
        out_keys.insert(pos, xk);
        proof {
            assert(keyed_views(out@, out_keys@) =~= s.insert(pos as int, m[i as int])) by {
                assert forall|k: int| 0 <= k < out@.len() implies #[trigger] keyed_views(
                    out@,
                    out_keys@,
                )[k] == s.insert(pos as int, m[i as int])[k] by {
                    if k < pos {
                        assert(out@[k] == ob[k] && out_keys@[k] == kb[k]);
                    } else if k > pos {
                        assert(out@[k] == ob[k - 1] && out_keys@[k] == kb[k - 1]);
                    }
                }
            }
        }
        i = i + 1;
    }
    proof {
        assert(m.take(n as int) =~= m);
    }
    (out, out_keys)
}

/// Sorting keeps every key beside its caption's lower case, when every key started so.
proof fn lemma_by_caption_keeps_keys(s: Seq<AppView>)
    requires
        forall|k: int| 0 <= k < s.len() ==> (#[trigger] s[k]).0 == lowercase(s[k].2),
    ensures
        forall|k: int| 0 <= k < by_caption(s).len() ==> (#[trigger] by_caption(s)[k]).0 == lowercase(
            by_caption(s)[k].2,
        ),
{
    broadcast use vstd::seq_lib::group_to_multiset_ensures;

    lemma_by_caption(s);
    let b = by_caption(s);
    assert forall|k: int| 0 <= k < b.len() implies (#[trigger] b[k]).0 == lowercase(b[k].2) by {
        assert(b.contains(b[k]));
        assert(s.to_multiset().count(b[k]) > 0);
        assert(s.contains(b[k]));
        let j = choose|j: int| 0 <= j < s.len() && s[j] == b[k];
        assert(s[j].0 == lowercase(s[j].2));
    }
}

/// The installed applications in one stable order for every consumer: case-insensitive by
/// caption, as a user expects a program list to read, equal captions in registry order.
pub fn sort_apps(apps: Vec<AppInfo>) -> (r: Vec<AppInfo>)
    ensures
        app_views(r@) == by_caption(app_views(apps@)),
{
    let mut keys: Vec<Vec<char>> = Vec::new();
    let mut i: usize = 0;
    while i < apps.len()
        invariant
            i <= apps@.len(),
            keys@.len() == i,
            forall|k: int| 0 <= k < i ==> (#[trigger] keys@[k])@ == lowercase(apps@[k].caption@),
        decreases apps@.len() - i,
    {
        keys.push(chars_of(to_lowercase(apps[i].caption.as_str()).as_str()));
        i = i + 1;
    }
    let ghost before = apps@;
    proof {
        assert(keyed_views(before, keys@) =~= app_views(before));
    }
    let (sorted, sorted_keys) = sort_by_keys(apps, keys);
    proof {
        let b = by_caption(app_views(before));
        lemma_by_caption(app_views(before));
        lemma_by_caption_keeps_keys(app_views(before));
        assert(app_views(sorted@) =~= b) by {
            assert forall|k: int| 0 <= k < sorted@.len() implies #[trigger] app_views(sorted@)[k]
                == b[k] by {
                assert(keyed_views(sorted@, sorted_keys@)[k] == b[k]);
            }
        }
    }
    sorted
}

} // verus!
