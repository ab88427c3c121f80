//! Which application opens which kind of link, as the user set it.
//!
//! The launcher *writes* this file, from its Settings screen; any application may need to
//! *read* it — a chat client deciding what to do with a link is the case this was built for.
//! Two parties, neither depending on the other, so the format belongs to the SDK they share.
//!
//! Which applications are worth offering, and how they are matched, stays in the launcher:
//! this module knows only how a choice is written down.

use vstd::prelude::*;
use vstd::string::StringSliceAdditionalSpecFns;
use vstd::utf8::*;

use crate::codec::{get_u32, le32, push_bytes, push_char, push_u32, read32, string_from_utf8};
use crate::fs::{self, lemma_utf16_len, readable, utf16, Fs, Utf16Path};

verus! {

broadcast use {vstd::seq::group_seq_axioms, vstd::slice::group_slice_axioms};

/// The schemes the registry knows how to route. A fixed list: the Settings screen shows a row
/// per scheme, and its shape must not depend on message history.
pub const SCHEMES: [&'static str; 4] = ["http", "https", "mailto", "tg"];

/// The platform's own web browser: what the phone would do when no registry exists.
pub const NATIVE_BROWSER: u32 = 0x1000_8D39;

/// Where the launcher keeps it.
pub const FILE: &'static str = "C:\\Data\\launcher\\defaults.dat";

/// The longest scheme a record carries, in bytes.
pub const MAX_SCHEME: usize = 16;

/// A character with ASCII capitals made small, and everything else left alone.
pub open spec fn ascii_lower(c: char) -> char {
    if 'A' <= c <= 'Z' {
        ((c as u32) + 32) as char
    } else {
        c
    }
}

/// A string with ASCII capitals made small.
pub open spec fn lower(s: Seq<char>) -> Seq<char> {
    s.map_values(|c: char| ascii_lower(c))
}

/// `s` written in ASCII lower case.
pub fn to_ascii_lowercase(s: &str) -> (r: String)
    ensures
        r@ == lower(s@),
{
    let mut out = String::new();
    broadcast use vstd::string::axiom_spec_iter;
    for c in it: s.chars()
        invariant
            it.seq() == s@,
            out@ == lower(s@.take(it.index() as int)),
    {
        let l = if 'A' <= c && c <= 'Z' {
            ((c as u8) + 32) as char
        } else {
            c
        };
        proof {
            assert(s@.take(it.index() + 1) =~= s@.take(it.index() as int).push(c));
        }
        push_char(&mut out, l);
        proof {
            assert(out@ =~= lower(s@.take(it.index() + 1)));
        }
    }
    assert(s@.take(s@.len() as int) =~= s@);
    out
}

/// One choice: a scheme, and the application (by UID3) that opens it.
pub type Choice = (Seq<char>, u32);

/// Whether a choice is for some scheme other than `key`.
pub open spec fn not_key(key: Seq<char>) -> spec_fn(Choice) -> bool {
    |c: Choice| c.0 != key
}

/// The choices for every scheme except `key`, in order.
pub open spec fn without(m: Seq<Choice>, key: Seq<char>) -> Seq<Choice> {
    m.filter(not_key(key))
}

/// What [`Defaults::set`] makes of a registry.
pub open spec fn set_spec(m: Seq<Choice>, scheme: Seq<char>, uid: Option<u32>) -> Seq<Choice> {
    let w = without(m, lower(scheme));
    match uid {
        Some(u) => w.push((lower(scheme), u)),
        None => w,
    }
}

/// The application registered for `key`, if any.
pub open spec fn lookup(m: Seq<Choice>, key: Seq<char>) -> Option<u32>
    decreases m.len(),
{
    if m.len() == 0 {
        None
    } else if m.last().0 == key {
        Some(m.last().1)
    } else {
        lookup(m.drop_last(), key)
    }
}

/// Every scheme stored in lower case, and none twice.
pub open spec fn registry_ok(m: Seq<Choice>) -> bool {
    &&& forall|i: int| 0 <= i < m.len() ==> lower(#[trigger] m[i].0) == m[i].0
    &&& forall|i: int, j: int| 0 <= i < j < m.len() ==> #[trigger] m[i].0 != #[trigger] m[j].0
}

/// Scheme-to-application, as the user set it.
#[derive(Debug, PartialEq, Eq)]
pub struct Defaults {
    entries: Vec<(String, u32)>,
}

impl View for Defaults {
    type V = Seq<Choice>;

    closed spec fn view(&self) -> Seq<Choice> {
        self.entries@.map_values(|e: (String, u32)| (e.0@, e.1))
    }
}

impl Clone for Defaults {
    fn clone(&self) -> (r: Self)
        ensures
            r@ == self@,
    {
        proof {
            use_type_invariant(self);
        }
        let mut entries: Vec<(String, u32)> = Vec::new();
        let mut i: usize = 0;
        while i < self.entries.len()
            invariant
                i <= self.entries@.len(),
                entries@.len() == i,
                forall|k: int| 0 <= k < i ==> (#[trigger] entries@[k]).0@ == self.entries@[k].0@
                    && entries@[k].1 == self.entries@[k].1,
            decreases self.entries@.len() - i,
        {
            entries.push((self.entries[i].0.clone(), self.entries[i].1));
            i = i + 1;
        }
        assert(entries@.map_values(|e: (String, u32)| (e.0@, e.1)) =~= self@);
        Defaults { entries }
    }
}

impl Default for Defaults {
    fn default() -> (r: Self)
        ensures
            r@ == Seq::<Choice>::empty(),
    {
        Defaults::new()
    }
}

proof fn lemma_lower_idempotent(s: Seq<char>)
    ensures
        lower(lower(s)) == lower(s),
{
    assert(lower(lower(s)) =~= lower(s));
}

impl Defaults {
    #[verifier::type_invariant]
    closed spec fn tidy(self) -> bool {
        registry_ok(self@)
    }

    pub fn new() -> (r: Self)
        ensures
            r@ == Seq::<Choice>::empty(),
    {
        let r = Defaults { entries: Vec::new() };
        assert(r@ =~= Seq::<Choice>::empty());
        r
    }

    /// Which application opens `scheme`, if the user has said. Matched without regard to
    /// ASCII case, because a hand-edited file might not be lower case.
    pub fn get(&self, scheme: &str) -> (r: Option<u32>)
        ensures
            r == lookup(self@, lower(scheme@)),
    {
        let key = to_ascii_lowercase(scheme);
        let ghost m = self@;
        let mut i = self.entries.len();
        assert(m.take(i as int) =~= m);
        while i > 0
            invariant
                i <= self.entries@.len(),
                m == self@,
                key@ == lower(scheme@),
                lookup(m, key@) == lookup(m.take(i as int), key@),
            decreases i,
        {
            let e = &self.entries[i - 1];
            proof {
                assert(m.take(i as int).drop_last() =~= m.take(i - 1));
                assert(m.take(i as int).last() == (e.0@, e.1));
            }
            if e.0 == key {
                assert(m.take(i as int).last().0 == key@);
                assert(lookup(m.take(i as int), key@) == Some(e.1));
                return Some(e.1);
            }
            i = i - 1;
        }
        assert(m.take(0) =~= Seq::<Choice>::empty());
        None
    }

    /// Set, replace, or — with `None` — clear the handler for `scheme`.
    pub fn set(&mut self, scheme: &str, uid3: Option<u32>)
        ensures
            final(self)@ == set_spec(old(self)@, scheme@, uid3),
            registry_ok(final(self)@),
            forall|q: Seq<char>|
                #[trigger] lookup(final(self)@, lower(q)) == if lower(q) == lower(scheme@) {
                    uid3
                } else {
                    lookup(old(self)@, lower(q))
                },
    {
        proof {
            use_type_invariant(&*self);
            assert forall|q: Seq<char>|
                #[trigger] lookup(set_spec(self@, scheme@, uid3), lower(q)) == if lower(q) == lower(
                    scheme@,
                ) {
                    uid3
                } else {
                    lookup(self@, lower(q))
                } by {
                lemma_set_then_get(self@, scheme@, uid3, q);
            }
            lemma_set_then_get(self@, scheme@, uid3, scheme@);
        }
        let key = to_ascii_lowercase(scheme);
        let ghost m = self@;
        let ghost p = not_key(key@);
        let mut kept: Vec<(String, u32)> = Vec::new();
        let mut i: usize = 0;
        proof {
            reveal(Seq::filter);
            assert(m.take(0).filter(p) =~= Seq::<Choice>::empty());
            assert(kept@.map_values(|e: (String, u32)| (e.0@, e.1)) =~= Seq::<Choice>::empty());
        }
        while i < self.entries.len()
            invariant
                i <= self.entries@.len(),
                m == self@,
                registry_ok(m),
                p == not_key(key@),
                kept@.map_values(|e: (String, u32)| (e.0@, e.1)) == m.take(i as int).filter(p),
            decreases self.entries@.len() - i,
        {
            let e = &self.entries[i];
            let ghost c = m[i as int];
            proof {
                assert(c == (e.0@, e.1));
                assert(m.take(i + 1) =~= m.take(i as int).push(c));
                m.take(i as int).lemma_filter_push(c, p);
            }
            if e.0 != key {
                let ghost k0 = kept@.map_values(|e: (String, u32)| (e.0@, e.1));
                kept.push((e.0.clone(), e.1));
                assert(kept@.map_values(|e: (String, u32)| (e.0@, e.1)) =~= k0.push(c));
            }
            i = i + 1;
        }
        proof {
            assert(m.take(m.len() as int) =~= m);
            lemma_registry_without(m, key@);
            lemma_lower_idempotent(scheme@);
        }
        let ghost w = kept@.map_values(|e: (String, u32)| (e.0@, e.1));
        if let Some(uid) = uid3 {
            kept.push((key, uid));
            proof {
                assert(kept@.map_values(|e: (String, u32)| (e.0@, e.1)) =~= w.push(
                    (lower(scheme@), uid),
                ));
                lemma_registry_push(w, lower(scheme@), uid);
            }
        }
        self.entries = kept;
    }

    pub fn is_empty(&self) -> (r: bool)
        ensures
            r == (self@.len() == 0),
    {
        self.entries.len() == 0
    }
}

proof fn lemma_registry_without(m: Seq<Choice>, key: Seq<char>)
    requires
        registry_ok(m),
    ensures
        registry_ok(without(m, key)),
        forall|i: int| 0 <= i < without(m, key).len() ==> #[trigger] without(m, key)[i].0 != key,
{
    broadcast use vstd::seq_lib::group_filter_ensures;

    let p = not_key(key);
    let w = without(m, key);
    assert forall|i: int| 0 <= i < w.len() implies lower(#[trigger] w[i].0) == w[i].0 by {
        assert(w.contains(w[i]));
        m.lemma_filter_contains_rev(p, w[i]);
    }
    lemma_filter_unique(m, p);
}

proof fn lemma_filter_unique(m: Seq<Choice>, p: spec_fn(Choice) -> bool)
    requires
        forall|i: int, j: int| 0 <= i < j < m.len() ==> #[trigger] m[i].0 != #[trigger] m[j].0,
    ensures
        forall|i: int, j: int|
            0 <= i < j < m.filter(p).len() ==> #[trigger] m.filter(p)[i].0 != #[trigger] m.filter(
                p,
            )[j].0,
    decreases m.len(),
{
    reveal(Seq::filter);
    if m.len() > 0 {
        let d = m.drop_last();
        lemma_filter_unique(d, p);
        let f = m.filter(p);
        let fd = d.filter(p);
        if p(m.last()) {
            assert forall|i: int, j: int| 0 <= i < j < f.len() implies #[trigger] f[i].0
                != #[trigger] f[j].0 by {
                if j == f.len() - 1 {
                    assert(fd.contains(f[i]));
                    d.lemma_filter_contains_rev(p, f[i]);
                    let k = choose|k: int| 0 <= k < d.len() && d[k] == f[i];
                    assert(m[k] == d[k]);
                } else {
                    assert(f[i] == fd[i] && f[j] == fd[j]);
                }
            }
        }
    }
}

proof fn lemma_registry_push(w: Seq<Choice>, key: Seq<char>, uid: u32)
    requires
        registry_ok(w),
        lower(key) == key,
        forall|i: int| 0 <= i < w.len() ==> #[trigger] w[i].0 != key,
    ensures
        registry_ok(w.push((key, uid))),
{
    let n = w.push((key, uid));
    assert forall|i: int| 0 <= i < n.len() implies lower(#[trigger] n[i].0) == n[i].0 by {
        if i < w.len() {
            assert(n[i] == w[i]);
        }
    }
    assert forall|i: int, j: int| 0 <= i < j < n.len() implies #[trigger] n[i].0
        != #[trigger] n[j].0 by {
        assert(n[i] == w[i]);
        if j < w.len() {
            assert(n[j] == w[j]);
        }
    }
}

/// Whether a choice's scheme fits a record: one to [`MAX_SCHEME`] bytes.
pub open spec fn fits(c: Choice) -> bool {
    1 <= encode_utf8(c.0).len() <= MAX_SCHEME
}

/// One record: the scheme's length, its bytes, and four bytes of UID.
pub open spec fn record(c: Choice) -> Seq<u8> {
    seq![encode_utf8(c.0).len() as u8] + encode_utf8(c.0) + le32(c.1)
}

/// What [`Defaults::encode`] writes: a record for each choice whose scheme fits, in order.
pub open spec fn encode_spec(m: Seq<Choice>) -> Seq<u8>
    decreases m.len(),
{
    if m.len() == 0 {
        Seq::empty()
    } else {
        encode_spec(m.drop_last()) + if fits(m.last()) {
            record(m.last())
        } else {
            Seq::empty()
        }
    }
}

/// The records at the front of `b`, up to the first that is short, empty, too long or not
/// text: a damaged tail is dropped rather than refused.
pub open spec fn records(b: Seq<u8>) -> Seq<Choice>
    decreases b.len(),
{
    if b.len() == 0 {
        Seq::empty()
    } else {
        let n = b[0] as int;
        if n == 0 || n > MAX_SCHEME || 1 + n + 4 > b.len() || !valid_utf8(b.subrange(1, 1 + n)) {
            Seq::empty()
        } else {
            seq![(decode_utf8(b.subrange(1, 1 + n)), read32(b, 1 + n))] + records(
                b.subrange(1 + n + 4, b.len() as int),
            )
        }
    }
}

/// Each record in turn applied to `m` as [`Defaults::set`] would.
pub open spec fn replay(m: Seq<Choice>, rs: Seq<Choice>) -> Seq<Choice>
    decreases rs.len(),
{
    if rs.len() == 0 {
        m
    } else {
        replay(set_spec(m, rs[0].0, Some(rs[0].1)), rs.drop_first())
    }
}

/// What [`Defaults::decode`] makes of a blob.
pub open spec fn decode_spec(b: Seq<u8>) -> Seq<Choice> {
    replay(Seq::empty(), records(b))
}

impl Defaults {
    /// Serialise for `C:\Data\launcher\defaults.dat`. A scheme that is empty or longer than
    /// [`MAX_SCHEME`] bytes is left out.
    pub fn encode(&self) -> (r: Vec<u8>)
        ensures
            r@ == encode_spec(self@),
    {
        let ghost m = self@;
        let mut out: Vec<u8> = Vec::new();
        let mut i: usize = 0;
        while i < self.entries.len()
            invariant
                i <= self.entries@.len(),
                m == self@,
                out@ == encode_spec(m.take(i as int)),
            decreases self.entries@.len() - i,
        {
            let e = &self.entries[i];
            let bytes = e.0.as_str().as_bytes();
            let n = bytes.len();
            proof {
                assert(m.take(i + 1).drop_last() =~= m.take(i as int));
                assert(m.take(i + 1).last() == (e.0@, e.1));
            }
            if n > 0 && n <= MAX_SCHEME {
                let ghost before = out@;
                out.push(n as u8);
                push_bytes(&mut out, bytes);
                push_u32(&mut out, e.1);
                assert(out@ =~= before + record((e.0@, e.1)));
            } else {
                assert(out@ =~= out@ + Seq::<u8>::empty());
            }
            i = i + 1;
        }
        assert(m.take(self.entries@.len() as int) =~= m);
        out
    }

    /// Read a blob written by [`Defaults::encode`]. A truncated or corrupt tail is dropped
    /// rather than refused: losing one mapping is better than a launcher that will not start.
    pub fn decode(bytes: &[u8]) -> (r: Self)
        ensures
            r@ == decode_spec(bytes@),
    {
        let ghost b = bytes@;
        let mut me = Defaults::new();
        let mut i: usize = 0;
        assert(b.subrange(0, b.len() as int) =~= b);
        while i < bytes.len()
            invariant
                b == bytes@,
                i <= b.len(),
                replay(me@, records(b.subrange(i as int, b.len() as int))) == decode_spec(b),
            decreases b.len() - i,
        {
            let ghost rest = b.subrange(i as int, b.len() as int);
            let n = bytes[i] as usize;
            let j = i + 1;
            if n == 0 || n > MAX_SCHEME || bytes.len() - j < n + 4 {
                return me;
            }
            let piece = vstd::slice::slice_subrange(bytes, j, j + n);
            let scheme = match crate::codec::utf8_str(piece) {
                Some(s) => s,
                None => {
                    proof {
                        assert(piece@ =~= rest.subrange(1, 1 + n as int));
                    }
                    return me;
                },
            };
            let uid = get_u32(bytes, j + n);
            proof {
                assert(piece@ =~= rest.subrange(1, 1 + n as int));
                lemma_str_view(scheme);
                assert(rest.subrange(1 + n + 4, rest.len() as int) =~= b.subrange(
                    j + n + 4,
                    b.len() as int,
                ));
                assert(read32(rest, 1 + n) == read32(b, j + n));
                let rs = records(rest);
                let tail = records(rest.subrange(1 + n + 4, rest.len() as int));
                assert(rs == seq![(scheme@, uid)] + tail);
                assert(rs[0] == (scheme@, uid));
                assert(rs.drop_first() =~= tail);
            }
            me.set(scheme, Some(uid));
            i = j + n + 4;
        }
        proof {
            assert(b.subrange(i as int, b.len() as int) =~= Seq::<u8>::empty());
        }
        me
    }
}

proof fn lemma_str_view(s: &str)
    ensures
        s@ == decode_utf8(s.spec_bytes()),
{
    encode_utf8_decode_utf8(s@);
}

/// Where the registry lives, as a model.
pub open spec fn defaults_path() -> Seq<u16> {
    utf16(FILE@)
}

/// The registry a file system holds: empty when the file is not there.
pub open spec fn registry_of(files: fs::Files) -> Seq<Choice> {
    if files.contains_key(defaults_path()) {
        decode_spec(files[defaults_path()])
    } else {
        Seq::empty()
    }
}

/// Read the registry from disk, or an empty one when it has never been written — or when
/// the file system fails to hand it over.
pub fn load<F: Fs>(f: &mut F) -> (r: Defaults)
    requires
        old(f).inv(),
    ensures
        final(f).inv(),
        final(f).private_dir() == old(f).private_dir(),
        final(f).files() == old(f).files(),
        final(f).handles() == old(f).handles(),
        r@ == registry_of(old(f).files()) || r@.len() == 0,
        !old(f).files().contains_key(defaults_path()) ==> r@.len() == 0,
        old(f).steady() ==> final(f).steady(),
        final(f).room() + 1 >= old(f).room(),
        old(f).steady() && old(f).room() > 0 && readable(old(f).files(), defaults_path()) ==> r@
            == registry_of(old(f).files()),
{
    proof {
        reveal_strlit("C:\\Data\\launcher\\defaults.dat");
        lemma_utf16_len(FILE@);
    }
    let path = match Utf16Path::new(FILE) {
        Ok(p) => p,
        Err(_) => {
            return Defaults::new();
        },
    };
    match fs::read(f, &path) {
        Ok(Some(bytes)) => Defaults::decode(bytes.as_slice()),
        _ => Defaults::new(),
    }
}

/// A choice once set is what `get` answers for that scheme, in any ASCII case, and every
/// other scheme keeps its answer; the registry stays tidy.
pub proof fn lemma_set_then_get(m: Seq<Choice>, scheme: Seq<char>, uid: Option<u32>, query: Seq<char>)
    requires
        registry_ok(m),
    ensures
        registry_ok(set_spec(m, scheme, uid)),
        lookup(set_spec(m, scheme, uid), lower(query)) == if lower(query) == lower(scheme) {
            uid
        } else {
            lookup(m, lower(query))
        },
{
    lemma_lower_idempotent(scheme);
    lemma_registry_without(m, lower(scheme));
    let w = without(m, lower(scheme));
    if let Some(u) = uid {
        lemma_registry_push(w, lower(scheme), u);
        assert(w.push((lower(scheme), u)).drop_last() =~= w);
    }
    lemma_lookup_without(m, lower(scheme), lower(query));
}

proof fn lemma_lookup_without(m: Seq<Choice>, key: Seq<char>, q: Seq<char>)
    ensures
        lookup(without(m, key), q) == if q == key {
            None
        } else {
            lookup(m, q)
        },
    decreases m.len(),
{
    reveal(Seq::filter);
    if m.len() > 0 {
        let d = m.drop_last();
        lemma_lookup_without(d, key, q);
        let wd = without(d, key);
        if not_key(key)(m.last()) {
            assert(without(m, key) == wd.push(m.last()));
            assert(wd.push(m.last()).drop_last() =~= wd);
        } else {
            assert(without(m, key) == wd);
        }
    }
}

proof fn lemma_encode_front(m: Seq<Choice>)
    requires
        m.len() > 0,
    ensures
        encode_spec(m) == (if fits(m[0]) {
            record(m[0])
        } else {
            Seq::empty()
        }) + encode_spec(m.drop_first()),
    decreases m.len(),
{
    let first = if fits(m[0]) {
        record(m[0])
    } else {
        Seq::<u8>::empty()
    };
    if m.len() == 1 {
        assert(m.drop_last() =~= Seq::<Choice>::empty());
        assert(m.drop_first() =~= Seq::<Choice>::empty());
        assert(encode_spec(m.drop_last()) == Seq::<u8>::empty());
        assert(encode_spec(m.drop_first()) == Seq::<u8>::empty());
        assert(m.last() == m[0]);
        assert(encode_spec(m) =~= first + encode_spec(m.drop_first()));
    } else {
        let d = m.drop_last();
        lemma_encode_front(d);
        assert(d.drop_first() =~= m.drop_first().drop_last());
        assert(m.drop_first().last() == m.last());
        assert(d[0] == m[0]);
        assert(encode_spec(m) =~= first + encode_spec(m.drop_first()));
    }
}

proof fn lemma_records_of_encoding(m: Seq<Choice>)
    ensures
        records(encode_spec(m)) == m.filter(|c: Choice| fits(c)),
    decreases m.len(),
{
    reveal(Seq::filter);
    let p = |c: Choice| fits(c);
    if m.len() > 0 {
        lemma_encode_front(m);
        let rest = m.drop_first();
        lemma_records_of_encoding(rest);
        lemma_filter_front(m, p);
        let c = m[0];
        if fits(c) {
            let k = encode_utf8(c.0);
            let tail = encode_spec(rest);
            let b = record(c) + tail;
            encode_utf8_valid_utf8(c.0);
            encode_utf8_decode_utf8(c.0);
            assert(b =~= encode_spec(m));
            assert(b[0] == k.len() as u8);
            assert(b.subrange(1, 1 + k.len() as int) =~= k);
            assert(b =~= (seq![k.len() as u8] + k) + le32(c.1) + tail);
            crate::codec::lemma_read32_le32(c.1, seq![k.len() as u8] + k, tail);
            assert(b.subrange(1 + k.len() as int + 4, b.len() as int) =~= tail);
        } else {
            assert(encode_spec(m) =~= encode_spec(rest));
        }
    }
}

proof fn lemma_filter_front(m: Seq<Choice>, p: spec_fn(Choice) -> bool)
    requires
        m.len() > 0,
    ensures
        m.filter(p) == if p(m[0]) {
            seq![m[0]] + m.drop_first().filter(p)
        } else {
            m.drop_first().filter(p)
        },
{
    assert(m =~= seq![m[0]] + m.drop_first());
    Seq::filter_distributes_over_add(seq![m[0]], m.drop_first(), p);
    reveal(Seq::filter);
    assert(seq![m[0]].drop_last() =~= Seq::<Choice>::empty());
    assert(Seq::<Choice>::empty().filter(p) =~= Seq::<Choice>::empty());
    if p(m[0]) {
        assert(seq![m[0]].filter(p) =~= seq![m[0]]);
    } else {
        assert(seq![m[0]].filter(p) =~= Seq::<Choice>::empty());
    }
}

proof fn lemma_replay_fresh(acc: Seq<Choice>, rs: Seq<Choice>)
    requires
        registry_ok(acc + rs),
    ensures
        replay(acc, rs) == acc + rs,
    decreases rs.len(),
{
    if rs.len() == 0 {
        assert(acc + rs =~= acc);
    } else {
        let c = rs[0];
        let all = acc + rs;
        assert(all[acc.len() as int] == c);
        assert(lower(c.0) == c.0);
        assert forall|i: int| 0 <= i < acc.len() implies #[trigger] acc[i].0 != c.0 by {
            assert(all[i] == acc[i]);
        }
        lemma_filter_keeps_all(acc, c.0);
        assert(set_spec(acc, c.0, Some(c.1)) =~= acc.push(c));
        assert(acc.push(c) + rs.drop_first() =~= all);
        lemma_replay_fresh(acc.push(c), rs.drop_first());
    }
}

proof fn lemma_filter_keeps_all(m: Seq<Choice>, key: Seq<char>)
    requires
        forall|i: int| 0 <= i < m.len() ==> #[trigger] m[i].0 != key,
    ensures
        without(m, key) == m,
    decreases m.len(),
{
    reveal(Seq::filter);
    if m.len() > 0 {
        lemma_filter_keeps_all(m.drop_last(), key);
        assert(m.drop_last().push(m.last()) =~= m);
    }
}

/// A registry read back from what it wrote is the same registry, less any scheme too long or
/// empty to store.
pub proof fn lemma_defaults_round_trip(m: Seq<Choice>)
    requires
        registry_ok(m),
    ensures
        decode_spec(encode_spec(m)) == m.filter(|c: Choice| fits(c)),
        (forall|i: int| 0 <= i < m.len() ==> fits(#[trigger] m[i])) ==> decode_spec(
            encode_spec(m),
        ) == m,
{
    broadcast use vstd::seq_lib::group_filter_ensures;

    let p = |c: Choice| fits(c);
    let f = m.filter(p);
    lemma_records_of_encoding(m);
    assert(registry_ok(f)) by {
        assert forall|i: int| 0 <= i < f.len() implies lower(#[trigger] f[i].0) == f[i].0 by {
            assert(f.contains(f[i]));
            m.lemma_filter_contains_rev(p, f[i]);
        }
        lemma_filter_unique(m, p);
    }
    assert(Seq::<Choice>::empty() + f =~= f);
    lemma_replay_fresh(Seq::empty(), f);
    if forall|i: int| 0 <= i < m.len() ==> fits(#[trigger] m[i]) {
        lemma_filter_all(m, p);
    }
}

proof fn lemma_filter_all(m: Seq<Choice>, p: spec_fn(Choice) -> bool)
    requires
        forall|i: int| 0 <= i < m.len() ==> p(#[trigger] m[i]),
    ensures
        m.filter(p) == m,
    decreases m.len(),
{
    reveal(Seq::filter);
    if m.len() > 0 {
        lemma_filter_all(m.drop_last(), p);
        assert(m.drop_last().push(m.last()) =~= m);
    }
}

/// The records of a prefix of `b` are a prefix of its records: cutting a blob can only lose
/// records at the end.
proof fn lemma_records_prefix(b: Seq<u8>, c: int)
    requires
        0 <= c <= b.len(),
    ensures
        records(b.take(c)).is_prefix_of(records(b)),
    decreases b.len(),
{
    let p = b.take(c);
    if c > 0 {
        let n = b[0] as int;
        assert(p[0] == b[0]);
        if !(n == 0 || n > MAX_SCHEME || 1 + n + 4 > p.len() || !valid_utf8(p.subrange(1, 1 + n))) {
            assert(p.subrange(1, 1 + n) =~= b.subrange(1, 1 + n));
            assert(p[1 + n] == b[1 + n] && p[2 + n] == b[2 + n] && p[3 + n] == b[3 + n] && p[4
                + n] == b[4 + n]);
            assert(read32(p, 1 + n) == read32(b, 1 + n));
            let rest = b.subrange(1 + n + 4, b.len() as int);
            let k = c - (1 + n + 4);
            assert(p.subrange(1 + n + 4, p.len() as int) =~= rest.take(k));
            lemma_records_prefix(rest, k);
            let x = (decode_utf8(b.subrange(1, 1 + n)), read32(b, 1 + n));
            let small = records(rest.take(k));
            let big = records(rest);
            assert(records(p) == seq![x] + small);
            assert(records(b) == seq![x] + big);
            assert((seq![x] + big).subrange(0, (seq![x] + small).len() as int) =~= seq![x] + small);
        }
    }
}

/// A registry with schemes in lower case and none twice stays so when cut short.
proof fn lemma_registry_prefix(m: Seq<Choice>, k: int)
    requires
        registry_ok(m),
        0 <= k <= m.len(),
    ensures
        registry_ok(m.take(k)),
{
    let t = m.take(k);
    assert forall|i: int| 0 <= i < t.len() implies lower(#[trigger] t[i].0) == t[i].0 by {
        assert(t[i] == m[i]);
    }
    assert forall|i: int, j: int| 0 <= i < j < t.len() implies #[trigger] t[i].0 != #[trigger] t[j].0 by {
        assert(t[i] == m[i] && t[j] == m[j]);
    }
}

/// A damaged tail is dropped, not refused: whatever a written registry is cut to, reading
/// it back gives the registry's first entries, in order.
pub proof fn lemma_cut_blob_keeps_a_prefix(m: Seq<Choice>, cut: int)
    requires
        registry_ok(m),
        0 <= cut <= encode_spec(m).len(),
    ensures
        decode_spec(encode_spec(m).take(cut)).is_prefix_of(m.filter(|c: Choice| fits(c))),
{
    broadcast use vstd::seq_lib::group_filter_ensures;

    let pr = |c: Choice| fits(c);
    let f = m.filter(pr);
    lemma_records_of_encoding(m);
    lemma_records_prefix(encode_spec(m), cut);
    let got = records(encode_spec(m).take(cut));
    assert(registry_ok(f)) by {
        assert forall|i: int| 0 <= i < f.len() implies lower(#[trigger] f[i].0) == f[i].0 by {
            assert(f.contains(f[i]));
            m.lemma_filter_contains_rev(pr, f[i]);
        }
        lemma_filter_unique(m, pr);
    }
    assert(got =~= f.take(got.len() as int));
    lemma_registry_prefix(f, got.len() as int);
    assert(Seq::<Choice>::empty() + got =~= got);
    lemma_replay_fresh(Seq::empty(), got);
}

} // verus!
