//! An exponential-backoff cadence for a background poller.
//!
//! A home-screen daemon only needs to poll quickly while the user is looking at the home. Left
//! alone it should slow down, so an idle phone is barely woken: each tick the interval doubles
//! toward a cap, and an "activity" signal from the foreground resets it to the base rate. A
//! small jitter on reset keeps several daemons from realigning into one synchronized wake.
//!
//! Nothing here holds a clock or starts a timer. The caller owns the timer and asks only *what
//! delay to arm next*; [`BackoffPoller`] makes every decision of the polling loop and hands the
//! caller the timer to arm. Milliseconds throughout.

use vstd::prelude::*;

verus! {

/// `2·c`, saturating at the ends of `i32`.
pub open spec fn doubled(c: i32) -> int {
    let d = 2 * c;
    if d > i32::MAX {
        i32::MAX as int
    } else if d < i32::MIN {
        i32::MIN as int
    } else {
        d
    }
}

/// `v` held within `[lo, hi]`.
pub open spec fn clamped(v: int, lo: int, hi: int) -> int {
    if v < lo {
        lo
    } else if v > hi {
        hi
    } else {
        v
    }
}

/// The interval after `c`: doubled, then held between `base` and `max`.
pub open spec fn next_interval(c: i32, base: i32, max: i32) -> int {
    clamped(doubled(c), base as int, max as int)
}

fn double_sat(c: i32) -> (r: i32)
    ensures
        r == doubled(c),
{
    if c > i32::MAX / 2 {
        i32::MAX
    } else if c < i32::MIN / 2 {
        i32::MIN
    } else {
        c * 2
    }
}

fn clamp_to(v: i32, lo: i32, hi: i32) -> (r: i32)
    requires
        lo <= hi,
    ensures
        r == clamped(v as int, lo as int, hi as int),
{
    if v < lo {
        lo
    } else if v > hi {
        hi
    } else {
        v
    }
}

/// A doubling backoff between a base and a maximum interval.
#[derive(Copy, Clone, Debug)]
pub struct Backoff {
    base: i32,
    max: i32,
    /// The interval to arm on the next request, before it doubles again.
    current: i32,
}

impl View for Backoff {
    /// Base, maximum, and the interval armed next.
    type V = (i32, i32, i32);

    closed spec fn view(&self) -> (i32, i32, i32) {
        (self.base, self.max, self.current)
    }
}

impl Backoff {
    #[verifier::type_invariant]
    closed spec fn ordered(self) -> bool {
        self.base <= self.max
    }

    /// The base interval.
    pub open spec fn base(self) -> i32 {
        self@.0
    }

    /// The ceiling.
    pub open spec fn ceiling(self) -> i32 {
        self@.1
    }

    /// The interval armed next.
    pub open spec fn next(self) -> i32 {
        self@.2
    }

    /// A backoff that starts at `base_ms` and doubles toward `max_ms`. `max` is held at least
    /// `base`.
    pub fn new(base_ms: i32, max_ms: i32) -> (r: Self)
        ensures
            r.base() == base_ms,
            r.ceiling() == if max_ms < base_ms {
                base_ms
            } else {
                max_ms
            },
            r.next() == base_ms,
    {
        let max = if max_ms < base_ms {
            base_ms
        } else {
            max_ms
        };
        Backoff { base: base_ms, max, current: base_ms }
    }

    /// The delay to arm after a normal tick, then double toward the cap for the tick after.
    /// From base the sequence is base, 2·base, 4·base, … capped at `max`.
    pub fn on_tick(&mut self) -> (r: i32)
        ensures
            r == old(self).next(),
            final(self).base() == old(self).base(),
            final(self).ceiling() == old(self).ceiling(),
            final(self).next() == next_interval(old(self).next(), old(self).base(), old(self).ceiling()),
            old(self).base() <= final(self).next() <= old(self).ceiling(),
    {
        proof {
            use_type_invariant(&*self);
        }
        let delay = self.current;
        self.current = clamp_to(double_sat(self.current), self.base, self.max);
        delay
    }

    /// The delay to arm after a foreground activity signal: back to `base` plus `jitter_ms`,
    /// with the interval *after* that doubling from `base` (the jitter staggers peers, it does
    /// not persist). A negative jitter counts as none.
    pub fn on_reset(&mut self, jitter_ms: i32) -> (r: i32)
        ensures
            r == clamped(
                old(self).base() + if jitter_ms < 0 {
                    0
                } else {
                    jitter_ms as int
                },
                i32::MIN as int,
                i32::MAX as int,
            ),
            final(self).base() == old(self).base(),
            final(self).ceiling() == old(self).ceiling(),
            final(self).next() == next_interval(old(self).base(), old(self).base(), old(self).ceiling()),
    {
        proof {
            use_type_invariant(&*self);
        }
        self.current = clamp_to(double_sat(self.base), self.base, self.max);
        let j = if jitter_ms < 0 {
            0
        } else {
            jitter_ms
        };
        if self.base > i32::MAX - j {
            i32::MAX
        } else {
            self.base + j
        }
    }

    /// The delay to arm when something says "stop bothering": the ceiling, and the interval
    /// after it stays there.
    pub fn on_hold(&mut self) -> (r: i32)
        ensures
            r == old(self).ceiling(),
            final(self).base() == old(self).base(),
            final(self).ceiling() == old(self).ceiling(),
            final(self).next() == old(self).ceiling(),
    {
        proof {
            use_type_invariant(&*self);
        }
        self.current = self.max;
        self.max
    }

    /// The interval that will be armed next (before doubling).
    pub fn current(&self) -> (r: i32)
        ensures
            r == self.next(),
    {
        self.current
    }
}

/// The interval armed on the `n`-th tick of a fresh backoff.
pub open spec fn schedule(base: i32, max: i32, n: nat) -> int
    decreases n,
{
    if n == 0 {
        base as int
    } else {
        let prev = schedule(base, max, (n - 1) as nat);
        clamped(doubled(prev as i32), base as int, max as int)
    }
}

/// `2ⁿ`.
pub open spec fn pow2(n: nat) -> int
    decreases n,
{
    if n == 0 {
        1
    } else {
        2 * pow2((n - 1) as nat)
    }
}

/// From a positive base the ticks arm base, 2·base, 4·base, …, and never more than the
/// ceiling: the `n`-th tick arms `min(base·2ⁿ, max)`.
pub proof fn lemma_schedule_doubles(base: i32, max: i32, n: nat)
    requires
        0 < base <= max,
    ensures
        schedule(base, max, n) == if base * pow2(n) < max {
            base * pow2(n)
        } else {
            max as int
        },
    decreases n,
{
    if n > 0 {
        lemma_schedule_doubles(base, max, (n - 1) as nat);
        lemma_pow2_positive((n - 1) as nat);
        let p = pow2((n - 1) as nat);
        assert(base * pow2(n) == 2 * (base * p)) by (nonlinear_arith)
            requires
                pow2(n) == 2 * p,
        ;
        assert(base * p >= base) by (nonlinear_arith)
            requires
                p >= 1,
                base > 0,
        ;
    }
}

proof fn lemma_pow2_positive(n: nat)
    ensures
        pow2(n) >= 1,
    decreases n,
{
    if n > 0 {
        lemma_pow2_positive((n - 1) as nat);
    }
}

/// The jitter a reset adds for a clock sample: the sample modulo the jitter bound, or 0 when
/// there is none.
pub open spec fn jitter_of(jitter_ms: i32, clock_us: u64) -> int {
    if jitter_ms <= 0 {
        0
    } else {
        (clock_us % (jitter_ms as u64)) as int
    }
}

/// How the poller was woken, as far as its decisions go.
#[derive(Copy, Clone, Debug, PartialEq, Eq, Structural)]
pub enum Wake {
    /// A one-shot timer fired; its handle.
    Timer(i32),
    /// A property it follows changed.
    Property,
    /// Anything else.
    Other,
}

/// The timer the caller is to arm: cancel the pending one (when there is one), then arm a
/// one-shot after `delay` milliseconds and report its handle with
/// [`BackoffPoller::armed_as`].
#[derive(Copy, Clone, Debug, PartialEq, Eq, Structural)]
pub struct Rearm {
    pub cancel: Option<i32>,
    pub delay: i32,
}

/// The decisions of a home-screen daemon's polling loop: a [`Backoff`] wired to a one-shot
/// timer and the launcher's foreground **activity** property — poll fast while the user is on
/// the home, back off when idle, snap back on a foreground bump, and go straight to the
/// ceiling while a *hold* property says nobody is looking.
#[derive(Debug)]
pub struct BackoffPoller {
    pub backoff: Backoff,
    /// The pending one-shot timer handle, or `None` before `start` or off-device.
    ticker: Option<i32>,
    /// The delay the pending timer was armed with. Not derivable from the backoff: `current`
    /// is the interval for the tick *after* this one.
    armed_ms: i32,
    /// The launcher activity property to follow (a change resets the cadence).
    cat: u32,
    key: u32,
    /// A property that means "nobody is looking" while it reads non-zero.
    hold: Option<(u32, u32)>,
    jitter_ms: i32,
}

impl BackoffPoller {
    /// The cadence.
    pub closed spec fn cadence(&self) -> Backoff {
        self.backoff
    }

    /// The pending timer's handle.
    pub closed spec fn ticker(&self) -> Option<i32> {
        self.ticker
    }

    /// What the pending timer was armed with.
    pub closed spec fn armed_spec(&self) -> i32 {
        self.armed_ms
    }

    /// The largest jitter a reset adds.
    pub closed spec fn jitter_spec(&self) -> i32 {
        self.jitter_ms
    }

    /// The hold property followed, if any.
    pub closed spec fn hold_spec(&self) -> Option<(u32, u32)> {
        self.hold
    }

    /// Poll between `base_ms` and `max_ms` (doubling), resetting to base + up-to-`jitter_ms`
    /// when the property `(activity_cat, activity_key)` changes.
    pub fn new(base_ms: i32, max_ms: i32, jitter_ms: i32, activity_cat: u32, activity_key: u32) -> (r: Self)
        ensures
            r.cadence().base() == base_ms,
            r.cadence().ceiling() == if max_ms < base_ms {
                base_ms
            } else {
                max_ms
            },
            r.cadence().next() == base_ms,
            r.ticker() is None,
            r.armed_spec() == 0,
            r.jitter_spec() == jitter_ms,
            r.hold_spec() is None,
            r.activity_spec() == (activity_cat, activity_key),
    {
        BackoffPoller {
            backoff: Backoff::new(base_ms, max_ms),
            ticker: None,
            armed_ms: 0,
            cat: activity_cat,
            key: activity_key,
            hold: None,
            jitter_ms,
        }
    }

    /// The activity property followed.
    pub closed spec fn activity_spec(&self) -> (u32, u32) {
        (self.cat, self.key)
    }

    /// Follow a *hold* property as well: while it reads non-zero, every wake arms the ceiling
    /// and the daemon's work is skipped. A hold that cannot be read counts as not held.
    pub fn with_hold(self, category: u32, key: u32) -> (r: Self)
        ensures
            r.hold_spec() == Some((category, key)),
            r.cadence() == self.cadence(),
            r.ticker() == self.ticker(),
            r.armed_spec() == self.armed_spec(),
            r.jitter_spec() == self.jitter_spec(),
            r.activity_spec() == self.activity_spec(),
    {
        let mut me = self;
        me.hold = Some((category, key));
        me
    }

    /// The activity property to subscribe to.
    pub fn activity(&self) -> (r: (u32, u32))
        ensures
            r == self.activity_spec(),
    {
        (self.cat, self.key)
    }

    /// The hold property to subscribe to and read, if any.
    pub fn hold(&self) -> (r: Option<(u32, u32)>)
        ensures
            r == self.hold_spec(),
    {
        self.hold
    }

    /// Record the handle of the timer just armed (`None` when the platform gave none).
    pub fn armed_as(&mut self, handle: Option<i32>)
        ensures
            final(self).ticker() == handle,
            final(self).cadence() == old(self).cadence(),
            final(self).armed_spec() == old(self).armed_spec(),
            final(self).jitter_spec() == old(self).jitter_spec(),
            final(self).hold_spec() == old(self).hold_spec(),
            final(self).activity_spec() == old(self).activity_spec(),
    {
        self.ticker = handle;
    }

    fn arm(&mut self, delay: i32) -> (r: Rearm)
        ensures
            r == (Rearm { cancel: old(self).ticker(), delay }),
            final(self).armed_spec() == delay,
            final(self).ticker() is None,
            final(self).cadence() == old(self).cadence(),
            final(self).jitter_spec() == old(self).jitter_spec(),
            final(self).hold_spec() == old(self).hold_spec(),
            final(self).activity_spec() == old(self).activity_spec(),
    {
        let cancel = self.ticker;
        self.ticker = None;
        self.armed_ms = delay;
        Rearm { cancel, delay }
    }

    /// Arm the first (base-rate) timer. Call once, after the daemon's initial publish and
    /// after subscribing to [`BackoffPoller::activity`] and [`BackoffPoller::hold`].
    pub fn start(&mut self) -> (r: Rearm)
        ensures
            r == (Rearm { cancel: old(self).ticker(), delay: old(self).cadence().next() }),
            final(self).armed_spec() == old(self).cadence().next(),
            final(self).cadence().base() == old(self).cadence().base(),
            final(self).cadence().ceiling() == old(self).cadence().ceiling(),
            final(self).cadence().next() == next_interval(
                old(self).cadence().next(),
                old(self).cadence().base(),
                old(self).cadence().ceiling(),
            ),
            final(self).ticker() is None,
            final(self).jitter_spec() == old(self).jitter_spec(),
            final(self).hold_spec() == old(self).hold_spec(),
            final(self).activity_spec() == old(self).activity_spec(),
    {
        let delay = self.backoff.on_tick();
        self.arm(delay)
    }

    /// The jitter a reset adds, from a sample of the monotonic clock: 0 when `jitter_ms` is
    /// not positive.
    pub fn jitter(&self, clock_us: u64) -> (r: i32)
        ensures
            self.jitter_spec() <= 0 ==> r == 0,
            self.jitter_spec() > 0 ==> r == clock_us % (self.jitter_spec() as u64),
            self.jitter_spec() > 0 ==> 0 <= r < self.jitter_spec(),
    {
        if self.jitter_ms <= 0 {
            0
        } else {
            (clock_us % (self.jitter_ms as u64)) as i32
        }
    }

    /// Decide on a wake. Returns whether the daemon should publish now — a backoff timer of its
    /// own fired, or the activity property changed — and the timer to arm next. `held` is what
    /// the hold property reads (false when there is none, or it cannot be read); `clock_us` is
    /// a sample of the monotonic clock for the jitter.
    ///
    /// Held: arm the ceiling and answer `false`, so the daemon does nothing at all.
    pub fn poll(&mut self, ev: Wake, held: bool, clock_us: u64) -> (r: (bool, Option<Rearm>))
        ensures
            ({
                let ours = ev matches Wake::Timer(h) && old(self).ticker() == Some(h);
                let prop = ev is Property;
                &&& !ours && !prop ==> r == (false, None::<Rearm>) && *final(self) == *old(self)
                &&& (ours || prop) && held ==> r == (
                    false,
                    Some(Rearm { cancel: old(self).ticker(), delay: old(self).cadence().ceiling() }),
                ) && final(self).cadence().next() == old(self).cadence().ceiling()
                &&& (ours || prop) && !held && ours ==> r == (
                    true,
                    Some(Rearm { cancel: old(self).ticker(), delay: old(self).cadence().next() }),
                ) && final(self).cadence().next() == next_interval(
                    old(self).cadence().next(),
                    old(self).cadence().base(),
                    old(self).cadence().ceiling(),
                )
                &&& (ours || prop) && !held && !ours ==> r.0 && r.1 is Some && r.1->0.cancel
                    == old(self).ticker() && r.1->0.delay == clamped(
                    old(self).cadence().base() + jitter_of(old(self).jitter_spec(), clock_us),
                    i32::MIN as int,
                    i32::MAX as int,
                ) && final(self).cadence().next() == next_interval(
                    old(self).cadence().base(),
                    old(self).cadence().base(),
                    old(self).cadence().ceiling(),
                )
                &&& (ours || prop) ==> final(self).armed_spec() == r.1->0.delay
                    && final(self).ticker() is None
            }),
            final(self).cadence().base() == old(self).cadence().base(),
            final(self).cadence().ceiling() == old(self).cadence().ceiling(),
            final(self).jitter_spec() == old(self).jitter_spec(),
            final(self).hold_spec() == old(self).hold_spec(),
            final(self).activity_spec() == old(self).activity_spec(),
    {
        let ours = match ev {
            Wake::Timer(h) => match self.ticker {
                Some(t) => t == h,
                None => false,
            },
            _ => false,
        };
        let prop = match ev {
            Wake::Property => true,
            _ => false,
        };
        if !ours && !prop {
            return (false, None);
        }
        if held {
            let delay = self.backoff.on_hold();
            return (false, Some(self.arm(delay)));
        }
        let delay = if ours {
            self.backoff.on_tick()
        } else {
            let j = self.jitter(clock_us);
            self.backoff.on_reset(j)
        };
        (true, Some(self.arm(delay)))
    }

    /// Shorten the pending sleep to at most `ms`, without disturbing the backoff. Ignored when
    /// it would lengthen the sleep, and before [`BackoffPoller::start`] has armed anything; a
    /// non-positive `ms` arms the shortest timer the platform will take.
    pub fn cap_next(&mut self, ms: i32) -> (r: Option<Rearm>)
        ensures
            ({
                let want = if ms < 1 {
                    1
                } else {
                    ms
                };
                &&& old(self).armed_spec() == 0 || want >= old(self).armed_spec() ==> r is None
                    && *final(self) == *old(self)
                &&& old(self).armed_spec() != 0 && want < old(self).armed_spec() ==> r == Some(
                    Rearm { cancel: old(self).ticker(), delay: want },
                ) && final(self).armed_spec() == want && final(self).ticker() is None
            }),
            final(self).cadence() == old(self).cadence(),
            final(self).jitter_spec() == old(self).jitter_spec(),
            final(self).hold_spec() == old(self).hold_spec(),
            final(self).activity_spec() == old(self).activity_spec(),
    {
        if self.armed_ms == 0 {
            return None;
        }
        let ms = if ms < 1 {
            1
        } else {
            ms
        };
        if ms >= self.armed_ms {
            return None;
        }
        Some(self.arm(ms))
    }

    /// What the pending timer was armed with.
    pub fn armed(&self) -> (r: i32)
        ensures
            r == self.armed_spec(),
    {
        self.armed_ms
    }
}

} // verus!
