//! When a random generator folds fresh entropy in. The generator is the platform's and a
//! crypto library's; the schedule is here: a reseed before the next bytes once enough have
//! been produced since the last one, and a counter that starts over whether or not the
//! reseed could get entropy, so a source that keeps failing is not asked again every call.

use vstd::prelude::*;

verus! {

/// Bytes of entropy pulled per seed and per reseed: one HMAC-SHA-256 block.
pub const POOL: usize = 64;

/// Bytes generated before an automatic reseed.
pub const RESEED_AFTER: usize = 256 * 1024;

/// How many bytes have been produced since the last reseed.
#[derive(Copy, Clone, Debug, PartialEq, Eq, Structural)]
pub struct Schedule {
    since: usize,
}

impl Schedule {
    /// Bytes produced since the last reseed.
    pub closed spec fn produced(&self) -> nat {
        self.since as nat
    }

    /// Freshly seeded.
    pub fn new() -> (s: Schedule)
        ensures
            s.produced() == 0,
    {
        Schedule { since: 0 }
    }

    /// Before producing `n` bytes: whether to reseed first, and the count moved on by `n`
    /// (from zero when reseeding, saturating at the largest count).
    pub fn before_fill(&mut self, n: usize) -> (reseed: bool)
        ensures
            reseed == (old(self).produced() >= RESEED_AFTER),
            final(self).produced() == if (if reseed {
                0
            } else {
                old(self).produced()
            }) + n > usize::MAX {
                usize::MAX as nat
            } else {
                ((if reseed {
                    0
                } else {
                    old(self).produced()
                }) + n) as nat
            },
    {
        let reseed = self.since >= RESEED_AFTER;
        if reseed {
            self.since = 0;
        }
        self.since = self.since.saturating_add(n);
        reseed
    }

    /// Fresh entropy was folded in on request: the count starts over.
    pub fn stirred(&mut self)
        ensures
            final(self).produced() == 0,
    {
        self.since = 0;
    }
}

} // verus!
