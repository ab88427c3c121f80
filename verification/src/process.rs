//! Launching and watching a child process, as an interface: a launcher's state machine runs
//! against it on the host, with a fake that refuses to load, dies halfway or hangs on
//! request, and the device supplies the platform's.

use vstd::prelude::*;

use crate::error::Result;
use crate::fs::Utf16Path;

verus! {

/// Launching and watching a child process.
pub trait Procs {
    /// Launch and wait for the child's rendezvous, up to `timeout_ms`. An `Err` is what an
    /// image the loader refuses looks like from the outside.
    fn start(&mut self, path: &Utf16Path, timeout_ms: i32) -> Result<()>;

    /// Whether a process with this UID3 is alive right now: liveness, not completion.
    fn is_running(&mut self, uid3: u32) -> bool;
}

} // verus!
