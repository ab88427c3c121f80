//! Where the handset is: the positioning modules the framework reports, decoded, and a
//! subscription that keeps the last fix it was given.
//!
//! A handset with only a network module answers in seconds with kilometres of error, and one
//! with an integrated receiver answers in minutes with metres; which is which is knowable up
//! front, from the module record. A fix is slow to come, so nothing here waits for one: it
//! arrives as an event like any other completion, and until it does there is none — latitude
//! 0, longitude 0 is a real place, and a map should not draw the user there for want of a way
//! to say "not yet".
//!
//! What a fix holds is the platform's business; the subscription only keeps it.

use vstd::prelude::*;

use crate::codec::{from_utf16_lossy, utf16_lossy};
use crate::error::{spec_from_code, Error, Result, ERR_OVERFLOW};
use crate::net::{EventKind, RawEvent};

verus! {

/// One positioning module the framework knows about.
#[derive(Clone, Debug, PartialEq, Eq)]
pub struct Module {
    pub name: String,
    pub uid: i32,
    /// Whether it can be used now.
    pub available: bool,
    /// `TTechnologyType`, a bitmask: 1 terminal, 2 network, 4 assisted.
    pub technology: i32,
    /// 1 internal to the device, 2 external.
    pub device_location: i32,
    pub cost: i32,
    pub power: i32,
    pub horizontal_accuracy_mm: i32,
    pub vertical_accuracy_mm: i32,
    pub time_to_first_fix_ms: i32,
    pub time_to_next_fix_ms: i32,
}

/// How many of the `len` name units a buffer of `cap` keeps.
pub open spec fn name_kept(len: i32, cap: nat) -> nat {
    if len <= 0 {
        0
    } else if len as nat <= cap {
        len as nat
    } else {
        cap
    }
}

impl Module {
    /// The module the framework described: its name in `name[..name_len]` and ten numbers in
    /// the platform's order. A name cut short (`KErrOverflow`) is still a module, reported
    /// under the part that fit; any other failure is the platform's error.
    pub fn from_reply(rc: i32, name: &[u16], name_len: i32, v: &[i32; 10]) -> (r: Result<Module>)
        ensures
            rc != 0 && rc != ERR_OVERFLOW ==> r == Err::<Module, Error>(spec_from_code(rc)),
            rc == 0 || rc == ERR_OVERFLOW ==> (r matches Ok(m) && {
                &&& m.name@ == utf16_lossy(name@.subrange(0, name_kept(name_len, name@.len()) as int))
                &&& m.uid == v[0]
                &&& m.available == (v[1] != 0)
                &&& m.technology == v[2]
                &&& m.device_location == v[3]
                &&& m.cost == v[4]
                &&& m.power == v[5]
                &&& m.horizontal_accuracy_mm == v[6]
                &&& m.vertical_accuracy_mm == v[7]
                &&& m.time_to_first_fix_ms == v[8]
                &&& m.time_to_next_fix_ms == v[9]
            }),
    {
        if rc != 0 && rc != ERR_OVERFLOW {
            return Err(Error::from_code(rc));
        }
        let n: usize = if name_len <= 0 {
            0
        } else if (name_len as usize) <= name.len() {
            name_len as usize
        } else {
            name.len()
        };
        Ok(
            Module {
                name: from_utf16_lossy(vstd::slice::slice_subrange(name, 0, n)),
                uid: v[0],
                available: v[1] != 0,
                technology: v[2],
                device_location: v[3],
                cost: v[4],
                power: v[5],
                horizontal_accuracy_mm: v[6],
                vertical_accuracy_mm: v[7],
                time_to_first_fix_ms: v[8],
                time_to_next_fix_ms: v[9],
            },
        )
    }
}


/// One request made of the positioning service, as a [`Location`] records it.
pub ghost enum LocCall {
    Start(i32, i32, bool, i32),
    Stop,
    Read,
    ModuleCount,
    Module(i32),
}

/// What the platform can do with position. Each method records itself in [`Location::calls`];
/// what the platform answers is its own.
pub trait Location: Sized {
    /// A position report, as the platform gives one.
    type Fix;

    /// The requests made so far, in order. An implementation states its own log; one that
    /// states none has nothing to show.
    closed spec fn calls(&self) -> Seq<LocCall> {
        Seq::empty()
    }

    /// Subscribe: `interval_ms` 0 asks for a single fix, anything positive for a stream at that
    /// cadence; `timeout_ms` 0 lets the module take as long as it takes; `module_uid` 0 lets
    /// the framework choose, anything else picks that module and no other.
    fn start(&mut self, interval_ms: i32, timeout_ms: i32, want_satellites: bool, module_uid: i32) -> (r: Result<()>)
        ensures
            final(self).calls() == old(self).calls().push(
                LocCall::Start(interval_ms, timeout_ms, want_satellites, module_uid),
            ),
    ;

    fn stop(&mut self)
        ensures
            final(self).calls() == old(self).calls().push(LocCall::Stop),
    ;

    /// The last completed update: `NotReady` before the first one, and the platform's error
    /// when the last update failed, never a stale fix presented as a fresh one.
    fn read(&mut self) -> (r: Result<Self::Fix>)
        ensures
            final(self).calls() == old(self).calls().push(LocCall::Read),
    ;

    fn module_count(&mut self) -> (r: Result<i32>)
        ensures
            final(self).calls() == old(self).calls().push(LocCall::ModuleCount),
    ;

    fn module(&mut self, index: i32) -> (r: Result<Module>)
        ensures
            final(self).calls() == old(self).calls().push(LocCall::Module(index)),
    ;
}

/// A subscription, and the last thing it said. [`Watch::fix`] is `None` until a real fix
/// arrives, and a fix outlives the error that follows it: a map keeps drawing the last known
/// position while the sky is gone, and the status says it is no longer current.
pub struct Watch<L: Location> {
    location: L,
    running: bool,
    /// The module the live subscription was opened on.
    module: i32,
    fix: Option<L::Fix>,
    /// The status of the most recent completion, `None` before any.
    last_status: Option<i32>,
}

impl<L: Location> Watch<L> {
    /// The positioning service underneath.
    pub closed spec fn loc(&self) -> L {
        self.location
    }

    /// Whether a subscription is live.
    pub closed spec fn live(&self) -> bool {
        self.running
    }

    /// The module the live subscription is on.
    pub closed spec fn on_module(&self) -> i32 {
        self.module
    }

    /// The last good fix.
    pub closed spec fn kept(&self) -> Option<L::Fix> {
        self.fix
    }

    /// The status of the most recent completion.
    pub closed spec fn status(&self) -> Option<i32> {
        self.last_status
    }

    /// Not started: nothing happens until [`Watch::start`], so an app does not pay for a
    /// receiver it may only offer as a menu item.
    pub fn new(location: L) -> (w: Self)
        ensures
            w.loc() == location,
            !w.live(),
            w.on_module() == 0,
            w.kept() is None,
            w.status() is None,
    {
        Watch { location, running: false, module: 0, fix: None, last_status: None }
    }

    /// Subscribe, unless a subscription is already live, which is left as it is.
    pub fn start(&mut self, interval_ms: i32, timeout_ms: i32, want_satellites: bool, module_uid: i32) -> (r: Result<()>)
        ensures
            final(self).kept() == old(self).kept(),
            final(self).status() == old(self).status(),
            old(self).live() ==> r is Ok && final(self).loc() == old(self).loc() && final(self).live() && final(self).on_module() == old(self).on_module(),
            !old(self).live() ==> {
                &&& final(self).loc().calls() == old(self).loc().calls().push(
                    LocCall::Start(interval_ms, timeout_ms, want_satellites, module_uid),
                )
                &&& r is Ok ==> final(self).live() && final(self).on_module() == module_uid
                &&& r is Err ==> !final(self).live() && final(self).on_module() == old(self).on_module()
            },
    {
        if self.running {
            return Ok(());
        }
        match self.location.start(interval_ms, timeout_ms, want_satellites, module_uid) {
            Ok(()) => {},
            Err(e) => return Err(e),
        }
        self.running = true;
        self.module = module_uid;
        Ok(())
    }

    /// Stop whatever is running and subscribe to another module. Asking for the module already
    /// subscribed does nothing: a stop would cancel the outstanding request, and a receiver
    /// part-way through a cold start would lose the wait it had already served.
    pub fn switch_to(&mut self, interval_ms: i32, timeout_ms: i32, want_satellites: bool, module_uid: i32) -> (r: Result<()>)
        ensures
            final(self).kept() == old(self).kept(),
            final(self).status() == old(self).status(),
            old(self).live() && old(self).on_module() == module_uid ==> r is Ok && final(self).loc() == old(self).loc() && final(self).live() && final(self).on_module()
                == module_uid,
            !(old(self).live() && old(self).on_module() == module_uid) ==> {
                let start = LocCall::Start(interval_ms, timeout_ms, want_satellites, module_uid);
                &&& final(self).loc().calls() == if old(self).live() {
                    old(self).loc().calls().push(LocCall::Stop).push(start)
                } else {
                    old(self).loc().calls().push(start)
                }
                &&& r is Ok ==> final(self).live() && final(self).on_module() == module_uid
                &&& r is Err ==> !final(self).live()
            },
    {
        if self.running && self.module == module_uid {
            return Ok(());
        }
        self.stop();
        self.start(interval_ms, timeout_ms, want_satellites, module_uid)
    }

    /// The module the live subscription is on, or 0 when nothing is running.
    pub fn module(&self) -> (r: i32)
        ensures
            r == if self.live() {
                self.on_module()
            } else {
                0
            },
    {
        if self.running {
            self.module
        } else {
            0
        }
    }

    pub fn stop(&mut self)
        ensures
            !final(self).live(),
            final(self).kept() == old(self).kept(),
            final(self).status() == old(self).status(),
            old(self).live() ==> final(self).loc().calls() == old(self).loc().calls().push(
                LocCall::Stop,
            ) && final(self).on_module() == 0,
            !old(self).live() ==> final(self).loc() == old(self).loc() && final(self).on_module()
                == old(self).on_module(),
    {
        if self.running {
            self.location.stop();
            self.running = false;
            self.module = 0;
        }
    }

    pub fn is_running(&self) -> (r: bool)
        ensures
            r == self.live(),
    {
        self.running
    }

    /// The positioning service, for the calls that are not about a subscription.
    pub fn location_mut(&mut self) -> (r: &mut L)
        ensures
            *r == old(self).loc(),
            final(self).loc() == *final(r),
            final(self).live() == old(self).live(),
            final(self).on_module() == old(self).on_module(),
            final(self).kept() == old(self).kept(),
            final(self).status() == old(self).status(),
    {
        &mut self.location
    }

    /// The last good fix.
    pub fn fix(&self) -> (r: Option<&L::Fix>)
        ensures
            r is Some <==> self.kept() is Some,
            r matches Some(f) ==> Some(*f) == self.kept(),
    {
        match &self.fix {
            Some(f) => Some(f),
            None => None,
        }
    }

    /// The completion code of the most recent update: `Some(0)` after a fix, the error after a
    /// failure, `None` before anything has completed.
    pub fn last_status(&self) -> (r: Option<i32>)
        ensures
            r == self.status(),
    {
        self.last_status
    }

    /// Feed a platform event. True when it was a position update, with a fix or without: what
    /// tells a caller to repaint. Any other event leaves everything as it was; a failed update
    /// changes the status and keeps the fix.
    pub fn on_event(&mut self, ev: &RawEvent) -> (r: bool)
        ensures
            r == (ev.kind == EventKind::GpsFix),
            final(self).live() == old(self).live(),
            final(self).on_module() == old(self).on_module(),
            ev.kind != EventKind::GpsFix ==> final(self).loc() == old(self).loc() && final(self).kept() == old(self).kept() && final(self).status() == old(self).status(),
            ev.kind == EventKind::GpsFix ==> final(self).status() == Some(ev.status),
            ev.kind == EventKind::GpsFix && ev.status != 0 ==> final(self).kept() == old(self).kept() && final(self).loc() == old(self).loc(),
            ev.kind == EventKind::GpsFix && ev.status == 0 ==> {
                &&& final(self).loc().calls() == old(self).loc().calls().push(LocCall::Read)
                &&& final(self).kept() is Some || final(self).kept() == old(self).kept()
            },
    {
        if ev.kind != EventKind::GpsFix {
            return false;
        }
        self.last_status = Some(ev.status);
        if ev.status == 0 {
            if let Ok(fix) = self.location.read() {
                self.fix = Some(fix);
            }
        }
        true
    }
}

/// A scripted [`Location`] for tests: a queue of results, handed out one per read.
pub struct MemLocation<F> {
    pub queued: Vec<Result<F>>,
    pub modules: Vec<Module>,
    pub started: bool,
    /// How many times `start` was called: what shows a live subscription was left alone.
    pub starts: u32,
    /// The module the last `start` asked for.
    pub last_module: i32,
    log: Ghost<Seq<LocCall>>,
}

impl<F> MemLocation<F> {
    /// What is queued, in order.
    pub closed spec fn script(&self) -> Seq<Result<F>> {
        self.queued@
    }

    /// How many times `start` was called.
    pub closed spec fn started_count(&self) -> u32 {
        self.starts
    }

    /// The modules it reports.
    pub closed spec fn inventory(&self) -> Seq<Module> {
        self.modules@
    }

    /// The module the last `start` asked for.
    pub closed spec fn asked_module(&self) -> i32 {
        self.last_module
    }

    pub fn new(queued: Vec<Result<F>>) -> (r: Self)
        ensures
            r.script() == queued@,
            r.calls() == Seq::<LocCall>::empty(),
            r.started_count() == 0,
            r.asked_module() == 0,
    {
        MemLocation { queued, modules: Vec::new(), started: false, starts: 0, last_module: 0, log: Ghost(Seq::empty()) }
    }
}

impl<F> Location for MemLocation<F> {
    type Fix = F;

    closed spec fn calls(&self) -> Seq<LocCall> {
        self.log@
    }

    fn start(&mut self, interval_ms: i32, timeout_ms: i32, want_satellites: bool, module_uid: i32) -> (r: Result<()>)
        ensures
            r is Ok,
            final(self).started_count() == old(self).started_count().wrapping_add(1),
            final(self).asked_module() == module_uid,
            final(self).script() == old(self).script(),
    {
        self.started = true;
        self.starts = self.starts.wrapping_add(1);
        self.last_module = module_uid;
        self.log = Ghost(self.log@.push(LocCall::Start(interval_ms, timeout_ms, want_satellites, module_uid)));
        Ok(())
    }

    fn stop(&mut self)
        ensures
            final(self).started_count() == old(self).started_count(),
            final(self).script() == old(self).script(),
    {
        self.started = false;
        self.log = Ghost(self.log@.push(LocCall::Stop));
    }

    fn read(&mut self) -> (r: Result<F>)
        ensures
            old(self).script().len() == 0 ==> r == Err::<F, Error>(Error::NotReady) && final(self).script() == old(self).script(),
            old(self).script().len() > 0 ==> r == old(self).script()[0] && final(self).script() == old(self).script().drop_first(),
            final(self).started_count() == old(self).started_count(),
    {
        self.log = Ghost(self.log@.push(LocCall::Read));
        if self.queued.len() == 0 {
            return Err(Error::NotReady);
        }
        let r = self.queued.remove(0);
        assert(self.queued@ =~= old(self).queued@.drop_first());
        r
    }

    fn module_count(&mut self) -> (r: Result<i32>) {
        self.log = Ghost(self.log@.push(LocCall::ModuleCount));
        if self.modules.len() <= i32::MAX as usize {
            Ok(self.modules.len() as i32)
        } else {
            Ok(i32::MAX)
        }
    }

    fn module(&mut self, index: i32) -> (r: Result<Module>)
        ensures
            r is Ok <==> 0 <= index < old(self).inventory().len(),
            r is Err ==> r == Err::<Module, Error>(Error::NotFound),
    {
        self.log = Ghost(self.log@.push(LocCall::Module(index)));
        if index >= 0 && (index as usize) < self.modules.len() {
            Ok(self.modules[index as usize].clone())
        } else {
            Err(Error::NotFound)
        }
    }
}


/// The serving cell tower, as the modem names it: four numbers a public tower database turns
/// into a neighbourhood.
#[derive(Copy, Clone, Debug, Default, PartialEq, Eq, Structural)]
pub struct Cell {
    /// Mobile country code.
    pub mcc: i32,
    /// Mobile network code: the operator within that country.
    pub mnc: i32,
    pub lac: i32,
    pub cell_id: i32,
    /// The modem's own flag: when false, `lac` and `cell_id` mean nothing.
    pub area_known: bool,
}

/// Reading the serving cell: ask, and collect the answer when its completion arrives.
pub trait Cells {
    /// Ask; nothing blocks.
    fn read(&mut self) -> Result<()>;

    /// The last completed read: `NotReady` before the first one.
    fn get(&mut self) -> Result<Cell>;

    fn stop(&mut self);
}

/// A scripted [`Cells`] for tests: a queue of answers, handed out one per `get`.
pub struct MemCells {
    pub queued: Vec<Result<Cell>>,
    /// How many times `read` was asked.
    pub reads: u32,
}

impl MemCells {
    pub fn new(queued: Vec<Result<Cell>>) -> (r: Self)
        ensures
            r.queued@ == queued@,
            r.reads == 0,
    {
        MemCells { queued, reads: 0 }
    }
}

impl Cells for MemCells {
    fn read(&mut self) -> (r: Result<()>)
        ensures
            r is Ok,
            final(self).reads == old(self).reads.wrapping_add(1),
            final(self).queued@ == old(self).queued@,
    {
        self.reads = self.reads.wrapping_add(1);
        Ok(())
    }

    fn get(&mut self) -> (r: Result<Cell>)
        ensures
            old(self).queued@.len() == 0 ==> r == Err::<Cell, Error>(Error::NotReady)
                && final(self).queued@ == old(self).queued@,
            old(self).queued@.len() > 0 ==> r == old(self).queued@[0] && final(self).queued@
                == old(self).queued@.drop_first(),
            final(self).reads == old(self).reads,
    {
        if self.queued.len() == 0 {
            return Err(Error::NotReady);
        }
        let r = self.queued.remove(0);
        assert(self.queued@ =~= old(self).queued@.drop_first());
        r
    }

    fn stop(&mut self) {
    }
}

} // verus!
