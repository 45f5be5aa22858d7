//! `reconcile`: make one guest's config say what its document asks for.
//!
//! The plan is made twice: once unlocked, to decide whether anything has to
//! happen at all, and again under the container's own config lock with the
//! file read inside it, because that is the only plan a write may be based
//! on. Nothing is written when the managed lines are already what they should
//! be, so a pass over an unchanged node writes nothing at all.
//!
//! The record of what this node wrote is set **before** the lines are written
//! and cleared **after** they are removed: a record without lines is a no-op,
//! lines without a record are orphans nothing will ever clean up.
//!
//! A guest whose config PVE has locked (a backup, a snapshot, a migration) is
//! left alone until it is not, and so is every guest of a node whose driver is
//! not loaded.

use vstd::prelude::*;

use crate::conf;
use crate::doc::{Gpu, Want};
use crate::inventory::{Facts, Inventory};
use crate::ops::Ctx;
use crate::plan::{self, Outcome, OutcomeView, Plan, PlanView};
use crate::text;

verus! {

/// What one guest's reconcile did.
#[derive(Debug, Clone, PartialEq, Eq)]
pub enum Done {
    /// This node has no working driver; nothing was touched.
    NoDriver,
    /// No `gpu` key, and nothing this tool wrote: not ours.
    Unmanaged,
    /// PVE holds the config (`lock: backup`); try again later.
    Locked(String),
    /// The config cannot carry the lines; nothing was touched.
    Refused(String),
    /// Already what it should be.
    InSync(Plan),
    /// The managed lines were replaced.
    Wrote(Plan),
}

/// What a [`Done`] says.
pub enum DoneView {
    NoDriver,
    Unmanaged,
    Locked(Seq<char>),
    Refused(Seq<char>),
    InSync(PlanView),
    Wrote(PlanView),
}

impl View for Done {
    type V = DoneView;

    open spec fn view(&self) -> DoneView {
        match self {
            Done::NoDriver => DoneView::NoDriver,
            Done::Unmanaged => DoneView::Unmanaged,
            Done::Locked(l) => DoneView::Locked(l@),
            Done::Refused(why) => DoneView::Refused(why@),
            Done::InSync(p) => DoneView::InSync(p@),
            Done::Wrote(p) => DoneView::Wrote(p@),
        }
    }
}

/// The plan a guest's config now follows.
pub open spec fn plan_of(d: DoneView) -> Option<PlanView> {
    match d {
        DoneView::InSync(p) => Some(p),
        DoneView::Wrote(p) => Some(p),
        _ => None,
    }
}

/// The word for what was done.
pub open spec fn word(d: DoneView) -> Seq<char> {
    match d {
        DoneView::NoDriver => "no driver"@,
        DoneView::Unmanaged => "no gpu key"@,
        DoneView::Locked(_) => "locked"@,
        DoneView::Refused(_) => "refused"@,
        DoneView::InSync(p) => if p.desired.len() == 0 {
            "no lines"@
        } else {
            "in sync"@
        },
        DoneView::Wrote(_) => "written"@,
    }
}

/// One line for the log, where there is something to say.
pub open spec fn described(d: DoneView, vmid: u32, running: bool) -> Option<Seq<char>> {
    let id = text::decimal(vmid as nat);
    match d {
        DoneView::Unmanaged => None,
        DoneView::InSync(_) => None,
        DoneView::NoDriver => None,
        DoneView::Locked(l) => Some(id + ": config locked ("@ + l + "); waiting"@),
        DoneView::Refused(why) => Some(id + ": refused: "@ + why),
        DoneView::Wrote(p) => if p.desired.len() == 0 {
            Some(id + ": removed the managed lines"@)
        } else {
            Some(
                id + ": wrote "@ + text::decimal(p.desired.len()) + " line(s) for "@ + text::join(
                    p.gpus,
                    ", "@,
                ) + if running {
                    " (restart the container to apply)"@
                } else {
                    ""@
                },
            )
        },
    }
}

impl Done {
    /// The plan a guest's config now follows.
    pub fn plan(&self) -> (r: Option<&Plan>)
        ensures
            match r {
                Some(p) => plan_of(self@) == Some(p@),
                None => plan_of(self@) is None,
            },
    {
        match self {
            Done::InSync(p) => Some(p),
            Done::Wrote(p) => Some(p),
            _ => None,
        }
    }

    /// The word `status` and `--json` use.
    pub fn state(&self) -> (r: &'static str)
        ensures
            r@ == word(self@),
    {
        match self {
            Done::NoDriver => "no driver",
            Done::Unmanaged => "no gpu key",
            Done::Locked(_) => "locked",
            Done::Refused(_) => "refused",
            Done::InSync(p) => if p.desired.len() == 0 {
                "no lines"
            } else {
                "in sync"
            },
            Done::Wrote(_) => "written",
        }
    }

    /// One line for the log, or `None` when there is nothing to say.
    /// `running` decides whether a restart is owed for what was written.
    pub fn describe(&self, vmid: u32, running: bool) -> (r: Option<String>)
        ensures
            text::opt_text(r) == described(self@, vmid, running),
    {
        let id = text::decimal_of(vmid as u64);
        match self {
            Done::Unmanaged => None,
            Done::InSync(_) => None,
            Done::NoDriver => None,
            Done::Locked(l) => Some(
                id.concat(": config locked (").concat(l.as_str()).concat("); waiting"),
            ),
            Done::Refused(why) => Some(id.concat(": refused: ").concat(why.as_str())),
            Done::Wrote(p) => if p.desired.len() == 0 {
                Some(id.concat(": removed the managed lines"))
            } else {
                let gpus = text::slices(&p.gpus);
                let end = if running {
                    " (restart the container to apply)"
                } else {
                    ""
                };
                Some(
                    id.concat(": wrote ").concat(
                        text::decimal_of(p.desired.len() as u64).as_str(),
                    ).concat(" line(s) for ").concat(
                        text::joined(gpus.as_slice(), ", ").as_str(),
                    ).concat(end),
                )
            },
        }
    }
}

/// One reconcile pass over this node: the inventory it was made with, the
/// `nvidia-uvm` majors this node has written lines with, and how long, in
/// milliseconds, a guest's config lock is waited for.
#[derive(Debug)]
pub struct Pass<'a> {
    pub ctx: &'a Ctx,
    pub inv: &'a Inventory,
    pub remembered_uvm: Vec<u32>,
    pub lock_wait: u64,
    /// Whether this pass has already written the major it is using into the
    /// record: it is one line for the node, not one per guest.
    pub noted_uvm: bool,
}

/// How long, in milliseconds, a command a human is waiting for waits for a
/// lock.
pub const PATIENCE: u64 = 30_000;

/// What a guest's reconcile does next.
#[derive(Debug)]
pub enum Step {
    /// Read the config, without a lock.
    Read,
    /// Take the guest's config lock, waiting so many milliseconds.
    Lock(u64),
    /// Read the config again, under the lock.
    ReadLocked,
    /// Put into the record whether the guest carries managed lines.
    Record(bool, Then),
    /// Put this major into the record.
    Remember(u32, Then),
    /// Replace the config, under the lock, with this text.
    Write(Plan, String),
    /// Take the guest out of the record: its lines are gone.
    Forget(Plan),
    /// It is done, or it failed, and why.
    Done(Result<Done, String>),
}

/// What follows once the record is right.
#[derive(Debug)]
pub enum Then {
    /// The config already is.
    InSync(Plan),
    /// The config is replaced with this text.
    Write(Plan, String),
}

/// What a [`Step`] says.
pub enum StepView {
    Read,
    Lock(u64),
    ReadLocked,
    Record(bool, ThenView),
    Remember(u32, ThenView),
    Write(PlanView, Seq<char>),
    Forget(PlanView),
    Done(Result<DoneView, Seq<char>>),
}

/// What a [`Then`] says.
pub enum ThenView {
    InSync(PlanView),
    Write(PlanView, Seq<char>),
}

impl View for Then {
    type V = ThenView;

    open spec fn view(&self) -> ThenView {
        match self {
            Then::InSync(p) => ThenView::InSync(p@),
            Then::Write(p, s) => ThenView::Write(p@, s@),
        }
    }
}

impl View for Step {
    type V = StepView;

    open spec fn view(&self) -> StepView {
        match self {
            Step::Read => StepView::Read,
            Step::Lock(wait) => StepView::Lock(*wait),
            Step::ReadLocked => StepView::ReadLocked,
            Step::Record(on, t) => StepView::Record(*on, t@),
            Step::Remember(m, t) => StepView::Remember(*m, t@),
            Step::Write(p, s) => StepView::Write(p@, s@),
            Step::Forget(p) => StepView::Forget(p@),
            Step::Done(Ok(d)) => StepView::Done(Ok(d@)),
            Step::Done(Err(e)) => StepView::Done(Err(e@)),
        }
    }
}

/// A guest, with a colon, at the front of what went wrong with it.
pub open spec fn of_guest(vmid: u32, e: Seq<char>) -> Seq<char> {
    "guest "@ + text::decimal(vmid as nat) + ": "@ + e
}

/// Whether a config still names a major this node has written lines with and
/// that no driver holds now. While `nvidia-uvm` is not loaded such a rule is
/// left alone; it is one of this node's all the same.
pub open spec fn left(s: Seq<char>, remembered: Seq<u32>, live: Set<u32>) -> bool {
    exists|m: u32|
        remembered.contains(m) && !live.contains(m) && #[trigger] conf::majors_of(s).contains(m)
}

/// Whether a config carries lines of this node's: ones it may replace now, or
/// ones that are left alone until it may.
pub open spec fn carries(s: Seq<char>, inv: Facts, remembered: Seq<u32>) -> bool {
    conf::managed_of(s, plan::owned_for(inv, remembered)).len() > 0 || left(
        s,
        remembered,
        inv.char_majors,
    )
}

/// What follows a plan made from `s`: nothing but keeping the record right
/// where the config already says so, and `next` where it does not.
pub open spec fn after_plan(
    s: Seq<char>,
    inv: Facts,
    remembered: Seq<u32>,
    o: OutcomeView,
    next: spec_fn(PlanView) -> StepView,
) -> StepView {
    match o {
        OutcomeView::NoDriver => StepView::Done(Ok(DoneView::NoDriver)),
        OutcomeView::Unmanaged => StepView::Done(Ok(DoneView::Unmanaged)),
        OutcomeView::Refused(why) => StepView::Done(Ok(DoneView::Refused(why))),
        OutcomeView::Plan(p) => if p.desired == p.current {
            StepView::Record(
                p.desired.len() > 0 || left(s, remembered, inv.char_majors),
                ThenView::InSync(p),
            )
        } else {
            next(p)
        },
    }
}

/// What a reconcile begins with. A node without a driver does not even read
/// the config.
pub open spec fn begin(inv: Facts) -> StepView {
    if inv.driver {
        StepView::Read
    } else {
        StepView::Done(Ok(DoneView::NoDriver))
    }
}

/// What follows the first read.
pub open spec fn after_read(
    text: Result<Seq<char>, Seq<char>>,
    want: Option<Want>,
    inv: Facts,
    remembered: Seq<u32>,
    managed: bool,
    lock_wait: u64,
) -> StepView {
    match text {
        Err(e) => StepView::Done(Err(e)),
        Ok(s) => match conf::value_in(s, "lock"@) {
            Some(l) => StepView::Done(Ok(DoneView::Locked(l))),
            None => after_plan(
                s,
                inv,
                remembered,
                plan::planned(s, want, inv, remembered, managed),
                |p: PlanView| StepView::Lock(lock_wait),
            ),
        },
    }
}

/// What follows the lock: whether it was taken, or why that failed.
pub open spec fn after_lock(taken: Result<bool, Seq<char>>) -> StepView {
    match taken {
        Err(e) => StepView::Done(Err(e)),
        Ok(true) => StepView::ReadLocked,
        Ok(false) => StepView::Done(
            Ok(DoneView::Locked("another process holds its config lock"@)),
        ),
    }
}

/// What follows the read under the lock. The record is set before a config is
/// written that carries lines.
pub open spec fn after_locked_read(
    text: Result<Seq<char>, Seq<char>>,
    want: Option<Want>,
    inv: Facts,
    remembered: Seq<u32>,
    managed: bool,
) -> StepView {
    match text {
        Err(e) => StepView::Done(Err(e)),
        Ok(s) => match conf::value_in(s, "lock"@) {
            Some(l) => StepView::Done(Ok(DoneView::Locked(l))),
            None => after_plan(
                s,
                inv,
                remembered,
                plan::planned(s, want, inv, remembered, managed),
                |p: PlanView|
                    {
                        let new = conf::spliced(s, p.desired, p.owned);
                        if p.desired.len() > 0 || left(new, remembered, inv.char_majors) {
                            StepView::Record(true, ThenView::Write(p, new))
                        } else {
                            StepView::Write(p, new)
                        }
                    },
            ),
        },
    }
}

/// What follows once the record is right.
pub open spec fn proceed(t: ThenView) -> StepView {
    match t {
        ThenView::InSync(p) => StepView::Done(Ok(DoneView::InSync(p))),
        ThenView::Write(p, s) => StepView::Write(p, s),
    }
}

/// What follows the record. The major in use is written into it once a pass.
pub open spec fn after_record(
    vmid: u32,
    ended: Result<(), Seq<char>>,
    on: bool,
    t: ThenView,
    inv: Facts,
    noted: bool,
) -> StepView {
    match ended {
        Err(e) => StepView::Done(Err(of_guest(vmid, e))),
        Ok(()) => match inv.uvm_major {
            Some(major) => if on && !noted {
                StepView::Remember(major, t)
            } else {
                proceed(t)
            },
            None => proceed(t),
        },
    }
}

/// What follows writing the major down.
pub open spec fn after_remember(ended: Result<(), Seq<char>>, t: ThenView) -> StepView {
    match ended {
        Err(e) => StepView::Done(Err(e)),
        Ok(()) => proceed(t),
    }
}

/// What follows the write of `new`. The record is cleared after lines were
/// removed, if none is left.
pub open spec fn after_write(
    vmid: u32,
    ended: Result<(), Seq<char>>,
    p: PlanView,
    new: Seq<char>,
    inv: Facts,
    remembered: Seq<u32>,
) -> StepView {
    match ended {
        Err(e) => StepView::Done(Err(of_guest(vmid, e))),
        Ok(()) => if p.desired.len() == 0 && !left(new, remembered, inv.char_majors) {
            StepView::Forget(p)
        } else {
            StepView::Done(Ok(DoneView::Wrote(p)))
        },
    }
}

/// What follows clearing the record.
pub open spec fn after_forget(ended: Result<(), Seq<char>>, p: PlanView) -> StepView {
    match ended {
        Err(e) => StepView::Done(Err(e)),
        Ok(()) => StepView::Done(Ok(DoneView::Wrote(p))),
    }
}

impl<'a> Pass<'a> {
    /// A pass for a command a human is waiting for: it may wait a while for a
    /// lock, because it has nothing else to do and nothing else is waiting on
    /// it. `majors` is what the record says of the majors written before; that
    /// it could not be read is said, and the pass goes on without them.
    pub fn new(ctx: &'a Ctx, inv: &'a Inventory, majors: Result<Vec<u32>, String>) -> (r: (
        Pass<'a>,
        Option<String>,
    ))
        ensures
            r.0.ctx == ctx,
            r.0.inv == inv,
            r.0.lock_wait == PATIENCE,
            !r.0.noted_uvm,
            match majors {
                Ok(m) => r.0.remembered_uvm == m && r.1 is None,
                Err(e) => r.0.remembered_uvm@ == Seq::<u32>::empty() && text::opt_text(r.1) == Some(
                    e@ + "; the majors written before are not known"@,
                ),
            },
    {
        let (remembered_uvm, said) = match majors {
            Ok(m) => (m, None),
            Err(e) => (Vec::new(), Some(e.concat("; the majors written before are not known"))),
        };
        (Pass { ctx, inv, remembered_uvm, lock_wait: PATIENCE, noted_uvm: false }, said)
    }

    /// Begins to reconcile one guest of this node.
    pub fn guest(&self) -> (r: Step)
        ensures
            r@ == begin(self.inv@),
    {
        if !self.inv.driver_loaded() {
            Step::Done(Ok(Done::NoDriver))
        } else {
            Step::Read
        }
    }

    fn plan(&self, text: &str, want: Option<&Gpu>, managed: bool) -> (r: Outcome)
        ensures
            r@ == plan::planned(
                text@,
                plan::want_view(want),
                self.inv@,
                self.remembered_uvm@,
                managed,
            ),
    {
        plan::plan(text, want, self.inv, self.remembered_uvm.as_slice(), managed)
    }

    /// Whether a config still names a major this node has written lines with
    /// and that no driver holds now.
    fn has_left(&self, text: &str) -> (r: bool)
        ensures
            r == left(text@, self.remembered_uvm@, self.inv@.char_majors),
    {
        let majors = conf::allow_majors(text);
        let mut i: usize = 0;
        while i < self.remembered_uvm.len()
            invariant
                i <= self.remembered_uvm@.len(),
                majors@ == conf::majors_of(text@),
                forall|j: int|
                    0 <= j < i ==> self.inv@.char_majors.contains(
                        #[trigger] self.remembered_uvm@[j],
                    ) || !majors@.contains(self.remembered_uvm@[j]),
            decreases self.remembered_uvm.len() - i,
        {
            let m: u32 = self.remembered_uvm[i];
            if !self.inv.char_majors.contains(&m) && majors.contains(&m) {
                proof {
                    assert(self.remembered_uvm@.contains(m));
                    assert(conf::majors_of(text@).contains(m));
                }
                return true;
            }
            i += 1;
        }
        proof {
            assert forall|m: u32|
                self.remembered_uvm@.contains(m) && !self.inv@.char_majors.contains(
                    m,
                ) implies !#[trigger] conf::majors_of(text@).contains(m) by {
                let j = choose|j: int|
                    0 <= j < self.remembered_uvm@.len() && self.remembered_uvm@[j] == m;
                assert(self.remembered_uvm@[j] == m);
            }
        }
        false
    }

    /// After the first read, which decides whether anything has to happen at
    /// all. `want` is the guest's `gpu` subtree, already read; `managed`
    /// whether the record says that this node wrote lines into it.
    pub fn read(&self, text: Result<String, String>, want: Option<&Gpu>, managed: bool) -> (r: Step)
        ensures
            r@ == after_read(
                text::result_text(text),
                plan::want_view(want),
                self.inv@,
                self.remembered_uvm@,
                managed,
                self.lock_wait,
            ),
    {
        let text = match text {
            Ok(text) => text,
            Err(e) => {
                return Step::Done(Err(e));
            },
        };
        if let Some(l) = conf::value_of(text.as_str(), "lock") {
            return Step::Done(Ok(Done::Locked(l.to_owned())));
        }
        match self.plan(text.as_str(), want, managed) {
            Outcome::NoDriver => Step::Done(Ok(Done::NoDriver)),
            Outcome::Unmanaged => Step::Done(Ok(Done::Unmanaged)),
            Outcome::Refused(why) => Step::Done(Ok(Done::Refused(why))),
            Outcome::Plan(p) => if !p.changed() {
                let on: bool = p.desired.len() > 0 || self.has_left(text.as_str());
                Step::Record(on, Then::InSync(p))
            } else {
                Step::Lock(self.lock_wait)
            },
        }
    }

    /// After the lock. A guest whose lock somebody else holds, which at boot,
    /// where nothing is waited for, is any guest PVE is touching, is simply
    /// done later.
    pub fn locked(&self, taken: Result<bool, String>) -> (r: Step)
        ensures
            r@ == after_lock(
                match taken {
                    Ok(b) => Ok(b),
                    Err(e) => Err(e@),
                },
            ),
    {
        match taken {
            Err(e) => Step::Done(Err(e)),
            Ok(b) => if b {
                Step::ReadLocked
            } else {
                Step::Done(
                    Ok(Done::Locked("another process holds its config lock".to_owned())),
                )
            },
        }
    }

    /// After the read under the lock. The plan that decides the write is the
    /// one made here, from the file read inside the lock.
    pub fn read_locked(
        &self,
        text: Result<String, String>,
        want: Option<&Gpu>,
        managed: bool,
    ) -> (r: Step)
        ensures
            r@ == after_locked_read(
                text::result_text(text),
                plan::want_view(want),
                self.inv@,
                self.remembered_uvm@,
                managed,
            ),
    {
        let text = match text {
            Ok(text) => text,
            Err(e) => {
                return Step::Done(Err(e));
            },
        };
        if let Some(l) = conf::value_of(text.as_str(), "lock") {
            return Step::Done(Ok(Done::Locked(l.to_owned())));
        }
        match self.plan(text.as_str(), want, managed) {
            Outcome::NoDriver => Step::Done(Ok(Done::NoDriver)),
            Outcome::Unmanaged => Step::Done(Ok(Done::Unmanaged)),
            Outcome::Refused(why) => Step::Done(Ok(Done::Refused(why))),
            Outcome::Plan(p) => if !p.changed() {
                let on: bool = p.desired.len() > 0 || self.has_left(text.as_str());
                Step::Record(on, Then::InSync(p))
            } else {
                let new = conf::splice(text.as_str(), p.desired.as_slice(), &p.owned);
                if p.desired.len() > 0 || self.has_left(new.as_str()) {
                    Step::Record(true, Then::Write(p, new))
                } else {
                    Step::Write(p, new)
                }
            },
        }
    }

    fn next(then: Then) -> (r: Step)
        ensures
            r@ == proceed(then@),
    {
        match then {
            Then::InSync(p) => Step::Done(Ok(Done::InSync(p))),
            Then::Write(p, s) => Step::Write(p, s),
        }
    }

    /// After the record was told whether the guest carries managed lines.
    pub fn recorded(&self, vmid: u32, done: Result<(), String>, on: bool, then: Then) -> (r: Step)
        ensures
            r@ == after_record(vmid, text::outcome(done), on, then@, self.inv@, self.noted_uvm),
    {
        match done {
            Err(e) => Step::Done(
                Err(
                    "guest ".to_owned().concat(text::decimal_of(vmid as u64).as_str()).concat(
                        ": ",
                    ).concat(e.as_str()),
                ),
            ),
            Ok(()) => match self.inv.uvm_major {
                Some(major) => if on && !self.noted_uvm {
                    Step::Remember(major, then)
                } else {
                    Self::next(then)
                },
                None => Self::next(then),
            },
        }
    }

    /// After the major was written into the record. This pass does not do it
    /// again.
    pub fn remembered(&mut self, done: Result<(), String>, then: Then) -> (r: Step)
        ensures
            r@ == after_remember(text::outcome(done), then@),
            final(self).noted_uvm == (old(self).noted_uvm || done is Ok),
            final(self).ctx == old(self).ctx,
            final(self).inv == old(self).inv,
            final(self).remembered_uvm == old(self).remembered_uvm,
            final(self).lock_wait == old(self).lock_wait,
    {
        match done {
            Err(e) => Step::Done(Err(e)),
            Ok(()) => {
                self.noted_uvm = true;
                Self::next(then)
            },
        }
    }

    /// After the config was replaced with `new`. The record is true whenever
    /// the config might carry lines: with `nvidia-uvm` out, the rules of its
    /// majors are left alone, and so is the record.
    pub fn written(&self, vmid: u32, done: Result<(), String>, p: Plan, new: &str) -> (r: Step)
        ensures
            r@ == after_write(
                vmid,
                text::outcome(done),
                p@,
                new@,
                self.inv@,
                self.remembered_uvm@,
            ),
    {
        match done {
            Err(e) => Step::Done(
                Err(
                    "guest ".to_owned().concat(text::decimal_of(vmid as u64).as_str()).concat(
                        ": ",
                    ).concat(e.as_str()),
                ),
            ),
            Ok(()) => if p.desired.len() == 0 && !self.has_left(new) {
                Step::Forget(p)
            } else {
                Step::Done(Ok(Done::Wrote(p)))
            },
        }
    }

    /// After the guest was taken out of the record.
    pub fn forgotten(&self, done: Result<(), String>, p: Plan) -> (r: Step)
        ensures
            r@ == after_forget(text::outcome(done), p@),
    {
        match done {
            Err(e) => Step::Done(Err(e)),
            Ok(()) => Step::Done(Ok(Done::Wrote(p))),
        }
    }

    /// Begins to reconcile a guest whose document was asked for: one that
    /// could not be read is that guest's error, and its config is not touched.
    pub fn one(&self, want: Result<Option<Gpu>, String>) -> (r: (Step, Option<Gpu>))
        ensures
            match want {
                Ok(w) => r.0@ == begin(self.inv@) && r.1 == w,
                Err(e) => r.0@ == StepView::Done(Err(e@)) && r.1 is None,
            },
    {
        match want {
            Ok(w) => (self.guest(), w),
            Err(e) => (Step::Done(Err(e)), None),
        }
    }
}

// ---------------------------------------------------------------------------
// Every guest.
// ---------------------------------------------------------------------------

/// A pass over every container of this node.
#[derive(Debug)]
pub struct Walk {
    local: Vec<u32>,
    done: Vec<(u32, Result<Done, String>)>,
}

/// What a [`Walk`] says: the containers, and what was done with those it has
/// come to, each with its vmid.
pub struct WalkView {
    pub local: Seq<u32>,
    pub done: Seq<(u32, Result<DoneView, Seq<char>>)>,
}

/// What reconciling a guest came to.
pub open spec fn done_view(r: Result<Done, String>) -> Result<DoneView, Seq<char>> {
    match r {
        Ok(d) => Ok(d@),
        Err(e) => Err(e@),
    }
}

/// What reconciling several guests came to.
pub open spec fn all_done(s: Seq<(u32, Result<Done, String>)>) -> Seq<
    (u32, Result<DoneView, Seq<char>>),
> {
    s.map_values(|d: (u32, Result<Done, String>)| (d.0, done_view(d.1)))
}

impl View for Walk {
    type V = WalkView;

    closed spec fn view(&self) -> WalkView {
        WalkView { local: self.local@, done: all_done(self.done@) }
    }
}

/// The guest a walk comes to next, or none once it has come to all.
pub open spec fn next_of(w: WalkView) -> Option<u32> {
    if w.done.len() < w.local.len() {
        Some(w.local[w.done.len() as int])
    } else {
        None
    }
}

/// The walk after the next guest was done, or could not be: either way it goes
/// on to the one after.
pub open spec fn walked(w: WalkView, done: Result<DoneView, Seq<char>>) -> WalkView {
    match next_of(w) {
        Some(vmid) => WalkView { done: w.done.push((vmid, done)), ..w },
        None => w,
    }
}

/// What holds of a walk at all times: it has come to the first of the
/// containers, in their order, and to each of them once.
pub open spec fn in_step(w: WalkView) -> bool {
    w.done.len() <= w.local.len() && forall|i: int|
        0 <= i < w.done.len() ==> (#[trigger] w.done[i]).0 == w.local[i]
}

impl Walk {
    /// The guest that is next, or none once all are done.
    pub fn next(&self) -> (r: Option<u32>)
        ensures
            r == next_of(self@),
    {
        if self.done.len() < self.local.len() {
            Some(self.local[self.done.len()])
        } else {
            None
        }
    }

    /// Takes what reconciling the next guest came to. One guest's broken
    /// document or unreadable config is that guest's problem: the others are
    /// still done.
    pub fn take(&mut self, done: Result<Done, String>)
        ensures
            final(self)@ == walked(old(self)@, done_view(done)),
            in_step(old(self)@) ==> in_step(final(self)@),
    {
        let ghost before = self@;
        if self.done.len() < self.local.len() {
            let vmid: u32 = self.local[self.done.len()];
            self.done.push((vmid, done));
            proof {
                assert(self@.done =~= before.done.push((vmid, done_view(done))));
            }
        }
    }

    /// What was done, in the order it was done.
    pub fn finish(self) -> (r: Vec<(u32, Result<Done, String>)>)
        ensures
            all_done(r@) == self@.done,
    {
        self.done
    }
}

impl<'a> Pass<'a> {
    /// Begins to reconcile every container of this node: `local` are its
    /// containers, in vmid order, and `retained` is whether every other guest
    /// could be taken out of the record.
    pub fn all(&self, local: Vec<u32>, retained: Result<(), String>) -> (r: Result<Walk, String>)
        ensures
            match (retained, r) {
                (Ok(()), Ok(w)) => w@.local == local@ && w@.done.len() == 0 && in_step(w@),
                (Err(why), Err(e)) => e@ == why@,
                _ => false,
            },
    {
        match retained {
            Ok(()) => Ok(Walk { local, done: Vec::new() }),
            Err(e) => Err(e),
        }
    }
}

/// A walk that has come to its end has come to every container once, in vmid
/// order, whatever became of each.
pub proof fn law_every_guest_is_walked_once(w: WalkView)
    requires
        in_step(w),
        next_of(w) is None,
    ensures
        w.done.map_values(|d: (u32, Result<DoneView, Seq<char>>)| d.0) == w.local,
{
    assert(w.done.map_values(|d: (u32, Result<DoneView, Seq<char>>)| d.0) =~= w.local);
}

/// One guest's error is that guest's: whatever came of one, the walk goes on to
/// the next, and what was done before it stays as it is.
pub proof fn law_one_guests_error_is_its_own(
    w: WalkView,
    a: Result<DoneView, Seq<char>>,
    b: Result<DoneView, Seq<char>>,
)
    requires
        next_of(w) is Some,
    ensures
        next_of(walked(w, a)) == next_of(walked(w, b)),
        walked(w, a).done.drop_last() == w.done,
        walked(w, a).done.last() == (next_of(w)->Some_0, a),
{
    assert(walked(w, a).done.drop_last() =~= w.done);
}

// ---------------------------------------------------------------------------
// At a terminal.
// ---------------------------------------------------------------------------

/// What is said of one guest: every note of its plan, then what was done.
pub open spec fn reported(vmid: u32, d: DoneView, running: bool) -> Seq<Seq<char>> {
    let id = text::decimal(vmid as nat);
    let notes = match plan_of(d) {
        Some(p) => text::prefixed(id + ": "@, p.notes),
        None => Seq::empty(),
    };
    notes + match d {
        DoneView::InSync(p) => if p.desired.len() == 0 {
            Seq::empty()
        } else {
            seq![id + ": in sync ("@ + text::join(p.gpus, ", "@) + ")"@]
        },
        _ => match described(d, vmid, running) {
            Some(line) => seq![line],
            None => Seq::empty(),
        },
    }
}

/// What is said of one guest, at a terminal: every note and every refusal.
pub fn report(vmid: u32, done: &Done, running: bool) -> (r: Vec<String>)
    ensures
        text::texts(r@) == reported(vmid, done@, running),
{
    let mut out: Vec<String> = Vec::new();
    proof {
        assert(text::texts(out@) =~= Seq::empty());
    }
    let prefix = text::decimal_of(vmid as u64).concat(": ");
    if let Some(p) = done.plan() {
        text::push_prefixed(&mut out, prefix.as_str(), &p.notes);
    }
    let ghost notes = text::texts(out@);
    proof {
        assert(notes =~= match plan_of(done@) {
            Some(p) => text::prefixed(prefix@, p.notes),
            None => Seq::empty(),
        });
        assert(notes + Seq::<Seq<char>>::empty() =~= notes);
    }
    match done {
        Done::InSync(p) => if p.desired.len() > 0 {
            let gpus = text::slices(&p.gpus);
            let line = text::decimal_of(vmid as u64).concat(": in sync (").concat(
                text::joined(gpus.as_slice(), ", ").as_str(),
            ).concat(")");
            proof {
                text::lemma_texts_push(out@, line);
                assert(notes.push(line@) =~= notes + seq![line@]);
            }
            out.push(line);
        },
        other => {
            if let Some(line) = other.describe(vmid, running) {
                proof {
                    text::lemma_texts_push(out@, line);
                    assert(notes.push(line@) =~= notes + seq![line@]);
                }
                out.push(line);
            }
        },
    }
    out
}

/// Why a command that needs the inventory ends badly without one.
pub open spec fn unread(node: Seq<char>, e: Seq<char>) -> Seq<char> {
    "the GPUs of "@ + node + " could not be read: "@ + e
}

/// What is said before anything else, where nothing is reconciled: `failed` is
/// why the inventory could not be read.
pub open spec fn opening(node: Seq<char>, failed: Option<Seq<char>>, inv: Facts) -> Option<
    Seq<char>,
> {
    match failed {
        Some(e) => Some(unread(node, e) + "; nothing is reconciled"@),
        None => if inv.driver {
            None
        } else {
            Some(
                "no NVIDIA driver on "@ + node
                    + " (no /proc/driver/nvidia); nothing is reconciled"@,
            )
        },
    }
}

/// What is said before anything else, where nothing is reconciled: `failed` is
/// why the inventory could not be read.
pub fn headline(node: &str, failed: Option<&str>, inv: &Inventory) -> (r: Option<String>)
    ensures
        text::opt_text(r) == opening(node@, text::opt_view(failed), inv@),
{
    match failed {
        Some(e) => Some(
            "the GPUs of ".to_owned().concat(node).concat(" could not be read: ").concat(e).concat(
                "; nothing is reconciled",
            ),
        ),
        None => if inv.driver_loaded() {
            None
        } else {
            Some(
                "no NVIDIA driver on ".to_owned().concat(node).concat(
                    " (no /proc/driver/nvidia); nothing is reconciled",
                ),
            )
        },
    }
}

/// How the command ends once its rows are printed: `failed` is why the
/// inventory could not be read, `named` the guest that was named, if one was,
/// and what was done with it.
pub open spec fn judged(
    node: Seq<char>,
    failed: Option<Seq<char>>,
    named: Option<(u32, DoneView)>,
) -> Result<(), Seq<char>> {
    match failed {
        Some(e) => Err(unread(node, e)),
        None => match named {
            Some((vmid, done)) => match done {
                DoneView::Refused(why) => Err(text::decimal(vmid as nat) + ": "@ + why),
                DoneView::Locked(l) => Err(
                    text::decimal(vmid as nat) + ": the config is locked ("@ + l + ")"@,
                ),
                _ => Ok(()),
            },
            None => Ok(()),
        },
    }
}

/// The guest that was named, and what was done with it.
pub open spec fn named_view(named: Option<(u32, &Done)>) -> Option<(u32, DoneView)> {
    match named {
        Some((vmid, done)) => Some((vmid, done@)),
        None => None,
    }
}

/// How the command ends once its rows are printed. An inventory that could not
/// be read ends it badly: a caller that scripts this must not read "nothing to
/// do" as "done". So does a refusal or a lock of the one guest that was named.
pub fn verdict(node: &str, failed: Option<&str>, named: Option<(u32, &Done)>) -> (r: Result<
    (),
    String,
>)
    ensures
        text::outcome(r) == judged(node@, text::opt_view(failed), named_view(named)),
{
    match failed {
        Some(e) => Err(
            "the GPUs of ".to_owned().concat(node).concat(" could not be read: ").concat(e),
        ),
        None => match named {
            Some((vmid, done)) => match done {
                Done::Refused(why) => Err(
                    text::decimal_of(vmid as u64).concat(": ").concat(why.as_str()),
                ),
                Done::Locked(l) => Err(
                    text::decimal_of(vmid as u64).concat(": the config is locked (").concat(
                        l.as_str(),
                    ).concat(")"),
                ),
                _ => Ok(()),
            },
            None => Ok(()),
        },
    }
}

/// Whether a guest that was named is one of this node's containers.
pub open spec fn of_this_node(node: Seq<char>, vmid: u32, local: Seq<u32>) -> Result<
    (),
    Seq<char>,
> {
    if local.contains(vmid) {
        Ok(())
    } else {
        Err(text::decimal(vmid as nat) + " is not a container of this node ("@ + node + ")"@)
    }
}

/// Whether a guest that was named is one of this node's containers.
pub fn check_local(node: &str, vmid: u32, local: &[u32]) -> (r: Result<(), String>)
    ensures
        text::outcome(r) == of_this_node(node@, vmid, local@),
{
    if crate::node::is_among(local, vmid) {
        Ok(())
    } else {
        Err(
            text::decimal_of(vmid as u64).concat(" is not a container of this node (").concat(
                node,
            ).concat(")"),
        )
    }
}

// ---------------------------------------------------------------------------
// What reconciling promises.
// ---------------------------------------------------------------------------

/// Whether a step is on the way to a write.
pub open spec fn writes(s: StepView) -> bool {
    match s {
        StepView::Write(_, _) => true,
        StepView::Record(_, ThenView::Write(_, _)) => true,
        StepView::Remember(_, ThenView::Write(_, _)) => true,
        _ => false,
    }
}

/// The plan and the text of a step that is on the way to a write.
pub open spec fn writing(s: StepView) -> (PlanView, Seq<char>) {
    match s {
        StepView::Write(p, t) => (p, t),
        StepView::Record(_, ThenView::Write(p, t)) => (p, t),
        StepView::Remember(_, ThenView::Write(p, t)) => (p, t),
        _ => arbitrary(),
    }
}

/// The first read, without a lock, never leads to a write but through the
/// lock; and what is written is the plan made from the text read under it.
pub proof fn law_a_write_is_planned_under_the_lock(
    text: Result<Seq<char>, Seq<char>>,
    want: Option<Want>,
    inv: Facts,
    remembered: Seq<u32>,
    managed: bool,
    lock_wait: u64,
)
    ensures
        !writes(begin(inv)),
        !writes(after_read(text, want, inv, remembered, managed, lock_wait)),
        ({
            let s = after_locked_read(text, want, inv, remembered, managed);
            let (p, new) = writing(s);
            writes(s) ==> text is Ok && plan::planned(
                text->Ok_0,
                want,
                inv,
                remembered,
                managed,
            ) == OutcomeView::Plan(p) && p.desired != p.current && new == conf::spliced(
                text->Ok_0,
                p.desired,
                p.owned,
            )
        }),
{
}

/// Nothing is written where the managed lines are already what they should
/// be, where PVE holds the config, or where the config could not be read.
pub proof fn law_an_unchanged_guest_is_not_written(
    text: Result<Seq<char>, Seq<char>>,
    want: Option<Want>,
    inv: Facts,
    remembered: Seq<u32>,
    managed: bool,
    lock_wait: u64,
)
    requires
        text matches Ok(s) ==> conf::value_in(s, "lock"@) is Some || (plan::planned(
            s,
            want,
            inv,
            remembered,
            managed,
        ) matches OutcomeView::Plan(p) ==> p.desired == p.current),
    ensures
        !(after_read(text, want, inv, remembered, managed, lock_wait) is Lock),
        !writes(after_locked_read(text, want, inv, remembered, managed)),
{
}

/// The record is set before lines are written: a step that writes a config with
/// lines is only reached through one that told the record so, and did.
pub proof fn law_the_record_is_set_before_lines_are_written(
    text: Result<Seq<char>, Seq<char>>,
    want: Option<Want>,
    inv: Facts,
    remembered: Seq<u32>,
    managed: bool,
    vmid: u32,
    done: Result<(), Seq<char>>,
    on: bool,
    t: ThenView,
    noted: bool,
)
    ensures
        after_locked_read(text, want, inv, remembered, managed) matches StepView::Write(p, new)
            ==> p.desired.len() == 0 && !left(new, remembered, inv.char_majors),
        after_locked_read(text, want, inv, remembered, managed) matches StepView::Record(
            on,
            ThenView::Write(_, _),
        ) ==> on,
        writes(after_record(vmid, done, on, t, inv, noted)) ==> done is Ok,
        writes(after_remember(done, t)) ==> done is Ok,
{
}

/// The record is cleared after lines were removed: where a write took the lines
/// out and left none, the guest is only done once the record was cleared; where
/// it left some, the guest stays recorded.
pub proof fn law_the_record_is_cleared_after_lines_are_removed(
    vmid: u32,
    done: Result<(), Seq<char>>,
    p: PlanView,
    new: Seq<char>,
    inv: Facts,
    remembered: Seq<u32>,
)
    ensures
        after_write(vmid, done, p, new, inv, remembered) is Forget <==> done is Ok
            && p.desired.len() == 0 && !left(new, remembered, inv.char_majors),
        after_write(vmid, done, p, new, inv, remembered) matches StepView::Done(Ok(_))
            ==> p.desired.len() > 0 || left(new, remembered, inv.char_majors),
        after_forget(done, p) matches StepView::Done(Ok(_)) ==> done is Ok,
{
}

/// No lines without a record: a guest is only taken out of the record, after a
/// read or after a write, where its config carries no line of this node's, not
/// even one that is left alone for now; and it is in the record before a config
/// is written that carries one.
pub proof fn law_no_lines_are_without_a_record(
    text: Seq<char>,
    want: Option<Want>,
    inv: Facts,
    remembered: Seq<u32>,
    managed: bool,
    lock_wait: u64,
    vmid: u32,
    done: Result<(), Seq<char>>,
)
    ensures
        after_read(Ok(text), want, inv, remembered, managed, lock_wait) matches StepView::Record(
            on,
            _,
        ) ==> on == carries(text, inv, remembered),
        ({
            let s = after_locked_read(Ok(text), want, inv, remembered, managed);
            let (p, new) = writing(s);
            &&& s matches StepView::Record(on, ThenView::InSync(_)) ==> on == carries(
                text,
                inv,
                remembered,
            )
            &&& writes(s) && carries(new, inv, remembered) ==> s == StepView::Record(
                true,
                ThenView::Write(p, new),
            )
            &&& writes(s) && after_write(vmid, done, p, new, inv, remembered) is Forget
                ==> !carries(new, inv, remembered)
        }),
{
    let owned = plan::owned_for(inv, remembered);
    let s = after_locked_read(Ok(text), want, inv, remembered, managed);
    let (p, new) = writing(s);
    if writes(s) && p.desired.len() == 0 {
        assert(p.desired =~= Seq::empty());
        conf::law_splice_is_read_back(text, p.desired, owned);
    }
}

/// With `nvidia-uvm` loaded nothing is left: taking a guest's lines out takes
/// all of them out, and the guest leaves the record.
pub proof fn law_with_uvm_nothing_is_left(
    text: Seq<char>,
    inv: Facts,
    remembered: Seq<u32>,
    vmid: u32,
    p: PlanView,
)
    requires
        inv.uvm_major is Some,
        p.desired.len() == 0,
    ensures
        ({
            let new = conf::spliced(text, Seq::empty(), plan::owned_for(inv, remembered));
            &&& !left(new, remembered, inv.char_majors)
            &&& after_write(vmid, Ok(()), p, new, inv, remembered) == StepView::Forget(p)
        }),
{
    let owned = plan::owned_for(inv, remembered);
    let new = conf::spliced(text, Seq::empty(), owned);
    conf::law_splice_is_read_back(text, Seq::empty(), owned);
    assert forall|m: u32|
        remembered.contains(m) && !inv.char_majors.contains(m) implies !#[trigger] conf::majors_of(
        new,
    ).contains(m) by {
        assert(owned.contains(m));
        if conf::majors_of(new).contains(m) {
            conf::lemma_owned_major_is_managed(new, owned, m);
        }
    }
}

/// The major in use is written into the record once a pass, and only for a
/// guest that carries lines.
pub proof fn law_the_major_is_noted_once_a_pass(
    vmid: u32,
    done: Result<(), Seq<char>>,
    on: bool,
    t: ThenView,
    inv: Facts,
    noted: bool,
)
    ensures
        after_record(vmid, done, on, t, inv, noted) matches StepView::Remember(major, _) ==> !noted
            && on && inv.uvm_major == Some(major),
        done is Ok && on && !noted && inv.uvm_major is Some ==> after_record(
            vmid,
            done,
            on,
            t,
            inv,
            noted,
        ) is Remember,
{
}

/// A guest that was written and is read again, with nothing else changed, is
/// in sync: a node at rest writes nothing.
pub proof fn law_a_written_guest_is_in_sync(
    text: Seq<char>,
    want: Option<Want>,
    inv: Facts,
    remembered: Seq<u32>,
    managed: bool,
    lock_wait: u64,
)
    requires
        want matches Some(w) ==> crate::doc::valid(w),
        crate::inventory::all_tidy(inv.gpus),
        writes(after_locked_read(Ok(text), want, inv, remembered, managed)),
    ensures
        ({
            let (p, new) = writing(
                after_locked_read(Ok(text), want, inv, remembered, managed),
            );
            after_read(Ok(new), want, inv, remembered, managed, lock_wait) == StepView::Record(
                p.desired.len() > 0 || left(new, remembered, inv.char_majors),
                ThenView::InSync(PlanView { current: p.desired, ..p }),
            )
        }),
{
    let (p, new) = writing(after_locked_read(Ok(text), want, inv, remembered, managed));
    plan::law_a_written_plan_is_settled(text, want, inv, remembered, managed);
    if let Some(w) = want {
        plan::law_desired_lines_are_ours(w, inv, remembered);
    }
    conf::law_splice_keeps_what_is_said(text, p.desired, p.owned);
    reveal_strlit("lock");
    reveal_strlit("lxc.cgroup2.devices.allow");
    reveal_strlit("lxc.hook.mount");
    reveal_strlit("lxc.environment");
    assert("lock"@.len() == 4);
    assert(conf::value_in(new, "lock"@) == conf::value_in(text, "lock"@));
}

} // verus!
