//! The loop, one per node, acting only on the containers whose config lives
//! on this node. PVE keeps exactly one owner per guest, so a daemon on every
//! node never overlaps, and a migration moves the responsibility with the
//! guest.
//!
//! **The change signal is a `stat`.** Every [`Timing::poll`] the loop reads
//! the vmlist and stats each local guest's document; a document whose stamp
//! moved is read again through the `pve-meta` CLI, which owns every rule about
//! what a document means. Every [`Timing::full`] each of them is read again
//! anyway, because a stamp is a hint and a rewrite inside one clock tick could
//! look like none.
//!
//! Planning runs every poll for every local container: it is a config-file
//! read and a few string comparisons, and it is what catches a `pct set`, a
//! snapshot rollback or a hand edit with no second timer and no memo that can
//! go stale. Nothing is written when the lines are already right.
//!
//! The node's GPUs are read at the top of every poll, so a driver update
//! without a reboot is noticed within ten seconds and every managed line
//! carrying the old major is rewritten. This node's prefix file is written
//! afterwards, when the cards changed or the slow pass comes round, and on the
//! boot pass **after** ready.
//!
//! **The first pass is the boot pass.** The unit is ordered before
//! `pve-guests.service`, so the containers PVE starts at boot are started from
//! configs that carry this boot's majors. What it promises is bounded and no
//! more than that: the inventory, then up to [`Timing::boot`] of guests, taken
//! in vmid order with no lock waited for; the rest follow in the ordinary loop
//! a poll later.
//!
//! **Nothing unknown is treated as fact.**
//!
//! * The vmlist cannot be read: the poll ends, nothing is reconciled. An
//!   unmounted pmxcfs must never read as "no guest wants a GPU".
//! * The inventory could not be read: the last good one is kept and the
//!   reconcile phase is skipped entirely. Reconciling against a *guess* about
//!   the hardware is how a container loses the GPU it had. The prefix file is
//!   still kept true to the last good one.
//! * One guest's document cannot be read or does not parse: that guest is
//!   skipped, with its state logged once, and every other guest of the node is
//!   reconciled as usual. A typo in one document never freezes a node, least
//!   of all at boot.
//!
//! A poll is a sequence of things to be done, each a [`Phase`]; what came of
//! one decides the next. What is said on the way is kept in the [`Log`].

use std::collections::BTreeMap;

use vstd::prelude::*;

use crate::doc::{answer_view, Gpu, Want};
use crate::inventory::{Facts, Inventory};
use crate::node::is_among;
use crate::ops::inventory::{action_line, major, major_text, word};
pub use crate::ops::log::Log;
use crate::ops::log::{is_news, once, say, settled, LogView};
use crate::ops::reconcile::{described, done_view, plan_of, Done, DoneView};
use crate::prefix::{self, Action};
use crate::text;

verus! {

broadcast use {vstd::std_specs::btree::group_btree_axioms, vstd::laws_cmp::group_laws_cmp};

/// How often the loop does what, in milliseconds.
#[derive(Debug, Clone, Copy, PartialEq, Eq, Structural)]
pub struct Timing {
    /// How often everything is planned.
    pub poll: u64,
    /// How often every document is read again, stamps or no stamps.
    pub full: u64,
    /// How long a pass waits for a guest's config lock before leaving it to
    /// the next poll. The boot pass waits not at all (see [`Timing::boot`]).
    pub lock_wait: u64,
    /// What the first pass may spend on guests before it reports ready.
    ///
    /// The boot pass is ordered before `pve-guests.service`, so every second
    /// it takes is a second before the containers start. If it took longer
    /// than the unit's start timeout, systemd would kill it, the ordering
    /// would be satisfied anyway, and the containers would start with last
    /// boot's major. So it is given a budget, takes locks without waiting, and
    /// hands whatever is left to the ordinary loop.
    pub boot: u64,
}

impl Default for Timing {
    fn default() -> (r: Timing)
        ensures
            r == (Timing { poll: 10_000, full: 300_000, lock_wait: 5_000, boot: 60_000 }),
    {
        Timing { poll: 10_000, full: 300_000, lock_wait: 5_000, boot: 60_000 }
    }
}

/// When a document was last modified, and its size.
pub type Stamp = (i64, i64, u64);

/// A guest's document as the loop last read it, with the stamp it was read at.
#[derive(Debug)]
pub struct Cached {
    pub stamp: Option<Stamp>,
    /// The parsed subtree, or why it could not be had.
    pub state: Result<Option<Gpu>, String>,
}

/// What a [`Cached`] says.
pub struct CachedView {
    pub stamp: Option<Stamp>,
    pub state: Result<Option<Want>, Seq<char>>,
}

impl View for Cached {
    type V = CachedView;

    open spec fn view(&self) -> CachedView {
        CachedView { stamp: self.stamp, state: answer_view(self.state) }
    }
}

/// What the documents say.
pub open spec fn docs_view(m: Map<u32, Cached>) -> Map<u32, CachedView> {
    m.map_values(|c: Cached| c@)
}

// ---------------------------------------------------------------------------
// The rules.
// ---------------------------------------------------------------------------

/// Whether a budgeted pass has run out of time.
pub open spec fn is_spent(budget: Option<u64>, now: u64) -> bool {
    budget matches Some(deadline) && now >= deadline
}

/// Whether a budgeted pass has run out of time. `None` is no budget: an
/// ordinary poll has all the time it needs, because nothing waits on it.
pub fn spent(budget: Option<u64>, now: u64) -> (r: bool)
    ensures
        r == is_spent(budget, now),
{
    match budget {
        Some(deadline) => now >= deadline,
        None => false,
    }
}

/// The boot pass's deadline.
pub open spec fn deadline_from(boot: bool, at: u64, timing: Timing) -> Option<u64> {
    if boot {
        Some(
            if at + timing.boot > u64::MAX {
                u64::MAX
            } else {
                (at + timing.boot) as u64
            },
        )
    } else {
        None
    }
}

/// The boot pass's deadline, started **when the guests start**: `at` is a
/// timestamp taken after the inventory, which is not inside the budget.
pub fn budget_from(boot: bool, at: u64, timing: Timing) -> (r: Option<u64>)
    ensures
        r == deadline_from(boot, at, timing),
{
    if boot {
        if timing.boot > u64::MAX - at {
            Some(u64::MAX)
        } else {
            Some(at + timing.boot)
        }
    } else {
        None
    }
}

/// What being out of time means for whoever reads the journal.
pub open spec fn late(guests: nat) -> Seq<char> {
    "the boot pass is out of time with "@ + text::decimal(guests)
        + " guest(s) left; they follow in the loop within a poll, and a container of theirs that starts first starts without its GPU until it is restarted"@
}

/// What being out of time means for whoever reads the journal.
pub fn out_of_time(guests: usize) -> (r: String)
    ensures
        r@ == late(guests as nat),
{
    "the boot pass is out of time with ".to_owned().concat(
        text::decimal_of(guests as u64).as_str(),
    ).concat(
        " guest(s) left; they follow in the loop within a poll, and a container of theirs that starts first starts without its GPU until it is restarted",
    )
}

/// Where this poll's answer for one guest comes from.
#[derive(Debug, Clone, Copy, PartialEq, Eq, Structural)]
pub enum Source {
    /// The last read still stands.
    Cached,
    /// There is no document, so there is no `gpu` key; no process is run.
    Absent,
    /// Ask the `pve-meta` CLI.
    Read,
}

/// Where a poll's answer for one guest comes from.
pub open spec fn source(
    cached: Option<CachedView>,
    stamp: Option<Stamp>,
    stamped_ok: bool,
    full: bool,
    managed: bool,
) -> Source {
    if !stamped_ok {
        Source::Read
    } else if stamp is None && !managed {
        Source::Absent
    } else {
        match cached {
            Some(c) => if !full && c.stamp == stamp {
                Source::Cached
            } else {
                Source::Read
            },
            None => Source::Read,
        }
    }
}

/// What is known of a document.
pub open spec fn cached_view(c: Option<&Cached>) -> Option<CachedView> {
    match c {
        Some(c) => Some(c@),
        None => None,
    }
}

/// Whether two stamps are the same.
fn same_stamp(a: Option<Stamp>, b: Option<Stamp>) -> (r: bool)
    ensures
        r == (a == b),
{
    match (a, b) {
        (Some(a), Some(b)) => a.0 == b.0 && a.1 == b.1 && a.2 == b.2,
        (None, None) => true,
        _ => false,
    }
}

/// The one rule that decides what a poll costs:
///
/// * **the stat did not answer**: the document is read, and whatever is wrong
///   with the store is `pve-meta`'s to report, per guest;
/// * **no document file, and this node wrote no lines into that guest**: it
///   has no `gpu` key, and forking to be told so costs a process per guest per
///   poll. Never inferred for a guest in the record: there "no key" means
///   "remove the lines", which is not a conclusion to draw from a path;
/// * **the same stamp as the last read, outside the full pass**: the cached
///   read stands.
pub fn source_of(
    cached: Option<&Cached>,
    stamp: Option<Stamp>,
    stamped_ok: bool,
    full: bool,
    managed: bool,
) -> (r: Source)
    ensures
        r == source(cached_view(cached), stamp, stamped_ok, full, managed),
{
    if !stamped_ok {
        return Source::Read;
    }
    if stamp.is_none() && !managed {
        return Source::Absent;
    }
    match cached {
        Some(c) => if !full && same_stamp(c.stamp, stamp) {
            Source::Cached
        } else {
            Source::Read
        },
        None => Source::Read,
    }
}

/// The guests among `local` whose document was read, with the subtree each
/// asks for.
pub open spec fn readable(docs: Map<u32, CachedView>, local: Seq<u32>) -> Seq<(u32, Option<Want>)>
    decreases local.len(),
{
    if local.len() == 0 {
        Seq::empty()
    } else {
        let before = readable(docs, local.drop_last());
        let vmid = local.last();
        if docs.contains_key(vmid) && docs[vmid].state is Ok {
            before.push((vmid, docs[vmid].state->Ok_0))
        } else {
            before
        }
    }
}

/// What a list of guests and the subtrees they ask for says.
pub open spec fn due_view(s: Seq<(u32, Option<&Gpu>)>) -> Seq<(u32, Option<Want>)> {
    s.map_values(|d: (u32, Option<&Gpu>)| (d.0, crate::plan::want_view(d.1)))
}

/// The guests this tick reconciles, with the subtree each asks for: those
/// whose document was read. A guest whose document could not be read or did
/// not parse is left out, and nothing else is: one bad document must never
/// cost the node a pass.
pub fn reconcilable<'a>(docs: &'a BTreeMap<u32, Cached>, local: &[u32]) -> (r: Vec<
    (u32, Option<&'a Gpu>),
>)
    ensures
        due_view(r@) == readable(docs_view(docs@), local@),
{
    let ghost all = docs_view(docs@);
    let mut out: Vec<(u32, Option<&'a Gpu>)> = Vec::new();
    let mut i: usize = 0;
    proof {
        assert(due_view(out@) =~= readable(all, local@.take(0)));
    }
    while i < local.len()
        invariant
            i <= local@.len(),
            all == docs_view(docs@),
            due_view(out@) == readable(all, local@.take(i as int)),
        decreases local.len() - i,
    {
        let vmid: u32 = local[i];
        let ghost before = out@;
        proof {
            assert(local@.take(i + 1).last() == vmid);
            assert(local@.take(i + 1).drop_last() =~= local@.take(i as int));
        }
        if let Some(c) = docs.get(&vmid) {
            if let Ok(want) = &c.state {
                let want: Option<&'a Gpu> = match want {
                    Some(g) => Some(g),
                    None => None,
                };
                out.push((vmid, want));
                proof {
                    assert(due_view(out@) =~= due_view(before).push(
                        (vmid, crate::plan::want_view(want)),
                    ));
                }
            }
        }
        i += 1;
    }
    proof {
        assert(local@.take(local@.len() as int) =~= local@);
    }
    out
}

// ---------------------------------------------------------------------------
// One poll.
// ---------------------------------------------------------------------------

/// What the loop does next. Between two of these, and before a command that
/// may take a while, the watchdog is told that the loop is alive.
#[derive(Debug, Clone, Copy, PartialEq, Eq, Structural)]
pub enum Phase {
    /// Wait for the next poll, and [`Daemon::tick`].
    Idle,
    /// Read the node's GPUs, then [`Daemon::take_inventory`].
    Inventory,
    /// Read the vmlist, then [`Daemon::take_vmlist`].
    Vmlist,
    /// Forget every guest that is no longer local, then [`Daemon::retained`].
    Record,
    /// Look at the clock, for the document of this local guest, then
    /// [`Daemon::document_turn`].
    DocumentTurn(usize),
    /// Stat the document of this local guest, then [`Daemon::stamped`].
    Stat(usize),
    /// Read the document of this local guest, then [`Daemon::read_document`].
    Document(usize),
    /// Read the majors in the record, then [`Daemon::take_majors`].
    Majors,
    /// Read which containers run, then [`Daemon::take_running`].
    Running,
    /// Look at the clock, for this guest that is due, then
    /// [`Daemon::guest_turn`].
    GuestTurn(usize),
    /// Reconcile this guest that is due, then [`Daemon::reconciled`].
    Guest(usize),
    /// Publish the inventory as this node's prefix file, then
    /// [`Daemon::note_published`].
    Publish,
}

/// What one poll has found out so far.
#[derive(Debug)]
pub struct Tick {
    /// Whether this is the boot pass.
    pub boot: bool,
    /// When it began.
    pub now: u64,
    /// Whether the inventory was read in this poll.
    pub fresh: bool,
    /// When the boot pass is out of time.
    pub budget: Option<u64>,
    /// Whether every document is read again.
    pub full: bool,
    /// This node's containers, in vmid order.
    pub local: Vec<u32>,
    /// How many guests' documents the boot pass had no time for.
    pub skipped: usize,
    /// The stamp of the document that is being read.
    pub stamp: Option<Stamp>,
    /// The majors this node has written lines with.
    pub remembered: Vec<u32>,
    /// The containers that run.
    pub running: Vec<u32>,
    /// The guests to be reconciled.
    pub due: Vec<u32>,
}

/// What a [`Tick`] says.
pub struct TickView {
    pub boot: bool,
    pub now: u64,
    pub fresh: bool,
    pub budget: Option<u64>,
    pub full: bool,
    pub local: Seq<u32>,
    pub skipped: nat,
    pub stamp: Option<Stamp>,
    pub remembered: Seq<u32>,
    pub running: Seq<u32>,
    pub due: Seq<u32>,
}

impl View for Tick {
    type V = TickView;

    open spec fn view(&self) -> TickView {
        TickView {
            boot: self.boot,
            now: self.now,
            fresh: self.fresh,
            budget: self.budget,
            full: self.full,
            local: self.local@,
            skipped: self.skipped as nat,
            stamp: self.stamp,
            remembered: self.remembered@,
            running: self.running@,
            due: self.due@,
        }
    }
}

/// The loop's whole state.
#[derive(Debug)]
pub struct Daemon {
    pub log: Log,
    /// The last inventory that was read successfully. `None` until one is:
    /// an empty inventory is not an answer about this node.
    pub inv: Option<Inventory>,
    pub docs: BTreeMap<u32, Cached>,
    pub read_at: Option<u64>,
    /// Whether a pass has run: the first one is the boot pass.
    pub started: bool,
    /// The inventory this node's prefix file was last written from, so an
    /// unchanged node does not ask the store about it every poll.
    pub published: Option<Inventory>,
    /// What is done next.
    pub phase: Phase,
    /// What this poll has found out so far.
    pub pass: Tick,
}

/// What a [`Daemon`] says.
pub struct DaemonView {
    pub log: LogView,
    pub inv: Option<Facts>,
    pub docs: Map<u32, CachedView>,
    pub read_at: Option<u64>,
    pub started: bool,
    pub published: Option<Facts>,
    pub phase: Phase,
    pub pass: TickView,
}

/// What an optional inventory says.
pub open spec fn inv_view(i: Option<Inventory>) -> Option<Facts> {
    match i {
        Some(i) => Some(i@),
        None => None,
    }
}

impl View for Daemon {
    type V = DaemonView;

    open spec fn view(&self) -> DaemonView {
        DaemonView {
            log: self.log@,
            inv: inv_view(self.inv),
            docs: docs_view(self.docs@),
            read_at: self.read_at,
            started: self.started,
            published: inv_view(self.published),
            phase: self.phase,
            pass: self.pass@,
        }
    }
}

/// A poll that has found out nothing yet.
pub open spec fn new_pass(boot: bool, now: u64) -> TickView {
    TickView {
        boot,
        now,
        fresh: false,
        budget: None,
        full: false,
        local: Seq::empty(),
        skipped: 0,
        stamp: None,
        remembered: Seq::empty(),
        running: Seq::empty(),
        due: Seq::empty(),
    }
}

/// Whether guests may be reconciled: the inventory was read in this very poll,
/// and the driver is loaded.
pub open spec fn may_reconcile(d: DaemonView) -> bool {
    d.pass.fresh && (d.inv matches Some(inv) && inv.driver)
}

/// What holds of the loop at all times: no guest is reconciled but with an
/// inventory that was read in this very poll, of a node whose driver is
/// loaded.
pub open spec fn well_formed(d: DaemonView) -> bool {
    match d.phase {
        Phase::DocumentTurn(i) => i < d.pass.local.len() && d.pass.skipped <= i,
        Phase::Stat(i) => i < d.pass.local.len() && d.pass.skipped <= i,
        Phase::Document(i) => i < d.pass.local.len() && d.pass.skipped <= i,
        Phase::Majors => may_reconcile(d),
        Phase::Running => may_reconcile(d),
        Phase::GuestTurn(i) => i < d.pass.due.len() && may_reconcile(d),
        Phase::Guest(i) => i < d.pass.due.len() && may_reconcile(d),
        Phase::Publish => d.inv is Some,
        _ => true,
    }
}

/// A poll begins. The first one is the boot pass.
pub open spec fn begun(d: DaemonView, now: u64) -> DaemonView {
    DaemonView {
        started: true,
        phase: Phase::Inventory,
        pass: new_pass(!d.started, now),
        ..d
    }
}

/// What is said where the `nvidia-uvm` major moved under a loaded driver.
pub open spec fn moved(before: Facts, now: Facts) -> Option<Seq<char>> {
    if before.driver && before.uvm_major != now.uvm_major {
        Some(
            "the nvidia-uvm major moved ("@ + major_text(before.uvm_major) + " -> "@ + major_text(
                now.uvm_major,
            ) + ")"@,
        )
    } else {
        None
    }
}

/// The loop with an inventory that was really read.
pub open spec fn with_inventory(d: DaemonView, inv: Facts) -> DaemonView {
    let log = match d.inv {
        Some(before) => match moved(before, inv) {
            Some(line) => say(d.log, line),
            None => d.log,
        },
        None => d.log,
    };
    DaemonView { log, inv: Some(inv), ..d }
}

/// Some text, or nothing at all.
pub open spec fn some_text(s: Seq<char>) -> Option<Seq<char>> {
    if s.len() > 0 {
        Some(s)
    } else {
        None
    }
}

/// After the inventory was read, or was not: then the last good one stays. The
/// budget of the boot pass starts now.
pub open spec fn inventoried(
    d: DaemonView,
    read: Result<Facts, Seq<char>>,
    at: u64,
    timing: Timing,
) -> DaemonView {
    let next = match read {
        Ok(inv) => {
            let log = once(
                once(d.log, 0, "inventory"@, None),
                0,
                "inv-notes"@,
                some_text(text::join(inv.notes, "; "@)),
            );
            with_inventory(DaemonView { log, ..d }, inv)
        },
        Err(e) => DaemonView {
            log: once(
                d.log,
                0,
                "inventory"@,
                Some("inventory: "@ + e + "; keeping the last one"@),
            ),
            ..d
        },
    };
    DaemonView {
        phase: Phase::Vmlist,
        pass: TickView {
            fresh: read is Ok,
            budget: deadline_from(d.pass.boot, at, timing),
            ..d.pass
        },
        ..next
    }
}

/// After the vmlist was read, or was not: then the poll ends.
pub open spec fn vmlisted(d: DaemonView, read: Result<Seq<u32>, Seq<char>>) -> DaemonView {
    match read {
        Err(e) => DaemonView {
            log: once(d.log, 0, "vmlist"@, Some(e + "; waiting"@)),
            phase: Phase::Idle,
            ..d
        },
        Ok(local) => {
            let back = once(d.log, 0, "vmlist"@, None);
            let log = if is_news(d.log, 0, "vmlist"@, None) {
                say(back, "the vmlist is readable again"@)
            } else {
                back
            };
            DaemonView {
                log: settled(log, local),
                phase: Phase::Record,
                pass: TickView { local, ..d.pass },
                ..d
            }
        },
    }
}

/// Whether every document is read again.
pub open spec fn is_full(read_at: Option<u64>, now: u64, timing: Timing) -> bool {
    match read_at {
        None => true,
        Some(at) => now >= at && now - at >= timing.full || timing.full == 0,
    }
}

/// The documents of the guests that are local.
pub open spec fn local_docs(docs: Map<u32, CachedView>, local: Seq<u32>) -> Map<u32, CachedView> {
    Map::new(
        |v: u32| docs.contains_key(v) && local.contains(v),
        |v: u32| docs[v],
    )
}

/// After the guests that are not local were forgotten, or could not be: then
/// the poll ends.
pub open spec fn cleared(
    d: DaemonView,
    done: Result<(), Seq<char>>,
    node: Seq<char>,
    timing: Timing,
) -> DaemonView {
    match done {
        Err(e) => DaemonView {
            log: once(d.log, 0, "record"@, Some(e)),
            phase: Phase::Idle,
            ..d
        },
        Ok(()) => {
            let full = is_full(d.read_at, d.pass.now, timing);
            next_document(
                DaemonView {
                    log: once(d.log, 0, "record"@, None),
                    read_at: if full {
                        Some(d.pass.now)
                    } else {
                        d.read_at
                    },
                    docs: local_docs(d.docs, d.pass.local),
                    pass: TickView { full, skipped: 0, ..d.pass },
                    ..d
                },
                0,
                node,
            )
        },
    }
}

/// On to a local guest's document, or past the last of them.
pub open spec fn next_document(d: DaemonView, i: nat, node: Seq<char>) -> DaemonView {
    if i < d.pass.local.len() {
        DaemonView { phase: Phase::DocumentTurn(i as usize), ..d }
    } else {
        let log = if d.pass.skipped > 0 {
            once(d.log, 0, "budget"@, Some(late(d.pass.skipped)))
        } else {
            d.log
        };
        after_documents(DaemonView { log, ..d }, node)
    }
}

/// After the documents: no guest is touched without an inventory that was
/// really read in this poll, and none without a driver. Where this poll's read
/// failed, the last good inventory may still be published.
pub open spec fn after_documents(d: DaemonView, node: Seq<char>) -> DaemonView {
    match d.inv {
        None => DaemonView {
            log: once(
                d.log,
                0,
                "reconcile"@,
                Some("no inventory of this node yet; nothing is reconciled"@),
            ),
            phase: Phase::Idle,
            ..d
        },
        Some(inv) => if !inv.driver {
            DaemonView {
                log: once(
                    d.log,
                    0,
                    "reconcile"@,
                    Some(
                        "no NVIDIA driver on "@ + node
                            + " (no /proc/driver/nvidia); nothing is reconciled"@,
                    ),
                ),
                phase: Phase::Idle,
                ..d
            }
        } else {
            let next = DaemonView { log: once(d.log, 0, "reconcile"@, None), ..d };
            if d.pass.fresh {
                DaemonView { phase: Phase::Majors, ..next }
            } else {
                after_guests(next)
            }
        },
    }
}

/// A guest's document has its turn. Once the boot pass is out of time,
/// whatever is left keeps its last answer, or none.
pub open spec fn document_turned(d: DaemonView, i: nat, now: u64, node: Seq<char>) -> DaemonView {
    if is_spent(d.pass.budget, now) {
        next_document(
            DaemonView { pass: TickView { skipped: d.pass.skipped + 1, ..d.pass }, ..d },
            i + 1,
            node,
        )
    } else {
        DaemonView { phase: Phase::Stat(i as usize), ..d }
    }
}

/// What is said of a guest's document: nothing, unless it could not be had.
pub open spec fn document_log(
    l: LogView,
    vmid: u32,
    state: Result<Option<Want>, Seq<char>>,
) -> LogView {
    once(
        l,
        vmid,
        "document"@,
        match state {
            Ok(_) => None,
            Err(e) => Some(
                text::decimal(vmid as nat) + ": "@ + e + "; leaving its config alone"@,
            ),
        },
    )
}

/// The stamp a stat gave; one that did not answer gave none.
pub open spec fn stamp_in(stat: Result<Option<Stamp>, ()>) -> Option<Stamp> {
    match stat {
        Ok(s) => s,
        Err(()) => None,
    }
}

/// After a guest's document was stat-ed.
pub open spec fn stat_taken(
    d: DaemonView,
    i: nat,
    stat: Result<Option<Stamp>, ()>,
    managed: bool,
    node: Seq<char>,
) -> DaemonView {
    let vmid = d.pass.local[i as int];
    let stamp = stamp_in(stat);
    let cached = if d.docs.contains_key(vmid) {
        Some(d.docs[vmid])
    } else {
        None
    };
    match source(cached, stamp, stat is Ok, d.pass.full, managed) {
        Source::Cached => next_document(
            DaemonView { log: document_log(d.log, vmid, cached->Some_0.state), ..d },
            i + 1,
            node,
        ),
        Source::Absent => document_had(
            DaemonView { pass: TickView { stamp, ..d.pass }, ..d },
            i,
            Ok(None),
            node,
        ),
        Source::Read => DaemonView {
            phase: Phase::Document(i as usize),
            pass: TickView { stamp, ..d.pass },
            ..d
        },
    }
}

/// After a guest's document was read, or could not be: that is that guest's
/// alone.
pub open spec fn document_had(
    d: DaemonView,
    i: nat,
    state: Result<Option<Want>, Seq<char>>,
    node: Seq<char>,
) -> DaemonView {
    let vmid = d.pass.local[i as int];
    next_document(
        DaemonView {
            log: document_log(d.log, vmid, state),
            docs: d.docs.insert(vmid, CachedView { stamp: d.pass.stamp, state }),
            ..d
        },
        i + 1,
        node,
    )
}

/// What is said where the majors in the record cannot be read.
pub open spec fn majors_lost(e: Seq<char>) -> Seq<char> {
    e
        + "; a rule written with an earlier nvidia-uvm major is no longer ours, so a rewrite leaves it beside the new one, and the record starts again at the next write"@
}

/// After the majors in the record were read, or could not be: that is said,
/// and the pass goes on without them.
pub open spec fn majors_taken(d: DaemonView, read: Result<Seq<u32>, Seq<char>>) -> DaemonView {
    match read {
        Ok(majors) => DaemonView {
            log: once(d.log, 0, "uvm-record"@, None),
            phase: Phase::Running,
            pass: TickView { remembered: majors, ..d.pass },
            ..d
        },
        Err(e) => DaemonView {
            log: once(d.log, 0, "uvm-record"@, Some(majors_lost(e))),
            phase: Phase::Running,
            pass: TickView { remembered: Seq::empty(), ..d.pass },
            ..d
        },
    }
}

/// The vmids of the guests to be reconciled.
pub open spec fn due_vmids(docs: Map<u32, CachedView>, local: Seq<u32>) -> Seq<u32> {
    readable(docs, local).map_values(|d: (u32, Option<Want>)| d.0)
}

/// After it was read which containers run.
pub open spec fn running_taken(d: DaemonView, running: Seq<u32>) -> DaemonView {
    next_guest(
        DaemonView {
            pass: TickView { running, due: due_vmids(d.docs, d.pass.local), ..d.pass },
            ..d
        },
        0,
    )
}

/// Whether the prefix file is to be looked at: the cards are not the ones it
/// was last written from, or the slow pass came round.
pub open spec fn is_publish_due(d: DaemonView, full: bool) -> bool {
    match d.inv {
        Some(inv) => full || !(d.published matches Some(last) && last.gpus == inv.gpus),
        None => false,
    }
}

/// On to the prefix file, where it is to be looked at.
pub open spec fn next_publish(d: DaemonView, full: bool) -> DaemonView {
    DaemonView {
        phase: if is_publish_due(d, full) {
            Phase::Publish
        } else {
            Phase::Idle
        },
        ..d
    }
}

/// On to a guest that is due, or past the last of them. The boot pass leaves
/// the prefix file until after ready.
pub open spec fn next_guest(d: DaemonView, i: nat) -> DaemonView {
    if i < d.pass.due.len() {
        DaemonView { phase: Phase::GuestTurn(i as usize), ..d }
    } else {
        after_guests(d)
    }
}

/// After the guests.
pub open spec fn after_guests(d: DaemonView) -> DaemonView {
    if d.pass.boot {
        DaemonView { phase: Phase::Idle, ..d }
    } else {
        next_publish(d, d.pass.full)
    }
}

/// A guest has its turn, unless the boot pass is out of time.
pub open spec fn guest_turned(d: DaemonView, i: nat, now: u64) -> DaemonView {
    if is_spent(d.pass.budget, now) {
        after_guests(
            DaemonView { log: once(d.log, 0, "budget"@, Some(late(1))), ..d },
        )
    } else {
        DaemonView { phase: Phase::Guest(i as usize), ..d }
    }
}

/// The notes of what was done, as one text.
pub open spec fn notes_of(done: DoneView) -> Seq<char> {
    match plan_of(done) {
        Some(p) => text::join(p.notes, "; "@),
        None => Seq::empty(),
    }
}

/// What is said of a guest that was reconciled. Every write is said; the state
/// it leaves is the one the next poll finds.
pub open spec fn done_log(l: LogView, vmid: u32, done: DoneView, running: bool) -> LogView {
    let id = text::decimal(vmid as nat);
    let notes = notes_of(done);
    let noted = once(
        once(l, vmid, "error"@, None),
        vmid,
        "notes"@,
        if notes.len() > 0 {
            Some(id + ": "@ + notes)
        } else {
            None
        },
    );
    if done is Wrote {
        let ended = once(noted, vmid, "state"@, None);
        match described(done, vmid, running) {
            Some(line) => say(ended, line),
            None => ended,
        }
    } else {
        once(noted, vmid, "state"@, described(done, vmid, running))
    }
}

/// After a guest was reconciled, or could not be: that is that guest's alone.
pub open spec fn guest_done(
    d: DaemonView,
    i: nat,
    done: Result<DoneView, Seq<char>>,
) -> DaemonView {
    let vmid = d.pass.due[i as int];
    let log = match done {
        Ok(done) => done_log(d.log, vmid, done, d.pass.running.contains(vmid)),
        Err(e) => once(
            d.log,
            vmid,
            "error"@,
            Some(text::decimal(vmid as nat) + ": "@ + e),
        ),
    };
    next_guest(DaemonView { log, ..d }, i + 1)
}

/// After the prefix file was looked at, or could not be.
pub open spec fn publish_done(
    d: DaemonView,
    done: Result<Action, Seq<char>>,
    node: Seq<char>,
) -> DaemonView {
    match done {
        Ok(action) => {
            let ended = once(d.log, 0, "prefix"@, None);
            DaemonView {
                log: if action == Action::Written || action == Action::Removed {
                    say(ended, prefix::id_of(node) + ": "@ + word(action))
                } else {
                    ended
                },
                published: d.inv,
                phase: Phase::Idle,
                ..d
            }
        },
        Err(e) => DaemonView {
            log: once(
                d.log,
                0,
                "prefix"@,
                Some("the prefix file was not written: "@ + e),
            ),
            phase: Phase::Idle,
            ..d
        },
    }
}

/// The guest whose document, or whose config, is next.
pub open spec fn whose(d: DaemonView) -> Option<u32> {
    match d.phase {
        Phase::DocumentTurn(i) => Some(d.pass.local[i as int]),
        Phase::Stat(i) => Some(d.pass.local[i as int]),
        Phase::Document(i) => Some(d.pass.local[i as int]),
        Phase::GuestTurn(i) => Some(d.pass.due[i as int]),
        Phase::Guest(i) => Some(d.pass.due[i as int]),
        _ => None,
    }
}

/// How long, in milliseconds, a pass waits for a guest's config lock.
pub open spec fn patience(d: DaemonView, timing: Timing) -> u64 {
    if d.pass.boot {
        0
    } else {
        timing.lock_wait
    }
}

/// The subtree a guest's document asks for, as it was last read.
pub open spec fn wanted_by(docs: Map<u32, CachedView>, vmid: u32) -> Option<Want> {
    if docs.contains_key(vmid) {
        match docs[vmid].state {
            Ok(w) => w,
            Err(_) => None,
        }
    } else {
        None
    }
}

/// A poll that has found out nothing yet.
fn empty_pass(boot: bool, now: u64) -> (r: Tick)
    ensures
        r@ == new_pass(boot, now),
{
    let r = Tick {
        boot,
        now,
        fresh: false,
        budget: None,
        full: false,
        local: Vec::new(),
        skipped: 0,
        stamp: None,
        remembered: Vec::new(),
        running: Vec::new(),
        due: Vec::new(),
    };
    proof {
        assert(r@.local =~= Seq::empty());
        assert(r@.remembered =~= Seq::empty());
        assert(r@.running =~= Seq::empty());
        assert(r@.due =~= Seq::empty());
    }
    r
}

impl Default for Daemon {
    fn default() -> (r: Daemon)
        ensures
            r@.inv is None,
            r@.docs == Map::<u32, CachedView>::empty(),
            r@.read_at is None,
            !r@.started,
            r@.published is None,
            r@.phase == Phase::Idle,
            r@.log.lines == Seq::<Seq<char>>::empty(),
            r@.log.seen == Map::<(u32, Seq<char>), Seq<char>>::empty(),
            well_formed(r@),
    {
        let r = Daemon {
            log: Log::default(),
            inv: None,
            docs: BTreeMap::new(),
            read_at: None,
            started: false,
            published: None,
            phase: Phase::Idle,
            pass: empty_pass(false, 0),
        };
        proof {
            assert(r@.docs =~= Map::empty());
        }
        r
    }
}

/// Some text, or nothing at all.
fn some(s: String) -> (r: Option<String>)
    ensures
        text::opt_text(r) == some_text(s@),
{
    if s.as_str().unicode_len() > 0 {
        Some(s)
    } else {
        None
    }
}

/// What a read of the vmlist gave.
pub open spec fn vmlist_view(r: Result<Vec<u32>, String>) -> Result<Seq<u32>, Seq<char>> {
    match r {
        Ok(v) => Ok(v@),
        Err(e) => Err(e@),
    }
}

/// What publishing came to.
pub open spec fn published_view(r: Result<Action, String>) -> Result<Action, Seq<char>> {
    match r {
        Ok(a) => Ok(a),
        Err(e) => Err(e@),
    }
}

impl Daemon {
    /// Begins a poll, at `now`. The first one is the boot pass: it spends at
    /// most [`Timing::boot`] on guests, takes no lock it cannot have at once,
    /// and leaves the rest to the poll ten seconds later.
    pub fn tick(&mut self, now: u64)
        requires
            old(self).phase == Phase::Idle,
        ensures
            final(self)@ == begun(old(self)@, now),
            well_formed(final(self)@),
    {
        self.pass = empty_pass(!self.started, now);
        self.started = true;
        self.phase = Phase::Inventory;
    }

    /// After the node's GPUs were read. Every poll: it is a walk of `/proc`
    /// and one `nvidia-smi`, and a clock of its own was one more thing to
    /// reason about than the cost it saved.
    ///
    /// `at` is a timestamp taken **after the inventory, not before it**. The
    /// inventory is bounded but not quick, and a budget that started before it
    /// could be spent by the time the guests come round, which would skip
    /// every one of them and report ready with last boot's major still in
    /// their configs.
    pub fn take_inventory(&mut self, read: Result<Inventory, String>, at: u64, timing: Timing)
        requires
            old(self).phase == Phase::Inventory,
        ensures
            final(self)@ == inventoried(
                old(self)@,
                crate::inventory::facts(read),
                at,
                timing,
            ),
            well_formed(final(self)@),
    {
        match read {
            Ok(inv) => {
                self.log.once(0, "inventory", None);
                let notes = text::slices(&inv.notes);
                self.log.once(0, "inv-notes", some(text::joined(notes.as_slice(), "; ")));
                self.keep_inventory(inv);
                self.pass.fresh = true;
            },
            Err(e) => {
                // The last good inventory stays: hardware does not come and
                // go, and a reconcile against nothing would strip lines.
                self.log.once(
                    0,
                    "inventory",
                    Some(
                        "inventory: ".to_owned().concat(e.as_str()).concat(
                            "; keeping the last one",
                        ),
                    ),
                );
                self.pass.fresh = false;
            },
        }
        self.pass.budget = budget_from(self.pass.boot, at, timing);
        self.phase = Phase::Vmlist;
    }

    /// Keeps an inventory that was really read.
    fn keep_inventory(&mut self, inv: Inventory)
        ensures
            final(self)@ == with_inventory(old(self)@, inv@),
    {
        let line = match &self.inv {
            Some(before) => if before.driver_loaded() && before.uvm_major != inv.uvm_major {
                // The module was reloaded under us: every managed line
                // carrying the old major is rewritten in this poll.
                Some(
                    "the nvidia-uvm major moved (".to_owned().concat(
                        major(before.uvm_major).as_str(),
                    ).concat(" -> ").concat(major(inv.uvm_major).as_str()).concat(")"),
                )
            } else {
                None
            },
            None => None,
        };
        if let Some(line) = line {
            self.log.say(line);
        }
        self.inv = Some(inv);
    }

    /// After the vmlist was read: this node's containers.
    pub fn take_vmlist(&mut self, read: Result<Vec<u32>, String>)
        requires
            old(self).phase == Phase::Vmlist,
        ensures
            final(self)@ == vmlisted(old(self)@, vmlist_view(read)),
            well_formed(final(self)@),
    {
        match read {
            Err(e) => {
                self.log.once(0, "vmlist", Some(e.concat("; waiting")));
                self.phase = Phase::Idle;
            },
            Ok(local) => {
                if self.log.once(0, "vmlist", None) {
                    self.log.say("the vmlist is readable again".to_owned());
                }
                self.log.settle(local.as_slice());
                self.pass.local = local;
                self.phase = Phase::Record;
            },
        }
    }

    /// Keeps the documents of the guests that are local, and no others.
    fn keep_local_docs(&mut self)
        ensures
            final(self)@ == (DaemonView {
                docs: local_docs(old(self)@.docs, old(self)@.pass.local),
                ..old(self)@
            }),
    {
        let ghost start = self@;
        let ghost first = self.docs@;
        let mut docs: BTreeMap<u32, Cached> = BTreeMap::new();
        let mut i: usize = 0;
        while i < self.pass.local.len()
            invariant
                i <= self.pass.local@.len(),
                self@ == (DaemonView { docs: self@.docs, ..start }),
                forall|v: u32| #[trigger]
                    docs@.contains_key(v) <==> first.contains_key(v) && start.pass.local.take(
                        i as int,
                    ).contains(v),
                forall|v: u32| #[trigger] docs@.contains_key(v) ==> docs@[v] == first[v],
                forall|v: u32| #[trigger]
                    self.docs@.contains_key(v) <==> first.contains_key(v) && !docs@.contains_key(v),
                forall|v: u32| #[trigger]
                    self.docs@.contains_key(v) ==> self.docs@[v] == first[v],
            decreases self.pass.local.len() - i,
        {
            let vmid: u32 = self.pass.local[i];
            let ghost before = docs@;
            let ghost taken = start.pass.local.take(i as int);
            proof {
                assert(start.pass.local.take(i + 1) =~= taken.push(vmid));
                assert forall|v: u32| #[trigger] taken.push(vmid).contains(v) <==> taken.contains(v)
                    || v == vmid by {
                    assert(taken.push(vmid)[taken.len() as int] == vmid);
                    if taken.contains(v) {
                        let k = choose|k: int| 0 <= k < taken.len() && taken[k] == v;
                        assert(taken.push(vmid)[k] == v);
                    }
                }
            }
            if let Some(c) = self.docs.remove(&vmid) {
                docs.insert(vmid, c);
            }
            i += 1;
        }
        self.docs = docs;
        proof {
            assert(start.pass.local.take(start.pass.local.len() as int) =~= start.pass.local);
            assert(self@.docs =~= local_docs(start.docs, start.pass.local));
        }
    }

    /// After the guests that are no longer local were forgotten. Begins to
    /// read the documents whose stamp moved, every document every
    /// [`Timing::full`], and every document on the first pass.
    pub fn retained(&mut self, done: Result<(), String>, node: &str, timing: Timing)
        requires
            old(self).phase == Phase::Record,
        ensures
            final(self)@ == cleared(
                old(self)@,
                text::outcome(done),
                node@,
                timing,
            ),
            well_formed(final(self)@),
    {
        match done {
            Err(e) => {
                self.log.once(0, "record", Some(e));
                self.phase = Phase::Idle;
            },
            Ok(()) => {
                self.log.once(0, "record", None);
                let full: bool = match self.read_at {
                    None => true,
                    Some(at) => (self.pass.now >= at && self.pass.now - at >= timing.full)
                        || timing.full == 0,
                };
                if full {
                    self.read_at = Some(self.pass.now);
                }
                self.keep_local_docs();
                self.pass.full = full;
                self.pass.skipped = 0;
                self.next_document(0, node);
            },
        }
    }

    /// On to a local guest's document, or past the last of them.
    fn next_document(&mut self, i: usize, node: &str)
        requires
            i <= old(self).pass.local@.len(),
            old(self).pass.skipped <= i,
        ensures
            final(self)@ == next_document(old(self)@, i as nat, node@),
            well_formed(final(self)@),
    {
        if i < self.pass.local.len() {
            self.phase = Phase::DocumentTurn(i);
            return;
        }
        if self.pass.skipped > 0 {
            self.log.once(0, "budget", Some(out_of_time(self.pass.skipped)));
        }
        let driver: Option<bool> = match &self.inv {
            Some(inv) => Some(inv.driver_loaded()),
            None => None,
        };
        match driver {
            None => {
                self.log.once(
                    0,
                    "reconcile",
                    Some("no inventory of this node yet; nothing is reconciled".to_owned()),
                );
                self.phase = Phase::Idle;
            },
            Some(loaded) => if !loaded {
                self.log.once(
                    0,
                    "reconcile",
                    Some(
                        "no NVIDIA driver on ".to_owned().concat(node).concat(
                            " (no /proc/driver/nvidia); nothing is reconciled",
                        ),
                    ),
                );
                self.phase = Phase::Idle;
            } else {
                self.log.once(0, "reconcile", None);
                if self.pass.fresh {
                    self.phase = Phase::Majors;
                } else {
                    // The guests are left alone; the prefix file is not one of
                    // them, and the last good inventory is what it should say.
                    self.finish();
                }
            },
        }
    }

    /// The document of a local guest has its turn, at `now`.
    pub fn document_turn(&mut self, now: u64, node: &str)
        requires
            well_formed(old(self)@),
            old(self).phase is DocumentTurn,
        ensures
            final(self)@ == document_turned(
                old(self)@,
                old(self).phase->DocumentTurn_0 as nat,
                now,
                node@,
            ),
            well_formed(final(self)@),
    {
        if let Phase::DocumentTurn(i) = self.phase {
            proof {
                assert(i < self.pass.local.len());
            }
            if spent(self.pass.budget, now) {
                self.pass.skipped = self.pass.skipped + 1;
                self.next_document(i + 1, node);
            } else {
                self.phase = Phase::Stat(i);
            }
        }
    }

    /// The guest whose document, or whose config, is next.
    pub fn guest_of_phase(&self) -> (r: Option<u32>)
        requires
            well_formed(self@),
        ensures
            r == whose(self@),
    {
        match self.phase {
            Phase::DocumentTurn(i) => Some(self.pass.local[i]),
            Phase::Stat(i) => Some(self.pass.local[i]),
            Phase::Document(i) => Some(self.pass.local[i]),
            Phase::GuestTurn(i) => Some(self.pass.due[i]),
            Phase::Guest(i) => Some(self.pass.due[i]),
            _ => None,
        }
    }

    /// Says what there is to say of a guest's document.
    fn log_document(&mut self, vmid: u32, why: Option<String>)
        ensures
            final(self)@ == (DaemonView {
                log: once(
                    old(self)@.log,
                    vmid,
                    "document"@,
                    match why {
                        None => None,
                        Some(e) => Some(
                            text::decimal(vmid as nat) + ": "@ + e@ + "; leaving its config alone"@,
                        ),
                    },
                ),
                ..old(self)@
            }),
    {
        let line = match why {
            None => None,
            Some(e) => Some(
                text::decimal_of(vmid as u64).concat(": ").concat(e.as_str()).concat(
                    "; leaving its config alone",
                ),
            ),
        };
        self.log.once(vmid, "document", line);
    }

    /// After the document of a local guest was stat-ed. A stat that fails for
    /// any other reason than "no document" is not an answer either: the
    /// document is read and that says. "No document" is a stamp of its own and
    /// is cached like any other, so the guests without one, most of them, cost
    /// a stat and never a process. `managed` is whether this node wrote lines
    /// into the guest.
    pub fn stamped(&mut self, stat: Result<Option<Stamp>, ()>, managed: bool, node: &str)
        requires
            well_formed(old(self)@),
            old(self).phase is Stat,
        ensures
            final(self)@ == stat_taken(
                old(self)@,
                old(self).phase->Stat_0 as nat,
                stat,
                managed,
                node@,
            ),
            well_formed(final(self)@),
    {
        if let Phase::Stat(i) = self.phase {
            proof {
                assert(i < self.pass.local.len());
            }
            let vmid: u32 = self.pass.local[i];
            let (stamp, answered): (Option<Stamp>, bool) = match stat {
                Ok(s) => (s, true),
                Err(()) => (None, false),
            };
            let cached = self.docs.get(&vmid);
            let from = source_of(cached, stamp, answered, self.pass.full, managed);
            let why: Option<String> = match cached {
                Some(c) => match &c.state {
                    Ok(_) => None,
                    Err(e) => Some(e.clone()),
                },
                None => None,
            };
            match from {
                Source::Cached => {
                    self.log_document(vmid, why);
                    self.next_document(i + 1, node);
                },
                Source::Absent => {
                    self.pass.stamp = stamp;
                    self.phase = Phase::Document(i);
                    self.read_document(Ok(None), node);
                },
                Source::Read => {
                    self.pass.stamp = stamp;
                    self.phase = Phase::Document(i);
                },
            }
        }
    }

    /// After the document of a local guest was read, or could not be.
    pub fn read_document(&mut self, state: Result<Option<Gpu>, String>, node: &str)
        requires
            well_formed(old(self)@),
            old(self).phase is Document,
        ensures
            final(self)@ == document_had(
                old(self)@,
                old(self).phase->Document_0 as nat,
                answer_view(state),
                node@,
            ),
            well_formed(final(self)@),
    {
        if let Phase::Document(i) = self.phase {
            proof {
                assert(i < self.pass.local.len());
            }
            let vmid: u32 = self.pass.local[i];
            let why: Option<String> = match &state {
                Ok(_) => None,
                Err(e) => Some(e.clone()),
            };
            self.log_document(vmid, why);
            let ghost docs = self.docs@;
            let c = Cached { stamp: self.pass.stamp, state };
            self.docs.insert(vmid, c);
            proof {
                assert(docs_view(self.docs@) =~= docs_view(docs).insert(vmid, c@));
            }
            self.next_document(i + 1, node);
        }
    }

    /// After the majors in the record were read. That they could not be costs
    /// twice, both worth one line: an older rule stops being ours, so a
    /// rewrite leaves it beside the new one, and the list starts again at the
    /// next write.
    pub fn take_majors(&mut self, read: Result<Vec<u32>, String>)
        requires
            well_formed(old(self)@),
            old(self).phase == Phase::Majors,
        ensures
            final(self)@ == majors_taken(old(self)@, vmlist_view(read)),
            well_formed(final(self)@),
    {
        match read {
            Ok(majors) => {
                self.log.once(0, "uvm-record", None);
                self.pass.remembered = majors;
            },
            Err(e) => {
                self.log.once(
                    0,
                    "uvm-record",
                    Some(
                        e.concat(
                            "; a rule written with an earlier nvidia-uvm major is no longer ours, so a rewrite leaves it beside the new one, and the record starts again at the next write",
                        ),
                    ),
                );
                self.pass.remembered = Vec::new();
                proof {
                    assert(self@.pass.remembered =~= Seq::empty());
                }
            },
        }
        self.phase = Phase::Running;
    }

    /// How long, in milliseconds, this pass waits for a guest's config lock.
    /// The boot pass takes no lock it cannot have at once: a guest whose
    /// config PVE is holding is done at the next poll, and the containers are
    /// not kept waiting for it.
    pub fn lock_wait(&self, timing: Timing) -> (r: u64)
        ensures
            r == patience(self@, timing),
    {
        if self.pass.boot {
            0
        } else {
            timing.lock_wait
        }
    }

    /// After it was read which containers run. The guests that are due are
    /// those whose document was read.
    pub fn take_running(&mut self, running: Vec<u32>)
        requires
            well_formed(old(self)@),
            old(self).phase == Phase::Running,
        ensures
            final(self)@ == running_taken(old(self)@, running@),
            well_formed(final(self)@),
    {
        let mut due: Vec<u32> = Vec::new();
        let ghost start = self@;
        {
            let list = reconcilable(&self.docs, self.pass.local.as_slice());
            let mut i: usize = 0;
            while i < list.len()
                invariant
                    i <= list@.len(),
                    due@.len() == i,
                    forall|j: int| 0 <= j < i ==> #[trigger] due@[j] == list@[j].0,
                decreases list.len() - i,
            {
                due.push(list[i].0);
                i += 1;
            }
            proof {
                assert(due@ =~= due_view(list@).map_values(|d: (u32, Option<Want>)| d.0));
            }
        }
        self.pass.running = running;
        self.pass.due = due;
        self.next_guest(0);
    }

    /// The subtree a guest's document asks for, as it was last read.
    pub fn want(&self, vmid: u32) -> (r: Option<&Gpu>)
        ensures
            crate::plan::want_view(r) == wanted_by(self@.docs, vmid),
    {
        match self.docs.get(&vmid) {
            Some(c) => match &c.state {
                Ok(Some(g)) => Some(g),
                _ => None,
            },
            None => None,
        }
    }

    /// On to a guest that is due, or past the last of them.
    fn next_guest(&mut self, i: usize)
        requires
            may_reconcile(old(self)@),
        ensures
            final(self)@ == next_guest(old(self)@, i as nat),
            well_formed(final(self)@),
    {
        if i < self.pass.due.len() {
            self.phase = Phase::GuestTurn(i);
        } else {
            self.finish();
        }
    }

    /// After the guests.
    fn finish(&mut self)
        ensures
            final(self)@ == after_guests(old(self)@),
            well_formed(final(self)@),
    {
        if self.pass.boot {
            self.phase = Phase::Idle;
        } else {
            let full: bool = self.pass.full;
            self.publish(full);
        }
    }

    /// A guest that is due has its turn, at `now`.
    pub fn guest_turn(&mut self, now: u64)
        requires
            well_formed(old(self)@),
            old(self).phase is GuestTurn,
        ensures
            final(self)@ == guest_turned(old(self)@, old(self).phase->GuestTurn_0 as nat, now),
            well_formed(final(self)@),
    {
        if let Phase::GuestTurn(i) = self.phase {
            if spent(self.pass.budget, now) {
                self.log.once(0, "budget", Some(out_of_time(1)));
                self.finish();
            } else {
                self.phase = Phase::Guest(i);
            }
        }
    }

    /// After a guest was reconciled, or could not be.
    pub fn reconciled(&mut self, done: Result<Done, String>)
        requires
            well_formed(old(self)@),
            old(self).phase is Guest,
        ensures
            final(self)@ == guest_done(
                old(self)@,
                old(self).phase->Guest_0 as nat,
                done_view(done),
            ),
            well_formed(final(self)@),
    {
        if let Phase::Guest(i) = self.phase {
            proof {
                assert(i < self.pass.due.len());
            }
            let vmid: u32 = self.pass.due[i];
            let running: bool = is_among(self.pass.running.as_slice(), vmid);
            match done {
                Ok(done) => {
                    self.log.once(vmid, "error", None);
                    let notes = match done.plan() {
                        Some(p) => {
                            let slices = text::slices(&p.notes);
                            text::joined(slices.as_slice(), "; ")
                        },
                        None => String::new(),
                    };
                    proof {
                        assert(notes@ =~= notes_of(done@));
                    }
                    let line = if notes.as_str().unicode_len() > 0 {
                        Some(
                            text::decimal_of(vmid as u64).concat(": ").concat(notes.as_str()),
                        )
                    } else {
                        None
                    };
                    self.log.once(vmid, "notes", line);
                    let wrote: bool = match &done {
                        Done::Wrote(_) => true,
                        _ => false,
                    };
                    if wrote {
                        self.log.once(vmid, "state", None);
                        if let Some(line) = done.describe(vmid, running) {
                            self.log.say(line);
                        }
                    } else {
                        self.log.once(vmid, "state", done.describe(vmid, running));
                    }
                },
                Err(e) => {
                    self.log.once(
                        vmid,
                        "error",
                        Some(text::decimal_of(vmid as u64).concat(": ").concat(e.as_str())),
                    );
                },
            }
            self.next_guest(i + 1);
        }
    }

    /// On to this node's prefix file, if the cards changed or the slow pass
    /// came round.
    ///
    /// **After the guests, and on the boot pass after `READY`.** It is a
    /// courtesy to the editor, not something any reconcile depends on, and up
    /// to two `pve-meta` calls of it have no business standing between a node
    /// that has booted and the containers it is meant to start.
    pub fn publish(&mut self, full: bool)
        ensures
            final(self)@ == next_publish(old(self)@, full),
            well_formed(final(self)@),
    {
        let due: bool = match (&self.inv, &self.published) {
            (Some(inv), Some(last)) => full || !last.same_cards(inv),
            (Some(_), None) => true,
            (None, _) => false,
        };
        self.phase = if due {
            Phase::Publish
        } else {
            Phase::Idle
        };
    }

    /// After the prefix file was looked at, or could not be.
    pub fn note_published(&mut self, done: Result<Action, String>, node: &str)
        requires
            well_formed(old(self)@),
            old(self).phase == Phase::Publish,
        ensures
            final(self)@ == publish_done(old(self)@, published_view(done), node@),
            well_formed(final(self)@),
    {
        match done {
            Ok(action) => {
                self.log.once(0, "prefix", None);
                self.published = match &self.inv {
                    Some(inv) => Some(inv.copy()),
                    None => None,
                };
                if action == Action::Written || action == Action::Removed {
                    self.log.say(action_line(node, &action));
                }
            },
            Err(e) => {
                self.log.once(
                    0,
                    "prefix",
                    Some("the prefix file was not written: ".to_owned().concat(e.as_str())),
                );
            },
        }
        self.phase = Phase::Idle;
    }
}

/// What the loop says when it begins.
pub fn greeting(node: &str, timing: Timing) -> (r: String)
    ensures
        r@ == "pve-meta-nvidia on "@ + node@ + ": polling every "@ + text::decimal(
            (timing.poll / 1000) as nat,
        ) + "s, every document again every "@ + text::decimal((timing.full / 1000) as nat) + "s"@,
{
    "pve-meta-nvidia on ".to_owned().concat(node).concat(": polling every ").concat(
        text::decimal_of(timing.poll / 1000).as_str(),
    ).concat("s, every document again every ").concat(
        text::decimal_of(timing.full / 1000).as_str(),
    ).concat("s")
}

// ---------------------------------------------------------------------------
// Nothing unknown is treated as fact.
// ---------------------------------------------------------------------------

/// No guest is reconciled without an inventory that was read in this very
/// poll, of a node whose driver is loaded.
pub proof fn law_nothing_is_reconciled_without_an_inventory(d: DaemonView)
    requires
        well_formed(d),
    ensures
        d.phase is Guest ==> d.pass.fresh && d.inv is Some && d.inv->Some_0.driver,
{
}

/// An inventory that could not be read leaves the last good one, and the
/// reconcile phase of that poll is skipped entirely: past the documents the
/// poll goes on to the prefix file, where that is due, or ends, and until then
/// nothing makes the inventory a fresh one.
pub proof fn law_a_failed_read_keeps_the_last_inventory(
    d: DaemonView,
    e: Seq<char>,
    at: u64,
    timing: Timing,
    node: Seq<char>,
)
    ensures
        inventoried(d, Err(e), at, timing).inv == d.inv,
        !inventoried(d, Err(e), at, timing).pass.fresh,
        !d.pass.fresh ==> after_documents(d, node).phase == if !d.pass.boot && (d.inv matches Some(
            inv,
        ) && inv.driver) && is_publish_due(d, d.pass.full) {
            Phase::Publish
        } else {
            Phase::Idle
        },
{
}

/// Nothing but a read that succeeded makes an inventory a fresh one: every
/// other step of a poll leaves that, and the inventory, as it is.
pub proof fn law_only_a_read_makes_an_inventory_fresh(
    d: DaemonView,
    i: nat,
    now: u64,
    node: Seq<char>,
    timing: Timing,
    vmlist: Result<Seq<u32>, Seq<char>>,
    done: Result<(), Seq<char>>,
    stat: Result<Option<Stamp>, ()>,
    managed: bool,
    state: Result<Option<Want>, Seq<char>>,
)
    ensures
        ({
            let same = |n: DaemonView| n.pass.fresh == d.pass.fresh && n.inv == d.inv;
            &&& same(vmlisted(d, vmlist))
            &&& same(cleared(d, done, node, timing))
            &&& same(document_turned(d, i, now, node))
            &&& same(stat_taken(d, i, stat, managed, node))
            &&& same(document_had(d, i, state, node))
        }),
{
}

/// A vmlist that cannot be read ends the poll: it is never "no guest wants a
/// GPU". So does a record that cannot be kept.
pub proof fn law_an_unreadable_vmlist_ends_the_poll(
    d: DaemonView,
    e: Seq<char>,
    node: Seq<char>,
    timing: Timing,
)
    ensures
        vmlisted(d, Err(e)).phase == Phase::Idle,
        vmlisted(d, Err(e)).docs == d.docs,
        cleared(d, Err(e), node, timing).phase == Phase::Idle,
{
}

/// One unreadable document costs that guest and nothing else: the guests that
/// are due are exactly the local ones whose document was read.
pub proof fn law_one_bad_document_costs_one_guest(
    docs: Map<u32, CachedView>,
    local: Seq<u32>,
    vmid: u32,
)
    ensures
        due_vmids(docs, local).contains(vmid) <==> local.contains(vmid) && docs.contains_key(vmid)
            && docs[vmid].state is Ok,
    decreases local.len(),
{
    let due = due_vmids(docs, local);
    if local.len() > 0 {
        let init = local.drop_last();
        let last = local.last();
        let before = due_vmids(docs, init);
        law_one_bad_document_costs_one_guest(docs, init, vmid);
        let ok = docs.contains_key(last) && docs[last].state is Ok;
        assert(due =~= if ok {
            before.push(last)
        } else {
            before
        });
        if before.contains(vmid) {
            let k = choose|k: int| 0 <= k < before.len() && before[k] == vmid;
            assert(due[k] == vmid);
        }
        if init.contains(vmid) {
            let k = choose|k: int| 0 <= k < init.len() && init[k] == vmid;
            assert(local[k] == vmid);
        }
        if local.contains(vmid) && vmid != last {
            let k = choose|k: int| 0 <= k < local.len() && local[k] == vmid;
            assert(init[k] == vmid);
        }
        assert(local[local.len() - 1] == last);
        if ok {
            assert(due[before.len() as int] == last);
        }
        if due.contains(vmid) && vmid != last {
            let k = choose|k: int| 0 <= k < due.len() && due[k] == vmid;
            assert(before[k] == vmid);
        }
    }
}

/// Every write is said, whatever was said before.
pub proof fn law_every_write_is_said(
    l: LogView,
    vmid: u32,
    p: crate::plan::PlanView,
    running: bool,
)
    ensures
        described(DoneView::Wrote(p), vmid, running) is Some,
        done_log(l, vmid, DoneView::Wrote(p), running).lines.len() > 0,
        done_log(l, vmid, DoneView::Wrote(p), running).lines.last() == described(
            DoneView::Wrote(p),
            vmid,
            running,
        )->Some_0,
{
}

/// That a guest has no key is never inferred from a path where this node wrote
/// lines into it: there the document is asked for, or was.
pub proof fn law_a_managed_guest_is_never_inferred(
    cached: Option<CachedView>,
    stamp: Option<Stamp>,
    stamped_ok: bool,
    full: bool,
)
    ensures
        source(cached, stamp, stamped_ok, full, true) != Source::Absent,
        source(cached, stamp, stamped_ok, true, true) == Source::Read,
{
}

/// The boot pass's budget starts after the inventory, and an ordinary poll has
/// none.
pub proof fn law_the_boot_budget_starts_after_the_inventory(
    d: DaemonView,
    read: Result<Facts, Seq<char>>,
    at: u64,
    timing: Timing,
)
    ensures
        inventoried(d, read, at, timing).pass.budget == deadline_from(d.pass.boot, at, timing),
        timing.boot > 0 && at < u64::MAX ==> !is_spent(
            inventoried(d, read, at, timing).pass.budget,
            at,
        ),
        !d.pass.boot ==> forall|now: u64| !is_spent(
            #[trigger] inventoried(d, read, at, timing).pass.budget,
            now,
        ),
{
}

/// Once the boot pass is out of time no further guest is touched, and the
/// prefix file is left until after ready.
pub proof fn law_a_spent_budget_ends_the_boot_pass(d: DaemonView, i: nat, now: u64)
    requires
        d.pass.boot,
        is_spent(d.pass.budget, now),
    ensures
        guest_turned(d, i, now).phase == Phase::Idle,
        after_guests(d).phase == Phase::Idle,
{
}

} // verus!
