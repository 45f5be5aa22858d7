//! What a poll of the loop does, from what it is handed.

use vstd::prelude::*;

use crate::doc::Want;
use crate::inventory::Facts;
use crate::ops::daemon::{
    after_documents, after_guests, begun, cleared, deadline_from, document_had, document_turned,
    due_vmids, guest_done, guest_turned, inventoried, is_full, is_publish_due, is_spent,
    majors_taken, next_document, next_guest, patience, publish_done, readable, running_taken, source, stat_taken,
    vmlisted, wanted_by, whose, CachedView, DaemonView, Phase, Source, Stamp, Timing,
};
use crate::ops::log::{once, say, settled, LogView};
use crate::ops::reconcile::{described, DoneView};
use crate::prefix::Action;
use crate::text;

verus! {

// ---------------------------------------------------------------------------
// Where an answer comes from.
// ---------------------------------------------------------------------------

/// The last read stands only where the stat gave the very stamp it was read
/// at, outside a full pass. Whatever it says: where the stat gave another
/// stamp, or did not answer, the document is read again. That there is no
/// document is concluded only where the stat says so, of a guest that the
/// record does not have.
pub proof fn law_when_the_last_read_stands(
    cached: Option<CachedView>,
    stamp: Option<Stamp>,
    stamped_ok: bool,
    full: bool,
    managed: bool,
)
    ensures
        source(cached, stamp, stamped_ok, full, managed) == Source::Cached <==> stamped_ok && !full
            && (stamp is Some || managed) && cached is Some && cached->Some_0.stamp == stamp,
        source(cached, stamp, stamped_ok, full, managed) == Source::Absent <==> stamped_ok
            && stamp is None && !managed,
        cached matches Some(c) ==> stamp is Some && c.stamp != stamp ==> source(
            cached,
            stamp,
            stamped_ok,
            full,
            managed,
        ) == Source::Read,
        !stamped_ok || full && stamp is Some ==> source(cached, stamp, stamped_ok, full, managed)
            == Source::Read,
        cached is None && (stamp is Some || managed) ==> source(
            cached,
            stamp,
            stamped_ok,
            full,
            managed,
        ) == Source::Read,
{
}

/// What the last read says has no part in whether it stands: a document that
/// was read, one that asks for nothing and one that could not be had are asked
/// for again at the same times.
pub proof fn law_what_was_read_does_not_decide(
    a: CachedView,
    b: CachedView,
    stamp: Option<Stamp>,
    stamped_ok: bool,
    full: bool,
    managed: bool,
)
    requires
        a.stamp == b.stamp,
    ensures
        source(Some(a), stamp, stamped_ok, full, managed) == source(
            Some(b),
            stamp,
            stamped_ok,
            full,
            managed,
        ),
{
}

/// A guest whose document has another stamp than at its last read, or was
/// never read, or whose stat did not answer, is the next to be read, with the
/// stamp that was found; in a full pass so is every guest with a document.
pub proof fn law_a_moved_stamp_is_read(
    d: DaemonView,
    i: nat,
    stat: Result<Option<Stamp>, ()>,
    managed: bool,
    node: Seq<char>,
)
    requires
        i < d.pass.local.len() <= usize::MAX,
    ensures
        ({
            let vmid = d.pass.local[i as int];
            let next = stat_taken(d, i, stat, managed, node);
            &&& stat is Err ==> next.phase == Phase::Document(i as usize) && next.pass.stamp is None
            &&& stat matches Ok(Some(t)) ==> {
                &&& next.pass.stamp == Some(t) || next.docs == d.docs
                &&& !d.docs.contains_key(vmid) || d.docs[vmid].stamp != Some(t) || d.pass.full
                    ==> next.phase == Phase::Document(i as usize) && next.pass.stamp == Some(t)
                &&& d.docs.contains_key(vmid) && d.docs[vmid].stamp == Some(t) && !d.pass.full
                    ==> !(next.phase is Document) && next.docs == d.docs
            }
            &&& stat == Ok::<Option<Stamp>, ()>(None) && !managed ==> next.docs.contains_key(vmid)
                && next.docs[vmid].state == Ok::<Option<Want>, Seq<char>>(None)
                && next.docs[vmid].stamp is None && !(next.phase is Document)
            &&& stat == Ok::<Option<Stamp>, ()>(None) && managed && (d.pass.full
                || !d.docs.contains_key(vmid) || d.docs[vmid].stamp is Some) ==> next.phase
                == Phase::Document(i as usize)
            &&& next.phase is Document ==> next.docs == d.docs
            &&& forall|v: u32| #[trigger]
                d.docs.contains_key(v) && v != vmid ==> next.docs.contains_key(v) && next.docs[v]
                    == d.docs[v]
        }),
{
}

/// What was read of a guest's document is kept with the stamp it was read at,
/// and the other guests' as they were.
pub proof fn law_a_read_is_kept(
    d: DaemonView,
    i: nat,
    state: Result<Option<Want>, Seq<char>>,
    node: Seq<char>,
    other: u32,
)
    requires
        i < d.pass.local.len() <= usize::MAX,
    ensures
        ({
            let vmid = d.pass.local[i as int];
            let next = document_had(d, i, state, node);
            &&& next.docs.contains_key(vmid)
            &&& next.docs[vmid].state == state
            &&& next.docs[vmid].stamp == d.pass.stamp
            &&& other != vmid ==> next.docs.contains_key(other) == d.docs.contains_key(other)
            &&& other != vmid && d.docs.contains_key(other) ==> next.docs[other] == d.docs[other]
        }),
{
}

/// A document that could not be had is said to be, with why, and one that was
/// had ends that.
pub proof fn law_a_bad_document_is_said(
    d: DaemonView,
    i: nat,
    state: Result<Option<Want>, Seq<char>>,
    node: Seq<char>,
)
    requires
        i < d.pass.local.len() <= usize::MAX,
    ensures
        ({
            let vmid = d.pass.local[i as int];
            let seen = document_had(d, i, state, node).log.seen;
            match state {
                Ok(_) => !seen.contains_key((vmid, "document"@)),
                Err(e) => seen.contains_key((vmid, "document"@)) && seen[(vmid, "document"@)]
                    == text::decimal(vmid as nat) + ": "@ + e + "; leaving its config alone"@,
            }
        }),
{
    reveal_strlit("document");
    reveal_strlit("budget");
    reveal_strlit("reconcile");
    assert("document"@.len() == 8 && "budget"@.len() == 6 && "reconcile"@.len() == 9);
}

// ---------------------------------------------------------------------------
// Who has a turn.
// ---------------------------------------------------------------------------

/// Every local guest's document has its turn, in their order, whatever came of
/// the one before; it is looked at, unless the budget is spent.
pub proof fn law_every_document_has_its_turn(
    d: DaemonView,
    i: nat,
    now: u64,
    node: Seq<char>,
    timing: Timing,
    stat: Result<Option<Stamp>, ()>,
    managed: bool,
    state: Result<Option<Want>, Seq<char>>,
)
    requires
        i < d.pass.local.len() <= usize::MAX,
    ensures
        cleared(d, Ok(()), node, timing).phase == Phase::DocumentTurn(0),
        !is_spent(d.pass.budget, now) ==> document_turned(d, i, now, node).phase == Phase::Stat(
            i as usize,
        ),
        stat_taken(d, i, stat, managed, node).phase == Phase::Document(i as usize) || i + 1
            < d.pass.local.len() ==> stat_taken(d, i, stat, managed, node).phase is Document
            || stat_taken(d, i, stat, managed, node).phase == Phase::DocumentTurn((i + 1) as usize),
        i + 1 < d.pass.local.len() ==> document_had(d, i, state, node).phase == Phase::DocumentTurn(
            (i + 1) as usize,
        ),
        i + 1 < d.pass.local.len() && is_spent(d.pass.budget, now) ==> document_turned(
            d,
            i,
            now,
            node,
        ).phase == Phase::DocumentTurn((i + 1) as usize) && document_turned(
            d,
            i,
            now,
            node,
        ).pass.skipped == d.pass.skipped + 1,
        document_turned(d, i, now, node).docs == d.docs,
{
}

/// Past the last document: with an inventory of this very poll and a driver
/// the guests follow; without an inventory, or without a driver, the poll
/// ends, and that is said; with an older one no guest is touched.
pub proof fn law_what_follows_the_documents(d: DaemonView, node: Seq<char>)
    ensures
        after_documents(d, node).phase == Phase::Majors <==> d.pass.fresh && d.inv is Some
            && d.inv->Some_0.driver,
        d.inv is None || !d.inv->Some_0.driver ==> after_documents(d, node).phase == Phase::Idle
            && after_documents(d, node).log.seen.contains_key((0, "reconcile"@)),
        !d.pass.fresh ==> after_documents(d, node).phase == Phase::Idle || after_documents(
            d,
            node,
        ).phase == Phase::Publish,
        d.inv is Some && d.inv->Some_0.driver ==> !after_documents(d, node).log.seen.contains_key(
            (0, "reconcile"@),
        ),
{
}

/// Every guest that is due has its turn, in their order, whatever came of the
/// one before, unless the budget is spent; and a turn is a reconciliation.
pub proof fn law_every_due_guest_has_its_turn(
    d: DaemonView,
    i: nat,
    now: u64,
    running: Seq<u32>,
    done: Result<DoneView, Seq<char>>,
)
    requires
        i < d.pass.due.len() <= usize::MAX,
    ensures
        next_guest(d, 0).phase == Phase::GuestTurn(0),
        !is_spent(d.pass.budget, now) ==> guest_turned(d, i, now).phase == Phase::Guest(i as usize),
        is_spent(d.pass.budget, now) ==> !(guest_turned(d, i, now).phase is Guest) && !(
        guest_turned(d, i, now).phase is GuestTurn),
        i + 1 < d.pass.due.len() ==> guest_done(d, i, done).phase == Phase::GuestTurn(
            (i + 1) as usize,
        ),
        guest_done(d, i, done).docs == d.docs,
        guest_done(d, i, done).inv == d.inv,
{
}

/// The guests that are due are taken in the order of the local ones: those of
/// one half, then those of the other; one is due exactly if its document was
/// had, with what it asks for.
pub proof fn law_which_guests_are_due(
    docs: Map<u32, CachedView>,
    a: Seq<u32>,
    b: Seq<u32>,
    vmid: u32,
)
    ensures
        readable(docs, a + b) == readable(docs, a) + readable(docs, b),
        readable(docs, Seq::empty()).len() == 0,
        readable(docs, seq![vmid]) == if docs.contains_key(vmid) && docs[vmid].state is Ok {
            seq![(vmid, docs[vmid].state->Ok_0)]
        } else {
            Seq::empty()
        },
        due_vmids(docs, a).len() == readable(docs, a).len(),
        forall|i: int|
            0 <= i < readable(docs, a).len() ==> #[trigger] due_vmids(docs, a)[i] == readable(
                docs,
                a,
            )[i].0,
    decreases b.len(),
{
    if b.len() == 0 {
        assert(a + b =~= a);
        assert(readable(docs, a) + readable(docs, b) =~= readable(docs, a));
    } else {
        law_which_guests_are_due(docs, a, b.drop_last(), vmid);
        assert((a + b).drop_last() =~= a + b.drop_last());
        assert((a + b).last() == b.last());
        assert(readable(docs, a + b) =~= readable(docs, a) + readable(docs, b));
    }
    let one = seq![vmid];
    assert(one.drop_last() =~= Seq::empty());
    assert(readable(docs, Seq::empty()) =~= Seq::empty());
    assert(one.last() == vmid);
    assert(readable(docs, one) =~= if docs.contains_key(vmid) && docs[vmid].state is Ok {
        seq![(vmid, docs[vmid].state->Ok_0)]
    } else {
        Seq::empty()
    });
}

/// The guests of a pass are the local ones that are due, and which of them run
/// and with which majors lines were written is what was found out.
pub proof fn law_what_a_pass_works_with(
    d: DaemonView,
    running: Seq<u32>,
    majors: Seq<u32>,
    e: Seq<char>,
)
    ensures
        running_taken(d, running).pass.running == running,
        running_taken(d, running).pass.due == due_vmids(d.docs, d.pass.local),
        running_taken(d, running).pass.remembered == d.pass.remembered,
        majors_taken(d, Ok(majors)).pass.remembered == majors,
        majors_taken(d, Ok(majors)).phase == Phase::Running,
        !majors_taken(d, Ok(majors)).log.seen.contains_key((0, "uvm-record"@)),
        majors_taken(d, Err(e)).pass.remembered.len() == 0,
        majors_taken(d, Err(e)).phase == Phase::Running,
        majors_taken(d, Err(e)).log.seen.contains_key((0, "uvm-record"@)),
{
}

/// A turn is the turn of the guest at its place; the boot pass waits for no
/// lock, and every other pass as long as it may; and a guest is reconciled to
/// what its document was last read to ask for.
pub proof fn law_whose_turn_it_is(d: DaemonView, i: usize, timing: Timing, vmid: u32)
    ensures
        d.phase == Phase::DocumentTurn(i) || d.phase == Phase::Stat(i) || d.phase
            == Phase::Document(i) ==> whose(d) == Some(d.pass.local[i as int]),
        d.phase == Phase::GuestTurn(i) || d.phase == Phase::Guest(i) ==> whose(d) == Some(
            d.pass.due[i as int],
        ),
        d.pass.boot ==> patience(d, timing) == 0,
        !d.pass.boot ==> patience(d, timing) == timing.lock_wait,
        readable(d.docs, seq![vmid]).len() > 0 ==> readable(d.docs, seq![vmid])[0] == (
            vmid,
            wanted_by(d.docs, vmid),
        ),
{
    law_which_guests_are_due(d.docs, Seq::empty(), Seq::empty(), vmid);
}

// ---------------------------------------------------------------------------
// The clock.
// ---------------------------------------------------------------------------

/// The first pass is the boot pass, and no later one is.
pub proof fn law_there_is_one_boot_pass(d: DaemonView, now: u64, later: u64)
    ensures
        begun(d, now).pass.boot <==> !d.started,
        !begun(begun(d, now), later).pass.boot,
        begun(d, now).pass.now == now,
        begun(d, now).phase == Phase::Inventory,
        !begun(d, now).pass.fresh,
        begun(d, now).docs == d.docs && begun(d, now).inv == d.inv && begun(d, now).log == d.log
            && begun(d, now).published == d.published && begun(d, now).read_at == d.read_at,
{
}

/// A pass without a budget is never out of time; one with a budget is from its
/// deadline on, and that is the boot allowance after the inventory was read.
pub proof fn law_when_time_is_up(at: u64, now: u64, later: u64, timing: Timing)
    ensures
        deadline_from(false, at, timing) is None,
        !is_spent(None, now),
        at + timing.boot <= u64::MAX ==> (is_spent(deadline_from(true, at, timing), now) <==> now
            - at >= timing.boot),
        at + timing.boot > u64::MAX ==> (is_spent(deadline_from(true, at, timing), now) <==> now
            == u64::MAX),
        now <= later && is_spent(deadline_from(true, at, timing), now) ==> is_spent(
            deadline_from(true, at, timing),
            later,
        ),
{
}

/// The first pass reads every document, and so does every pass that begins the
/// full interval after the last that did, and none that begins sooner.
pub proof fn law_when_every_document_is_read(
    d: DaemonView,
    node: Seq<char>,
    timing: Timing,
    at: u64,
)
    ensures
        is_full(None, at, timing),
        at <= d.pass.now ==> (is_full(Some(at), d.pass.now, timing) <==> d.pass.now - at
            >= timing.full),
        d.pass.now < at && timing.full > 0 ==> !is_full(Some(at), d.pass.now, timing),
        ({
            let next = cleared(d, Ok(()), node, timing);
            &&& next.pass.full <==> is_full(d.read_at, d.pass.now, timing)
            &&& next.pass.full ==> next.read_at == Some(d.pass.now)
            &&& !next.pass.full ==> next.read_at == d.read_at
        }),
{
}

// ---------------------------------------------------------------------------
// What is found out.
// ---------------------------------------------------------------------------

/// An inventory that was read replaces the last one and is this poll's; the
/// vmlist follows either way. That a major moved under a loaded driver is
/// said, and only that.
pub proof fn law_a_read_inventory_is_the_nodes(
    d: DaemonView,
    inv: Facts,
    e: Seq<char>,
    at: u64,
    timing: Timing,
)
    ensures
        inventoried(d, Ok(inv), at, timing).inv == Some(inv),
        inventoried(d, Ok(inv), at, timing).pass.fresh,
        inventoried(d, Ok(inv), at, timing).phase == Phase::Vmlist,
        inventoried(d, Err(e), at, timing).phase == Phase::Vmlist,
        inventoried(d, Ok(inv), at, timing).docs == d.docs,
        inventoried(d, Err(e), at, timing).docs == d.docs,
        !inventoried(d, Ok(inv), at, timing).log.seen.contains_key((0, "inventory"@)),
        inventoried(d, Err(e), at, timing).log.seen.contains_key((0, "inventory"@)),
        inventoried(d, Err(e), at, timing).log.seen[(0, "inventory"@)] == "inventory: "@ + e
            + "; keeping the last one"@,
        inv.notes.len() == 0 ==> {
            let said = inventoried(d, Ok(inv), at, timing).log.lines.len() - d.log.lines.len();
            said == if d.inv is Some && d.inv->Some_0.driver && d.inv->Some_0.uvm_major
                != inv.uvm_major {
                1int
            } else {
                0
            }
        },
{
    reveal_strlit("inventory");
    reveal_strlit("inv-notes");
    assert("inventory"@[3] == 'e' && "inv-notes"@[3] == '-');
    if inv.notes.len() == 0 {
        assert(text::join(inv.notes, "; "@).len() == 0);
    }
}

/// The local guests are the vmlist's; the documents of the others, and what
/// was said of them, are forgotten, and those of the local ones are not.
pub proof fn law_only_local_guests_are_kept(
    d: DaemonView,
    local: Seq<u32>,
    node: Seq<char>,
    timing: Timing,
    v: u32,
    key: Seq<char>,
)
    ensures
        vmlisted(d, Ok(local)).pass.local == local,
        vmlisted(d, Ok(local)).phase == Phase::Record,
        vmlisted(d, Ok(local)).docs == d.docs,
        v != 0 ==> (vmlisted(d, Ok(local)).log.seen.contains_key((v, key))
            <==> d.log.seen.contains_key((v, key)) && local.contains(v)),
        ({
            let next = cleared(d, Ok(()), node, timing);
            &&& next.docs.contains_key(v) <==> d.docs.contains_key(v) && d.pass.local.contains(v)
            &&& next.docs.contains_key(v) ==> next.docs[v] == d.docs[v]
        }),
{
}

// ---------------------------------------------------------------------------
// The prefix file.
// ---------------------------------------------------------------------------

/// The prefix file is looked at in every full pass, and where the cards are
/// not those it was last written from; never without an inventory, and never
/// in the boot pass. What else the inventory says has no part in it.
pub proof fn law_when_the_prefix_file_is_due(d: DaemonView, full: bool, now: Facts, last: Facts)
    ensures
        d.inv is Some && full ==> is_publish_due(d, full),
        d.inv is None ==> !is_publish_due(d, full),
        d.inv is Some && d.published is None ==> is_publish_due(d, full),
        d.inv == Some(now) && d.published == Some(last) && !full ==> (is_publish_due(d, full)
            <==> now.gpus != last.gpus),
        d.pass.boot ==> after_guests(d).phase == Phase::Idle,
        !d.pass.boot ==> (after_guests(d).phase == Phase::Publish <==> is_publish_due(
            d,
            d.pass.full,
        )),
{
}

/// Looked at, the prefix file is that of the inventory; where it could not be,
/// it stays due.
pub proof fn law_a_failed_publication_stays_due(
    d: DaemonView,
    action: Action,
    e: Seq<char>,
    node: Seq<char>,
)
    requires
        d.inv is Some,
    ensures
        !is_publish_due(publish_done(d, Ok(action), node), false),
        is_publish_due(publish_done(d, Err(e), node), false) == is_publish_due(d, false),
        publish_done(d, Ok(action), node).phase == Phase::Idle,
        publish_done(d, Err(e), node).phase == Phase::Idle,
        publish_done(d, Err(e), node).log.seen.contains_key((0, "prefix"@)),
        !publish_done(d, Ok(action), node).log.seen.contains_key((0, "prefix"@)),
        publish_done(d, Ok(action), node).log.lines.len() - d.log.lines.len() == if action
            == Action::Written || action == Action::Removed {
            1int
        } else {
            0
        },
{
}

// ---------------------------------------------------------------------------
// What is said.
// ---------------------------------------------------------------------------

/// A line is printed exactly if the state was not last said with it, and is
/// then what the state was last said with; a state that ends prints nothing.
pub proof fn law_what_is_printed(l: LogView, vmid: u32, key: Seq<char>, line: Seq<char>)
    ensures
        once(l, vmid, key, Some(line)).seen.contains_key((vmid, key)),
        once(l, vmid, key, Some(line)).seen[(vmid, key)] == line,
        l.seen.contains_key((vmid, key)) && l.seen[(vmid, key)] == line ==> once(
            l,
            vmid,
            key,
            Some(line),
        ).lines == l.lines,
        !(l.seen.contains_key((vmid, key)) && l.seen[(vmid, key)] == line) ==> once(
            l,
            vmid,
            key,
            Some(line),
        ).lines == l.lines + seq![line],
        once(l, vmid, key, None).lines == l.lines,
        !once(l, vmid, key, None).seen.contains_key((vmid, key)),
        say(l, line).lines == l.lines + seq![line],
        say(l, line).seen == l.seen,
{
    assert(l.lines.push(line) =~= l.lines + seq![line]);
}

/// What was said of a guest is forgotten exactly if it is not local; what was
/// said of the node never is.
pub proof fn law_what_is_forgotten(l: LogView, local: Seq<u32>, vmid: u32, key: Seq<char>)
    ensures
        settled(l, local).seen.contains_key((vmid, key)) <==> l.seen.contains_key((vmid, key)) && (
        vmid == 0 || local.contains(vmid)),
        settled(l, local).seen.contains_key((vmid, key)) ==> settled(l, local).seen[(vmid, key)]
            == l.seen[(vmid, key)],
        settled(l, local).lines == l.lines,
{
}

/// What became of a guest is said of it: why it failed, or that this has
/// ended, and then the state it is in, unless it was written: that is said
/// every time and leaves none.
pub proof fn law_what_is_said_of_a_guest(
    d: DaemonView,
    i: nat,
    done: Result<DoneView, Seq<char>>,
)
    requires
        i < d.pass.due.len() <= usize::MAX,
    ensures
        ({
            let vmid = d.pass.due[i as int];
            let log = guest_done(d, i, done).log;
            match done {
                Err(e) => {
                    &&& log.seen.contains_key((vmid, "error"@))
                    &&& log.seen[(vmid, "error"@)] == text::decimal(vmid as nat) + ": "@ + e
                },
                Ok(done) => {
                    let line = described(done, vmid, d.pass.running.contains(vmid));
                    &&& !log.seen.contains_key((vmid, "error"@))
                    &&& done is Wrote ==> line is Some && log.lines.last() == line->Some_0
                        && !log.seen.contains_key((vmid, "state"@))
                    &&& !(done is Wrote) ==> (log.seen.contains_key((vmid, "state"@))
                        <==> line is Some)
                    &&& !(done is Wrote) && line is Some ==> log.seen[(vmid, "state"@)]
                        == line->Some_0
                },
            }
        }),
{
    reveal_strlit("error");
    reveal_strlit("notes");
    reveal_strlit("state");
    assert("error"@[0] == 'e' && "notes"@[0] == 'n' && "state"@[0] == 's');
}

/// The notes of a plan are said of its guest, joined into one line, and end
/// with them.
pub proof fn law_the_notes_of_a_guest_are_said(d: DaemonView, i: nat, done: DoneView)
    requires
        i < d.pass.due.len() <= usize::MAX,
    ensures
        ({
            let vmid = d.pass.due[i as int];
            let log = guest_done(d, i, Ok(done)).log;
            let notes = match done {
                DoneView::InSync(p) => text::join(p.notes, "; "@),
                DoneView::Wrote(p) => text::join(p.notes, "; "@),
                _ => Seq::empty(),
            };
            &&& log.seen.contains_key((vmid, "notes"@)) <==> notes.len() > 0
            &&& notes.len() > 0 ==> log.seen[(vmid, "notes"@)] == text::decimal(vmid as nat) + ": "@
                + notes
        }),
{
    reveal_strlit("error");
    reveal_strlit("notes");
    reveal_strlit("state");
    assert("error"@[0] == 'e' && "notes"@[0] == 'n' && "state"@[0] == 's');
}

/// What is said of a budget that was spent: how many guests were left.
pub open spec fn left_over(n: nat) -> Seq<char> {
    "the boot pass is out of time with "@ + text::decimal(n)
        + " guest(s) left; they follow in the loop within a poll, and a container of theirs that starts first starts without its GPU until it is restarted"@
}

/// That the boot pass is out of time is said, with how many documents it left,
/// or that it left a guest.
pub proof fn law_a_spent_budget_is_said(d: DaemonView, i: nat, now: u64, node: Seq<char>)
    ensures
        i >= d.pass.local.len() && d.pass.skipped > 0 ==> {
            let seen = next_document(d, i, node).log.seen;
            seen.contains_key((0, "budget"@)) && seen[(0, "budget"@)] == left_over(d.pass.skipped)
        },
        i >= d.pass.local.len() && d.pass.skipped == 0 ==> next_document(
            d,
            i,
            node,
        ).log.seen.contains_key((0, "budget"@)) == d.log.seen.contains_key((0, "budget"@)),
        is_spent(d.pass.budget, now) ==> {
            let seen = guest_turned(d, i, now).log.seen;
            seen.contains_key((0, "budget"@)) && seen[(0, "budget"@)] == left_over(1)
        },
        !is_spent(d.pass.budget, now) ==> guest_turned(d, i, now).log == d.log,
{
    reveal_strlit("budget");
    reveal_strlit("reconcile");
    assert("budget"@.len() == 6 && "reconcile"@.len() == 9);
}

/// A vmlist that cannot be read is said to be waited for, and that it can be
/// read again is said once it can; a record that cannot be kept is said, with
/// why; and the notes of an inventory are.
pub proof fn law_what_is_wrong_with_the_node_is_said(
    d: DaemonView,
    e: Seq<char>,
    local: Seq<u32>,
    node: Seq<char>,
    timing: Timing,
    inv: Facts,
    at: u64,
)
    ensures
        vmlisted(d, Err(e)).log.seen.contains_key((0, "vmlist"@)),
        vmlisted(d, Err(e)).log.seen[(0, "vmlist"@)] == e + "; waiting"@,
        !vmlisted(d, Ok(local)).log.seen.contains_key((0, "vmlist"@)),
        vmlisted(d, Ok(local)).log.lines == if d.log.seen.contains_key((0, "vmlist"@)) {
            d.log.lines + seq!["the vmlist is readable again"@]
        } else {
            d.log.lines
        },
        cleared(d, Err(e), node, timing).log.seen.contains_key((0, "record"@)),
        cleared(d, Err(e), node, timing).log.seen[(0, "record"@)] == e,
        cleared(d, Err(e), node, timing).docs == d.docs,
        !cleared(d, Ok(()), node, timing).log.seen.contains_key((0, "record"@)),
        ({
            let seen = inventoried(d, Ok(inv), at, timing).log.seen;
            let notes = text::join(inv.notes, "; "@);
            &&& seen.contains_key((0, "inv-notes"@)) <==> notes.len() > 0
            &&& notes.len() > 0 ==> seen[(0, "inv-notes"@)] == notes
        }),
{
    reveal_strlit("record");
    reveal_strlit("budget");
    reveal_strlit("reconcile");
    assert("record"@[0] == 'r' && "budget"@[0] == 'b' && "reconcile"@.len() == 9);
    assert("record"@.len() == 6);
    assert(vmlisted(d, Ok(local)).log.lines =~= if d.log.seen.contains_key((0, "vmlist"@)) {
        d.log.lines + seq!["the vmlist is readable again"@]
    } else {
        d.log.lines
    });
}

/// How a major is spelled where it is said to have moved.
pub open spec fn spelled(m: Option<u32>) -> Seq<char> {
    match m {
        Some(m) => text::decimal(m as nat),
        None => "not loaded"@,
    }
}

/// That the UVM major moved is said with where from and where to; that the
/// prefix file was written or removed, with its name; and why there is nothing
/// to reconcile.
pub proof fn law_what_changed_is_said(
    d: DaemonView,
    before: Facts,
    inv: Facts,
    at: u64,
    timing: Timing,
    node: Seq<char>,
    e: Seq<char>,
)
    ensures
        d.inv == Some(before) && before.driver && before.uvm_major != inv.uvm_major ==> inventoried(
            d,
            Ok(inv),
            at,
            timing,
        ).log.lines.last() == "the nvidia-uvm major moved ("@ + spelled(before.uvm_major) + " -> "@
            + spelled(inv.uvm_major) + ")"@,
        publish_done(d, Ok(Action::Written), node).log.lines.last() == "nodes/"@ + node
            + "/prefixes/"@ + "gpu"@ + ": "@ + "written"@,
        publish_done(d, Ok(Action::Removed), node).log.lines.last() == "nodes/"@ + node
            + "/prefixes/"@ + "gpu"@ + ": "@ + "entry removed"@,
        publish_done(d, Err(e), node).log.seen[(0, "prefix"@)]
            == "the prefix file was not written: "@ + e,
        d.inv is None ==> after_documents(d, node).log.seen[(0, "reconcile"@)]
            == "no inventory of this node yet; nothing is reconciled"@,
        d.inv is Some && !d.inv->Some_0.driver ==> after_documents(d, node).log.seen[(
            0,
            "reconcile"@,
        )] == "no NVIDIA driver on "@ + node + " (no /proc/driver/nvidia); nothing is reconciled"@,
        majors_taken(d, Err(e)).log.seen[(0, "uvm-record"@)] == e
            + "; a rule written with an earlier nvidia-uvm major is no longer ours, so a rewrite leaves it beside the new one, and the record starts again at the next write"@,
{
}

} // verus!
