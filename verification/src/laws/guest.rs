//! What reconciling a guest comes to, and what is said of it.

use vstd::prelude::*;

use crate::conf;
use crate::doc::Want;
use crate::inventory::{description, Facts};
use crate::laws::conf::{law_the_first_line_counts, lemma_reads_line, reads, says_first};
use crate::ops::inventory;
use crate::ops::reconcile::{
    self, after_forget, after_lock, after_locked_read, after_read, after_record, after_remember,
    after_write, begin, described, judged, left, of_this_node, reported, word, writes, writing,
    DoneView, StepView, ThenView,
};
use crate::ops::status::{
    self, all_lines, asked_for, cut, detail_lines, row_line, row_lines, row_of, table, uninformed,
    RowView,
};
use crate::plan::{planned, OutcomeView, PlanView};
use crate::text;

verus! {

// ---------------------------------------------------------------------------
// The steps.
// ---------------------------------------------------------------------------

/// The main section's first line for `key` gives it `v`.
pub open spec fn set_to(s: Seq<char>, key: Seq<char>, v: Seq<char>) -> bool {
    exists|i: int| #[trigger] says_first(text::lines(conf::main_of(s)), i, key, v)
}

/// No line of the main section gives `key` a value.
pub open spec fn unset(s: Seq<char>, key: Seq<char>) -> bool {
    forall|i: int, u: Seq<char>|
        0 <= i < text::lines(conf::main_of(s)).len() ==> !#[trigger] reads(
            text::lines(conf::main_of(s))[i],
            key,
            u,
        )
}

/// A key's value is the one it is set to.
proof fn lemma_set_to(s: Seq<char>, key: Seq<char>, v: Seq<char>)
    ensures
        set_to(s, key, v) ==> conf::value_in(s, key) == Some(v),
        unset(s, key) ==> conf::value_in(s, key) is None,
        conf::value_in(s, key) is Some ==> set_to(s, key, conf::value_in(s, key)->Some_0),
{
    let ls = text::lines(conf::main_of(s));
    law_the_first_line_counts(s, key);
    if conf::value_in(s, key) is Some {
        let w = conf::value_in(s, key)->Some_0;
        let j = choose|j: int| #[trigger] says_first(ls, j, key, w);
        assert(reads(ls[j], key, w));
        if set_to(s, key, v) {
            let i = choose|i: int| #[trigger] says_first(ls, i, key, v);
            if i < j {
                assert(!reads(ls[i], key, v));
            } else if j < i {
                assert(!reads(ls[j], key, w));
            }
            lemma_reads_line(ls[i], key, v);
            lemma_reads_line(ls[i], key, w);
        }
    } else if set_to(s, key, v) {
        let i = choose|i: int| #[trigger] says_first(ls, i, key, v);
        assert(!reads(ls[i], key, v));
    }
}

/// A config that PVE holds a lock on is waited for, whatever it says and
/// whatever is wanted of it, and one that cannot be read fails.
pub proof fn law_a_locked_config_is_let_be(
    s: Seq<char>,
    l: Seq<char>,
    e: Seq<char>,
    want: Option<Want>,
    inv: Facts,
    remembered: Seq<u32>,
    managed: bool,
    wait: u64,
)
    ensures
        set_to(s, "lock"@, l) ==> after_read(Ok(s), want, inv, remembered, managed, wait)
            == StepView::Done(Ok(DoneView::Locked(l))) && after_locked_read(
            Ok(s),
            want,
            inv,
            remembered,
            managed,
        ) == StepView::Done(Ok(DoneView::Locked(l))),
        after_read(Err(e), want, inv, remembered, managed, wait) == StepView::Done(Err(e)),
        after_locked_read(Err(e), want, inv, remembered, managed) == StepView::Done(Err(e)),
{
    lemma_set_to(s, "lock"@, l);
}

/// A config without a lock leads to what its plan says: nothing to do ends it,
/// a plan that is already followed only keeps the record right, and one that
/// is not is written, under the lock, and nothing else is.
pub proof fn law_what_a_plan_leads_to(
    s: Seq<char>,
    want: Option<Want>,
    inv: Facts,
    remembered: Seq<u32>,
    managed: bool,
    wait: u64,
)
    requires
        unset(s, "lock"@),
    ensures
        ({
            let first = after_read(Ok(s), want, inv, remembered, managed, wait);
            let then = after_locked_read(Ok(s), want, inv, remembered, managed);
            match planned(s, want, inv, remembered, managed) {
                OutcomeView::NoDriver => first == StepView::Done(Ok(DoneView::NoDriver)) && then
                    == first,
                OutcomeView::Unmanaged => first == StepView::Done(Ok(DoneView::Unmanaged)) && then
                    == first,
                OutcomeView::Refused(why) => first == StepView::Done(Ok(DoneView::Refused(why)))
                    && then == first,
                OutcomeView::Plan(p) => if p.desired == p.current {
                    &&& then == first
                    &&& first matches StepView::Record(_, t) && t == ThenView::InSync(p)
                } else {
                    &&& first == StepView::Lock(wait)
                    &&& writes(then)
                    &&& writing(then) == (p, conf::spliced(s, p.desired, p.owned))
                },
            }
        }),
{
    lemma_set_to(s, "lock"@, Seq::empty());
}

/// Without a driver the config is not even read.
pub proof fn law_what_a_guest_begins_with(inv: Facts)
    ensures
        inv.driver <==> begin(inv) == StepView::Read,
        !inv.driver <==> begin(inv) == StepView::Done(Ok(DoneView::NoDriver)),
{
}

/// The lock decides whether the config is read again; that somebody else holds
/// it is no failure. Every failure ends the guest, with why, and nothing else
/// does before its last step.
pub proof fn law_what_each_step_leads_to(
    vmid: u32,
    e: Seq<char>,
    on: bool,
    noted: bool,
    p: PlanView,
    new: Seq<char>,
    inv: Facts,
    remembered: Seq<u32>,
)
    ensures
        after_lock(Ok(true)) == StepView::ReadLocked,
        after_lock(Ok(false)) == StepView::Done(
            Ok(DoneView::Locked("another process holds its config lock"@)),
        ),
        after_lock(Err(e)) == StepView::Done(Err(e)),
        ({
            let why = "guest "@ + text::decimal(vmid as nat) + ": "@ + e;
            let write = ThenView::Write(p, new);
            let sync = ThenView::InSync(p);
            &&& after_record(vmid, Err(e), on, write, inv, noted) == StepView::Done(Err(why))
            &&& after_record(vmid, Err(e), on, sync, inv, noted) == StepView::Done(Err(why))
            &&& on && !noted && inv.uvm_major is Some ==> after_record(
                vmid,
                Ok(()),
                on,
                write,
                inv,
                noted,
            ) == StepView::Remember(inv.uvm_major->Some_0, write) && after_record(
                vmid,
                Ok(()),
                on,
                sync,
                inv,
                noted,
            ) == StepView::Remember(inv.uvm_major->Some_0, sync)
            &&& !on || noted || inv.uvm_major is None ==> after_record(
                vmid,
                Ok(()),
                on,
                write,
                inv,
                noted,
            ) == StepView::Write(p, new) && after_record(vmid, Ok(()), on, sync, inv, noted)
                == StepView::Done(Ok(DoneView::InSync(p)))
            &&& after_remember(Ok(()), write) == StepView::Write(p, new)
            &&& after_remember(Ok(()), sync) == StepView::Done(Ok(DoneView::InSync(p)))
            &&& after_remember(Err(e), write) == StepView::Done(Err(e))
            &&& after_remember(Err(e), sync) == StepView::Done(Err(e))
            &&& after_write(vmid, Err(e), p, new, inv, remembered) == StepView::Done(Err(why))
            &&& p.desired.len() > 0 ==> after_write(vmid, Ok(()), p, new, inv, remembered)
                == StepView::Done(Ok(DoneView::Wrote(p)))
            &&& after_forget(Ok(()), p) == StepView::Done(Ok(DoneView::Wrote(p)))
            &&& after_forget(Err(e), p) == StepView::Done(Err(e))
        }),
{
}

/// A config has lines left exactly if it names a remembered major that no
/// driver holds: one major more adds what that one alone would.
pub proof fn law_what_is_left(s: Seq<char>, a: Seq<u32>, m: u32, live: Set<u32>)
    ensures
        !left(s, Seq::empty(), live),
        left(s, a.push(m), live) <==> left(s, a, live) || !live.contains(m) && conf::majors_of(
            s,
        ).contains(m),
{
    let b = a.push(m);
    assert(b[a.len() as int] == m);
    assert(b.contains(m));
    if left(s, a, live) {
        let k = choose|k: u32|
            a.contains(k) && !live.contains(k) && #[trigger] conf::majors_of(s).contains(k);
        let i = choose|i: int| 0 <= i < a.len() && a[i] == k;
        assert(b[i] == k);
        assert(b.contains(k));
    }
    if left(s, b, live) {
        let k = choose|k: u32|
            b.contains(k) && !live.contains(k) && #[trigger] conf::majors_of(s).contains(k);
        let i = choose|i: int| 0 <= i < b.len() && b[i] == k;
        if i < a.len() {
            assert(a[i] == k);
            assert(a.contains(k));
        }
    }
}

// ---------------------------------------------------------------------------
// What is said.
// ---------------------------------------------------------------------------

/// There is something to say of a guest exactly if it was written, refused or
/// waited for; it begins with the guest and carries the reason. That a restart
/// is owed is said exactly of a running guest that got lines.
pub proof fn law_what_there_is_to_say(
    d: DoneView,
    vmid: u32,
    running: bool,
    p: PlanView,
    why: Seq<char>,
)
    ensures
        described(d, vmid, running) is Some <==> d is Wrote || d is Refused || d is Locked,
        !(d is Wrote) ==> described(d, vmid, running) == described(d, vmid, !running),
        described(DoneView::Refused(why), vmid, running) == Some(
            text::decimal(vmid as nat) + ": refused: "@ + why,
        ),
        described(DoneView::Locked(why), vmid, running) == Some(
            text::decimal(vmid as nat) + ": config locked ("@ + why + "); waiting"@,
        ),
        p.desired.len() == 0 ==> described(DoneView::Wrote(p), vmid, running) == Some(
            text::decimal(vmid as nat) + ": removed the managed lines"@,
        ),
        p.desired.len() > 0 ==> described(DoneView::Wrote(p), vmid, false) == Some(
            text::decimal(vmid as nat) + ": wrote "@ + text::decimal(p.desired.len())
                + " line(s) for "@ + text::join(p.gpus, ", "@),
        ),
        p.desired.len() > 0 ==> described(DoneView::Wrote(p), vmid, true)->Some_0 == described(
            DoneView::Wrote(p),
            vmid,
            false,
        )->Some_0 + " (restart the container to apply)"@,
{
    reveal_strlit("");
    if p.desired.len() > 0 {
        let head = text::decimal(vmid as nat) + ": wrote "@ + text::decimal(p.desired.len())
            + " line(s) for "@ + text::join(p.gpus, ", "@);
        assert(head + ""@ =~= head);
    }
}

/// Every note of a plan is said, each with its guest, and then what was done.
pub proof fn law_every_note_is_reported(vmid: u32, p: PlanView, running: bool, i: int)
    ensures
        0 <= i < p.notes.len() ==> {
            let note = text::decimal(vmid as nat) + ": "@ + p.notes[i];
            &&& i < reported(vmid, DoneView::Wrote(p), running).len()
            &&& reported(vmid, DoneView::Wrote(p), running)[i] == note
            &&& i < reported(vmid, DoneView::InSync(p), running).len()
            &&& reported(vmid, DoneView::InSync(p), running)[i] == note
        },
        reported(vmid, DoneView::Wrote(p), running).len() == p.notes.len() + 1,
        reported(vmid, DoneView::Wrote(p), running).last() == described(
            DoneView::Wrote(p),
            vmid,
            running,
        )->Some_0,
        reported(vmid, DoneView::InSync(p), running).len() == p.notes.len() + if p.desired.len()
            == 0 {
            0int
        } else {
            1
        },
        reported(vmid, DoneView::Unmanaged, running).len() == 0,
        reported(vmid, DoneView::NoDriver, running).len() == 0,
{
}

/// Each of the things that can be done with a guest has a word of its own, and
/// a guest in sync has another where it has no lines.
pub proof fn law_each_state_has_its_word(a: DoneView, b: DoneView)
    ensures
        word(a) == word(b) ==> {
            &&& a is Wrote <==> b is Wrote
            &&& a is Refused <==> b is Refused
            &&& a is Locked <==> b is Locked
            &&& a is NoDriver <==> b is NoDriver
            &&& a is Unmanaged <==> b is Unmanaged
            &&& a is InSync <==> b is InSync
            &&& a is InSync ==> (a->InSync_0.desired.len() == 0 <==> b->InSync_0.desired.len() == 0)
        },
{
    reveal_strlit("no driver");
    reveal_strlit("no gpu key");
    reveal_strlit("locked");
    reveal_strlit("refused");
    reveal_strlit("no lines");
    reveal_strlit("in sync");
    reveal_strlit("written");
    assert("no driver"@.len() == 9 && "no gpu key"@.len() == 10 && "locked"@.len() == 6);
    assert("refused"@.len() == 7 && "no lines"@.len() == 8 && "in sync"@.len() == 7);
    assert("written"@.len() == 7);
    assert("refused"@[0] == 'r' && "in sync"@[0] == 'i' && "written"@[0] == 'w');
}

/// A command ends badly exactly if the inventory could not be read, or the one
/// guest that was named was refused or is locked; a guest may be named exactly
/// if it is local. That nothing is reconciled is said first, where that is so.
pub proof fn law_how_a_command_ends(
    node: Seq<char>,
    failed: Option<Seq<char>>,
    named: Option<(u32, DoneView)>,
    vmid: u32,
    local: Seq<u32>,
    inv: Facts,
    row: RowView,
)
    ensures
        judged(node, failed, named) is Err <==> failed is Some || named is Some && (
        named->Some_0.1 is Refused || named->Some_0.1 is Locked),
        of_this_node(node, vmid, local) is Ok <==> local.contains(vmid),
        reconcile::opening(node, failed, inv) is Some <==> failed is Some || !inv.driver,
        status::opening(node, failed, inv) is Some <==> failed is Some || !inv.driver,
        failed matches Some(e) ==> judged(node, failed, named) == Err::<(), Seq<char>>(
            "the GPUs of "@ + node + " could not be read: "@ + e,
        ) && status::opening(node, failed, inv) == Some(
            "the GPUs of "@ + node + " could not be read: "@ + e,
        ),
        failed is None && named is Some ==> (named->Some_0.1 matches DoneView::Refused(why)
            ==> judged(node, failed, named) == Err::<(), Seq<char>>(
            text::decimal(named->Some_0.0 as nat) + ": "@ + why,
        )),
        uninformed(row).state != "no driver"@,
        row.state != "no driver"@ ==> uninformed(row) == row,
        row.state == "no driver"@ ==> uninformed(row).state == "no inventory"@
            && uninformed(row).desired == row.desired && uninformed(row).vmid == row.vmid,
{
    reveal_strlit("no driver");
    reveal_strlit("no inventory");
    assert("no driver"@.len() == 9 && "no inventory"@.len() == 12);
}

/// With a guest named, it alone is asked for; without, every local guest is,
/// in their order.
pub proof fn law_who_is_asked_for(local: Seq<u32>, only: u32, v: u32)
    ensures
        asked_for(local, None) == local,
        asked_for(local, Some(only)).contains(v) <==> v == only && local.contains(only),
{
    lemma_keep_all(local);
    let p = |v: u32| Some(only) is None || Some(only) == Some(v);
    let f = local.filter(p);
    assert(asked_for(local, Some(only)) == f);
    if f.contains(v) {
        local.lemma_filter_contains_rev(p, v);
        let i = choose|i: int| 0 <= i < f.len() && f[i] == v;
        local.lemma_filter_pred(p, i);
        assert(p(f[i]));
    }
    if local.contains(only) {
        let i = choose|i: int| 0 <= i < local.len() && local[i] == only;
        assert(p(local[i]));
        local.lemma_filter_contains(p, i);
    }
}

proof fn lemma_keep_all(local: Seq<u32>)
    ensures
        asked_for(local, None) == local,
    decreases local.len(),
{
    reveal(Seq::filter);
    if local.len() > 0 {
        lemma_keep_all(local.drop_last());
        assert(local.drop_last().push(local.last()) =~= local);
    } else {
        assert(local =~= Seq::empty());
    }
}

// ---------------------------------------------------------------------------
// The rows of `status`.
// ---------------------------------------------------------------------------

/// A guest has a row unless it was not named, its document asks for nothing
/// and the record does not have it.
pub proof fn law_who_has_a_row(
    vmid: u32,
    running: bool,
    named: bool,
    config: Result<Seq<char>, Seq<char>>,
    document: Result<Option<Want>, Seq<char>>,
    inv: Facts,
    remembered: Seq<u32>,
    managed: bool,
)
    ensures
        row_of(vmid, running, named, config, document, inv, remembered, managed) is None
            <==> config is Ok && document == Ok::<Option<Want>, Seq<char>>(None) && !managed
            && !named,
        row_of(vmid, running, named, config, document, inv, remembered, managed) matches Some(r)
            ==> {
            &&& r.vmid == vmid && r.running == running
            &&& config matches Err(e) ==> r.state == "error: "@ + e && r.name.len() == 0
            &&& config is Ok ==> (document matches Err(e) ==> r.state == "error: "@ + e)
        },
{
}

/// A row says what the guest's plan does: its state tells whether its lines
/// are what they should be, and its notes are the plan's, after one that the
/// config is locked where it is.
pub proof fn law_what_a_row_says(
    vmid: u32,
    running: bool,
    named: bool,
    s: Seq<char>,
    want: Option<Want>,
    inv: Facts,
    remembered: Seq<u32>,
    managed: bool,
    v: Seq<char>,
)
    requires
        want is Some || managed || named,
    ensures
        ({
            let r = row_of(
                vmid,
                running,
                named,
                Ok(s),
                Ok(want),
                inv,
                remembered,
                managed,
            )->Some_0;
            &&& set_to(s, "hostname"@, v) ==> r.name == v
            &&& unset(s, "hostname"@) ==> r.name.len() == 0
            &&& set_to(s, "lock"@, v) ==> r.notes.len() > 0 && r.notes[0]
                == "the config is locked ("@ + v + ")"@
            &&& match planned(s, want, inv, remembered, managed) {
                OutcomeView::NoDriver => r.state == "no driver"@ && r.desired.len() == 0,
                OutcomeView::Unmanaged => r.state == "no gpu key"@ && r.desired.len() == 0,
                OutcomeView::Refused(why) => r.state == "refused: "@ + why && r.desired.len() == 0,
                OutcomeView::Plan(p) => {
                    &&& r.gpus == p.gpus && r.desired == p.desired && r.current == p.current
                    &&& unset(s, "lock"@) ==> r.notes == p.notes
                    &&& set_to(s, "lock"@, v) ==> r.notes.skip(1) == p.notes
                    &&& p.desired != p.current ==> r.state == "out of sync"@
                    &&& p.desired == p.current && p.desired.len() == 0 ==> r.state == "no lines"@
                    &&& p.desired == p.current && p.desired.len() > 0 ==> r.state == "in sync"@
                },
            }
        }),
{
    lemma_set_to(s, "hostname"@, v);
    lemma_set_to(s, "lock"@, v);
    let r = row_of(vmid, running, named, Ok(s), Ok(want), inv, remembered, managed)->Some_0;
    if let OutcomeView::Plan(p) = planned(s, want, inv, remembered, managed) {
        if unset(s, "lock"@) {
            assert(r.notes =~= p.notes);
        }
        if set_to(s, "lock"@, v) {
            assert(r.notes.skip(1) =~= p.notes);
        }
    }
}

/// A text that fits is not cut; one that does not is cut to what fits, the
/// last of it an ellipsis, and the rest its beginning.
pub proof fn law_how_a_text_is_cut(s: Seq<char>, n: nat)
    requires
        n >= 1,
    ensures
        cut(s, n).len() <= n,
        s.len() <= n ==> cut(s, n) == s,
        s.len() > n ==> cut(s, n).len() == n && cut(s, n).last() == '…' && cut(s, n).drop_last()
            == s.take(n - 1),
{
    reveal_strlit("…");
    if s.len() > n {
        assert(cut(s, n).drop_last() =~= s.take(n - 1));
    }
}

/// A padded text is as long as asked, or as long as it was, and is itself and
/// then spaces.
pub proof fn law_how_a_text_is_padded(s: Seq<char>, n: nat)
    ensures
        text::padded(s, n).len() == if s.len() < n {
            n
        } else {
            s.len()
        },
        text::padded(s, n).take(s.len() as int) == s,
        forall|i: int| s.len() <= i < text::padded(s, n).len() ==> text::padded(s, n)[i] == ' ',
{
    assert(text::padded(s, n).take(s.len() as int) =~= s);
}

/// The table says every row, those of one half and then those of the other,
/// with why a guest was refused and each of its notes; with none it says that
/// there is none. The lines themselves follow where a guest was named, and
/// those it should have where they differ.
pub proof fn law_what_the_table_shows(
    node: Seq<char>,
    a: Seq<RowView>,
    b: Seq<RowView>,
    r: RowView,
    why: Seq<char>,
)
    ensures
        all_lines(a + b) == all_lines(a) + all_lines(b),
        all_lines(seq![r]) == row_lines(r),
        row_lines(r).len() >= 1 + r.notes.len(),
        row_lines(r)[0] == row_line(r),
        r.state == "refused: "@ + why ==> row_lines(r).len() == 2 + r.notes.len() && row_lines(r)[1]
            == "        "@ + why,
        forall|i: int|
            0 <= i < r.notes.len() ==> row_lines(r)[row_lines(r).len() - r.notes.len() + i]
                == "        "@ + #[trigger] r.notes[i],
        table(node, Seq::empty(), true) == seq!["no guest on "@ + node + " has a gpu document"@],
        a.len() > 0 ==> table(node, a, false).len() == 1 + all_lines(a).len() && table(
            node,
            a,
            false,
        ).skip(1) == all_lines(a),
        a.len() > 0 ==> table(node, a, true) == table(node, a, false) + detail_lines(a[0]),
        detail_lines(r).len() >= (if r.current.len() == 0 {
            1
        } else {
            r.current.len()
        }),
        r.desired != r.current ==> detail_lines(r).len() == (if r.current.len() == 0 {
            1
        } else {
            r.current.len()
        }) + (if r.desired.len() == 0 {
            1
        } else {
            r.desired.len()
        }) + (if r.running {
            1nat
        } else {
            0
        }),
    decreases b.len(),
{
    reveal_strlit("refused: ");
    if b.len() == 0 {
        assert(a + b =~= a);
        assert(all_lines(a) + all_lines(b) =~= all_lines(a));
    } else {
        law_what_the_table_shows(node, a, b.drop_last(), r, why);
        assert((a + b).drop_last() =~= a + b.drop_last());
        assert((a + b).last() == b.last());
        assert(all_lines(a + b) =~= all_lines(a) + all_lines(b));
    }
    let one = seq![r];
    assert(one.drop_last() =~= Seq::empty());
    assert(one.last() == r);
    assert(all_lines(Seq::empty()) =~= Seq::empty());
    assert(all_lines(one) =~= row_lines(r));
    if r.state == "refused: "@ + why {
        assert(r.state.take(9) =~= "refused: "@);
        assert(r.state.skip(9) =~= why);
    }
    if a.len() > 0 {
        assert(table(node, a, false).skip(1) =~= all_lines(a));
        assert(table(node, a, true) =~= table(node, a, false) + detail_lines(a[0]));
    }
}

/// The columns of a row: the vmid, the name, whether it runs, the state and the
/// cards.
pub proof fn law_what_a_row_looks_like(r: RowView)
    requires
        text::decimal(r.vmid as nat).len() <= 7,
    ensures
        row_line(r).take(7) == text::padded(text::decimal(r.vmid as nat), 7),
        row_line(r).subrange(8, 28) == text::padded(cut(r.name, 20), 20),
        row_line(r).subrange(29, 38) == text::padded(
            if r.running {
                "running"@
            } else {
                "stopped"@
            },
            9,
        ),
        row_line(r).subrange(39, 51) == text::padded(cut(r.state, 12), 12),
        row_line(r).skip(52) == if r.gpus.len() == 0 {
            "-"@
        } else {
            text::join(r.gpus, ", "@)
        },
{
    reveal_strlit(" ");
    reveal_strlit("running");
    reveal_strlit("stopped");
    let a = text::padded(text::decimal(r.vmid as nat), 7);
    let b = text::padded(cut(r.name, 20), 20);
    let w = if r.running {
        "running"@
    } else {
        "stopped"@
    };
    let c = text::padded(w, 9);
    let d = text::padded(cut(r.state, 12), 12);
    let g = if r.gpus.len() == 0 {
        "-"@
    } else {
        text::join(r.gpus, ", "@)
    };
    law_how_a_text_is_cut(r.name, 20);
    law_how_a_text_is_cut(r.state, 12);
    law_how_a_text_is_padded(text::decimal(r.vmid as nat), 7);
    law_how_a_text_is_padded(cut(r.name, 20), 20);
    law_how_a_text_is_padded(w, 9);
    law_how_a_text_is_padded(cut(r.state, 12), 12);
    assert(a.len() == 7 && b.len() == 20 && c.len() == 9 && d.len() == 12);
    let l = row_line(r);
    assert(l == a + " "@ + b + " "@ + c + " "@ + d + " "@ + g);
    assert(l.take(7) =~= a);
    assert(l.subrange(8, 28) =~= b);
    assert(l.subrange(29, 38) =~= c);
    assert(l.subrange(39, 51) =~= d);
    assert(l.skip(52) =~= g);
}

/// The lines of a named guest are shown as they are, each on a line of its own
/// with the set it is of before the first, and then those it should have.
pub proof fn law_how_the_lines_are_shown(r: RowView, i: int)
    ensures
        r.current.len() == 0 ==> detail_lines(r)[0] == "        "@ + "config"@
            + ": (no managed lines)"@,
        0 <= i < r.current.len() ==> detail_lines(r)[i] == "        "@ + text::padded(
            if i == 0 {
                "config"@
            } else {
                ""@
            },
            7,
        ) + " "@ + r.current[i],
        r.current.len() > 0 && r.desired != r.current && 0 <= i < r.desired.len()
            ==> detail_lines(r)[r.current.len() + i] == "        "@ + text::padded(
            if i == 0 {
                "wanted"@
            } else {
                ""@
            },
            7,
        ) + " "@ + r.desired[i],
        r.current.len() > 0 && r.desired != r.current && r.desired.len() == 0
            ==> detail_lines(r)[r.current.len() as int] == "        "@ + "wanted"@
            + ": (no managed lines)"@,
        r.desired != r.current && r.running ==> detail_lines(r).last()
            == "        restart the container to apply"@,
{
}

/// What `inventory` prints: without a driver that there is none; otherwise a
/// row for each card, in their order, and the UVM major.
pub proof fn law_what_the_inventory_shows(node: Seq<char>, inv: Facts, i: int)
    ensures
        !inv.driver ==> inventory::table(node, inv) == seq![
            "no NVIDIA driver on "@ + node + " (no /proc/driver/nvidia)"@,
        ],
        inv.driver ==> inventory::table(node, inv).len() == inv.gpus.len() + 2,
        inv.driver && 0 <= i < inv.gpus.len() ==> inventory::table(node, inv)[i + 1]
            == text::padded(text::decimal(inv.gpus[i].minor as nat), 6) + " "@ + text::padded(
            inv.gpus[i].uuid,
            45,
        ) + " "@ + description(inv.gpus[i]),
        inv.driver && inv.uvm_major is None ==> inventory::table(node, inv).last()
            == "nvidia-uvm major: "@ + "not loaded"@,
        inv.driver ==> (inv.uvm_major matches Some(m) ==> inventory::table(node, inv).last()
            == "nvidia-uvm major: "@ + text::decimal(m as nat)),
{
}

} // verus!
