//! `status`: what every guest of this node that has a `gpu` key (or that this
//! node wrote lines into) would get, and what its config says now.
//!
//! There is no "pending restart" state to report and none is invented: LXC
//! reads the config when the container starts, and nothing on the host says
//! which config text a running container was started from. What can be said
//! precisely is said: the desired lines, the lines in the config, and whether
//! the container is running. A running container whose lines were just written
//! needs a restart, and `status <vmid>` shows both sets so it is obvious which.

use vstd::prelude::*;

use crate::conf;
use crate::doc::{Gpu, Want};
use crate::inventory::{Facts, Inventory};
use crate::ops::reconcile::unread;
use crate::plan::{self, Outcome, OutcomeView};
use crate::text;

verus! {

/// What is said of one guest.
#[derive(Debug)]
pub struct Row {
    pub vmid: u32,
    pub name: String,
    pub running: bool,
    /// `in sync`, `out of sync`, `no lines`, `no gpu key`, `no driver`,
    /// `refused: ...`, `error: ...`.
    pub state: String,
    pub gpus: Vec<String>,
    pub desired: Vec<String>,
    pub current: Vec<String>,
    pub notes: Vec<String>,
}

/// What a [`Row`] says.
pub struct RowView {
    pub vmid: u32,
    pub name: Seq<char>,
    pub running: bool,
    pub state: Seq<char>,
    pub gpus: Seq<Seq<char>>,
    pub desired: Seq<Seq<char>>,
    pub current: Seq<Seq<char>>,
    pub notes: Seq<Seq<char>>,
}

impl View for Row {
    type V = RowView;

    open spec fn view(&self) -> RowView {
        RowView {
            vmid: self.vmid,
            name: self.name@,
            running: self.running,
            state: self.state@,
            gpus: text::texts(self.gpus@),
            desired: text::texts(self.desired@),
            current: text::texts(self.current@),
            notes: text::texts(self.notes@),
        }
    }
}

/// A row that says nothing yet.
pub open spec fn blank_row(vmid: u32, running: bool) -> RowView {
    RowView {
        vmid,
        name: Seq::empty(),
        running,
        state: Seq::empty(),
        gpus: Seq::empty(),
        desired: Seq::empty(),
        current: Seq::empty(),
        notes: Seq::empty(),
    }
}

/// The row of a guest whose config and document were read.
pub open spec fn planned_row(row: RowView, o: OutcomeView) -> RowView {
    match o {
        OutcomeView::NoDriver => RowView { state: "no driver"@, ..row },
        OutcomeView::Unmanaged => RowView { state: "no gpu key"@, ..row },
        OutcomeView::Refused(why) => RowView { state: "refused: "@ + why, ..row },
        OutcomeView::Plan(p) => RowView {
            state: if p.desired != p.current {
                "out of sync"@
            } else if p.desired.len() == 0 {
                "no lines"@
            } else {
                "in sync"@
            },
            gpus: p.gpus,
            desired: p.desired,
            current: p.current,
            notes: row.notes + p.notes,
            ..row
        },
    }
}

/// The row of a guest. One without a `gpu` key has none unless it was named or
/// this node wrote lines into it.
pub open spec fn row_of(
    vmid: u32,
    running: bool,
    named: bool,
    config: Result<Seq<char>, Seq<char>>,
    document: Result<Option<Want>, Seq<char>>,
    inv: Facts,
    remembered: Seq<u32>,
    managed: bool,
) -> Option<RowView> {
    let blank = blank_row(vmid, running);
    match config {
        Err(e) => Some(RowView { state: "error: "@ + e, ..blank }),
        Ok(s) => {
            let row = RowView {
                name: match conf::value_in(s, "hostname"@) {
                    Some(n) => n,
                    None => Seq::empty(),
                },
                ..blank
            };
            match document {
                Err(e) => Some(RowView { state: "error: "@ + e, ..row }),
                Ok(want) => if want is None && !managed && !named {
                    None
                } else {
                    let row = RowView {
                        notes: match conf::value_in(s, "lock"@) {
                            Some(l) => seq!["the config is locked ("@ + l + ")"@],
                            None => Seq::empty(),
                        },
                        ..row
                    };
                    Some(planned_row(row, plan::planned(s, want, inv, remembered, managed)))
                },
            }
        },
    }
}

/// The view of an optional row.
pub open spec fn row_view(r: Option<Row>) -> Option<RowView> {
    match r {
        Some(r) => Some(r@),
        None => None,
    }
}

/// The view of a document that was asked for.
pub open spec fn document_view(r: Result<Option<&Gpu>, String>) -> Result<
    Option<Want>,
    Seq<char>,
> {
    match r {
        Ok(w) => Ok(plan::want_view(w)),
        Err(e) => Err(e@),
    }
}

/// A row that says nothing yet.
fn new_row(vmid: u32, running: bool) -> (r: Row)
    ensures
        r@ == blank_row(vmid, running),
{
    let r = Row {
        vmid,
        name: String::new(),
        running,
        state: String::new(),
        gpus: Vec::new(),
        desired: Vec::new(),
        current: Vec::new(),
        notes: Vec::new(),
    };
    proof {
        assert(r@.name =~= Seq::empty());
        assert(r@.state =~= Seq::empty());
        assert(r@.gpus =~= Seq::empty());
        assert(r@.desired =~= Seq::empty());
        assert(r@.current =~= Seq::empty());
        assert(r@.notes =~= Seq::empty());
    }
    r
}

/// The row of one guest: `named` is whether it was asked for by its vmid.
pub fn row(
    vmid: u32,
    running: bool,
    named: bool,
    config: Result<String, String>,
    document: Result<Option<&Gpu>, String>,
    inv: &Inventory,
    remembered_uvm: &[u32],
    managed: bool,
) -> (r: Option<Row>)
    ensures
        row_view(r) == row_of(
            vmid,
            running,
            named,
            text::result_text(config),
            document_view(document),
            inv@,
            remembered_uvm@,
            managed,
        ),
{
    let mut row = new_row(vmid, running);
    let s = match config {
        Ok(s) => s,
        Err(e) => {
            row.state = "error: ".to_owned().concat(e.as_str());
            return Some(row);
        },
    };
    if let Some(name) = conf::hostname(s.as_str()) {
        row.name = name.to_owned();
    }
    let want = match document {
        Ok(w) => w,
        Err(e) => {
            row.state = "error: ".to_owned().concat(e.as_str());
            return Some(row);
        },
    };
    if want.is_none() && !managed && !named {
        return None;
    }
    if let Some(l) = conf::value_of(s.as_str(), "lock") {
        let note = "the config is locked (".to_owned().concat(l).concat(")");
        proof {
            text::lemma_texts_push(row.notes@, note);
            assert(row@.notes.push(note@) =~= seq![note@]);
        }
        row.notes.push(note);
    }
    match plan::plan(s.as_str(), want, inv, remembered_uvm, managed) {
        Outcome::NoDriver => {
            row.state = "no driver".to_owned();
        },
        Outcome::Unmanaged => {
            row.state = "no gpu key".to_owned();
        },
        Outcome::Refused(why) => {
            row.state = "refused: ".to_owned().concat(why.as_str());
        },
        Outcome::Plan(p) => {
            row.state = if p.changed() {
                "out of sync".to_owned()
            } else if p.desired.len() == 0 {
                "no lines".to_owned()
            } else {
                "in sync".to_owned()
            };
            let ghost before = row@.notes;
            let ghost notes = p@.notes;
            let mut more = p.notes;
            row.gpus = p.gpus;
            row.desired = p.desired;
            row.current = p.current;
            row.notes.append(&mut more);
            proof {
                assert(row@.notes =~= before + notes);
            }
        },
    }
    Some(row)
}

/// The guests that are asked for: the one that was named, or all of them.
pub open spec fn asked_for(local: Seq<u32>, only: Option<u32>) -> Seq<u32> {
    local.filter(|v: u32| only is None || only == Some(v))
}

/// The guests that are asked for: the one that was named, or all of them.
pub fn chosen(local: &[u32], only: Option<u32>) -> (r: Vec<u32>)
    ensures
        r@ == asked_for(local@, only),
{
    let mut out: Vec<u32> = Vec::new();
    let mut i: usize = 0;
    proof {
        reveal(Seq::filter);
        assert(local@.take(0) =~= Seq::empty());
    }
    while i < local.len()
        invariant
            i <= local@.len(),
            out@ == local@.take(i as int).filter(|v: u32| only is None || only == Some(v)),
        decreases local.len() - i,
    {
        let vmid: u32 = local[i];
        proof {
            reveal(Seq::filter);
            assert(local@.take(i + 1).drop_last() =~= local@.take(i as int));
            assert(local@.take(i + 1).last() == vmid);
        }
        let wanted: bool = match only {
            Some(v) => v == vmid,
            None => true,
        };
        if wanted {
            out.push(vmid);
        }
        i += 1;
    }
    proof {
        assert(local@.take(local@.len() as int) =~= local@);
    }
    out
}

/// A row where the inventory could not be read.
pub open spec fn uninformed(row: RowView) -> RowView {
    if row.state == "no driver"@ {
        RowView { state: "no inventory"@, ..row }
    } else {
        row
    }
}

/// Where the inventory could not be read, "no driver" is not known: the guest
/// has "no inventory".
pub fn without_inventory(row: Row) -> (r: Row)
    ensures
        r@ == uninformed(row@),
{
    let mut row = row;
    if text::eq(row.state.as_str(), "no driver") {
        row.state = "no inventory".to_owned();
    }
    row
}

// ---------------------------------------------------------------------------
// At a terminal.
// ---------------------------------------------------------------------------

/// What is said first, where something is wrong with the node.
pub open spec fn opening(node: Seq<char>, failed: Option<Seq<char>>, inv: Facts) -> Option<
    Seq<char>,
> {
    match failed {
        Some(e) => Some(unread(node, e)),
        None => if inv.driver {
            None
        } else {
            Some("no NVIDIA driver on "@ + node + " (no /proc/driver/nvidia); no guest is touched"@)
        },
    }
}

/// What is said first, where something is wrong with the node.
pub fn headline(node: &str, failed: Option<&str>, inv: &Inventory) -> (r: Option<String>)
    ensures
        text::opt_text(r) == opening(node@, text::opt_view(failed), inv@),
{
    match failed {
        Some(e) => Some(
            "the GPUs of ".to_owned().concat(node).concat(" could not be read: ").concat(e),
        ),
        None => if inv.driver_loaded() {
            None
        } else {
            Some(
                "no NVIDIA driver on ".to_owned().concat(node).concat(
                    " (no /proc/driver/nvidia); no guest is touched",
                ),
            )
        },
    }
}

/// At most `n` characters of `s`, the last of them a `…` where some are left
/// out.
pub open spec fn cut(s: Seq<char>, n: nat) -> Seq<char> {
    if s.len() <= n {
        s
    } else {
        s.take(n - 1) + "…"@
    }
}

/// At most `n` characters of `s`, the last of them a `…` where some are left
/// out.
pub fn trunc(s: &str, n: usize) -> (r: String)
    requires
        n >= 1 || s@.len() == 0,
    ensures
        r@ == cut(s@, n as nat),
{
    if s.unicode_len() <= n {
        s.to_owned()
    } else {
        text::take(s, n - 1).to_owned().concat("…")
    }
}

/// The line of a row.
pub open spec fn row_line(r: RowView) -> Seq<char> {
    text::padded(text::decimal(r.vmid as nat), 7) + " "@ + text::padded(cut(r.name, 20), 20) + " "@
        + text::padded(
        if r.running {
            "running"@
        } else {
            "stopped"@
        },
        9,
    ) + " "@ + text::padded(cut(r.state, 12), 12) + " "@ + if r.gpus.len() == 0 {
        "-"@
    } else {
        text::join(r.gpus, ", "@)
    }
}

/// The lines of a row: itself, why it was refused, and its notes.
pub open spec fn row_lines(r: RowView) -> Seq<Seq<char>> {
    seq![row_line(r)] + match text::strip_prefix(r.state, "refused: "@) {
        Some(why) => seq!["        "@ + why],
        None => Seq::empty(),
    } + text::prefixed("        "@, r.notes)
}

/// The lines of a set of managed lines.
pub open spec fn set_lines(what: Seq<char>, ls: Seq<Seq<char>>) -> Seq<Seq<char>> {
    if ls.len() == 0 {
        seq!["        "@ + what + ": (no managed lines)"@]
    } else {
        Seq::new(
            ls.len(),
            |i: int|
                "        "@ + text::padded(
                    if i == 0 {
                        what
                    } else {
                        ""@
                    },
                    7,
                ) + " "@ + ls[i],
        )
    }
}

/// The lines themselves: those the config has and, where they differ, those it
/// should have.
pub open spec fn detail_lines(r: RowView) -> Seq<Seq<char>> {
    set_lines("config"@, r.current) + if r.desired != r.current {
        set_lines("wanted"@, r.desired) + if r.running {
            seq!["        restart the container to apply"@]
        } else {
            Seq::empty()
        }
    } else {
        Seq::empty()
    }
}

/// The view of a list of rows.
pub open spec fn rows_view(rows: Seq<Row>) -> Seq<RowView> {
    rows.map_values(|r: Row| r@)
}

/// The lines of several rows.
pub open spec fn all_lines(rows: Seq<RowView>) -> Seq<Seq<char>>
    decreases rows.len(),
{
    if rows.len() == 0 {
        Seq::empty()
    } else {
        all_lines(rows.drop_last()) + row_lines(rows.last())
    }
}

/// What `status` says of the guests. Where one was named, the lines themselves
/// are shown, which is the only way to see what a restart would change.
pub open spec fn table(node: Seq<char>, rows: Seq<RowView>, named: bool) -> Seq<Seq<char>> {
    if rows.len() == 0 {
        seq!["no guest on "@ + node + " has a gpu document"@]
    } else {
        seq!["VMID    NAME                 CT        STATE        GPUS"@] + all_lines(rows)
            + if named {
            detail_lines(rows[0])
        } else {
            Seq::empty()
        }
    }
}

/// The line of a row.
fn line(r: &Row) -> (s: String)
    ensures
        s@ == row_line(r@),
{
    let vmid = text::decimal_of(r.vmid as u64);
    let name = trunc(r.name.as_str(), 20);
    let state = trunc(r.state.as_str(), 12);
    let running = if r.running {
        "running"
    } else {
        "stopped"
    };
    let slices = text::slices(&r.gpus);
    let gpus = if r.gpus.len() == 0 {
        "-".to_owned()
    } else {
        text::joined(slices.as_slice(), ", ")
    };
    text::padded_of(vmid.as_str(), 7).concat(" ").concat(
        text::padded_of(name.as_str(), 20).as_str(),
    ).concat(" ").concat(text::padded_of(running, 9).as_str()).concat(" ").concat(
        text::padded_of(state.as_str(), 12).as_str(),
    ).concat(" ").concat(gpus.as_str())
}

/// Adds the lines of a set of managed lines.
fn print_lines(out: &mut Vec<String>, what: &str, lines: &Vec<String>)
    ensures
        text::texts(final(out)@) == text::texts(old(out)@) + set_lines(
            what@,
            text::texts(lines@),
        ),
{
    let ghost start = text::texts(out@);
    let ghost all = text::texts(lines@);
    let ghost wanted = set_lines(what@, all);
    proof {
        text::lemma_texts(lines@);
    }
    if lines.len() == 0 {
        let l = "        ".to_owned().concat(what).concat(": (no managed lines)");
        proof {
            text::lemma_texts_push(out@, l);
            assert(start.push(l@) =~= start + wanted);
        }
        out.push(l);
        return;
    }
    let mut i: usize = 0;
    proof {
        assert(start + wanted.take(0) =~= start);
    }
    while i < lines.len()
        invariant
            i <= lines@.len(),
            lines@.len() > 0,
            all == text::texts(lines@),
            wanted == set_lines(what@, all),
            text::texts(out@) == start + wanted.take(i as int),
        decreases lines.len() - i,
    {
        let key = if i == 0 {
            what
        } else {
            ""
        };
        let l = "        ".to_owned().concat(text::padded_of(key, 7).as_str()).concat(" ").concat(
            lines[i].as_str(),
        );
        let ghost before = text::texts(out@);
        proof {
            text::lemma_texts(lines@);
            text::lemma_texts_push(out@, l);
            assert(wanted[i as int] == l@);
            assert(before.push(l@) =~= start + wanted.take(i + 1));
        }
        out.push(l);
        i += 1;
    }
    proof {
        assert(wanted.take(wanted.len() as int) =~= wanted);
    }
}

/// Adds the lines of a row.
fn print_row(out: &mut Vec<String>, r: &Row)
    ensures
        text::texts(final(out)@) == text::texts(old(out)@) + row_lines(r@),
{
    let ghost start = text::texts(out@);
    let first = line(r);
    proof {
        text::lemma_texts_push(out@, first);
    }
    out.push(first);
    let ghost mid = text::texts(out@);
    if let Some(why) = text::after_prefix(r.state.as_str(), "refused: ") {
        let l = "        ".to_owned().concat(why);
        proof {
            text::lemma_texts_push(out@, l);
        }
        out.push(l);
    }
    let ghost why = match text::strip_prefix(r@.state, "refused: "@) {
        Some(why) => seq!["        "@ + why],
        None => Seq::empty(),
    };
    proof {
        assert(text::texts(out@) =~= start + (seq![row_line(r@)] + why));
    }
    text::push_prefixed(out, "        ", &r.notes);
    proof {
        assert(text::texts(out@) =~= start + row_lines(r@));
    }
}

/// What `pve-meta-nvidia status` prints of the guests; `named` is whether one
/// was asked for by its vmid.
pub fn lines(node: &str, rows: &Vec<Row>, named: bool) -> (r: Vec<String>)
    ensures
        text::texts(r@) == table(node@, rows_view(rows@), named),
{
    let mut out: Vec<String> = Vec::new();
    if rows.len() == 0 {
        out.push("no guest on ".to_owned().concat(node).concat(" has a gpu document"));
        proof {
            assert(text::texts(out@) =~= table(node@, rows_view(rows@), named));
        }
        return out;
    }
    out.push("VMID    NAME                 CT        STATE        GPUS".to_owned());
    let ghost head = seq!["VMID    NAME                 CT        STATE        GPUS"@];
    let ghost all = rows_view(rows@);
    let mut i: usize = 0;
    proof {
        assert(text::texts(out@) =~= head + all_lines(all.take(0)));
    }
    while i < rows.len()
        invariant
            i <= rows@.len(),
            all == rows_view(rows@),
            text::texts(out@) == head + all_lines(all.take(i as int)),
        decreases rows.len() - i,
    {
        proof {
            assert(all.take(i + 1).last() == rows@[i as int]@);
            assert(all.take(i + 1).drop_last() =~= all.take(i as int));
        }
        let ghost before = text::texts(out@);
        print_row(&mut out, &rows[i]);
        proof {
            assert(text::texts(out@) =~= head + all_lines(all.take(i + 1)));
        }
        i += 1;
    }
    proof {
        assert(all.take(all.len() as int) =~= all);
    }
    let ghost listed = text::texts(out@);
    if named {
        let first = &rows[0];
        print_lines(&mut out, "config", &first.current);
        let ghost config = set_lines("config"@, first@.current);
        if !text::same_texts(&first.desired, &first.current) {
            print_lines(&mut out, "wanted", &first.desired);
            let ghost wanted = set_lines("wanted"@, first@.desired);
            if first.running {
                let l = "        restart the container to apply".to_owned();
                proof {
                    text::lemma_texts_push(out@, l);
                }
                out.push(l);
            }
            proof {
                assert(text::texts(out@) =~= listed + detail_lines(first@));
            }
        } else {
            proof {
                assert(text::texts(out@) =~= listed + detail_lines(first@));
            }
        }
    } else {
        proof {
            assert(listed + Seq::<Seq<char>>::empty() =~= listed);
        }
    }
    out
}

} // verus!
