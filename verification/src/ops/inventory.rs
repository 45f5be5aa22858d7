//! `inventory`: what this node has, and this node's `gpu` prefix file.
//!
//! The two halves fail apart on purpose. Reading the GPUs is what every
//! reconcile depends on; publishing the prefix file is a courtesy to the
//! editor. A prefix file that could not be written must not discard a good
//! inventory: that would turn "pmxcfs hiccup" into "no node has GPUs", which
//! is the answer that takes cards away from running containers.

use vstd::prelude::*;

use crate::cmd::Output;
use crate::inventory::{self, Card, Facts, Inventory};
use crate::ops::Ctx;
use crate::prefix::{self, Action, Task};
use crate::text;

verus! {

/// Publishes `inv` as this node's prefix file: `out` is how the call that
/// reads the file ended.
pub fn publish(ctx: &Ctx, inv: &Inventory, out: Result<Output, String>) -> (r: Result<Task, String>)
    requires
        prefix::has_file(inv@) ==> prefix::fits(ctx.node@, inv@),
    ensures
        match (out, r) {
            (Ok(o), Ok(t)) => prefix::stored(ctx.node@, o@) is Ok && t@ == prefix::task_of(
                ctx.node@,
                prefix::decided(ctx.node@, inv@, prefix::stored(ctx.node@, o@)->Ok_0),
            ),
            (Ok(o), Err(e)) => prefix::stored(ctx.node@, o@) == Err::<
                Option<Seq<char>>,
                Seq<char>,
            >(e@),
            (Err(why), Err(e)) => e@ == why@,
            (Err(_), Ok(_)) => false,
        },
{
    prefix::sync(ctx.node.as_str(), inv, out)
}

/// The word for what was done with the prefix file.
pub open spec fn word(action: Action) -> Seq<char> {
    match action {
        Action::Written => "written"@,
        Action::Unchanged => "unchanged"@,
        Action::Removed => "entry removed"@,
        Action::Absent => "not there"@,
        Action::Kept => "kept (the driver is not loaded)"@,
    }
}

/// The word for what was done with the prefix file.
pub fn action_word(action: &Action) -> (r: &'static str)
    ensures
        r@ == word(*action),
{
    match action {
        Action::Written => "written",
        Action::Unchanged => "unchanged",
        Action::Removed => "entry removed",
        Action::Absent => "not there",
        Action::Kept => "kept (the driver is not loaded)",
    }
}

/// The row of a card: its minor, its UUID and its description.
pub open spec fn row(c: Card) -> Seq<char> {
    text::padded(text::decimal(c.minor as nat), 6) + " "@ + text::padded(c.uuid, 45) + " "@
        + inventory::description(c)
}

/// How a major is spelled.
pub open spec fn major_text(m: Option<u32>) -> Seq<char> {
    match m {
        Some(m) => text::decimal(m as nat),
        None => "not loaded"@,
    }
}

/// How a major is spelled.
pub fn major(m: Option<u32>) -> (r: String)
    ensures
        r@ == major_text(m),
{
    match m {
        Some(m) => text::decimal_of(m as u64),
        None => "not loaded".to_owned(),
    }
}

/// What is said of an inventory.
pub open spec fn table(node: Seq<char>, inv: Facts) -> Seq<Seq<char>> {
    if !inv.driver {
        seq!["no NVIDIA driver on "@ + node + " (no /proc/driver/nvidia)"@]
    } else {
        seq!["MINOR  UUID                                          GPU"@] + inv.gpus.map_values(
            |c: Card| row(c),
        ) + seq!["nvidia-uvm major: "@ + major_text(inv.uvm_major)]
    }
}

/// What `pve-meta-nvidia inventory` prints of an inventory.
pub fn lines(node: &str, inv: &Inventory) -> (r: Vec<String>)
    ensures
        text::texts(r@) == table(node@, inv@),
{
    let mut out: Vec<String> = Vec::new();
    if !inv.driver_loaded() {
        out.push(
            "no NVIDIA driver on ".to_owned().concat(node).concat(" (no /proc/driver/nvidia)"),
        );
        proof {
            assert(text::texts(out@) =~= table(node@, inv@));
        }
        return out;
    }
    out.push("MINOR  UUID                                          GPU".to_owned());
    let mut i: usize = 0;
    while i < inv.gpus.len()
        invariant
            i <= inv.gpus@.len(),
            out@.len() == i + 1,
            out@[0]@ == "MINOR  UUID                                          GPU"@,
            forall|j: int| 0 <= j < i ==> (#[trigger] out@[j + 1])@ == row(inv@.gpus[j]),
        decreases inv.gpus.len() - i,
    {
        let gpu = &inv.gpus[i];
        let ghost before = out@;
        let minor = text::decimal_of(gpu.minor as u64);
        let line = text::padded_of(minor.as_str(), 6).concat(" ").concat(
            text::padded_of(gpu.uuid.as_str(), 45).as_str(),
        ).concat(" ").concat(gpu.describe().as_str());
        out.push(line);
        proof {
            assert forall|j: int| 0 <= j < i + 1 implies (#[trigger] out@[j + 1])@ == row(
                inv@.gpus[j],
            ) by {
                if j < i {
                    assert(out@[j + 1] == before[j + 1]);
                }
            }
        }
        i += 1;
    }
    let last = "nvidia-uvm major: ".to_owned().concat(major(inv.uvm_major).as_str());
    let ghost before = out@;
    out.push(last);
    proof {
        let t = table(node@, inv@);
        assert forall|k: int| 0 <= k < t.len() implies text::texts(out@)[k] == t[k] by {
            if 1 <= k && k <= inv@.gpus.len() {
                assert(before[(k - 1) + 1]@ == row(inv@.gpus[k - 1]));
            }
        }
        assert(text::texts(out@) =~= t);
    }
    out
}

/// The last line `pve-meta-nvidia inventory` prints, and the line the daemon
/// logs: what was done with the prefix file.
pub fn action_line(node: &str, action: &Action) -> (r: String)
    ensures
        r@ == prefix::id_of(node@) + ": "@ + word(*action),
{
    prefix::doc_id(node).concat(": ").concat(action_word(action))
}

} // verus!
