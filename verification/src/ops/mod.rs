//! The verbs. Each takes a [`Ctx`] and does one thing a human could also do
//! by hand with `pve-meta`, an editor and `pct`.

pub mod daemon;
pub mod inventory;
pub mod log;
pub mod reconcile;
pub mod status;

use vstd::prelude::*;

use crate::node;
use crate::state::Record;

verus! {

/// What every verb needs: which node this is, and the record of the guests
/// this node wrote managed lines into.
#[derive(Debug)]
pub struct Ctx {
    pub node: String,
    pub record: Record,
}

impl Ctx {
    /// On the node `/etc/pve/local` names: `target` is the last component of
    /// where it points, if it has one that is text.
    pub fn load(target: Option<&str>) -> (r: Result<Ctx, String>)
        ensures
            match (target, r) {
                (Some(t), Ok(c)) => t@.len() > 0 && c.node@ == t@ && c.record@
                    == crate::state::DIR@,
                (Some(t), Err(e)) => t@.len() == 0 && e@ == "/etc/pve/local does not name a node"@,
                (None, Err(e)) => e@ == "/etc/pve/local does not name a node"@,
                (None, Ok(_)) => false,
            },
    {
        match node::nodename(target) {
            Ok(node) => Ok(Ctx { node, record: Record::default() }),
            Err(e) => Err(e),
        }
    }
}

} // verus!
