//! pve-meta-nvidia: NVIDIA GPUs for unprivileged LXC guests, described by the
//! `gpu` subtree of the guest's pve-meta document and reconciled from the node
//! the guest runs on.
//!
//! Nothing is installed inside a guest: LXC's stock `nvidia` hook bind-mounts
//! the host's driver into the container at start. This operator only writes
//! the handful of config lines that hook needs, and keeps them true for this
//! node's hardware.
//!
//! Everything that decides something is in this crate, and is proved. What
//! runs processes, reads and writes files, takes locks and talks to systemd is
//! the program around it: it hands over what it read, and does what it is told.
//!
//! The layering, top down:
//!
//! * `ops`: the verbs: inventory, reconcile, status, daemon. A verb that
//!   alternates between looking at the node and deciding is a sequence of
//!   steps, each with what came of the one before.
//! * `plan`: what a guest's config should say, given its document and this
//!   node's GPUs.
//! * `conf`: the container config as text: which lines this tool owns, and
//!   splicing a new set of them into the main section.
//! * `doc`: the `gpu` subtree of the guest's pve-meta document.
//! * `prefix`: this node's `gpu` prefix file, rendered from the inventory.
//! * `inventory`: the node's GPUs and device majors.
//! * `node`, `state`, `lock`, `cmd`, `notify`: the vmlist and container facts,
//!   the record of which guests this tool wrote lines into, PVE's config lock
//!   and atomic write, running the node's own tools under a deadline, and what
//!   systemd is told about all of it.
//! * `yaml`, `json`, `table`, `text`, `file`: documents, tables and strings.
//! * `laws`: what holds of all of it, stated from inputs and results alone.
//!
//! A specification speaks of plain mathematical values: a text is a
//! `Seq<char>`, and each type has a view that says what a value of it says.

use vstd::prelude::*;

pub mod cmd;
pub mod conf;
pub mod doc;
pub mod file;
pub mod inventory;
pub mod json;
pub mod laws;
pub mod lock;
pub mod node;
pub mod notify;
pub mod ops;
pub mod plan;
pub mod prefix;
pub mod state;
pub mod table;
pub mod text;
pub mod yaml;

verus! {

/// The metadata prefix this tool reads.
pub const PREFIX: &'static str = "gpu";

/// LXC's mount hook, which does the work inside the container.
pub const HOOK: &'static str = "/usr/share/lxc/hooks/nvidia";

/// The driver's registered character major.
pub const NVIDIA_MAJOR: u32 = 195;

/// The minor of `/dev/nvidiactl`.
pub const CTL_MINOR: u32 = 255;

/// The minor of `/dev/nvidia-modeset`.
pub const MODESET_MINOR: u32 = 254;

} // verus!
