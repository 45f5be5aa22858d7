//! `sd_notify`: telling systemd the boot pass is done, and that the loop is
//! still turning.
//!
//! **A ping must mean "a bounded step finished"**, and the bounded steps are
//! the external commands (`cmd`). Pinging only between guests would leave the
//! longest stretch of a pass with no ping at all, and a watchdog that kills a
//! daemon for being slow rather than for being stuck is worse than no watchdog.
//!
//! Nothing but systemd reads any of this, and a daemon started by hand has no
//! `NOTIFY_SOCKET`. A socket that is there and does not work is reported
//! **once**: it is one line of truth, not one line per guest per poll.

use vstd::prelude::*;

use crate::text;

verus! {

/// What is known of the socket: whether its failing has been reported, and
/// how many pings were sent.
#[derive(Debug, Clone, Copy, PartialEq, Eq, Structural)]
pub struct Notifier {
    pub reported: bool,
    pub pings: u64,
}

/// What a failing socket is reported with.
pub open spec fn failing(path: Seq<char>, e: Seq<char>) -> Seq<char> {
    "cannot notify systemd through "@ + path + ": "@ + e
}

/// After one more ping.
pub open spec fn pinged(n: Notifier) -> Notifier {
    Notifier {
        pings: if n.pings == u64::MAX {
            0
        } else {
            (n.pings + 1) as u64
        },
        ..n
    }
}

/// What is known after a message was sent through `path`, and what is said of
/// it: `ended` is how that ended, where there is a socket.
pub open spec fn after_send(
    n: Notifier,
    path: Seq<char>,
    ended: Option<Result<(), Seq<char>>>,
) -> (Notifier, Option<Seq<char>>) {
    match ended {
        None => (n, None),
        Some(Ok(())) => (Notifier { reported: false, ..n }, None),
        Some(Err(e)) => (
            Notifier { reported: true, ..n },
            if n.reported {
                None
            } else {
                Some(failing(path, e))
            },
        ),
    }
}

impl Notifier {
    /// Nothing reported, nothing sent.
    pub fn new() -> (r: Notifier)
        ensures
            r == (Notifier { reported: false, pings: 0 }),
    {
        Notifier { reported: false, pings: 0 }
    }

    /// What tells systemd the boot pass is done, so `pve-guests.service` may
    /// start the containers.
    pub fn ready(&self) -> (r: &'static str)
        ensures
            r@ == "READY=1\n"@,
    {
        "READY=1\n"
    }

    /// What tells systemd this loop is still turning, which it does between
    /// bounded steps. With `WatchdogSec=` in the unit, a step that never ends
    /// restarts the daemon instead of leaving a process that runs and
    /// reconciles nothing.
    pub fn alive(&mut self) -> (r: &'static str)
        ensures
            r@ == "WATCHDOG=1\n"@,
            *final(self) == pinged(*old(self)),
    {
        self.pings = self.pings.wrapping_add(1);
        "WATCHDOG=1\n"
    }

    /// How many pings have been sent.
    pub fn pings(&self) -> (r: u64)
        ensures
            r == self.pings,
    {
        self.pings
    }

    /// Takes note of how sending a message through `path` ended, and gives
    /// what is to be said of it. Without a socket nothing was sent and nothing
    /// is said; one that works is a fresh state.
    pub fn sent(&mut self, path: &str, ended: Option<Result<(), String>>) -> (r: Option<String>)
        ensures
            (*final(self), text::opt_text(r)) == after_send(
                *old(self),
                path@,
                match ended {
                    Some(e) => Some(text::outcome(e)),
                    None => None,
                },
            ),
    {
        match ended {
            None => None,
            Some(Ok(())) => {
                self.reported = false;
                None
            },
            Some(Err(e)) => self.note_failure(path, e.as_str()),
        }
    }

    /// Says once that the socket does not work. Once, because this is called
    /// around every bounded step: a stale `NOTIFY_SOCKET` would otherwise be a
    /// line per command per guest per poll, which is how a journal stops being
    /// read.
    pub fn note_failure(&mut self, path: &str, e: &str) -> (r: Option<String>)
        ensures
            *final(self) == (Notifier { reported: true, ..*old(self) }),
            text::opt_text(r) == if old(self).reported {
                None
            } else {
                Some(failing(path@, e@))
            },
    {
        let before: bool = self.reported;
        self.reported = true;
        if before {
            None
        } else {
            Some(
                "cannot notify systemd through ".to_owned().concat(path).concat(": ").concat(e),
            )
        }
    }
}

/// Where a message goes.
#[derive(Debug)]
pub enum Address {
    /// A name of the abstract namespace.
    Abstract(String),
    /// A path.
    Path(String),
}

/// Where a message goes: the abstract namespace is what systemd spells with a
/// leading `@`.
pub fn address(socket: &str) -> (r: Address)
    ensures
        match r {
            Address::Abstract(name) => text::strip_prefix(socket@, "@"@) == Some(name@),
            Address::Path(path) => text::strip_prefix(socket@, "@"@) is None && path@ == socket@,
        },
{
    match text::after_prefix(socket, "@") {
        Some(name) => Address::Abstract(name.to_owned()),
        None => Address::Path(socket.to_owned()),
    }
}

} // verus!
