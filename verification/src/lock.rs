//! PVE's own container config lock, and PVE's own way of replacing a config
//! file.
//!
//! The lock is `flock(LOCK_EX)` on `/run/lock/lxc/pve-config-<vmid>.lock`,
//! which is what PVE itself takes around every read-modify-write of a
//! container config. Taking the same lock, the same way, is what makes a
//! `pct set` and a pass of this tool take turns instead of losing each other's
//! changes. The file is node-local, as the config is.
//!
//! The write is a sibling `<file>.tmp.<pid>` created `O_EXCL`, written, then
//! renamed over the target. In `/etc/pve` that is what pmxcfs sees as one
//! atomic replacement, and it is what every PVE config write does.

use vstd::prelude::*;

use crate::text;

verus! {

/// Where PVE keeps container config locks.
pub const DIR: &'static str = "/run/lock/lxc";

/// A container's lock file.
pub open spec fn lock_of(dir: Seq<char>, vmid: u32) -> Seq<char> {
    dir + "/pve-config-"@ + text::decimal(vmid as nat) + ".lock"@
}

/// A container's lock file.
pub fn lock_path(dir: &str, vmid: u32) -> (r: String)
    ensures
        r@ == lock_of(dir@, vmid),
{
    dir.to_owned().concat("/pve-config-").concat(text::decimal_of(vmid as u64).as_str()).concat(
        ".lock",
    )
}

/// What trying to take a lock, without waiting, gave.
#[derive(Debug)]
pub enum Tried {
    Taken,
    /// Somebody else holds it.
    Held,
    /// It could not be tried, and why.
    Failed(String),
}

/// What comes after a try.
#[derive(Debug)]
pub enum Take {
    Taken,
    /// Somebody else holds it, and the wait is over.
    Busy,
    Failed(String),
    /// Try again after so many milliseconds.
    Again(u64),
}

/// The time, in milliseconds, until which a lock is waited for.
pub open spec fn ends_at(now: u64, wait: u64) -> int {
    if now + wait > u64::MAX {
        u64::MAX as int
    } else {
        now + wait
    }
}

/// The time, in milliseconds, until which a lock is waited for.
pub fn deadline(now: u64, wait: u64) -> (r: u64)
    ensures
        r == ends_at(now, wait),
{
    if wait > u64::MAX - now {
        u64::MAX
    } else {
        now + wait
    }
}

/// What a [`Take`] says.
pub enum TakeView {
    Taken,
    Busy,
    Failed(Seq<char>),
    Again(u64),
}

impl View for Take {
    type V = TakeView;

    open spec fn view(&self) -> TakeView {
        match self {
            Take::Taken => TakeView::Taken,
            Take::Busy => TakeView::Busy,
            Take::Failed(e) => TakeView::Failed(e@),
            Take::Again(n) => TakeView::Again(*n),
        }
    }
}

/// What comes after a try at `now` to take the lock at `path`, which is waited
/// for until `deadline`, `wait` milliseconds in all.
pub open spec fn taking(
    path: Seq<char>,
    tried: Tried,
    now: u64,
    deadline: u64,
    wait: u64,
) -> TakeView {
    match tried {
        Tried::Taken => TakeView::Taken,
        Tried::Failed(e) => TakeView::Failed("flock "@ + path + ": "@ + e@),
        Tried::Held => if now >= deadline {
            TakeView::Busy
        } else {
            TakeView::Again(
                if wait < 250 {
                    wait
                } else {
                    250
                },
            )
        },
    }
}

/// One turn of taking a container's config lock, waiting up to `wait`
/// milliseconds, which end at `deadline`.
///
/// The daemon waits briefly and comes back at the next poll; the boot pass
/// passes zero and does not wait at all, because it runs before
/// `pve-guests.service` and a couple of locked guests must never add up to the
/// containers' start being delayed. That somebody else holds it is, at boot,
/// the ordinary answer for a guest PVE is touching, not a failure.
pub fn take(path: &str, tried: Tried, now: u64, deadline: u64, wait: u64) -> (r: Take)
    ensures
        r@ == taking(path@, tried, now, deadline, wait),
{
    match tried {
        Tried::Taken => Take::Taken,
        Tried::Failed(e) => Take::Failed(
            "flock ".to_owned().concat(path).concat(": ").concat(e.as_str()),
        ),
        Tried::Held => if now >= deadline {
            Take::Busy
        } else if wait < 250 {
            Take::Again(wait)
        } else {
            Take::Again(250)
        },
    }
}

/// The temporary sibling of a file.
pub open spec fn sibling(path: Seq<char>, pid: u32) -> Seq<char> {
    path + ".tmp."@ + text::decimal(pid as nat)
}

/// The temporary sibling of a file.
pub fn tmp_path(path: &str, pid: u32) -> (r: String)
    ensures
        r@ == sibling(path@, pid),
{
    path.to_owned().concat(".tmp.").concat(text::decimal_of(pid as u64).as_str())
}

/// What replacing a config does next.
#[derive(Debug)]
pub enum Write {
    /// Create the sibling, which must not be there; this is so many tries
    /// before it.
    Create(u8),
    /// Remove the sibling that is there, after so many tries.
    DeleteOld(u8),
    /// Write the text into the sibling.
    Fill,
    /// See whether the config is still there.
    Check,
    /// Rename the sibling over the config.
    Replace,
    /// Remove the sibling, whatever comes of that, and fail with this.
    Abandon(String),
    /// It is done, or it failed, and why.
    Done(Result<(), String>),
}

/// How a step of replacing a config ended.
#[derive(Debug)]
pub enum Ended {
    /// It did what it was to do; the file looked for is there.
    Well,
    /// The file to be created is already there.
    Exists(String),
    /// The file looked for is not there.
    Missing,
    /// It failed otherwise, and why.
    Badly(String),
}

/// What a [`Write`] says.
pub enum WriteView {
    Create(u8),
    DeleteOld(u8),
    Fill,
    Check,
    Replace,
    Abandon(Seq<char>),
    Done(Result<(), Seq<char>>),
}

impl View for Write {
    type V = WriteView;

    open spec fn view(&self) -> WriteView {
        match self {
            Write::Create(n) => WriteView::Create(*n),
            Write::DeleteOld(n) => WriteView::DeleteOld(*n),
            Write::Fill => WriteView::Fill,
            Write::Check => WriteView::Check,
            Write::Replace => WriteView::Replace,
            Write::Abandon(e) => WriteView::Abandon(e@),
            Write::Done(Ok(())) => WriteView::Done(Ok(())),
            Write::Done(Err(e)) => WriteView::Done(Err(e@)),
        }
    }
}

/// Why a step failed, where it did.
pub open spec fn why(ended: Ended) -> Option<Seq<char>> {
    match ended {
        Ended::Well => None,
        Ended::Exists(e) => Some(e@),
        Ended::Missing => Some("not found"@),
        Ended::Badly(e) => Some(e@),
    }
}

/// What replacing a config does after a step that ended so. A sibling that is
/// already there is removed twice at most; the config is replaced only once
/// its sibling was written in full and the config was seen to be there still.
pub open spec fn next_write(
    path: Seq<char>,
    tmp: Seq<char>,
    step: WriteView,
    ended: Ended,
) -> WriteView {
    match step {
        WriteView::Create(n) => match why(ended) {
            None => WriteView::Fill,
            Some(e) => if ended is Exists && n < 2 {
                WriteView::DeleteOld(n)
            } else {
                WriteView::Done(Err("cannot create "@ + tmp + ": "@ + e))
            },
        },
        WriteView::DeleteOld(n) => match why(ended) {
            None => if n < 2 {
                WriteView::Create((n + 1) as u8)
            } else {
                WriteView::Done(Err("cannot create "@ + tmp))
            },
            Some(e) => WriteView::Done(Err("cannot delete the old "@ + tmp + ": "@ + e)),
        },
        WriteView::Fill => match why(ended) {
            None => WriteView::Check,
            Some(e) => WriteView::Abandon("cannot write "@ + tmp + ": "@ + e),
        },
        WriteView::Check => match why(ended) {
            None => WriteView::Replace,
            Some(_) => WriteView::Abandon(path + " is gone; not writing it back"@),
        },
        WriteView::Replace => match why(ended) {
            None => WriteView::Done(Ok(())),
            Some(e) => WriteView::Done(
                Err("cannot rename "@ + tmp + " to "@ + path + ": "@ + e),
            ),
        },
        WriteView::Abandon(e) => WriteView::Done(Err(e)),
        WriteView::Done(r) => WriteView::Done(r),
    }
}

/// What replacing a config begins with.
pub fn write_config() -> (r: Write)
    ensures
        r@ == WriteView::Create(0),
{
    Write::Create(0)
}

fn reason(ended: Ended) -> (r: Option<String>)
    ensures
        text::opt_text(r) == why(ended),
{
    match ended {
        Ended::Well => None,
        Ended::Exists(e) => Some(e),
        Ended::Missing => Some("not found".to_owned()),
        Ended::Badly(e) => Some(e),
    }
}

/// What replacing a config does after a step that ended so.
///
/// The guest may have been destroyed while this pass planned: putting its
/// config back would resurrect a file PVE removed. Looking before the rename
/// narrows the window, it does not close it; the guest's own config lock, held
/// around all of it, is what makes that window small.
pub fn after_step(path: &str, tmp: &str, step: Write, ended: Ended) -> (r: Write)
    ensures
        r@ == next_write(path@, tmp@, step@, ended),
{
    let exists: bool = match &ended {
        Ended::Exists(_) => true,
        _ => false,
    };
    match step {
        Write::Create(n) => match reason(ended) {
            None => Write::Fill,
            Some(e) => if exists && n < 2 {
                Write::DeleteOld(n)
            } else {
                Write::Done(
                    Err("cannot create ".to_owned().concat(tmp).concat(": ").concat(e.as_str())),
                )
            },
        },
        Write::DeleteOld(n) => match reason(ended) {
            None => if n < 2 {
                Write::Create(n + 1)
            } else {
                Write::Done(Err("cannot create ".to_owned().concat(tmp)))
            },
            Some(e) => Write::Done(
                Err(
                    "cannot delete the old ".to_owned().concat(tmp).concat(": ").concat(e.as_str()),
                ),
            ),
        },
        Write::Fill => match reason(ended) {
            None => Write::Check,
            Some(e) => Write::Abandon(
                "cannot write ".to_owned().concat(tmp).concat(": ").concat(e.as_str()),
            ),
        },
        Write::Check => match reason(ended) {
            None => Write::Replace,
            Some(_) => Write::Abandon(path.to_owned().concat(" is gone; not writing it back")),
        },
        Write::Replace => match reason(ended) {
            None => Write::Done(Ok(())),
            Some(e) => Write::Done(
                Err(
                    "cannot rename ".to_owned().concat(tmp).concat(" to ").concat(path).concat(
                        ": ",
                    ).concat(e.as_str()),
                ),
            ),
        },
        Write::Abandon(e) => Write::Done(Err(e)),
        Write::Done(r) => Write::Done(r),
    }
}

/// A config is replaced only where it was seen to be there, after its sibling
/// was written in full; and success is only reported after that.
pub proof fn law_a_config_that_is_gone_is_not_written_back(
    path: Seq<char>,
    tmp: Seq<char>,
    step: WriteView,
    ended: Ended,
)
    ensures
        next_write(path, tmp, step, ended) == WriteView::Replace <==> step == WriteView::Check
            && ended is Well,
        next_write(path, tmp, step, ended) == WriteView::Check <==> step == WriteView::Fill
            && ended is Well,
        !(step is Done) ==> (next_write(path, tmp, step, ended) == WriteView::Done(Ok(()))
            <==> step == WriteView::Replace && ended is Well),
{
}

/// How many steps are left at most.
pub open spec fn steps_left(step: WriteView) -> nat {
    match step {
        WriteView::Create(n) => if n <= 2 {
            (10 - 2 * n) as nat
        } else {
            5
        },
        WriteView::DeleteOld(n) => if n <= 2 {
            (9 - 2 * n) as nat
        } else {
            1
        },
        WriteView::Fill => 4,
        WriteView::Check => 3,
        WriteView::Replace => 2,
        WriteView::Abandon(_) => 1,
        WriteView::Done(_) => 0,
    }
}

/// Replacing a config ends, however its steps end.
pub proof fn law_writing_ends(
    path: Seq<char>,
    tmp: Seq<char>,
    step: WriteView,
    ended: Ended,
)
    requires
        !(step is Done),
    ensures
        steps_left(next_write(path, tmp, step, ended)) < steps_left(step),
{
}

} // verus!
