//! Running the node's own tools: `pve-meta`, `nvidia-smi`, `nvidia-modprobe`.
//!
//! **Every call is bounded, and the bound is real.** A GPU in a bad state
//! wedges `nvidia-smi` in uninterruptible sleep, and a `pve-meta` write waits
//! for whoever holds the document's cluster lock. An unbounded wait here is
//! not a slow pass, it is a pass that never ends.
//!
//! The whole mechanism is one loop: both pipes are read inside the same poll
//! that waits for the child, and [`turn`] says what each turn of it does.
//! There is **no way to return a short answer**: either the command finished
//! and its output is all of it, or the call failed. A child that misses its
//! deadline is killed by process group and is then not waited for.
//!
//! Each call pings the watchdog when it returns ([`returned`]), so a ping means
//! a bounded step *finished*: a daemon stuck inside one of these is not alive,
//! and should be restarted rather than kept.

use vstd::prelude::*;

use crate::notify::Notifier;
use crate::text;

verus! {

/// What a `pve-meta` call is given, in milliseconds. It takes the document's
/// cluster lock, so it waits for whoever holds it, and pve-meta's own lock
/// timeout is 30s.
pub const META: u64 = 30_000;

/// `nvidia-smi` only lists the cards here, but it talks to the driver.
pub const SMI: u64 = 10_000;

/// `nvidia-modprobe` loads a kernel module and makes device nodes.
pub const MODPROBE: u64 = 30_000;

/// How much of a wedged command's stderr goes into the error.
pub const TAIL: usize = 400;

/// Captured output of a finished command. There is no "partial": a call that
/// could not finish is an error.
#[derive(Debug)]
pub struct Output {
    pub status: i32,
    pub stdout: String,
    pub stderr: String,
}

/// What an [`Output`] says.
pub struct Said {
    pub status: i32,
    pub stdout: Seq<char>,
    pub stderr: Seq<char>,
}

impl View for Output {
    type V = Said;

    open spec fn view(&self) -> Said {
        Said { status: self.status, stdout: self.stdout@, stderr: self.stderr@ }
    }
}

/// An argument as a shell user would type it, as far as spaces go.
pub open spec fn quoted(arg: Seq<char>) -> Seq<char> {
    if arg.contains(' ') || arg.len() == 0 {
        seq![' ', '\''] + arg + seq!['\'']
    } else {
        seq![' '] + arg
    }
}

/// The program and its arguments, in one line.
pub open spec fn rendered(program: Seq<char>, args: Seq<Seq<char>>) -> Seq<char>
    decreases args.len(),
{
    if args.len() == 0 {
        program
    } else {
        rendered(program, args.drop_last()) + quoted(args.last())
    }
}

/// The program and its arguments, in one line.
pub fn render(program: &str, args: &[&str]) -> (r: String)
    ensures
        r@ == rendered(program@, text::views(args@)),
{
    let ghost vs = text::views(args@);
    let mut s = program.to_owned();
    let mut i: usize = 0;
    while i < args.len()
        invariant
            i <= args@.len(),
            vs == text::views(args@),
            s@ == rendered(program@, vs.take(i as int)),
        decreases args.len() - i,
    {
        let a = args[i];
        let ghost before = s@;
        let n: usize = text::find(a, ' ');
        let len: usize = a.unicode_len();
        proof {
            text::lemma_views(args@);
            text::lemma_first(a@, ' ');
            if a@.contains(' ') {
                let k = choose|k: int| 0 <= k < a@.len() && a@[k] == ' ';
                assert(n < len);
            }
            assert(vs.take(i + 1).drop_last() =~= vs.take(i as int));
            assert(vs.take(i + 1).last() == a@);
            reveal_strlit(" ");
            reveal_strlit(" '");
            reveal_strlit("'");
        }
        if n < len || len == 0 {
            s.append(" '");
            s.append(a);
            s.append("'");
            proof {
                assert(s@ =~= before + quoted(a@));
            }
        } else {
            s.append(" ");
            s.append(a);
            proof {
                assert(s@ =~= before + quoted(a@));
            }
        }
        i += 1;
    }
    proof {
        assert(vs.take(vs.len() as int) =~= vs);
    }
    s
}

/// What is said of a command that ran to its end and failed.
pub open spec fn failure(program: Seq<char>, args: Seq<Seq<char>>, out: Said) -> Seq<char> {
    rendered(program, args) + " failed (exit "@ + text::signed(out.status as int) + ")"@
        + if text::blank(out.stderr) {
        Seq::empty()
    } else {
        ": "@ + text::trim(out.stderr)
    }
}

/// The end of a call of `program args` that fails on a non-zero exit: `out`
/// is what [`finished`] made of it, or why the call itself failed.
pub fn run(program: &str, args: &[&str], out: Result<Output, String>) -> (r: Result<Output, String>)
    ensures
        match out {
            Ok(o) if o.status != 0 => r is Err && r->Err_0@ == failure(
                program@,
                text::views(args@),
                o@,
            ),
            _ => r == out,
        },
{
    match out {
        Ok(out) => {
            if out.status != 0 {
                let mut why = render(program, args).concat(" failed (exit ").concat(
                    text::signed_of(out.status).as_str(),
                ).concat(")");
                if !text::is_blank(out.stderr.as_str()) {
                    let said = ": ".to_owned().concat(text::trimmed(out.stderr.as_str()));
                    why.append(said.as_str());
                } else {
                    proof {
                        assert(why@ + Seq::empty() =~= why@);
                    }
                }
                Err(why)
            } else {
                Ok(out)
            }
        },
        Err(e) => Err(e),
    }
}

/// What waiting for a child saw, without waiting.
#[derive(Debug, Clone, Copy, PartialEq, Eq, Structural)]
pub enum Child {
    /// It has exited.
    Exited,
    /// It is still running.
    Running,
    /// Its state could not be asked for.
    Unknown,
}

/// What one turn of the loop that waits for a child does next.
#[derive(Debug, Clone, Copy, PartialEq, Eq, Structural)]
pub enum Turn {
    /// Read what is left in the pipes and return the output.
    Finish,
    /// Kill the process group and report that the deadline was missed.
    Kill,
    /// Kill the process group and report that it cannot be waited for.
    Abandon,
    /// Sleep a little, then look again.
    Sleep,
}

/// What a turn does.
pub open spec fn turned(child: Child, now: u64, deadline: u64) -> Turn {
    match child {
        Child::Exited => Turn::Finish,
        Child::Running => if now >= deadline {
            Turn::Kill
        } else {
            Turn::Sleep
        },
        Child::Unknown => Turn::Abandon,
    }
}

/// What a turn does: a child that has exited is never killed, and one that
/// has not never outlives its deadline.
pub fn turn(child: Child, now: u64, deadline: u64) -> (r: Turn)
    ensures
        r == turned(child, now, deadline),
{
    match child {
        Child::Exited => Turn::Finish,
        Child::Running => if now >= deadline {
            Turn::Kill
        } else {
            Turn::Sleep
        },
        Child::Unknown => Turn::Abandon,
    }
}

/// The output of a child that has exited. One that a signal ended has no exit
/// code, and is given -1.
pub fn finished(code: Option<i32>, stdout: String, stderr: String) -> (r: Output)
    ensures
        r@ == (Said {
            status: match code {
                Some(c) => c,
                None => (-1) as i32,
            },
            stdout: stdout@,
            stderr: stderr@,
        }),
{
    Output {
        status: match code {
            Some(c) => c,
            None => -1,
        },
        stdout,
        stderr,
    }
}

/// The end of every call, however it ended: one that finished, one that was
/// killed, and one whose child could not be started. The watchdog is sent the
/// message that comes with it, once.
pub fn returned(notifier: &mut Notifier, out: Result<Output, String>) -> (r: (
    Result<Output, String>,
    &'static str,
))
    ensures
        r.0 == out,
        r.1@ == "WATCHDOG=1\n"@,
        *final(notifier) == crate::notify::pinged(*old(notifier)),
{
    let message = notifier.alive();
    (out, message)
}

/// What is said of a child that could not be started.
pub fn not_started(program: &str, e: &str) -> (r: String)
    ensures
        r@ == "cannot run "@ + program@ + ": "@ + e@,
{
    "cannot run ".to_owned().concat(program).concat(": ").concat(e)
}

/// What is said of a child whose state could not be asked for.
pub fn not_waited(program: &str, e: &str) -> (r: String)
    ensures
        r@ == "waiting for "@ + program@ + ": "@ + e@,
{
    "waiting for ".to_owned().concat(program).concat(": ").concat(e)
}

/// What is said of a child that missed its deadline.
pub open spec fn overdue(
    program: Seq<char>,
    args: Seq<Seq<char>>,
    timeout: u64,
    stderr: Seq<char>,
) -> Seq<char> {
    rendered(program, args) + " did not finish within "@ + text::decimal((timeout / 1000) as nat)
        + "s and was killed"@ + tail_of(stderr)
}

/// What is said of a child that missed its deadline, with the end of what it
/// said itself: that is usually what names the wedge.
pub fn timed_out(program: &str, args: &[&str], timeout: u64, stderr: &str) -> (r: String)
    ensures
        r@ == overdue(program@, text::views(args@), timeout, stderr@),
{
    render(program, args).concat(" did not finish within ").concat(
        text::decimal_of(timeout / 1000).as_str(),
    ).concat("s and was killed").concat(tail(stderr).as_str())
}

/// The number of bytes a character takes in UTF-8.
pub open spec fn width(c: char) -> nat {
    let n = c as u32;
    if n < 0x80 {
        1
    } else if n < 0x800 {
        2
    } else if n < 0x10000 {
        3
    } else {
        4
    }
}

/// The number of bytes a text takes in UTF-8.
pub open spec fn bytes(s: Seq<char>) -> nat
    decreases s.len(),
{
    if s.len() == 0 {
        0
    } else {
        width(s[0]) + bytes(s.skip(1))
    }
}

/// How many characters are left out so that the rest takes at most `n` bytes:
/// as few as that takes.
pub open spec fn excess(s: Seq<char>, n: nat) -> nat
    decreases s.len(),
{
    if bytes(s) <= n {
        0
    } else {
        1 + excess(s.skip(1), n)
    }
}

/// The end of `s` that takes at most `n` bytes. A cut that would fall inside a
/// character falls behind it.
pub open spec fn last_bytes(s: Seq<char>, n: nat) -> Seq<char> {
    s.skip(excess(s, n) as int)
}

/// The last [`TAIL`] bytes of what a command said, after a colon; nothing
/// where it said nothing.
pub open spec fn tail_of(said: Seq<char>) -> Seq<char> {
    if text::blank(said) {
        Seq::empty()
    } else {
        ": "@ + text::trim(last_bytes(text::trim(said), TAIL as nat))
    }
}

/// The end of a text is at most as long as it may be, and would be longer with
/// any character more.
pub proof fn law_a_tail_is_bounded(s: Seq<char>, n: nat)
    ensures
        excess(s, n) <= s.len(),
        bytes(last_bytes(s, n)) <= n,
        forall|k: int| 0 <= k < excess(s, n) ==> bytes(#[trigger] s.skip(k)) > n,
    decreases s.len(),
{
    if bytes(s) <= n {
        assert(s.skip(0) =~= s);
    } else {
        let t = s.skip(1);
        law_a_tail_is_bounded(t, n);
        assert(t.skip(excess(t, n) as int) =~= s.skip(excess(s, n) as int));
        assert forall|k: int| 0 <= k < excess(s, n) implies bytes(#[trigger] s.skip(k)) > n by {
            if k > 0 {
                assert(t.skip(k - 1) =~= s.skip(k));
            } else {
                assert(s.skip(0) =~= s);
            }
        }
    }
}

/// A longer suffix takes more bytes.
proof fn lemma_bytes_grow(s: Seq<char>, a: int, b: int)
    requires
        0 <= a <= b <= s.len(),
    ensures
        bytes(s.skip(b)) <= bytes(s.skip(a)),
    decreases b - a,
{
    if a < b {
        assert(s.skip(a).skip(1) =~= s.skip(a + 1));
        lemma_bytes_grow(s, a + 1, b);
    }
}

/// The last [`TAIL`] bytes of what a command said, for an error message.
pub fn tail(said: &str) -> (r: String)
    ensures
        r@ == tail_of(said@),
{
    if text::is_blank(said) {
        return String::new();
    }
    let t = text::trimmed(said);
    let cs = text::chars(t);
    let mut k: usize = cs.len();
    let mut size: usize = 0;
    proof {
        assert(t@.skip(t@.len() as int) =~= Seq::empty());
    }
    loop
        invariant
            k <= cs.len(),
            cs@ == t@,
            size == bytes(t@.skip(k as int)),
            size <= TAIL,
        ensures
            k <= cs.len(),
            size <= TAIL,
            size == bytes(t@.skip(k as int)),
            k > 0 ==> bytes(t@.skip(k - 1)) > TAIL,
        decreases k,
    {
        if k == 0 {
            break;
        }
        let c = cs[k - 1];
        let n: u32 = c as u32;
        let w: usize = if n < 0x80 {
            1
        } else if n < 0x800 {
            2
        } else if n < 0x10000 {
            3
        } else {
            4
        };
        proof {
            assert(t@.skip(k - 1)[0] == c);
            assert(t@.skip(k - 1).skip(1) =~= t@.skip(k as int));
        }
        if size + w > TAIL {
            break;
        }
        k -= 1;
        size += w;
    }
    proof {
        let e = excess(t@, TAIL as nat) as int;
        law_a_tail_is_bounded(t@, TAIL as nat);
        if e < k {
            lemma_bytes_grow(t@, e, k - 1);
        }
    }
    ": ".to_owned().concat(text::trimmed(text::skip(t, k)))
}

} // verus!
