//! A container config as text: which of its lines this tool owns, and
//! splicing a new set of them in.
//!
//! The file is `/etc/pve/nodes/<node>/lxc/<vmid>.conf`, PVE's own format: a
//! main section, then `[pve:pending]` and one section per snapshot, each
//! introduced by a `[name]` line. **Only the main section is ever read or
//! written here**: a snapshot section is a past config, and rewriting it would
//! rewrite history.
//!
//! The managed lines, and nothing else, are:
//!
//! ```text
//! lxc.cgroup2.devices.allow: c 195:<minor> rwm   one per selected GPU
//! lxc.cgroup2.devices.allow: c 195:255 rwm       /dev/nvidiactl
//! lxc.cgroup2.devices.allow: c <uvm>:0 rwm       /dev/nvidia-uvm
//! lxc.cgroup2.devices.allow: c <uvm>:1 rwm       /dev/nvidia-uvm-tools
//! lxc.hook.mount: /usr/share/lxc/hooks/nvidia
//! lxc.environment: NVIDIA_*
//! ```
//!
//! Ownership is decided per line, never by position ([`Owned`]): the hook
//! line, every `lxc.environment` line naming an `NVIDIA_` variable, and every
//! `lxc.cgroup2.devices.allow` line for major 195, for the current
//! `nvidia-uvm` major, or for a major this node has written lines with and
//! that no other driver has taken over since.
//!
//! A line is read the way PVE reads it: a raw `lxc.` key may be spelled
//! `key: value` or `key = value`, and both forms are the same line.

use std::collections::BTreeSet;

use vstd::prelude::*;

use crate::inventory::{cards, Card, Gpu};
use crate::text;
use crate::{CTL_MINOR, HOOK, MODESET_MINOR, NVIDIA_MAJOR};

verus! {

broadcast use {vstd::std_specs::btree::group_btree_axioms, vstd::laws_cmp::group_laws_cmp};

/// The key of a cgroup device allow line.
pub const ALLOW: &'static str = "lxc.cgroup2.devices.allow";

/// The key of the mount hook line.
pub const HOOK_KEY: &'static str = "lxc.hook.mount";

/// The key of an environment line.
pub const ENV_KEY: &'static str = "lxc.environment";

// ---------------------------------------------------------------------------
// What a config says.
// ---------------------------------------------------------------------------

/// Whether a section header begins at `i`: a `[` at the start of a line.
pub open spec fn is_header(s: Seq<char>, i: int) -> bool {
    0 <= i < s.len() && s[i] == '[' && (i == 0 || s[i - 1] == '\n')
}

/// The first position from `k` on at which a section header begins, or the
/// length of the text.
pub open spec fn header_from(s: Seq<char>, k: nat) -> nat
    decreases s.len() - k,
{
    if k >= s.len() {
        s.len()
    } else if is_header(s, k as int) {
        k
    } else {
        header_from(s, k + 1)
    }
}

/// The main section: everything before the first section header.
pub open spec fn main_of(s: Seq<char>) -> Seq<char> {
    s.take(header_from(s, 0) as int)
}

/// Everything from the first section header on.
pub open spec fn rest_of(s: Seq<char>) -> Seq<char> {
    s.skip(header_from(s, 0) as int)
}

/// A character of a raw `lxc.` key: `[a-z0-9_\-\.]`.
pub open spec fn is_key_char(c: char) -> bool {
    'a' <= c <= 'z' || '0' <= c <= '9' || c == '_' || c == '-' || c == '.'
}

/// The number of key characters `s` begins with.
pub open spec fn key_len(s: Seq<char>) -> nat
    decreases s.len(),
{
    if s.len() == 0 || !is_key_char(s[0]) {
        0
    } else {
        1 + key_len(s.skip(1))
    }
}

/// `[a-z][a-z_]*\d*`, the shape of every key but a raw `lxc.` one, with its
/// digits beginning at `n`.
pub open spec fn plain_key_at(k: Seq<char>, n: int) -> bool {
    &&& 1 <= n <= k.len()
    &&& 'a' <= k[0] <= 'z'
    &&& forall|i: int| 0 <= i < n ==> 'a' <= #[trigger] k[i] <= 'z' || k[i] == '_'
    &&& forall|i: int| n <= i < k.len() ==> text::is_digit(#[trigger] k[i])
}

/// `[a-z][a-z_]*\d*`, the shape of every key but a raw `lxc.` one.
pub open spec fn is_plain_key(k: Seq<char>) -> bool {
    exists|n: int| #[trigger] plain_key_at(k, n)
}

/// The key and the value of a line. A raw `lxc.` key is followed by `:`, or
/// by white space and `=`, and maybe by nothing else; any other key is
/// followed by `:` and something, be it white space alone. White space around
/// a value is not part of it.
#[verifier::opaque]
pub open spec fn line_parts(line: Seq<char>) -> Option<(Seq<char>, Seq<char>)> {
    let l = text::trim_end(line);
    let key = l.take(key_len(l) as int);
    let tail = l.skip(key_len(l) as int);
    if text::starts_with(l, "lxc."@) {
        let spaced = text::trim_start(tail);
        if key.len() <= 4 {
            None
        } else if tail.len() > 0 && tail[0] == ':' {
            Some((key, text::trim(tail.skip(1))))
        } else if spaced.len() > 0 && spaced[0] == '=' {
            Some((key, text::trim(spaced.skip(1))))
        } else {
            None
        }
    } else if is_plain_key(key) && tail.len() > 0 && tail[0] == ':' && line.len() > key.len() + 1 {
        Some((key, text::trim(tail.skip(1))))
    } else {
        None
    }
}

/// A device number: `*` is every number.
pub open spec fn device_number(s: Seq<char>) -> Option<Option<u32>> {
    if s == "*"@ {
        Some(None)
    } else {
        match text::parse_u32(s) {
            Some(n) => Some(Some(n)),
            None => None,
        }
    }
}

/// The device of an allow line's value: `c`, then `<major>:<minor>`, then
/// anything.
pub open spec fn allowed(value: Seq<char>) -> Option<Device> {
    let w = text::words(value);
    if w.len() < 2 || w[0] != "c"@ {
        None
    } else {
        match text::split_once(w[1], ':') {
            Some((major, minor)) => match (device_number(major), device_number(minor)) {
                (Some(major), Some(minor)) => Some(Device { major, minor }),
                _ => None,
            },
            None => None,
        }
    }
}

/// Whether `line` is one of this tool's, given the majors it owns.
#[verifier::opaque]
pub open spec fn managed(line: Seq<char>, owned: Set<u32>) -> bool {
    match line_parts(line) {
        Some((key, value)) => if key == HOOK_KEY@ {
            value == HOOK@
        } else if key == ENV_KEY@ {
            text::starts_with(value, "NVIDIA_"@)
        } else if key == ALLOW@ {
            match allowed(value) {
                Some(Device { major: Some(m), .. }) => owned.contains(m),
                _ => false,
            }
        } else {
            false
        },
        None => false,
    }
}

/// The lines among `ls` that are this tool's.
pub open spec fn ours(ls: Seq<Seq<char>>, owned: Set<u32>) -> Seq<Seq<char>> {
    ls.filter(|l: Seq<char>| managed(l, owned))
}

/// The lines among `ls` that are not this tool's.
pub open spec fn others(ls: Seq<Seq<char>>, owned: Set<u32>) -> Seq<Seq<char>> {
    ls.filter(|l: Seq<char>| !managed(l, owned))
}

/// The managed lines of a config, in file order.
pub open spec fn managed_of(s: Seq<char>, owned: Set<u32>) -> Seq<Seq<char>> {
    managed_among(text::lines(main_of(s)), owned)
}

/// The managed lines among `ls`, without the white space they end with.
pub open spec fn managed_among(ls: Seq<Seq<char>>, owned: Set<u32>) -> Seq<Seq<char>> {
    ours(ls, owned).map_values(|l: Seq<char>| text::trim_end(l))
}

/// Whether `line` is an allow line for the character major `m`.
pub open spec fn allows_major(line: Seq<char>, m: u32) -> bool {
    match line_parts(line) {
        Some((key, value)) => key == ALLOW@ && match allowed(value) {
            Some(d) => d.major == Some(m),
            None => false,
        },
        None => false,
    }
}

/// Every character major an allow line of the main section names.
pub open spec fn majors_of(s: Seq<char>) -> Set<u32> {
    let ls = text::lines(main_of(s));
    Set::new(|m: u32| exists|i: int| 0 <= i < ls.len() && allows_major(#[trigger] ls[i], m))
}

/// The value of the first line among `ls` with the key `key`.
pub open spec fn value_among(ls: Seq<Seq<char>>, key: Seq<char>) -> Option<Seq<char>>
    decreases ls.len(),
{
    if ls.len() == 0 {
        None
    } else {
        match line_parts(ls[0]) {
            Some((k, v)) => if k == key {
                Some(v)
            } else {
                value_among(ls.skip(1), key)
            },
            None => value_among(ls.skip(1), key),
        }
    }
}

/// The value of `key` in the main section.
pub open spec fn value_in(s: Seq<char>, key: Seq<char>) -> Option<Seq<char>> {
    value_among(text::lines(main_of(s)), key)
}

/// Whether the container runs unprivileged.
pub open spec fn unprivileged(s: Seq<char>) -> bool {
    value_in(s, "unprivileged"@) == Some("1"@) || value_in(s, "lxc.idmap"@) is Some
}

/// Whether `line` is a `devN:` entry for an NVIDIA device.
pub open spec fn is_nvidia_entry(line: Seq<char>) -> bool {
    match line_parts(line) {
        Some((key, value)) => match text::strip_prefix(key, "dev"@) {
            Some(n) => text::digits(n) && text::occurs("/dev/nvidia"@, value),
            None => false,
        },
        None => false,
    }
}

/// The keys of the `devN:` entries of the main section that pass an NVIDIA
/// device through.
pub open spec fn nvidia_entries(s: Seq<char>) -> Seq<Seq<char>> {
    nvidia_entries_among(text::lines(main_of(s)))
}

/// The keys of the lines among `ls` that are `devN:` entries for an NVIDIA
/// device.
pub open spec fn nvidia_entries_among(ls: Seq<Seq<char>>) -> Seq<Seq<char>> {
    ls.filter(|l: Seq<char>| is_nvidia_entry(l)).map_values(
        |l: Seq<char>| line_parts(l).unwrap().0,
    )
}

/// The text of an allow line.
pub open spec fn allow_line(major: u32, minor: u32) -> Seq<char> {
    ALLOW@ + ": c "@ + text::decimal(major as nat) + ":"@ + text::decimal(minor as nat) + " rwm"@
}

/// Whether a capability needs `/dev/nvidia-modeset`.
pub open spec fn needs_modeset(caps: Seq<Seq<char>>) -> bool {
    caps.contains("graphics"@) || caps.contains("display"@)
}

/// The managed lines for the selected GPUs. No GPU, no lines.
pub open spec fn rendered(
    gpus: Seq<Card>,
    caps: Seq<Seq<char>>,
    require_cuda: Option<Seq<char>>,
    uvm: Option<u32>,
) -> Seq<Seq<char>> {
    if gpus.len() == 0 {
        Seq::empty()
    } else {
        rendered_allows(gpus, caps, uvm) + seq![HOOK_KEY@ + ": "@ + HOOK@] + rendered_env(
            gpus,
            caps,
            require_cuda,
        )
    }
}

/// The allow lines for the selected GPUs: the cards, the modeset device where
/// it is needed, the control device, and the two UVM devices.
pub open spec fn rendered_allows(
    gpus: Seq<Card>,
    caps: Seq<Seq<char>>,
    uvm: Option<u32>,
) -> Seq<Seq<char>> {
    gpus.map_values(|g: Card| allow_line(NVIDIA_MAJOR, g.minor)) + if needs_modeset(caps) {
        seq![allow_line(NVIDIA_MAJOR, MODESET_MINOR)]
    } else {
        Seq::empty()
    } + seq![allow_line(NVIDIA_MAJOR, CTL_MINOR)] + match uvm {
        Some(uvm) => seq![allow_line(uvm, 0), allow_line(uvm, 1)],
        None => Seq::empty(),
    }
}

/// The environment lines for the selected GPUs.
pub open spec fn rendered_env(
    gpus: Seq<Card>,
    caps: Seq<Seq<char>>,
    require_cuda: Option<Seq<char>>,
) -> Seq<Seq<char>> {
    seq![
        ENV_KEY@ + ": NVIDIA_VISIBLE_DEVICES="@ + text::join(
            gpus.map_values(|g: Card| g.uuid),
            ","@,
        ),
    ] + if caps.len() > 0 {
        seq![ENV_KEY@ + ": NVIDIA_DRIVER_CAPABILITIES="@ + text::join(caps, ","@)]
    } else {
        Seq::empty()
    } + match require_cuda {
        Some(v) => seq![ENV_KEY@ + ": NVIDIA_REQUIRE_CUDA=cuda>="@ + v],
        None => Seq::empty(),
    }
}

/// `ls` without the blank lines it ends with.
pub open spec fn without_trailing_blanks(ls: Seq<Seq<char>>) -> Seq<Seq<char>>
    decreases ls.len(),
{
    if ls.len() > 0 && text::blank(ls.last()) {
        without_trailing_blanks(ls.drop_last())
    } else {
        ls
    }
}

/// The position of the first managed line among `ls`, or the number of them.
pub open spec fn first_managed(ls: Seq<Seq<char>>, owned: Set<u32>) -> nat
    decreases ls.len(),
{
    if ls.len() == 0 || managed(ls[0], owned) {
        0
    } else {
        1 + first_managed(ls.skip(1), owned)
    }
}

/// The lines of a main section after its managed lines were replaced with
/// `desired`: the other lines in their order, the new ones where the first
/// managed line stood or at the end, and no blank lines below.
pub open spec fn spliced_lines(
    ls: Seq<Seq<char>>,
    desired: Seq<Seq<char>>,
    owned: Set<u32>,
) -> Seq<Seq<char>> {
    let body = without_trailing_blanks(others(ls, owned));
    let first = first_managed(ls, owned);
    let at: int = if first < body.len() {
        first as int
    } else {
        body.len() as int
    };
    body.take(at) + desired + body.skip(at)
}

/// A config with its managed lines replaced with `desired`. The sections
/// below the main one follow as they were, after an empty line.
pub open spec fn spliced(s: Seq<char>, desired: Seq<Seq<char>>, owned: Set<u32>) -> Seq<char> {
    let head = text::unlines(spliced_lines(text::lines(main_of(s)), desired, owned));
    let rest = rest_of(s);
    if rest.len() > 0 {
        head.push('\n') + rest
    } else {
        head
    }
}

// ---------------------------------------------------------------------------
// Reading a config.
// ---------------------------------------------------------------------------

/// Which device majors' allow lines this tool owns in a guest's config.
///
/// 195 is the driver's registered major and is always ours. `nvidia-uvm`'s is
/// dynamic, so the majors this node has written lines with are ours too: they,
/// and nothing else, are how an earlier boot's rule is replaced instead of
/// piling up. **A major nobody here ever used is not ours**: an allow line for
/// a device whose module happens to be out is somebody's rule, and guessing
/// from absence would delete it for good.
///
/// When `nvidia-uvm` is not loaded at all, no UVM line is owned, not even a
/// remembered one: a rule this pass cannot replace is a rule it leaves alone.
#[derive(Debug, Clone, PartialEq, Eq)]
pub struct Owned {
    uvm: Option<u32>,
    remembered: Vec<u32>,
}

impl View for Owned {
    type V = Set<u32>;

    closed spec fn view(&self) -> Set<u32> {
        Set::new(
            |m: u32|
                m == NVIDIA_MAJOR || self.uvm == Some(m) || self.remembered@.contains(m),
        )
    }
}

/// The majors that are ours: 195, and with `nvidia-uvm` loaded its major and
/// every remembered one that no other driver holds now.
pub open spec fn owned_majors(uvm: Option<u32>, remembered: Seq<u32>, live: Set<u32>) -> Set<u32> {
    Set::new(
        |m: u32|
            m == NVIDIA_MAJOR || match uvm {
                Some(u) => m == u || (remembered.contains(m) && !live.contains(m)),
                None => false,
            },
    )
}

impl Default for Owned {
    fn default() -> (r: Owned)
        ensures
            r@ == owned_majors(None, Seq::empty(), Set::empty()),
    {
        let r = Owned { uvm: None, remembered: Vec::new() };
        proof {
            assert(r@ =~= owned_majors(None, Seq::empty(), Set::empty()));
        }
        r
    }
}

impl Owned {
    /// From the inventory this pass read and the majors this node has used.
    ///
    /// `live` is every character major `/proc/devices` lists now. A
    /// remembered major that some driver holds today, and that is not the
    /// current `nvidia-uvm` major, **is not ours**: dynamic majors are reused.
    pub fn new(uvm: Option<u32>, remembered: &[u32], live: &BTreeSet<u32>) -> (r: Owned)
        ensures
            r@ == owned_majors(uvm, remembered@, live@),
    {
        let mut kept: Vec<u32> = Vec::new();
        if let Some(u) = uvm {
            let mut i: usize = 0;
            while i < remembered.len()
                invariant
                    i <= remembered.len(),
                    forall|m: u32|
                        #[trigger] kept@.contains(m) <==> exists|j: int|
                            0 <= j < i && #[trigger] remembered@[j] == m && (m == u
                                || !live@.contains(m)),
                decreases remembered.len() - i,
            {
                let m: u32 = remembered[i];
                let ghost before = kept@;
                if m == u || !live.contains(&m) {
                    kept.push(m);
                    proof {
                        assert forall|x: u32| #[trigger]
                            kept@.contains(x) <==> before.contains(x) || x == m by {
                            assert(kept@[before.len() as int] == m);
                            if before.contains(x) {
                                let k = choose|k: int| 0 <= k < before.len() && before[k] == x;
                                assert(kept@[k] == x);
                            }
                        }
                    }
                }
                i += 1;
            }
        }
        let r = Owned { uvm, remembered: kept };
        proof {
            assert(r@ =~= owned_majors(uvm, remembered@, live@));
        }
        r
    }

    fn owns(&self, major: u32) -> (r: bool)
        ensures
            r == self@.contains(major),
    {
        if major == NVIDIA_MAJOR {
            return true;
        }
        if let Some(u) = self.uvm {
            if u == major {
                return true;
            }
        }
        let mut i: usize = 0;
        while i < self.remembered.len()
            invariant
                i <= self.remembered.len(),
                forall|j: int| 0 <= j < i ==> self.remembered@[j] != major,
            decreases self.remembered.len() - i,
        {
            if self.remembered[i] == major {
                return true;
            }
            i += 1;
        }
        false
    }

    /// Whether this tool would replace an allow line for `major`.
    pub fn owns_major(&self, major: u32) -> (r: bool)
        ensures
            r == self@.contains(major),
    {
        self.owns(major)
    }
}

/// Splits a config into its main section and everything from the first
/// `[section]` line on, which is returned verbatim.
pub fn split_sections(text: &str) -> (r: (&str, &str))
    ensures
        r.0@ == main_of(text@),
        r.1@ == rest_of(text@),
{
    let cs = text::chars(text);
    let mut i: usize = 0;
    while i < cs.len() && !(cs[i] == '[' && (i == 0 || cs[i - 1] == '\n'))
        invariant
            i <= cs.len(),
            cs@ == text@,
            header_from(text@, 0) == header_from(text@, i as nat),
        decreases cs.len() - i,
    {
        i += 1;
    }
    (text::take(text, i), text::skip(text, i))
}

/// The length of the key `s` begins with.
fn key_end(s: &str) -> (r: usize)
    ensures
        r == key_len(s@),
        r <= s@.len(),
{
    let cs = text::chars(s);
    let mut n: usize = 0;
    proof {
        assert(s@.skip(0) =~= s@);
    }
    while n < cs.len() && (('a' <= cs[n] && cs[n] <= 'z') || ('0' <= cs[n] && cs[n] <= '9') || cs[n]
        == '_' || cs[n] == '-' || cs[n] == '.')
        invariant
            n <= cs.len(),
            cs@ == s@,
            key_len(s@) == n + key_len(s@.skip(n as int)),
        decreases cs.len() - n,
    {
        proof {
            assert(s@.skip(n as int).skip(1) =~= s@.skip(n + 1));
        }
        n += 1;
    }
    n
}

/// Whether `k` is `[a-z][a-z_]*\d*`.
fn plain_key(k: &str) -> (r: bool)
    ensures
        r == is_plain_key(k@),
{
    let cs = text::chars(k);
    if cs.len() == 0 || !('a' <= cs[0] && cs[0] <= 'z') {
        return false;
    }
    let mut n: usize = 1;
    while n < cs.len() && (('a' <= cs[n] && cs[n] <= 'z') || cs[n] == '_')
        invariant
            1 <= n <= cs.len(),
            cs@ == k@,
            forall|i: int| 0 <= i < n ==> 'a' <= #[trigger] k@[i] <= 'z' || k@[i] == '_',
        decreases cs.len() - n,
    {
        n += 1;
    }
    let mut i: usize = n;
    while i < cs.len()
        invariant
            1 <= n <= i <= cs.len(),
            cs@ == k@,
            n < cs.len() ==> !('a' <= k@[n as int] <= 'z') && k@[n as int] != '_',
            forall|j: int| 0 <= j < n ==> 'a' <= #[trigger] k@[j] <= 'z' || k@[j] == '_',
            forall|j: int| n <= j < i ==> text::is_digit(#[trigger] k@[j]),
        decreases cs.len() - i,
    {
        if !('0' <= cs[i] && cs[i] <= '9') {
            proof {
                assert forall|m: int| !#[trigger] plain_key_at(k@, m) by {
                    if plain_key_at(k@, m) {
                        if m <= i {
                            assert(text::is_digit(k@[i as int]));
                        } else {
                            assert('a' <= k@[n as int] <= 'z' || k@[n as int] == '_');
                        }
                    }
                }
            }
            return false;
        }
        i += 1;
    }
    proof {
        assert(plain_key_at(k@, n as int));
    }
    true
}

/// One `key: value` of a config line, PVE's own shape: a raw `lxc.` key is
/// `^(lxc\.[a-z0-9_\-\.]+)(:|\s*=)\s*(.*?)\s*$`, everything else is
/// `^([a-z][a-z_]*\d*):\s*(.+?)\s*$`.
pub fn split_line(line: &str) -> (r: Option<(&str, &str)>)
    ensures
        match r {
            Some((key, value)) => line_parts(line@) == Some((key@, value@)),
            None => line_parts(line@) is None,
        },
{
    proof {
        reveal(line_parts);
    }
    let l = text::trimmed_end(line);
    let n: usize = key_end(l);
    let key = text::take(l, n);
    let tail = text::skip(l, n);
    let after = text::after_prefix(tail, ":");
    proof {
        reveal_strlit(":");
        reveal_strlit("=");
        lemma_one(tail@, ":"@);
    }
    if text::begins(l, "lxc.") {
        if n <= 4 {
            return None;
        }
        if let Some(v) = after {
            return Some((key, text::trimmed(v)));
        }
        let spaced = text::trimmed_start(tail);
        proof {
            lemma_one(spaced@, "="@);
        }
        // `lxc.key = value` is the other spelling PVE accepts.
        match text::after_prefix(spaced, "=") {
            Some(v) => Some((key, text::trimmed(v))),
            None => None,
        }
    } else {
        match after {
            Some(v) => if plain_key(key) && line.unicode_len() - 1 > n {
                Some((key, text::trimmed(v)))
            } else {
                None
            },
            None => None,
        }
    }
}

/// A text begins with a single character exactly when that is its first.
proof fn lemma_one(s: Seq<char>, p: Seq<char>)
    requires
        p.len() == 1,
    ensures
        text::starts_with(s, p) == (s.len() > 0 && s[0] == p[0]),
{
    if s.len() > 0 && s[0] == p[0] {
        assert(s.take(1) =~= p);
    } else if text::starts_with(s, p) {
        assert(s.take(1)[0] == p[0]);
    }
}

/// A parsed `c <major>:<minor> rwm` value; `None` for a `major`/`minor` that
/// is a `*`.
#[derive(Debug, Clone, Copy, PartialEq, Eq, Structural)]
pub struct Device {
    pub major: Option<u32>,
    pub minor: Option<u32>,
}

/// A device number of an allow line.
fn number(s: &str) -> (r: Option<Option<u32>>)
    ensures
        r == device_number(s@),
{
    if text::eq(s, "*") {
        Some(None)
    } else {
        match text::u32_of(s) {
            Some(n) => Some(Some(n)),
            None => None,
        }
    }
}

/// Parses the value of a `lxc.cgroup2.devices.allow` line. Only character
/// devices are ours; a block device line is nothing this tool writes.
pub fn parse_allow(value: &str) -> (r: Option<Device>)
    ensures
        r == allowed(value@),
{
    let w = text::words_of(value);
    proof {
        assert(w@.len() == text::words(value@).len());
        assert forall|i: int| 0 <= i < w@.len() implies #[trigger] w@[i]@ == text::words(
            value@,
        )[i] by {
            assert(text::views(w@)[i] == w@[i]@);
        }
    }
    if w.len() < 2 || !text::eq(w[0], "c") {
        return None;
    }
    match text::split_at_first(w[1], ':') {
        Some((major, minor)) => match (number(major), number(minor)) {
            (Some(major), Some(minor)) => Some(Device { major, minor }),
            _ => None,
        },
        None => None,
    }
}

/// Whether this tool owns `line`.
pub fn is_managed(line: &str, owned: &Owned) -> (r: bool)
    ensures
        r == managed(line@, owned@),
{
    proof {
        reveal(managed);
    }
    match split_line(line) {
        Some((key, value)) => if text::eq(key, HOOK_KEY) {
            text::eq(value, HOOK)
        } else if text::eq(key, ENV_KEY) {
            text::begins(value, "NVIDIA_")
        } else if text::eq(key, ALLOW) {
            match parse_allow(value) {
                Some(dev) => match dev.major {
                    // `c *:* rwm` is somebody else's blanket rule.
                    Some(m) => owned.owns(m),
                    None => false,
                },
                None => false,
            }
        } else {
            false
        },
        None => false,
    }
}

proof fn lemma_managed_among_push(ls: Seq<Seq<char>>, l: Seq<char>, owned: Set<u32>)
    ensures
        managed_among(ls.push(l), owned) == if managed(l, owned) {
            managed_among(ls, owned).push(text::trim_end(l))
        } else {
            managed_among(ls, owned)
        },
{
    ls.lemma_filter_push(l, |l: Seq<char>| managed(l, owned));
    assert(managed_among(ls.push(l), owned) =~= if managed(l, owned) {
        managed_among(ls, owned).push(text::trim_end(l))
    } else {
        managed_among(ls, owned)
    });
}

/// The managed lines of the main section, in file order.
pub fn managed_lines(text: &str, owned: &Owned) -> (r: Vec<String>)
    ensures
        text::texts(r@) == managed_of(text@, owned@),
{
    let (main, _) = split_sections(text);
    let ls = text::lines_of(main);
    let ghost vs = text::views(ls@);
    let mut out: Vec<String> = Vec::new();
    let mut i: usize = 0;
    proof {
        text::lemma_views(ls@);
        reveal(Seq::filter);
        assert(managed_among(vs.take(0), owned@) =~= text::texts(out@));
    }
    while i < ls.len()
        invariant
            i <= ls.len(),
            vs == text::views(ls@),
            text::texts(out@) == managed_among(vs.take(i as int), owned@),
        decreases ls.len() - i,
    {
        proof {
            text::lemma_views(ls@);
            assert(vs.take(i + 1) =~= vs.take(i as int).push(vs[i as int]));
            lemma_managed_among_push(vs.take(i as int), vs[i as int], owned@);
        }
        if is_managed(ls[i], owned) {
            let line = text::trimmed_end(ls[i]).to_owned();
            proof {
                text::lemma_texts_push(out@, line);
            }
            out.push(line);
        }
        i += 1;
    }
    proof {
        assert(vs.take(vs.len() as int) =~= vs);
    }
    out
}

/// Every character major an allow line of the main section names.
pub fn allow_majors(text: &str) -> (r: BTreeSet<u32>)
    ensures
        r@ == majors_of(text@),
{
    let (main, _) = split_sections(text);
    let ls = text::lines_of(main);
    let ghost vs = text::views(ls@);
    let mut out: BTreeSet<u32> = BTreeSet::new();
    let mut i: usize = 0;
    while i < ls.len()
        invariant
            i <= ls.len(),
            vs == text::views(ls@),
            forall|m: u32| #[trigger]
                out@.contains(m) <==> exists|j: int| 0 <= j < i && allows_major(#[trigger] vs[j], m),
        decreases ls.len() - i,
    {
        proof {
            text::lemma_views(ls@);
        }
        let ghost before = out@;
        if let Some((key, value)) = split_line(ls[i]) {
            if text::eq(key, ALLOW) {
                if let Some(dev) = parse_allow(value) {
                    if let Some(m) = dev.major {
                        out.insert(m);
                    }
                }
            }
        }
        proof {
            assert forall|m: u32| #[trigger]
                out@.contains(m) <==> before.contains(m) || allows_major(vs[i as int], m) by {}
        }
        i += 1;
    }
    proof {
        assert(out@ =~= majors_of(text@));
    }
    out
}

/// A value of the main section, e.g. `hostname` or `unprivileged`.
pub fn value_of<'a>(text: &'a str, key: &str) -> (r: Option<&'a str>)
    ensures
        text::opt_view(r) == value_in(text@, key@),
{
    let (main, _) = split_sections(text);
    let ls = text::lines_of(main);
    let ghost vs = text::views(ls@);
    let mut i: usize = 0;
    proof {
        assert(vs.skip(0) =~= vs);
    }
    while i < ls.len()
        invariant
            i <= ls.len(),
            vs == text::views(ls@),
            vs == text::lines(main_of(text@)),
            value_among(vs, key@) == value_among(vs.skip(i as int), key@),
        decreases ls.len() - i,
    {
        proof {
            text::lemma_views(ls@);
            assert(vs.skip(i as int).skip(1) =~= vs.skip(i + 1));
        }
        if let Some((k, v)) = split_line(ls[i]) {
            if text::eq(k, key) {
                return Some(v);
            }
        }
        i += 1;
    }
    None
}

/// Whether the container runs unprivileged, which is the only kind LXC's
/// nvidia hook supports: it refuses anything but a user namespace whose root
/// is not the host's. PVE's own test is the `unprivileged` flag or a custom
/// `lxc.idmap`.
pub fn is_unprivileged(text: &str) -> (r: bool)
    ensures
        r == unprivileged(text@),
{
    if let Some(v) = value_of(text, "unprivileged") {
        if text::eq(v, "1") {
            return true;
        }
    }
    value_of(text, "lxc.idmap").is_some()
}

pub proof fn lemma_nvidia_entries_push(ls: Seq<Seq<char>>, l: Seq<char>)
    ensures
        nvidia_entries_among(ls.push(l)) == if is_nvidia_entry(l) {
            nvidia_entries_among(ls).push(line_parts(l).unwrap().0)
        } else {
            nvidia_entries_among(ls)
        },
{
    ls.lemma_filter_push(l, |l: Seq<char>| is_nvidia_entry(l));
    assert(nvidia_entries_among(ls.push(l)) =~= if is_nvidia_entry(l) {
        nvidia_entries_among(ls).push(line_parts(l).unwrap().0)
    } else {
        nvidia_entries_among(ls)
    });
}

/// The `devN:` entries that pass an NVIDIA device through PVE's own device
/// passthrough. They cannot be combined with the hook: PVE's
/// `lxc-pve-autodev-hook` mknods them after the nvidia hook has already
/// created the same nodes, and the start fails with `Could not mknod
/// .../dev/nvidia-uvm: File exists`.
pub fn nvidia_dev_entries(text: &str) -> (r: Vec<String>)
    ensures
        text::texts(r@) == nvidia_entries(text@),
{
    let (main, _) = split_sections(text);
    let ls = text::lines_of(main);
    let ghost vs = text::views(ls@);
    let mut out: Vec<String> = Vec::new();
    let mut i: usize = 0;
    proof {
        reveal(Seq::filter);
        assert(nvidia_entries_among(vs.take(0)) =~= text::texts(out@));
    }
    while i < ls.len()
        invariant
            i <= ls.len(),
            vs == text::views(ls@),
            text::texts(out@) == nvidia_entries_among(vs.take(i as int)),
        decreases ls.len() - i,
    {
        proof {
            text::lemma_views(ls@);
            assert(vs.take(i + 1) =~= vs.take(i as int).push(vs[i as int]));
            lemma_nvidia_entries_push(vs.take(i as int), vs[i as int]);
        }
        if let Some((key, value)) = split_line(ls[i]) {
            if let Some(n) = text::after_prefix(key, "dev") {
                if text::all_digits(n) && text::contains(value, "/dev/nvidia") {
                    let key = key.to_owned();
                    proof {
                        text::lemma_texts_push(out@, key);
                    }
                    out.push(key);
                }
            }
        }
        i += 1;
    }
    proof {
        assert(vs.take(vs.len() as int) =~= vs);
    }
    out
}

/// The container's hostname, for a status table.
pub fn hostname(text: &str) -> (r: Option<&str>)
    ensures
        text::opt_view(r) == value_in(text@, "hostname"@),
{
    value_of(text, "hostname")
}

// ---------------------------------------------------------------------------
// Writing a config.
// ---------------------------------------------------------------------------

/// An allow line.
fn allow(major: u32, minor: u32) -> (r: String)
    ensures
        r@ == allow_line(major, minor),
{
    ALLOW.to_owned().concat(": c ").concat(text::decimal_of(major as u64).as_str()).concat(
        ":",
    ).concat(text::decimal_of(minor as u64).as_str()).concat(" rwm")
}

/// Whether a list of capabilities names `cap`.
fn has_cap(caps: &[&str], cap: &str) -> (r: bool)
    ensures
        r == text::views(caps@).contains(cap@),
{
    proof {
        text::lemma_views(caps@);
    }
    let mut i: usize = 0;
    while i < caps.len()
        invariant
            i <= caps.len(),
            forall|j: int| 0 <= j < i ==> #[trigger] text::views(caps@)[j] != cap@,
            forall|j: int| 0 <= j < caps@.len() ==> text::views(caps@)[j] == (#[trigger] caps@[j])@,
        decreases caps.len() - i,
    {
        if text::eq(caps[i], cap) {
            proof {
                assert(text::views(caps@)[i as int] == cap@);
            }
            return true;
        }
        i += 1;
    }
    false
}

/// Renders the managed lines for the selected GPUs.
///
/// `gpus` are this node's cards the document asked for, in the order they are
/// written; `caps` the driver capabilities; `require_cuda` the constraint the
/// hook turns into `--require=cuda>=<v>`; `uvm` the current `nvidia-uvm`
/// major, when the module is loaded. An empty `gpus` renders nothing: no GPU,
/// no lines, and the container starts as an ordinary one.
pub fn render(
    gpus: &[&Gpu],
    caps: &[&str],
    require_cuda: Option<&str>,
    uvm: Option<u32>,
) -> (r: Vec<String>)
    ensures
        text::texts(r@) == rendered(
            cards(gpus@),
            text::views(caps@),
            text::opt_view(require_cuda),
            uvm,
        ),
{
    let ghost cs = cards(gpus@);
    let ghost names = text::views(caps@);
    let mut out: Vec<String> = Vec::new();
    if gpus.len() == 0 {
        proof {
            assert(text::texts(out@) =~= Seq::empty());
        }
        return out;
    }
    let mut uuids: Vec<&str> = Vec::new();
    let mut i: usize = 0;
    while i < gpus.len()
        invariant
            i <= gpus.len(),
            cs == cards(gpus@),
            out@.len() == i,
            uuids@.len() == i,
            forall|j: int|
                0 <= j < i ==> (#[trigger] out@[j])@ == allow_line(NVIDIA_MAJOR, cs[j].minor),
            forall|j: int| 0 <= j < i ==> (#[trigger] uuids@[j])@ == cs[j].uuid,
        decreases gpus.len() - i,
    {
        let gpu = gpus[i];
        out.push(allow(NVIDIA_MAJOR, gpu.minor));
        uuids.push(gpu.uuid.as_str());
        i += 1;
    }
    let ghost first = text::texts(out@);
    proof {
        assert(first =~= cs.map_values(|g: Card| allow_line(NVIDIA_MAJOR, g.minor)));
        assert(text::views(uuids@) =~= cs.map_values(|g: Card| g.uuid));
    }
    // /dev/nvidia-modeset, which the graphics and display capabilities need
    // and nothing else does.
    if has_cap(caps, "graphics") || has_cap(caps, "display") {
        out.push(allow(NVIDIA_MAJOR, MODESET_MINOR));
    }
    out.push(allow(NVIDIA_MAJOR, CTL_MINOR));
    if let Some(uvm) = uvm {
        out.push(allow(uvm, 0));
        out.push(allow(uvm, 1));
    }
    proof {
        assert(text::texts(out@) =~= rendered_allows(cs, names, uvm));
    }
    let ghost allows = out@;
    out.push(HOOK_KEY.to_owned().concat(": ").concat(HOOK));
    let uuid_list = text::joined(uuids.as_slice(), ",");
    out.push(ENV_KEY.to_owned().concat(": NVIDIA_VISIBLE_DEVICES=").concat(uuid_list.as_str()));
    if caps.len() > 0 {
        let cap_list = text::joined(caps, ",");
        out.push(
            ENV_KEY.to_owned().concat(": NVIDIA_DRIVER_CAPABILITIES=").concat(cap_list.as_str()),
        );
    }
    if let Some(v) = require_cuda {
        out.push(ENV_KEY.to_owned().concat(": NVIDIA_REQUIRE_CUDA=cuda>=").concat(v));
    }
    proof {
        assert(text::texts(out@) =~= text::texts(allows) + seq![HOOK_KEY@ + ": "@ + HOOK@]
            + rendered_env(cs, names, text::opt_view(require_cuda)));
    }
    out
}

/// The text of a list of lines.
fn unlined(ls: &Vec<&str>) -> (r: String)
    ensures
        r@ == text::unlines(text::views(ls@)),
{
    let ghost vs = text::views(ls@);
    let mut out = String::new();
    let mut i: usize = 0;
    proof {
        text::lemma_views(ls@);
        assert(out@ =~= text::unlines(vs.take(0)));
        reveal_strlit("\n");
    }
    while i < ls.len()
        invariant
            i <= ls.len(),
            vs == text::views(ls@),
            vs.len() == ls@.len(),
            forall|j: int| 0 <= j < ls@.len() ==> vs[j] == (#[trigger] ls@[j])@,
            "\n"@ == seq!['\n'],
            out@ == text::unlines(vs.take(i as int)),
        decreases ls.len() - i,
    {
        let ghost before = out@;
        out.append(ls[i]);
        out.append("\n");
        proof {
            let l = vs[i as int];
            assert(vs.take(i + 1) =~= vs.take(i as int) + seq![l]);
            text::lemma_unlines_add(vs.take(i as int), seq![l]);
            assert(seq![l].skip(1) =~= Seq::<Seq<char>>::empty());
            assert(text::unlines(Seq::empty()) == Seq::<char>::empty());
            assert(text::unlines(seq![l]) =~= l.push('\n'));
            assert(out@ =~= before + l.push('\n'));
        }
        i += 1;
    }
    proof {
        assert(vs.take(vs.len() as int) =~= vs);
    }
    out
}

/// Replaces the managed lines of the main section with `desired`, keeping
/// every other line and every section below untouched. The new lines land
/// where the first managed line stood, or at the end of the main section.
///
/// Lines are rejoined with `\n`. A config written with CRLF, which is nothing
/// PVE does, keeps its own line endings on the lines that are kept and gets LF
/// on the managed ones; both parse, here and in PVE, and the mixture is
/// cosmetic.
pub fn splice(text: &str, desired: &[String], owned: &Owned) -> (r: String)
    ensures
        r@ == spliced(text@, text::texts(desired@), owned@),
{
    let (main, rest) = split_sections(text);
    let ls = text::lines_of(main);
    let ghost vs = text::views(ls@);
    let mut kept: Vec<&str> = Vec::new();
    let mut at: Option<usize> = None;
    let mut i: usize = 0;
    proof {
        reveal(Seq::filter);
        assert(others(vs.take(0), owned@) =~= text::views(kept@));
        assert(vs.skip(0) =~= vs);
    }
    while i < ls.len()
        invariant
            i <= ls.len(),
            vs == text::views(ls@),
            text::views(kept@) == others(vs.take(i as int), owned@),
            match at {
                Some(a) => a == first_managed(vs, owned@),
                None => kept@.len() == i && first_managed(vs, owned@) == i + first_managed(
                    vs.skip(i as int),
                    owned@,
                ),
            },
        decreases ls.len() - i,
    {
        let ghost l = vs[i as int];
        let ghost before = kept@;
        proof {
            text::lemma_views(ls@);
            assert(vs.take(i + 1) =~= vs.take(i as int).push(l));
            vs.take(i as int).lemma_filter_push(l, |l: Seq<char>| !managed(l, owned@));
            assert(vs.skip(i as int).skip(1) =~= vs.skip(i + 1));
        }
        if is_managed(ls[i], owned) {
            if at.is_none() {
                at = Some(kept.len());
            }
        } else {
            kept.push(ls[i]);
            proof {
                assert(text::views(kept@) =~= text::views(before).push(l));
            }
        }
        i += 1;
    }
    let ghost all = text::views(kept@);
    proof {
        assert(vs.take(vs.len() as int) =~= vs);
        assert(all == others(vs, owned@));
    }
    // Trailing blank lines are the separator before a section; the managed
    // lines belong above them.
    while kept.len() > 0 && text::is_blank(kept[kept.len() - 1])
        invariant
            without_trailing_blanks(text::views(kept@)) == without_trailing_blanks(all),
            kept@.len() <= all.len(),
        decreases kept.len(),
    {
        let ghost before = kept@;
        proof {
            text::lemma_views(before);
            assert(text::views(before).last() == before.last()@);
        }
        kept.pop();
        proof {
            assert(text::views(kept@) =~= text::views(before).drop_last());
        }
    }
    let ghost body = text::views(kept@);
    proof {
        text::lemma_views(kept@);
        if body.len() > 0 {
            assert(body.last() == kept@.last()@);
        }
        assert(body == without_trailing_blanks(others(vs, owned@)));
    }
    let at: usize = match at {
        Some(a) => if a < kept.len() {
            a
        } else {
            kept.len()
        },
        None => kept.len(),
    };
    let mut out: Vec<&str> = Vec::new();
    let mut i: usize = 0;
    while i < at
        invariant
            i <= at <= kept@.len(),
            body == text::views(kept@),
            text::views(out@) == body.take(i as int),
        decreases at - i,
    {
        let ghost before = out@;
        out.push(kept[i]);
        proof {
            text::lemma_views(kept@);
            assert(text::views(out@) =~= text::views(before).push(body[i as int]));
            assert(body.take(i + 1) =~= body.take(i as int).push(body[i as int]));
        }
        i += 1;
    }
    let ghost wanted = text::texts(desired@);
    let mut j: usize = 0;
    proof {
        assert(text::views(out@) =~= body.take(at as int) + wanted.take(0));
    }
    while j < desired.len()
        invariant
            j <= desired@.len(),
            wanted == text::texts(desired@),
            text::views(out@) == body.take(at as int) + wanted.take(j as int),
        decreases desired.len() - j,
    {
        let ghost before = out@;
        out.push(desired[j].as_str());
        proof {
            text::lemma_texts(desired@);
            assert(text::views(out@) =~= text::views(before).push(wanted[j as int]));
            assert(body.take(at as int) + wanted.take(j + 1) =~= (body.take(at as int)
                + wanted.take(j as int)).push(wanted[j as int]));
        }
        j += 1;
    }
    let ghost head = body.take(at as int) + wanted;
    let mut k: usize = at;
    proof {
        assert(wanted.take(wanted.len() as int) =~= wanted);
        assert(text::views(out@) =~= head + body.subrange(at as int, at as int));
    }
    while k < kept.len()
        invariant
            at <= k <= kept@.len(),
            body == text::views(kept@),
            text::views(out@) == head + body.subrange(at as int, k as int),
        decreases kept.len() - k,
    {
        let ghost before = out@;
        out.push(kept[k]);
        proof {
            text::lemma_views(kept@);
            assert(text::views(out@) =~= text::views(before).push(body[k as int]));
            assert(head + body.subrange(at as int, k + 1) =~= (head + body.subrange(
                at as int,
                k as int,
            )).push(body[k as int]));
        }
        k += 1;
    }
    proof {
        assert(body.subrange(at as int, body.len() as int) =~= body.skip(at as int));
    }
    let mut r = unlined(&out);
    let ghost lines = r@;
    if rest.unicode_len() > 0 {
        r.append("\n");
        r.append(rest);
        proof {
            reveal_strlit("\n");
            assert(r@ =~= lines.push('\n') + rest@);
        }
    }
    r
}

// ---------------------------------------------------------------------------
// What splicing keeps.
// ---------------------------------------------------------------------------

/// No section header stands before the one `header_from` gives.
pub proof fn lemma_header_from(s: Seq<char>, k: nat)
    requires
        k <= s.len(),
    ensures
        k <= header_from(s, k) <= s.len(),
        forall|i: int| k <= i < header_from(s, k) ==> !#[trigger] is_header(s, i),
        header_from(s, k) < s.len() ==> is_header(s, header_from(s, k) as int),
    decreases s.len() - k,
{
    if k < s.len() && !is_header(s, k as int) {
        lemma_header_from(s, k + 1);
    }
}

/// `header_from` is the only position with these properties.
proof fn lemma_header_is(s: Seq<char>, n: nat)
    requires
        n <= s.len(),
        forall|i: int| 0 <= i < n ==> !#[trigger] is_header(s, i),
        n < s.len() ==> is_header(s, n as int),
    ensures
        header_from(s, 0) == n,
{
    lemma_header_from(s, 0);
}

/// Whether no text of `ls` begins with a `[`.
pub open spec fn no_headers(ls: Seq<Seq<char>>) -> bool {
    forall|i: int| 0 <= i < ls.len() && (#[trigger] ls[i]).len() > 0 ==> ls[i][0] != '['
}

/// A text without section headers has no line that is one.
proof fn lemma_no_headers(s: Seq<char>)
    requires
        forall|i: int| !#[trigger] is_header(s, i),
    ensures
        no_headers(text::lines(s)),
    decreases s.len(),
{
    if s.len() > 0 {
        text::lemma_first(s, '\n');
        let n = text::first(s, '\n') as int;
        let ls = text::lines(s);
        assert(!is_header(s, 0));
        if n < s.len() {
            let t = s.skip(n + 1);
            assert forall|i: int| !#[trigger] is_header(t, i) by {
                assert(!is_header(s, i + n + 1));
            }
            lemma_no_headers(t);
            assert forall|i: int| 0 <= i < ls.len() && (#[trigger] ls[i]).len() > 0 implies ls[i][0]
                != '[' by {
                if i > 0 {
                    assert(ls[i] == text::lines(t)[i - 1]);
                }
            }
        }
    }
}

/// Lines that are no section headers make a text without any.
proof fn lemma_unlines_no_headers(ls: Seq<Seq<char>>)
    requires
        text::all_one_line(ls),
        no_headers(ls),
    ensures
        forall|i: int| !#[trigger] is_header(text::unlines(ls), i),
    decreases ls.len(),
{
    if ls.len() > 0 {
        let s = text::unlines(ls);
        let t = text::unlines(ls.skip(1));
        let n = ls[0].len() as int;
        assert forall|i: int| 0 <= i < ls.skip(1).len() implies text::one_line(
            #[trigger] ls.skip(1)[i],
        ) by {
            assert(text::one_line(ls[i + 1]));
        }
        assert(no_headers(ls.skip(1))) by {
            assert forall|i: int|
                0 <= i < ls.skip(1).len() && (#[trigger] ls.skip(1)[i]).len() > 0 implies ls.skip(
                1,
            )[i][0] != '[' by {
                assert(ls.skip(1)[i] == ls[i + 1]);
            }
        }
        lemma_unlines_no_headers(ls.skip(1));
        assert forall|i: int| !#[trigger] is_header(s, i) by {
            if is_header(s, i) {
                if i <= n {
                    if 0 < i {
                        assert(text::one_line(ls[0]));
                        assert(ls[0][i - 1] == s[i - 1]);
                    }
                } else {
                    assert(s[i] == t[i - n - 1]);
                    if i > n + 1 {
                        assert(s[i - 1] == t[i - n - 2]);
                    }
                    assert(is_header(t, i - n - 1));
                }
            }
        }
    }
}

/// The main section has no section header in it.
pub proof fn lemma_main_has_no_header(s: Seq<char>)
    ensures
        forall|i: int| !#[trigger] is_header(main_of(s), i),
        no_headers(text::lines(main_of(s))),
        rest_of(s).len() > 0 ==> rest_of(s)[0] == '[',
{
    lemma_header_from(s, 0);
    assert forall|i: int| !#[trigger] is_header(main_of(s), i) by {
        if is_header(main_of(s), i) {
            assert(is_header(s, i));
        }
    }
    lemma_no_headers(main_of(s));
}

/// A line of this tool's is no section header.
proof fn lemma_managed_is_no_header(line: Seq<char>, owned: Set<u32>)
    requires
        managed(line, owned),
    ensures
        line.len() > 0,
        line[0] != '[',
{
    reveal(managed);
    reveal(line_parts);
    let l = text::trim_end(line);
    text::lemma_trim_end(line);
    if key_len(l) == 0 {
        assert(l.take(0).len() == 0);
        assert forall|n: int| !#[trigger] plain_key_at(l.take(0), n) by {}
    }
}

pub proof fn lemma_without_trailing_blanks(ls: Seq<Seq<char>>)
    ensures
        without_trailing_blanks(ls).len() <= ls.len(),
        without_trailing_blanks(ls) == ls.take(without_trailing_blanks(ls).len() as int),
        without_trailing_blanks(ls).len() > 0 ==> !text::blank(without_trailing_blanks(ls).last()),
        forall|i: int|
            without_trailing_blanks(ls).len() <= i < ls.len() ==> text::blank(#[trigger] ls[i]),
    decreases ls.len(),
{
    if ls.len() > 0 && text::blank(ls.last()) {
        let t = ls.drop_last();
        lemma_without_trailing_blanks(t);
        let n = without_trailing_blanks(ls).len() as int;
        assert(t.take(n) =~= ls.take(n));
        assert forall|i: int| n <= i < ls.len() implies text::blank(#[trigger] ls[i]) by {
            if i < t.len() {
                assert(t[i] == ls[i]);
            }
        }
    } else {
        assert(ls.take(ls.len() as int) =~= ls);
    }
}

/// Whether every line of `ls` is this tool's and is one line.
pub open spec fn all_ours(ls: Seq<Seq<char>>, owned: Set<u32>) -> bool {
    forall|i: int|
        0 <= i < ls.len() ==> managed(#[trigger] ls[i], owned) && text::one_line(ls[i])
}

/// Filtering keeps only lines that were there.
proof fn lemma_others_are_lines(ls: Seq<Seq<char>>, owned: Set<u32>)
    ensures
        others(ls, owned).len() <= ls.len(),
        forall|i: int|
            0 <= i < others(ls, owned).len() ==> !managed(#[trigger] others(ls, owned)[i], owned)
                && ls.contains(others(ls, owned)[i]),
{
    let p = |l: Seq<char>| !managed(l, owned);
    ls.lemma_filter_len(p);
    assert forall|i: int| 0 <= i < others(ls, owned).len() implies !managed(
        #[trigger] others(ls, owned)[i],
        owned,
    ) && ls.contains(others(ls, owned)[i]) by {
        ls.lemma_filter_pred(p, i);
        ls.lemma_filter_contains_rev(p, others(ls, owned)[i]);
    }
}

/// The lines of a spliced config are the spliced lines, with an empty line
/// below them where sections follow; the sections are the same.
proof fn lemma_spliced_parts(s: Seq<char>, desired: Seq<Seq<char>>, owned: Set<u32>)
    requires
        all_ours(desired, owned),
    ensures
        rest_of(spliced(s, desired, owned)) == rest_of(s),
        text::lines(main_of(spliced(s, desired, owned))) == spliced_lines(
            text::lines(main_of(s)),
            desired,
            owned,
        ) + separator(rest_of(s).len() > 0),
{
    let ls = text::lines(main_of(s));
    let out = spliced_lines(ls, desired, owned);
    let rest = rest_of(s);
    let r = spliced(s, desired, owned);
    let kept = others(ls, owned);
    let body = without_trailing_blanks(kept);
    lemma_main_has_no_header(s);
    text::lemma_lines_are_lines(main_of(s));
    lemma_others_are_lines(ls, owned);
    lemma_without_trailing_blanks(kept);
    assert forall|i: int| 0 <= i < out.len() implies text::one_line(#[trigger] out[i]) && (
    out[i].len() > 0 ==> out[i][0] != '[') by {
        let line = out[i];
        if desired.contains(line) {
            let j = choose|j: int| 0 <= j < desired.len() && desired[j] == line;
            assert(managed(desired[j], owned));
            lemma_managed_is_no_header(line, owned);
        } else {
            let first = first_managed(ls, owned);
            let at: int = if first < body.len() {
                first as int
            } else {
                body.len() as int
            };
            if at <= i < at + desired.len() {
                assert(line == desired[i - at]);
            }
            let k: int = if i < at {
                i
            } else {
                i - desired.len()
            };
            assert(line == body[k]);
            assert(line == kept[k]);
            let m = choose|m: int| 0 <= m < ls.len() && ls[m] == line;
            assert(text::one_line(ls[m]));
        }
    }
    let sep = separator(rest.len() > 0);
    let all = out + sep;
    assert(text::all_one_line(all));
    assert(no_headers(all));
    lemma_unlines_no_headers(all);
    text::lemma_unlines_add(out, sep);
    text::lemma_lines_of_unlines(all);
    let head = text::unlines(all);
    if rest.len() > 0 {
        assert(sep.skip(1) =~= Seq::<Seq<char>>::empty());
        assert(text::unlines(Seq::empty()) == Seq::<char>::empty());
        assert(text::unlines(sep) =~= seq!['\n']);
        assert(head =~= text::unlines(out).push('\n'));
        assert(r =~= head + rest);
        assert(head.last() == '\n');
    } else {
        assert(text::unlines(sep) =~= Seq::<char>::empty());
        assert(head =~= text::unlines(out));
        assert(r =~= head + rest);
    }
    let n = head.len();
    assert forall|i: int| 0 <= i < n implies !#[trigger] is_header(r, i) by {
        assert(!is_header(head, i));
        assert(r[i] == head[i]);
        if i > 0 {
            assert(r[i - 1] == head[i - 1]);
        }
    }
    if n < r.len() {
        assert(r[n as int] == rest[0]);
        assert(r[n - 1] == head.last());
        assert(is_header(r, n as int));
    }
    lemma_header_is(r, n);
    assert(main_of(r) =~= head);
    assert(rest_of(r) =~= rest);
}

/// Among spliced lines, what is not ours is the body, and what is ours are
/// the new lines.
proof fn lemma_spliced_lines(ls: Seq<Seq<char>>, desired: Seq<Seq<char>>, owned: Set<u32>)
    requires
        all_ours(desired, owned),
    ensures
        others(spliced_lines(ls, desired, owned), owned) == without_trailing_blanks(
            others(ls, owned),
        ),
        ours(spliced_lines(ls, desired, owned), owned) == desired,
{
    let p = |l: Seq<char>| managed(l, owned);
    let q = |l: Seq<char>| !managed(l, owned);
    let kept = others(ls, owned);
    let body = without_trailing_blanks(kept);
    lemma_others_are_lines(ls, owned);
    lemma_without_trailing_blanks(kept);
    let first = first_managed(ls, owned);
    let at: int = if first < body.len() {
        first as int
    } else {
        body.len() as int
    };
    let a = body.take(at);
    let b = body.skip(at);
    assert forall|i: int| 0 <= i < body.len() implies !managed(#[trigger] body[i], owned) by {
        assert(body[i] == kept[i]);
    }
    lemma_filter_all(a, q);
    lemma_filter_all(b, q);
    lemma_filter_all(desired, p);
    lemma_filter_none(a, p);
    lemma_filter_none(b, p);
    lemma_filter_none(desired, q);
    Seq::filter_distributes_over_add(a + desired, b, p);
    Seq::filter_distributes_over_add(a, desired, p);
    Seq::filter_distributes_over_add(a + desired, b, q);
    Seq::filter_distributes_over_add(a, desired, q);
    assert(Seq::<Seq<char>>::empty() + desired + Seq::<Seq<char>>::empty() =~= desired);
    assert(a + Seq::<Seq<char>>::empty() + b =~= body);
}

proof fn lemma_filter_all(ls: Seq<Seq<char>>, p: spec_fn(Seq<char>) -> bool)
    requires
        forall|i: int| 0 <= i < ls.len() ==> p(#[trigger] ls[i]),
    ensures
        ls.filter(p) == ls,
    decreases ls.len(),
{
    reveal(Seq::filter);
    if ls.len() > 0 {
        let t = ls.drop_last();
        assert forall|i: int| 0 <= i < t.len() implies p(#[trigger] t[i]) by {
            assert(t[i] == ls[i]);
        }
        lemma_filter_all(t, p);
        assert(p(ls[ls.len() - 1]));
        assert(t.push(ls.last()) =~= ls);
    }
}

proof fn lemma_filter_none(ls: Seq<Seq<char>>, p: spec_fn(Seq<char>) -> bool)
    requires
        forall|i: int| 0 <= i < ls.len() ==> !p(#[trigger] ls[i]),
    ensures
        ls.filter(p) == Seq::<Seq<char>>::empty(),
    decreases ls.len(),
{
    reveal(Seq::filter);
    if ls.len() > 0 {
        let t = ls.drop_last();
        assert forall|i: int| 0 <= i < t.len() implies !p(#[trigger] t[i]) by {
            assert(t[i] == ls[i]);
        }
        lemma_filter_none(t, p);
        assert(!p(ls[ls.len() - 1]));
    } else {
        assert(ls =~= Seq::empty());
    }
}

/// An empty line is nobody's.
proof fn lemma_empty_line(owned: Set<u32>)
    ensures
        !managed(Seq::empty(), owned),
        text::blank(Seq::empty()),
{
    if managed(Seq::empty(), owned) {
        lemma_managed_is_no_header(Seq::empty(), owned);
    }
}

/// The separator between the main section and the sections below it.
spec fn separator(sections: bool) -> Seq<Seq<char>> {
    if sections {
        seq![Seq::<char>::empty()]
    } else {
        Seq::empty()
    }
}

/// The separator is nobody's line, and is dropped with the blank lines.
proof fn lemma_separator(ls: Seq<Seq<char>>, sections: bool, owned: Set<u32>)
    ensures
        ours(ls + separator(sections), owned) == ours(ls, owned),
        without_trailing_blanks(others(ls + separator(sections), owned))
            == without_trailing_blanks(others(ls, owned)),
{
    if sections {
        let e = Seq::<char>::empty();
        lemma_empty_line(owned);
        assert(ls + separator(sections) =~= ls.push(e));
        ls.lemma_filter_push(e, |l: Seq<char>| managed(l, owned));
        ls.lemma_filter_push(e, |l: Seq<char>| !managed(l, owned));
        let kept = others(ls, owned);
        assert(kept.push(e).drop_last() =~= kept);
        assert(kept.push(e).last() == e);
    } else {
        assert(ls + separator(sections) =~= ls);
    }
}

proof fn lemma_without_trailing_blanks_twice(ls: Seq<Seq<char>>)
    ensures
        without_trailing_blanks(without_trailing_blanks(ls)) == without_trailing_blanks(ls),
{
    lemma_without_trailing_blanks(ls);
}

/// The lines of a spliced main section: what is ours, and what is not.
proof fn lemma_spliced_main(
    ls: Seq<Seq<char>>,
    desired: Seq<Seq<char>>,
    sections: bool,
    owned: Set<u32>,
)
    requires
        all_ours(desired, owned),
    ensures
        ours(spliced_lines(ls, desired, owned) + separator(sections), owned) == desired,
        without_trailing_blanks(
            others(spliced_lines(ls, desired, owned) + separator(sections), owned),
        ) == without_trailing_blanks(others(ls, owned)),
{
    lemma_spliced_lines(ls, desired, owned);
    lemma_separator(spliced_lines(ls, desired, owned), sections, owned);
    lemma_without_trailing_blanks_twice(others(ls, owned));
}

/// What was spliced in is read back: the managed lines of the new config are
/// the desired ones.
pub proof fn law_splice_is_read_back(s: Seq<char>, desired: Seq<Seq<char>>, owned: Set<u32>)
    requires
        all_ours(desired, owned),
        forall|i: int|
            0 <= i < desired.len() ==> text::trim_end(#[trigger] desired[i]) == desired[i],
    ensures
        managed_of(spliced(s, desired, owned), owned) == desired,
{
    assert(desired.map_values(|l: Seq<char>| text::trim_end(l)) =~= desired);
    assert(ours(text::lines(main_of(spliced(s, desired, owned))), owned) == desired) by {
        lemma_spliced_parts(s, desired, owned);
        lemma_spliced_main(text::lines(main_of(s)), desired, rest_of(s).len() > 0, owned);
    }
}

/// Splicing keeps every line that is not ours, in its order, but for blank
/// lines at the end of the main section; and every section below it.
pub proof fn law_splice_keeps_the_rest(s: Seq<char>, desired: Seq<Seq<char>>, owned: Set<u32>)
    requires
        all_ours(desired, owned),
    ensures
        without_trailing_blanks(others(text::lines(main_of(spliced(s, desired, owned))), owned))
            == without_trailing_blanks(others(text::lines(main_of(s)), owned)),
        rest_of(spliced(s, desired, owned)) == rest_of(s),
{
    lemma_spliced_parts(s, desired, owned);
    lemma_spliced_main(text::lines(main_of(s)), desired, rest_of(s).len() > 0, owned);
}

pub proof fn lemma_first_managed_is(ls: Seq<Seq<char>>, owned: Set<u32>, n: nat)
    requires
        n <= ls.len(),
        forall|i: int| 0 <= i < n ==> !managed(#[trigger] ls[i], owned),
        n < ls.len() ==> managed(ls[n as int], owned),
    ensures
        first_managed(ls, owned) == n,
    decreases ls.len(),
{
    if n > 0 {
        let t = ls.skip(1);
        assert(!managed(ls[0], owned));
        assert forall|i: int| 0 <= i < n - 1 implies !managed(#[trigger] t[i], owned) by {
            assert(t[i] == ls[i + 1]);
        }
        lemma_first_managed_is(t, owned, (n - 1) as nat);
    }
}

/// Splicing the same lines into spliced lines gives the same lines.
proof fn lemma_spliced_again(
    ls: Seq<Seq<char>>,
    desired: Seq<Seq<char>>,
    sections: bool,
    owned: Set<u32>,
)
    requires
        all_ours(desired, owned),
    ensures
        spliced_lines(spliced_lines(ls, desired, owned) + separator(sections), desired, owned)
            == spliced_lines(ls, desired, owned),
{
    let out = spliced_lines(ls, desired, owned);
    let again = out + separator(sections);
    let kept = others(ls, owned);
    let body = without_trailing_blanks(kept);
    let first = first_managed(ls, owned);
    let at: int = if first < body.len() {
        first as int
    } else {
        body.len() as int
    };
    assert(without_trailing_blanks(others(again, owned)) == body) by {
        lemma_spliced_main(ls, desired, sections, owned);
    }
    if desired.len() == 0 {
        let next = first_managed(again, owned);
        let at2: int = if next < body.len() {
            next as int
        } else {
            body.len() as int
        };
        assert(body.take(at) + desired + body.skip(at) =~= body);
        assert(body.take(at2) + desired + body.skip(at2) =~= body);
    } else {
        assert(first_managed(again, owned) == at) by {
            lemma_others_are_lines(ls, owned);
            lemma_without_trailing_blanks(kept);
            assert forall|i: int| 0 <= i < at implies !managed(#[trigger] again[i], owned) by {
                assert(again[i] == body[i]);
                assert(body[i] == kept[i]);
            }
            assert(again[at] == desired[0]);
            lemma_first_managed_is(again, owned, at as nat);
        }
    }
}

/// Splicing the same lines in a second time changes nothing.
pub proof fn law_splice_is_a_fixed_point(s: Seq<char>, desired: Seq<Seq<char>>, owned: Set<u32>)
    requires
        all_ours(desired, owned),
    ensures
        spliced(spliced(s, desired, owned), desired, owned) == spliced(s, desired, owned),
{
    lemma_spliced_parts(s, desired, owned);
    lemma_spliced_again(text::lines(main_of(s)), desired, rest_of(s).len() > 0, owned);
}

// ---------------------------------------------------------------------------
// What rendering gives.
// ---------------------------------------------------------------------------

pub proof fn lemma_key_len_is(s: Seq<char>, n: nat)
    requires
        n <= s.len(),
        forall|i: int| 0 <= i < n ==> is_key_char(#[trigger] s[i]),
        n < s.len() ==> !is_key_char(s[n as int]),
    ensures
        key_len(s) == n,
    decreases s.len(),
{
    if n > 0 {
        let t = s.skip(1);
        assert(is_key_char(s[0]));
        assert forall|i: int| 0 <= i < n - 1 implies is_key_char(#[trigger] t[i]) by {
            assert(t[i] == s[i + 1]);
        }
        lemma_key_len_is(t, (n - 1) as nat);
    }
}

/// Whether `k` is a raw `lxc.` key.
pub open spec fn is_lxc_key(k: Seq<char>) -> bool {
    k.len() > 4 && text::starts_with(k, "lxc."@) && forall|i: int|
        0 <= i < k.len() ==> is_key_char(#[trigger] k[i])
}

/// A raw key, `: ` and a value without white space around it are read back.
pub proof fn lemma_lxc_line(key: Seq<char>, value: Seq<char>)
    requires
        is_lxc_key(key),
        value.len() > 0,
        !text::is_space(value[0]),
        !text::is_space(value.last()),
    ensures
        line_parts(key + ": "@ + value) == Some((key, value)),
        text::trim_end(key + ": "@ + value) == key + ": "@ + value,
{
    reveal(line_parts);
    reveal_strlit(": ");
    reveal_strlit("lxc.");
    let l = key + ": "@ + value;
    assert(l.last() == value.last());
    text::lemma_trim_end_is(l, l.len());
    assert(l.take(l.len() as int) =~= l);
    assert forall|i: int| 0 <= i < key.len() implies is_key_char(#[trigger] l[i]) by {
        assert(l[i] == key[i]);
    }
    assert(l[key.len() as int] == ':');
    lemma_key_len_is(l, key.len());
    assert(l.take(key.len() as int) =~= key);
    assert(l.take(4) =~= key.take(4));
    let tail = l.skip(key.len() as int);
    assert(tail[0] == ':');
    let v = tail.skip(1);
    assert(v =~= seq![' '] + value);
    text::lemma_trim_start_is(v, 1);
    assert(v.skip(1) =~= value);
    text::lemma_trim_end_is(value, value.len());
    assert(value.take(value.len() as int) =~= value);
}

pub proof fn lemma_keys()
    ensures
        is_lxc_key(ALLOW@),
        is_lxc_key(HOOK_KEY@),
        is_lxc_key(ENV_KEY@),
        ALLOW@ != HOOK_KEY@,
        ALLOW@ != ENV_KEY@,
        ENV_KEY@ != HOOK_KEY@,
        text::one_line(ALLOW@),
        text::one_line(HOOK_KEY@),
        text::one_line(ENV_KEY@),
{
    reveal_strlit("lxc.");
    reveal_strlit("lxc.cgroup2.devices.allow");
    reveal_strlit("lxc.hook.mount");
    reveal_strlit("lxc.environment");
    assert(ALLOW@.take(4) =~= "lxc."@);
    assert(HOOK_KEY@.take(4) =~= "lxc."@);
    assert(ENV_KEY@.take(4) =~= "lxc."@);
    assert(ALLOW@.len() == 25);
    assert(HOOK_KEY@.len() == 14);
    assert(ENV_KEY@.len() == 15);
}

/// A line that is one line, is this tool's, and ends in no white space.
spec fn good(line: Seq<char>, owned: Set<u32>) -> bool {
    managed(line, owned) && text::one_line(line) && text::trim_end(line) == line
}

pub proof fn lemma_decimal_has_none(n: nat, c: char)
    requires
        !text::is_digit(c),
    ensures
        !text::decimal(n).contains(c),
        text::spaceless(text::decimal(n)),
{
    text::lemma_decimal(n);
}

proof fn lemma_device_number(n: u32)
    ensures
        device_number(text::decimal(n as nat)) == Some(Some(n)),
{
    reveal_strlit("*");
    text::lemma_decimal(n as nat);
    text::lemma_decimal_parses(n as nat, u32::MAX as nat);
    assert(text::is_digit(text::decimal(n as nat)[0]));
    assert("*"@[0] == '*');
}

proof fn lemma_allow_line(major: u32, minor: u32, owned: Set<u32>)
    requires
        owned.contains(major),
    ensures
        good(allow_line(major, minor), owned),
{
    reveal(managed);
    reveal_strlit(": ");
    reveal_strlit(": c ");
    reveal_strlit(":");
    reveal_strlit(" rwm");
    reveal_strlit("c");
    let a = text::decimal(major as nat);
    let b = text::decimal(minor as nat);
    text::lemma_decimal(major as nat);
    text::lemma_decimal(minor as nat);
    lemma_decimal_has_none(major as nat, '\n');
    lemma_decimal_has_none(minor as nat, '\n');
    lemma_decimal_has_none(major as nat, ':');
    let pair = a + ":"@ + b;
    let value = "c"@ + (seq![' '] + (pair + " rwm"@));
    let l = allow_line(major, minor);
    assert(l =~= ALLOW@ + ": "@ + value);
    lemma_keys();
    lemma_lxc_line(ALLOW@, value);
    assert(text::spaceless(pair));
    assert(text::spaceless("c"@));
    text::lemma_words_first("c"@, seq![' '] + (pair + " rwm"@));
    text::lemma_words_space(' ', pair + " rwm"@);
    text::lemma_words_first(pair, " rwm"@);
    let w = text::words(value);
    assert(w[0] == "c"@);
    assert(w[1] == pair);
    assert forall|i: int| 0 <= i < a.len() implies pair[i] != ':' by {
        assert(pair[i] == a[i]);
        assert(a.contains(a[i]));
    }
    text::lemma_first_is(pair, ':', a.len());
    assert(pair.take(a.len() as int) =~= a);
    assert(pair.skip(a.len() as int + 1) =~= b);
    lemma_device_number(major);
    lemma_device_number(minor);
    assert(text::one_line(l)) by {
        assert forall|i: int| 0 <= i < l.len() implies l[i] != '\n' by {
            let n = ALLOW@.len() as int;
            if i < n {
                assert(l[i] == ALLOW@[i]);
            } else if i < n + 4 {
                assert(l[i] == ": c "@[i - n]);
            } else if i < n + 4 + a.len() {
                assert(l[i] == a[i - n - 4]);
            } else if i < n + 5 + a.len() {
            } else if i < n + 5 + a.len() + b.len() {
                assert(l[i] == b[i - n - 5 - a.len()]);
            }
        }
    }
}

proof fn lemma_hook_line(owned: Set<u32>)
    ensures
        good(HOOK_KEY@ + ": "@ + HOOK@, owned),
{
    reveal(managed);
    reveal_strlit(": ");
    reveal_strlit("/usr/share/lxc/hooks/nvidia");
    lemma_keys();
    lemma_lxc_line(HOOK_KEY@, HOOK@);
    let l = HOOK_KEY@ + ": "@ + HOOK@;
    assert forall|i: int| 0 <= i < l.len() implies l[i] != '\n' by {
        if i < HOOK_KEY@.len() {
            assert(l[i] == HOOK_KEY@[i]);
        } else if i < HOOK_KEY@.len() + 2 {
        } else {
            assert(l[i] == HOOK@[i - HOOK_KEY@.len() - 2]);
        }
    }
}

/// An environment line whose variable's name begins with `NVIDIA_`.
proof fn lemma_env_line(prefix: Seq<char>, name: Seq<char>, value: Seq<char>, owned: Set<u32>)
    requires
        prefix == ": "@ + name,
        text::starts_with(name, "NVIDIA_"@),
        text::one_line(name),
        text::tidy(value),
    ensures
        good(ENV_KEY@ + prefix + value, owned),
{
    reveal(managed);
    reveal_strlit(": ");
    reveal_strlit("NVIDIA_");
    lemma_keys();
    let v = name + value;
    let l = ENV_KEY@ + prefix + value;
    assert(l =~= ENV_KEY@ + ": "@ + v);
    assert(v.take(7) =~= name.take(7));
    assert(v[0] == v.take(7)[0]);
    assert(v.last() == value.last());
    lemma_lxc_line(ENV_KEY@, v);
    assert forall|i: int| 0 <= i < l.len() implies l[i] != '\n' by {
        let n = ENV_KEY@.len() as int;
        if i < n {
            assert(l[i] == ENV_KEY@[i]);
        } else if i < n + 2 {
        } else if i < n + 2 + name.len() {
            assert(l[i] == name[i - n - 2]);
        } else {
            assert(l[i] == value[i - n - 2 - name.len()]);
        }
    }
}

/// Joining tidy texts with commas gives a tidy text.
pub proof fn lemma_join_tidy(parts: Seq<Seq<char>>)
    requires
        parts.len() > 0,
        forall|i: int| 0 <= i < parts.len() ==> text::tidy(#[trigger] parts[i]),
    ensures
        text::tidy(text::join(parts, ","@)),
    decreases parts.len(),
{
    reveal_strlit(",");
    assert(text::tidy(parts[parts.len() - 1]));
    if parts.len() > 1 {
        let init = parts.drop_last();
        assert forall|i: int| 0 <= i < init.len() implies text::tidy(#[trigger] init[i]) by {
            assert(init[i] == parts[i]);
        }
        lemma_join_tidy(init);
        let a = text::join(init, ","@);
        let s = text::join(parts, ","@);
        assert(s == a + ","@ + parts.last());
        assert(s.last() == parts.last().last());
        assert forall|i: int| 0 <= i < s.len() implies s[i] != '\n' by {
            if i < a.len() {
                assert(s[i] == a[i]);
            } else if i > a.len() {
                assert(s[i] == parts.last()[i - a.len() - 1]);
            }
        }
    }
}

/// What a document and an inventory hand to [`render`] fits on a line: every
/// uuid, every capability and the constraint.
pub open spec fn renderable(
    gpus: Seq<Card>,
    caps: Seq<Seq<char>>,
    require_cuda: Option<Seq<char>>,
) -> bool {
    &&& forall|i: int| 0 <= i < gpus.len() ==> text::tidy((#[trigger] gpus[i]).uuid)
    &&& forall|i: int| 0 <= i < caps.len() ==> text::tidy(#[trigger] caps[i])
    &&& match require_cuda {
        Some(v) => text::tidy(v),
        None => true,
    }
}

/// Every rendered line is one this tool owns, is a single line, and is read
/// back as it was written. So what was written can be found, replaced and
/// removed again.
pub proof fn law_rendered_lines_are_ours(
    gpus: Seq<Card>,
    caps: Seq<Seq<char>>,
    require_cuda: Option<Seq<char>>,
    uvm: Option<u32>,
    owned: Set<u32>,
)
    requires
        renderable(gpus, caps, require_cuda),
        owned.contains(NVIDIA_MAJOR),
        uvm matches Some(u) ==> owned.contains(u),
    ensures
        all_ours(rendered(gpus, caps, require_cuda, uvm), owned),
        forall|i: int|
            0 <= i < rendered(gpus, caps, require_cuda, uvm).len() ==> text::trim_end(
                #[trigger] rendered(gpus, caps, require_cuda, uvm)[i],
            ) == rendered(gpus, caps, require_cuda, uvm)[i],
{
    if gpus.len() > 0 {
        let r = rendered(gpus, caps, require_cuda, uvm);
        let allows = rendered_allows(gpus, caps, uvm);
        let env = rendered_env(gpus, caps, require_cuda);
        assert forall|i: int| 0 <= i < allows.len() implies good(#[trigger] allows[i], owned) by {
            assert forall|m: u32| good(#[trigger] allow_line(NVIDIA_MAJOR, m), owned) by {
                lemma_allow_line(NVIDIA_MAJOR, m, owned);
            }
            if let Some(u) = uvm {
                lemma_allow_line(u, 0, owned);
                lemma_allow_line(u, 1, owned);
            }
        }
        lemma_hook_line(owned);
        assert forall|i: int| 0 <= i < env.len() implies good(#[trigger] env[i], owned) by {
            lemma_env_lines(gpus, caps, require_cuda, owned);
        }
        assert forall|i: int| 0 <= i < r.len() implies good(#[trigger] r[i], owned) by {
            if i < allows.len() {
                assert(r[i] == allows[i]);
            } else if i > allows.len() {
                assert(r[i] == env[i - allows.len() - 1]);
            }
        }
    }
}

proof fn lemma_env_lines(
    gpus: Seq<Card>,
    caps: Seq<Seq<char>>,
    require_cuda: Option<Seq<char>>,
    owned: Set<u32>,
)
    requires
        gpus.len() > 0,
        renderable(gpus, caps, require_cuda),
    ensures
        forall|i: int|
            0 <= i < rendered_env(gpus, caps, require_cuda).len() ==> good(
                #[trigger] rendered_env(gpus, caps, require_cuda)[i],
                owned,
            ),
{
    reveal_strlit(": ");
    reveal_strlit("NVIDIA_");
    reveal_strlit(": NVIDIA_VISIBLE_DEVICES=");
    reveal_strlit(": NVIDIA_DRIVER_CAPABILITIES=");
    reveal_strlit(": NVIDIA_REQUIRE_CUDA=cuda>=");
    let uuids = gpus.map_values(|g: Card| g.uuid);
    assert forall|i: int| 0 <= i < uuids.len() implies text::tidy(#[trigger] uuids[i]) by {
        assert(text::tidy(gpus[i].uuid));
    }
    lemma_join_tidy(uuids);
    lemma_env_prefix(": NVIDIA_VISIBLE_DEVICES="@);
    lemma_env_line(
        ": NVIDIA_VISIBLE_DEVICES="@,
        ": NVIDIA_VISIBLE_DEVICES="@.skip(2),
        text::join(uuids, ","@),
        owned,
    );
    if caps.len() > 0 {
        lemma_join_tidy(caps);
        lemma_env_prefix(": NVIDIA_DRIVER_CAPABILITIES="@);
        lemma_env_line(
            ": NVIDIA_DRIVER_CAPABILITIES="@,
            ": NVIDIA_DRIVER_CAPABILITIES="@.skip(2),
            text::join(caps, ","@),
            owned,
        );
    }
    if let Some(v) = require_cuda {
        lemma_env_prefix(": NVIDIA_REQUIRE_CUDA=cuda>="@);
        lemma_env_line(
            ": NVIDIA_REQUIRE_CUDA=cuda>="@,
            ": NVIDIA_REQUIRE_CUDA=cuda>="@.skip(2),
            v,
            owned,
        );
    }
}

/// The delimiter and the name of a variable, apart.
proof fn lemma_env_prefix(p: Seq<char>)
    requires
        p.len() >= 9,
        p[0] == ':',
        p[1] == ' ',
        p.subrange(2, 9) =~= "NVIDIA_"@,
        forall|i: int| 0 <= i < p.len() ==> p[i] != '\n',
    ensures
        p == ": "@ + p.skip(2),
        text::starts_with(p.skip(2), "NVIDIA_"@),
        text::one_line(p.skip(2)),
{
    reveal_strlit(": ");
    reveal_strlit("NVIDIA_");
    assert(p =~= ": "@ + p.skip(2));
    assert(p.skip(2).take(7) =~= p.subrange(2, 9));
}

/// A raw key may be spelled `key: value` or `key = value`, with any white
/// space before the `=`: both are the same line, and this tool's or not alike.
pub proof fn law_both_spellings_are_the_same_line(
    key: Seq<char>,
    space: Seq<char>,
    value: Seq<char>,
    owned: Set<u32>,
)
    requires
        is_lxc_key(key),
        text::blank(space),
    ensures
        line_parts(key + ":"@ + value) is Some,
        line_parts(key + ":"@ + value)->Some_0.0 == key,
        line_parts(key + space + "="@ + value) == line_parts(key + ":"@ + value),
        managed(key + space + "="@ + value, owned) == managed(key + ":"@ + value, owned),
{
    reveal(line_parts);
    reveal(managed);
    reveal_strlit(":");
    reveal_strlit("=");
    reveal_strlit("lxc.");
    let v = text::trim_end(value);
    // The one spelling.
    let p = key + ":"@;
    text::lemma_trim_end_after(p, value);
    let l = p + v;
    assert forall|i: int| 0 <= i < key.len() implies is_key_char(#[trigger] l[i]) by {
        assert(l[i] == key[i]);
    }
    lemma_key_len_is(l, key.len());
    assert(l.take(key.len() as int) =~= key);
    assert(l.take(4) =~= key.take(4));
    assert(l.skip(key.len() as int).skip(1) =~= v);
    // The other.
    let q = key + space + "="@;
    text::lemma_trim_end_after(q, value);
    let m = q + v;
    assert forall|i: int| 0 <= i < key.len() implies is_key_char(#[trigger] m[i]) by {
        assert(m[i] == key[i]);
    }
    if space.len() > 0 {
        assert(m[key.len() as int] == space[0]);
        assert(text::is_space(space[0]));
    } else {
        assert(m[key.len() as int] == '=');
    }
    lemma_key_len_is(m, key.len());
    assert(m.take(key.len() as int) =~= key);
    assert(m.take(4) =~= key.take(4));
    let tail = m.skip(key.len() as int);
    assert(tail =~= space + "="@ + v);
    assert forall|i: int| 0 <= i < space.len() implies text::is_space(#[trigger] tail[i]) by {
        assert(tail[i] == space[i]);
    }
    assert(tail[space.len() as int] == '=');
    text::lemma_trim_start_is(tail, space.len());
    let spaced = tail.skip(space.len() as int);
    assert(spaced[0] == '=');
    assert(spaced.skip(1) =~= v);
    assert(tail[0] != ':');
}

// ---------------------------------------------------------------------------
// What a config says beside its managed lines.
// ---------------------------------------------------------------------------

/// The lines of the main section that are not ours, without the blank ones at
/// its end.
pub open spec fn foreign(s: Seq<char>, owned: Set<u32>) -> Seq<Seq<char>> {
    without_trailing_blanks(others(text::lines(main_of(s)), owned))
}

/// A blank line says nothing.
proof fn lemma_blank_line(line: Seq<char>)
    requires
        text::blank(line),
    ensures
        line_parts(line) is None,
{
    reveal(line_parts);
    reveal_strlit("lxc.");
    text::lemma_trim_end_is(line, 0);
    let l = text::trim_end(line);
    assert(l =~= Seq::empty());
    assert(key_len(l) == 0);
    assert(!is_plain_key(l.take(0))) by {
        assert forall|n: int| !#[trigger] plain_key_at(l.take(0), n) by {}
    }
}

/// The key of a managed line is one of three.
proof fn lemma_managed_key(line: Seq<char>, owned: Set<u32>)
    requires
        managed(line, owned),
    ensures
        line_parts(line) is Some,
        ({
            let key = line_parts(line)->Some_0.0;
            key == HOOK_KEY@ || key == ENV_KEY@ || key == ALLOW@
        }),
        !is_nvidia_entry(line),
        forall|m: u32| #[trigger] allows_major(line, m) ==> owned.contains(m),
{
    reveal(managed);
    reveal_strlit("dev");
    lemma_keys();
    reveal_strlit("lxc.");
    let key = line_parts(line)->Some_0.0;
    assert(key.take(4)[0] == 'l');
    if text::starts_with(key, "dev"@) {
        assert(key.take(3)[0] == 'd');
    }
}

proof fn lemma_value_among_add(a: Seq<Seq<char>>, b: Seq<Seq<char>>, key: Seq<char>)
    ensures
        value_among(a + b, key) == match value_among(a, key) {
            Some(v) => Some(v),
            None => value_among(b, key),
        },
    decreases a.len(),
{
    if a.len() == 0 {
        assert(a + b =~= b);
    } else {
        assert((a + b).skip(1) =~= a.skip(1) + b);
        lemma_value_among_add(a.skip(1), b, key);
    }
}

proof fn lemma_value_among_one(l: Seq<char>, key: Seq<char>)
    ensures
        value_among(seq![l], key) == match line_parts(l) {
            Some((k, v)) => if k == key {
                Some(v)
            } else {
                None
            },
            None => None,
        },
{
    assert(seq![l].skip(1) =~= Seq::<Seq<char>>::empty());
    assert(value_among(seq![l].skip(1), key) is None);
}

/// No managed line has a key that is not one of theirs.
proof fn lemma_value_among_others(ls: Seq<Seq<char>>, key: Seq<char>, owned: Set<u32>)
    requires
        key != HOOK_KEY@,
        key != ENV_KEY@,
        key != ALLOW@,
    ensures
        value_among(others(ls, owned), key) == value_among(ls, key),
    decreases ls.len(),
{
    reveal(Seq::filter);
    if ls.len() > 0 {
        let t = ls.drop_last();
        let l = ls.last();
        lemma_value_among_others(t, key, owned);
        assert(ls =~= t + seq![l]);
        lemma_value_among_add(t, seq![l], key);
        lemma_value_among_one(l, key);
        if managed(l, owned) {
            lemma_managed_key(l, owned);
        } else {
            assert(others(ls, owned) =~= others(t, owned) + seq![l]);
            lemma_value_among_add(others(t, owned), seq![l], key);
        }
    }
}

proof fn lemma_value_among_blanks(ls: Seq<Seq<char>>, key: Seq<char>)
    ensures
        value_among(without_trailing_blanks(ls), key) == value_among(ls, key),
    decreases ls.len(),
{
    if ls.len() > 0 && text::blank(ls.last()) {
        let t = ls.drop_last();
        lemma_value_among_blanks(t, key);
        assert(ls =~= t + seq![ls.last()]);
        lemma_value_among_add(t, seq![ls.last()], key);
        lemma_value_among_one(ls.last(), key);
        lemma_blank_line(ls.last());
    }
}

proof fn lemma_entries_among_others(ls: Seq<Seq<char>>, owned: Set<u32>)
    ensures
        nvidia_entries_among(others(ls, owned)) == nvidia_entries_among(ls),
    decreases ls.len(),
{
    reveal(Seq::filter);
    if ls.len() > 0 {
        let t = ls.drop_last();
        let l = ls.last();
        lemma_entries_among_others(t, owned);
        assert(ls =~= t.push(l));
        lemma_nvidia_entries_push(t, l);
        if managed(l, owned) {
            lemma_managed_key(l, owned);
        } else {
            assert(others(ls, owned) =~= others(t, owned).push(l));
            lemma_nvidia_entries_push(others(t, owned), l);
        }
    }
}

proof fn lemma_entries_among_blanks(ls: Seq<Seq<char>>)
    ensures
        nvidia_entries_among(without_trailing_blanks(ls)) == nvidia_entries_among(ls),
    decreases ls.len(),
{
    if ls.len() > 0 && text::blank(ls.last()) {
        let t = ls.drop_last();
        lemma_entries_among_blanks(t);
        assert(ls =~= t.push(ls.last()));
        lemma_nvidia_entries_push(t, ls.last());
        lemma_blank_line(ls.last());
    }
}

/// A major that is not ours is named by the config exactly if one of the lines
/// that are not ours names it.
proof fn lemma_foreign_major(s: Seq<char>, owned: Set<u32>, m: u32)
    requires
        !owned.contains(m),
    ensures
        majors_of(s).contains(m) <==> exists|i: int|
            0 <= i < foreign(s, owned).len() && allows_major(#[trigger] foreign(s, owned)[i], m),
{
    let ls = text::lines(main_of(s));
    let kept = others(ls, owned);
    let body = foreign(s, owned);
    let p = |l: Seq<char>| !managed(l, owned);
    lemma_others_are_lines(ls, owned);
    lemma_without_trailing_blanks(kept);
    if majors_of(s).contains(m) {
        let i = choose|i: int| 0 <= i < ls.len() && allows_major(#[trigger] ls[i], m);
        if managed(ls[i], owned) {
            lemma_managed_key(ls[i], owned);
        }
        ls.lemma_filter_contains(p, i);
        let k = choose|k: int| 0 <= k < kept.len() && kept[k] == ls[i];
        if k >= body.len() {
            lemma_blank_line(kept[k]);
        }
        assert(body[k] == kept[k]);
        assert(allows_major(body[k], m));
    }
    if exists|i: int| 0 <= i < body.len() && allows_major(#[trigger] body[i], m) {
        let i = choose|i: int| 0 <= i < body.len() && allows_major(#[trigger] body[i], m);
        assert(body[i] == kept[i]);
        let k = choose|k: int| 0 <= k < ls.len() && ls[k] == kept[i];
        assert(allows_major(ls[k], m));
    }
}

/// A rule for a major that is ours is a managed line.
pub proof fn lemma_owned_major_is_managed(s: Seq<char>, owned: Set<u32>, m: u32)
    requires
        owned.contains(m),
        majors_of(s).contains(m),
    ensures
        managed_of(s, owned).len() > 0,
{
    reveal(managed);
    lemma_keys();
    let ls = text::lines(main_of(s));
    let i = choose|i: int| 0 <= i < ls.len() && allows_major(#[trigger] ls[i], m);
    let p = |l: Seq<char>| managed(l, owned);
    assert(managed(ls[i], owned));
    ls.lemma_filter_contains(p, i);
    assert(ours(ls, owned).contains(ls[i]));
}

/// Whatever a config says beside its managed lines, it still says after
/// splicing: every value, every `devN:` entry, and every rule for a major that
/// is not ours.
pub proof fn law_splice_keeps_what_is_said(s: Seq<char>, desired: Seq<Seq<char>>, owned: Set<u32>)
    requires
        all_ours(desired, owned),
    ensures
        forall|key: Seq<char>|
            key != HOOK_KEY@ && key != ENV_KEY@ && key != ALLOW@ ==> #[trigger] value_in(
                spliced(s, desired, owned),
                key,
            ) == value_in(s, key),
        unprivileged(spliced(s, desired, owned)) == unprivileged(s),
        nvidia_entries(spliced(s, desired, owned)) == nvidia_entries(s),
        forall|m: u32|
            !owned.contains(m) ==> (#[trigger] majors_of(spliced(s, desired, owned)).contains(m)
                <==> majors_of(s).contains(m)),
{
    let r = spliced(s, desired, owned);
    let a = text::lines(main_of(s));
    let b = text::lines(main_of(r));
    law_splice_keeps_the_rest(s, desired, owned);
    assert(foreign(r, owned) == foreign(s, owned));
    assert forall|key: Seq<char>|
        key != HOOK_KEY@ && key != ENV_KEY@ && key != ALLOW@ implies #[trigger] value_in(r, key)
        == value_in(s, key) by {
        lemma_value_among_others(a, key, owned);
        lemma_value_among_blanks(others(a, owned), key);
        lemma_value_among_others(b, key, owned);
        lemma_value_among_blanks(others(b, owned), key);
    }
    assert(unprivileged(r) == unprivileged(s)) by {
        reveal_strlit("unprivileged");
        reveal_strlit("lxc.idmap");
        reveal_strlit("lxc.cgroup2.devices.allow");
        reveal_strlit("lxc.hook.mount");
        reveal_strlit("lxc.environment");
        assert("unprivileged"@.len() == 12);
        assert("lxc.idmap"@.len() == 9);
        assert(HOOK_KEY@.len() == 14 && ENV_KEY@.len() == 15 && ALLOW@.len() == 25);
        assert(value_in(r, "unprivileged"@) == value_in(s, "unprivileged"@));
        assert(value_in(r, "lxc.idmap"@) == value_in(s, "lxc.idmap"@));
    }
    lemma_entries_among_others(a, owned);
    lemma_entries_among_blanks(others(a, owned));
    lemma_entries_among_others(b, owned);
    lemma_entries_among_blanks(others(b, owned));
    assert forall|m: u32| !owned.contains(m) implies (#[trigger] majors_of(r).contains(m)
        <==> majors_of(s).contains(m)) by {
        lemma_foreign_major(s, owned, m);
        lemma_foreign_major(r, owned, m);
    }
}

} // verus!
