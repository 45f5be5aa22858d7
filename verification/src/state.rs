//! What this node remembers about its own writes, under
//! `/var/lib/pve-meta-nvidia`: which guests it wrote managed lines into
//! (`managed/<vmid>`, one empty file each) and the `nvidia-uvm` majors it last
//! wrote lines with (`uvm-major`).
//!
//! Both answer questions the store cannot. **Which guests**: a document with
//! no `gpu` key is either a container this tool wrote lines into whose key was
//! removed, or one a human configured by hand and this tool must not touch.
//! **Which major**: `nvidia-uvm`'s is dynamic, so replacing last boot's rule
//! means knowing which one it was, rather than guessing "a major nobody
//! claims" and deleting somebody else's rule for an unloaded device.
//!
//! It removes nothing on its own and reads nothing of the store. It answers an
//! ownership question about a **host** file, the container's config, so it
//! lives on the host, beside the file it is about, and a vmid leaves it when
//! the guest is no longer one of this node's containers.

use std::collections::BTreeSet;

use vstd::prelude::*;
use vstd::std_specs::iter::IteratorSpec;

use crate::file::{File, FileView};
use crate::node::{ascending, is_among, put_in_order};
use crate::text;

verus! {

broadcast use {vstd::std_specs::btree::group_btree_axioms, vstd::laws_cmp::group_laws_cmp};

/// Where the record lives. `StateDirectory=` in the unit creates it.
pub const DIR: &'static str = "/var/lib/pve-meta-nvidia";

/// How many `nvidia-uvm` majors are remembered, newest first. Two: this
/// boot's and the one before it, which is what a guest that missed the pass
/// where the major changed still carries. More generations would only widen
/// the window in which a major that has since been given to another device
/// looks like one of ours.
pub const UVM_KEPT: usize = 2;

/// The record: where it lives.
#[derive(Debug)]
pub struct Record {
    dir: String,
}

impl View for Record {
    type V = Seq<char>;

    closed spec fn view(&self) -> Seq<char> {
        self.dir@
    }
}

impl Default for Record {
    fn default() -> (r: Record)
        ensures
            r@ == DIR@,
    {
        Record { dir: DIR.to_owned() }
    }
}

/// What listing the record gave.
#[derive(Debug)]
pub enum Listing {
    /// It was never created.
    Missing,
    /// It is there and cannot be listed, and why.
    Failed(String),
    /// The names in it, as far as they are text, or why the listing broke off.
    Names(Vec<Result<Option<String>, String>>),
}

/// What a name in the record says, or why there is none.
pub open spec fn name_view(r: Result<Option<String>, String>) -> Result<
    Option<Seq<char>>,
    Seq<char>,
> {
    match r {
        Ok(n) => Ok(text::opt_text(n)),
        Err(e) => Err(e@),
    }
}

/// The vmid a name in the record stands for.
pub open spec fn vmid_of(name: Option<Seq<char>>) -> Option<u32> {
    match name {
        Some(n) => text::parse_u32(n),
        None => None,
    }
}

/// Whether one of the names stands for a vmid.
pub open spec fn names_vmid(names: Seq<Result<Option<String>, String>>, vmid: u32) -> bool {
    exists|i: int|
        0 <= i < names.len() && (name_view(#[trigger] names[i]) matches Ok(n) && vmid_of(n) == Some(
            vmid,
        ))
}

/// The position of the first error among the names, or their number.
pub open spec fn first_error(names: Seq<Result<Option<String>, String>>) -> nat
    decreases names.len(),
{
    if names.len() == 0 || names[0] is Err {
        0
    } else {
        1 + first_error(names.skip(1))
    }
}

/// What a change of the record takes.
#[derive(Debug)]
pub enum Change {
    /// Nothing: it already says so.
    Nothing,
    /// Make the directory, then the empty file.
    Create(String, String),
    /// Remove the file; that there is none is as good.
    Remove(String),
}

/// What a [`Change`] says.
pub enum ChangeView {
    Nothing,
    Create(Seq<char>, Seq<char>),
    Remove(Seq<char>),
}

impl View for Change {
    type V = ChangeView;

    open spec fn view(&self) -> ChangeView {
        match self {
            Change::Nothing => ChangeView::Nothing,
            Change::Create(dir, path) => ChangeView::Create(dir@, path@),
            Change::Remove(path) => ChangeView::Remove(path@),
        }
    }
}

/// What it takes to record that `vmid` carries managed lines, or that it does
/// not; `exists` is whether the record says so now.
pub open spec fn change_for(dir: Seq<char>, vmid: u32, managed: bool, exists: bool) -> ChangeView {
    if !managed {
        ChangeView::Remove(path_of(dir, vmid))
    } else if exists {
        ChangeView::Nothing
    } else {
        ChangeView::Create(managed_of(dir), path_of(dir, vmid))
    }
}

/// The directory of the managed guests.
pub open spec fn managed_of(dir: Seq<char>) -> Seq<char> {
    dir + "/managed"@
}

/// The file that says that a guest is managed.
pub open spec fn path_of(dir: Seq<char>, vmid: u32) -> Seq<char> {
    managed_of(dir) + "/"@ + text::decimal(vmid as nat)
}

/// The file that holds the majors.
pub open spec fn uvm_of(dir: Seq<char>) -> Seq<char> {
    dir + "/uvm-major"@
}

/// The numbers among the lines, in their order.
pub open spec fn numbers(ls: Seq<Seq<char>>) -> Seq<u32>
    decreases ls.len(),
{
    if ls.len() == 0 {
        Seq::empty()
    } else {
        let before = numbers(ls.drop_last());
        match text::parse_u32(text::trim(ls.last())) {
            Some(n) => before.push(n),
            None => before,
        }
    }
}

/// At most the first `n` of `s`.
pub open spec fn at_most(s: Seq<u32>, n: nat) -> Seq<u32> {
    if s.len() <= n {
        s
    } else {
        s.take(n as int)
    }
}

/// The majors a file holds: its first lines that are numbers.
pub open spec fn majors_in(s: Seq<char>) -> Seq<u32> {
    at_most(numbers(text::lines(s)), UVM_KEPT as nat)
}

/// What reading the majors gives: none where there is no file; a file that is
/// there and cannot be read is an error.
pub open spec fn majors_read(dir: Seq<char>, file: FileView) -> Result<Seq<u32>, Seq<char>> {
    match file {
        FileView::Text(s) => Ok(majors_in(s)),
        FileView::Missing => Ok(Seq::empty()),
        FileView::Failed(e) => Err("cannot read "@ + uvm_of(dir) + ": "@ + e),
    }
}

/// `s` without `major`.
pub open spec fn without(s: Seq<u32>, major: u32) -> Seq<u32> {
    s.filter(|m: u32| m != major)
}

/// The majors after one more was used: it comes first, once, and only the
/// newest are kept.
pub open spec fn remembered(known: Seq<u32>, major: u32) -> Seq<u32> {
    if known.len() > 0 && known[0] == major {
        known
    } else {
        at_most(seq![major] + without(known, major), UVM_KEPT as nat)
    }
}

/// The file that holds these majors.
pub open spec fn majors_text(majors: Seq<u32>) -> Seq<char> {
    text::unlines(majors.map_values(|m: u32| text::decimal(m as nat)))
}

impl Record {
    /// The record at `dir`.
    pub fn at(dir: String) -> (r: Record)
        ensures
            r@ == dir@,
    {
        Record { dir }
    }

    /// Where the record is.
    pub fn dir(&self) -> (r: &str)
        ensures
            r@ == self@,
    {
        self.dir.as_str()
    }

    /// The directory of the managed guests.
    pub fn managed_dir(&self) -> (r: String)
        ensures
            r@ == managed_of(self@),
    {
        self.dir.clone().concat("/managed")
    }

    /// The file that says that `vmid` is managed: this node wrote managed
    /// lines into its config.
    pub fn path(&self, vmid: u32) -> (r: String)
        ensures
            r@ == path_of(self@, vmid),
    {
        self.managed_dir().concat("/").concat(text::decimal_of(vmid as u64).as_str())
    }

    /// Every vmid recorded. A directory that is there and cannot be listed is
    /// an error, never an empty record: an empty one would make every managed
    /// guest look hand-configured. A directory that was never created is the
    /// empty record it says it is.
    pub fn all(&self, listing: Listing) -> (r: Result<BTreeSet<u32>, String>)
        ensures
            match listing {
                Listing::Missing => r is Ok && r->Ok_0@ == Set::<u32>::empty(),
                Listing::Failed(e) => r is Err && r->Err_0@ == "cannot list "@ + managed_of(self@)
                    + ": "@ + e@,
                Listing::Names(names) => if first_error(names@) < names@.len() {
                    r is Err && r->Err_0@ == "cannot list "@ + managed_of(self@) + ": "@
                        + names@[first_error(names@) as int]->Err_0@
                } else {
                    r is Ok && forall|v: u32| #[trigger]
                        r->Ok_0@.contains(v) <==> names_vmid(names@, v)
                },
            },
    {
        let names = match listing {
            Listing::Missing => {
                return Ok(BTreeSet::new());
            },
            Listing::Failed(e) => {
                return Err(
                    "cannot list ".to_owned().concat(self.managed_dir().as_str()).concat(
                        ": ",
                    ).concat(e.as_str()),
                );
            },
            Listing::Names(names) => names,
        };
        let mut out: BTreeSet<u32> = BTreeSet::new();
        let mut i: usize = 0;
        proof {
            assert(names@.skip(0) =~= names@);
        }
        while i < names.len()
            invariant
                i <= names@.len(),
                listing == Listing::Names(names),
                first_error(names@) == i + first_error(names@.skip(i as int)),
                forall|v: u32| #[trigger]
                    out@.contains(v) <==> exists|j: int|
                        0 <= j < i && (name_view(#[trigger] names@[j]) matches Ok(n) && vmid_of(n)
                            == Some(v)),
            decreases names.len() - i,
        {
            let ghost before = out@;
            proof {
                assert(names@.skip(i as int)[0] == names@[i as int]);
                assert(names@.skip(i as int).skip(1) =~= names@.skip(i + 1));
            }
            match &names[i] {
                Err(e) => {
                    return Err(
                        "cannot list ".to_owned().concat(self.managed_dir().as_str()).concat(
                            ": ",
                        ).concat(e.as_str()),
                    );
                },
                Ok(Some(name)) => {
                    if let Some(vmid) = text::u32_of(name.as_str()) {
                        out.insert(vmid);
                    }
                },
                Ok(None) => {},
            }
            proof {
                assert forall|v: u32| #[trigger] out@.contains(v) <==> before.contains(v) || (
                name_view(names@[i as int]) matches Ok(n) && vmid_of(n) == Some(v)) by {}
            }
            i += 1;
        }
        Ok(out)
    }

    /// What it takes to record that `vmid` carries managed lines, or that it
    /// does not; `exists` is whether the record says so now.
    ///
    /// The caller sets it **before** writing lines and clears it **after**
    /// removing them, so the record is true whenever the config might carry
    /// lines: a record without lines is a no-op, lines without a record are
    /// orphans.
    pub fn set(&self, vmid: u32, managed: bool, exists: bool) -> (r: Change)
        ensures
            r@ == change_for(self@, vmid, managed, exists),
    {
        if managed {
            if exists {
                Change::Nothing
            } else {
                Change::Create(self.managed_dir(), self.path(vmid))
            }
        } else {
            Change::Remove(self.path(vmid))
        }
    }

    /// The vmids to forget, in order: every one recorded that is not one of
    /// this node's containers.
    pub fn retain(&self, recorded: &BTreeSet<u32>, local: &[u32]) -> (r: Vec<u32>)
        ensures
            ascending(r@),
            forall|v: u32| #[trigger]
                r@.contains(v) <==> recorded@.contains(v) && !local@.contains(v),
    {
        stale(recorded, local)
    }

    /// The file that holds the majors.
    pub fn uvm_path(&self) -> (r: String)
        ensures
            r@ == uvm_of(self@),
    {
        self.dir.clone().concat("/uvm-major")
    }

    /// The `nvidia-uvm` majors this node has written lines with, newest
    /// first. Read once per pass, never per guest.
    ///
    /// A list, not a value: a guest that misses the pass where the major
    /// changes keeps last boot's rule, and one remembered major later that
    /// rule would belong to nobody and stay for good. [`UVM_KEPT`] of them
    /// are kept.
    ///
    /// A file that cannot be read is an **error**, not an empty list. Losing
    /// it costs twice: an old rule stops being owned, so it is left behind
    /// beside the new one and nothing will ever clean it up, and the next
    /// write starts the list again. The caller says so once and carries on
    /// with what it has.
    pub fn uvm_majors(&self, file: File) -> (r: Result<Vec<u32>, String>)
        ensures
            match r {
                Ok(v) => majors_read(self@, file@) == Ok::<Seq<u32>, Seq<char>>(v@),
                Err(e) => majors_read(self@, file@) == Err::<Seq<u32>, Seq<char>>(e@),
            },
    {
        let s = match file {
            File::Text(s) => s,
            File::Missing => {
                let none: Vec<u32> = Vec::new();
                proof {
                    assert(none@ =~= Seq::<u32>::empty());
                }
                return Ok(none);
            },
            File::Failed(e) => {
                return Err(
                    "cannot read ".to_owned().concat(self.uvm_path().as_str()).concat(": ").concat(
                        e.as_str(),
                    ),
                );
            },
        };
        let ls = text::lines_of(s.as_str());
        let ghost all = text::views(ls@);
        let mut out: Vec<u32> = Vec::new();
        let mut i: usize = 0;
        while i < ls.len()
            invariant
                i <= ls@.len(),
                all == text::views(ls@),
                out@ == numbers(all.take(i as int)),
            decreases ls.len() - i,
        {
            proof {
                text::lemma_views(ls@);
                assert(all.take(i + 1).last() == ls@[i as int]@);
                assert(all.take(i + 1).drop_last() =~= all.take(i as int));
            }
            if let Some(n) = text::u32_of(text::trimmed(ls[i])) {
                out.push(n);
            }
            i += 1;
        }
        proof {
            assert(all.take(all.len() as int) =~= all);
        }
        if out.len() > UVM_KEPT {
            out.truncate(UVM_KEPT);
            proof {
                assert(out@ =~= numbers(all).take(UVM_KEPT as int));
            }
        }
        Ok(out)
    }

    /// The file to be written, through a temporary sibling and a rename, to
    /// remember the major the lines being written carry, newest first; `None`
    /// when it is the newest already. `known` is what this pass already read,
    /// so a pass does not read the file again for every guest.
    pub fn remember_uvm(&self, known: &[u32], major: u32) -> (r: Option<String>)
        ensures
            match r {
                Some(s) => !(known@.len() > 0 && known@[0] == major) && s@ == majors_text(
                    remembered(known@, major),
                ),
                None => known@.len() > 0 && known@[0] == major,
            },
    {
        if known.len() > 0 && known[0] == major {
            return None;
        }
        let majors = newest_first(known, major);
        Some(lines_of(&majors))
    }
}

/// The recorded vmids that are not local.
fn stale(recorded: &BTreeSet<u32>, local: &[u32]) -> (r: Vec<u32>)
    ensures
        ascending(r@),
        forall|v: u32| #[trigger] r@.contains(v) <==> recorded@.contains(v) && !local@.contains(v),
{
    let mut out: Vec<u32> = Vec::new();
    let entries = recorded.iter();
    let ghost all = entries.remaining();
    proof {
        assert(all.unref().to_set() == recorded@);
        assert forall|v: u32| #[trigger] recorded@.contains(v) <==> exists|j: int|
            0 <= j < all.len() && *#[trigger] all[j] == v by {
            assert(recorded@.contains(v) <==> all.unref().contains(v));
            if all.unref().contains(v) {
                let j = choose|j: int| 0 <= j < all.len() && all.unref()[j] == v;
                assert(*all[j] == v);
            }
            if exists|j: int| 0 <= j < all.len() && *#[trigger] all[j] == v {
                let j = choose|j: int| 0 <= j < all.len() && *#[trigger] all[j] == v;
                assert(all.unref()[j] == v);
            }
        }
    }
    for e in it: entries
        invariant
            it.seq() == all,
            ascending(out@),
            forall|v: u32| #[trigger]
                out@.contains(v) <==> exists|j: int|
                    0 <= j < it.index() && *#[trigger] all[j] == v && !local@.contains(v),
    {
        let vmid: u32 = *e;
        let ghost before = out@;
        if !is_among(local, vmid) {
            put_in_order(&mut out, vmid);
        }
        proof {
            assert(*all[it.index()] == vmid);
            assert forall|v: u32| #[trigger] out@.contains(v) <==> before.contains(v) || (v == vmid
                && !local@.contains(v)) by {}
        }
    }
    out
}

proof fn lemma_without_push(s: Seq<u32>, next: u32, major: u32)
    ensures
        without(s.push(next), major) == if next != major {
            without(s, major).push(next)
        } else {
            without(s, major)
        },
{
    reveal(Seq::filter);
    assert(s.push(next).drop_last() =~= s);
}

/// The majors after one more was used.
fn newest_first(known: &[u32], major: u32) -> (r: Vec<u32>)
    ensures
        r@ == at_most(seq![major] + without(known@, major), UVM_KEPT as nat),
{
    let mut out: Vec<u32> = Vec::new();
    out.push(major);
    let mut i: usize = 0;
    proof {
        reveal(Seq::filter);
        assert(out@ =~= seq![major] + without(known@.take(0), major));
    }
    while i < known.len()
        invariant
            i <= known@.len(),
            out@ == seq![major] + without(known@.take(i as int), major),
        decreases known.len() - i,
    {
        let m: u32 = known[i];
        let ghost before = out@;
        proof {
            assert(known@.take(i + 1) =~= known@.take(i as int).push(m));
            lemma_without_push(known@.take(i as int), m, major);
        }
        if m != major {
            out.push(m);
            proof {
                assert(out@ =~= seq![major] + without(known@.take(i + 1), major));
            }
        }
        i += 1;
    }
    proof {
        assert(known@.take(known@.len() as int) =~= known@);
    }
    if out.len() > UVM_KEPT {
        let ghost all = out@;
        out.truncate(UVM_KEPT);
        proof {
            assert(out@ =~= all.take(UVM_KEPT as int));
        }
    }
    out
}

/// One line per major.
fn lines_of(majors: &Vec<u32>) -> (r: String)
    ensures
        r@ == majors_text(majors@),
{
    let ghost all = majors@.map_values(|m: u32| text::decimal(m as nat));
    let mut out = String::new();
    let mut i: usize = 0;
    proof {
        reveal_strlit("\n");
        assert(out@ =~= text::unlines(all.take(0)));
    }
    while i < majors.len()
        invariant
            i <= majors@.len(),
            all == majors@.map_values(|m: u32| text::decimal(m as nat)),
            "\n"@ == seq!['\n'],
            out@ == text::unlines(all.take(i as int)),
        decreases majors.len() - i,
    {
        let ghost before = out@;
        out.append(text::decimal_of(majors[i] as u64).as_str());
        out.append("\n");
        proof {
            text::lemma_unlines_push(all.take(i as int), all[i as int]);
            assert(all.take(i + 1) =~= all.take(i as int).push(all[i as int]));
            assert(out@ =~= before + all[i as int].push('\n'));
        }
        i += 1;
    }
    proof {
        assert(all.take(all.len() as int) =~= all);
    }
    out
}

/// The majors are remembered newest first: the one just used leads, none is
/// there twice, none that was not used appears, and only so many are kept.
pub proof fn law_majors_are_newest_first_and_bounded(known: Seq<u32>, major: u32)
    requires
        known.len() <= UVM_KEPT,
        known.no_duplicates(),
    ensures
        remembered(known, major).len() <= UVM_KEPT,
        remembered(known, major)[0] == major,
        remembered(known, major).no_duplicates(),
        forall|m: u32| #[trigger]
            remembered(known, major).contains(m) ==> m == major || known.contains(m),
{
    if !(known.len() > 0 && known[0] == major) {
        let p = |m: u32| m != major;
        let rest = without(known, major);
        let all = seq![major] + rest;
        let r = remembered(known, major);
        lemma_without(known, major);
        assert forall|i: int| 0 <= i < r.len() implies r[i] == all[i] by {}
        assert forall|m: u32| #[trigger] r.contains(m) implies m == major || known.contains(m) by {
            let i = choose|i: int| 0 <= i < r.len() && r[i] == m;
            if i > 0 {
                assert(rest[i - 1] == m);
                assert(rest.contains(m));
            }
        }
        assert forall|i: int, j: int| 0 <= i < r.len() && 0 <= j < r.len() && i != j implies r[i]
            != r[j] by {
            if i > 0 && j > 0 {
                assert(rest[i - 1] != rest[j - 1]);
            } else if i > 0 {
                assert(rest.contains(rest[i - 1]));
            } else {
                assert(rest.contains(rest[j - 1]));
            }
        }
    }
}

proof fn lemma_without(s: Seq<u32>, major: u32)
    requires
        s.no_duplicates(),
    ensures
        without(s, major).no_duplicates(),
        forall|m: u32| #[trigger] without(s, major).contains(m) ==> s.contains(m) && m != major,
    decreases s.len(),
{
    reveal(Seq::filter);
    if s.len() > 0 {
        let t = s.drop_last();
        lemma_without(t, major);
        assert forall|m: u32| #[trigger] without(s, major).contains(m) implies s.contains(m) && m
            != major by {
            let w = without(s, major);
            let i = choose|i: int| 0 <= i < w.len() && w[i] == m;
            if i < without(t, major).len() {
                assert(without(t, major).contains(m));
                let k = choose|k: int| 0 <= k < t.len() && t[k] == m;
                assert(s[k] == m);
            } else {
                assert(s[s.len() - 1] == m);
            }
        }
        if s.last() != major {
            assert(!t.contains(s.last())) by {
                if t.contains(s.last()) {
                    let k = choose|k: int| 0 <= k < t.len() && t[k] == s.last();
                    assert(s[k] == s[s.len() - 1]);
                }
            }
            let w = without(t, major);
            assert forall|i: int, j: int|
                0 <= i < w.push(s.last()).len() && 0 <= j < w.push(s.last()).len() && i
                    != j implies w.push(s.last())[i] != w.push(s.last())[j] by {
                if i == w.len() {
                    assert(w.contains(w[j]));
                } else if j == w.len() {
                    assert(w.contains(w[i]));
                }
            }
        }
    }
}

/// Whether a name is in a listing.
pub open spec fn lists(names: Seq<Result<Option<String>, String>>, n: Option<Seq<char>>) -> bool {
    exists|i: int|
        0 <= i < names.len() && name_view(#[trigger] names[i]) == Ok::<Option<Seq<char>>, Seq<char>>(
            n,
        )
}

/// Whether every vmid in a listing is spelled as the record spells it. (A stray
/// file such as `007` stands for a vmid and is not that vmid's file.)
pub open spec fn spelled_plainly(names: Seq<Result<Option<String>, String>>) -> bool {
    forall|n: Option<Seq<char>>, v: u32|
        #![trigger lists(names, n), text::decimal(v as nat)]
        lists(names, n) && vmid_of(n) == Some(v) ==> n == Some(text::decimal(v as nat))
}

/// Whether `after` lists what `names` does without the files of `gone`.
pub open spec fn listed_without(
    names: Seq<Result<Option<String>, String>>,
    gone: Seq<u32>,
    after: Seq<Result<Option<String>, String>>,
) -> bool {
    forall|n: Option<Seq<char>>| #[trigger]
        lists(after, n) <==> lists(names, n) && !exists|v: u32|
            gone.contains(v) && n == Some(#[trigger] text::decimal(v as nat))
}

proof fn lemma_names_vmid(names: Seq<Result<Option<String>, String>>, v: u32)
    ensures
        names_vmid(names, v) <==> exists|n: Option<Seq<char>>| #[trigger]
            lists(names, n) && vmid_of(n) == Some(v),
{
    if names_vmid(names, v) {
        let i = choose|i: int|
            0 <= i < names.len() && (name_view(#[trigger] names[i]) matches Ok(n) && vmid_of(n)
                == Some(v));
        let n = name_view(names[i])->Ok_0;
        assert(lists(names, n));
    }
    if exists|n: Option<Seq<char>>| #[trigger] lists(names, n) && vmid_of(n) == Some(v) {
        let n = choose|n: Option<Seq<char>>| #[trigger] lists(names, n) && vmid_of(n) == Some(v);
        let i = choose|i: int|
            0 <= i < names.len() && name_view(#[trigger] names[i]) == Ok::<
                Option<Seq<char>>,
                Seq<char>,
            >(n);
        assert(name_view(names[i]) matches Ok(m) && vmid_of(m) == Some(v));
    }
}

/// Once the guests that [`Record::retain`] names were taken out, by removing
/// the file of each, the record holds exactly the recorded guests that are
/// local: nothing is added, and no local guest is dropped. The majors are as
/// they were: none of the files is theirs.
pub proof fn law_forgetting_keeps_the_local_guests(
    dir: Seq<char>,
    names: Seq<Result<Option<String>, String>>,
    local: Seq<u32>,
    gone: Seq<u32>,
    after: Seq<Result<Option<String>, String>>,
)
    requires
        spelled_plainly(names),
        forall|v: u32| #[trigger]
            gone.contains(v) <==> names_vmid(names, v) && !local.contains(v),
        listed_without(names, gone, after),
    ensures
        forall|v: u32| #[trigger]
            names_vmid(after, v) <==> names_vmid(names, v) && local.contains(v),
        forall|v: u32| #[trigger] path_of(dir, v) != uvm_of(dir),
{
    assert forall|v: u32| #[trigger] names_vmid(after, v) <==> names_vmid(names, v)
        && local.contains(v) by {
        lemma_names_vmid(names, v);
        lemma_names_vmid(after, v);
        text::lemma_decimal_parses(v as nat, u32::MAX as nat);
        if names_vmid(after, v) {
            let n = choose|n: Option<Seq<char>>| #[trigger]
                lists(after, n) && vmid_of(n) == Some(v);
            assert(lists(names, n));
            assert(n == Some(text::decimal(v as nat)));
            assert(!gone.contains(v));
        }
        if names_vmid(names, v) && local.contains(v) {
            let n = choose|n: Option<Seq<char>>| #[trigger]
                lists(names, n) && vmid_of(n) == Some(v);
            assert forall|w: u32| gone.contains(w) implies n != Some(
                #[trigger] text::decimal(w as nat),
            ) by {
                text::lemma_decimal_parses(w as nat, u32::MAX as nat);
            }
            assert(lists(after, n));
        }
    }
    assert forall|v: u32| #[trigger] path_of(dir, v) != uvm_of(dir) by {
        reveal_strlit("/managed");
        reveal_strlit("/uvm-major");
        let k = dir.len() as int + 1;
        assert(path_of(dir, v)[k] == 'm');
        assert(uvm_of(dir)[k] == 'u');
    }
}

/// What was remembered is read back.
pub proof fn law_majors_are_read_back(majors: Seq<u32>)
    requires
        majors.len() <= UVM_KEPT,
    ensures
        majors_in(majors_text(majors)) == majors,
{
    let ls = majors.map_values(|m: u32| text::decimal(m as nat));
    assert forall|i: int| 0 <= i < ls.len() implies text::one_line(#[trigger] ls[i]) by {
        text::lemma_decimal(majors[i] as nat);
    }
    text::lemma_lines_of_unlines(ls);
    lemma_numbers(majors);
}

proof fn lemma_numbers(majors: Seq<u32>)
    ensures
        numbers(majors.map_values(|m: u32| text::decimal(m as nat))) == majors,
    decreases majors.len(),
{
    let ls = majors.map_values(|m: u32| text::decimal(m as nat));
    if majors.len() > 0 {
        let t = majors.drop_last();
        lemma_numbers(t);
        assert(ls.drop_last() =~= t.map_values(|m: u32| text::decimal(m as nat)));
        let m = majors.last();
        let d = text::decimal(m as nat);
        assert(ls.last() == d);
        text::lemma_decimal(m as nat);
        text::lemma_decimal_parses(m as nat, u32::MAX as nat);
        assert(text::is_digit(d[0]) && text::is_digit(d[d.len() - 1]));
        text::lemma_trim_start_is(d, 0);
        assert(d.skip(0) =~= d);
        text::lemma_trim_end_is(d, d.len());
        assert(d.take(d.len() as int) =~= d);
        assert(t.push(m) =~= majors);
    } else {
        assert(numbers(ls) =~= majors);
    }
}

} // verus!
