//! What is known of a node beside its cards: its guests, its record, and the
//! commands that are run on it.

use vstd::prelude::*;

use crate::cmd::{
    self, bytes, failure, last_bytes, overdue, quoted, tail_of, turned, width, Child, Said, Turn,
};
use crate::file::FileView;
use crate::json::{self, Json};
use crate::lock::{
    ends_at, lock_of, next_write, sibling, taking, Ended, TakeView, Tried, WriteView,
};
use crate::node::{
    active_vmid, guest_of, guests_in, is_active, is_local, path_of, vmlist_in, vmlist_of, GuestView,
    Kind,
};
use crate::notify::{after_send, pinged, Notifier};
use crate::state::{
    self, change_for, first_error, majors_in, majors_read, names_vmid, numbers, remembered, vmid_of,
    without, ChangeView,
};
use crate::table;
use crate::text;

verus! {

// ---------------------------------------------------------------------------
// The guests of a node.
// ---------------------------------------------------------------------------

/// `ids[i]` is the last member for `vmid`.
pub open spec fn last_for(ids: Seq<(Seq<char>, Json)>, i: int, vmid: u32) -> bool {
    &&& 0 <= i < ids.len()
    &&& text::parse_u32(ids[i].0) == Some(vmid)
    &&& forall|j: int|
        i < j < ids.len() ==> text::parse_u32((#[trigger] ids[j]).0) != Some(vmid)
}

/// A guest is in the vmlist exactly if a member's name is its vmid, and is
/// what the last of them says.
pub proof fn law_which_guests_are_listed(ids: Seq<(Seq<char>, Json)>, vmid: u32)
    ensures
        guests_in(ids).contains_key(vmid) <==> exists|i: int|
            0 <= i < ids.len() && text::parse_u32((#[trigger] ids[i]).0) == Some(vmid),
        forall|i: int| #[trigger]
            last_for(ids, i, vmid) ==> guests_in(ids).contains_key(vmid) && guests_in(ids)[vmid]
                == guest_of(ids[i].1),
    decreases ids.len(),
{
    if ids.len() > 0 {
        let t = ids.drop_last();
        law_which_guests_are_listed(t, vmid);
        let last = ids.last();
        assert(ids[ids.len() - 1] == last);
        if exists|i: int|
            0 <= i < t.len() && text::parse_u32((#[trigger] t[i]).0) == Some(vmid) {
            let i = choose|i: int|
                0 <= i < t.len() && text::parse_u32((#[trigger] t[i]).0) == Some(vmid);
            assert(ids[i] == t[i]);
        }
        if exists|i: int|
            0 <= i < ids.len() && text::parse_u32((#[trigger] ids[i]).0) == Some(vmid) {
            let i = choose|i: int|
                0 <= i < ids.len() && text::parse_u32((#[trigger] ids[i]).0) == Some(vmid);
            if i < t.len() {
                assert(t[i] == ids[i]);
            }
        }
        assert forall|i: int| #[trigger] last_for(ids, i, vmid) implies guests_in(
            ids,
        ).contains_key(vmid) && guests_in(ids)[vmid] == guest_of(ids[i].1) by {
            if i < t.len() {
                assert(t[i] == ids[i]);
                assert forall|j: int| i < j < t.len() implies text::parse_u32(
                    (#[trigger] t[j]).0,
                ) != Some(vmid) by {
                    assert(t[j] == ids[j]);
                }
                assert(last_for(t, i, vmid));
            }
        }
    }
}

/// `m` has a member `name`, the first of that name, which is the text `v`.
pub open spec fn text_member(m: Seq<(Seq<char>, Json)>, name: Seq<char>, v: Seq<char>) -> bool {
    exists|i: int|
        #![trigger m[i]]
        0 <= i < m.len() && m[i] == (name, Json::Text(v)) && forall|j: int|
            0 <= j < i ==> (#[trigger] m[j]).0 != name
}

proof fn lemma_text_member(m: Seq<(Seq<char>, Json)>, name: Seq<char>, v: Seq<char>)
    ensures
        text_member(m, name, v) <==> json::string(json::member(Json::Object(m), name)) == Some(v),
{
    table::lemma_position(m, name);
    let p = table::position(m, name) as int;
    if text_member(m, name, v) {
        let i = choose|i: int|
            #![trigger m[i]]
            0 <= i < m.len() && m[i] == (name, Json::Text(v)) && forall|j: int|
                0 <= j < i ==> (#[trigger] m[j]).0 != name;
        table::lemma_position_is(m, name, i as nat);
    }
    if json::string(json::member(Json::Object(m), name)) == Some(v) {
        assert(m[p].0 == name);
        assert(m[p] == (name, Json::Text(v)));
    }
}

/// An entry of the vmlist is a container exactly if its type is `lxc`, and is
/// on the node it names.
pub proof fn law_what_a_guest_is(m: Seq<(Seq<char>, Json)>, v: Seq<char>)
    ensures
        guest_of(Json::Object(m)).kind == Kind::Lxc <==> text_member(m, "type"@, "lxc"@),
        guest_of(Json::Object(m)).kind == Kind::Qemu <==> text_member(m, "type"@, "qemu"@),
        text_member(m, "node"@, v) ==> guest_of(Json::Object(m)).node == v,
        v.len() > 0 ==> (guest_of(Json::Object(m)).node == v <==> text_member(m, "node"@, v)),
{
    reveal_strlit("lxc");
    reveal_strlit("qemu");
    assert("lxc"@.len() == 3 && "qemu"@.len() == 4);
    lemma_text_member(m, "type"@, "lxc"@);
    lemma_text_member(m, "type"@, "qemu"@);
    lemma_text_member(m, "node"@, v);
}

/// A vmlist is one exactly if it has an object of ids, and is local to a node
/// exactly the containers that are on it.
pub proof fn law_which_guests_are_local(
    t: Json,
    guests: Map<u32, GuestView>,
    node: Seq<char>,
    vmid: u32,
)
    ensures
        vmlist_of(t) is Ok <==> (t matches Json::Object(m) && (json::member(t, "ids"@) matches Some(
            ids,
        ) && ids is Object)),
        vmlist_of(t) is Ok ==> vmlist_of(t)->Ok_0 == guests_in(
            json::member(t, "ids"@)->Some_0->Object_0,
        ),
        is_local(guests, node, vmid) <==> guests.contains_key(vmid) && guests[vmid].kind
            == Kind::Lxc && guests[vmid].node == node,
{
}

/// A text is a vmlist exactly if it can be read and has one.
pub proof fn law_which_texts_are_vmlists(t: Json, e: Seq<char>)
    ensures
        vmlist_in(Ok(t)) == vmlist_of(t),
        vmlist_in(Err(e)) == Err::<Map<u32, GuestView>, Seq<char>>("the vmlist is not JSON: "@ + e),
        vmlist_of(t) is Err ==> vmlist_of(t) == Err::<Map<u32, GuestView>, Seq<char>>(
            "the vmlist has no ids"@,
        ),
{
}

/// A container runs exactly if one of the lines is its command socket's.
pub proof fn law_a_running_container_has_a_line(s: Seq<char>, vmid: u32)
    ensures
        is_active(s, vmid) <==> exists|i: int, n: Seq<char>|
            #![trigger text::words(text::lines(s)[i]), ("@/var/lib/lxc/"@ + n + "/command"@)]
            0 <= i < text::lines(s).len() && text::words(text::lines(s)[i]).len() > 0
                && text::words(text::lines(s)[i]).last() == "@/var/lib/lxc/"@ + n + "/command"@
                && text::parse_u32(n) == Some(vmid),
{
    let ls = text::lines(s);
    if is_active(s, vmid) {
        let i = choose|i: int| 0 <= i < ls.len() && active_vmid(#[trigger] ls[i]) == Some(vmid);
        law_which_containers_run(ls[i], vmid);
        let n = choose|n: Seq<char>|
            text::words(ls[i]).last() == #[trigger] ("@/var/lib/lxc/"@ + n + "/command"@)
                && text::parse_u32(n) == Some(vmid);
        assert(text::words(ls[i]).last() == "@/var/lib/lxc/"@ + n + "/command"@);
    }
    if exists|i: int, n: Seq<char>|
        #![trigger text::words(ls[i]), ("@/var/lib/lxc/"@ + n + "/command"@)]
        0 <= i < ls.len() && text::words(ls[i]).len() > 0 && text::words(ls[i]).last()
            == "@/var/lib/lxc/"@ + n + "/command"@ && text::parse_u32(n) == Some(vmid) {
        let (i, n) = choose|i: int, n: Seq<char>|
            #![trigger text::words(ls[i]), ("@/var/lib/lxc/"@ + n + "/command"@)]
            0 <= i < ls.len() && text::words(ls[i]).len() > 0 && text::words(ls[i]).last()
                == "@/var/lib/lxc/"@ + n + "/command"@ && text::parse_u32(n) == Some(vmid);
        law_which_containers_run(ls[i], vmid);
        assert(active_vmid(ls[i]) == Some(vmid));
    }
}

/// A line is the command socket of a running container exactly if its last
/// word is the path of one.
pub proof fn law_which_containers_run(line: Seq<char>, vmid: u32)
    ensures
        active_vmid(line) == Some(vmid) <==> text::words(line).len() > 0 && exists|n: Seq<char>|
            text::words(line).last() == #[trigger] ("@/var/lib/lxc/"@ + n + "/command"@)
                && text::parse_u32(n) == Some(vmid),
{
    reveal_strlit("@/var/lib/lxc/");
    reveal_strlit("/command");
    let a = "@/var/lib/lxc/"@;
    let b = "/command"@;
    let w = text::words(line);
    if w.len() > 0 {
        let l = w.last();
        if active_vmid(line) == Some(vmid) {
            let p = l.skip(a.len() as int);
            let n = p.take(p.len() - b.len());
            assert(l =~= l.take(a.len() as int) + p);
            assert(p =~= n + p.skip(p.len() - b.len()));
            assert(l =~= a + n + b);
        }
        if exists|n: Seq<char>| l == #[trigger] (a + n + b) && text::parse_u32(n) == Some(vmid) {
            let n = choose|n: Seq<char>|
                l == #[trigger] (a + n + b) && text::parse_u32(n) == Some(vmid);
            assert(l.take(a.len() as int) =~= a);
            let p = l.skip(a.len() as int);
            assert(p =~= n + b);
            assert(p.skip(p.len() - b.len()) =~= b);
            assert(p.take(p.len() - b.len()) =~= n);
        }
    }
}

/// No two guests share a config, a lock or a place in the record.
pub proof fn law_every_guest_has_its_own_files(
    node: Seq<char>,
    dir: Seq<char>,
    path: Seq<char>,
    pid: u32,
    a: u32,
    b: u32,
)
    requires
        a != b,
    ensures
        path_of(node, a) != path_of(node, b),
        lock_of(dir, a) != lock_of(dir, b),
        state::path_of(dir, a) != state::path_of(dir, b),
        path_of(node, a) == "/etc/pve/nodes/"@ + node + "/lxc/"@ + text::decimal(a as nat)
            + ".conf"@,
        lock_of(dir, a) == dir + "/pve-config-"@ + text::decimal(a as nat) + ".lock"@,
        state::path_of(dir, a) == dir + "/managed"@ + "/"@ + text::decimal(a as nat),
        sibling(path, pid) == path + ".tmp."@ + text::decimal(pid as nat),
        sibling(path, pid) != path,
{
    let x = text::decimal(a as nat);
    let y = text::decimal(b as nat);
    text::lemma_decimal(a as nat);
    text::lemma_decimal(b as nat);
    assert(x != y);
    lemma_apart("/etc/pve/nodes/"@ + node + "/lxc/"@, x, y, ".conf"@);
    lemma_apart(dir + "/pve-config-"@, x, y, ".lock"@);
    lemma_apart(dir + "/managed"@ + "/"@, x, y, Seq::empty());
    assert(state::path_of(dir, a) =~= dir + "/managed"@ + "/"@ + x + Seq::empty());
    assert(state::path_of(dir, b) =~= dir + "/managed"@ + "/"@ + y + Seq::empty());
    reveal_strlit(".tmp.");
    assert(sibling(path, pid).len() > path.len());
}

proof fn lemma_apart(p: Seq<char>, x: Seq<char>, y: Seq<char>, q: Seq<char>)
    requires
        x != y,
    ensures
        p + x + q != p + y + q,
{
    let s = p + x + q;
    let t = p + y + q;
    if s == t {
        assert(s.len() == p.len() + x.len() + q.len());
        assert(t.len() == p.len() + y.len() + q.len());
        assert(x.len() == y.len());
        assert(x =~= s.subrange(p.len() as int, (p.len() + x.len()) as int));
        assert(y =~= t.subrange(p.len() as int, (p.len() + y.len()) as int));
    }
}

// ---------------------------------------------------------------------------
// The record.
// ---------------------------------------------------------------------------

/// `known[i]` is the first of the majors that is not `major`.
pub open spec fn first_other(known: Seq<u32>, i: int, major: u32) -> bool {
    &&& 0 <= i < known.len()
    &&& known[i] != major
    &&& forall|j: int| 0 <= j < i ==> #[trigger] known[j] == major
}

proof fn lemma_without_same(s: Seq<u32>, major: u32)
    requires
        forall|j: int| 0 <= j < s.len() ==> #[trigger] s[j] == major,
    ensures
        without(s, major).len() == 0,
    decreases s.len(),
{
    reveal(Seq::filter);
    if s.len() > 0 {
        let t = s.drop_last();
        assert forall|j: int| 0 <= j < t.len() implies #[trigger] t[j] == major by {
            assert(t[j] == s[j]);
        }
        lemma_without_same(t, major);
        assert(s[s.len() - 1] == major);
    }
}

proof fn lemma_first_other(s: Seq<u32>, i: int, major: u32)
    requires
        first_other(s, i, major),
    ensures
        without(s, major).len() > 0,
        without(s, major)[0] == s[i],
    decreases s.len(),
{
    reveal(Seq::filter);
    let t = s.drop_last();
    if i < t.len() {
        assert(t[i] == s[i]);
        assert forall|j: int| 0 <= j < i implies #[trigger] t[j] == major by {
            assert(t[j] == s[j]);
        }
        lemma_first_other(t, i, major);
    } else {
        assert forall|j: int| 0 <= j < t.len() implies #[trigger] t[j] == major by {
            assert(s[j] == major);
        }
        lemma_without_same(t, major);
        assert(s.last() == s[i]);
    }
}

/// The major that is used comes first, and behind it the last that was used
/// and is another; no third is kept. A major that already leads changes
/// nothing.
pub proof fn law_which_majors_are_kept(known: Seq<u32>, major: u32)
    ensures
        known.len() > 0 && known[0] == major ==> remembered(known, major) == known,
        !(known.len() > 0 && known[0] == major) ==> {
            &&& forall|i: int| #[trigger]
                first_other(known, i, major) ==> remembered(known, major) == seq![major, known[i]]
            &&& (forall|j: int| 0 <= j < known.len() ==> #[trigger] known[j] == major)
                ==> remembered(known, major) == seq![major]
        },
{
    let rest = without(known, major);
    if !(known.len() > 0 && known[0] == major) {
        assert forall|i: int| #[trigger] first_other(known, i, major) implies remembered(
            known,
            major,
        ) == seq![major, known[i]] by {
            lemma_first_other(known, i, major);
            let all = seq![major] + rest;
            assert(all[0] == major && all[1] == known[i]);
            assert(remembered(known, major) =~= seq![major, known[i]]);
        }
        if forall|j: int| 0 <= j < known.len() ==> #[trigger] known[j] == major {
            lemma_without_same(known, major);
            assert(remembered(known, major) =~= seq![major]);
        }
    }
}

/// The majors in a file are the first two of its lines that are numbers, white
/// space around them aside; a file that is not there holds none, and one that
/// cannot be read is an error.
pub proof fn law_which_majors_a_file_holds(
    dir: Seq<char>,
    s: Seq<char>,
    e: Seq<char>,
    a: Seq<Seq<char>>,
    b: Seq<Seq<char>>,
    l: Seq<char>,
)
    ensures
        numbers(a + b) == numbers(a) + numbers(b),
        numbers(seq![l]) == match text::parse_u32(text::trim(l)) {
            Some(n) => seq![n],
            None => Seq::empty(),
        },
        majors_in(s).len() == if numbers(text::lines(s)).len() < 2 {
            numbers(text::lines(s)).len()
        } else {
            2
        },
        forall|i: int|
            0 <= i < majors_in(s).len() ==> majors_in(s)[i] == numbers(text::lines(s))[i],
        majors_read(dir, FileView::Text(s)) == Ok::<Seq<u32>, Seq<char>>(majors_in(s)),
        majors_read(dir, FileView::Missing) is Ok,
        majors_read(dir, FileView::Missing)->Ok_0.len() == 0,
        majors_read(dir, FileView::Failed(e)) is Err,
    decreases b.len(),
{
    if b.len() == 0 {
        assert(a + b =~= a);
        assert(numbers(a) + numbers(b) =~= numbers(a));
    } else {
        law_which_majors_a_file_holds(dir, s, e, a, b.drop_last(), l);
        assert((a + b).drop_last() =~= a + b.drop_last());
        assert((a + b).last() == b.last());
        assert(numbers(a + b) =~= numbers(a) + numbers(b));
    }
    let one = seq![l];
    assert(one.drop_last() =~= Seq::empty());
    assert(one.last() == l);
    assert(numbers(Seq::empty()) =~= Seq::empty());
    assert(numbers(one) =~= match text::parse_u32(text::trim(l)) {
        Some(n) => seq![n],
        None => Seq::empty(),
    });
}

/// A listing is broken exactly if one of its names could not be had, and the
/// first of them is why. A guest is in the record exactly if a name is its
/// vmid.
pub proof fn law_who_is_in_the_record(names: Seq<Result<Option<String>, String>>, vmid: u32)
    ensures
        first_error(names) <= names.len(),
        first_error(names) < names.len() ==> names[first_error(names) as int] is Err,
        forall|i: int| 0 <= i < first_error(names) ==> (#[trigger] names[i]) is Ok,
        names_vmid(names, vmid) <==> exists|i: int|
            0 <= i < names.len() && recorded_as(#[trigger] names[i], vmid),
    decreases names.len(),
{
    if names.len() > 0 && names[0] is Ok {
        let t = names.skip(1);
        law_who_is_in_the_record(t, vmid);
        assert forall|i: int| 0 <= i < first_error(names) implies (#[trigger] names[i]) is Ok by {
            if i > 0 {
                assert(t[i - 1] == names[i]);
            }
        }
    }
    if names_vmid(names, vmid) {
        let i = choose|i: int|
            0 <= i < names.len() && (state::name_view(#[trigger] names[i]) matches Ok(n) && vmid_of(
                n,
            ) == Some(vmid));
        assert(recorded_as(names[i], vmid));
    }
    if exists|i: int| 0 <= i < names.len() && recorded_as(#[trigger] names[i], vmid) {
        let i = choose|i: int| 0 <= i < names.len() && recorded_as(#[trigger] names[i], vmid);
        assert(state::name_view(names[i]) matches Ok(n) && vmid_of(n) == Some(vmid));
    }
}

/// A name that could be had, is text, and is the number `vmid`.
pub open spec fn recorded_as(name: Result<Option<String>, String>, vmid: u32) -> bool {
    name is Ok && name->Ok_0 is Some && text::parse_u32(name->Ok_0->Some_0@) == Some(vmid)
}

/// A guest is recorded by a file of its own, which is made unless it is there,
/// and removed whether or not it is; the file's name is its vmid.
pub proof fn law_how_a_guest_is_recorded(dir: Seq<char>, vmid: u32, managed: bool, exists: bool)
    ensures
        change_for(dir, vmid, managed, exists) is Nothing <==> managed && exists,
        change_for(dir, vmid, managed, exists) is Remove <==> !managed,
        change_for(dir, vmid, managed, exists) is Create <==> managed && !exists,
        change_for(dir, vmid, managed, exists) matches ChangeView::Remove(p) ==> p == dir
            + "/managed"@ + "/"@ + text::decimal(vmid as nat),
        change_for(dir, vmid, managed, exists) matches ChangeView::Create(d, p) ==> d == dir
            + "/managed"@ && p == d + "/"@ + text::decimal(vmid as nat),
        vmid_of(Some(text::decimal(vmid as nat))) == Some(vmid),
        vmid_of(None) is None,
{
    text::lemma_decimal_parses(vmid as nat, u32::MAX as nat);
}

// ---------------------------------------------------------------------------
// Locks and writes.
// ---------------------------------------------------------------------------

/// A lock that is held is tried again until its time is over, and no sooner is
/// it given up; how long that is is what may be waited, and a quarter of a
/// second passes between two tries at most.
pub proof fn law_how_a_lock_is_taken(
    path: Seq<char>,
    tried: Tried,
    now: u64,
    at: u64,
    wait: u64,
)
    ensures
        taking(path, tried, now, at, wait) is Taken <==> tried is Taken,
        taking(path, tried, now, at, wait) is Failed <==> tried is Failed,
        taking(path, tried, now, at, wait) is Busy <==> tried is Held && now >= at,
        taking(path, tried, now, at, wait) is Again <==> tried is Held && now < at,
        taking(path, tried, now, at, wait) matches TakeView::Again(n) ==> n <= wait && n <= 250 && (
        n == wait || n == 250),
        tried is Held ==> taking(path, tried, now, now, 0) is Busy,
        now + wait <= u64::MAX ==> ends_at(now, wait) - now == wait,
        ends_at(now, wait) <= u64::MAX,
        now + wait > u64::MAX ==> ends_at(now, wait) == u64::MAX,
{
}

/// A sibling in the way is removed, twice at most; what cannot be written in
/// full, or would bring back a config that is gone, is abandoned; what was
/// abandoned fails with why.
pub proof fn law_how_a_config_is_replaced(
    path: Seq<char>,
    tmp: Seq<char>,
    n: u8,
    ended: Ended,
    why: Seq<char>,
)
    ensures
        next_write(path, tmp, WriteView::Create(n), Ended::Well) == WriteView::Fill,
        next_write(path, tmp, WriteView::Create(n), ended) is DeleteOld <==> ended is Exists && n
            < 2,
        !(ended is Well) && !(ended is Exists && n < 2) ==> next_write(
            path,
            tmp,
            WriteView::Create(n),
            ended,
        ) matches WriteView::Done(Err(_)),
        n < 2 ==> next_write(path, tmp, WriteView::DeleteOld(n), Ended::Well) == WriteView::Create(
            (n + 1) as u8,
        ),
        !(ended is Well) ==> next_write(path, tmp, WriteView::DeleteOld(n), ended) matches
            WriteView::Done(Err(_)),
        !(ended is Well) ==> next_write(path, tmp, WriteView::Fill, ended) is Abandon,
        !(ended is Well) ==> next_write(path, tmp, WriteView::Check, ended) == WriteView::Abandon(
            path + " is gone; not writing it back"@,
        ),
        !(ended is Well) ==> next_write(path, tmp, WriteView::Replace, ended) matches
            WriteView::Done(Err(_)),
        next_write(path, tmp, WriteView::Abandon(why), ended) == WriteView::Done(Err(why)),
{
}

// ---------------------------------------------------------------------------
// Commands.
// ---------------------------------------------------------------------------

/// A child that has exited is never killed, and one that runs is killed
/// exactly from its deadline on; one whose state is not known is abandoned.
pub proof fn law_when_a_child_is_killed(child: Child, now: u64, deadline: u64)
    ensures
        turned(child, now, deadline) == Turn::Kill <==> child == Child::Running && now >= deadline,
        turned(child, now, deadline) == Turn::Sleep <==> child == Child::Running && now < deadline,
        turned(child, now, deadline) == Turn::Finish <==> child == Child::Exited,
        turned(child, now, deadline) == Turn::Abandon <==> child == Child::Unknown,
{
}

/// A command is spelled as its program and then each of its arguments after a
/// space, in quotes exactly if it is empty or holds a space.
pub proof fn law_how_a_command_is_spelled(program: Seq<char>, args: Seq<Seq<char>>, a: Seq<char>)
    ensures
        cmd::rendered(program, Seq::empty()) == program,
        cmd::rendered(program, args.push(a)) == cmd::rendered(program, args) + quoted(a),
        quoted(a) == if a.len() == 0 || a.contains(' ') {
            " '"@ + a + "'"@
        } else {
            " "@ + a
        },
{
    reveal_strlit(" '");
    reveal_strlit("'");
    reveal_strlit(" ");
    assert(args.push(a).drop_last() =~= args);
    assert(args.push(a).last() == a);
    assert(quoted(a) =~= if a.len() == 0 || a.contains(' ') {
        " '"@ + a + "'"@
    } else {
        " "@ + a
    });
}

/// A failure names the command and its exit code, and what it said on its
/// standard error, where that is anything; a missed deadline names the command
/// and the seconds it had, and the end of what it said.
pub proof fn law_what_is_said_of_a_failure(
    program: Seq<char>,
    args: Seq<Seq<char>>,
    out: Said,
    timeout: u64,
    said: Seq<char>,
)
    ensures
        ({
            let head = cmd::rendered(program, args) + " failed (exit "@ + text::signed(
                out.status as int,
            ) + ")"@;
            &&& text::blank(out.stderr) ==> failure(program, args, out) == head
            &&& !text::blank(out.stderr) ==> failure(program, args, out) == head + (": "@
                + text::trim(out.stderr))
        }),
        overdue(program, args, timeout, said) == cmd::rendered(program, args)
            + " did not finish within "@ + text::decimal((timeout / 1000) as nat)
            + "s and was killed"@ + tail_of(said),
        text::blank(said) ==> tail_of(said).len() == 0,
        !text::blank(said) ==> tail_of(said) == ": "@ + text::trim(
            last_bytes(text::trim(said), 400),
        ),
{
    let head = cmd::rendered(program, args) + " failed (exit "@ + text::signed(out.status as int)
        + ")"@;
    assert(head + Seq::empty() =~= head);
}

/// A text takes the bytes of its one half and of its other, one for each ASCII
/// character and at most four for any; its end is a suffix of it.
pub proof fn law_how_many_bytes_a_text_takes(a: Seq<char>, b: Seq<char>, c: char, n: nat)
    ensures
        bytes(a + b) == bytes(a) + bytes(b),
        bytes(Seq::empty()) == 0,
        bytes(seq![c]) == width(c),
        1 <= width(c) <= 4,
        (c as u32) < 128 <==> width(c) == 1,
        (c as u32) >= 0x800 ==> width(c) >= 3,
        (c as u32) >= 0x10000 ==> width(c) == 4,
        (c as u32) < 0x10000 ==> width(c) <= 3,
        (c as u32) < 0x800 ==> width(c) <= 2,
        last_bytes(a, n) == a.skip(a.len() - last_bytes(a, n).len()),
        bytes(a) <= n ==> last_bytes(a, n) == a,
    decreases a.len(),
{
    cmd::law_a_tail_is_bounded(a, n);
    assert(a.skip(0) =~= a);
    assert(seq![c].skip(1) =~= Seq::empty());
    assert(bytes(Seq::empty()) == 0);
    if a.len() == 0 {
        assert(a + b =~= b);
    } else {
        law_how_many_bytes_a_text_takes(a.skip(1), b, c, n);
        assert((a + b).skip(1) =~= a.skip(1) + b);
    }
}

// ---------------------------------------------------------------------------
// What systemd is told.
// ---------------------------------------------------------------------------

/// A socket that fails is reported once, until it has worked again; a ping is
/// counted, and changes nothing else.
pub proof fn law_a_failing_socket_is_reported_once(
    n: Notifier,
    path: Seq<char>,
    e: Seq<char>,
    f: Seq<char>,
)
    ensures
        ({
            let (once, said) = after_send(n, path, Some(Err(e)));
            let (twice, again) = after_send(once, path, Some(Err(f)));
            let (well, nothing) = after_send(once, path, Some(Ok(())));
            &&& said is Some <==> !n.reported
            &&& again is None
            &&& nothing is None
            &&& after_send(well, path, Some(Err(f))).1 is Some
            &&& after_send(n, path, None) == (n, None::<Seq<char>>)
            &&& twice.pings == n.pings && well.pings == n.pings
            &&& said is Some ==> said->Some_0 == "cannot notify systemd through "@ + path + ": "@
                + e
        }),
        pinged(n).reported == n.reported,
        n.pings < u64::MAX ==> pinged(n).pings == n.pings + 1,
        n.pings == u64::MAX ==> pinged(n).pings == 0,
{
}

} // verus!
