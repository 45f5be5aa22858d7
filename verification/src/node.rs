//! The node this runs on: its name, the cluster's vmlist, its containers'
//! config files and whether they run.
//!
//! A read error is never an absence: without `/etc/pve` mounted the vmlist is
//! not "no guests", it is "ask again later".

use std::collections::BTreeMap;

use vstd::prelude::*;
use vstd::std_specs::cmp::OrdSpec;
use vstd::std_specs::iter::IteratorSpec;

use crate::json::{self, Json, Node};
use crate::text;

verus! {

broadcast use {vstd::std_specs::btree::group_btree_axioms, vstd::laws_cmp::group_laws_cmp};

/// pmxcfs's vmid map: every guest in the cluster, its type and its node.
pub const VMLIST: &'static str = "/etc/pve/.vmlist";

/// The kind of guest a vmid is.
#[derive(Debug, Clone, Copy, PartialEq, Eq, Structural)]
pub enum Kind {
    Lxc,
    Qemu,
    Other,
}

/// One guest of the vmlist.
#[derive(Debug, Clone, PartialEq, Eq)]
pub struct Guest {
    pub node: String,
    pub kind: Kind,
}

/// What a [`Guest`] says.
pub struct GuestView {
    pub node: Seq<char>,
    pub kind: Kind,
}

impl View for Guest {
    type V = GuestView;

    open spec fn view(&self) -> GuestView {
        GuestView { node: self.node@, kind: self.kind }
    }
}

/// What a vmlist says.
pub open spec fn guests(m: Map<u32, Guest>) -> Map<u32, GuestView> {
    m.map_values(|g: Guest| g@)
}

/// The guest an entry of the vmlist describes. What it does not say is empty,
/// or another kind.
pub open spec fn guest_of(entry: Json) -> GuestView {
    let kind = json::string(json::member(entry, "type"@));
    GuestView {
        node: match json::string(json::member(entry, "node"@)) {
            Some(s) => s,
            None => Seq::empty(),
        },
        kind: if kind == Some("lxc"@) {
            Kind::Lxc
        } else if kind == Some("qemu"@) {
            Kind::Qemu
        } else {
            Kind::Other
        },
    }
}

/// The guests among the members of `ids`. A member whose name is no vmid is
/// none; of two for the same vmid the later one counts.
pub open spec fn guests_in(ids: Seq<(Seq<char>, Json)>) -> Map<u32, GuestView>
    decreases ids.len(),
{
    if ids.len() == 0 {
        Map::empty()
    } else {
        let before = guests_in(ids.drop_last());
        match text::parse_u32(ids.last().0) {
            Some(vmid) => before.insert(vmid, guest_of(ids.last().1)),
            None => before,
        }
    }
}

/// What a JSON document says as a vmlist, or why it is none.
pub open spec fn vmlist_of(t: Json) -> Result<Map<u32, GuestView>, Seq<char>> {
    match json::member(t, "ids"@) {
        Some(Json::Object(ids)) => Ok(guests_in(ids)),
        _ => Err("the vmlist has no ids"@),
    }
}

/// What a document that was read, or could not be, says as a vmlist.
pub open spec fn vmlist_in(read: Result<Json, Seq<char>>) -> Result<
    Map<u32, GuestView>,
    Seq<char>,
> {
    match read {
        Ok(t) => vmlist_of(t),
        Err(e) => Err("the vmlist is not JSON: "@ + e),
    }
}

/// The view of a vmlist, or of why there is none.
pub open spec fn vmlist_view(r: Result<BTreeMap<u32, Guest>, String>) -> Result<
    Map<u32, GuestView>,
    Seq<char>,
> {
    match r {
        Ok(m) => Ok(guests(m@)),
        Err(e) => Err(e@),
    }
}

/// One guest of the vmlist.
fn guest(entry: &Node) -> (r: Guest)
    ensures
        r@ == guest_of(entry@),
{
    let node = match entry.get("node") {
        Some(n) => match n.as_str() {
            Some(s) => s.to_owned(),
            None => String::new(),
        },
        None => String::new(),
    };
    proof {
        assert(node@ =~= guest_of(entry@).node);
    }
    let kind = match entry.get("type") {
        Some(n) => match n.as_str() {
            Some(s) => if text::eq(s, "lxc") {
                Kind::Lxc
            } else if text::eq(s, "qemu") {
                Kind::Qemu
            } else {
                Kind::Other
            },
            None => Kind::Other,
        },
        None => Kind::Other,
    };
    Guest { node, kind }
}

/// Reads a vmlist out of a JSON document.
pub fn vmlist_of_node(value: &Node) -> (r: Result<BTreeMap<u32, Guest>, String>)
    ensures
        vmlist_view(r) == vmlist_of(value@),
{
    let ids = match value.get("ids") {
        Some(Node::Object(ids)) => ids,
        _ => {
            return Err("the vmlist has no ids".to_owned());
        },
    };
    let ghost all = json::members(ids@);
    let mut out: BTreeMap<u32, Guest> = BTreeMap::new();
    let mut i: usize = 0;
    proof {
        assert(json::member(value@, "ids"@)->Some_0->Object_0 =~= all);
        assert(guests(out@) =~= guests_in(all.take(0)));
    }
    while i < ids.len()
        invariant
            i <= ids@.len(),
            all == json::members(ids@),
            guests(out@) == guests_in(all.take(i as int)),
        decreases ids.len() - i,
    {
        let entry = &ids[i];
        proof {
            assert(all.take(i + 1).last() == (entry.0@, entry.1@));
            assert(all.take(i + 1).drop_last() =~= all.take(i as int));
        }
        if let Some(vmid) = text::u32_of(entry.0.as_str()) {
            let g = guest(&entry.1);
            let ghost before = out@;
            out.insert(vmid, g);
            proof {
                assert(guests(out@) =~= guests(before).insert(vmid, g@));
            }
        }
        i += 1;
    }
    proof {
        assert(all.take(all.len() as int) =~= all);
    }
    Ok(out)
}

/// The vmlist in a document that was read, or could not be.
pub fn take_vmlist(read: Result<Node, String>) -> (r: Result<BTreeMap<u32, Guest>, String>)
    ensures
        vmlist_view(r) == vmlist_in(json::read_view(read)),
{
    match read {
        Ok(n) => vmlist_of_node(&n),
        Err(e) => Err("the vmlist is not JSON: ".to_owned().concat(e.as_str())),
    }
}

/// Parses `/etc/pve/.vmlist`.
pub fn parse_vmlist(text: &str) -> (r: Result<BTreeMap<u32, Guest>, String>)
    ensures
        vmlist_view(r) == vmlist_in(json::json_read(text@)),
{
    take_vmlist(json::read(text))
}

/// Whether vmids go up, none occurring twice.
pub open spec fn ascending(s: Seq<u32>) -> bool {
    forall|i: int, j: int| 0 <= i < j < s.len() ==> #[trigger] s[i] < #[trigger] s[j]
}

/// Whether a guest is a container of `node`.
pub open spec fn is_local(m: Map<u32, GuestView>, node: Seq<char>, vmid: u32) -> bool {
    m.contains_key(vmid) && m[vmid].node == node && m[vmid].kind == Kind::Lxc
}

/// What the keys of a map in their order have to do with each other.
proof fn lemma_increasing(keys: Seq<u32>)
    requires
        vstd::std_specs::btree::increasing_seq(keys),
    ensures
        ascending(keys),
{
    assert forall|i: int, j: int| 0 <= i < j < keys.len() implies #[trigger] keys[i]
        < #[trigger] keys[j] by {
        assert(keys[i].cmp_spec(&keys[j]) is Less);
    }
}

/// The containers of `node`, in vmid order.
pub fn local_containers(node: &str, vmlist: &BTreeMap<u32, Guest>) -> (r: Vec<u32>)
    ensures
        ascending(r@),
        forall|v: u32| #[trigger] r@.contains(v) <==> is_local(guests(vmlist@), node@, v),
{
    let mut out: Vec<u32> = Vec::new();
    let entries = vmlist.iter();
    let ghost all = entries.remaining();
    let ghost keys = all.map_values(|kv: (&u32, &Guest)| *kv.0);
    proof {
        lemma_increasing(keys);
    }
    let ghost m = guests(vmlist@);
    proof {
        assert forall|j: int| 0 <= j < keys.len() implies m.contains_key(#[trigger] keys[j])
            && m[keys[j]] == all[j].1@ by {
            assert(vmlist@.contains_key(*all[j].0));
        }
        assert forall|v: u32| #[trigger] m.contains_key(v) implies exists|j: int|
            0 <= j < keys.len() && #[trigger] keys[j] == v by {
            assert(vmlist@.contains_key(v));
            assert(all.contains((&v, &vmlist@[v])));
            let j = choose|j: int| 0 <= j < all.len() && all[j] == (&v, &vmlist@[v]);
            assert(keys[j] == v);
        }
    }
    for e in it: entries
        invariant
            it.seq() == all,
            keys == all.map_values(|kv: (&u32, &Guest)| *kv.0),
            m == guests(vmlist@),
            forall|i: int, j: int| 0 <= i < j < keys.len() ==> #[trigger] keys[i] < #[trigger] keys[j],
            forall|j: int|
                0 <= j < keys.len() ==> m.contains_key(#[trigger] keys[j]) && m[keys[j]]
                    == all[j].1@,
            ascending(out@),
            forall|v: u32| #[trigger]
                out@.contains(v) <==> exists|j: int|
                    0 <= j < it.index() && #[trigger] keys[j] == v && is_local(m, node@, v),
    {
        let (vmid, g) = e;
        let ghost n = it.index();
        let ghost before = out@;
        proof {
            assert(keys[n] == *vmid);
            assert(m[keys[n]] == g@);
        }
        if text::eq(g.node.as_str(), node) && g.kind == Kind::Lxc {
            proof {
                assert forall|i: int| 0 <= i < before.len() implies #[trigger] before[i]
                    < keys[n] by {
                    assert(before.contains(before[i]));
                    let j = choose|j: int| 0 <= j < n && #[trigger] keys[j] == before[i];
                    assert(keys[j] < keys[n]);
                }
            }
            out.push(*vmid);
            proof {
                assert(out@[before.len() as int] == keys[n]);
                assert forall|v: u32| #[trigger] out@.contains(v) <==> before.contains(v) || v
                    == keys[n] by {
                    if before.contains(v) {
                        let k = choose|k: int| 0 <= k < before.len() && before[k] == v;
                        assert(out@[k] == v);
                    }
                }
            }
        }
    }
    out
}

/// The vmid of a running container, where a line of `/proc/net/unix` is its
/// command socket's.
pub open spec fn active_vmid(line: Seq<char>) -> Option<u32> {
    let w = text::words(line);
    if w.len() == 0 {
        None
    } else {
        match text::strip_prefix(w.last(), "@/var/lib/lxc/"@) {
            Some(p) => match text::strip_suffix(p, "/command"@) {
                Some(v) => text::parse_u32(v),
                None => None,
            },
            None => None,
        }
    }
}

/// Whether `/proc/net/unix` has the command socket of a container.
pub open spec fn is_active(s: Seq<char>, vmid: u32) -> bool {
    let ls = text::lines(s);
    exists|i: int| 0 <= i < ls.len() && active_vmid(#[trigger] ls[i]) == Some(vmid)
}

/// Puts a vmid in its place, once.
pub fn put_in_order(out: &mut Vec<u32>, vmid: u32)
    requires
        ascending(old(out)@),
    ensures
        ascending(final(out)@),
        forall|v: u32| #[trigger]
            final(out)@.contains(v) <==> old(out)@.contains(v) || v == vmid,
{
    let ghost before = out@;
    let mut n: usize = out.len();
    while n > 0 && out[n - 1] > vmid
        invariant
            n <= out@.len(),
            out@ == before,
            forall|i: int| n <= i < out@.len() ==> #[trigger] out@[i] > vmid,
        decreases n,
    {
        n -= 1;
    }
    if n > 0 && out[n - 1] == vmid {
        return;
    }
    proof {
        assert forall|i: int| 0 <= i < n implies #[trigger] before[i] < vmid by {
            if i < n - 1 {
                assert(before[i] < before[n - 1]);
            }
        }
    }
    out.insert(n, vmid);
    proof {
        assert(out@ == before.insert(n as int, vmid));
        assert forall|v: u32| #[trigger] out@.contains(v) <==> before.contains(v) || v == vmid by {
            if before.contains(v) {
                let k = choose|k: int| 0 <= k < before.len() && before[k] == v;
                if k < n {
                    assert(out@[k] == v);
                } else {
                    assert(out@[k + 1] == v);
                }
            }
            assert(out@[n as int] == vmid);
            if out@.contains(v) {
                let k = choose|k: int| 0 <= k < out@.len() && out@[k] == v;
                if k < n {
                    assert(before[k] == v);
                } else if k > n {
                    assert(before[k - 1] == v);
                }
            }
        }
        assert forall|i: int, j: int| 0 <= i < j < out@.len() implies #[trigger] out@[i]
            < #[trigger] out@[j] by {
            if i < n && j > n {
                assert(before[i] < before[j - 1]);
            } else if i < n && j < n {
                assert(before[i] < before[j]);
            } else if i > n {
                assert(before[i - 1] < before[j - 1]);
            } else if i == n {
                assert(before[j - 1] > vmid);
            }
        }
    }
}

/// Whether a vmid is one of these.
pub fn is_among(vmids: &[u32], vmid: u32) -> (r: bool)
    ensures
        r == vmids@.contains(vmid),
{
    let mut i: usize = 0;
    while i < vmids.len()
        invariant
            i <= vmids@.len(),
            forall|j: int| 0 <= j < i ==> vmids@[j] != vmid,
        decreases vmids.len() - i,
    {
        if vmids[i] == vmid {
            return true;
        }
        i += 1;
    }
    false
}

/// The running containers in `/proc/net/unix`'s text, in vmid order: the test
/// `PVE::LXC::list_active_containers` makes, without a process per guest.
pub fn parse_active_containers(text: &str) -> (r: Vec<u32>)
    ensures
        ascending(r@),
        forall|v: u32| #[trigger] r@.contains(v) <==> is_active(text@, v),
{
    let ls = text::lines_of(text);
    let ghost all = text::views(ls@);
    let mut out: Vec<u32> = Vec::new();
    let mut i: usize = 0;
    while i < ls.len()
        invariant
            i <= ls@.len(),
            all == text::views(ls@),
            ascending(out@),
            forall|v: u32| #[trigger]
                out@.contains(v) <==> exists|j: int|
                    0 <= j < i && active_vmid(#[trigger] all[j]) == Some(v),
        decreases ls.len() - i,
    {
        let ghost before = out@;
        let w = text::words_of(ls[i]);
        proof {
            text::lemma_views(ls@);
            text::lemma_views(w@);
        }
        if w.len() > 0 {
            if let Some(p) = text::after_prefix(w[w.len() - 1], "@/var/lib/lxc/") {
                if let Some(v) = text::before_suffix(p, "/command") {
                    if let Some(vmid) = text::u32_of(v) {
                        put_in_order(&mut out, vmid);
                    }
                }
            }
        }
        proof {
            assert forall|v: u32| #[trigger] out@.contains(v) <==> before.contains(v)
                || active_vmid(all[i as int]) == Some(v) by {}
        }
        i += 1;
    }
    out
}

/// The local node's name: the last component of where `/etc/pve/local` points,
/// if it has one that is text. Without it pmxcfs is not mounted and nothing
/// else can be read either.
pub fn nodename(target: Option<&str>) -> (r: Result<String, String>)
    ensures
        match (target, r) {
            (Some(t), Ok(n)) => t@.len() > 0 && n@ == t@,
            (Some(t), Err(e)) => t@.len() == 0 && e@ == "/etc/pve/local does not name a node"@,
            (None, Err(e)) => e@ == "/etc/pve/local does not name a node"@,
            (None, Ok(_)) => false,
        },
{
    match target {
        Some(name) => if name.unicode_len() > 0 {
            Ok(name.to_owned())
        } else {
            Err("/etc/pve/local does not name a node".to_owned())
        },
        None => Err("/etc/pve/local does not name a node".to_owned()),
    }
}

/// A container's config file.
pub open spec fn path_of(node: Seq<char>, vmid: u32) -> Seq<char> {
    "/etc/pve/nodes/"@ + node + "/lxc/"@ + text::decimal(vmid as nat) + ".conf"@
}

/// A container's config file, on its own node.
pub fn config_path(node: &str, vmid: u32) -> (r: String)
    ensures
        r@ == path_of(node@, vmid),
{
    "/etc/pve/nodes/".to_owned().concat(node).concat("/lxc/").concat(
        text::decimal_of(vmid as u64).as_str(),
    ).concat(".conf")
}

} // verus!
