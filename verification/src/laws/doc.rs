//! What a document asks for, from its entries.

use vstd::prelude::*;

use crate::cmd::Said;
use crate::doc::{
    self, all_capabilities, answer, capabilities_of, device_id, flag, is_id_char,
    read_capabilities, read_cuda, read_devices, read_field, read_fields, switched_on, version,
    want_of, Want,
};
use crate::table;
use crate::text;
use crate::yaml::{self, Tree};

verus! {

// ---------------------------------------------------------------------------
// What is asked for.
// ---------------------------------------------------------------------------

/// `c` is a capability the hook accepts.
pub open spec fn is_capability(c: Seq<char>) -> bool {
    c == "compute"@ || c == "compat32"@ || c == "display"@ || c == "graphics"@ || c == "utility"@
        || c == "video"@
}

/// The first entry of `set` for `key` is at `i`, and says `on`.
pub open spec fn says_at(set: Seq<(Seq<char>, bool)>, i: int, key: Seq<char>, on: bool) -> bool {
    &&& 0 <= i < set.len()
    &&& set[i] == (key, on)
    &&& forall|j: int| 0 <= j < i ==> (#[trigger] set[j]).0 != key
}

/// What stays of a list is there in the order of the list.
proof fn lemma_filter_order(s: Seq<Seq<char>>, p: spec_fn(Seq<char>) -> bool)
    requires
        s.no_duplicates(),
    ensures
        forall|i: int, j: int, a: int, b: int|
            #![trigger s.filter(p)[i], s.filter(p)[j], s[a], s[b]]
            0 <= i < j < s.filter(p).len() && 0 <= a < s.len() && 0 <= b < s.len() && s.filter(p)[i]
                == s[a] && s.filter(p)[j] == s[b] ==> a < b,
    decreases s.len(),
{
    reveal(Seq::filter);
    let f = s.filter(p);
    if s.len() > 0 {
        let t = s.drop_last();
        assert(t.no_duplicates());
        lemma_filter_order(t, p);
        let g = t.filter(p);
        assert forall|i: int, j: int, a: int, b: int|
            #![trigger f[i], f[j], s[a], s[b]]
            0 <= i < j < f.len() && 0 <= a < s.len() && 0 <= b < s.len() && f[i] == s[a] && f[j]
                == s[b] implies a < b by {
            assert(f[i] == g[i]);
            t.lemma_filter_contains_rev(p, g[i]);
            let k = choose|k: int| 0 <= k < t.len() && t[k] == g[i];
            assert(s[k] == s[a]);
            assert(a == k);
            if j < g.len() {
                assert(f[j] == g[j]);
                t.lemma_filter_contains_rev(p, g[j]);
                let l = choose|l: int| 0 <= l < t.len() && t[l] == g[j];
                assert(s[l] == s[b]);
                assert(b == l);
                assert(g[i] == t[a] && g[j] == t[b]);
            } else {
                assert(f[j] == s.last());
                assert(s[s.len() - 1] == s[b]);
            }
        }
    }
}

proof fn lemma_lookup(set: Seq<(Seq<char>, bool)>, key: Seq<char>, on: bool)
    ensures
        table::lookup(set, key) == Some(on) <==> exists|i: int| #[trigger] says_at(set, i, key, on),
{
    table::lemma_position(set, key);
    let p = table::position(set, key) as int;
    if table::lookup(set, key) == Some(on) {
        assert(set[p] == (key, on));
        assert(says_at(set, p, key, on));
    }
    if exists|i: int| #[trigger] says_at(set, i, key, on) {
        let i = choose|i: int| #[trigger] says_at(set, i, key, on);
        assert(set[i].0 == key);
        table::lemma_position_is(set, key, i as nat);
    }
}

/// Where a document has a map of capabilities, a name is in the list that is
/// passed exactly if it is one the hook accepts and the map says true for it;
/// where it has none, the list is compute and utility. The names come in the
/// hook's order, each at most once.
pub proof fn law_which_capabilities_are_passed(w: Want, c: Seq<char>)
    ensures
        match w.capabilities {
            Some(set) => capabilities_of(w).contains(c) <==> is_capability(c) && exists|i: int|
                #[trigger] says_at(set, i, c, true),
            None => capabilities_of(w) == seq!["compute"@, "utility"@],
        },
        ({
            let all = seq![
                "compute"@,
                "compat32"@,
                "display"@,
                "graphics"@,
                "utility"@,
                "video"@,
            ];
            w.capabilities is Some ==> forall|i: int, j: int, a: int, b: int|
                #![trigger capabilities_of(w)[i], capabilities_of(w)[j], all[a], all[b]]
                0 <= i < j < capabilities_of(w).len() && 0 <= a < 6 && 0 <= b < 6
                    && capabilities_of(w)[i] == all[a] && capabilities_of(w)[j] == all[b] ==> a < b
        }),
{
    doc::lemma_capability_names();
    let all = all_capabilities();
    match w.capabilities {
        Some(set) => {
            let p = |c: Seq<char>| table::lookup(set, c) == Some(true);
            lemma_lookup(set, c, true);
            lemma_filter_order(all, p);
            let r = capabilities_of(w);
            assert(r == all.filter(p));
            if r.contains(c) {
                all.lemma_filter_contains_rev(p, c);
                let i = choose|i: int| 0 <= i < r.len() && r[i] == c;
                all.lemma_filter_pred(p, i);
                assert(p(r[i]));
                let k = choose|k: int| 0 <= k < all.len() && all[k] == c;
                assert(is_capability(c));
            }
            if is_capability(c) && table::lookup(set, c) == Some(true) {
                assert(all[0] == "compute"@ && all[1] == "compat32"@ && all[2] == "display"@
                    && all[3] == "graphics"@ && all[4] == "utility"@ && all[5] == "video"@);
                assert(all.contains(c));
                let k = choose|k: int| 0 <= k < all.len() && all[k] == c;
                all.lemma_filter_contains(p, k);
            }
        },
        None => {
            assert(capabilities_of(w) =~= seq!["compute"@, "utility"@]);
        },
    }
}

/// The devices a document asks for are the names it says true for, in its
/// order: those of one half, then those of the other.
pub proof fn law_which_devices_are_asked_for(
    a: Seq<(Seq<char>, bool)>,
    b: Seq<(Seq<char>, bool)>,
    name: Seq<char>,
    on: bool,
)
    ensures
        switched_on(a + b) == switched_on(a) + switched_on(b),
        switched_on(seq![(name, on)]) == if on {
            seq![name]
        } else {
            Seq::empty()
        },
        switched_on(Seq::empty()) == Seq::<Seq<char>>::empty(),
        switched_on(a).contains(name) <==> exists|i: int| 0 <= i < a.len() && #[trigger] a[i] == (
            name,
            true,
        ),
{
    let p = |d: (Seq<char>, bool)| d.1;
    Seq::filter_distributes_over_add(a, b, p);
    assert(switched_on(a + b) =~= switched_on(a) + switched_on(b));
    let one = seq![(name, on)];
    assert(one.drop_last() =~= Seq::empty());
    assert(one.filter(p) == if on {
        one
    } else {
        Seq::empty()
    }) by {
        reveal(Seq::filter);
        assert(one.drop_last().filter(p) =~= Seq::empty());
        assert(Seq::<(Seq<char>, bool)>::empty().push((name, on)) =~= one);
    }
    assert(switched_on(one) =~= if on {
        seq![name]
    } else {
        Seq::empty()
    });
    assert(switched_on(Seq::empty()) =~= Seq::empty()) by {
        reveal(Seq::filter);
    }
    let f = a.filter(p);
    if switched_on(a).contains(name) {
        let i = choose|i: int| 0 <= i < switched_on(a).len() && switched_on(a)[i] == name;
        assert(f[i].0 == name);
        a.lemma_filter_pred(p, i);
        assert(p(f[i]));
        assert(f.contains(f[i]));
        a.lemma_filter_contains_rev(p, f[i]);
        let k = choose|k: int| 0 <= k < a.len() && a[k] == f[i];
        assert(a[k] == (name, true));
    }
    if exists|i: int| 0 <= i < a.len() && #[trigger] a[i] == (name, true) {
        let i = choose|i: int| 0 <= i < a.len() && #[trigger] a[i] == (name, true);
        assert(p(a[i]));
        a.lemma_filter_contains(p, i);
        let k = choose|k: int| 0 <= k < f.len() && f[k] == a[i];
        assert(switched_on(a)[k] == name);
    }
}

// ---------------------------------------------------------------------------
// How a document is read.
// ---------------------------------------------------------------------------

/// `s` spells true, white space around it aside.
pub open spec fn spells_true(s: Seq<char>) -> bool {
    text::trim(s) == "1"@ || text::trim(s) == "true"@ || text::trim(s) == "yes"@ || text::trim(s)
        == "on"@
}

/// `s` spells false, white space around it aside.
pub open spec fn spells_false(s: Seq<char>) -> bool {
    text::trim(s) == "0"@ || text::trim(s) == "false"@ || text::trim(s) == "no"@ || text::trim(s)
        == "off"@
}

/// A boolean is itself, 1 and 0 are true and false, four words spell each of
/// the two, and nothing else is a boolean.
pub proof fn law_what_a_boolean_is(t: Tree)
    ensures
        flag(t) == Some(true) <==> {
            ||| t == Tree::Bool(true)
            ||| t matches Tree::Number(i, _) && i == Some(1i64)
            ||| t matches Tree::Text(s) && spells_true(s)
        },
        flag(t) == Some(false) <==> {
            ||| t == Tree::Bool(false)
            ||| t matches Tree::Number(i, _) && i == Some(0i64)
            ||| t matches Tree::Text(s) && spells_false(s)
        },
{
    reveal_strlit("1");
    reveal_strlit("true");
    reveal_strlit("yes");
    reveal_strlit("on");
    reveal_strlit("0");
    reveal_strlit("false");
    reveal_strlit("no");
    reveal_strlit("off");
    assert("1"@.len() == 1 && "true"@.len() == 4 && "yes"@.len() == 3 && "on"@.len() == 2);
    assert("0"@.len() == 1 && "false"@.len() == 5 && "no"@.len() == 2 && "off"@.len() == 3);
    assert("1"@[0] == '1' && "0"@[0] == '0' && "yes"@[0] == 'y' && "off"@[0] == 'o');
    assert("on"@[0] == 'o' && "no"@[0] == 'n');
}

/// A name is a device's exactly if it is `GPU-` and then hex digits and
/// dashes, at least one.
pub proof fn law_what_a_device_is_called(id: Seq<char>, s: Seq<char>)
    ensures
        device_id("GPU-"@ + id) <==> id.len() > 0 && forall|i: int|
            0 <= i < id.len() ==> '0' <= #[trigger] id[i] <= '9' || 'a' <= id[i] <= 'f' || 'A'
                <= id[i] <= 'F' || id[i] == '-',
        device_id(s) ==> s.len() > 4 && s == "GPU-"@ + s.skip(4),
{
    reveal_strlit("GPU-");
    let u = "GPU-"@ + id;
    assert(u.take(4) =~= "GPU-"@);
    assert(u.skip(4) =~= id);
    if device_id(u) {
        assert forall|i: int| 0 <= i < id.len() implies '0' <= #[trigger] id[i] <= '9' || 'a'
            <= id[i] <= 'f' || 'A' <= id[i] <= 'F' || id[i] == '-' by {
            assert(is_id_char(id[i]));
        }
    }
    if device_id(s) {
        assert(s.skip(4).len() > 0);
        assert(s =~= s.take(4) + s.skip(4));
    }
}

/// A version is digits and dots, beginning with a digit.
pub proof fn law_what_a_version_is(s: Seq<char>)
    ensures
        version(s) <==> s.len() > 0 && s[0] != '.' && forall|i: int|
            0 <= i < s.len() ==> '0' <= #[trigger] s[i] <= '9' || s[i] == '.',
{
    if s.len() > 0 && s[0] != '.' && forall|i: int|
        0 <= i < s.len() ==> '0' <= #[trigger] s[i] <= '9' || s[i] == '.' {
        assert(text::is_digit(s[0]));
    }
}

/// A tag before a value is nothing to what it holds.
pub proof fn law_tags_do_not_matter(tag: Seq<char>, t: Tree, m: Seq<(Tree, Tree)>, s: Seq<char>)
    ensures
        yaml::mapping(Tree::Tagged(tag, Box::new(t))) == yaml::mapping(t),
        yaml::string(Tree::Tagged(tag, Box::new(t))) == yaml::string(t),
        yaml::mapping(Tree::Mapping(m)) == Some(m),
        yaml::string(Tree::Text(s)) == Some(s),
        t is Mapping || t is Tagged || yaml::mapping(t) is None,
        t is Text || t is Tagged || yaml::string(t) is None,
{
}

/// `e` says `on` of the device `name`.
pub open spec fn device_entry(e: (Tree, Tree), name: Seq<char>, on: bool) -> bool {
    yaml::string(e.0) == Some(name) && device_id(name) && flag(e.1) == Some(on)
}

/// `e` says `on` of the capability `name`.
pub open spec fn capability_entry(e: (Tree, Tree), name: Seq<char>, on: bool) -> bool {
    yaml::string(e.0) == Some(name) && is_capability(name) && flag(e.1) == Some(on)
}

/// `e` says true or false of a device.
pub open spec fn is_device_entry(e: (Tree, Tree)) -> bool {
    exists|name: Seq<char>, on: bool| #[trigger] device_entry(e, name, on)
}

/// Every entry says true or false of a device.
pub open spec fn all_device_entries(es: Seq<(Tree, Tree)>) -> bool {
    forall|i: int| 0 <= i < es.len() ==> is_device_entry(#[trigger] es[i])
}

/// The entries say of each name of `ds`, in turn, what `ds` does.
pub open spec fn device_entries(es: Seq<(Tree, Tree)>, ds: Seq<(Seq<char>, bool)>) -> bool {
    es.len() == ds.len() && forall|i: int|
        #![trigger es[i]]
        0 <= i < es.len() ==> device_entry(es[i], ds[i].0, ds[i].1)
}

/// `e` says true or false of a capability.
pub open spec fn is_capability_entry(e: (Tree, Tree)) -> bool {
    exists|name: Seq<char>, on: bool| #[trigger] capability_entry(e, name, on)
}

/// Every entry says true or false of a capability.
pub open spec fn all_capability_entries(es: Seq<(Tree, Tree)>) -> bool {
    forall|i: int| 0 <= i < es.len() ==> is_capability_entry(#[trigger] es[i])
}

/// The entries say of each name of `ds`, in turn, what `ds` does.
pub open spec fn capability_entries(es: Seq<(Tree, Tree)>, ds: Seq<(Seq<char>, bool)>) -> bool {
    es.len() == ds.len() && forall|i: int|
        #![trigger es[i]]
        0 <= i < es.len() ==> capability_entry(es[i], ds[i].0, ds[i].1)
}

/// A new name goes to the end.
proof fn lemma_with_new(acc: Seq<(Seq<char>, bool)>, name: Seq<char>, on: bool)
    requires
        forall|i: int| 0 <= i < acc.len() ==> (#[trigger] acc[i]).0 != name,
    ensures
        table::with(acc, name, on) == acc.push((name, on)),
{
    table::lemma_position_is(acc, name, acc.len());
}

proof fn lemma_devices(
    es: Seq<(Tree, Tree)>,
    ds: Seq<(Seq<char>, bool)>,
    acc: Seq<(Seq<char>, bool)>,
)
    requires
        device_entries(es, ds),
        table::distinct(acc + ds),
    ensures
        read_devices(es, acc) == Ok::<_, Seq<char>>(acc + ds),
    decreases es.len(),
{
    if es.len() == 0 {
        assert(acc + ds =~= acc);
    } else {
        assert(device_entry(es[0], ds[0].0, ds[0].1));
        assert forall|i: int| 0 <= i < acc.len() implies (#[trigger] acc[i]).0 != ds[0].0 by {
            assert((acc + ds)[i] == acc[i]);
            assert((acc + ds)[acc.len() as int] == ds[0]);
        }
        lemma_with_new(acc, ds[0].0, ds[0].1);
        let next = acc.push(ds[0]);
        assert(next + ds.skip(1) =~= acc + ds);
        assert(device_entries(es.skip(1), ds.skip(1))) by {
            assert forall|i: int|
                #![trigger es.skip(1)[i]]
                0 <= i < es.skip(1).len() implies device_entry(
                es.skip(1)[i],
                ds.skip(1)[i].0,
                ds.skip(1)[i].1,
            ) by {
                assert(device_entry(es[i + 1], ds[i + 1].0, ds[i + 1].1));
            }
        }
        lemma_devices(es.skip(1), ds.skip(1), next);
    }
}

proof fn lemma_devices_ok(es: Seq<(Tree, Tree)>, acc: Seq<(Seq<char>, bool)>)
    ensures
        read_devices(es, acc) is Ok <==> all_device_entries(es),
    decreases es.len(),
{
    if es.len() > 0 {
        let t = es.skip(1);
        if doc::read_device(es[0], acc) is Ok {
            let next = doc::read_device(es[0], acc)->Ok_0;
            lemma_devices_ok(t, next);
            assert(device_entry(
                es[0],
                yaml::string(es[0].0)->Some_0,
                flag(es[0].1)->Some_0,
            ));
            if read_devices(t, next) is Ok {
                assert forall|i: int| 0 <= i < es.len() implies is_device_entry(#[trigger] es[i]) by {
                    if i > 0 {
                        assert(t[i - 1] == es[i]);
                    }
                }
            } else {
                let i = choose|i: int| 0 <= i < t.len() && !is_device_entry(#[trigger] t[i]);
                assert(es[i + 1] == t[i]);
            }
        } else {
            assert forall|name: Seq<char>, on: bool| !#[trigger]
                device_entry(es[0], name, on) by {}
        }
    }
}

/// Why an entry for a device is refused: its key is no string, is no device's
/// name, which says so of a MIG instance, or its value is no boolean.
pub proof fn law_why_a_device_is_refused(e: (Tree, Tree), acc: Seq<(Seq<char>, bool)>)
    ensures
        yaml::string(e.0) is None ==> doc::read_device(e, acc) == Err::<
            Seq<(Seq<char>, bool)>,
            Seq<char>,
        >("gpu.devices: keys must be strings"@),
        yaml::string(e.0) matches Some(name) ==> !device_id(name) ==> doc::read_device(e, acc)
            == Err::<Seq<(Seq<char>, bool)>, Seq<char>>(
            "gpu.devices: '"@ + name + "' is not a GPU UUID (GPU-<uuid>"@ + if name.len() >= 4
                && name.take(4) == "MIG-"@ {
                "; MIG instances are not supported)"@
            } else {
                ")"@
            },
        ),
        yaml::string(e.0) matches Some(name) ==> device_id(name) && flag(e.1) is None
            ==> doc::read_device(e, acc) == Err::<Seq<(Seq<char>, bool)>, Seq<char>>(
            "gpu.devices."@ + name + ": expected a boolean (true/false or 1/0)"@,
        ),
        yaml::string(e.0) matches Some(name) ==> all_capabilities().contains(name) && flag(
            e.1,
        ) is None ==> doc::read_capability(e, acc) == Err::<Seq<(Seq<char>, bool)>, Seq<char>>(
            "gpu.capabilities."@ + name + ": expected a boolean (true/false or 1/0)"@,
        ),
{
    reveal_strlit("MIG-");
    assert("MIG-"@.len() == 4);
}

/// A map of devices is accepted exactly if every entry says true or false of a
/// device; it then says what its entries say, in their order.
pub proof fn law_how_devices_are_read(es: Seq<(Tree, Tree)>, ds: Seq<(Seq<char>, bool)>)
    ensures
        read_devices(es, Seq::empty()) is Ok <==> all_device_entries(es),
        device_entries(es, ds) && table::distinct(ds) ==> read_devices(es, Seq::empty()) == Ok::<
            _,
            Seq<char>,
        >(ds),
{
    lemma_devices_ok(es, Seq::empty());
    if device_entries(es, ds) && table::distinct(ds) {
        assert(Seq::<(Seq<char>, bool)>::empty() + ds =~= ds);
        lemma_devices(es, ds, Seq::empty());
    }
}

proof fn lemma_is_capability(c: Seq<char>)
    ensures
        all_capabilities().contains(c) <==> is_capability(c),
{
    doc::lemma_capability_names();
    let all = all_capabilities();
    assert(all[0] == "compute"@ && all[1] == "compat32"@ && all[2] == "display"@ && all[3]
        == "graphics"@ && all[4] == "utility"@ && all[5] == "video"@);
}

proof fn lemma_capabilities(
    es: Seq<(Tree, Tree)>,
    ds: Seq<(Seq<char>, bool)>,
    acc: Seq<(Seq<char>, bool)>,
)
    requires
        capability_entries(es, ds),
        table::distinct(acc + ds),
    ensures
        read_capabilities(es, acc) == Ok::<_, Seq<char>>(acc + ds),
    decreases es.len(),
{
    if es.len() == 0 {
        assert(acc + ds =~= acc);
    } else {
        assert(capability_entry(es[0], ds[0].0, ds[0].1));
        lemma_is_capability(ds[0].0);
        assert forall|i: int| 0 <= i < acc.len() implies (#[trigger] acc[i]).0 != ds[0].0 by {
            assert((acc + ds)[i] == acc[i]);
            assert((acc + ds)[acc.len() as int] == ds[0]);
        }
        lemma_with_new(acc, ds[0].0, ds[0].1);
        let next = acc.push(ds[0]);
        assert(next + ds.skip(1) =~= acc + ds);
        assert(capability_entries(es.skip(1), ds.skip(1))) by {
            assert forall|i: int|
                #![trigger es.skip(1)[i]]
                0 <= i < es.skip(1).len() implies capability_entry(
                es.skip(1)[i],
                ds.skip(1)[i].0,
                ds.skip(1)[i].1,
            ) by {
                assert(capability_entry(es[i + 1], ds[i + 1].0, ds[i + 1].1));
            }
        }
        lemma_capabilities(es.skip(1), ds.skip(1), next);
    }
}

proof fn lemma_capabilities_ok(es: Seq<(Tree, Tree)>, acc: Seq<(Seq<char>, bool)>)
    ensures
        read_capabilities(es, acc) is Ok <==> all_capability_entries(es),
    decreases es.len(),
{
    if es.len() > 0 {
        let t = es.skip(1);
        assert forall|c: Seq<char>|
            #![trigger all_capabilities().contains(c)]
            all_capabilities().contains(c) <==> is_capability(c) by {
            lemma_is_capability(c);
        }
        if doc::read_capability(es[0], acc) is Ok {
            let next = doc::read_capability(es[0], acc)->Ok_0;
            lemma_capabilities_ok(t, next);
            assert(capability_entry(
                es[0],
                yaml::string(es[0].0)->Some_0,
                flag(es[0].1)->Some_0,
            ));
            if read_capabilities(t, next) is Ok {
                assert forall|i: int| 0 <= i < es.len() implies is_capability_entry(#[trigger] es[i]) by {
                    if i > 0 {
                        assert(t[i - 1] == es[i]);
                    }
                }
            } else {
                let i = choose|i: int| 0 <= i < t.len() && !is_capability_entry(#[trigger] t[i]);
                assert(es[i + 1] == t[i]);
            }
        } else {
            assert forall|name: Seq<char>, on: bool| !#[trigger]
                capability_entry(es[0], name, on) by {
                lemma_is_capability(name);
            }
        }
    }
}

/// A map of capabilities is accepted exactly if every entry says true or false
/// of a capability the hook accepts; it then says what its entries say, in
/// their order.
pub proof fn law_how_capabilities_are_read(es: Seq<(Tree, Tree)>, ds: Seq<(Seq<char>, bool)>)
    ensures
        read_capabilities(es, Seq::empty()) is Ok <==> all_capability_entries(es),
        capability_entries(es, ds) && table::distinct(ds) ==> read_capabilities(es, Seq::empty())
            == Ok::<_, Seq<char>>(ds),
{
    lemma_capabilities_ok(es, Seq::empty());
    if capability_entries(es, ds) && table::distinct(ds) {
        assert(Seq::<(Seq<char>, bool)>::empty() + ds =~= ds);
        lemma_capabilities(es, ds, Seq::empty());
    }
}

/// A CUDA version is a string, white space around it aside, or the spelling of
/// a number, and begins with a digit and holds only digits and dots.
pub proof fn law_how_a_cuda_version_is_read(t: Tree, v: Seq<char>)
    ensures
        read_cuda(t) == Ok::<_, Seq<char>>(v) <==> {
            &&& match t {
                Tree::Text(s) => v == text::trim(s),
                Tree::Number(_, s) => v == s,
                _ => false,
            }
            &&& v.len() > 0 && v[0] != '.'
            &&& forall|i: int| 0 <= i < v.len() ==> '0' <= #[trigger] v[i] <= '9' || v[i] == '.'
        },
{
    law_what_a_version_is(v);
}

/// `e` is a field that is accepted, with the key `key`.
pub open spec fn is_field(e: (Tree, Tree), key: Seq<char>) -> bool {
    &&& yaml::string(e.0) == Some(key)
    &&& {
        ||| key == "devices"@ && yaml::mapping(e.1) is Some && read_devices(
            yaml::mapping(e.1)->Some_0,
            Seq::empty(),
        ) is Ok
        ||| key == "capabilities"@ && yaml::mapping(e.1) is Some && read_capabilities(
            yaml::mapping(e.1)->Some_0,
            Seq::empty(),
        ) is Ok
        ||| key == "require_cuda"@ && read_cuda(e.1) is Ok
    }
}

/// `e` is a field that is accepted.
pub open spec fn some_field(e: (Tree, Tree)) -> bool {
    exists|key: Seq<char>| #[trigger] is_field(e, key)
}

/// Every entry is a field that is accepted.
pub open spec fn all_fields(es: Seq<(Tree, Tree)>) -> bool {
    forall|i: int| 0 <= i < es.len() ==> some_field(#[trigger] es[i])
}

/// The key of `e` is `key`.
pub open spec fn keyed(e: (Tree, Tree), key: Seq<char>) -> bool {
    yaml::string(e.0) == Some(key)
}

/// No entry has the key `key`.
pub open spec fn without_key(es: Seq<(Tree, Tree)>, key: Seq<char>) -> bool {
    forall|i: int| 0 <= i < es.len() ==> !keyed(#[trigger] es[i], key)
}

/// `es[i]` alone has the key `key`.
pub open spec fn only_key(es: Seq<(Tree, Tree)>, i: int, key: Seq<char>) -> bool {
    0 <= i < es.len() && keyed(es[i], key) && forall|j: int|
        0 <= j < es.len() && j != i ==> !keyed(#[trigger] es[j], key)
}

proof fn lemma_field_names()
    ensures
        "devices"@ != "capabilities"@,
        "devices"@ != "require_cuda"@,
        "capabilities"@ != "require_cuda"@,
{
    reveal_strlit("devices");
    reveal_strlit("capabilities");
    reveal_strlit("require_cuda");
    assert("devices"@.len() == 7);
    assert("capabilities"@[0] == 'c' && "require_cuda"@[0] == 'r');
    assert("capabilities"@.len() == 12);
}

proof fn lemma_field(e: (Tree, Tree), acc: Want)
    ensures
        read_field(e, acc) is Ok <==> some_field(e),
        read_field(e, acc) matches Ok(w) ==> {
            &&& if keyed(e, "devices"@) {
                Ok::<_, Seq<char>>(w.devices) == read_devices(
                    yaml::mapping(e.1)->Some_0,
                    acc.devices,
                )
            } else {
                w.devices == acc.devices
            }
            &&& if keyed(e, "capabilities"@) {
                w.capabilities is Some && Ok::<_, Seq<char>>(w.capabilities->Some_0)
                    == read_capabilities(yaml::mapping(e.1)->Some_0, Seq::empty())
            } else {
                w.capabilities == acc.capabilities
            }
            &&& if keyed(e, "require_cuda"@) {
                w.require_cuda is Some && Ok::<_, Seq<char>>(w.require_cuda->Some_0) == read_cuda(
                    e.1,
                )
            } else {
                w.require_cuda == acc.require_cuda
            }
        },
{
    lemma_field_names();
    if let Some(m) = yaml::mapping(e.1) {
        lemma_devices_ok(m, acc.devices);
        lemma_devices_ok(m, Seq::empty());
    }
    if read_field(e, acc) is Ok {
        assert(is_field(e, yaml::string(e.0)->Some_0));
    }
}

proof fn lemma_fields(es: Seq<(Tree, Tree)>, acc: Want)
    ensures
        read_fields(es, acc) is Ok <==> all_fields(es),
        read_fields(es, acc) matches Ok(w) ==> {
            &&& without_key(es, "devices"@) ==> w.devices == acc.devices
            &&& without_key(es, "capabilities"@) ==> w.capabilities == acc.capabilities
            &&& without_key(es, "require_cuda"@) ==> w.require_cuda == acc.require_cuda
        },
    decreases es.len(),
{
    if es.len() > 0 {
        let t = es.skip(1);
        lemma_field(es[0], acc);
        if let Ok(next) = read_field(es[0], acc) {
            lemma_fields(t, next);
            if read_fields(t, next) is Ok {
                assert forall|i: int| 0 <= i < es.len() implies some_field(#[trigger] es[i]) by {
                    if i > 0 {
                        assert(t[i - 1] == es[i]);
                    }
                }
            } else {
                let i = choose|i: int| 0 <= i < t.len() && !some_field(#[trigger] t[i]);
                assert(es[i + 1] == t[i]);
            }
            lemma_without_skip(es, "devices"@);
            lemma_without_skip(es, "capabilities"@);
            lemma_without_skip(es, "require_cuda"@);
        } else {
            assert forall|key: Seq<char>| !#[trigger] is_field(es[0], key) by {}
        }
    }
}

proof fn lemma_without_skip(es: Seq<(Tree, Tree)>, key: Seq<char>)
    requires
        es.len() > 0,
    ensures
        without_key(es, key) ==> !keyed(es[0], key) && without_key(es.skip(1), key),
{
    if without_key(es, key) {
        assert forall|i: int| 0 <= i < es.skip(1).len() implies !keyed(
            #[trigger] es.skip(1)[i],
            key,
        ) by {
            assert(!keyed(es[i + 1], key));
        }
    }
}

proof fn lemma_only_key(es: Seq<(Tree, Tree)>, i: int, acc: Want)
    requires
        0 <= i < es.len(),
    ensures
        read_fields(es, acc) matches Ok(w) ==> {
            &&& only_key(es, i, "devices"@) ==> Ok::<_, Seq<char>>(w.devices) == read_devices(
                yaml::mapping(es[i].1)->Some_0,
                acc.devices,
            )
            &&& only_key(es, i, "capabilities"@) ==> w.capabilities is Some && Ok::<_, Seq<char>>(
                w.capabilities->Some_0,
            ) == read_capabilities(yaml::mapping(es[i].1)->Some_0, Seq::empty())
            &&& only_key(es, i, "require_cuda"@) ==> w.require_cuda is Some && Ok::<_, Seq<char>>(
                w.require_cuda->Some_0,
            ) == read_cuda(es[i].1)
        },
    decreases es.len(),
{
    let t = es.skip(1);
    lemma_field(es[0], acc);
    lemma_field_names();
    if let Ok(next) = read_field(es[0], acc) {
        if i == 0 {
            lemma_fields(t, next);
            lemma_only_first(es, "devices"@);
            lemma_only_first(es, "capabilities"@);
            lemma_only_first(es, "require_cuda"@);
        } else {
            lemma_only_key(t, i - 1, next);
            assert(t[i - 1] == es[i]);
            lemma_only_later(es, i, "devices"@);
            lemma_only_later(es, i, "capabilities"@);
            lemma_only_later(es, i, "require_cuda"@);
        }
    }
}

proof fn lemma_only_first(es: Seq<(Tree, Tree)>, key: Seq<char>)
    requires
        es.len() > 0,
    ensures
        only_key(es, 0, key) ==> without_key(es.skip(1), key),
{
    if only_key(es, 0, key) {
        assert forall|j: int| 0 <= j < es.skip(1).len() implies !keyed(
            #[trigger] es.skip(1)[j],
            key,
        ) by {
            assert(!keyed(es[j + 1], key));
        }
    }
}

proof fn lemma_only_later(es: Seq<(Tree, Tree)>, i: int, key: Seq<char>)
    requires
        0 < i < es.len(),
    ensures
        only_key(es, i, key) ==> !keyed(es[0], key) && only_key(es.skip(1), i - 1, key),
{
    if only_key(es, i, key) {
        assert forall|j: int| 0 <= j < es.skip(1).len() && j != i - 1 implies !keyed(
            #[trigger] es.skip(1)[j],
            key,
        ) by {
            assert(!keyed(es[j + 1], key));
        }
    }
}

/// A document is accepted exactly if it is a map and each of its fields is
/// one of the three and is accepted. It then says of each what that field
/// says, and nothing where there is no such field.
pub proof fn law_how_a_document_is_read(t: Tree, i: int)
    ensures
        want_of(t) is Ok <==> yaml::mapping(t) is Some && all_fields(yaml::mapping(t)->Some_0),
        want_of(t) matches Ok(w) ==> {
            let m = yaml::mapping(t)->Some_0;
            &&& without_key(m, "devices"@) ==> w.devices.len() == 0
            &&& without_key(m, "capabilities"@) ==> w.capabilities is None
            &&& without_key(m, "require_cuda"@) ==> w.require_cuda is None
            &&& only_key(m, i, "devices"@) ==> read_devices(
                yaml::mapping(m[i].1)->Some_0,
                Seq::empty(),
            ) == Ok::<_, Seq<char>>(w.devices)
            &&& only_key(m, i, "capabilities"@) ==> w.capabilities is Some && read_capabilities(
                yaml::mapping(m[i].1)->Some_0,
                Seq::empty(),
            ) == Ok::<_, Seq<char>>(w.capabilities->Some_0)
            &&& only_key(m, i, "require_cuda"@) ==> w.require_cuda is Some && read_cuda(m[i].1)
                == Ok::<_, Seq<char>>(w.require_cuda->Some_0)
        },
{
    if let Some(m) = yaml::mapping(t) {
        lemma_fields(m, doc::nothing());
        if 0 <= i < m.len() {
            lemma_only_key(m, i, doc::nothing());
        }
    }
}

/// A text is a document's exactly if it can be read and is accepted, and says
/// what the document does.
pub proof fn law_which_texts_are_documents(read: Result<Tree, Seq<char>>, t: Tree, e: Seq<char>)
    ensures
        doc::want_in(Ok(t)) == want_of(t),
        doc::want_in(Err(e)) == Err::<Want, Seq<char>>("gpu subtree: "@ + e),
        doc::want_in(read) is Ok <==> read is Ok && want_of(read->Ok_0) is Ok,
{
}

/// A finished `pve-meta get` says that there is no document exactly if it
/// exits with 2, and what a document says exactly if it exits with 0 and the
/// document is accepted; anything else is an error.
pub proof fn law_what_an_answer_says(
    vmid: u32,
    out: Said,
    parsed: Result<Want, Seq<char>>,
    w: Want,
)
    ensures
        answer(vmid, out, parsed) == Ok::<Option<Want>, Seq<char>>(None) <==> out.status == 2,
        answer(vmid, out, parsed) == Ok::<Option<Want>, Seq<char>>(Some(w)) <==> out.status == 0
            && parsed == Ok::<Want, Seq<char>>(w),
{
}

} // verus!
