//! What the rendered lines allow and say, as they are read back.

use vstd::prelude::*;

use crate::conf::{self, allow_line, rendered, rendered_allows, rendered_env};
use crate::inventory::Card;
use crate::laws::conf::{
    lemma_line_reads, lemma_lxc_value, lemma_raw_key, lemma_reads_line, lemma_rule_allowed,
    raw_key, reads, rule, rule_at,
};
use crate::text;

verus! {

/// `line` allows reading, writing and making the character device with these
/// numbers.
pub open spec fn allows_device(line: Seq<char>, major: u32, minor: u32) -> bool {
    exists|v: Seq<char>|
        #![trigger reads(line, "lxc.cgroup2.devices.allow"@, v)]
        reads(line, "lxc.cgroup2.devices.allow"@, v) && rule(v, Some(major), Some(minor))
            && text::words(v).len() == 3 && text::words(v)[2] == "rwm"@
}

/// Some line of `ls` allows the character device with these numbers.
pub open spec fn some_allows(ls: Seq<Seq<char>>, major: u32, minor: u32) -> bool {
    exists|i: int| 0 <= i < ls.len() && #[trigger] allows_device(ls[i], major, minor)
}

/// Some line of `ls` gives `key` the value `v`.
pub open spec fn some_reads(ls: Seq<Seq<char>>, key: Seq<char>, v: Seq<char>) -> bool {
    exists|i: int| 0 <= i < ls.len() && #[trigger] reads(ls[i], key, v)
}

/// An allow line allows its device, and no other.
proof fn lemma_allow_line_allows(major: u32, minor: u32)
    ensures
        allows_device(allow_line(major, minor), major, minor),
        forall|v: Seq<char>, a: Option<u32>, b: Option<u32>|
            #![trigger reads(allow_line(major, minor), "lxc.cgroup2.devices.allow"@, v), rule(v, a, b)]
            reads(allow_line(major, minor), "lxc.cgroup2.devices.allow"@, v) && rule(v, a, b)
                ==> a == Some(major) && b == Some(minor),
{
    reveal_strlit(": ");
    reveal_strlit(": c ");
    reveal_strlit(":");
    reveal_strlit(" rwm");
    reveal_strlit("rwm");
    reveal_strlit("c");
    let k = "lxc.cgroup2.devices.allow"@;
    conf::lemma_keys();
    let a = text::decimal(major as nat);
    let b = text::decimal(minor as nat);
    text::lemma_decimal(major as nat);
    text::lemma_decimal(minor as nat);
    text::lemma_decimal_parses(major as nat, u32::MAX as nat);
    text::lemma_decimal_parses(minor as nat, u32::MAX as nat);
    conf::lemma_decimal_has_none(major as nat, ':');
    conf::lemma_decimal_has_none(minor as nat, ':');
    let space = seq![' '];
    let tail = " rwm"@;
    let pair = a + seq![':'] + b;
    let v = "c"@ + (space + (pair + tail));
    let l = allow_line(major, minor);
    assert(l =~= k + ": "@ + v);
    conf::lemma_lxc_line(k, v);
    lemma_line_reads(l);
    assert(v =~= Seq::empty() + seq!['c'] + space + a + seq![':'] + b + tail);
    assert(rule_at(v, Seq::empty(), space, a, b, tail));
    assert(rule(v, Some(major), Some(minor)));
    // Its words.
    assert(text::spaceless(pair));
    assert(text::spaceless("c"@));
    text::lemma_words_first("c"@, space + (pair + tail));
    text::lemma_words_space(' ', pair + tail);
    text::lemma_words_first(pair, tail);
    assert(tail =~= seq![' '] + "rwm"@);
    text::lemma_words_space(' ', "rwm"@);
    assert("rwm"@ =~= "rwm"@ + Seq::empty());
    assert(text::spaceless("rwm"@));
    text::lemma_words_first("rwm"@, Seq::empty());
    assert(text::words(Seq::empty()) =~= Seq::empty());
    assert(text::words(v) =~= seq!["c"@, pair, "rwm"@]);
    assert forall|u: Seq<char>, p: Option<u32>, q: Option<u32>|
        #![trigger reads(l, k, u), rule(u, p, q)]
        reads(l, k, u) && rule(u, p, q) implies p == Some(major) && q == Some(minor) by {
        lemma_reads_line(l, k, u);
        lemma_rule_allowed(u, p, q);
        lemma_rule_allowed(v, Some(major), Some(minor));
    }
}

/// Where each line stands.
proof fn lemma_places(
    gpus: Seq<Card>,
    caps: Seq<Seq<char>>,
    require_cuda: Option<Seq<char>>,
    uvm: Option<u32>,
)
    requires
        gpus.len() > 0,
    ensures
        ({
            let r = rendered(gpus, caps, require_cuda, uvm);
            let n = gpus.len() as int;
            let m: int = if caps.contains("graphics"@) || caps.contains("display"@) {
                1
            } else {
                0
            };
            let u: int = if uvm is Some {
                2
            } else {
                0
            };
            let c: int = if caps.len() > 0 {
                1
            } else {
                0
            };
            let q: int = if require_cuda is Some {
                1
            } else {
                0
            };
            &&& r.len() == n + m + 1 + u + 1 + 1 + c + q
            &&& forall|i: int| 0 <= i < n ==> #[trigger] r[i] == allow_line(195, gpus[i].minor)
            &&& m == 1 ==> r[n] == allow_line(195, 254)
            &&& r[n + m] == allow_line(195, 255)
            &&& uvm matches Some(v) ==> r[n + m + 1] == allow_line(v, 0) && r[n + m + 2]
                == allow_line(v, 1)
            &&& r[n + m + 1 + u] == "lxc.hook.mount"@ + ": "@ + "/usr/share/lxc/hooks/nvidia"@
            &&& r[n + m + 2 + u] == "lxc.environment"@ + ": NVIDIA_VISIBLE_DEVICES="@ + text::join(
                gpus.map_values(|g: Card| g.uuid),
                ","@,
            )
            &&& c == 1 ==> r[n + m + 3 + u] == "lxc.environment"@ + ": NVIDIA_DRIVER_CAPABILITIES="@
                + text::join(caps, ","@)
            &&& require_cuda matches Some(v) ==> r[n + m + 3 + u + c] == "lxc.environment"@
                + ": NVIDIA_REQUIRE_CUDA=cuda>="@ + v
        }),
{
    let allows = rendered_allows(gpus, caps, uvm);
    let env = rendered_env(gpus, caps, require_cuda);
    let r = rendered(gpus, caps, require_cuda, uvm);
    let hook = "lxc.hook.mount"@ + ": "@ + "/usr/share/lxc/hooks/nvidia"@;
    assert(r == allows + seq![hook] + env);
}

/// Every selected card gets a rule for the driver's major and its own minor,
/// in the order of the cards.
pub proof fn law_every_card_gets_its_rule(
    gpus: Seq<Card>,
    caps: Seq<Seq<char>>,
    require_cuda: Option<Seq<char>>,
    uvm: Option<u32>,
    i: int,
)
    requires
        0 <= i < gpus.len(),
    ensures
        i < rendered(gpus, caps, require_cuda, uvm).len(),
        allows_device(rendered(gpus, caps, require_cuda, uvm)[i], 195, gpus[i].minor),
        some_allows(rendered(gpus, caps, require_cuda, uvm), 195, gpus[i].minor),
{
    lemma_places(gpus, caps, require_cuda, uvm);
    lemma_allow_line_allows(195, gpus[i].minor);
    assert(allows_device(rendered(gpus, caps, require_cuda, uvm)[i], 195, gpus[i].minor));
}

/// With a card there is a rule for the control device, one for the modeset
/// device where graphics or display is asked for, and both of the UVM devices
/// where their major is known; no card, no line.
pub proof fn law_the_devices_beside_the_cards(
    gpus: Seq<Card>,
    caps: Seq<Seq<char>>,
    require_cuda: Option<Seq<char>>,
    uvm: Option<u32>,
)
    ensures
        gpus.len() == 0 ==> rendered(gpus, caps, require_cuda, uvm).len() == 0,
        gpus.len() > 0 ==> some_allows(rendered(gpus, caps, require_cuda, uvm), 195, 255),
        gpus.len() > 0 && (caps.contains("graphics"@) || caps.contains("display"@))
            ==> some_allows(rendered(gpus, caps, require_cuda, uvm), 195, 254),
        gpus.len() > 0 ==> (uvm matches Some(u) ==> some_allows(
            rendered(gpus, caps, require_cuda, uvm),
            u,
            0,
        ) && some_allows(rendered(gpus, caps, require_cuda, uvm), u, 1)),
{
    if gpus.len() > 0 {
        lemma_places(gpus, caps, require_cuda, uvm);
        let r = rendered(gpus, caps, require_cuda, uvm);
        let n = gpus.len() as int;
        let m: int = if caps.contains("graphics"@) || caps.contains("display"@) {
            1
        } else {
            0
        };
        lemma_allow_line_allows(195, 255);
        assert(allows_device(r[n + m], 195, 255));
        if m == 1 {
            lemma_allow_line_allows(195, 254);
            assert(allows_device(r[n], 195, 254));
        }
        if let Some(u) = uvm {
            lemma_allow_line_allows(u, 0);
            lemma_allow_line_allows(u, 1);
            assert(allows_device(r[n + m + 1], u, 0));
            assert(allows_device(r[n + m + 2], u, 1));
        }
    }
}

/// A line with another raw key gives `k` no value.
proof fn lemma_other_key(line: Seq<char>, other: Seq<char>, x: Seq<char>, k: Seq<char>)
    requires
        raw_key(other),
        other != k,
        line =~= other + seq![':'] + x,
    ensures
        forall|v: Seq<char>| !#[trigger] reads(line, k, v),
{
    reveal_strlit(":");
    assert(line =~= other + ":"@ + x);
    lemma_lxc_value(other, x);
    assert forall|v: Seq<char>| !#[trigger] reads(line, k, v) by {
        if reads(line, k, v) {
            lemma_reads_line(line, k, v);
        }
    }
}

/// Every rendered rule names one device: for the driver's major a selected
/// card's minor, the control device's, or the modeset device's where graphics
/// or display is asked for; otherwise one of the two UVM devices.
pub proof fn law_no_rule_but_for_what_was_asked(
    gpus: Seq<Card>,
    caps: Seq<Seq<char>>,
    require_cuda: Option<Seq<char>>,
    uvm: Option<u32>,
    i: int,
    v: Seq<char>,
    major: Option<u32>,
    minor: Option<u32>,
)
    requires
        0 <= i < rendered(gpus, caps, require_cuda, uvm).len(),
        reads(rendered(gpus, caps, require_cuda, uvm)[i], "lxc.cgroup2.devices.allow"@, v),
        rule(v, major, minor),
    ensures
        major is Some && minor is Some,
        major == Some(195u32) || major == uvm,
        major == Some(195u32) ==> {
            ||| uvm == major && (minor == Some(0u32) || minor == Some(1u32))
            ||| minor == Some(255u32)
            ||| minor == Some(254u32) && (caps.contains("graphics"@) || caps.contains("display"@))
            ||| exists|j: int| 0 <= j < gpus.len() && minor == Some((#[trigger] gpus[j]).minor)
        },
        major != Some(195u32) ==> minor == Some(0u32) || minor == Some(1u32),
{
    let r = rendered(gpus, caps, require_cuda, uvm);
    let k = "lxc.cgroup2.devices.allow"@;
    lemma_places(gpus, caps, require_cuda, uvm);
    conf::lemma_keys();
    reveal_strlit(": ");
    reveal_strlit(": NVIDIA_VISIBLE_DEVICES=");
    reveal_strlit(": NVIDIA_DRIVER_CAPABILITIES=");
    reveal_strlit(": NVIDIA_REQUIRE_CUDA=cuda>=");
    let n = gpus.len() as int;
    let m: int = if caps.contains("graphics"@) || caps.contains("display"@) {
        1
    } else {
        0
    };
    let u: int = if uvm is Some {
        2
    } else {
        0
    };
    let c: int = if caps.len() > 0 {
        1
    } else {
        0
    };
    lemma_raw_key("lxc.hook.mount"@);
    lemma_raw_key("lxc.environment"@);
    if i < n {
        lemma_allow_line_allows(195, gpus[i].minor);
    } else if m == 1 && i == n {
        lemma_allow_line_allows(195, 254);
    } else if i == n + m {
        lemma_allow_line_allows(195, 255);
    } else if uvm is Some && i == n + m + 1 {
        lemma_allow_line_allows(uvm->Some_0, 0);
    } else if uvm is Some && i == n + m + 2 {
        lemma_allow_line_allows(uvm->Some_0, 1);
    } else if i == n + m + 1 + u {
        let x = seq![' '] + "/usr/share/lxc/hooks/nvidia"@;
        assert(r[i] =~= "lxc.hook.mount"@ + seq![':'] + x);
        lemma_other_key(r[i], "lxc.hook.mount"@, x, k);
    } else {
        let e = "lxc.environment"@;
        let x = r[i].skip(e.len() as int + 1);
        assert(r[i] =~= e + seq![':'] + x);
        lemma_other_key(r[i], e, x, k);
    }
}

/// A variable's line gives it its value.
proof fn lemma_env_reads(prefix: Seq<char>, name: Seq<char>, value: Seq<char>)
    requires
        prefix =~= ": "@ + name,
        name.len() > 0,
        !text::is_space(name[0]),
        text::tidy(value),
    ensures
        reads("lxc.environment"@ + prefix + value, "lxc.environment"@, name + value),
{
    reveal_strlit(": ");
    let k = "lxc.environment"@;
    conf::lemma_keys();
    let l = k + prefix + value;
    assert(l =~= k + ": "@ + (name + value));
    assert((name + value).last() == value.last());
    conf::lemma_lxc_line(k, name + value);
    lemma_line_reads(l);
}

/// The rest of the lines: LXC's mount hook, the selected cards' uuids in their
/// order, the capabilities in theirs where there are any, and the CUDA version
/// that is required where one is. There are no lines beside these and the
/// rules.
pub proof fn law_what_the_hook_is_told(
    gpus: Seq<Card>,
    caps: Seq<Seq<char>>,
    require_cuda: Option<Seq<char>>,
    uvm: Option<u32>,
)
    requires
        gpus.len() > 0,
        conf::renderable(gpus, caps, require_cuda),
        forall|i: int| 0 <= i < gpus.len() ==> !(#[trigger] gpus[i]).uuid.contains(','),
        forall|i: int| 0 <= i < caps.len() ==> !(#[trigger] caps[i]).contains(','),
    ensures
        some_reads(
            rendered(gpus, caps, require_cuda, uvm),
            "lxc.hook.mount"@,
            "/usr/share/lxc/hooks/nvidia"@,
        ),
        exists|list: Seq<char>|
            #![trigger text::fields(list, ',')]
            some_reads(
                rendered(gpus, caps, require_cuda, uvm),
                "lxc.environment"@,
                "NVIDIA_VISIBLE_DEVICES="@ + list,
            ) && text::fields(list, ',') == Seq::new(gpus.len(), |i: int| gpus[i].uuid),
        caps.len() > 0 ==> exists|list: Seq<char>|
            #![trigger text::fields(list, ',')]
            some_reads(
                rendered(gpus, caps, require_cuda, uvm),
                "lxc.environment"@,
                "NVIDIA_DRIVER_CAPABILITIES="@ + list,
            ) && text::fields(list, ',') == caps,
        require_cuda matches Some(v) ==> some_reads(
            rendered(gpus, caps, require_cuda, uvm),
            "lxc.environment"@,
            "NVIDIA_REQUIRE_CUDA=cuda>="@ + v,
        ),
        rendered(gpus, caps, require_cuda, uvm).len() == gpus.len() + (if caps.contains(
            "graphics"@,
        ) || caps.contains("display"@) {
            1int
        } else {
            0
        }) + 1 + (if uvm is Some {
            2int
        } else {
            0
        }) + 2 + (if caps.len() > 0 {
            1int
        } else {
            0
        }) + (if require_cuda is Some {
            1int
        } else {
            0
        }),
{
    let r = rendered(gpus, caps, require_cuda, uvm);
    lemma_places(gpus, caps, require_cuda, uvm);
    conf::lemma_keys();
    reveal_strlit(": ");
    reveal_strlit(",");
    reveal_strlit("/usr/share/lxc/hooks/nvidia");
    reveal_strlit(": NVIDIA_VISIBLE_DEVICES=");
    reveal_strlit(": NVIDIA_DRIVER_CAPABILITIES=");
    reveal_strlit(": NVIDIA_REQUIRE_CUDA=cuda>=");
    reveal_strlit("NVIDIA_VISIBLE_DEVICES=");
    reveal_strlit("NVIDIA_DRIVER_CAPABILITIES=");
    reveal_strlit("NVIDIA_REQUIRE_CUDA=cuda>=");
    let n = gpus.len() as int;
    let m: int = if caps.contains("graphics"@) || caps.contains("display"@) {
        1
    } else {
        0
    };
    let u: int = if uvm is Some {
        2
    } else {
        0
    };
    let c: int = if caps.len() > 0 {
        1
    } else {
        0
    };
    let hook = "/usr/share/lxc/hooks/nvidia"@;
    conf::lemma_lxc_line("lxc.hook.mount"@, hook);
    lemma_line_reads(r[n + m + 1 + u]);
    assert(","@ =~= seq![',']);
    let uuids = gpus.map_values(|g: Card| g.uuid);
    assert forall|i: int| 0 <= i < uuids.len() implies text::tidy(#[trigger] uuids[i])
        && !uuids[i].contains(',') by {
        assert(text::tidy(gpus[i].uuid));
    }
    conf::lemma_join_tidy(uuids);
    text::lemma_fields_of_join(uuids, ',');
    let list = text::join(uuids, ","@);
    lemma_env_reads(": NVIDIA_VISIBLE_DEVICES="@, "NVIDIA_VISIBLE_DEVICES="@, list);
    assert(reads(r[n + m + 2 + u], "lxc.environment"@, "NVIDIA_VISIBLE_DEVICES="@ + list));
    assert(uuids =~= Seq::new(gpus.len(), |i: int| gpus[i].uuid));
    assert(text::fields(list, ',') == uuids);
    if caps.len() > 0 {
        conf::lemma_join_tidy(caps);
        text::lemma_fields_of_join(caps, ',');
        let list = text::join(caps, ","@);
        lemma_env_reads(": NVIDIA_DRIVER_CAPABILITIES="@, "NVIDIA_DRIVER_CAPABILITIES="@, list);
        assert(reads(r[n + m + 3 + u], "lxc.environment"@, "NVIDIA_DRIVER_CAPABILITIES="@ + list));
        assert(text::fields(list, ',') == caps);
    }
    if let Some(v) = require_cuda {
        lemma_env_reads(": NVIDIA_REQUIRE_CUDA=cuda>="@, "NVIDIA_REQUIRE_CUDA=cuda>="@, v);
        assert(reads(
            r[n + m + 3 + u + c],
            "lxc.environment"@,
            "NVIDIA_REQUIRE_CUDA=cuda>="@ + v,
        ));
    }
}

} // verus!
