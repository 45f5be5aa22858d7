//! What a plan gives a guest, from its config, its document and the node.

use vstd::prelude::*;

use crate::conf;
use crate::doc::{self, Want};
use crate::inventory::{self, Card, Facts};
use crate::laws::conf::{
    law_which_entries_pass_a_device, law_who_is_unprivileged, passes_a_device, runs_unprivileged,
};
use crate::laws::doc::law_which_devices_are_asked_for;
use crate::laws::render::{law_every_card_gets_its_rule, some_allows};
use crate::plan::{
    absent_notes, cards_for, owned_for, planned, present, stale_notes, OutcomeView,
};
use crate::text;

verus! {

// ---------------------------------------------------------------------------
// Whether there is a plan.
// ---------------------------------------------------------------------------

/// With a driver loaded and a `gpu` key present, a guest is refused exactly if
/// its main section does not say that it is unprivileged or has a `devN` entry
/// for an NVIDIA device; otherwise it gets a plan. What the record says of it
/// has no part in that.
pub proof fn law_who_is_refused(
    config: Seq<char>,
    want: Want,
    inv: Facts,
    remembered: Seq<u32>,
    managed: bool,
)
    requires
        inv.driver,
    ensures
        planned(config, Some(want), inv, remembered, managed) is Refused <==> !runs_unprivileged(
            config,
        ) || passes_a_device(config),
        planned(config, Some(want), inv, remembered, managed) is Plan <==> runs_unprivileged(config)
            && !passes_a_device(config),
        !runs_unprivileged(config) ==> planned(config, Some(want), inv, remembered, managed)
            == OutcomeView::Refused(
            "privileged container: LXC's nvidia hook only works in unprivileged ones"@,
        ),
{
    law_who_is_unprivileged(config);
    law_which_entries_pass_a_device(config);
}

/// A guest that is refused for its device entries is told each of them, and how
/// to remove them.
pub proof fn law_why_a_guest_is_refused(
    config: Seq<char>,
    want: Want,
    inv: Facts,
    remembered: Seq<u32>,
    managed: bool,
)
    requires
        inv.driver,
        runs_unprivileged(config),
        passes_a_device(config),
    ensures
        planned(config, Some(want), inv, remembered, managed) == OutcomeView::Refused(
            text::join(conf::nvidia_entries(config), ", "@)
                + " passes an NVIDIA device through PVE's own device passthrough, which cannot be combined with the hook (pct set <vmid> --delete "@
                + text::join(conf::nvidia_entries(config), ","@) + ")"@,
        ),
{
    law_who_is_unprivileged(config);
    law_which_entries_pass_a_device(config);
}

/// Lines are only ever to be written into a config that says it is
/// unprivileged and has no `devN` entry for an NVIDIA device, on a node with a
/// driver and for a guest with a `gpu` key.
pub proof fn law_who_gets_lines(
    config: Seq<char>,
    want: Option<Want>,
    inv: Facts,
    remembered: Seq<u32>,
    managed: bool,
)
    ensures
        planned(config, want, inv, remembered, managed) matches OutcomeView::Plan(p)
            && p.desired.len() > 0 ==> inv.driver && want is Some && runs_unprivileged(config)
            && !passes_a_device(config),
{
    law_who_is_unprivileged(config);
    law_which_entries_pass_a_device(config);
}

/// A guest with a `gpu` key is planned for alike, whether or not the record
/// has it.
pub proof fn law_the_record_is_nothing_to_a_guest_with_the_key(
    config: Seq<char>,
    want: Want,
    inv: Facts,
    remembered: Seq<u32>,
)
    ensures
        planned(config, Some(want), inv, remembered, true) == planned(
            config,
            Some(want),
            inv,
            remembered,
            false,
        ),
{
}

/// Without the key, the lines of a guest that the record has are removed,
/// whatever its config says, and a guest that it has not is let be.
pub proof fn law_without_the_key_the_record_decides(
    config: Seq<char>,
    inv: Facts,
    remembered: Seq<u32>,
    managed: bool,
)
    requires
        inv.driver,
    ensures
        managed <==> planned(config, None, inv, remembered, managed) is Plan,
        !managed <==> planned(config, None, inv, remembered, managed) is Unmanaged,
        planned(config, None, inv, remembered, managed) matches OutcomeView::Plan(p)
            ==> p.desired.len() == 0 && p.gpus.len() == 0,
{
}

// ---------------------------------------------------------------------------
// What is in it.
// ---------------------------------------------------------------------------

/// `c` is the first card of the node with the uuid `uuid`.
pub open spec fn first_card(gpus: Seq<Card>, uuid: Seq<char>, c: Card) -> bool {
    exists|i: int|
        #![trigger gpus[i]]
        0 <= i < gpus.len() && gpus[i] == c && c.uuid == uuid && forall|j: int|
            0 <= j < i ==> (#[trigger] gpus[j]).uuid != uuid
}

/// The document says true for the device `uuid`.
pub open spec fn asked(want: Want, uuid: Seq<char>) -> bool {
    exists|i: int| 0 <= i < want.devices.len() && #[trigger] want.devices[i] == (uuid, true)
}

/// A card is found by its uuid exactly if it is the first of the node with it.
pub proof fn law_how_a_card_is_found(gpus: Seq<Card>, uuid: Seq<char>, c: Card)
    ensures
        inventory::find_card(gpus, uuid) == Some(c) <==> first_card(gpus, uuid, c),
        inventory::find_card(gpus, uuid) is None <==> forall|i: int|
            0 <= i < gpus.len() ==> (#[trigger] gpus[i]).uuid != uuid,
    decreases gpus.len(),
{
    if gpus.len() > 0 {
        let t = gpus.skip(1);
        law_how_a_card_is_found(t, uuid, c);
        if gpus[0].uuid == uuid {
            if first_card(gpus, uuid, c) {
                let i = choose|i: int|
                    #![trigger gpus[i]]
                    0 <= i < gpus.len() && gpus[i] == c && c.uuid == uuid && forall|j: int|
                        0 <= j < i ==> (#[trigger] gpus[j]).uuid != uuid;
                assert(i == 0);
            }
        } else {
            assert(inventory::find_card(gpus, uuid) == inventory::find_card(t, uuid));
            if first_card(t, uuid, c) {
                let i = choose|i: int|
                    #![trigger t[i]]
                    0 <= i < t.len() && t[i] == c && c.uuid == uuid && forall|j: int|
                        0 <= j < i ==> (#[trigger] t[j]).uuid != uuid;
                assert(gpus[i + 1] == c);
                assert forall|j: int| 0 <= j < i + 1 implies (#[trigger] gpus[j]).uuid != uuid by {
                    if j > 0 {
                        assert(t[j - 1] == gpus[j]);
                    }
                }
            }
            if first_card(gpus, uuid, c) {
                let i = choose|i: int|
                    #![trigger gpus[i]]
                    0 <= i < gpus.len() && gpus[i] == c && c.uuid == uuid && forall|j: int|
                        0 <= j < i ==> (#[trigger] gpus[j]).uuid != uuid;
                assert(t[i - 1] == c);
                assert forall|j: int| 0 <= j < i - 1 implies (#[trigger] t[j]).uuid != uuid by {
                    assert(gpus[j + 1] == t[j]);
                }
            }
            assert forall|i: int| 0 <= i < t.len() implies #[trigger] t[i] == gpus[i + 1] by {}
            if inventory::find_card(t, uuid) is None {
                assert forall|i: int| 0 <= i < gpus.len() implies (#[trigger] gpus[i]).uuid
                    != uuid by {
                    if i > 0 {
                        assert(t[i - 1] == gpus[i]);
                    }
                }
            }
        }
    }
}

/// The wanted cards of a node are those of one half of the list, then those
/// of the other; a uuid gives the first card with it, or a note that there is
/// none.
pub proof fn law_which_cards_are_present(
    gpus: Seq<Card>,
    a: Seq<Seq<char>>,
    b: Seq<Seq<char>>,
    uuid: Seq<char>,
)
    ensures
        present(gpus, a + b) == present(gpus, a) + present(gpus, b),
        absent_notes(gpus, a + b) == absent_notes(gpus, a) + absent_notes(gpus, b),
        present(gpus, Seq::empty()).len() == 0 && absent_notes(gpus, Seq::empty()).len() == 0,
        forall|c: Card| #[trigger]
            first_card(gpus, uuid, c) ==> present(gpus, seq![uuid]) == seq![c] && absent_notes(
                gpus,
                seq![uuid],
            ).len() == 0,
        (forall|i: int| 0 <= i < gpus.len() ==> (#[trigger] gpus[i]).uuid != uuid) ==> present(
            gpus,
            seq![uuid],
        ).len() == 0 && absent_notes(gpus, seq![uuid]) == seq![
            uuid + " is not a GPU of this node; skipped"@,
        ],
    decreases b.len(),
{
    if b.len() == 0 {
        assert(a + b =~= a);
        assert(present(gpus, a) + present(gpus, b) =~= present(gpus, a));
        assert(absent_notes(gpus, a) + absent_notes(gpus, b) =~= absent_notes(gpus, a));
    } else {
        law_which_cards_are_present(gpus, a, b.drop_last(), uuid);
        assert((a + b).drop_last() =~= a + b.drop_last());
        assert((a + b).last() == b.last());
        assert(present(gpus, a + b) =~= present(gpus, a) + present(gpus, b));
        assert(absent_notes(gpus, a + b) =~= absent_notes(gpus, a) + absent_notes(gpus, b));
    }
    let one = seq![uuid];
    assert(one.drop_last() =~= Seq::empty());
    assert(present(gpus, Seq::empty()) =~= Seq::empty());
    assert(absent_notes(gpus, Seq::empty()) =~= Seq::empty());
    assert forall|c: Card| #[trigger] first_card(gpus, uuid, c) implies present(gpus, seq![uuid])
        == seq![c] && absent_notes(gpus, seq![uuid]).len() == 0 by {
        law_how_a_card_is_found(gpus, uuid, c);
        assert(present(gpus, one) =~= seq![c]);
    }
    if forall|i: int| 0 <= i < gpus.len() ==> (#[trigger] gpus[i]).uuid != uuid {
        law_how_a_card_is_found(gpus, uuid, arbitrary());
        assert(absent_notes(gpus, one) =~= seq![uuid + " is not a GPU of this node; skipped"@]);
    }
}

/// Each card of the list is present, or noted to be absent.
proof fn lemma_present_or_noted(gpus: Seq<Card>, wanted: Seq<Seq<char>>)
    ensures
        forall|uuid: Seq<char>, c: Card|
            #![trigger wanted.contains(uuid), first_card(gpus, uuid, c)]
            wanted.contains(uuid) && first_card(gpus, uuid, c) ==> present(gpus, wanted).contains(
                c,
            ),
        forall|c: Card| #[trigger]
            present(gpus, wanted).contains(c) ==> wanted.contains(c.uuid) && first_card(
                gpus,
                c.uuid,
                c,
            ),
        forall|uuid: Seq<char>| #[trigger]
            wanted.contains(uuid) && (forall|i: int|
                0 <= i < gpus.len() ==> (#[trigger] gpus[i]).uuid != uuid) ==> absent_notes(
                gpus,
                wanted,
            ).contains(uuid + " is not a GPU of this node; skipped"@),
    decreases wanted.len(),
{
    let cs = present(gpus, wanted);
    let ns = absent_notes(gpus, wanted);
    if wanted.len() > 0 {
        let t = wanted.drop_last();
        let u = wanted.last();
        lemma_present_or_noted(gpus, t);
        let ds = present(gpus, t);
        let ms = absent_notes(gpus, t);
        assert(wanted[wanted.len() - 1] == u);
        assert forall|uuid: Seq<char>, c: Card|
            #![trigger wanted.contains(uuid), first_card(gpus, uuid, c)]
            wanted.contains(uuid) && first_card(gpus, uuid, c) implies cs.contains(c) by {
            law_how_a_card_is_found(gpus, uuid, c);
            let k = choose|k: int| 0 <= k < wanted.len() && wanted[k] == uuid;
            if k < t.len() {
                assert(t[k] == uuid);
                assert(t.contains(uuid));
                let j = choose|j: int| 0 <= j < ds.len() && ds[j] == c;
                assert(cs[j] == c);
            } else {
                assert(cs.last() == c);
            }
        }
        assert forall|c: Card| #[trigger] cs.contains(c) implies wanted.contains(c.uuid)
            && first_card(gpus, c.uuid, c) by {
            let j = choose|j: int| 0 <= j < cs.len() && cs[j] == c;
            if j < ds.len() {
                assert(ds[j] == c);
                assert(ds.contains(c));
                let k = choose|k: int| 0 <= k < t.len() && t[k] == c.uuid;
                assert(wanted[k] == c.uuid);
            } else {
                law_how_a_card_is_found(gpus, u, c);
            }
        }
        assert forall|uuid: Seq<char>| #[trigger]
            wanted.contains(uuid) && (forall|i: int|
                0 <= i < gpus.len() ==> (#[trigger] gpus[i]).uuid != uuid) implies ns.contains(
            uuid + " is not a GPU of this node; skipped"@,
        ) by {
            law_how_a_card_is_found(gpus, uuid, arbitrary());
            let note = uuid + " is not a GPU of this node; skipped"@;
            let k = choose|k: int| 0 <= k < wanted.len() && wanted[k] == uuid;
            if k < t.len() {
                assert(t[k] == uuid);
                assert(t.contains(uuid));
                let j = choose|j: int| 0 <= j < ms.len() && ms[j] == note;
                assert(ns[j] == note);
            } else {
                assert(ns.last() == note);
            }
        }
    }
}

/// The cards of a plan are the first card of the node for each uuid the
/// document says true for, and no others.
proof fn lemma_cards(want: Want, inv: Facts)
    ensures
        inventory::in_order(cards_for(want, inv)),
        forall|c: Card| #[trigger]
            cards_for(want, inv).contains(c) <==> asked(want, c.uuid) && first_card(
                inv.gpus,
                c.uuid,
                c,
            ),
{
    let wanted = doc::switched_on(want.devices);
    let found = present(inv.gpus, wanted);
    let cards = cards_for(want, inv);
    lemma_present_or_noted(inv.gpus, wanted);
    inventory::law_by_minor_is_a_stable_sort(found);
    found.to_multiset_ensures();
    cards.to_multiset_ensures();
    assert forall|c: Card| #[trigger]
        cards.contains(c) <==> asked(want, c.uuid) && first_card(inv.gpus, c.uuid, c) by {
        law_which_devices_are_asked_for(want.devices, Seq::empty(), c.uuid, true);
        assert(cards.to_multiset().count(c) == found.to_multiset().count(c));
        assert(wanted.contains(c.uuid) <==> asked(want, c.uuid));
    }
}

/// A plan for a guest with the key gives it the devices its document says true
/// for that this node has, and only those: its list has their uuids, and there
/// is a rule for the minor of each. The capabilities, the CUDA version and the
/// UVM major are the document's and the node's.
pub proof fn law_what_a_plan_gives(
    config: Seq<char>,
    want: Want,
    inv: Facts,
    remembered: Seq<u32>,
    managed: bool,
    uuid: Seq<char>,
    c: Card,
)
    ensures
        planned(config, Some(want), inv, remembered, managed) matches OutcomeView::Plan(p) ==> {
            &&& p.gpus.contains(uuid) <==> asked(want, uuid) && exists|i: int|
                0 <= i < inv.gpus.len() && (#[trigger] inv.gpus[i]).uuid == uuid
            &&& asked(want, uuid) && first_card(inv.gpus, uuid, c) ==> some_allows(
                p.desired,
                195,
                c.minor,
            )
            &&& exists|cards: Seq<Card>|
                {
                    &&& p.desired == #[trigger] conf::rendered(
                        cards,
                        doc::capabilities_of(want),
                        want.require_cuda,
                        inv.uvm_major,
                    )
                    &&& p.gpus == Seq::new(cards.len(), |i: int| cards[i].uuid)
                    &&& inventory::in_order(cards)
                    &&& forall|i: int|
                        0 <= i < cards.len() ==> {
                            let d = #[trigger] cards[i];
                            asked(want, d.uuid) && first_card(inv.gpus, d.uuid, d)
                        }
                }
        },
{
    if let OutcomeView::Plan(p) = planned(config, Some(want), inv, remembered, managed) {
        let cards = cards_for(want, inv);
        lemma_cards(want, inv);
        assert(p.gpus =~= Seq::new(cards.len(), |i: int| cards[i].uuid));
        assert(p.desired == conf::rendered(
            cards,
            doc::capabilities_of(want),
            want.require_cuda,
            inv.uvm_major,
        ));
        assert forall|i: int| 0 <= i < cards.len() implies {
            let d = #[trigger] cards[i];
            asked(want, d.uuid) && first_card(inv.gpus, d.uuid, d)
        } by {
            assert(cards.contains(cards[i]));
        }
        if p.gpus.contains(uuid) {
            let i = choose|i: int| 0 <= i < p.gpus.len() && p.gpus[i] == uuid;
            assert(cards[i].uuid == uuid);
        }
        if asked(want, uuid) && exists|i: int|
            0 <= i < inv.gpus.len() && (#[trigger] inv.gpus[i]).uuid == uuid {
            law_how_a_card_is_found(inv.gpus, uuid, arbitrary());
            let d = inventory::find_card(inv.gpus, uuid)->Some_0;
            law_how_a_card_is_found(inv.gpus, uuid, d);
            assert(cards.contains(d));
            let k = choose|k: int| 0 <= k < cards.len() && cards[k] == d;
            assert(p.gpus[k] == uuid);
        }
        if asked(want, uuid) && first_card(inv.gpus, uuid, c) {
            assert(c.uuid == uuid);
            assert(cards.contains(c));
            let k = choose|k: int| 0 <= k < cards.len() && cards[k] == c;
            law_every_card_gets_its_rule(
                cards,
                doc::capabilities_of(want),
                want.require_cuda,
                inv.uvm_major,
                k,
            );
        }
    }
}

/// The majors a plan may replace rules of are the driver's own, and with
/// `nvidia-uvm` loaded its major and every remembered one that no driver holds
/// now; the lines it has are the config's own for those majors.
pub proof fn law_what_a_plan_may_replace(
    config: Seq<char>,
    want: Option<Want>,
    inv: Facts,
    remembered: Seq<u32>,
    managed: bool,
    m: u32,
)
    ensures
        planned(config, want, inv, remembered, managed) matches OutcomeView::Plan(p) ==> {
            &&& p.current == conf::managed_of(config, p.owned)
            &&& p.owned.contains(195)
            &&& inv.uvm_major matches Some(u) ==> p.owned.contains(u)
            &&& inv.uvm_major is Some && remembered.contains(m) && !inv.char_majors.contains(m)
                ==> p.owned.contains(m)
            &&& p.owned.contains(m) && m != 195 ==> inv.uvm_major is Some && (inv.uvm_major == Some(
                m,
            ) || remembered.contains(m) && !inv.char_majors.contains(m))
        },
{
}

/// What is said of a remembered major that some other driver holds now and
/// that the config still names.
pub open spec fn stale_note(m: u32) -> Seq<char> {
    "the rule for major "@ + text::decimal(m as nat)
        + " was written by an earlier boot and now belongs to another device; it cannot be replaced and can be removed by hand"@
}

proof fn lemma_stale(remembered: Seq<u32>, owned: Set<u32>, named: Set<u32>, live: Set<u32>)
    ensures
        forall|m: u32| #[trigger]
            remembered.contains(m) && !owned.contains(m) && live.contains(m) && named.contains(m)
                ==> stale_notes(remembered, owned, named, live).contains(stale_note(m)),
        forall|n: Seq<char>| #[trigger]
            stale_notes(remembered, owned, named, live).contains(n) ==> exists|m: u32|
                n == #[trigger] stale_note(m) && remembered.contains(m) && !owned.contains(m)
                    && live.contains(m) && named.contains(m),
    decreases remembered.len(),
{
    let ns = stale_notes(remembered, owned, named, live);
    if remembered.len() > 0 {
        let t = remembered.drop_last();
        let last = remembered.last();
        lemma_stale(t, owned, named, live);
        let ms = stale_notes(t, owned, named, live);
        assert(remembered[remembered.len() - 1] == last);
        assert forall|m: u32| #[trigger]
            remembered.contains(m) && !owned.contains(m) && live.contains(m) && named.contains(
                m,
            ) implies ns.contains(stale_note(m)) by {
            let k = choose|k: int| 0 <= k < remembered.len() && remembered[k] == m;
            if k < t.len() {
                assert(t[k] == m);
                assert(t.contains(m));
                let j = choose|j: int| 0 <= j < ms.len() && ms[j] == stale_note(m);
                assert(ns[j] == stale_note(m));
            } else {
                assert(ns.last() == stale_note(m));
            }
        }
        assert forall|n: Seq<char>| #[trigger] ns.contains(n) implies exists|m: u32|
            n == #[trigger] stale_note(m) && remembered.contains(m) && !owned.contains(m)
                && live.contains(m) && named.contains(m) by {
            let j = choose|j: int| 0 <= j < ns.len() && ns[j] == n;
            if j < ms.len() {
                assert(ms[j] == n);
                assert(ms.contains(n));
                let m = choose|m: u32|
                    n == #[trigger] stale_note(m) && t.contains(m) && !owned.contains(m)
                        && live.contains(m) && named.contains(m);
                let k = choose|k: int| 0 <= k < t.len() && t[k] == m;
                assert(remembered[k] == m);
                assert(n == stale_note(m));
            } else {
                assert(n == stale_note(last));
                assert(remembered.contains(last));
            }
        }
    }
}

/// A plan says of every card that is asked for and not here that it is not,
/// of a major that it can no longer replace a rule of that it cannot, and, if
/// it gives a card, that UVM is not loaded or no capability is on.
pub proof fn law_what_a_plan_says(
    config: Seq<char>,
    want: Want,
    inv: Facts,
    remembered: Seq<u32>,
    managed: bool,
    uuid: Seq<char>,
    m: u32,
)
    ensures
        planned(config, Some(want), inv, remembered, managed) matches OutcomeView::Plan(p) ==> {
            &&& asked(want, uuid) && (forall|i: int|
                0 <= i < inv.gpus.len() ==> (#[trigger] inv.gpus[i]).uuid != uuid)
                ==> p.notes.contains(uuid + " is not a GPU of this node; skipped"@)
            &&& remembered.contains(m) && !p.owned.contains(m) && inv.char_majors.contains(m)
                && conf::majors_of(config).contains(m) ==> p.notes.contains(stale_note(m))
            &&& p.gpus.len() > 0 && inv.uvm_major is None ==> p.notes.contains(
                "nvidia-uvm is not loaded; writing no UVM rule and leaving any already there alone"@,
            )
            &&& p.gpus.len() > 0 && doc::capabilities_of(want).len() == 0 ==> p.notes.contains(
                "no driver capability is on; the hook falls back to utility"@,
            )
            &&& inv.uvm_major is Some && doc::capabilities_of(want).len() > 0 && (forall|u: Seq<
                char,
            >| #[trigger]
                asked(want, u) ==> exists|i: int|
                    0 <= i < inv.gpus.len() && (#[trigger] inv.gpus[i]).uuid == u) && (forall|r: u32|
                #[trigger]
                remembered.contains(r) ==> p.owned.contains(r) || !inv.char_majors.contains(r)
                    || !conf::majors_of(config).contains(r)) ==> p.notes.len() == 0
        },
{
    if let OutcomeView::Plan(p) = planned(config, Some(want), inv, remembered, managed) {
        let wanted = doc::switched_on(want.devices);
        let owned = owned_for(inv, remembered);
        let found = present(inv.gpus, wanted);
        lemma_present_or_noted(inv.gpus, wanted);
        inventory::law_by_minor_is_a_stable_sort(found);
        law_which_devices_are_asked_for(want.devices, Seq::empty(), uuid, true);
        let named = conf::majors_of(config);
        lemma_stale(remembered, owned, named, inv.char_majors);
        let a = absent_notes(inv.gpus, wanted);
        let u = if found.len() > 0 && inv.uvm_major is None {
            seq!["nvidia-uvm is not loaded; writing no UVM rule and leaving any already there alone"@]
        } else {
            Seq::empty()
        };
        let s = stale_notes(remembered, owned, named, inv.char_majors);
        let c = if found.len() > 0 && doc::capabilities_of(want).len() == 0 {
            seq!["no driver capability is on; the hook falls back to utility"@]
        } else {
            Seq::empty()
        };
        assert(p.notes == a + u + s + c);
        assert forall|n: Seq<char>|
            a.contains(n) || u.contains(n) || s.contains(n) || c.contains(
                n,
            ) implies #[trigger] p.notes.contains(n) by {
            if a.contains(n) {
                let k = choose|k: int| 0 <= k < a.len() && a[k] == n;
                assert(p.notes[k] == n);
            } else if u.contains(n) {
                let k = choose|k: int| 0 <= k < u.len() && u[k] == n;
                assert(p.notes[a.len() + k] == n);
            } else if s.contains(n) {
                let k = choose|k: int| 0 <= k < s.len() && s[k] == n;
                assert(p.notes[a.len() + u.len() + k] == n);
            } else {
                let k = choose|k: int| 0 <= k < c.len() && c[k] == n;
                assert(p.notes[a.len() + u.len() + s.len() + k] == n);
            }
        }
        if u.len() > 0 {
            assert(u.contains(u[0]));
        }
        if c.len() > 0 {
            assert(c.contains(c[0]));
        }
        if (forall|u: Seq<char>| #[trigger]
            asked(want, u) ==> exists|i: int|
                0 <= i < inv.gpus.len() && (#[trigger] inv.gpus[i]).uuid == u) {
            lemma_none_absent(want, inv.gpus, wanted);
        }
        if s.len() > 0 {
            assert(s.contains(s[0]));
        }
    }
}

/// Where every card that is asked for is here, none is noted to be absent.
proof fn lemma_none_absent(want: Want, gpus: Seq<Card>, wanted: Seq<Seq<char>>)
    requires
        wanted == doc::switched_on(want.devices),
        forall|u: Seq<char>| #[trigger]
            asked(want, u) ==> exists|i: int|
                0 <= i < gpus.len() && (#[trigger] gpus[i]).uuid == u,
    ensures
        absent_notes(gpus, wanted).len() == 0,
{
    assert forall|i: int| 0 <= i < wanted.len() implies inventory::find_card(
        gpus,
        #[trigger] wanted[i],
    ) is Some by {
        assert(wanted.contains(wanted[i]));
        law_which_devices_are_asked_for(want.devices, Seq::empty(), wanted[i], true);
        assert(asked(want, wanted[i]));
        law_how_a_card_is_found(gpus, wanted[i], arbitrary());
    }
    lemma_all_found(gpus, wanted);
}

proof fn lemma_all_found(gpus: Seq<Card>, wanted: Seq<Seq<char>>)
    requires
        forall|i: int|
            0 <= i < wanted.len() ==> inventory::find_card(gpus, #[trigger] wanted[i]) is Some,
    ensures
        absent_notes(gpus, wanted).len() == 0,
    decreases wanted.len(),
{
    if wanted.len() > 0 {
        let t = wanted.drop_last();
        assert forall|i: int| 0 <= i < t.len() implies inventory::find_card(
            gpus,
            #[trigger] t[i],
        ) is Some by {
            assert(wanted[i] == t[i]);
        }
        lemma_all_found(gpus, t);
        assert(inventory::find_card(gpus, wanted[wanted.len() - 1]) is Some);
    }
}

} // verus!
