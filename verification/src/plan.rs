//! What one guest's config should say. Pure over the config text, the `gpu`
//! subtree and this node's inventory.
//!
//! The rules, in the order they decide:
//!
//! 1. **No driver on this node**: nothing at all. A node whose
//!    `/proc/driver/nvidia` is not there cannot give a GPU to anyone, and
//!    taking one away from every container because a driver package is
//!    mid-upgrade is the opposite of what is wanted.
//! 2. **No `gpu` key, nothing written before**: the guest is not this tool's,
//!    whatever its config contains. A container configured by hand keeps its
//!    lines; adding the key is how a human hands it over.
//! 3. **No `gpu` key, lines written before**: the key was removed. The lines
//!    go (`state`, the node-local record of what this tool wrote, is what
//!    tells the two cases apart).
//! 4. **A privileged container** is refused, whole: LXC's nvidia hook only
//!    works in a user namespace of its own and fails the start otherwise.
//! 5. **A `devN:` entry for an NVIDIA device** is refused, whole: PVE's
//!    autodev hook mknods the same nodes after the nvidia hook and the start
//!    fails. The two mechanisms are exclusive.
//! 6. Otherwise the lines are rendered for the selected GPUs that are on this
//!    node. A selected UUID that is not is skipped with a note, which is what
//!    a migration to a node with other cards looks like, and a guest that
//!    selects nothing, or nothing present, gets no lines at all.
//!
//! Nothing here starts, stops or restarts a guest: LXC reads the config when
//! the container starts, so a change applies at its next start.

use vstd::prelude::*;

use crate::conf::{self, Owned};
use crate::doc::{self, Gpu, Want};
use crate::inventory::{self, Card, Facts, Inventory};
use crate::text;

verus! {

broadcast use {vstd::std_specs::btree::group_btree_axioms, vstd::laws_cmp::group_laws_cmp};

/// What reconciling one guest would do.
#[derive(Debug, Clone, PartialEq, Eq)]
pub enum Outcome {
    /// This node has no working driver; nothing is touched, for any guest.
    NoDriver,
    /// No `gpu` key and nothing this tool ever wrote: not ours.
    Unmanaged,
    /// The config cannot carry the lines; nothing is touched.
    Refused(String),
    /// The managed lines as they should be, and as they are.
    Plan(Plan),
}

/// The managed lines a guest should have, beside the ones it has.
#[derive(Debug, Clone, PartialEq, Eq)]
pub struct Plan {
    pub desired: Vec<String>,
    pub current: Vec<String>,
    /// Which lines of the config this plan may replace.
    pub owned: Owned,
    /// The GPUs the document asked for and this node has, by UUID.
    pub gpus: Vec<String>,
    /// One line each for something worth saying: a UUID that is not here, a
    /// UVM module that is not loaded.
    pub notes: Vec<String>,
}

/// What an [`Outcome`] says.
pub enum OutcomeView {
    NoDriver,
    Unmanaged,
    Refused(Seq<char>),
    Plan(PlanView),
}

/// What a [`Plan`] says.
pub struct PlanView {
    pub desired: Seq<Seq<char>>,
    pub current: Seq<Seq<char>>,
    pub owned: Set<u32>,
    pub gpus: Seq<Seq<char>>,
    pub notes: Seq<Seq<char>>,
}

impl View for Plan {
    type V = PlanView;

    open spec fn view(&self) -> PlanView {
        PlanView {
            desired: text::texts(self.desired@),
            current: text::texts(self.current@),
            owned: self.owned@,
            gpus: text::texts(self.gpus@),
            notes: text::texts(self.notes@),
        }
    }
}

impl View for Outcome {
    type V = OutcomeView;

    open spec fn view(&self) -> OutcomeView {
        match self {
            Outcome::NoDriver => OutcomeView::NoDriver,
            Outcome::Unmanaged => OutcomeView::Unmanaged,
            Outcome::Refused(why) => OutcomeView::Refused(why@),
            Outcome::Plan(p) => OutcomeView::Plan(p@),
        }
    }
}

impl Plan {
    /// Whether the config has to be written.
    pub fn changed(&self) -> (r: bool)
        ensures
            r == (self@.desired != self@.current),
    {
        !text::same_texts(&self.desired, &self.current)
    }
}

/// The cards of this node among the wanted ones, in the order they are wanted.
pub open spec fn present(gpus: Seq<Card>, wanted: Seq<Seq<char>>) -> Seq<Card>
    decreases wanted.len(),
{
    if wanted.len() == 0 {
        Seq::empty()
    } else {
        let before = present(gpus, wanted.drop_last());
        match inventory::find_card(gpus, wanted.last()) {
            Some(c) => before.push(c),
            None => before,
        }
    }
}

/// One note for each wanted card that is not of this node.
pub open spec fn absent_notes(gpus: Seq<Card>, wanted: Seq<Seq<char>>) -> Seq<Seq<char>>
    decreases wanted.len(),
{
    if wanted.len() == 0 {
        Seq::empty()
    } else {
        let before = absent_notes(gpus, wanted.drop_last());
        match inventory::find_card(gpus, wanted.last()) {
            Some(_) => before,
            None => before.push(wanted.last() + " is not a GPU of this node; skipped"@),
        }
    }
}

/// One note for each major this node once wrote with, that some other driver
/// holds now and that the config still names: the rule is not this tool's to
/// touch any more, and nothing else will ever clean it up.
pub open spec fn stale_notes(
    remembered: Seq<u32>,
    owned: Set<u32>,
    named: Set<u32>,
    live: Set<u32>,
) -> Seq<Seq<char>>
    decreases remembered.len(),
{
    if remembered.len() == 0 {
        Seq::empty()
    } else {
        let before = stale_notes(remembered.drop_last(), owned, named, live);
        let major = remembered.last();
        if !owned.contains(major) && live.contains(major) && named.contains(major) {
            before.push(
                "the rule for major "@ + text::decimal(major as nat)
                    + " was written by an earlier boot and now belongs to another device; it cannot be replaced and can be removed by hand"@,
            )
        } else {
            before
        }
    }
}

/// Why a config with these `devN:` entries is refused.
pub open spec fn passthrough(devs: Seq<Seq<char>>) -> Seq<char> {
    text::join(devs, ", "@)
        + " passes an NVIDIA device through PVE's own device passthrough, which cannot be combined with the hook (pct set <vmid> --delete "@
        + text::join(devs, ","@) + ")"@
}

/// The notes of a plan for `gpus` out of the wanted ones.
pub open spec fn notes_for(
    text: Seq<char>,
    want: Want,
    inv: Facts,
    remembered: Seq<u32>,
    owned: Set<u32>,
) -> Seq<Seq<char>> {
    let wanted = doc::switched_on(want.devices);
    let some = present(inv.gpus, wanted).len() > 0;
    absent_notes(inv.gpus, wanted) + if some && inv.uvm_major is None {
        seq!["nvidia-uvm is not loaded; writing no UVM rule and leaving any already there alone"@]
    } else {
        Seq::empty()
    } + stale_notes(remembered, owned, conf::majors_of(text), inv.char_majors) + if some && doc::capabilities_of(
        want,
    ).len() == 0 {
        seq!["no driver capability is on; the hook falls back to utility"@]
    } else {
        Seq::empty()
    }
}

/// The cards of a plan: those of this node the document asks for, in minor
/// order.
pub open spec fn cards_for(want: Want, inv: Facts) -> Seq<Card> {
    inventory::by_minor(present(inv.gpus, doc::switched_on(want.devices)))
}

/// The lines a guest should have.
pub open spec fn lines_for(want: Want, inv: Facts) -> Seq<Seq<char>> {
    conf::rendered(
        cards_for(want, inv),
        doc::capabilities_of(want),
        want.require_cuda,
        inv.uvm_major,
    )
}

/// The majors that are this tool's to replace.
pub open spec fn owned_for(inv: Facts, remembered: Seq<u32>) -> Set<u32> {
    conf::owned_majors(inv.uvm_major, remembered, inv.char_majors)
}

/// What reconciling one guest would do.
pub open spec fn planned(
    text: Seq<char>,
    want: Option<Want>,
    inv: Facts,
    remembered: Seq<u32>,
    managed: bool,
) -> OutcomeView {
    let owned = owned_for(inv, remembered);
    let current = conf::managed_of(text, owned);
    if !inv.driver {
        OutcomeView::NoDriver
    } else {
        match want {
            None => if !managed {
                OutcomeView::Unmanaged
            } else {
                OutcomeView::Plan(
                    PlanView {
                        desired: Seq::empty(),
                        current,
                        owned,
                        gpus: Seq::empty(),
                        notes: seq!["the gpu key is gone; removing the managed lines"@],
                    },
                )
            },
            Some(want) => if !conf::unprivileged(text) {
                OutcomeView::Refused(
                    "privileged container: LXC's nvidia hook only works in unprivileged ones"@,
                )
            } else if conf::nvidia_entries(text).len() > 0 {
                OutcomeView::Refused(passthrough(conf::nvidia_entries(text)))
            } else {
                OutcomeView::Plan(
                    PlanView {
                        desired: lines_for(want, inv),
                        current,
                        owned,
                        gpus: cards_for(want, inv).map_values(|c: Card| c.uuid),
                        notes: notes_for(text, want, inv, remembered, owned),
                    },
                )
            },
        }
    }
}

/// What an optional subtree says.
pub open spec fn want_view(want: Option<&Gpu>) -> Option<Want> {
    match want {
        Some(g) => Some(g@),
        None => None,
    }
}

/// Puts a card in its place among cards in minor order.
fn place<'a>(gpus: &mut Vec<&'a inventory::Gpu>, gpu: &'a inventory::Gpu)
    ensures
        inventory::cards(final(gpus)@) == inventory::cards(old(gpus)@).insert(
            inventory::slot(inventory::cards(old(gpus)@), gpu.minor) as int,
            gpu@,
        ),
{
    let ghost all = inventory::cards(gpus@);
    let mut n: usize = gpus.len();
    while n > 0 && gpus[n - 1].minor > gpu.minor
        invariant
            n <= gpus@.len(),
            all == inventory::cards(gpus@),
            forall|i: int| n <= i < all.len() ==> (#[trigger] all[i]).minor > gpu.minor,
        decreases n,
    {
        proof {
            assert(all[n - 1].minor == gpus@[n - 1].minor);
        }
        n -= 1;
    }
    proof {
        if n > 0 {
            assert(all[n - 1].minor == gpus@[n - 1].minor);
        }
        inventory::lemma_slot_is(all, gpu.minor, n as nat);
        inventory::lemma_slot(all, gpu.minor);
    }
    gpus.insert(n, gpu);
    proof {
        assert(inventory::cards(gpus@) =~= all.insert(n as int, gpu@));
    }
}

/// Plans one guest's config. `want` is its `gpu` subtree, `remembered_uvm` the
/// `nvidia-uvm` majors this node has written lines with (newest first; one
/// another driver holds now is dropped by [`Owned::new`]), `managed` whether
/// this node's record says lines were written for it before.
pub fn plan(
    text: &str,
    want: Option<&Gpu>,
    inv: &Inventory,
    remembered_uvm: &[u32],
    managed: bool,
) -> (r: Outcome)
    ensures
        r@ == planned(text@, want_view(want), inv@, remembered_uvm@, managed),
{
    if !inv.driver_loaded() {
        return Outcome::NoDriver;
    }
    let owned = Owned::new(inv.uvm_major, remembered_uvm, &inv.char_majors);
    let current = conf::managed_lines(text, &owned);
    let mut notes: Vec<String> = Vec::new();
    let want = match want {
        Some(want) => want,
        None => {
            if !managed {
                return Outcome::Unmanaged;
            }
            notes.push("the gpu key is gone; removing the managed lines".to_owned());
            let p = Plan { desired: Vec::new(), current, owned, gpus: Vec::new(), notes };
            proof {
                assert(p@.desired =~= Seq::empty());
                assert(p@.gpus =~= Seq::empty());
                assert(p@.notes =~= seq!["the gpu key is gone; removing the managed lines"@]);
            }
            return Outcome::Plan(p);
        },
    };
    if !conf::is_unprivileged(text) {
        return Outcome::Refused(
            "privileged container: LXC's nvidia hook only works in unprivileged ones".to_owned(),
        );
    }
    let devs = conf::nvidia_dev_entries(text);
    proof {
        text::lemma_texts(devs@);
    }
    if devs.len() > 0 {
        let names = text::slices(&devs);
        return Outcome::Refused(
            text::joined(names.as_slice(), ", ").concat(
                " passes an NVIDIA device through PVE's own device passthrough, which cannot be combined with the hook (pct set <vmid> --delete ",
            ).concat(text::joined(names.as_slice(), ",").as_str()).concat(")"),
        );
    }
    let ghost facts = inv@;
    let wanted = want.wanted();
    let ghost names = text::views(wanted@);
    let mut gpus: Vec<&inventory::Gpu> = Vec::new();
    let ghost mut found = Seq::<Card>::empty();
    let mut i: usize = 0;
    proof {
        assert(inventory::cards(gpus@) =~= inventory::by_minor(found));
        assert(text::texts(notes@) =~= absent_notes(facts.gpus, names.take(0)));
    }
    while i < wanted.len()
        invariant
            i <= wanted@.len(),
            names == text::views(wanted@),
            facts == inv@,
            found == present(facts.gpus, names.take(i as int)),
            inventory::cards(gpus@) == inventory::by_minor(found),
            text::texts(notes@) == absent_notes(facts.gpus, names.take(i as int)),
        decreases wanted.len() - i,
    {
        let uuid = wanted[i];
        proof {
            text::lemma_views(wanted@);
            assert(names.take(i + 1).last() == uuid@);
            assert(names.take(i + 1).drop_last() =~= names.take(i as int));
        }
        match inv.by_uuid(uuid) {
            Some(gpu) => {
                proof {
                    assert(found.push(gpu@).drop_last() =~= found);
                    found = found.push(gpu@);
                }
                place(&mut gpus, gpu);
            },
            None => {
                let note = uuid.to_owned().concat(" is not a GPU of this node; skipped");
                proof {
                    text::lemma_texts_push(notes@, note);
                }
                notes.push(note);
            },
        }
        i += 1;
    }
    proof {
        assert(names.take(names.len() as int) =~= names);
        inventory::law_by_minor_is_a_stable_sort(found);
        assert(gpus@.len() == inventory::cards(gpus@).len());
    }
    let ghost absent = text::texts(notes@);
    if gpus.len() > 0 && inv.uvm_major.is_none() {
        notes.push(
            "nvidia-uvm is not loaded; writing no UVM rule and leaving any already there alone".to_owned(),
        );
    }
    let ghost noted = text::texts(notes@);
    proof {
        assert(noted =~= absent + if found.len() > 0 && facts.uvm_major is None {
            seq![
                "nvidia-uvm is not loaded; writing no UVM rule and leaving any already there alone"@,
            ]
        } else {
            Seq::empty()
        });
    }
    let majors = conf::allow_majors(text);
    let mut i: usize = 0;
    proof {
        assert(text::texts(notes@) =~= noted + stale_notes(
            remembered_uvm@.take(0),
            owned@,
            majors@,
            facts.char_majors,
        ));
    }
    while i < remembered_uvm.len()
        invariant
            i <= remembered_uvm@.len(),
            facts == inv@,
            text::texts(notes@) == noted + stale_notes(
                remembered_uvm@.take(i as int),
                owned@,
                majors@,
                facts.char_majors,
            ),
        decreases remembered_uvm.len() - i,
    {
        let major: u32 = remembered_uvm[i];
        let ghost before = text::texts(notes@);
        proof {
            assert(remembered_uvm@.take(i + 1).last() == major);
            assert(remembered_uvm@.take(i + 1).drop_last() =~= remembered_uvm@.take(i as int));
        }
        if !owned.owns_major(major) && inv.char_majors.contains(&major) && majors.contains(
            &major,
        ) {
            let note = "the rule for major ".to_owned().concat(
                text::decimal_of(major as u64).as_str(),
            ).concat(
                " was written by an earlier boot and now belongs to another device; it cannot be replaced and can be removed by hand",
            );
            proof {
                text::lemma_texts_push(notes@, note);
                assert(before.push(note@) =~= noted + stale_notes(
                    remembered_uvm@.take(i + 1),
                    owned@,
                    majors@,
                    facts.char_majors,
                ));
            }
            notes.push(note);
        }
        i += 1;
    }
    proof {
        assert(remembered_uvm@.take(remembered_uvm@.len() as int) =~= remembered_uvm@);
    }
    let ghost staled = text::texts(notes@);
    let caps = want.capability_list();
    proof {
        text::lemma_views(caps@);
    }
    if gpus.len() > 0 && caps.len() == 0 {
        notes.push("no driver capability is on; the hook falls back to utility".to_owned());
    }
    proof {
        assert(text::texts(notes@) =~= notes_for(
            text@,
            want@,
            facts,
            remembered_uvm@,
            owned@,
        ));
    }
    let cuda: Option<&str> = match &want.require_cuda {
        Some(v) => Some(v.as_str()),
        None => None,
    };
    let desired = conf::render(gpus.as_slice(), caps.as_slice(), cuda, inv.uvm_major);
    let mut uuids: Vec<String> = Vec::new();
    let mut i: usize = 0;
    while i < gpus.len()
        invariant
            i <= gpus@.len(),
            uuids@.len() == i,
            forall|j: int| 0 <= j < i ==> (#[trigger] uuids@[j])@ == gpus@[j].uuid@,
        decreases gpus.len() - i,
    {
        uuids.push(gpus[i].uuid.clone());
        i += 1;
    }
    let p = Plan { desired, current, owned, gpus: uuids, notes };
    proof {
        assert(p@.gpus =~= cards_for(want@, facts).map_values(|c: Card| c.uuid));
    }
    Outcome::Plan(p)
}

// ---------------------------------------------------------------------------
// What planning promises.
// ---------------------------------------------------------------------------

/// A node without a driver does nothing to anyone.
pub proof fn law_no_driver_touches_nobody(
    text: Seq<char>,
    want: Option<Want>,
    inv: Facts,
    remembered: Seq<u32>,
    managed: bool,
)
    ensures
        !inv.driver <==> planned(text, want, inv, remembered, managed) is NoDriver,
{
}

/// A guest without the key that this node never wrote into is never touched,
/// whatever its config contains.
pub proof fn law_a_guest_without_the_key_is_not_ours(
    text: Seq<char>,
    inv: Facts,
    remembered: Seq<u32>,
)
    ensures
        inv.driver ==> planned(text, None, inv, remembered, false) is Unmanaged,
        !(planned(text, None, inv, remembered, false) is Plan),
{
}

/// A removed key removes every managed line, and nothing is written in their
/// place.
pub proof fn law_a_removed_key_removes_the_lines(
    text: Seq<char>,
    inv: Facts,
    remembered: Seq<u32>,
)
    requires
        inv.driver,
    ensures
        planned(text, None, inv, remembered, true) matches OutcomeView::Plan(p) && p.desired
            == Seq::<Seq<char>>::empty() && conf::managed_of(
            conf::spliced(text, p.desired, p.owned),
            p.owned,
        ) == Seq::<Seq<char>>::empty(),
{
    let owned = owned_for(inv, remembered);
    conf::law_splice_is_read_back(text, Seq::empty(), owned);
}

/// Without `nvidia-uvm`, major 195 is the only one that is ours: a rule this
/// pass cannot replace is a rule it leaves alone.
pub proof fn law_without_uvm_only_the_registered_major_is_ours(inv: Facts, remembered: Seq<u32>)
    requires
        inv.uvm_major is None,
    ensures
        owned_for(inv, remembered) == set![crate::NVIDIA_MAJOR],
{
    assert(owned_for(inv, remembered) =~= set![crate::NVIDIA_MAJOR]);
}

/// A major nobody here ever used is not ours, and neither is one that another
/// driver holds now.
pub proof fn law_a_strangers_major_is_not_ours(inv: Facts, remembered: Seq<u32>, major: u32)
    requires
        major != crate::NVIDIA_MAJOR,
        inv.uvm_major != Some(major),
        !remembered.contains(major) || inv.char_majors.contains(major),
    ensures
        !owned_for(inv, remembered).contains(major),
{
}

proof fn lemma_present_tidy(gpus: Seq<Card>, wanted: Seq<Seq<char>>)
    requires
        inventory::all_tidy(gpus),
    ensures
        inventory::all_tidy(present(gpus, wanted)),
    decreases wanted.len(),
{
    if wanted.len() > 0 {
        lemma_present_tidy(gpus, wanted.drop_last());
        lemma_find_card(gpus, wanted.last());
    }
}

proof fn lemma_find_card(gpus: Seq<Card>, uuid: Seq<char>)
    ensures
        inventory::find_card(gpus, uuid) matches Some(c) ==> gpus.contains(c) && c.uuid == uuid,
    decreases gpus.len(),
{
    if gpus.len() > 0 {
        if gpus[0].uuid != uuid {
            lemma_find_card(gpus.skip(1), uuid);
            if let Some(c) = inventory::find_card(gpus, uuid) {
                let k = choose|k: int| 0 <= k < gpus.skip(1).len() && gpus.skip(1)[k] == c;
                assert(gpus[k + 1] == c);
            }
        } else {
            assert(gpus.contains(gpus[0]));
        }
    }
}

proof fn lemma_capabilities_tidy(want: Want)
    ensures
        forall|i: int|
            0 <= i < doc::capabilities_of(want).len() ==> text::tidy(
                #[trigger] doc::capabilities_of(want)[i],
            ),
{
    let all = doc::all_capabilities();
    let caps = doc::capabilities_of(want);
    doc::lemma_capability_names();
    doc::law_capabilities_are_in_the_hooks_order(want);
    let on = choose|on: spec_fn(Seq<char>) -> bool| caps == #[trigger] all.filter(on);
    assert forall|i: int| 0 <= i < caps.len() implies text::tidy(#[trigger] caps[i]) by {
        assert(caps.contains(caps[i]));
        all.lemma_filter_contains_rev(on, caps[i]);
        let k = choose|k: int| 0 <= k < all.len() && all[k] == caps[i];
        assert(text::tidy(all[k]));
    }
}

/// Whatever a valid document and an inventory say, every line that is to be
/// written is one line, is ours, and is read back as it is written.
pub proof fn law_desired_lines_are_ours(want: Want, inv: Facts, remembered: Seq<u32>)
    requires
        doc::valid(want),
        inventory::all_tidy(inv.gpus),
    ensures
        conf::all_ours(lines_for(want, inv), owned_for(inv, remembered)),
        forall|i: int|
            0 <= i < lines_for(want, inv).len() ==> text::trim_end(
                #[trigger] lines_for(want, inv)[i],
            ) == lines_for(want, inv)[i],
{
    let wanted = doc::switched_on(want.devices);
    lemma_present_tidy(inv.gpus, wanted);
    inventory::lemma_by_minor_tidy(present(inv.gpus, wanted));
    lemma_capabilities_tidy(want);
    if let Some(v) = want.require_cuda {
        doc::lemma_version_is_item(v);
    }
    conf::law_rendered_lines_are_ours(
        cards_for(want, inv),
        doc::capabilities_of(want),
        want.require_cuda,
        inv.uvm_major,
        owned_for(inv, remembered),
    );
}

proof fn lemma_stale_notes(
    remembered: Seq<u32>,
    owned: Set<u32>,
    a: Set<u32>,
    b: Set<u32>,
    live: Set<u32>,
)
    requires
        forall|m: u32| !owned.contains(m) ==> (#[trigger] a.contains(m) <==> b.contains(m)),
    ensures
        stale_notes(remembered, owned, a, live) == stale_notes(remembered, owned, b, live),
    decreases remembered.len(),
{
    if remembered.len() > 0 {
        lemma_stale_notes(remembered.drop_last(), owned, a, b, live);
        let m = remembered.last();
        assert(!owned.contains(m) ==> (a.contains(m) <==> b.contains(m)));
    }
}

/// Writing a plan settles it: planning the written config again gives the
/// same plan with nothing left to write.
pub proof fn law_a_written_plan_is_settled(
    text: Seq<char>,
    want: Option<Want>,
    inv: Facts,
    remembered: Seq<u32>,
    managed: bool,
)
    requires
        want matches Some(w) ==> doc::valid(w),
        inventory::all_tidy(inv.gpus),
    ensures
        planned(text, want, inv, remembered, managed) matches OutcomeView::Plan(p) ==> planned(
            conf::spliced(text, p.desired, p.owned),
            want,
            inv,
            remembered,
            managed,
        ) == OutcomeView::Plan(PlanView { current: p.desired, ..p }),
{
    let owned = owned_for(inv, remembered);
    if let OutcomeView::Plan(p) = planned(text, want, inv, remembered, managed) {
        let next = conf::spliced(text, p.desired, owned);
        if let Some(w) = want {
            law_desired_lines_are_ours(w, inv, remembered);
        }
        conf::law_splice_is_read_back(text, p.desired, owned);
        conf::law_splice_keeps_what_is_said(text, p.desired, owned);
        lemma_stale_notes(
            remembered,
            owned,
            conf::majors_of(next),
            conf::majors_of(text),
            inv.char_majors,
        );
    }
}

/// The same plan writes the same bytes: applying it to what it wrote changes
/// nothing.
pub proof fn law_writing_a_plan_twice_changes_nothing(
    text: Seq<char>,
    want: Option<Want>,
    inv: Facts,
    remembered: Seq<u32>,
    managed: bool,
)
    requires
        want matches Some(w) ==> doc::valid(w),
        inventory::all_tidy(inv.gpus),
    ensures
        planned(text, want, inv, remembered, managed) matches OutcomeView::Plan(p)
            ==> conf::spliced(conf::spliced(text, p.desired, p.owned), p.desired, p.owned)
            == conf::spliced(text, p.desired, p.owned),
{
    if let OutcomeView::Plan(p) = planned(text, want, inv, remembered, managed) {
        if let Some(w) = want {
            law_desired_lines_are_ours(w, inv, remembered);
        }
        conf::law_splice_is_a_fixed_point(text, p.desired, p.owned);
    }
}

/// Only the main section is read: what a snapshot's section says decides
/// nothing.
pub proof fn law_only_the_main_section_is_read(
    a: Seq<char>,
    b: Seq<char>,
    want: Option<Want>,
    inv: Facts,
    remembered: Seq<u32>,
    managed: bool,
)
    requires
        conf::main_of(a) == conf::main_of(b),
    ensures
        planned(a, want, inv, remembered, managed) == planned(b, want, inv, remembered, managed),
{
}

/// Every card the document asks for is given, or it is said that it is not of
/// this node.
pub proof fn law_every_wanted_card_is_given_or_noted(gpus: Seq<Card>, wanted: Seq<Seq<char>>)
    ensures
        present(gpus, wanted).len() + absent_notes(gpus, wanted).len() == wanted.len(),
    decreases wanted.len(),
{
    if wanted.len() > 0 {
        law_every_wanted_card_is_given_or_noted(gpus, wanted.drop_last());
    }
}

/// The list of devices on the environment line, cut apart at its commas, is
/// the list of the cards of the plan: no document can smuggle another device
/// into it.
pub proof fn law_the_device_list_is_the_cards(want: Want, inv: Facts)
    requires
        doc::valid(want),
        cards_for(want, inv).len() > 0,
    ensures
        ({
            let uuids = cards_for(want, inv).map_values(|c: Card| c.uuid);
            text::fields(text::join(uuids, ","@), ',') == uuids
        }),
{
    let cards = cards_for(want, inv);
    let wanted = doc::switched_on(want.devices);
    let uuids = cards.map_values(|c: Card| c.uuid);
    law_a_plan_gives_only_what_was_asked(want, inv);
    assert forall|i: int| 0 <= i < uuids.len() implies !(#[trigger] uuids[i]).contains(',') by {
        let c = cards[i];
        assert(wanted.contains(c.uuid));
        let k = choose|k: int| 0 <= k < wanted.len() && wanted[k] == c.uuid;
        doc::lemma_switched_on(want.devices, k);
        doc::lemma_device_id_is_item(c.uuid);
    }
    reveal_strlit(",");
    assert(","@ =~= seq![',']);
    text::lemma_fields_of_join(uuids, ',');
}

/// No rule is said to belong to another device unless some driver holds its
/// major now, and the major is not this node's own.
pub proof fn law_only_a_major_somebody_holds_is_called_anothers(
    remembered: Seq<u32>,
    owned: Set<u32>,
    named: Set<u32>,
    live: Set<u32>,
)
    requires
        forall|m: u32| #[trigger] remembered.contains(m) && named.contains(m) ==> owned.contains(m)
            || !live.contains(m),
    ensures
        stale_notes(remembered, owned, named, live) == Seq::<Seq<char>>::empty(),
    decreases remembered.len(),
{
    if remembered.len() > 0 {
        let init = remembered.drop_last();
        let last = remembered.last();
        assert(remembered[remembered.len() - 1] == last);
        assert(remembered.contains(last));
        assert forall|m: u32| #[trigger] init.contains(m) && named.contains(m) implies owned.contains(
            m,
        ) || !live.contains(m) by {
            let k = choose|k: int| 0 <= k < init.len() && init[k] == m;
            assert(remembered[k] == m);
            assert(remembered.contains(m));
        }
        law_only_a_major_somebody_holds_is_called_anothers(init, owned, named, live);
    }
}

/// Every card of a plan is one the document asks for, is of this node, and
/// they come in minor order.
pub proof fn law_a_plan_gives_only_what_was_asked(want: Want, inv: Facts)
    ensures
        inventory::in_order(cards_for(want, inv)),
        forall|i: int|
            0 <= i < cards_for(want, inv).len() ==> {
                let c = #[trigger] cards_for(want, inv)[i];
                inv.gpus.contains(c) && doc::switched_on(want.devices).contains(c.uuid)
            },
{
    let wanted = doc::switched_on(want.devices);
    let found = present(inv.gpus, wanted);
    let sorted = cards_for(want, inv);
    inventory::law_by_minor_is_a_stable_sort(found);
    lemma_present(inv.gpus, wanted);
    assert forall|i: int| 0 <= i < sorted.len() implies {
        let c = #[trigger] sorted[i];
        inv.gpus.contains(c) && wanted.contains(c.uuid)
    } by {
        sorted.to_multiset_ensures();
        found.to_multiset_ensures();
        assert(sorted.contains(sorted[i]));
        assert(sorted.to_multiset().contains(sorted[i]));
        let k = choose|k: int| 0 <= k < found.len() && found[k] == sorted[i];
        assert(inv.gpus.contains(found[k]));
    }
}

proof fn lemma_present(gpus: Seq<Card>, wanted: Seq<Seq<char>>)
    ensures
        forall|i: int|
            0 <= i < present(gpus, wanted).len() ==> gpus.contains(
                #[trigger] present(gpus, wanted)[i],
            ) && wanted.contains(present(gpus, wanted)[i].uuid),
    decreases wanted.len(),
{
    if wanted.len() > 0 {
        let t = wanted.drop_last();
        lemma_present(gpus, t);
        lemma_find_card(gpus, wanted.last());
        let a = present(gpus, t);
        let r = present(gpus, wanted);
        assert forall|i: int| 0 <= i < r.len() implies gpus.contains(#[trigger] r[i])
            && wanted.contains(r[i].uuid) by {
            if i < a.len() {
                assert(r[i] == a[i]);
                let k = choose|k: int| 0 <= k < t.len() && t[k] == a[i].uuid;
                assert(wanted[k] == a[i].uuid);
            } else {
                assert(wanted[wanted.len() - 1] == r[i].uuid);
            }
        }
    }
}

} // verus!
