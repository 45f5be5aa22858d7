//! What this node has: its GPUs, and the character device majors the driver
//! currently holds.
//!
//! The authoritative source is the driver's own `/proc` tree, which is there
//! whenever the driver is loaded and needs no library and no GPU wake-up:
//!
//! * `/proc/driver/nvidia/gpus/<busid>/information`: one directory per GPU,
//!   with its `GPU UUID`, its `Device Minor` (the `<N>` of `/dev/nvidia<N>`,
//!   which is not the order of the bus ids) and its `Bus Location`.
//! * `/proc/devices`: the character majors in use. `nvidia` is the registered
//!   195; **`nvidia-uvm` is dynamic and can differ after every boot or module
//!   reload**.
//!
//! **`nvidia-uvm` is loaded lazily**, by `nvidia-modprobe` when something
//! first opens `/dev/nvidia-uvm`. At boot nothing has, so a driver that is
//! perfectly fine has no UVM major yet. A read that finds the driver and no
//! UVM major therefore asks for it and reads again ([`scanned`]).
//!
//! **A read either succeeds or fails.** Anything that would make the set of
//! cards or majors a guess is an error, never a smaller inventory: reconciling
//! against a short inventory would take a GPU away from a container that has
//! one. An absent `/proc/driver/nvidia` is the one honest answer of its own: no
//! driver, and [`Inventory::driver_loaded`] says so.
//!
//! `nvidia-smi` is asked only for the human-readable name and memory size of
//! each card. It is optional: without it a GPU is described by its bus
//! location alone.

use std::collections::BTreeSet;

use vstd::prelude::*;

use crate::cmd::{Output, Said};
use crate::file::{File, FileView};
use crate::table::{self, Table};
use crate::text;

verus! {

broadcast use {vstd::std_specs::btree::group_btree_axioms, vstd::laws_cmp::group_laws_cmp};

/// One GPU of this node.
#[derive(Debug, Clone, PartialEq, Eq)]
pub struct Gpu {
    /// `GPU-8ddd601a-...`, the id a document selects a card by. Stable across
    /// reboots and unique in the cluster, unlike the minor or the bus id.
    pub uuid: String,
    /// The `<N>` of `/dev/nvidia<N>`.
    pub minor: u32,
    /// `0000:0a:00.0`.
    pub bus: String,
    /// From `nvidia-smi`, when it answered.
    pub name: Option<String>,
    /// Total memory in MiB, from `nvidia-smi`.
    pub memory_mib: Option<u64>,
}

/// What a [`Gpu`] says.
pub struct Card {
    pub uuid: Seq<char>,
    pub minor: u32,
    pub bus: Seq<char>,
    pub name: Option<Seq<char>>,
    pub memory_mib: Option<u64>,
}

impl View for Gpu {
    type V = Card;

    open spec fn view(&self) -> Card {
        Card {
            uuid: self.uuid@,
            minor: self.minor,
            bus: self.bus@,
            name: text::opt_text(self.name),
            memory_mib: self.memory_mib,
        }
    }
}

/// What a list of borrowed GPUs says.
pub open spec fn cards(gpus: Seq<&Gpu>) -> Seq<Card> {
    gpus.map_values(|g: &Gpu| g@)
}

/// What a list of GPUs says.
pub open spec fn all_cards(gpus: Seq<Gpu>) -> Seq<Card> {
    gpus.map_values(|g: Gpu| g@)
}

/// The one-line description of a card: its name and its memory in whole GB
/// where they are known, and its bus location.
pub open spec fn description(c: Card) -> Seq<char> {
    let name = match c.name {
        Some(n) => n + " "@,
        None => Seq::empty(),
    };
    let memory = match c.memory_mib {
        Some(mib) => text::decimal((mib + 1023) as nat / 1024) + " GB "@,
        None => Seq::empty(),
    };
    name + memory + "· "@ + c.bus
}

impl Gpu {
    /// The one-line description the prefix file carries, e.g.
    /// `Tesla T10 16 GB · 0000:0a:00.0`.
    pub fn describe(&self) -> (r: String)
        ensures
            r@ == description(self@),
    {
        let mut s = String::new();
        if let Some(name) = &self.name {
            s.append(name.as_str());
            s.append(" ");
        }
        let ghost named = s@;
        proof {
            assert(named =~= match self@.name {
                Some(n) => n + " "@,
                None => Seq::empty(),
            });
        }
        if let Some(mib) = self.memory_mib {
            let gb: u64 = if mib % 1024 == 0 {
                mib / 1024
            } else {
                mib / 1024 + 1
            };
            s.append(text::decimal_of(gb).as_str());
            s.append(" GB ");
        }
        proof {
            assert(s@ =~= named + match self.memory_mib {
                Some(mib) => text::decimal((mib + 1023) as nat / 1024) + " GB "@,
                None => Seq::empty(),
            });
        }
        s.append("· ");
        s.append(self.bus.as_str());
        s
    }
}

/// This node's GPUs and majors, as one pass over `/proc` saw them.
#[derive(Debug, Clone, PartialEq, Eq)]
pub struct Inventory {
    /// `/proc/driver/nvidia` is there: the driver is loaded. A [`Default`]
    /// inventory is not an answer about any node, and says so here.
    pub driver: bool,
    /// By device minor, which is the order the rendered lines use.
    pub gpus: Vec<Gpu>,
    /// The current `nvidia-uvm` major, `None` when that module is not loaded.
    pub uvm_major: Option<u32>,
    /// Every character major `/proc/devices` lists.
    pub char_majors: BTreeSet<u32>,
    /// What was odd but not fatal, for one log line.
    pub notes: Vec<String>,
}

/// What an [`Inventory`] says.
pub struct Facts {
    pub driver: bool,
    pub gpus: Seq<Card>,
    pub uvm_major: Option<u32>,
    pub char_majors: Set<u32>,
    pub notes: Seq<Seq<char>>,
}

impl View for Inventory {
    type V = Facts;

    open spec fn view(&self) -> Facts {
        Facts {
            driver: self.driver,
            gpus: all_cards(self.gpus@),
            uvm_major: self.uvm_major,
            char_majors: self.char_majors@,
            notes: text::texts(self.notes@),
        }
    }
}

impl Default for Inventory {
    fn default() -> (r: Inventory)
        ensures
            r@ == (Facts {
                driver: false,
                gpus: Seq::empty(),
                uvm_major: None,
                char_majors: Set::empty(),
                notes: Seq::empty(),
            }),
    {
        let r = Inventory {
            driver: false,
            gpus: Vec::new(),
            uvm_major: None,
            char_majors: BTreeSet::new(),
            notes: Vec::new(),
        };
        proof {
            assert(r@.gpus =~= Seq::empty());
            assert(r@.notes =~= Seq::empty());
        }
        r
    }
}

/// The first card with the given UUID.
pub open spec fn find_card(gpus: Seq<Card>, uuid: Seq<char>) -> Option<Card>
    decreases gpus.len(),
{
    if gpus.len() == 0 {
        None
    } else if gpus[0].uuid == uuid {
        Some(gpus[0])
    } else {
        find_card(gpus.skip(1), uuid)
    }
}

impl Inventory {
    /// Whether this node has a working driver. Nothing is reconciled on a node
    /// that has none: no GPU can be given out, and taking one away from every
    /// container because a driver package is mid-upgrade is the opposite of
    /// what is wanted.
    pub fn driver_loaded(&self) -> (r: bool)
        ensures
            r == self@.driver,
    {
        self.driver
    }

    /// The card with the given UUID.
    pub fn by_uuid(&self, uuid: &str) -> (r: Option<&Gpu>)
        ensures
            match r {
                Some(g) => find_card(self@.gpus, uuid@) == Some(g@),
                None => find_card(self@.gpus, uuid@) is None,
            },
    {
        let ghost all = self@.gpus;
        let mut i: usize = 0;
        proof {
            assert(all.skip(0) =~= all);
        }
        while i < self.gpus.len()
            invariant
                i <= self.gpus@.len(),
                all == all_cards(self.gpus@),
                find_card(all, uuid@) == find_card(all.skip(i as int), uuid@),
            decreases self.gpus.len() - i,
        {
            proof {
                assert(all.skip(i as int)[0] == self.gpus@[i as int]@);
                assert(all.skip(i as int).skip(1) =~= all.skip(i + 1));
            }
            if text::eq(self.gpus[i].uuid.as_str(), uuid) {
                return Some(&self.gpus[i]);
            }
            i += 1;
        }
        None
    }
}

impl Gpu {
    /// A copy of the card.
    fn copy(&self) -> (r: Gpu)
        ensures
            r@ == self@,
    {
        Gpu {
            uuid: self.uuid.clone(),
            minor: self.minor,
            bus: self.bus.clone(),
            name: match &self.name {
                Some(n) => Some(n.clone()),
                None => None,
            },
            memory_mib: self.memory_mib,
        }
    }

    /// Whether two cards say the same.
    fn same(&self, other: &Gpu) -> (r: bool)
        ensures
            r == (self@ == other@),
    {
        text::eq(self.uuid.as_str(), other.uuid.as_str()) && self.minor == other.minor && text::eq(
            self.bus.as_str(),
            other.bus.as_str(),
        ) && text::same_option(&self.name, &other.name) && self.memory_mib == other.memory_mib
    }
}

impl Inventory {
    /// A copy of the inventory.
    pub fn copy(&self) -> (r: Inventory)
        ensures
            r@ == self@,
    {
        let mut gpus: Vec<Gpu> = Vec::new();
        let mut i: usize = 0;
        while i < self.gpus.len()
            invariant
                i <= self.gpus@.len(),
                gpus@.len() == i,
                forall|j: int| 0 <= j < i ==> (#[trigger] gpus@[j])@ == self.gpus@[j]@,
            decreases self.gpus.len() - i,
        {
            gpus.push(self.gpus[i].copy());
            i += 1;
        }
        let r = Inventory {
            driver: self.driver,
            gpus,
            uvm_major: self.uvm_major,
            char_majors: self.char_majors.clone(),
            notes: text::copied(&self.notes),
        };
        proof {
            assert(r@.gpus =~= self@.gpus);
        }
        r
    }

    /// Whether two inventories have the same cards.
    pub fn same_cards(&self, other: &Inventory) -> (r: bool)
        ensures
            r == (self@.gpus == other@.gpus),
    {
        if self.gpus.len() != other.gpus.len() {
            proof {
                assert(self@.gpus.len() != other@.gpus.len());
            }
            return false;
        }
        let mut i: usize = 0;
        while i < self.gpus.len()
            invariant
                i <= self.gpus@.len() == other.gpus@.len(),
                forall|j: int| 0 <= j < i ==> (#[trigger] self.gpus@[j])@ == other.gpus@[j]@,
            decreases self.gpus.len() - i,
        {
            if !self.gpus[i].same(&other.gpus[i]) {
                proof {
                    assert(self@.gpus[i as int] != other@.gpus[i as int]);
                }
                return false;
            }
            i += 1;
        }
        proof {
            assert(self@.gpus =~= other@.gpus);
        }
        true
    }
}

// ---------------------------------------------------------------------------
// Order by minor.
// ---------------------------------------------------------------------------

/// Where a card with this minor goes among cards in minor order: after every
/// one whose minor is not greater.
pub open spec fn slot(s: Seq<Card>, minor: u32) -> nat
    decreases s.len(),
{
    if s.len() == 0 || s.last().minor <= minor {
        s.len()
    } else {
        slot(s.drop_last(), minor)
    }
}

/// The cards in minor order, those with the same minor in the order they came
/// in.
pub open spec fn by_minor(s: Seq<Card>) -> Seq<Card>
    decreases s.len(),
{
    if s.len() == 0 {
        s
    } else {
        let rest = by_minor(s.drop_last());
        rest.insert(slot(rest, s.last().minor) as int, s.last())
    }
}

/// Whether the minors never go down.
pub open spec fn in_order(s: Seq<Card>) -> bool {
    forall|i: int, j: int|
        0 <= i < j < s.len() ==> (#[trigger] s[i]).minor <= (#[trigger] s[j]).minor
}

/// What the slot of a minor has to do with the cards around it.
pub proof fn lemma_slot(s: Seq<Card>, minor: u32)
    ensures
        slot(s, minor) <= s.len(),
        forall|i: int| slot(s, minor) <= i < s.len() ==> (#[trigger] s[i]).minor > minor,
        slot(s, minor) > 0 ==> s[slot(s, minor) - 1].minor <= minor,
    decreases s.len(),
{
    if s.len() > 0 && s.last().minor > minor {
        let t = s.drop_last();
        lemma_slot(t, minor);
        assert forall|i: int| slot(s, minor) <= i < s.len() implies (#[trigger] s[i]).minor
            > minor by {
            if i < t.len() {
                assert(t[i] == s[i]);
            }
        }
    }
}

/// `slot` is the only position with these properties.
pub proof fn lemma_slot_is(s: Seq<Card>, minor: u32, n: nat)
    requires
        n <= s.len(),
        forall|i: int| n <= i < s.len() ==> (#[trigger] s[i]).minor > minor,
        n > 0 ==> s[n - 1].minor <= minor,
    ensures
        slot(s, minor) == n,
{
    lemma_slot(s, minor);
    let m = slot(s, minor);
    if m < n {
        assert(s[n - 1].minor > minor);
    } else if n < m {
        assert(s[m - 1].minor > minor);
    }
}

proof fn lemma_insert_in_order(s: Seq<Card>, c: Card)
    requires
        in_order(s),
    ensures
        in_order(s.insert(slot(s, c.minor) as int, c)),
        s.insert(slot(s, c.minor) as int, c).to_multiset() == s.to_multiset().insert(c),
{
    lemma_slot(s, c.minor);
    let k = slot(s, c.minor) as int;
    let t = s.insert(k, c);
    assert forall|i: int, j: int| 0 <= i < j < t.len() implies (#[trigger] t[i]).minor <= (
    #[trigger] t[j]).minor by {
        let a: int = if i < k {
            i
        } else {
            i - 1
        };
        let b: int = if j < k {
            j
        } else {
            j - 1
        };
        if i < k {
            assert(s[i].minor <= s[k - 1].minor);
        }
        if i != k && j != k {
            assert(s[a].minor <= s[b].minor);
        }
    }
    vstd::seq_lib::to_multiset_insert(s, k, c);
}

/// The cards with one minor, in the order they are in.
pub open spec fn with_minor(s: Seq<Card>, minor: u32) -> Seq<Card> {
    s.filter(|c: Card| c.minor == minor)
}

/// Sorting puts the cards in minor order, loses none and adds none, and keeps
/// those with the same minor in the order they came in.
pub proof fn law_by_minor_is_a_stable_sort(s: Seq<Card>)
    ensures
        in_order(by_minor(s)),
        by_minor(s).to_multiset() == s.to_multiset(),
        by_minor(s).len() == s.len(),
        forall|m: u32| #[trigger] with_minor(by_minor(s), m) == with_minor(s, m),
    decreases s.len(),
{
    if s.len() > 0 {
        let t = s.drop_last();
        let c = s.last();
        let rest = by_minor(t);
        law_by_minor_is_a_stable_sort(t);
        lemma_insert_in_order(rest, c);
        lemma_slot(rest, c.minor);
        assert(s =~= t.push(c));
        t.to_multiset_ensures();
        assert(s.to_multiset() =~= t.to_multiset().insert(c));
        let k = slot(rest, c.minor) as int;
        assert forall|m: u32| #[trigger] with_minor(by_minor(s), m) == with_minor(s, m) by {
            let p = |c: Card| c.minor == m;
            let a = rest.take(k);
            let b = rest.skip(k);
            assert(rest =~= a + b);
            assert(by_minor(s) =~= a.push(c) + b);
            Seq::filter_distributes_over_add(a, b, p);
            Seq::filter_distributes_over_add(a.push(c), b, p);
            a.lemma_filter_push(c, p);
            t.lemma_filter_push(c, p);
            assert(with_minor(rest, m) == with_minor(t, m));
            if m == c.minor {
                assert forall|i: int| 0 <= i < b.len() implies !p(#[trigger] b[i]) by {
                    assert(b[i] == rest[k + i]);
                }
                lemma_no_card(b, p);
                assert(a.filter(p) + Seq::<Card>::empty() =~= a.filter(p));
            }
        }
    } else {
        s.to_multiset_ensures();
    }
}

proof fn lemma_no_card(s: Seq<Card>, p: spec_fn(Card) -> bool)
    requires
        forall|i: int| 0 <= i < s.len() ==> !p(#[trigger] s[i]),
    ensures
        s.filter(p) == Seq::<Card>::empty(),
    decreases s.len(),
{
    reveal(Seq::filter);
    if s.len() > 0 {
        let t = s.drop_last();
        assert forall|i: int| 0 <= i < t.len() implies !p(#[trigger] t[i]) by {
            assert(t[i] == s[i]);
        }
        lemma_no_card(t, p);
        assert(!p(s[s.len() - 1]));
    } else {
        assert(s =~= Seq::empty());
    }
}

// ---------------------------------------------------------------------------
// What the files say.
// ---------------------------------------------------------------------------

/// The value of the last line among `ls` that is `<key>: <value>`.
pub open spec fn field(ls: Seq<Seq<char>>, key: Seq<char>) -> Option<Seq<char>>
    decreases ls.len(),
{
    if ls.len() == 0 {
        None
    } else {
        match text::split_once(ls.last(), ':') {
            Some((k, v)) => if text::trim(k) == key {
                Some(text::trim(v))
            } else {
                field(ls.drop_last(), key)
            },
            None => field(ls.drop_last(), key),
        }
    }
}

/// What follows `prefix` on the first line among `ls` that begins with it.
pub open spec fn first_after(ls: Seq<Seq<char>>, prefix: Seq<char>) -> Option<Seq<char>>
    decreases ls.len(),
{
    if ls.len() == 0 {
        None
    } else if text::starts_with(ls[0], prefix) {
        Some(text::trim(ls[0].skip(prefix.len() as int)))
    } else {
        first_after(ls.skip(1), prefix)
    }
}

/// The card an `information` file describes. One that carries no UUID or no
/// minor describes none.
pub open spec fn information(s: Seq<char>) -> Option<Card> {
    let ls = text::lines(s);
    match (field(ls, "GPU UUID"@), field(ls, "Device Minor"@)) {
        (Some(uuid), Some(minor)) => match text::parse_u32(minor) {
            Some(minor) => if uuid.len() > 0 {
                Some(
                    Card {
                        uuid,
                        minor,
                        bus: match first_after(ls, "Bus Location:"@) {
                            Some(bus) => bus,
                            None => Seq::empty(),
                        },
                        name: None,
                        memory_mib: None,
                    },
                )
            } else {
                None
            },
            None => None,
        },
        _ => None,
    }
}

fn field_of<'a>(ls: &Vec<&'a str>, key: &str) -> (r: Option<&'a str>)
    ensures
        text::opt_view(r) == field(text::views(ls@), key@),
{
    let ghost all = text::views(ls@);
    let mut n: usize = ls.len();
    proof {
        text::lemma_views(ls@);
        assert(all.take(all.len() as int) =~= all);
    }
    while n > 0
        invariant
            n <= ls@.len(),
            all == text::views(ls@),
            field(all, key@) == field(all.take(n as int), key@),
        decreases n,
    {
        proof {
            text::lemma_views(ls@);
            assert(all.take(n as int).last() == ls@[n - 1]@);
            assert(all.take(n as int).drop_last() =~= all.take(n - 1));
        }
        if let Some((k, v)) = text::split_at_first(ls[n - 1], ':') {
            if text::eq(text::trimmed(k), key) {
                return Some(text::trimmed(v));
            }
        }
        n -= 1;
    }
    None
}

fn first_after_of<'a>(ls: &Vec<&'a str>, prefix: &str) -> (r: Option<&'a str>)
    ensures
        text::opt_view(r) == first_after(text::views(ls@), prefix@),
{
    let ghost all = text::views(ls@);
    let mut i: usize = 0;
    proof {
        assert(all.skip(0) =~= all);
    }
    while i < ls.len()
        invariant
            i <= ls@.len(),
            all == text::views(ls@),
            first_after(all, prefix@) == first_after(all.skip(i as int), prefix@),
        decreases ls.len() - i,
    {
        proof {
            text::lemma_views(ls@);
            assert(all.skip(i as int)[0] == ls@[i as int]@);
            assert(all.skip(i as int).skip(1) =~= all.skip(i + 1));
        }
        if let Some(v) = text::after_prefix(ls[i], prefix) {
            return Some(text::trimmed(v));
        }
        i += 1;
    }
    None
}

/// Parses one `/proc/driver/nvidia/gpus/<busid>/information`. `None` when it
/// carries no UUID or no minor, which is not a file this tool understands.
pub fn parse_information(text: &str) -> (r: Option<Gpu>)
    ensures
        match r {
            Some(g) => information(text@) == Some(g@),
            None => information(text@) is None,
        },
{
    let ls = text::lines_of(text);
    let (uuid, minor) = match (field_of(&ls, "GPU UUID"), field_of(&ls, "Device Minor")) {
        (Some(uuid), Some(minor)) => (uuid, minor),
        _ => {
            return None;
        },
    };
    if uuid.unicode_len() == 0 {
        return None;
    }
    match text::u32_of(minor) {
        None => None,
        Some(minor) => {
            let bus = match first_after_of(&ls, "Bus Location:") {
                Some(bus) => bus.to_owned(),
                None => String::new(),
            };
            proof {
                assert(bus@ =~= match first_after(text::lines(text@), "Bus Location:"@) {
                    Some(bus) => bus,
                    None => Seq::empty(),
                });
            }
            Some(Gpu { uuid: uuid.to_owned(), minor, bus, name: None, memory_mib: None })
        },
    }
}

/// A letter of the Latin alphabet in lower case; any other character as it
/// is.
pub open spec fn lower(c: char) -> char {
    if 'A' <= c <= 'Z' {
        ((c as u8) + 32) as char
    } else {
        c
    }
}

/// Whether two texts differ in case at most.
pub open spec fn same_but_case(a: Seq<char>, b: Seq<char>) -> bool {
    a.len() == b.len() && forall|i: int| 0 <= i < a.len() ==> lower(#[trigger] a[i]) == lower(b[i])
}

fn lowered(c: char) -> (r: char)
    ensures
        r == lower(c),
{
    if 'A' <= c && c <= 'Z' {
        ((c as u8) + 32) as char
    } else {
        c
    }
}

fn eq_but_case(a: &str, b: &str) -> (r: bool)
    ensures
        r == same_but_case(a@, b@),
{
    let x = text::chars(a);
    let y = text::chars(b);
    if x.len() != y.len() {
        return false;
    }
    let mut i: usize = 0;
    while i < x.len()
        invariant
            i <= x.len(),
            x.len() == y.len(),
            x@ == a@,
            y@ == b@,
            forall|j: int| 0 <= j < i ==> lower(#[trigger] a@[j]) == lower(b@[j]),
        decreases x.len() - i,
    {
        if lowered(x[i]) != lowered(y[i]) {
            return false;
        }
        i += 1;
    }
    true
}

/// Whether a line of `/proc/devices` begins a section.
pub open spec fn is_title(line: Seq<char>) -> bool {
    text::ends_with(text::trim(line), "devices:"@)
}

/// Whether a line of `/proc/devices` begins the section of the character
/// devices.
pub open spec fn is_char_title(line: Seq<char>) -> bool {
    is_title(line) && same_but_case(text::trim(line), "Character devices:"@)
}

/// Whether a line after `ls` is one of the character devices' section.
pub open spec fn in_chars(ls: Seq<Seq<char>>) -> bool
    decreases ls.len(),
{
    if ls.len() == 0 {
        false
    } else if is_title(ls.last()) {
        is_char_title(ls.last())
    } else {
        in_chars(ls.drop_last())
    }
}

/// The name and the major on a line of `/proc/devices`: `<major> <name>`.
pub open spec fn device_entry(line: Seq<char>) -> Option<(Seq<char>, u32)> {
    let t = text::trim(line);
    let n = text::first_space(t) as int;
    if is_title(line) || n >= t.len() {
        None
    } else {
        match text::parse_u32(t.take(n)) {
            Some(major) => Some((text::trim(t.skip(n + 1)), major)),
            None => None,
        }
    }
}

/// The name and the major of each character device among the lines, in their
/// order.
pub open spec fn char_devices(ls: Seq<Seq<char>>) -> Seq<(Seq<char>, u32)>
    decreases ls.len(),
{
    if ls.len() == 0 {
        Seq::empty()
    } else {
        let before = char_devices(ls.drop_last());
        match device_entry(ls.last()) {
            Some(e) => if in_chars(ls.drop_last()) {
                before.push(e)
            } else {
                before
            },
            None => before,
        }
    }
}

/// A table of the entries; of two with the same name the later one counts.
pub open spec fn tabled<V>(s: Seq<(Seq<char>, V)>) -> Seq<(Seq<char>, V)>
    decreases s.len(),
{
    if s.len() == 0 {
        Seq::empty()
    } else {
        table::with(tabled(s.drop_last()), s.last().0, s.last().1)
    }
}

/// The majors of a list of devices.
pub open spec fn majors(s: Seq<(Seq<char>, u32)>) -> Set<u32> {
    Set::new(|m: u32| exists|i: int| 0 <= i < s.len() && (#[trigger] s[i]).1 == m)
}

/// The character devices of `/proc/devices`, in file order.
fn entries_of(text: &str) -> (r: Vec<(String, u32)>)
    ensures
        r@.map_values(|e: (String, u32)| (e.0@, e.1)) == char_devices(text::lines(text@)),
{
    let ls = text::lines_of(text);
    let ghost all = text::views(ls@);
    let mut out: Vec<(String, u32)> = Vec::new();
    let mut chars: bool = false;
    let mut i: usize = 0;
    proof {
        assert(out@.map_values(|e: (String, u32)| (e.0@, e.1)) =~= char_devices(all.take(0)));
    }
    while i < ls.len()
        invariant
            i <= ls@.len(),
            all == text::views(ls@),
            chars == in_chars(all.take(i as int)),
            out@.map_values(|e: (String, u32)| (e.0@, e.1)) == char_devices(all.take(i as int)),
        decreases ls.len() - i,
    {
        let ghost before = out@;
        proof {
            text::lemma_views(ls@);
            assert(all.take(i + 1).last() == ls@[i as int]@);
            assert(all.take(i + 1).drop_last() =~= all.take(i as int));
        }
        let t = text::trimmed(ls[i]);
        if text::ends(t, "devices:") {
            chars = eq_but_case(t, "Character devices:");
        } else if chars {
            let n: usize = text::find_space(t);
            if n < t.unicode_len() {
                if let Some(major) = text::u32_of(text::take(t, n)) {
                    let name = text::trimmed(text::skip(t, n + 1)).to_owned();
                    out.push((name, major));
                    proof {
                        assert(out@.map_values(|e: (String, u32)| (e.0@, e.1))
                            =~= before.map_values(|e: (String, u32)| (e.0@, e.1)).push(
                            (name@, major),
                        ));
                    }
                }
            }
        }
        i += 1;
    }
    proof {
        assert(all.take(all.len() as int) =~= all);
    }
    out
}

/// The character majors of `/proc/devices`, by name.
pub fn parse_devices(text: &str) -> (r: Table<u32>)
    ensures
        r@ == tabled(char_devices(text::lines(text@))),
{
    let entries = entries_of(text);
    let ghost all = char_devices(text::lines(text@));
    let mut out: Table<u32> = Table::new();
    let mut i: usize = 0;
    while i < entries.len()
        invariant
            i <= entries@.len(),
            all == entries@.map_values(|e: (String, u32)| (e.0@, e.1)),
            out@ == tabled(all.take(i as int)),
        decreases entries.len() - i,
    {
        let e = &entries[i];
        proof {
            assert(all.take(i + 1).last() == (e.0@, e.1));
            assert(all.take(i + 1).drop_last() =~= all.take(i as int));
        }
        out.insert(e.0.as_str(), e.1);
        i += 1;
    }
    proof {
        assert(all.take(all.len() as int) =~= all);
    }
    out
}

/// Every character major `/proc/devices` lists. A driver may hold several
/// under one name; each of them is in use.
pub fn char_majors(text: &str) -> (r: BTreeSet<u32>)
    ensures
        r@ == majors(char_devices(text::lines(text@))),
{
    let entries = entries_of(text);
    let ghost all = char_devices(text::lines(text@));
    let mut out: BTreeSet<u32> = BTreeSet::new();
    let mut i: usize = 0;
    while i < entries.len()
        invariant
            i <= entries@.len(),
            all == entries@.map_values(|e: (String, u32)| (e.0@, e.1)),
            forall|m: u32| #[trigger]
                out@.contains(m) <==> exists|j: int| 0 <= j < i && (#[trigger] all[j]).1 == m,
        decreases entries.len() - i,
    {
        let major: u32 = entries[i].1;
        let ghost before = out@;
        proof {
            assert(all[i as int].1 == major);
        }
        out.insert(major);
        proof {
            assert forall|m: u32| #[trigger]
                out@.contains(m) <==> before.contains(m) || m == major by {}
        }
        i += 1;
    }
    proof {
        assert(out@ =~= majors(all));
    }
    out
}

/// The fields of a line of `nvidia-smi`'s answer.
pub open spec fn smi_fields(line: Seq<char>) -> Seq<Seq<char>> {
    text::fields(line, ',').map_values(|f: Seq<char>| text::trim(f))
}

/// What a line of `nvidia-smi`'s answer says: a UUID, and the card's name and
/// memory size. The fields are taken from both ends, so the name may hold a
/// comma.
pub open spec fn smi_entry(line: Seq<char>) -> Option<(Seq<char>, (Seq<char>, Option<u64>))> {
    let f = smi_fields(line);
    if f.len() < 4 || !text::starts_with(f[0], "GPU-"@) {
        None
    } else {
        let size = text::words(f[f.len() - 2]);
        let mib = if size.len() > 0 {
            text::parse_u64(size[0])
        } else {
            None
        };
        Some((f[0], (text::join(f.subrange(1, f.len() - 2), ", "@), mib)))
    }
}

/// What the lines of `nvidia-smi`'s answer say, in their order.
pub open spec fn smi_entries(ls: Seq<Seq<char>>) -> Seq<(Seq<char>, (Seq<char>, Option<u64>))>
    decreases ls.len(),
{
    if ls.len() == 0 {
        Seq::empty()
    } else {
        let before = smi_entries(ls.drop_last());
        match smi_entry(ls.last()) {
            Some(e) => before.push(e),
            None => before,
        }
    }
}

/// What a name and a memory size say.
pub open spec fn named_view(v: (String, Option<u64>)) -> (Seq<char>, Option<u64>) {
    (v.0@, v.1)
}

/// What a table of names and memory sizes says.
pub open spec fn names_of(t: Seq<(Seq<char>, (String, Option<u64>))>) -> Seq<
    (Seq<char>, (Seq<char>, Option<u64>)),
> {
    table::map_values(t, |v: (String, Option<u64>)| named_view(v))
}

/// One line of `nvidia-smi`'s answer.
fn smi_entry_of<'a>(line: &'a str) -> (r: Option<(&'a str, (String, Option<u64>))>)
    ensures
        match r {
            Some((uuid, v)) => smi_entry(line@) == Some((uuid@, named_view(v))),
            None => smi_entry(line@) is None,
        },
{
    let raw = text::fields_of(line, ',');
    let mut f: Vec<&'a str> = Vec::new();
    let mut i: usize = 0;
    while i < raw.len()
        invariant
            i <= raw@.len(),
            f@.len() == i,
            forall|j: int| 0 <= j < i ==> (#[trigger] f@[j])@ == text::trim(raw@[j]@),
        decreases raw.len() - i,
    {
        f.push(text::trimmed(raw[i]));
        i += 1;
    }
    let ghost fs = smi_fields(line@);
    proof {
        text::lemma_views(raw@);
        text::lemma_views(f@);
        assert(text::views(f@) =~= fs);
    }
    if f.len() < 4 || !text::begins(f[0], "GPU-") {
        return None;
    }
    let n: usize = f.len();
    let size = text::words_of(f[n - 2]);
    proof {
        text::lemma_views(size@);
    }
    let mib = if size.len() > 0 {
        text::u64_of(size[0])
    } else {
        None
    };
    let mut parts: Vec<&'a str> = Vec::new();
    let mut i: usize = 1;
    while i < n - 2
        invariant
            4 <= n == f@.len(),
            1 <= i <= n - 2,
            parts@.len() == i - 1,
            forall|j: int| 0 <= j < i - 1 ==> (#[trigger] parts@[j])@ == f@[j + 1]@,
        decreases n - i,
    {
        parts.push(f[i]);
        i += 1;
    }
    proof {
        text::lemma_views(parts@);
        assert(text::views(parts@) =~= fs.subrange(1, fs.len() - 2));
    }
    let name = text::joined(parts.as_slice(), ", ");
    Some((f[0], (name, mib)))
}

/// Parses `nvidia-smi --query-gpu=uuid,name,memory.total,pci.bus_id
/// --format=csv,noheader`: `uuid, name, 16384 MiB, 00000000:0A:00.0`. The
/// fields are taken from both ends, because a model name may itself contain a
/// comma and nvidia-smi quotes nothing.
pub fn parse_smi(text: &str) -> (r: Table<(String, Option<u64>)>)
    ensures
        names_of(r@) == tabled(smi_entries(text::lines(text@))),
{
    let ls = text::lines_of(text);
    let ghost all = text::views(ls@);
    let mut out: Table<(String, Option<u64>)> = Table::new();
    let mut i: usize = 0;
    proof {
        assert(names_of(out@) =~= tabled(smi_entries(all.take(0))));
    }
    while i < ls.len()
        invariant
            i <= ls@.len(),
            all == text::views(ls@),
            names_of(out@) == tabled(smi_entries(all.take(i as int))),
        decreases ls.len() - i,
    {
        proof {
            text::lemma_views(ls@);
            assert(all.take(i + 1).last() == ls@[i as int]@);
            assert(all.take(i + 1).drop_last() =~= all.take(i as int));
        }
        if let Some((uuid, v)) = smi_entry_of(ls[i]) {
            proof {
                let before = smi_entries(all.take(i as int));
                let e = (uuid@, named_view(v));
                assert(before.push(e).drop_last() =~= before);
                table::lemma_with_mapped(
                    out@,
                    |v: (String, Option<u64>)| named_view(v),
                    uuid@,
                    v,
                );
            }
            out.insert(uuid, v);
        }
        i += 1;
    }
    proof {
        assert(all.take(all.len() as int) =~= all);
    }
    out
}

// ---------------------------------------------------------------------------
// Reading the node.
// ---------------------------------------------------------------------------

/// Where the driver publishes its GPUs.
pub const GPUS_DIR: &'static str = "/proc/driver/nvidia/gpus";

/// Where the kernel lists the majors in use.
pub const DEVICES: &'static str = "/proc/devices";

/// The driver's own tool for loading `nvidia-uvm` and making its device nodes.
pub const MODPROBE: &'static str = "/usr/bin/nvidia-modprobe";

/// One entry of the driver's GPU directory.
#[derive(Debug)]
pub enum Entry {
    /// The directory could not be walked up to here, and why.
    Failed(String),
    /// The path of the `information` file, and what opening it gave.
    Found(String, File),
}

/// What listing the driver's GPU directory gave.
#[derive(Debug)]
pub enum Listing {
    /// There is none: no driver.
    Missing,
    /// It is there and cannot be listed, and why.
    Failed(String),
    /// Its entries, in the order they were listed.
    Entries(Vec<Entry>),
}

/// What an [`Entry`] says.
pub enum EntryView {
    Failed(Seq<char>),
    Found(Seq<char>, FileView),
}

/// What a [`Listing`] says.
pub enum ListingView {
    Missing,
    Failed(Seq<char>),
    Entries(Seq<EntryView>),
}

impl View for Entry {
    type V = EntryView;

    open spec fn view(&self) -> EntryView {
        match self {
            Entry::Failed(e) => EntryView::Failed(e@),
            Entry::Found(path, f) => EntryView::Found(path@, f@),
        }
    }
}

impl View for Listing {
    type V = ListingView;

    open spec fn view(&self) -> ListingView {
        match self {
            Listing::Missing => ListingView::Missing,
            Listing::Failed(e) => ListingView::Failed(e@),
            Listing::Entries(v) => ListingView::Entries(v@.map_values(|e: Entry| e@)),
        }
    }
}

/// The cards found so far, in the order they were found, and the notes, after
/// one more entry.
pub open spec fn scan_entry(
    dir: Seq<char>,
    entry: EntryView,
    gpus: Seq<Card>,
    notes: Seq<Seq<char>>,
) -> Result<(Seq<Card>, Seq<Seq<char>>), Seq<char>> {
    match entry {
        EntryView::Failed(e) => Err("cannot list "@ + dir + ": "@ + e),
        EntryView::Found(path, FileView::Text(s)) => match information(s) {
            Some(c) => Ok((gpus.push(c), notes)),
            None => Err(path + ": the driver names no GPU UUID here"@),
        },
        EntryView::Found(path, FileView::Missing) => Ok(
            (gpus, notes.push(path + ": no information file"@)),
        ),
        EntryView::Found(path, FileView::Failed(e)) => Err("cannot read "@ + path + ": "@ + e),
    }
}

/// The cards and the notes of a whole listing. Anything that would make the
/// set of cards a guess is an error.
pub open spec fn scan(
    dir: Seq<char>,
    entries: Seq<EntryView>,
    gpus: Seq<Card>,
    notes: Seq<Seq<char>>,
) -> Result<(Seq<Card>, Seq<Seq<char>>), Seq<char>>
    decreases entries.len(),
{
    if entries.len() == 0 {
        Ok((gpus, notes))
    } else {
        match scan_entry(dir, entries[0], gpus, notes) {
            Ok((gpus, notes)) => scan(dir, entries.skip(1), gpus, notes),
            Err(e) => Err(e),
        }
    }
}

/// The inventory of a node: what its `/proc/devices` and the driver's GPU
/// directory say together.
pub open spec fn assembled(
    devices_path: Seq<char>,
    devices: Result<Seq<char>, Seq<char>>,
    dir: Seq<char>,
    listing: ListingView,
) -> Result<Facts, Seq<char>> {
    match devices {
        Err(e) => Err("cannot read "@ + devices_path + ": "@ + e),
        Ok(s) => {
            let devs = char_devices(text::lines(s));
            let bare = Facts {
                driver: false,
                gpus: Seq::empty(),
                uvm_major: table::lookup(tabled(devs), "nvidia-uvm"@),
                char_majors: majors(devs),
                notes: Seq::empty(),
            };
            match listing {
                // No driver on this node. The majors stay: they are the
                // node's, not the driver's.
                ListingView::Missing => Ok(bare),
                ListingView::Failed(e) => Err("cannot list "@ + dir + ": "@ + e),
                ListingView::Entries(entries) => match scan(
                    dir,
                    entries,
                    Seq::empty(),
                    Seq::empty(),
                ) {
                    Ok((gpus, notes)) => Ok(
                        Facts { driver: true, gpus: by_minor(gpus), notes, ..bare },
                    ),
                    Err(e) => Err(e),
                },
            }
        },
    }
}

/// The view of an inventory that could be read, or of why it could not.
pub open spec fn facts(r: Result<Inventory, String>) -> Result<Facts, Seq<char>> {
    match r {
        Ok(i) => Ok(i@),
        Err(e) => Err(e@),
    }
}

/// Puts a card in its place among cards in minor order.
fn place(gpus: &mut Vec<Gpu>, gpu: Gpu)
    ensures
        all_cards(final(gpus)@) == all_cards(old(gpus)@).insert(
            slot(all_cards(old(gpus)@), gpu.minor) as int,
            gpu@,
        ),
{
    let ghost all = all_cards(gpus@);
    let mut n: usize = gpus.len();
    while n > 0 && gpus[n - 1].minor > gpu.minor
        invariant
            n <= gpus@.len(),
            all == all_cards(gpus@),
            forall|i: int| n <= i < all.len() ==> (#[trigger] all[i]).minor > gpu.minor,
        decreases n,
    {
        proof {
            assert(all[n - 1].minor == gpus@[n - 1].minor);
        }
        n -= 1;
    }
    proof {
        if n > 0 {
            assert(all[n - 1].minor == gpus@[n - 1].minor);
        }
        lemma_slot_is(all, gpu.minor, n as nat);
        lemma_slot(all, gpu.minor);
    }
    let ghost card = gpu@;
    gpus.insert(n, gpu);
    proof {
        assert(all_cards(gpus@) =~= all.insert(n as int, card));
    }
}

/// Puts an inventory together from what reading the node gave: the text of
/// `/proc/devices`, and the driver's GPU directory.
///
/// Without the majors nothing below can be decided, so an unreadable
/// `/proc/devices` is an error and never an empty answer. A card the driver
/// published and will not name, which is what a GPU in reset looks like, is
/// one too: dropping it would shorten the card list, and the next pass would
/// take that card away from the container that has it.
pub fn read_from(
    devices_path: &str,
    devices: Result<String, String>,
    gpus_dir: &str,
    listing: Listing,
) -> (r: Result<Inventory, String>)
    ensures
        facts(r) == assembled(devices_path@, text::result_text(devices), gpus_dir@, listing@),
{
    let text = match devices {
        Ok(text) => text,
        Err(e) => {
            return Err(
                "cannot read ".to_owned().concat(devices_path).concat(": ").concat(e.as_str()),
            );
        },
    };
    let majors = parse_devices(text.as_str());
    let mut inv = Inventory::default();
    inv.uvm_major = match majors.get("nvidia-uvm") {
        Some(m) => Some(*m),
        None => None,
    };
    inv.char_majors = char_majors(text.as_str());
    let entries = match listing {
        Listing::Missing => {
            return Ok(inv);
        },
        Listing::Failed(e) => {
            return Err("cannot list ".to_owned().concat(gpus_dir).concat(": ").concat(e.as_str()));
        },
        Listing::Entries(entries) => entries,
    };
    inv.driver = true;
    let ghost all = entries@.map_values(|e: Entry| e@);
    let ghost bare = inv@;
    let ghost mut found = Seq::<Card>::empty();
    let mut i: usize = 0;
    proof {
        assert(all.skip(0) =~= all);
        assert(inv@.gpus =~= by_minor(found));
    }
    while i < entries.len()
        invariant
            i <= entries@.len(),
            all == entries@.map_values(|e: Entry| e@),
            inv@ == (Facts { gpus: by_minor(found), notes: inv@.notes, ..bare }),
            scan(gpus_dir@, all, Seq::empty(), Seq::empty()) == scan(
                gpus_dir@,
                all.skip(i as int),
                found,
                inv@.notes,
            ),
            facts(Ok(inv)) == Ok::<Facts, Seq<char>>(inv@),
            assembled(devices_path@, text::result_text(devices), gpus_dir@, listing@) == match scan(
                gpus_dir@,
                all,
                Seq::empty(),
                Seq::empty(),
            ) {
                Ok((gpus, notes)) => Ok(Facts { gpus: by_minor(gpus), notes, ..bare }),
                Err(e) => Err(e),
            },
        decreases entries.len() - i,
    {
        let ghost before = inv;
        proof {
            assert(all.skip(i as int)[0] == entries@[i as int]@);
            assert(all.skip(i as int).skip(1) =~= all.skip(i + 1));
        }
        match &entries[i] {
            Entry::Failed(e) => {
                return Err(
                    "cannot list ".to_owned().concat(gpus_dir).concat(": ").concat(e.as_str()),
                );
            },
            Entry::Found(path, File::Text(s)) => match parse_information(s.as_str()) {
                Some(gpu) => {
                    proof {
                        assert(found.push(gpu@).drop_last() =~= found);
                        found = found.push(gpu@);
                    }
                    place(&mut inv.gpus, gpu);
                },
                None => {
                    return Err(
                        path.clone().concat(": the driver names no GPU UUID here"),
                    );
                },
            },
            Entry::Found(path, File::Missing) => {
                let note = path.clone().concat(": no information file");
                proof {
                    text::lemma_texts_push(inv.notes@, note);
                }
                inv.notes.push(note);
            },
            Entry::Found(path, File::Failed(e)) => {
                return Err(
                    "cannot read ".to_owned().concat(path.as_str()).concat(": ").concat(
                        e.as_str(),
                    ),
                );
            },
        }
        i += 1;
    }
    Ok(inv)
}

/// What reading the node's inventory does next.
#[derive(Debug)]
pub enum Reading {
    /// Read `/proc/devices` and the driver's GPU directory, then [`scanned`].
    Scan,
    /// Run `nvidia-modprobe`, then [`loaded`]. What was read is thrown away.
    LoadUvm,
    /// Read both again, then [`scanned`]: this is what came of the loading.
    Rescan(Result<(), String>),
    /// Run `nvidia-smi`, then [`named_by_smi`]: this is what was read, and
    /// what came of the loading, where that was tried.
    Name(Inventory, Option<Result<(), String>>),
    /// It is done, or it failed, and why.
    Done(Result<Inventory, String>),
}

/// What a [`Reading`] says.
pub enum ReadingView {
    Scan,
    LoadUvm,
    Rescan(Result<(), Seq<char>>),
    Name(Facts, Option<Result<(), Seq<char>>>),
    Done(Result<Facts, Seq<char>>),
}

/// What came of the loading, where it was tried.
pub open spec fn asked_view(asked: Option<Result<(), String>>) -> Option<Result<(), Seq<char>>> {
    match asked {
        Some(r) => Some(text::outcome(r)),
        None => None,
    }
}

impl View for Reading {
    type V = ReadingView;

    open spec fn view(&self) -> ReadingView {
        match self {
            Reading::Scan => ReadingView::Scan,
            Reading::LoadUvm => ReadingView::LoadUvm,
            Reading::Rescan(asked) => ReadingView::Rescan(text::outcome(*asked)),
            Reading::Name(inv, asked) => ReadingView::Name(inv@, asked_view(*asked)),
            Reading::Done(r) => ReadingView::Done(facts(*r)),
        }
    }
}

/// Whether a read leaves `nvidia-uvm` to be loaded.
pub open spec fn wants_uvm(f: Facts) -> bool {
    f.driver && f.uvm_major is None
}

/// What follows a read of the node: `asked` is what came of loading
/// `nvidia-uvm`, where that was tried. It is tried once. The read before it is
/// not named: it is thrown away, and `nvidia-smi` is the one expensive call.
pub open spec fn after_scan(
    asked: Option<Result<(), Seq<char>>>,
    read: Result<Facts, Seq<char>>,
) -> ReadingView {
    match read {
        Err(e) => ReadingView::Done(Err(e)),
        Ok(f) => if asked is None && wants_uvm(f) {
            ReadingView::LoadUvm
        } else if f.gpus.len() > 0 {
            ReadingView::Name(f, asked)
        } else {
            ReadingView::Done(Ok(with_uvm_note(f, asked)))
        },
    }
}

/// Reads this node's inventory, loading `nvidia-uvm` if the driver is there
/// and that module is not: this is what it begins with.
pub fn read() -> (r: Reading)
    ensures
        r@ == ReadingView::Scan,
{
    Reading::Scan
}

/// After a read of the node.
pub fn scanned(asked: Option<Result<(), String>>, read: Result<Inventory, String>) -> (r: Reading)
    ensures
        r@ == after_scan(asked_view(asked), facts(read)),
{
    match read {
        Err(e) => Reading::Done(Err(e)),
        Ok(inv) => if asked.is_none() && inv.driver && inv.uvm_major.is_none() {
            Reading::LoadUvm
        } else if inv.gpus.len() > 0 {
            Reading::Name(inv, asked)
        } else {
            Reading::Done(Ok(note_uvm(inv, asked)))
        },
    }
}

/// After `nvidia-modprobe` ran.
pub fn loaded(out: Result<Output, String>) -> (r: Reading)
    ensures
        r@ == ReadingView::Rescan(loading(said(out))),
{
    Reading::Rescan(load_uvm(out))
}

/// After `nvidia-smi` ran.
pub fn named_by_smi(
    inv: Inventory,
    asked: Option<Result<(), String>>,
    out: Result<Output, String>,
) -> (r: Reading)
    ensures
        r@ == ReadingView::Done(
            Ok(with_uvm_note(with_names(inv@, said(out)), asked_view(asked))),
        ),
{
    Reading::Done(Ok(note_uvm(name_gpus(inv, out), asked)))
}

/// The arguments `nvidia-modprobe` is given.
pub fn modprobe_args() -> (r: Vec<String>)
    ensures
        text::texts(r@) == seq!["-u"@, "-c"@, "0"@],
{
    let mut r: Vec<String> = Vec::new();
    r.push("-u".to_owned());
    r.push("-c".to_owned());
    r.push("0".to_owned());
    proof {
        assert(text::texts(r@) =~= seq!["-u"@, "-c"@, "0"@]);
    }
    r
}

/// What `nvidia-modprobe -u -c 0` came to.
pub open spec fn loading(out: Result<Said, Seq<char>>) -> Result<(), Seq<char>> {
    match out {
        Ok(o) => if o.status == 0 {
            Ok(())
        } else {
            Err(
                MODPROBE@ + " exited "@ + text::signed(o.status as int) + ": "@ + text::trim(
                    o.stderr,
                ),
            )
        },
        Err(e) => Err(e),
    }
}

/// The view of a finished command, or of why it did not finish.
pub open spec fn said(out: Result<Output, String>) -> Result<Said, Seq<char>> {
    match out {
        Ok(o) => Ok(o@),
        Err(e) => Err(e@),
    }
}

/// `nvidia-modprobe -u -c 0`, which loads `nvidia-uvm` and creates its device
/// nodes: `out` is how it ended.
pub fn load_uvm(out: Result<Output, String>) -> (r: Result<(), String>)
    ensures
        text::outcome(r) == loading(said(out)),
{
    match out {
        Ok(o) => if o.status == 0 {
            Ok(())
        } else {
            Err(
                MODPROBE.to_owned().concat(" exited ").concat(
                    text::signed_of(o.status).as_str(),
                ).concat(": ").concat(text::trimmed(o.stderr.as_str())),
            )
        },
        Err(e) => Err(e),
    }
}

/// What is noted when `nvidia-uvm` is still not there after it was asked for.
pub open spec fn uvm_note(asked: Result<(), Seq<char>>) -> Seq<char> {
    match asked {
        Ok(()) => "nvidia-uvm is not loaded ("@ + MODPROBE@
            + " -u -c 0 did not load it); containers get no /dev/nvidia-uvm and no CUDA"@,
        Err(e) => "nvidia-uvm is not loaded and "@ + e,
    }
}

/// An inventory that says so if `nvidia-uvm` was asked for and is still not
/// there.
pub open spec fn with_uvm_note(f: Facts, asked: Option<Result<(), Seq<char>>>) -> Facts {
    match asked {
        Some(a) => if f.uvm_major is None {
            Facts { notes: f.notes.push(uvm_note(a)), ..f }
        } else {
            f
        },
        None => f,
    }
}

/// Says so if `nvidia-uvm` was asked for and is still not there.
pub fn note_uvm(inv: Inventory, asked: Option<Result<(), String>>) -> (r: Inventory)
    ensures
        r@ == with_uvm_note(inv@, asked_view(asked)),
{
    let mut inv = inv;
    if let Some(asked) = asked {
        if inv.uvm_major.is_none() {
            let note = match asked {
                Ok(()) => "nvidia-uvm is not loaded (".to_owned().concat(MODPROBE).concat(
                    " -u -c 0 did not load it); containers get no /dev/nvidia-uvm and no CUDA",
                ),
                Err(e) => "nvidia-uvm is not loaded and ".to_owned().concat(e.as_str()),
            };
            proof {
                text::lemma_texts_push(inv.notes@, note);
            }
            inv.notes.push(note);
        }
    }
    inv
}

/// The arguments `nvidia-smi` is given.
pub fn smi_args() -> (r: Vec<String>)
    ensures
        text::texts(r@) == seq![
            "--query-gpu=uuid,name,memory.total,pci.bus_id"@,
            "--format=csv,noheader"@,
        ],
{
    let mut r: Vec<String> = Vec::new();
    r.push("--query-gpu=uuid,name,memory.total,pci.bus_id".to_owned());
    r.push("--format=csv,noheader".to_owned());
    proof {
        assert(text::texts(r@) =~= seq![
            "--query-gpu=uuid,name,memory.total,pci.bus_id"@,
            "--format=csv,noheader"@,
        ]);
    }
    r
}

/// A card with the name and the memory size `nvidia-smi` has for it.
pub open spec fn named(
    c: Card,
    names: Seq<(Seq<char>, (Seq<char>, Option<u64>))>,
) -> Card {
    match table::lookup(names, c.uuid) {
        Some((name, mib)) => Card { name: Some(name), memory_mib: mib, ..c },
        None => c,
    }
}

/// An inventory after `nvidia-smi` answered, or did not: that is noted, and
/// the cards stay as they are.
pub open spec fn with_names(f: Facts, out: Result<Said, Seq<char>>) -> Facts {
    match out {
        Ok(o) => if o.status == 0 {
            let names = tabled(smi_entries(text::lines(o.stdout)));
            Facts { gpus: f.gpus.map_values(|c: Card| named(c, names)), ..f }
        } else {
            Facts {
                notes: f.notes.push(
                    "nvidia-smi exited "@ + text::signed(o.status as int) + ": "@ + text::trim(
                        o.stderr,
                    ),
                ),
                ..f
            }
        },
        Err(e) => Facts { notes: f.notes.push("nvidia-smi: "@ + e), ..f },
    }
}

/// Fills in names and memory sizes from `nvidia-smi`, if it ran.
pub fn name_gpus(inv: Inventory, out: Result<Output, String>) -> (r: Inventory)
    ensures
        r@ == with_names(inv@, said(out)),
{
    let mut inv = inv;
    let text = match out {
        Ok(o) => if o.status == 0 {
            o.stdout
        } else {
            let note = "nvidia-smi exited ".to_owned().concat(
                text::signed_of(o.status).as_str(),
            ).concat(": ").concat(text::trimmed(o.stderr.as_str()));
            proof {
                text::lemma_texts_push(inv.notes@, note);
            }
            inv.notes.push(note);
            return inv;
        },
        Err(e) => {
            let note = "nvidia-smi: ".to_owned().concat(e.as_str());
            proof {
                text::lemma_texts_push(inv.notes@, note);
            }
            inv.notes.push(note);
            return inv;
        },
    };
    let table = parse_smi(text.as_str());
    let ghost names = tabled(smi_entries(text::lines(text@)));
    let ghost before = inv@;
    let ghost all = inv@.gpus;
    let mut i: usize = 0;
    while i < inv.gpus.len()
        invariant
            names == names_of(table@),
            i <= inv.gpus@.len() == all.len(),
            inv@ == (Facts { gpus: inv@.gpus, ..before }),
            forall|j: int| 0 <= j < i ==> (#[trigger] inv.gpus@[j])@ == named(all[j], names),
            forall|j: int| i <= j < all.len() ==> (#[trigger] inv.gpus@[j])@ == all[j],
        decreases inv.gpus@.len() - i,
    {
        proof {
            lemma_lookup_names(table@, inv.gpus@[i as int].uuid@);
        }
        if let Some(found) = table.get(inv.gpus[i].uuid.as_str()) {
            let gpu = &mut inv.gpus[i];
            gpu.name = Some(found.0.clone());
            gpu.memory_mib = found.1;
        }
        i += 1;
    }
    proof {
        assert(inv@.gpus =~= all.map_values(|c: Card| named(c, names)));
    }
    inv
}

proof fn lemma_lookup_names(t: Seq<(Seq<char>, (String, Option<u64>))>, key: Seq<char>)
    ensures
        table::lookup(names_of(t), key) == match table::lookup(t, key) {
            Some(v) => Some(named_view(v)),
            None => None,
        },
{
    table::lemma_with_mapped(
        t,
        |v: (String, Option<u64>)| named_view(v),
        key,
        arbitrary(),
    );
}

// ---------------------------------------------------------------------------
// A read either succeeds or fails.
// ---------------------------------------------------------------------------

/// The number of entries that hold a card's `information`.
pub open spec fn published(entries: Seq<EntryView>) -> nat
    decreases entries.len(),
{
    if entries.len() == 0 {
        0
    } else {
        let n: nat = if entries[0] matches EntryView::Found(_, FileView::Text(_)) {
            1
        } else {
            0
        };
        n + published(entries.skip(1))
    }
}

proof fn lemma_scan(
    dir: Seq<char>,
    entries: Seq<EntryView>,
    gpus: Seq<Card>,
    notes: Seq<Seq<char>>,
)
    ensures
        scan(dir, entries, gpus, notes) matches Ok((g, _)) ==> g.len() == gpus.len() + published(
            entries,
        ),
    decreases entries.len(),
{
    if entries.len() > 0 {
        if let Ok((g, n)) = scan_entry(dir, entries[0], gpus, notes) {
            lemma_scan(dir, entries.skip(1), g, n);
        }
    }
}

/// A read that succeeds has every card the driver published, in minor order:
/// there is no smaller inventory. Where the GPU directory is not there, the
/// answer is "no driver".
pub proof fn law_no_card_is_dropped(
    devices_path: Seq<char>,
    devices: Result<Seq<char>, Seq<char>>,
    dir: Seq<char>,
    listing: ListingView,
)
    ensures
        assembled(devices_path, devices, dir, listing) matches Ok(f) ==> {
            &&& f.driver == (listing is Entries)
            &&& listing matches ListingView::Entries(entries) ==> f.gpus.len() == published(entries)
            &&& in_order(f.gpus)
        },
{
    if let ListingView::Entries(entries) = listing {
        lemma_scan(dir, entries, Seq::empty(), Seq::empty());
        if let Ok((g, _)) = scan(dir, entries, Seq::empty(), Seq::empty()) {
            law_by_minor_is_a_stable_sort(g);
        }
    }
}

/// `nvidia-uvm` is asked for at most once a read, and only where the driver is
/// there and the module is not; that it is still not there is then said.
pub proof fn law_nvidia_uvm_is_asked_for_once(
    asked: Option<Result<(), Seq<char>>>,
    f: Facts,
)
    ensures
        after_scan(asked, Ok(f)) is LoadUvm <==> asked is None && f.driver && f.uvm_major is None,
        asked is Some && f.uvm_major is None ==> with_uvm_note(f, asked).notes.len()
            == f.notes.len() + 1,
{
}

/// Whether every card's UUID can stand on a config line.
pub open spec fn all_tidy(gpus: Seq<Card>) -> bool {
    forall|i: int| 0 <= i < gpus.len() ==> text::tidy((#[trigger] gpus[i]).uuid)
}

proof fn lemma_field_tidy(ls: Seq<Seq<char>>, key: Seq<char>)
    requires
        text::all_one_line(ls),
    ensures
        field(ls, key) matches Some(v) ==> v.len() > 0 ==> text::tidy(v),
    decreases ls.len(),
{
    if ls.len() > 0 {
        let l = ls.last();
        assert(text::one_line(ls[ls.len() - 1]));
        if let Some((_, v)) = text::split_once(l, ':') {
            let n = text::first(l, ':') as int;
            assert forall|i: int| 0 <= i < v.len() implies v[i] != '\n' by {
                assert(v[i] == l[n + 1 + i]);
            }
            text::lemma_trim_tidy(v);
        }
        assert forall|i: int| 0 <= i < ls.drop_last().len() implies text::one_line(
            #[trigger] ls.drop_last()[i],
        ) by {
            assert(text::one_line(ls[i]));
        }
        lemma_field_tidy(ls.drop_last(), key);
    }
}

proof fn lemma_scan_tidy(
    dir: Seq<char>,
    entries: Seq<EntryView>,
    gpus: Seq<Card>,
    notes: Seq<Seq<char>>,
)
    requires
        all_tidy(gpus),
    ensures
        scan(dir, entries, gpus, notes) matches Ok((g, _)) ==> all_tidy(g),
    decreases entries.len(),
{
    if entries.len() > 0 {
        if let Ok((g, n)) = scan_entry(dir, entries[0], gpus, notes) {
            if let EntryView::Found(_, FileView::Text(s)) = entries[0] {
                text::lemma_lines_are_lines(s);
                lemma_field_tidy(text::lines(s), "GPU UUID"@);
            }
            lemma_scan_tidy(dir, entries.skip(1), g, n);
        }
    }
}

/// Sorting keeps every UUID as it is.
pub proof fn lemma_by_minor_tidy(s: Seq<Card>)
    requires
        all_tidy(s),
    ensures
        all_tidy(by_minor(s)),
{
    law_by_minor_is_a_stable_sort(s);
    let t = by_minor(s);
    assert forall|i: int| 0 <= i < t.len() implies text::tidy((#[trigger] t[i]).uuid) by {
        t.to_multiset_ensures();
        s.to_multiset_ensures();
        assert(t.contains(t[i]));
        assert(t.to_multiset().contains(t[i]));
        assert(s.contains(t[i]));
        let k = choose|k: int| 0 <= k < s.len() && s[k] == t[i];
        assert(text::tidy(s[k].uuid));
    }
}

/// Every UUID of an inventory is one that can stand on a config line, whatever
/// the driver's files hold.
pub proof fn law_uuids_are_tidy(
    devices_path: Seq<char>,
    devices: Result<Seq<char>, Seq<char>>,
    dir: Seq<char>,
    listing: ListingView,
)
    ensures
        assembled(devices_path, devices, dir, listing) matches Ok(f) ==> all_tidy(f.gpus),
{
    if let ListingView::Entries(entries) = listing {
        lemma_scan_tidy(dir, entries, Seq::empty(), Seq::empty());
        if let Ok((g, _)) = scan(dir, entries, Seq::empty(), Seq::empty()) {
            lemma_by_minor_tidy(g);
        }
    }
}

/// Naming the cards changes none of them but for its name and its memory
/// size, whatever `nvidia-smi` said.
pub proof fn law_names_are_only_names(f: Facts, out: Result<Said, Seq<char>>)
    ensures
        with_names(f, out).driver == f.driver,
        with_names(f, out).uvm_major == f.uvm_major,
        with_names(f, out).char_majors == f.char_majors,
        with_names(f, out).gpus.len() == f.gpus.len(),
        forall|i: int|
            0 <= i < f.gpus.len() ==> {
                let c = #[trigger] with_names(f, out).gpus[i];
                c.uuid == f.gpus[i].uuid && c.minor == f.gpus[i].minor && c.bus == f.gpus[i].bus
            },
        all_tidy(f.gpus) ==> all_tidy(with_names(f, out).gpus),
{
    let g = with_names(f, out).gpus;
    assert forall|i: int| 0 <= i < f.gpus.len() implies {
        let c = #[trigger] g[i];
        c.uuid == f.gpus[i].uuid && c.minor == f.gpus[i].minor && c.bus == f.gpus[i].bus
    } by {}
}

} // verus!
