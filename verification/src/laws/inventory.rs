//! What is found out of a node, from the text of its files.

use vstd::prelude::*;

use crate::cmd::Said;
use crate::file::FileView;
use crate::inventory::{
    self, after_scan, assembled, by_minor, char_devices, description, device_entry, field,
    first_after, in_chars, information, is_char_title, is_title, loading, named, scan, scan_entry,
    smi_entries, smi_entry, smi_fields, tabled, with_names, with_uvm_note, Card, EntryView, Facts,
    ListingView, ReadingView,
};
use crate::table;
use crate::text;

verus! {

// ---------------------------------------------------------------------------
// A card's information file.
// ---------------------------------------------------------------------------

/// `line` is `k`, its first colon, and `x`.
pub open spec fn cut_at_colon(line: Seq<char>, k: Seq<char>, x: Seq<char>) -> bool {
    line == k + seq![':'] + x && !k.contains(':')
}

/// `line` gives `key` the value `v`: they stand before and after its first
/// colon, white space around them aside.
pub open spec fn tells(line: Seq<char>, key: Seq<char>, v: Seq<char>) -> bool {
    exists|k: Seq<char>, x: Seq<char>| #[trigger]
        cut_at_colon(line, k, x) && text::trim(k) == key && text::trim(x) == v
}

/// The last line of `ls` that gives `key` a value gives it `v`.
pub open spec fn tells_last(ls: Seq<Seq<char>>, i: int, key: Seq<char>, v: Seq<char>) -> bool {
    &&& 0 <= i < ls.len()
    &&& tells(ls[i], key, v)
    &&& forall|j: int, u: Seq<char>| i < j < ls.len() ==> !#[trigger] tells(ls[j], key, u)
}

proof fn lemma_tells(line: Seq<char>, key: Seq<char>, v: Seq<char>)
    ensures
        tells(line, key, v) <==> (text::split_once(line, ':') matches Some(p) && text::trim(p.0)
            == key && text::trim(p.1) == v),
{
    text::lemma_first(line, ':');
    let n = text::first(line, ':');
    if tells(line, key, v) {
        let (k, x) = choose|k: Seq<char>, x: Seq<char>| #[trigger]
            cut_at_colon(line, k, x) && text::trim(k) == key && text::trim(x) == v;
        assert forall|i: int| 0 <= i < k.len() implies line[i] != ':' by {
            assert(line[i] == k[i]);
            assert(k.contains(k[i]));
        }
        assert(line[k.len() as int] == ':');
        text::lemma_first_is(line, ':', k.len());
        assert(line.take(k.len() as int) =~= k);
        assert(line.skip(k.len() as int + 1) =~= x);
    }
    if n < line.len() {
        let k = line.take(n as int);
        let x = line.skip(n as int + 1);
        assert(line =~= k + seq![':'] + x);
        assert(!k.contains(':')) by {
            if k.contains(':') {
                let i = choose|i: int| 0 <= i < k.len() && k[i] == ':';
                assert(line[i] == ':');
            }
        }
        assert(cut_at_colon(line, k, x));
    }
}

/// A field is the one its last line gives, and there is none exactly if no
/// line gives one.
pub proof fn law_the_last_field_counts(ls: Seq<Seq<char>>, key: Seq<char>)
    ensures
        field(ls, key) is Some ==> exists|i: int| #[trigger]
            tells_last(ls, i, key, field(ls, key)->Some_0),
        field(ls, key) is None ==> forall|i: int, u: Seq<char>|
            0 <= i < ls.len() ==> !#[trigger] tells(ls[i], key, u),
    decreases ls.len(),
{
    if ls.len() > 0 {
        let t = ls.drop_last();
        let l = ls.last();
        law_the_last_field_counts(t, key);
        let here = text::split_once(l, ':') is Some && text::trim(
            text::split_once(l, ':')->Some_0.0,
        ) == key;
        if here {
            let v = text::trim(text::split_once(l, ':')->Some_0.1);
            lemma_tells(l, key, v);
            assert(field(ls, key)->Some_0 == v);
            assert(tells_last(ls, ls.len() - 1, key, field(ls, key)->Some_0));
        } else {
            assert(field(ls, key) == field(t, key));
            assert forall|u: Seq<char>| !#[trigger] tells(l, key, u) by {
                lemma_tells(l, key, u);
            }
            if field(t, key) is Some {
                let v = field(t, key)->Some_0;
                let i = choose|i: int| #[trigger] tells_last(t, i, key, v);
                assert(ls[i] == t[i]);
                assert forall|j: int, u: Seq<char>| i < j < ls.len() implies !#[trigger] tells(
                    ls[j],
                    key,
                    u,
                ) by {
                    if j < t.len() {
                        assert(t[j] == ls[j]);
                        assert(!tells(t[j], key, u));
                    }
                }
                assert(tells_last(ls, i, key, field(ls, key)->Some_0));
            } else {
                assert forall|i: int, u: Seq<char>| 0 <= i < ls.len() implies !#[trigger] tells(
                    ls[i],
                    key,
                    u,
                ) by {
                    if i < t.len() {
                        assert(t[i] == ls[i]);
                        assert(!tells(t[i], key, u));
                    }
                }
            }
        }
    } else {
        assert(field(ls, key) is None);
    }
}

proof fn lemma_field_is(ls: Seq<Seq<char>>, i: int, key: Seq<char>, v: Seq<char>)
    requires
        tells_last(ls, i, key, v),
    ensures
        field(ls, key) == Some(v),
{
    law_the_last_field_counts(ls, key);
    assert(tells(ls[i], key, v));
    let w = field(ls, key)->Some_0;
    let j = choose|j: int| #[trigger] tells_last(ls, j, key, w);
    assert(tells(ls[j], key, w));
    if i < j {
        assert(!tells(ls[j], key, w));
    } else if j < i {
        assert(!tells(ls[i], key, v));
    }
    lemma_tells(ls[i], key, v);
    lemma_tells(ls[i], key, w);
}

/// `ls[i]` is the first line that begins with `p`, and `v` is what follows.
pub open spec fn begins_first(ls: Seq<Seq<char>>, i: int, p: Seq<char>, v: Seq<char>) -> bool {
    &&& 0 <= i < ls.len()
    &&& ls[i].len() >= p.len() && ls[i].take(p.len() as int) == p
    &&& v == text::trim(ls[i].skip(p.len() as int))
    &&& forall|j: int|
        0 <= j < i ==> (#[trigger] ls[j]).len() < p.len() || ls[j].take(p.len() as int) != p
}

proof fn lemma_first_after(ls: Seq<Seq<char>>, p: Seq<char>)
    ensures
        first_after(ls, p) is Some ==> exists|i: int| #[trigger]
            begins_first(ls, i, p, first_after(ls, p)->Some_0),
        first_after(ls, p) is None ==> forall|i: int|
            0 <= i < ls.len() ==> (#[trigger] ls[i]).len() < p.len() || ls[i].take(p.len() as int)
                != p,
    decreases ls.len(),
{
    if ls.len() > 0 {
        let t = ls.skip(1);
        lemma_first_after(t, p);
        if text::starts_with(ls[0], p) {
            assert(begins_first(ls, 0, p, first_after(ls, p)->Some_0));
        } else {
            assert(first_after(ls, p) == first_after(t, p));
            if first_after(t, p) is Some {
                let v = first_after(t, p)->Some_0;
                let i = choose|i: int| #[trigger] begins_first(t, i, p, v);
                assert(ls[i + 1] == t[i]);
                assert forall|j: int| 0 <= j < i + 1 implies (#[trigger] ls[j]).len() < p.len()
                    || ls[j].take(p.len() as int) != p by {
                    if j > 0 {
                        assert(t[j - 1] == ls[j]);
                    }
                }
                assert(begins_first(ls, i + 1, p, first_after(ls, p)->Some_0));
            } else {
                assert forall|j: int| 0 <= j < ls.len() implies (#[trigger] ls[j]).len() < p.len()
                    || ls[j].take(p.len() as int) != p by {
                    if j > 0 {
                        assert(t[j - 1] == ls[j]);
                    }
                }
            }
        }
    } else {
        assert(first_after(ls, p) is None);
    }
}

/// The file describes a card with this uuid and this minor.
pub open spec fn describes(s: Seq<char>, uuid: Seq<char>, minor: u32) -> bool {
    let ls = text::lines(s);
    exists|i: int, j: int, m: Seq<char>|
        #![trigger tells_last(ls, i, "GPU UUID"@, uuid), tells_last(ls, j, "Device Minor"@, m)]
        tells_last(ls, i, "GPU UUID"@, uuid) && tells_last(ls, j, "Device Minor"@, m) && uuid.len()
            > 0 && text::parse_u32(m) == Some(minor)
}

/// An information file describes the card whose uuid and minor it gives, with
/// the bus location that follows the words for it, if they are there; without
/// a uuid or a number for a minor it describes none.
pub proof fn law_what_an_information_file_describes(s: Seq<char>, uuid: Seq<char>, minor: u32)
    ensures
        describes(s, uuid, minor) <==> information(s) is Some && information(s)->Some_0.uuid == uuid
            && information(s)->Some_0.minor == minor,
        information(s) is Some ==> information(s)->Some_0.name is None && information(
            s,
        )->Some_0.memory_mib is None,
        information(s) is Some && information(s)->Some_0.bus.len() > 0 ==> exists|i: int| #[trigger]
            begins_first(text::lines(s), i, "Bus Location:"@, information(s)->Some_0.bus),
        forall|i: int, bus: Seq<char>| #[trigger]
            begins_first(text::lines(s), i, "Bus Location:"@, bus) && information(s) is Some
                ==> information(s)->Some_0.bus == bus,
{
    let ls = text::lines(s);
    law_the_last_field_counts(ls, "GPU UUID"@);
    law_the_last_field_counts(ls, "Device Minor"@);
    lemma_first_after(ls, "Bus Location:"@);
    if describes(s, uuid, minor) {
        let (i, j, m) = choose|i: int, j: int, m: Seq<char>|
            #![trigger tells_last(ls, i, "GPU UUID"@, uuid), tells_last(ls, j, "Device Minor"@, m)]
            tells_last(ls, i, "GPU UUID"@, uuid) && tells_last(ls, j, "Device Minor"@, m)
                && uuid.len() > 0 && text::parse_u32(m) == Some(minor);
        lemma_field_is(ls, i, "GPU UUID"@, uuid);
        lemma_field_is(ls, j, "Device Minor"@, m);
    }
    if information(s) is Some {
        let u = field(ls, "GPU UUID"@)->Some_0;
        let m = field(ls, "Device Minor"@)->Some_0;
        let i = choose|i: int| #[trigger] tells_last(ls, i, "GPU UUID"@, u);
        let j = choose|j: int| #[trigger] tells_last(ls, j, "Device Minor"@, m);
        assert(tells_last(ls, i, "GPU UUID"@, u) && tells_last(ls, j, "Device Minor"@, m));
    }
    assert forall|i: int, bus: Seq<char>| #[trigger]
        begins_first(ls, i, "Bus Location:"@, bus) && information(s) is Some implies information(
        s,
    )->Some_0.bus == bus by {
        let p = "Bus Location:"@;
        assert(first_after(ls, p) is Some);
        let v = first_after(ls, p)->Some_0;
        let k = choose|k: int| #[trigger] begins_first(ls, k, p, v);
        if i < k {
            assert(ls[i].take(p.len() as int) != p);
        } else if k < i {
            assert(ls[k].take(p.len() as int) != p);
        }
    }
}

// ---------------------------------------------------------------------------
// The character devices.
// ---------------------------------------------------------------------------

/// `line` is a title: white space aside, it ends with `devices:`.
pub open spec fn titles(line: Seq<char>) -> bool {
    exists|p: Seq<char>| text::trim(line) == #[trigger] (p + "devices:"@)
}

/// The lines before `i` end in the section of the character devices.
pub open spec fn among_chars(ls: Seq<Seq<char>>, i: int) -> bool {
    exists|j: int|
        #![trigger ls[j]]
        0 <= j < i && is_char_title(ls[j]) && forall|k: int| j < k < i ==> !titles(#[trigger] ls[k])
}

/// `line` is a number, white space and `name`.
pub open spec fn numbers(line: Seq<char>, name: Seq<char>, major: u32) -> bool {
    exists|a: Seq<char>, c: char, x: Seq<char>|
        text::trim(line) == #[trigger] (a + seq![c] + x) && text::spaceless(a) && text::is_space(c)
            && text::parse_u32(a) == Some(major) && name == text::trim(x)
}

/// A line begins a section exactly if it ends with `devices:`, and that of the
/// character devices if it is spelled so.
pub proof fn law_what_a_title_is(line: Seq<char>)
    ensures
        is_title(line) <==> titles(line),
        text::trim(line) == "Character devices:"@ ==> is_char_title(line),
        text::trim(line) == "Block devices:"@ ==> is_title(line) && !is_char_title(line),
        is_char_title(line) ==> titles(line) && text::trim(line).len() == 18,
{
    reveal_strlit("devices:");
    reveal_strlit("Character devices:");
    reveal_strlit("Block devices:");
    let t = text::trim(line);
    if is_title(line) {
        let p = t.take(t.len() - 8);
        assert(t =~= p + "devices:"@);
    }
    if titles(line) {
        let p = choose|p: Seq<char>| t == #[trigger] (p + "devices:"@);
        assert(t.skip(t.len() - 8) =~= "devices:"@);
    }
    assert("Character devices:"@.len() == 18);
    assert("Block devices:"@.len() == 14);
    if t == "Character devices:"@ {
        assert(t.skip(10) =~= "devices:"@);
    }
    if t == "Block devices:"@ {
        assert(t.skip(6) =~= "devices:"@);
    }
}

proof fn lemma_in_chars(ls: Seq<Seq<char>>)
    ensures
        in_chars(ls) <==> among_chars(ls, ls.len() as int),
    decreases ls.len(),
{
    let n = ls.len() as int;
    if n > 0 {
        let t = ls.drop_last();
        let l = ls.last();
        lemma_in_chars(t);
        law_what_a_title_is(l);
        if is_title(l) {
            if is_char_title(l) {
                assert(ls[n - 1] == l);
                assert(among_chars(ls, n));
            }
            if among_chars(ls, n) {
                let j = choose|j: int|
                    #![trigger ls[j]]
                    0 <= j < n && is_char_title(ls[j]) && forall|k: int|
                        j < k < n ==> !titles(#[trigger] ls[k]);
                if j < n - 1 {
                    assert(titles(ls[n - 1]));
                }
            }
        } else {
            if among_chars(t, n - 1) {
                let j = choose|j: int|
                    #![trigger t[j]]
                    0 <= j < n - 1 && is_char_title(t[j]) && forall|k: int|
                        j < k < n - 1 ==> !titles(#[trigger] t[k]);
                assert(ls[j] == t[j]);
                assert forall|k: int| j < k < n implies !titles(#[trigger] ls[k]) by {
                    if k < n - 1 {
                        assert(ls[k] == t[k]);
                    }
                }
            }
            if among_chars(ls, n) {
                let j = choose|j: int|
                    #![trigger ls[j]]
                    0 <= j < n && is_char_title(ls[j]) && forall|k: int|
                        j < k < n ==> !titles(#[trigger] ls[k]);
                law_what_a_title_is(ls[j]);
                assert(j < n - 1);
                assert(t[j] == ls[j]);
                assert forall|k: int| j < k < n - 1 implies !titles(#[trigger] t[k]) by {
                    assert(ls[k] == t[k]);
                }
            }
        }
    }
}

proof fn lemma_numbers(line: Seq<char>, name: Seq<char>, major: u32)
    ensures
        device_entry(line) == Some((name, major)) <==> !titles(line) && numbers(line, name, major),
{
    law_what_a_title_is(line);
    let t = text::trim(line);
    let n = text::first_space(t) as int;
    text::lemma_first_space(t);
    if !is_title(line) && n < t.len() {
        let a = t.take(n);
        let c = t[n];
        let x = t.skip(n + 1);
        assert(t =~= a + seq![c] + x);
        assert forall|i: int| 0 <= i < a.len() implies !text::is_space(#[trigger] a[i]) by {
            assert(a[i] == t[i]);
        }
    }
    if !titles(line) && numbers(line, name, major) {
        let (a, c, x) = choose|a: Seq<char>, c: char, x: Seq<char>|
            t == #[trigger] (a + seq![c] + x) && text::spaceless(a) && text::is_space(c)
                && text::parse_u32(a) == Some(major) && name == text::trim(x);
        assert forall|i: int| 0 <= i < a.len() implies !text::is_space(t[i]) by {
            assert(t[i] == a[i]);
        }
        assert(t[a.len() as int] == c);
        text::lemma_first_space_is(t, a.len());
        assert(t.take(a.len() as int) =~= a);
        assert(t.skip(a.len() as int + 1) =~= x);
    }
}

/// A line of `/proc/devices` adds the device it names exactly if it is a
/// number and a name, is no title, and the title before it is that of the
/// character devices.
pub proof fn law_which_devices_are_listed(
    ls: Seq<Seq<char>>,
    l: Seq<char>,
    name: Seq<char>,
    major: u32,
)
    ensures
        char_devices(Seq::empty()).len() == 0,
        among_chars(ls, ls.len() as int) && !titles(l) && numbers(l, name, major) ==> char_devices(
            ls.push(l),
        ) == char_devices(ls).push((name, major)),
        !(among_chars(ls, ls.len() as int) && !titles(l) && exists|n: Seq<char>, m: u32| #[trigger]
            numbers(l, n, m)) ==> char_devices(ls.push(l)) == char_devices(ls),
{
    lemma_in_chars(ls);
    lemma_numbers(l, name, major);
    assert(ls.push(l).drop_last() =~= ls);
    assert(ls.push(l).last() == l);
    if device_entry(l) is Some {
        let e = device_entry(l)->Some_0;
        lemma_numbers(l, e.0, e.1);
    }
}

// ---------------------------------------------------------------------------
// Tables.
// ---------------------------------------------------------------------------

proof fn lemma_lookup_with<V>(s: Seq<(Seq<char>, V)>, key: Seq<char>, v: V, k: Seq<char>)
    ensures
        table::lookup(table::with(s, key, v), k) == if k == key {
            Some(v)
        } else {
            table::lookup(s, k)
        },
{
    table::lemma_position(s, key);
    table::lemma_position(s, k);
    let p = table::position(s, key) as int;
    let q = table::position(s, k) as int;
    let w = table::with(s, key, v);
    if k == key {
        assert forall|i: int| 0 <= i < p implies (#[trigger] w[i]).0 != k by {
            assert(w[i] == s[i]);
        }
        assert(w[p].0 == key);
        table::lemma_position_is(w, k, p as nat);
    } else if q < s.len() {
        assert forall|i: int| 0 <= i < q implies (#[trigger] w[i]).0 != k by {
            if i != p {
                assert(w[i] == s[i]);
            }
        }
        assert(w[q] == s[q]);
        table::lemma_position_is(w, k, q as nat);
    } else {
        assert forall|i: int| 0 <= i < w.len() implies (#[trigger] w[i]).0 != k by {
            if i < s.len() && i != p {
                assert(w[i] == s[i]);
            }
        }
        table::lemma_position_is(w, k, w.len());
    }
}

/// `s[i]` is the last entry for `key`, and gives it `v`.
pub open spec fn gives_last<V>(s: Seq<(Seq<char>, V)>, i: int, key: Seq<char>, v: V) -> bool {
    &&& 0 <= i < s.len()
    &&& s[i] == (key, v)
    &&& forall|j: int| i < j < s.len() ==> (#[trigger] s[j]).0 != key
}

/// In a table of entries a name has the value its last entry gives it, and
/// none exactly if it has no entry.
pub proof fn law_the_last_entry_counts<V>(s: Seq<(Seq<char>, V)>, key: Seq<char>)
    ensures
        table::lookup(tabled(s), key) is Some ==> exists|i: int| #[trigger]
            gives_last(s, i, key, table::lookup(tabled(s), key)->Some_0),
        table::lookup(tabled(s), key) is None ==> forall|i: int|
            0 <= i < s.len() ==> (#[trigger] s[i]).0 != key,
    decreases s.len(),
{
    if s.len() > 0 {
        let t = s.drop_last();
        let (k, v) = s.last();
        law_the_last_entry_counts(t, key);
        lemma_lookup_with(tabled(t), k, v, key);
        if k == key {
            assert(s[s.len() - 1] == (key, v));
            assert(gives_last(s, s.len() - 1, key, table::lookup(tabled(s), key)->Some_0));
        } else if table::lookup(tabled(t), key) is Some {
            let w = table::lookup(tabled(t), key)->Some_0;
            let i = choose|i: int| #[trigger] gives_last(t, i, key, w);
            assert(s[i] == t[i]);
            assert forall|j: int| i < j < s.len() implies (#[trigger] s[j]).0 != key by {
                if j < t.len() {
                    assert(t[j] == s[j]);
                }
            }
            assert(gives_last(s, i, key, table::lookup(tabled(s), key)->Some_0));
        } else {
            assert forall|i: int| 0 <= i < s.len() implies (#[trigger] s[i]).0 != key by {
                if i < t.len() {
                    assert(t[i] == s[i]);
                }
            }
        }
    }
}

// ---------------------------------------------------------------------------
// A whole read.
// ---------------------------------------------------------------------------

/// An entry that can be counted: its file describes a card, or is not there.
pub open spec fn countable(e: EntryView) -> bool {
    match e {
        EntryView::Failed(_) => false,
        EntryView::Found(_, FileView::Text(s)) => information(s) is Some,
        EntryView::Found(_, FileView::Missing) => true,
        EntryView::Found(_, FileView::Failed(_)) => false,
    }
}

/// The file of `e` describes the card `c`.
pub open spec fn holds_card(e: EntryView, c: Card) -> bool {
    e matches EntryView::Found(_, FileView::Text(s)) && information(s) == Some(c)
}

/// `e` has no file, and `m` says so.
pub open spec fn lacks_file(e: EntryView, m: Seq<char>) -> bool {
    e matches EntryView::Found(path, FileView::Missing) && m == path + ": no information file"@
}

proof fn lemma_scan_all(
    dir: Seq<char>,
    es: Seq<EntryView>,
    gpus: Seq<Card>,
    notes: Seq<Seq<char>>,
)
    ensures
        scan(dir, es, gpus, notes) is Ok <==> forall|i: int|
            0 <= i < es.len() ==> countable(#[trigger] es[i]),
        scan(dir, es, gpus, notes) matches Ok((g, n)) ==> {
            &&& forall|c: Card| #[trigger]
                g.contains(c) <==> gpus.contains(c) || exists|i: int|
                    0 <= i < es.len() && holds_card(#[trigger] es[i], c)
            &&& forall|m: Seq<char>| #[trigger]
                n.contains(m) <==> notes.contains(m) || exists|i: int|
                    0 <= i < es.len() && lacks_file(#[trigger] es[i], m)
        },
    decreases es.len(),
{
    if es.len() > 0 {
        let t = es.skip(1);
        let e = es[0];
        if let Ok((g1, n1)) = scan_entry(dir, e, gpus, notes) {
            lemma_scan_all(dir, t, g1, n1);
            assert(countable(e));
            if scan(dir, t, g1, n1) is Ok {
                assert forall|i: int| 0 <= i < es.len() implies countable(#[trigger] es[i]) by {
                    if i > 0 {
                        assert(t[i - 1] == es[i]);
                    }
                }
                let (g, n) = scan(dir, t, g1, n1)->Ok_0;
                assert forall|c: Card| #[trigger]
                    g.contains(c) <==> gpus.contains(c) || exists|i: int|
                        0 <= i < es.len() && holds_card(#[trigger] es[i], c) by {
                    lemma_scan_card(dir, es, gpus, notes, g1, n1, g, c);
                }
                assert forall|m: Seq<char>| #[trigger]
                    n.contains(m) <==> notes.contains(m) || exists|i: int|
                        0 <= i < es.len() && lacks_file(#[trigger] es[i], m) by {
                    lemma_scan_note(dir, es, gpus, notes, g1, n1, n, m);
                }
            } else {
                let i = choose|i: int| 0 <= i < t.len() && !countable(#[trigger] t[i]);
                assert(es[i + 1] == t[i]);
            }
        } else {
            assert(!countable(es[0]));
        }
    }
}

proof fn lemma_scan_card(
    dir: Seq<char>,
    es: Seq<EntryView>,
    gpus: Seq<Card>,
    notes: Seq<Seq<char>>,
    g1: Seq<Card>,
    n1: Seq<Seq<char>>,
    g: Seq<Card>,
    c: Card,
)
    requires
        es.len() > 0,
        scan_entry(dir, es[0], gpus, notes) == Ok::<_, Seq<char>>((g1, n1)),
        g.contains(c) <==> g1.contains(c) || exists|i: int|
            0 <= i < es.skip(1).len() && holds_card(#[trigger] es.skip(1)[i], c),
    ensures
        g.contains(c) <==> gpus.contains(c) || exists|i: int|
            0 <= i < es.len() && holds_card(#[trigger] es[i], c),
{
    let t = es.skip(1);
    let first = holds_card(es[0], c);
    assert(g1.contains(c) <==> gpus.contains(c) || first) by {
        if gpus.contains(c) {
            let k = choose|k: int| 0 <= k < gpus.len() && gpus[k] == c;
            assert(g1[k] == c);
        }
        if first {
            assert(g1.last() == c);
        }
        if g1.contains(c) && !first {
            let k = choose|k: int| 0 <= k < g1.len() && g1[k] == c;
            assert(k < gpus.len());
            assert(gpus[k] == c);
        }
    }
    if exists|i: int|
        0 <= i < t.len() && holds_card(#[trigger] t[i], c) {
        let i = choose|i: int|
            0 <= i < t.len() && holds_card(#[trigger] t[i], c);
        assert(es[i + 1] == t[i]);
    }
    if exists|i: int|
        0 <= i < es.len() && holds_card(#[trigger] es[i], c) {
        let i = choose|i: int|
            0 <= i < es.len() && holds_card(#[trigger] es[i], c);
        if i > 0 {
            assert(t[i - 1] == es[i]);
        }
    }
}

proof fn lemma_scan_note(
    dir: Seq<char>,
    es: Seq<EntryView>,
    gpus: Seq<Card>,
    notes: Seq<Seq<char>>,
    g1: Seq<Card>,
    n1: Seq<Seq<char>>,
    n: Seq<Seq<char>>,
    m: Seq<char>,
)
    requires
        es.len() > 0,
        scan_entry(dir, es[0], gpus, notes) == Ok::<_, Seq<char>>((g1, n1)),
        n.contains(m) <==> n1.contains(m) || exists|i: int|
            0 <= i < es.skip(1).len() && lacks_file(#[trigger] es.skip(1)[i], m),
    ensures
        n.contains(m) <==> notes.contains(m) || exists|i: int|
            0 <= i < es.len() && lacks_file(#[trigger] es[i], m),
{
    let t = es.skip(1);
    let first = lacks_file(es[0], m);
    assert(n1.contains(m) <==> notes.contains(m) || first) by {
        if notes.contains(m) {
            let k = choose|k: int| 0 <= k < notes.len() && notes[k] == m;
            assert(n1[k] == m);
        }
        if first {
            assert(n1.last() == m);
        }
        if n1.contains(m) && !first {
            let k = choose|k: int| 0 <= k < n1.len() && n1[k] == m;
            assert(k < notes.len());
            assert(notes[k] == m);
        }
    }
    if exists|i: int|
        0 <= i < t.len() && lacks_file(#[trigger] t[i], m) {
        let i = choose|i: int|
            0 <= i < t.len() && lacks_file(#[trigger] t[i], m);
        assert(es[i + 1] == t[i]);
    }
    if exists|i: int|
        0 <= i < es.len() && lacks_file(#[trigger] es[i], m) {
        let i = choose|i: int|
            0 <= i < es.len() && lacks_file(#[trigger] es[i], m);
        if i > 0 {
            assert(t[i - 1] == es[i]);
        }
    }
}

/// A read succeeds exactly if the devices can be read and the driver's
/// directory is not there or every entry of it can be counted. It then has the
/// cards the files describe and no others, the majors of the character devices
/// and no others, the major `nvidia-uvm` has, and a note for each entry without
/// a file.
pub proof fn law_what_a_read_finds(
    devices_path: Seq<char>,
    devices: Result<Seq<char>, Seq<char>>,
    dir: Seq<char>,
    listing: ListingView,
    c: Card,
    m: u32,
    note: Seq<char>,
)
    ensures
        assembled(devices_path, devices, dir, listing) is Ok <==> devices is Ok && match listing {
            ListingView::Missing => true,
            ListingView::Failed(_) => false,
            ListingView::Entries(es) => forall|i: int|
                0 <= i < es.len() ==> countable(#[trigger] es[i]),
        },
        assembled(devices_path, devices, dir, listing) matches Ok(f) ==> {
            let devs = char_devices(text::lines(devices->Ok_0));
            &&& f.driver <==> !(listing is Missing)
            &&& f.char_majors.contains(m) <==> exists|i: int|
                0 <= i < devs.len() && (#[trigger] devs[i]).1 == m
            &&& f.uvm_major == Some(m) <==> exists|i: int| #[trigger]
                gives_last(devs, i, "nvidia-uvm"@, m)
            &&& f.notes.contains(note) <==> (listing matches ListingView::Entries(es) && exists|
                i: int,
            |
                0 <= i < es.len() && lacks_file(#[trigger] es[i], note))
            &&& f.gpus.contains(c) <==> (listing matches ListingView::Entries(es) && exists|i: int|
                0 <= i < es.len() && holds_card(#[trigger] es[i], c))
        },
{
    if let Ok(s) = devices {
        let devs = char_devices(text::lines(s));
        law_the_last_entry_counts(devs, "nvidia-uvm"@);
        if exists|i: int| #[trigger] gives_last(devs, i, "nvidia-uvm"@, m) {
            let i = choose|i: int| #[trigger] gives_last(devs, i, "nvidia-uvm"@, m);
            assert(devs[i].0 == "nvidia-uvm"@);
            let v = table::lookup(tabled(devs), "nvidia-uvm"@)->Some_0;
            let j = choose|j: int| #[trigger] gives_last(devs, j, "nvidia-uvm"@, v);
            assert(devs[j].0 == "nvidia-uvm"@);
            assert(i == j);
        }
        if let ListingView::Entries(es) = listing {
            lemma_scan_all(dir, es, Seq::empty(), Seq::empty());
            if let Ok((g, n)) = scan(dir, es, Seq::empty(), Seq::empty()) {
                inventory::law_by_minor_is_a_stable_sort(g);
                g.to_multiset_ensures();
                by_minor(g).to_multiset_ensures();
                assert(g.to_multiset().count(c) == by_minor(g).to_multiset().count(c));
                assert(by_minor(g).contains(c) <==> g.contains(c));
            }
        }
    }
}

/// What follows a read: an error ends it; `nvidia-uvm` is loaded where the
/// driver is there without it and that was not tried yet; then the cards are
/// named, if there are any. Loading worked exactly if it exited with 0.
pub proof fn law_what_follows_a_read(
    asked: Option<Result<(), Seq<char>>>,
    f: Facts,
    e: Seq<char>,
    out: Result<Said, Seq<char>>,
)
    ensures
        after_scan(asked, Err(e)) == ReadingView::Done(Err(e)),
        after_scan(asked, Ok(f)) == ReadingView::LoadUvm <==> asked is None && f.driver
            && f.uvm_major is None,
        asked is Some || !f.driver || f.uvm_major is Some ==> (if f.gpus.len() > 0 {
            after_scan(asked, Ok(f)) == ReadingView::Name(f, asked)
        } else {
            after_scan(asked, Ok(f)) == ReadingView::Done(Ok(with_uvm_note(f, asked)))
        }),
        loading(out) is Ok <==> (out matches Ok(o) && o.status == 0),
        ({
            let g = with_uvm_note(f, asked);
            &&& g.driver == f.driver && g.gpus == f.gpus && g.uvm_major == f.uvm_major
                && g.char_majors == f.char_majors
            &&& g.notes != f.notes <==> asked is Some && f.uvm_major is None
            &&& g.notes.len() >= f.notes.len() && g.notes.take(f.notes.len() as int) == f.notes
        }),
{
    let g = with_uvm_note(f, asked);
    assert(g.notes.take(f.notes.len() as int) =~= f.notes);
    if asked is Some && f.uvm_major is None {
        assert(g.notes.len() != f.notes.len());
    }
}

/// What is noted of UVM that is still not loaded says whether loading it
/// failed, and why.
pub proof fn law_why_uvm_is_not_loaded(f: Facts, e: Seq<char>)
    requires
        f.uvm_major is None,
    ensures
        with_uvm_note(f, Some(Err(e))).notes.last() == "nvidia-uvm is not loaded and "@ + e,
        with_uvm_note(f, Some(Ok(()))).notes.last() == "nvidia-uvm is not loaded ("@
            + "/usr/bin/nvidia-modprobe"@
            + " -u -c 0 did not load it); containers get no /dev/nvidia-uvm and no CUDA"@,
{
}

/// Two characters are the same, or are a letter in its two cases.
pub open spec fn alike(a: char, b: char) -> bool {
    ||| a == b
    ||| 'A' <= a <= 'Z' && b as u32 == a as u32 + 32
    ||| 'A' <= b <= 'Z' && a as u32 == b as u32 + 32
}

/// A title is that of the character devices exactly if, white space aside, it
/// is spelled so, in whatever case, and ends as a title does.
pub proof fn law_which_title_is_the_character_devices(line: Seq<char>)
    ensures
        is_char_title(line) <==> titles(line) && text::trim(line).len() == 18 && forall|i: int|
            0 <= i < 18 ==> alike(#[trigger] text::trim(line)[i], "Character devices:"@[i]),
{
    reveal_strlit("Character devices:");
    law_what_a_title_is(line);
    let t = text::trim(line);
    let c = "Character devices:"@;
    assert(c.len() == 18);
    assert forall|a: char, b: char| alike(a, b) <==> #[trigger] inventory::lower(a)
        == #[trigger] inventory::lower(b) by {}
    if t.len() == 18 {
        if forall|i: int| 0 <= i < 18 ==> alike(#[trigger] t[i], c[i]) {
            assert forall|i: int| 0 <= i < t.len() implies inventory::lower(#[trigger] t[i])
                == inventory::lower(c[i]) by {
                assert(alike(t[i], c[i]));
            }
        }
        if inventory::same_but_case(t, c) {
            assert forall|i: int| 0 <= i < 18 implies alike(#[trigger] t[i], c[i]) by {
                assert(inventory::lower(t[i]) == inventory::lower(c[i]));
            }
        }
    }
}

// ---------------------------------------------------------------------------
// Names.
// ---------------------------------------------------------------------------

/// A line of `nvidia-smi`'s answer names a card exactly if it has four fields
/// at least and the first is a card's uuid; the last is its bus, the one
/// before it its memory, and what is between is its name.
pub proof fn law_how_a_card_is_named(line: Seq<char>)
    ensures
        smi_entry(line) is Some <==> text::fields(line, ',').len() >= 4 && text::trim(
            text::fields(line, ',')[0],
        ).len() >= 4 && text::trim(text::fields(line, ',')[0]).take(4) == "GPU-"@,
        smi_entry(line) matches Some((uuid, (name, mib))) ==> {
            let f = text::fields(line, ',');
            let size = text::words(text::trim(f[f.len() - 2]));
            &&& uuid == text::trim(f[0])
            &&& f.len() == 4 ==> name == text::trim(f[1])
            &&& f.len() == 5 ==> name == text::trim(f[1]) + ", "@ + text::trim(f[2])
            &&& mib == if size.len() > 0 {
                text::parse_u64(size[0])
            } else {
                None
            }
        },
{
    reveal_strlit("GPU-");
    let g = text::fields(line, ',');
    let f = smi_fields(line);
    assert(f.len() == g.len());
    if f.len() >= 4 {
        assert(f[0] == text::trim(g[0]));
        assert(f[f.len() - 2] == text::trim(g[f.len() - 2]));
        let mid = f.subrange(1, f.len() - 2);
        if f.len() == 4 {
            assert(mid.len() == 1);
            assert(mid[0] == text::trim(g[1]));
        }
        if f.len() == 5 {
            assert(mid.len() == 2);
            assert(mid[0] == text::trim(g[1]));
            assert(mid[1] == text::trim(g[2]));
            assert(mid.drop_last().len() == 1);
            assert(mid.drop_last()[0] == mid[0]);
            assert(text::join(mid.drop_last(), ", "@) == mid[0]);
            assert(mid.last() == mid[1]);
        }
    }
}

/// The entries of an answer are those of one half of it, then those of the
/// other.
pub proof fn law_every_line_may_name_a_card(
    a: Seq<Seq<char>>,
    b: Seq<Seq<char>>,
    l: Seq<char>,
)
    ensures
        smi_entries(a + b) == smi_entries(a) + smi_entries(b),
        smi_entries(Seq::empty()).len() == 0,
        smi_entry(l) is None ==> smi_entries(seq![l]).len() == 0,
        smi_entry(l) matches Some(e) ==> smi_entries(seq![l]) == seq![e],
    decreases b.len(),
{
    if b.len() == 0 {
        assert(a + b =~= a);
        assert(smi_entries(a) + smi_entries(b) =~= smi_entries(a));
    } else {
        law_every_line_may_name_a_card(a, b.drop_last(), l);
        assert((a + b).drop_last() =~= a + b.drop_last());
        assert((a + b).last() == b.last());
        assert(smi_entries(a + b) =~= smi_entries(a) + smi_entries(b));
    }
    let one = seq![l];
    assert(one.drop_last() =~= Seq::empty());
    assert(smi_entries(Seq::empty()) =~= Seq::empty());
    assert(one.last() == l);
    if let Some(e) = smi_entry(l) {
        assert(smi_entries(one) =~= seq![e]);
    }
}

/// A card is named what the last line for its uuid says, and stays as it is
/// where there is none; where `nvidia-smi` failed, every card stays as it is
/// and one note says so.
pub proof fn law_which_name_a_card_gets(f: Facts, out: Result<Said, Seq<char>>, i: int)
    requires
        0 <= i < f.gpus.len(),
    ensures
        match out {
            Ok(o) => if o.status == 0 {
                let es = smi_entries(text::lines(o.stdout));
                let c = with_names(f, out).gpus[i];
                &&& with_names(f, out).notes == f.notes
                &&& forall|k: int, name: Seq<char>, mib: Option<u64>| #[trigger]
                    gives_last(es, k, f.gpus[i].uuid, (name, mib)) ==> c.name == Some(name)
                        && c.memory_mib == mib
                &&& (forall|k: int| 0 <= k < es.len() ==> (#[trigger] es[k]).0 != f.gpus[i].uuid)
                    ==> c == f.gpus[i]
            } else {
                with_names(f, out).gpus == f.gpus && with_names(f, out).notes.len()
                    == f.notes.len() + 1
            },
            Err(_) => with_names(f, out).gpus == f.gpus && with_names(f, out).notes.len()
                == f.notes.len() + 1,
        },
{
    if let Ok(o) = out {
        if o.status == 0 {
            let es = smi_entries(text::lines(o.stdout));
            let u = f.gpus[i].uuid;
            law_the_last_entry_counts(es, u);
            assert(with_names(f, out).gpus[i] == named(f.gpus[i], tabled(es)));
            assert forall|k: int, name: Seq<char>, mib: Option<u64>| #[trigger]
                gives_last(es, k, u, (name, mib)) implies table::lookup(tabled(es), u) == Some(
                (name, mib),
            ) by {
                assert(es[k].0 == u);
                let v = table::lookup(tabled(es), u)->Some_0;
                let j = choose|j: int| #[trigger] gives_last(es, j, u, v);
                assert(es[j].0 == u);
                assert(k == j);
            }
            if forall|k: int| 0 <= k < es.len() ==> (#[trigger] es[k]).0 != u {
                if table::lookup(tabled(es), u) is Some {
                    let v = table::lookup(tabled(es), u)->Some_0;
                    let j = choose|j: int| #[trigger] gives_last(es, j, u, v);
                    assert(es[j].0 == u);
                }
            }
        }
    }
}

/// A card is described by its name, its memory and its bus location, each
/// where it is known; the memory is the least number of whole GB that holds
/// it.
pub proof fn law_how_a_card_is_described(c: Card, name: Seq<char>, mib: u64)
    ensures
        ({
            let bare = Card { name: None, memory_mib: None, ..c };
            let sized = Card { name: None, memory_mib: Some(mib), ..c };
            &&& description(bare) == "· "@ + c.bus
            &&& description(Card { name: Some(name), ..bare }) == name + " "@ + description(bare)
            &&& description(Card { name: Some(name), ..sized }) == name + " "@ + description(sized)
            &&& exists|gb: nat|
                description(sized) == #[trigger] text::decimal(gb) + " GB "@ + description(bare)
                    && gb * 1024 >= mib && (gb > 0 ==> (gb - 1) * 1024 < mib)
        }),
{
    let bare = Card { name: None, memory_mib: None, ..c };
    let sized = Card { name: None, memory_mib: Some(mib), ..c };
    let gb = ((mib + 1023) as nat / 1024) as nat;
    assert(description(bare) =~= "· "@ + c.bus);
    assert(description(sized) =~= text::decimal(gb) + " GB "@ + description(bare));
    assert(description(Card { name: Some(name), ..bare }) =~= name + " "@ + description(bare));
    assert(description(Card { name: Some(name), ..sized }) =~= name + " "@ + description(sized));
}

} // verus!
