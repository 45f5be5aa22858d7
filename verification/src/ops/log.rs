//! What a long-running loop says: a state that holds is said once, when it
//! begins.

use vstd::prelude::*;

use crate::node::is_among;
use crate::text;

verus! {

/// A state that holds: of which guest (0 for the node), of what kind, and the
/// line it was last said with.
#[derive(Debug)]
struct Entry {
    vmid: u32,
    key: String,
    line: String,
}

/// Lines said once per state: by guest (0 for the node) and key, the line
/// last said; and the lines to be printed, in their order.
#[derive(Debug)]
pub struct Log {
    seen: Vec<Entry>,
    lines: Vec<String>,
}

/// What a [`Log`] says: the states that hold, by guest and key, each with the
/// line it was last said with; and the lines to be printed.
pub struct LogView {
    pub seen: Map<(u32, Seq<char>), Seq<char>>,
    pub lines: Seq<Seq<char>>,
}

/// The state an entry is about.
spec fn state_of(e: Entry) -> (u32, Seq<char>) {
    (e.vmid, e.key@)
}

/// Whether no state is there twice.
spec fn unique(s: Seq<Entry>) -> bool {
    forall|i: int, j: int|
        0 <= i < j < s.len() ==> state_of(#[trigger] s[i]) != state_of(#[trigger] s[j])
}

/// Where a state is.
spec fn holds(s: Seq<Entry>, k: (u32, Seq<char>)) -> bool {
    exists|i: int| 0 <= i < s.len() && state_of(#[trigger] s[i]) == k
}

/// The states of a list of entries.
spec fn states(s: Seq<Entry>) -> Map<(u32, Seq<char>), Seq<char>> {
    Map::new(
        |k: (u32, Seq<char>)| holds(s, k),
        |k: (u32, Seq<char>)|
            s[choose|i: int| 0 <= i < s.len() && state_of(#[trigger] s[i]) == k].line@,
    )
}

proof fn lemma_states(s: Seq<Entry>)
    requires
        unique(s),
    ensures
        forall|i: int|
            0 <= i < s.len() ==> states(s).contains_key(state_of(#[trigger] s[i])) && states(
                s,
            )[state_of(s[i])] == s[i].line@,
{
    assert forall|i: int| 0 <= i < s.len() implies states(s).contains_key(
        state_of(#[trigger] s[i]),
    ) && states(s)[state_of(s[i])] == s[i].line@ by {
        let k = state_of(s[i]);
        assert(holds(s, k));
        let j = choose|j: int| 0 <= j < s.len() && state_of(#[trigger] s[j]) == k;
        if i < j {
            assert(state_of(s[i]) != state_of(s[j]));
        } else if j < i {
            assert(state_of(s[j]) != state_of(s[i]));
        }
    }
}

impl View for Log {
    type V = LogView;

    closed spec fn view(&self) -> LogView {
        LogView { seen: states(self.seen@), lines: text::texts(self.lines@) }
    }
}

/// The log after `line` was said of a state; `None` ends the state. It is
/// printed unless it is what the state was last said with.
pub open spec fn once(l: LogView, vmid: u32, key: Seq<char>, line: Option<Seq<char>>) -> LogView {
    let k = (vmid, key);
    match line {
        Some(s) => if l.seen.contains_key(k) && l.seen[k] == s {
            l
        } else {
            LogView { seen: l.seen.insert(k, s), lines: l.lines.push(s) }
        },
        None => LogView { seen: l.seen.remove(k), ..l },
    }
}

/// Whether saying `line` of a state changes anything.
pub open spec fn is_news(l: LogView, vmid: u32, key: Seq<char>, line: Option<Seq<char>>) -> bool {
    let k = (vmid, key);
    match line {
        Some(s) => !(l.seen.contains_key(k) && l.seen[k] == s),
        None => l.seen.contains_key(k),
    }
}

/// The log after a line was said that is about no state.
pub open spec fn say(l: LogView, line: Seq<char>) -> LogView {
    LogView { lines: l.lines.push(line), ..l }
}

/// The log without the states of guests that are no longer this node's.
pub open spec fn settled(l: LogView, local: Seq<u32>) -> LogView {
    LogView {
        seen: Map::new(
            |k: (u32, Seq<char>)| l.seen.contains_key(k) && (k.0 == 0 || local.contains(k.0)),
            |k: (u32, Seq<char>)| l.seen[k],
        ),
        ..l
    }
}

impl Default for Log {
    fn default() -> (r: Log)
        ensures
            r@.seen == Map::<(u32, Seq<char>), Seq<char>>::empty(),
            r@.lines == Seq::<Seq<char>>::empty(),
    {
        let r = Log { seen: Vec::new(), lines: Vec::new() };
        proof {
            assert(r@.seen =~= Map::empty());
            assert(r@.lines =~= Seq::empty());
        }
        r
    }
}

impl Log {
    #[verifier::type_invariant]
    spec fn inv(&self) -> bool {
        unique(self.seen@)
    }

    /// Where a state is, or the number of states.
    fn find(&self, vmid: u32, key: &str) -> (r: usize)
        ensures
            r <= self.seen@.len(),
            r < self.seen@.len() ==> state_of(self.seen@[r as int]) == (vmid, key@),
            r == self.seen@.len() ==> !holds(self.seen@, (vmid, key@)),
    {
        let mut i: usize = 0;
        while i < self.seen.len()
            invariant
                i <= self.seen@.len(),
                forall|j: int| 0 <= j < i ==> state_of(#[trigger] self.seen@[j]) != (vmid, key@),
            decreases self.seen.len() - i,
        {
            if self.seen[i].vmid == vmid && text::eq(self.seen[i].key.as_str(), key) {
                return i;
            }
            i += 1;
        }
        i
    }

    /// Says `line` unless it is what `key` last said; `None` ends the state.
    /// `true` when something changed.
    pub fn once(&mut self, vmid: u32, key: &str, line: Option<String>) -> (r: bool)
        ensures
            final(self)@ == once(old(self)@, vmid, key@, text::opt_text(line)),
            r == is_news(old(self)@, vmid, key@, text::opt_text(line)),
    {
        let ghost start = self@;
        let ghost k = (vmid, key@);
        let ghost entries = self.seen@;
        proof {
            use_type_invariant(&*self);
            lemma_states(entries);
        }
        let i: usize = self.find(vmid, key);
        proof {
            if i < entries.len() {
                assert(states(entries).contains_key(state_of(entries[i as int])));
            }
        }
        match line {
            Some(l) => {
                if i < self.seen.len() && text::eq(self.seen[i].line.as_str(), l.as_str()) {
                    return false;
                }
                let mut seen: Vec<Entry> = Vec::new();
                let mut lines: Vec<String> = Vec::new();
                std::mem::swap(&mut seen, &mut self.seen);
                std::mem::swap(&mut lines, &mut self.lines);
                let printed = l.clone();
                proof {
                    text::lemma_texts_push(lines@, printed);
                }
                let e = Entry { vmid, key: key.to_owned(), line: l };
                if i < seen.len() {
                    seen.set(i, e);
                } else {
                    seen.push(e);
                }
                lines.push(printed);
                proof {
                    let now = seen@;
                    assert(unique(now)) by {
                        assert forall|a: int, b: int| 0 <= a < b < now.len() implies state_of(
                            #[trigger] now[a],
                        ) != state_of(#[trigger] now[b]) by {
                            if b < entries.len() {
                                assert(state_of(entries[a]) != state_of(entries[b]));
                            } else {
                                assert(state_of(entries[a]) != k);
                            }
                        }
                    }
                    lemma_states(now);
                    assert forall|x: (u32, Seq<char>)| holds(now, x) <==> holds(entries, x) || x
                        == k by {
                        if holds(entries, x) && x != k {
                            let a = choose|a: int|
                                0 <= a < entries.len() && state_of(#[trigger] entries[a]) == x;
                            assert(now[a] == entries[a]);
                            assert(state_of(now[a]) == x);
                        }
                        assert(state_of(now[i as int]) == k);
                        if holds(now, x) && x != k {
                            let a = choose|a: int|
                                0 <= a < now.len() && state_of(#[trigger] now[a]) == x;
                            assert(now[a] == entries[a]);
                            assert(state_of(entries[a]) == x);
                        }
                    }
                    assert forall|x: (u32, Seq<char>)| holds(entries, x) && x != k implies states(
                        now,
                    )[x] == states(entries)[x] by {
                        let a = choose|a: int|
                            0 <= a < entries.len() && state_of(#[trigger] entries[a]) == x;
                        assert(now[a] == entries[a]);
                        assert(states(now)[state_of(now[a])] == now[a].line@);
                        assert(states(entries)[state_of(entries[a])] == entries[a].line@);
                    }
                    assert(states(now)[state_of(now[i as int])] == e.line@);
                    assert(states(now) =~= states(entries).insert(k, e.line@));
                }
                *self = Log { seen, lines };
                true
            },
            None => {
                if i < self.seen.len() {
                    let mut seen: Vec<Entry> = Vec::new();
                    let mut lines: Vec<String> = Vec::new();
                    std::mem::swap(&mut seen, &mut self.seen);
                    std::mem::swap(&mut lines, &mut self.lines);
                    seen.remove(i);
                    proof {
                        let now = seen@;
                        assert(now == entries.remove(i as int));
                        lemma_removed(entries, i as int);
                    }
                    *self = Log { seen, lines };
                    true
                } else {
                    proof {
                        assert(states(entries).remove(k) =~= states(entries));
                    }
                    false
                }
            },
        }
    }

    /// Says a line that is about no state.
    pub fn say(&mut self, line: String)
        ensures
            final(self)@ == say(old(self)@, line@),
    {
        proof {
            use_type_invariant(&*self);
            text::lemma_texts_push(self.lines@, line);
        }
        let mut lines: Vec<String> = Vec::new();
        std::mem::swap(&mut lines, &mut self.lines);
        lines.push(line);
        self.lines = lines;
    }

    /// Forgets every state of a guest that is no longer this node's.
    pub fn settle(&mut self, local: &[u32])
        ensures
            final(self)@ == settled(old(self)@, local@),
    {
        let ghost start = self@;
        let ghost entries = self.seen@;
        proof {
            use_type_invariant(&*self);
        }
        let mut seen: Vec<Entry> = Vec::new();
        let mut lines: Vec<String> = Vec::new();
        std::mem::swap(&mut seen, &mut self.seen);
        std::mem::swap(&mut lines, &mut self.lines);
        let mut n: usize = seen.len();
        while n > 0
            invariant
                n <= seen@.len(),
                unique(seen@),
                forall|x: (u32, Seq<char>)| #[trigger]
                    states(seen@).contains_key(x) ==> states(entries).contains_key(x) && states(
                        seen@,
                    )[x] == states(entries)[x],
                forall|x: (u32, Seq<char>)| #[trigger]
                    states(entries).contains_key(x) && (x.0 == 0 || local@.contains(x.0))
                        ==> states(seen@).contains_key(x),
                forall|j: int|
                    n <= j < seen@.len() ==> (#[trigger] seen@[j]).vmid == 0 || local@.contains(
                        seen@[j].vmid,
                    ),
            decreases n,
        {
            n -= 1;
            if seen[n].vmid != 0 && !is_among(local, seen[n].vmid) {
                let ghost before = seen@;
                seen.remove(n);
                proof {
                    assert(seen@ == before.remove(n as int));
                    lemma_removed(before, n as int);
                }
            }
        }
        proof {
            lemma_states(seen@);
            assert(states(seen@) =~= settled(start, local@).seen) by {
                assert forall|x: (u32, Seq<char>)| #[trigger]
                    states(seen@).contains_key(x) implies x.0 == 0 || local@.contains(x.0) by {
                    let a = choose|a: int|
                        0 <= a < seen@.len() && state_of(#[trigger] seen@[a]) == x;
                    assert(seen@[a].vmid == x.0);
                }
            }
        }
        *self = Log { seen, lines };
    }

    /// Takes the lines that are to be printed.
    pub fn take_lines(&mut self) -> (r: Vec<String>)
        ensures
            text::texts(r@) == old(self)@.lines,
            final(self)@ == (LogView { lines: Seq::empty(), ..old(self)@ }),
    {
        proof {
            use_type_invariant(&*self);
        }
        let mut lines: Vec<String> = Vec::new();
        std::mem::swap(&mut lines, &mut self.lines);
        proof {
            assert(self@.lines =~= Seq::empty());
        }
        lines
    }
}

proof fn lemma_removed(s: Seq<Entry>, i: int)
    requires
        unique(s),
        0 <= i < s.len(),
    ensures
        unique(s.remove(i)),
        states(s.remove(i)) == states(s).remove(state_of(s[i])),
{
    let now = s.remove(i);
    let k = state_of(s[i]);
    assert forall|a: int, b: int| 0 <= a < b < now.len() implies state_of(#[trigger] now[a])
        != state_of(#[trigger] now[b]) by {
        let x: int = if a < i {
            a
        } else {
            a + 1
        };
        let y: int = if b < i {
            b
        } else {
            b + 1
        };
        assert(state_of(s[x]) != state_of(s[y]));
    }
    lemma_states(s);
    lemma_states(now);
    assert forall|x: (u32, Seq<char>)| holds(now, x) <==> holds(s, x) && x != k by {
        if holds(now, x) {
            let a = choose|a: int| 0 <= a < now.len() && state_of(#[trigger] now[a]) == x;
            let b: int = if a < i {
                a
            } else {
                a + 1
            };
            assert(now[a] == s[b]);
            assert(state_of(s[b]) == x);
            if b < i {
                assert(state_of(s[b]) != state_of(s[i]));
            } else {
                assert(state_of(s[i]) != state_of(s[b]));
            }
        }
        if holds(s, x) && x != k {
            let b = choose|b: int| 0 <= b < s.len() && state_of(#[trigger] s[b]) == x;
            let a: int = if b < i {
                b
            } else {
                b - 1
            };
            assert(now[a] == s[b]);
            assert(state_of(now[a]) == x);
        }
    }
    assert forall|x: (u32, Seq<char>)| holds(now, x) implies states(now)[x] == states(s)[x] by {
        let a = choose|a: int| 0 <= a < now.len() && state_of(#[trigger] now[a]) == x;
        let b: int = if a < i {
            a
        } else {
            a + 1
        };
        assert(now[a] == s[b]);
        assert(states(now)[state_of(now[a])] == now[a].line@);
        assert(states(s)[state_of(s[b])] == s[b].line@);
    }
    assert(states(now) =~= states(s).remove(k));
}

/// A state is said once: said again as it is, it prints nothing and changes
/// nothing; and once it has ended, it is news again.
pub proof fn law_a_state_is_said_once(l: LogView, vmid: u32, key: Seq<char>, line: Seq<char>)
    ensures
        ({
            let said = once(l, vmid, key, Some(line));
            &&& !is_news(said, vmid, key, Some(line))
            &&& once(said, vmid, key, Some(line)) == said
            &&& is_news(once(said, vmid, key, None), vmid, key, Some(line))
        }),
{
}

/// One key per condition: what is said of one state leaves every other as it
/// is.
pub proof fn law_states_are_apart(
    l: LogView,
    vmid: u32,
    key: Seq<char>,
    line: Option<Seq<char>>,
    other: (u32, Seq<char>),
)
    requires
        other != (vmid, key),
    ensures
        ({
            let said = once(l, vmid, key, line);
            &&& said.seen.contains_key(other) == l.seen.contains_key(other)
            &&& l.seen.contains_key(other) ==> said.seen[other] == l.seen[other]
        }),
{
}

} // verus!
