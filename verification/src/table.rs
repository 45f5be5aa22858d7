//! A table of named values that keeps the order its names came in.

use vstd::prelude::*;

use crate::text;

verus! {

/// The position of `key` among the entries, or their number.
pub open spec fn position<V>(s: Seq<(Seq<char>, V)>, key: Seq<char>) -> nat
    decreases s.len(),
{
    if s.len() == 0 || s[0].0 == key {
        0
    } else {
        1 + position(s.skip(1), key)
    }
}

/// The value of `key`.
pub open spec fn lookup<V>(s: Seq<(Seq<char>, V)>, key: Seq<char>) -> Option<V> {
    let i = position(s, key);
    if i < s.len() {
        Some(s[i as int].1)
    } else {
        None
    }
}

/// The entries with `key` set to `value`: in its place if it is there, at the
/// end if it is not.
pub open spec fn with<V>(s: Seq<(Seq<char>, V)>, key: Seq<char>, value: V) -> Seq<
    (Seq<char>, V),
> {
    let i = position(s, key);
    if i < s.len() {
        s.update(i as int, (key, value))
    } else {
        s.push((key, value))
    }
}

/// Whether no key occurs twice.
pub open spec fn distinct<V>(s: Seq<(Seq<char>, V)>) -> bool {
    forall|i: int, j: int| 0 <= i < j < s.len() ==> #[trigger] s[i].0 != #[trigger] s[j].0
}

/// `position` is where the key is, if it is there.
pub proof fn lemma_position<V>(s: Seq<(Seq<char>, V)>, key: Seq<char>)
    ensures
        position(s, key) <= s.len(),
        forall|i: int| 0 <= i < position(s, key) ==> (#[trigger] s[i]).0 != key,
        position(s, key) < s.len() ==> s[position(s, key) as int].0 == key,
    decreases s.len(),
{
    if s.len() > 0 && s[0].0 != key {
        lemma_position(s.skip(1), key);
        assert forall|i: int| 0 <= i < position(s, key) implies (#[trigger] s[i]).0 != key by {
            if i > 0 {
                assert(s.skip(1)[i - 1] == s[i]);
            }
        }
    }
}

/// `position` is the only place with these properties.
pub proof fn lemma_position_is<V>(s: Seq<(Seq<char>, V)>, key: Seq<char>, n: nat)
    requires
        n <= s.len(),
        forall|i: int| 0 <= i < n ==> (#[trigger] s[i]).0 != key,
        n < s.len() ==> s[n as int].0 == key,
    ensures
        position(s, key) == n,
{
    lemma_position(s, key);
    let m = position(s, key) as int;
    if m < n {
        assert(s[m].0 == key);
    } else if n < m {
        assert(s[n as int].0 != key);
    }
}

/// Setting a key keeps every key unique.
pub proof fn lemma_with_distinct<V>(s: Seq<(Seq<char>, V)>, key: Seq<char>, value: V)
    requires
        distinct(s),
    ensures
        distinct(with(s, key, value)),
{
    lemma_position(s, key);
}

/// The entries with another value in place of each.
pub open spec fn map_values<V, W>(s: Seq<(Seq<char>, V)>, f: spec_fn(V) -> W) -> Seq<
    (Seq<char>, W),
> {
    s.map_values(|e: (Seq<char>, V)| (e.0, f(e.1)))
}

/// Setting a key goes the same way whatever the values are taken to be.
pub proof fn lemma_with_mapped<V, W>(
    s: Seq<(Seq<char>, V)>,
    f: spec_fn(V) -> W,
    key: Seq<char>,
    value: V,
)
    ensures
        map_values(with(s, key, value), f) == with(map_values(s, f), key, f(value)),
        position(map_values(s, f), key) == position(s, key),
{
    let t = map_values(s, f);
    lemma_position(s, key);
    assert forall|i: int| 0 <= i < position(s, key) implies (#[trigger] t[i]).0 != key by {
        assert(t[i].0 == s[i].0);
    }
    lemma_position_is(t, key, position(s, key));
    assert(map_values(with(s, key, value), f) =~= with(t, key, f(value)));
}

/// Named values, in the order their names came in.
#[derive(Debug, PartialEq, Eq)]
pub struct Table<V> {
    entries: Vec<(String, V)>,
}

impl<V> View for Table<V> {
    type V = Seq<(Seq<char>, V)>;

    closed spec fn view(&self) -> Seq<(Seq<char>, V)> {
        self.entries@.map_values(|e: (String, V)| (e.0@, e.1))
    }
}

impl<V> Table<V> {
    #[verifier::type_invariant]
    spec fn distinct_keys(&self) -> bool {
        distinct(self@)
    }

    /// A table without entries.
    pub fn new() -> (r: Table<V>)
        ensures
            r@ == Seq::<(Seq<char>, V)>::empty(),
    {
        let entries: Vec<(String, V)> = Vec::new();
        proof {
            assert(entries@.map_values(|e: (String, V)| (e.0@, e.1)) =~= Seq::empty());
        }
        Table { entries }
    }

    /// The number of entries. No two of them have the same key.
    pub fn len(&self) -> (r: usize)
        ensures
            r == self@.len(),
            distinct(self@),
    {
        proof {
            use_type_invariant(self);
        }
        self.entries.len()
    }

    /// The name of an entry.
    pub fn key(&self, i: usize) -> (r: &str)
        requires
            i < self@.len(),
        ensures
            r@ == self@[i as int].0,
    {
        self.entries[i].0.as_str()
    }

    /// The value of an entry.
    pub fn value(&self, i: usize) -> (r: &V)
        requires
            i < self@.len(),
        ensures
            *r == self@[i as int].1,
    {
        &self.entries[i].1
    }

    /// Where `key` is, or the number of entries.
    fn find(&self, key: &str) -> (r: usize)
        ensures
            r == position(self@, key@),
            r <= self@.len(),
    {
        let mut i: usize = 0;
        while i < self.entries.len() && !text::eq(self.entries[i].0.as_str(), key)
            invariant
                i <= self@.len(),
                self@.len() == self.entries@.len(),
                forall|j: int| 0 <= j < i ==> (#[trigger] self@[j]).0 != key@,
            decreases self.entries.len() - i,
        {
            proof {
                assert(self@[i as int].0 == self.entries@[i as int].0@);
            }
            i += 1;
        }
        proof {
            lemma_position_is(self@, key@, i as nat);
        }
        i
    }

    /// The value of `key`.
    pub fn get(&self, key: &str) -> (r: Option<&V>)
        ensures
            match r {
                Some(v) => lookup(self@, key@) == Some(*v),
                None => lookup(self@, key@) is None,
            },
    {
        let i: usize = self.find(key);
        if i < self.entries.len() {
            Some(&self.entries[i].1)
        } else {
            None
        }
    }

    /// Sets the value of `key`: in its place if it is there, at the end if it
    /// is not.
    pub fn insert(&mut self, key: &str, value: V)
        ensures
            final(self)@ == with(old(self)@, key@, value),
    {
        proof {
            use_type_invariant(&*self);
            lemma_with_distinct(self@, key@, value);
        }
        let i: usize = self.find(key);
        let ghost wanted = with(self@, key@, value);
        let mut entries: Vec<(String, V)> = Vec::new();
        std::mem::swap(&mut entries, &mut self.entries);
        if i < entries.len() {
            entries.set(i, (key.to_owned(), value));
        } else {
            entries.push((key.to_owned(), value));
        }
        proof {
            assert(entries@.map_values(|e: (String, V)| (e.0@, e.1)) =~= wanted);
        }
        *self = Table { entries };
    }
}

impl<V: Clone> Clone for Table<V> {
    fn clone(&self) -> (r: Table<V>)
        ensures
            r@.len() == self@.len(),
            forall|i: int|
                0 <= i < self@.len() ==> (#[trigger] r@[i]).0 == self@[i].0 && cloned(
                    self@[i].1,
                    r@[i].1,
                ),
    {
        let mut entries: Vec<(String, V)> = Vec::new();
        let mut i: usize = 0;
        while i < self.entries.len()
            invariant
                i <= self.entries@.len(),
                entries@.len() == i,
                forall|j: int|
                    0 <= j < i ==> (#[trigger] entries@[j]).0@ == self.entries@[j].0@ && cloned(
                        self.entries@[j].1,
                        entries@[j].1,
                    ),
            decreases self.entries.len() - i,
        {
            entries.push((self.entries[i].0.clone(), self.entries[i].1.clone()));
            i += 1;
        }
        proof {
            use_type_invariant(self);
            let s = entries@.map_values(|e: (String, V)| (e.0@, e.1));
            assert forall|i: int, j: int| 0 <= i < j < s.len() implies #[trigger] s[i].0
                != #[trigger] s[j].0 by {
                assert(self@[i].0 != self@[j].0);
            }
        }
        Table { entries }
    }
}

} // verus!
