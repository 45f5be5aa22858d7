//! What the pieces of a text are.

use vstd::prelude::*;

use crate::laws::conf::lemma_words_lead;
use crate::text::{
    self, blank, decimal, digits, ends_with, fields, first, is_space, join, occurs, parse_u32,
    parse_u64, prefixed, signed, spaceless, split_once, starts_with, strip_prefix, strip_suffix,
    trim, trim_end, trim_start, unsigned, value, words,
};

verus! {

// ---------------------------------------------------------------------------
// Numbers.
// ---------------------------------------------------------------------------

/// `s` is one decimal digit or more, and maybe a plus before them, and `d` is
/// the digits.
pub open spec fn spells(s: Seq<char>, d: Seq<char>) -> bool {
    &&& d.len() > 0
    &&& forall|i: int| 0 <= i < d.len() ==> '0' <= #[trigger] d[i] <= '9'
    &&& s == d || s == seq!['+'] + d
}

/// A text is a number exactly if it is digits, maybe after a plus, and what
/// they are worth fits.
pub proof fn law_how_a_number_is_read(s: Seq<char>, n: u32, m: u64)
    ensures
        parse_u32(s) == Some(n) <==> exists|d: Seq<char>| #[trigger] spells(s, d) && value(d) == n,
        parse_u64(s) == Some(m) <==> exists|d: Seq<char>| #[trigger] spells(s, d) && value(d) == m,
{
    let u = unsigned(s);
    if digits(u) {
        assert forall|i: int| 0 <= i < u.len() implies '0' <= #[trigger] u[i] <= '9' by {
            assert(text::is_digit(u[i]));
        }
        if s.len() > 0 && s[0] == '+' {
            assert(s =~= seq!['+'] + u);
        }
        assert(spells(s, u));
    }
    assert forall|d: Seq<char>| #[trigger] spells(s, d) implies u == d && digits(u) by {
        if s == d {
            assert('0' <= d[0] <= '9');
        } else {
            assert(s.skip(1) =~= d);
        }
    }
}

/// A digit more makes ten times as much and the digit.
pub proof fn law_what_digits_are_worth(d: Seq<char>, c: char, n: nat)
    requires
        '0' <= c <= '9',
    ensures
        value(Seq::empty()) == 0,
        value(d.push(c)) == 10 * value(d) + (c as int - '0' as int),
        value(decimal(n)) == n,
        digits(decimal(n)),
        decimal(n).len() > 1 ==> decimal(n)[0] != '0',
    decreases n,
{
    assert(d.push(c).drop_last() =~= d);
    text::lemma_decimal(n);
    if n >= 10 {
        law_what_digits_are_worth(d, c, n / 10);
        assert(decimal(n)[0] == decimal(n / 10)[0]);
        if decimal(n / 10).len() == 1 {
            let e = decimal(n / 10);
            text::lemma_decimal(n / 10);
            assert(e.drop_last() =~= Seq::empty());
            assert(value(e.drop_last()) == 0);
            assert(e.last() == e[0]);
        }
    }
}

/// A number below zero is spelled with a minus, and no two numbers alike.
pub proof fn law_how_a_signed_number_is_spelled(n: int, m: int)
    ensures
        n >= 0 ==> signed(n) == decimal(n as nat),
        n < 0 ==> signed(n) == "-"@ + decimal((-n) as nat),
        signed(n) == signed(m) ==> n == m,
{
    reveal_strlit("-");
    assert("-"@ =~= seq!['-']);
    let a: nat = if n < 0 {
        (-n) as nat
    } else {
        n as nat
    };
    let b: nat = if m < 0 {
        (-m) as nat
    } else {
        m as nat
    };
    text::lemma_decimal(a);
    text::lemma_decimal(b);
    assert(text::is_digit(decimal(a)[0]));
    assert(text::is_digit(decimal(b)[0]));
    if signed(n) == signed(m) {
        if n < 0 {
            assert(signed(n)[0] == '-');
            assert(signed(n).skip(1) =~= decimal(a));
        }
        if m < 0 {
            assert(signed(m)[0] == '-');
            assert(signed(m).skip(1) =~= decimal(b));
        }
    }
}

// ---------------------------------------------------------------------------
// White space.
// ---------------------------------------------------------------------------

/// Trimming takes the white space off both ends of a text and nothing else.
pub proof fn law_what_trimming_leaves(a: Seq<char>, s: Seq<char>, b: Seq<char>)
    requires
        blank(a),
        blank(b),
    ensures
        s.len() > 0 && !is_space(s[0]) && !is_space(s.last()) ==> trim(a + s + b) == s,
        s.len() > 0 && !is_space(s[0]) ==> trim_start(a + s) == s,
        s.len() > 0 && !is_space(s.last()) ==> trim_end(s + b) == s,
        trim(a).len() == 0,
        trim_start(a).len() == 0,
        trim_end(a).len() == 0,
{
    text::lemma_trim_start_is(a, a.len());
    text::lemma_trim_end_is(a, 0);
    assert(a.skip(a.len() as int) =~= Seq::empty());
    assert(trim_end(Seq::empty()) == Seq::<char>::empty());
    if s.len() > 0 {
        let t = a + s;
        let u = s + b;
        let v = a + s + b;
        if !is_space(s[0]) {
            assert forall|i: int| 0 <= i < a.len() implies is_space(#[trigger] t[i]) by {
                assert(t[i] == a[i]);
            }
            text::lemma_trim_start_is(t, a.len());
            assert(t.skip(a.len() as int) =~= s);
            assert forall|i: int| 0 <= i < a.len() implies is_space(#[trigger] v[i]) by {
                assert(v[i] == a[i]);
            }
            assert(v[a.len() as int] == s[0]);
            text::lemma_trim_start_is(v, a.len());
            assert(v.skip(a.len() as int) =~= u);
        }
        if !is_space(s.last()) {
            assert forall|i: int| s.len() <= i < u.len() implies is_space(#[trigger] u[i]) by {
                assert(u[i] == b[i - s.len()]);
            }
            assert(u[s.len() - 1] == s.last());
            text::lemma_trim_end_is(u, s.len());
            assert(u.take(s.len() as int) =~= s);
        }
    }
}

/// The words on either side of white space are words of their own; a text
/// without white space is one word, and white space is none.
pub proof fn law_what_words_are(a: Seq<char>, c: char, b: Seq<char>, w: Seq<char>)
    requires
        is_space(c),
    ensures
        words(a + seq![c] + b) == words(a) + words(b),
        w.len() > 0 && spaceless(w) ==> words(w) == seq![w],
        blank(w) ==> words(w).len() == 0,
    decreases a.len(),
{
    if w.len() > 0 && spaceless(w) {
        text::lemma_words_first(w, Seq::empty());
        assert(w + Seq::empty() =~= w);
        assert(words(Seq::empty()) =~= Seq::empty());
        assert(words(w) =~= seq![w]);
    }
    if blank(w) {
        text::lemma_trim_start_is(w, w.len());
        assert(w.skip(w.len() as int) =~= Seq::empty());
    }
    let t = trim_start(a);
    text::lemma_trim_start(a);
    let k = a.len() - t.len();
    let lead = a.take(k);
    let s = a + seq![c] + b;
    assert(a =~= lead + t);
    if t.len() == 0 {
        let p = a + seq![c];
        assert(blank(p)) by {
            assert forall|i: int| 0 <= i < p.len() implies is_space(#[trigger] p[i]) by {
                if i < a.len() {
                    assert(p[i] == lead[i]);
                }
            }
        }
        lemma_words_lead(p, b);
        assert(words(a).len() == 0);
        assert(words(a) + words(b) =~= words(b));
    } else {
        let n = text::first_space(t) as int;
        text::lemma_first_space(t);
        let x = t.take(n);
        let r = t.skip(n);
        assert(t =~= x + r);
        assert(words(a) == seq![x] + words(r));
        assert(spaceless(x)) by {
            assert forall|i: int| 0 <= i < x.len() implies !is_space(#[trigger] x[i]) by {
                assert(x[i] == t[i]);
            }
        }
        assert(n > 0);
        law_what_words_are(r, c, b, w);
        let rest = r + seq![c] + b;
        assert(s =~= lead + (x + rest));
        lemma_words_lead(lead, x + rest);
        if r.len() > 0 {
            assert(rest[0] == r[0]);
            assert(r[0] == t[n]);
        } else {
            assert(rest[0] == c);
        }
        text::lemma_words_first(x, rest);
        assert(seq![x] + (words(r) + words(b)) =~= seq![x] + words(r) + words(b));
    }
}

// ---------------------------------------------------------------------------
// Parts.
// ---------------------------------------------------------------------------

/// The fields on either side of a separator are fields of their own; a text
/// without one is one field. Joining puts the separator between the parts.
pub proof fn law_what_fields_are(
    a: Seq<char>,
    c: char,
    b: Seq<char>,
    parts: Seq<Seq<char>>,
    x: Seq<char>,
    sep: Seq<char>,
)
    ensures
        fields(a + seq![c] + b, c) == fields(a, c) + fields(b, c),
        !a.contains(c) ==> fields(a, c) == seq![a],
        join(seq![x], sep) == x,
        join(Seq::empty(), sep).len() == 0,
        parts.len() > 0 ==> join(parts.push(x), sep) == join(parts, sep) + sep + x,
{
    text::lemma_fields_add(a, b, c);
    assert(a.push(c) + b =~= a + seq![c] + b);
    if !a.contains(c) {
        assert forall|i: int| 0 <= i < a.len() implies a[i] != c by {
            assert(a.contains(a[i]));
        }
        text::lemma_first_is(a, c, a.len());
    }
    assert(parts.push(x).drop_last() =~= parts);
}

/// A text is cut at the first separator, or not at all where there is none.
pub proof fn law_where_a_text_is_cut(a: Seq<char>, c: char, b: Seq<char>)
    ensures
        !a.contains(c) ==> split_once(a + seq![c] + b, c) == Some((a, b)),
        split_once(a, c) is None <==> !a.contains(c),
{
    text::lemma_first(a, c);
    let s = a + seq![c] + b;
    if !a.contains(c) {
        assert forall|i: int| 0 <= i < a.len() implies s[i] != c by {
            assert(s[i] == a[i]);
            assert(a.contains(a[i]));
        }
        assert(s[a.len() as int] == c);
        text::lemma_first_is(s, c, a.len());
        assert(s.take(a.len() as int) =~= a);
        assert(s.skip(a.len() as int + 1) =~= b);
        assert(first(a, c) == a.len());
    } else {
        let i = choose|i: int| 0 <= i < a.len() && a[i] == c;
        assert(first(a, c) < a.len());
    }
}

/// A text begins or ends with another exactly if it is that one and something
/// more, which is what stripping leaves.
pub proof fn law_what_begins_and_ends_a_text(s: Seq<char>, p: Seq<char>, q: Seq<char>)
    ensures
        strip_prefix(p + q, p) == Some(q),
        strip_suffix(q + p, p) == Some(q),
        strip_prefix(s, p) matches Some(r) ==> s == p + r,
        strip_suffix(s, p) matches Some(r) ==> s == r + p,
        starts_with(s, p) <==> strip_prefix(s, p) is Some,
        ends_with(s, p) <==> strip_suffix(s, p) is Some,
{
    let n = p.len() as int;
    assert((p + q).take(n) =~= p);
    assert((p + q).skip(n) =~= q);
    assert((q + p).skip(q.len() as int) =~= p);
    assert((q + p).take(q.len() as int) =~= q);
    if starts_with(s, p) {
        assert(s =~= s.take(n) + s.skip(n));
    }
    if ends_with(s, p) {
        assert(s =~= s.take(s.len() - n) + s.skip(s.len() - n));
    }
}

/// `s` is `a`, then `p`, then `b`.
pub open spec fn stands_between(s: Seq<char>, a: Seq<char>, p: Seq<char>, b: Seq<char>) -> bool {
    s == a + p + b
}

/// A text holds another exactly if that one stands between two parts of it.
pub proof fn law_what_occurs_in_a_text(s: Seq<char>, p: Seq<char>)
    ensures
        occurs(p, s) <==> exists|a: Seq<char>, b: Seq<char>| #[trigger] stands_between(s, a, p, b),
{
    let n = p.len() as int;
    if occurs(p, s) {
        let i = choose|i: int| 0 <= i <= s.len() - n && #[trigger] s.subrange(i, i + n) == p;
        let a = s.take(i);
        let b = s.skip(i + n);
        assert(s =~= a + s.subrange(i, i + n) + b);
        assert(stands_between(s, a, p, b));
    }
    if exists|a: Seq<char>, b: Seq<char>| #[trigger] stands_between(s, a, p, b) {
        let (a, b) = choose|a: Seq<char>, b: Seq<char>| #[trigger] stands_between(s, a, p, b);
        let i = a.len() as int;
        assert(s.subrange(i, i + n) =~= p);
        assert(0 <= i <= s.len() - n);
    }
}

/// Every line is given its prefix, in their order.
pub proof fn law_every_line_is_prefixed(p: Seq<char>, ls: Seq<Seq<char>>, i: int)
    ensures
        prefixed(p, ls).len() == ls.len(),
        0 <= i < ls.len() ==> prefixed(p, ls)[i] == p + ls[i],
{
}

} // verus!
