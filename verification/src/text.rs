//! Text as a sequence of characters: the handful of string operations the
//! rest of the crate is written with, each beside its mathematical meaning.
//!
//! A specification speaks of `Seq<char>`, the view of a `str` or a `String`.
//! Executable code cuts a `&str` out of a `&str` and never copies more than
//! it has to return.

use vstd::prelude::*;

verus! {

/// The views of a list of string slices.
pub open spec fn views(s: Seq<&str>) -> Seq<Seq<char>> {
    s.map_values(|x: &str| x@)
}

/// Each view is the view of its slice.
pub proof fn lemma_views(s: Seq<&str>)
    ensures
        views(s).len() == s.len(),
        forall|i: int| 0 <= i < s.len() ==> views(s)[i] == (#[trigger] s[i])@,
{
}

/// The views of a list of strings.
pub open spec fn texts(s: Seq<String>) -> Seq<Seq<char>> {
    s.map_values(|x: String| x@)
}

/// Each view is the view of its string.
pub proof fn lemma_texts(s: Seq<String>)
    ensures
        texts(s).len() == s.len(),
        forall|i: int| 0 <= i < s.len() ==> texts(s)[i] == (#[trigger] s[i])@,
{
}

/// A text more makes a view more.
pub proof fn lemma_texts_push(s: Seq<String>, x: String)
    ensures
        texts(s.push(x)) == texts(s).push(x@),
{
    assert(texts(s.push(x)) =~= texts(s).push(x@));
}

/// The view of an optional string.
pub open spec fn opt_text(s: Option<String>) -> Option<Seq<char>> {
    match s {
        Some(s) => Some(s@),
        None => None,
    }
}

/// The view of an optional string slice.
pub open spec fn opt_view(s: Option<&str>) -> Option<Seq<char>> {
    match s {
        Some(s) => Some(s@),
        None => None,
    }
}

/// The view of a text that could be had, or of why it could not.
pub open spec fn result_text(r: Result<String, String>) -> Result<Seq<char>, Seq<char>> {
    match r {
        Ok(s) => Ok(s@),
        Err(e) => Err(e@),
    }
}

/// The view of something that was done, or of why it was not.
pub open spec fn outcome(r: Result<(), String>) -> Result<(), Seq<char>> {
    match r {
        Ok(()) => Ok(()),
        Err(e) => Err(e@),
    }
}

/// Unicode's `White_Space` property.
pub open spec fn is_space(c: char) -> bool {
    let n = c as u32;
    ||| 0x09 <= n <= 0x0d
    ||| n == 0x20
    ||| n == 0x85
    ||| n == 0xa0
    ||| n == 0x1680
    ||| 0x2000 <= n <= 0x200a
    ||| n == 0x2028
    ||| n == 0x2029
    ||| n == 0x202f
    ||| n == 0x205f
    ||| n == 0x3000
}

/// Whether a character is white space.
pub fn is_white(c: char) -> (r: bool)
    ensures
        r == is_space(c),
{
    let n: u32 = c as u32;
    (0x09 <= n && n <= 0x0d) || n == 0x20 || n == 0x85 || n == 0xa0 || n == 0x1680 || (0x2000 <= n
        && n <= 0x200a) || n == 0x2028 || n == 0x2029 || n == 0x202f || n == 0x205f || n == 0x3000
}

/// `0` to `9`.
pub open spec fn is_digit(c: char) -> bool {
    '0' <= c <= '9'
}

/// Whether every character of `s` is white space.
pub open spec fn blank(s: Seq<char>) -> bool {
    forall|i: int| 0 <= i < s.len() ==> is_space(#[trigger] s[i])
}

/// `s` without the white space it begins with.
pub open spec fn trim_start(s: Seq<char>) -> Seq<char>
    decreases s.len(),
{
    if s.len() > 0 && is_space(s[0]) {
        trim_start(s.skip(1))
    } else {
        s
    }
}

/// `s` without the white space it ends with.
pub open spec fn trim_end(s: Seq<char>) -> Seq<char>
    decreases s.len(),
{
    if s.len() > 0 && is_space(s.last()) {
        trim_end(s.drop_last())
    } else {
        s
    }
}

/// `s` without the white space at either end.
pub open spec fn trim(s: Seq<char>) -> Seq<char> {
    trim_end(trim_start(s))
}

/// The position of the first `c` in `s`, or the length of `s`.
pub open spec fn first(s: Seq<char>, c: char) -> nat
    decreases s.len(),
{
    if s.len() == 0 || s[0] == c {
        0
    } else {
        1 + first(s.skip(1), c)
    }
}

/// The position of the first white space in `s`, or the length of `s`.
pub open spec fn first_space(s: Seq<char>) -> nat
    decreases s.len(),
{
    if s.len() == 0 || is_space(s[0]) {
        0
    } else {
        1 + first_space(s.skip(1))
    }
}

/// `trim_start` drops blanks from the front and nothing else.
pub proof fn lemma_trim_start(s: Seq<char>)
    ensures
        trim_start(s).len() <= s.len(),
        trim_start(s) == s.skip(s.len() - trim_start(s).len()),
        blank(s.take(s.len() - trim_start(s).len())),
        trim_start(s).len() > 0 ==> !is_space(trim_start(s)[0]),
    decreases s.len(),
{
    if s.len() > 0 && is_space(s[0]) {
        let t = s.skip(1);
        lemma_trim_start(t);
        let k = s.len() - trim_start(s).len();
        assert(s.skip(k) =~= t.skip(k - 1));
        assert forall|i: int| 0 <= i < k implies is_space(#[trigger] s.take(k)[i]) by {
            if i > 0 {
                assert(t.take(k - 1)[i - 1] == s[i]);
            }
        }
    } else {
        assert(s.skip(0) =~= s);
    }
}

/// `trim_start` is the only suffix with these properties.
pub proof fn lemma_trim_start_is(s: Seq<char>, k: nat)
    requires
        k <= s.len(),
        forall|i: int| 0 <= i < k ==> is_space(#[trigger] s[i]),
        k < s.len() ==> !is_space(s[k as int]),
    ensures
        trim_start(s) == s.skip(k as int),
{
    lemma_trim_start(s);
    let m = s.len() - trim_start(s).len();
    if m < k {
        assert(trim_start(s)[0] == s[m]);
    } else if k < m {
        assert(s.take(m)[k as int] == s[k as int]);
    }
}

/// `trim_end` drops blanks from the end and nothing else.
pub proof fn lemma_trim_end(s: Seq<char>)
    ensures
        trim_end(s).len() <= s.len(),
        trim_end(s) == s.take(trim_end(s).len() as int),
        forall|i: int| trim_end(s).len() <= i < s.len() ==> is_space(#[trigger] s[i]),
        trim_end(s).len() > 0 ==> !is_space(trim_end(s).last()),
    decreases s.len(),
{
    if s.len() > 0 && is_space(s.last()) {
        let t = s.drop_last();
        lemma_trim_end(t);
        assert(s.take(trim_end(s).len() as int) =~= t.take(trim_end(s).len() as int));
        assert forall|i: int| trim_end(s).len() <= i < s.len() implies is_space(#[trigger] s[i]) by {
            if i < t.len() {
                assert(t[i] == s[i]);
            }
        }
    } else {
        assert(s.take(s.len() as int) =~= s);
    }
}

/// `trim_end` is the only prefix with these properties.
pub proof fn lemma_trim_end_is(s: Seq<char>, n: nat)
    requires
        n <= s.len(),
        forall|i: int| n <= i < s.len() ==> is_space(#[trigger] s[i]),
        n > 0 ==> !is_space(s[n - 1]),
    ensures
        trim_end(s) == s.take(n as int),
{
    lemma_trim_end(s);
    let m = trim_end(s).len();
    if m < n {
        assert(is_space(s[n - 1]));
    } else if n < m {
        assert(trim_end(s).last() == s[m - 1]);
    }
}

/// `first` is where the character is, if it is there.
pub proof fn lemma_first(s: Seq<char>, c: char)
    ensures
        first(s, c) <= s.len(),
        forall|i: int| 0 <= i < first(s, c) ==> s[i] != c,
        first(s, c) < s.len() ==> s[first(s, c) as int] == c,
    decreases s.len(),
{
    if s.len() > 0 && s[0] != c {
        lemma_first(s.skip(1), c);
        assert forall|i: int| 0 <= i < first(s, c) implies s[i] != c by {
            if i > 0 {
                assert(s.skip(1)[i - 1] == s[i]);
            }
        }
    }
}

/// `first` is the only position with these properties.
pub proof fn lemma_first_is(s: Seq<char>, c: char, n: nat)
    requires
        n <= s.len(),
        forall|i: int| 0 <= i < n ==> s[i] != c,
        n < s.len() ==> s[n as int] == c,
    ensures
        first(s, c) == n,
{
    lemma_first(s, c);
}

/// `first_space` is where the first white space is, if there is any.
pub proof fn lemma_first_space(s: Seq<char>)
    ensures
        first_space(s) <= s.len(),
        forall|i: int| 0 <= i < first_space(s) ==> !is_space(s[i]),
        first_space(s) < s.len() ==> is_space(s[first_space(s) as int]),
    decreases s.len(),
{
    if s.len() > 0 && !is_space(s[0]) {
        lemma_first_space(s.skip(1));
        assert forall|i: int| 0 <= i < first_space(s) implies !is_space(s[i]) by {
            if i > 0 {
                assert(s.skip(1)[i - 1] == s[i]);
            }
        }
    }
}

/// `first_space` is the only position with these properties.
pub proof fn lemma_first_space_is(s: Seq<char>, n: nat)
    requires
        n <= s.len(),
        forall|i: int| 0 <= i < n ==> !is_space(s[i]),
        n < s.len() ==> is_space(s[n as int]),
    ensures
        first_space(s) == n,
{
    lemma_first_space(s);
}

/// The lines of `s`: what stands between its newlines. A newline at the very
/// end ends the last line and begins none. A carriage return before a newline
/// is a character of its line.
pub open spec fn lines(s: Seq<char>) -> Seq<Seq<char>>
    decreases s.len(),
{
    if s.len() == 0 {
        Seq::empty()
    } else {
        let n = first(s, '\n');
        if n >= s.len() {
            seq![s]
        } else {
            seq![s.take(n as int)] + lines(s.skip(n as int + 1))
        }
    }
}

/// `ls` as text, each line ended by a newline.
pub open spec fn unlines(ls: Seq<Seq<char>>) -> Seq<char>
    decreases ls.len(),
{
    if ls.len() == 0 {
        Seq::empty()
    } else {
        ls[0].push('\n') + unlines(ls.skip(1))
    }
}

/// The words of `s`: what stands between its runs of white space.
pub open spec fn words(s: Seq<char>) -> Seq<Seq<char>>
    decreases s.len(),
{
    let t = trim_start(s);
    if t.len() == 0 {
        Seq::empty()
    } else {
        let n = first_space(t);
        proof {
            lemma_trim_start(s);
            lemma_first_space(t);
        }
        seq![t.take(n as int)] + words(t.skip(n as int))
    }
}

/// The fields of `s`: what stands between its separators `c`.
pub open spec fn fields(s: Seq<char>, c: char) -> Seq<Seq<char>>
    decreases s.len(),
{
    let n = first(s, c);
    if n >= s.len() {
        seq![s]
    } else {
        seq![s.take(n as int)] + fields(s.skip(n as int + 1), c)
    }
}

/// What stands before and after the first `c` of `s`, if there is one.
pub open spec fn split_once(s: Seq<char>, c: char) -> Option<(Seq<char>, Seq<char>)> {
    let n = first(s, c);
    if n < s.len() {
        Some((s.take(n as int), s.skip(n as int + 1)))
    } else {
        None
    }
}

/// The parts with `sep` between each two of them.
pub open spec fn join(parts: Seq<Seq<char>>, sep: Seq<char>) -> Seq<char>
    decreases parts.len(),
{
    if parts.len() == 0 {
        Seq::empty()
    } else if parts.len() == 1 {
        parts[0]
    } else {
        join(parts.drop_last(), sep) + sep + parts.last()
    }
}

/// Whether `s` begins with `p`.
pub open spec fn starts_with(s: Seq<char>, p: Seq<char>) -> bool {
    p.len() <= s.len() && s.take(p.len() as int) == p
}

/// Whether `s` ends with `p`.
pub open spec fn ends_with(s: Seq<char>, p: Seq<char>) -> bool {
    p.len() <= s.len() && s.skip(s.len() - p.len()) == p
}

/// Whether `p` stands somewhere in `s`.
pub open spec fn occurs(p: Seq<char>, s: Seq<char>) -> bool {
    exists|i: int| 0 <= i <= s.len() - p.len() && #[trigger] s.subrange(i, i + p.len()) == p
}

/// What follows the prefix `p` of `s`.
pub open spec fn strip_prefix(s: Seq<char>, p: Seq<char>) -> Option<Seq<char>> {
    if starts_with(s, p) {
        Some(s.skip(p.len() as int))
    } else {
        None
    }
}

/// What precedes the suffix `p` of `s`.
pub open spec fn strip_suffix(s: Seq<char>, p: Seq<char>) -> Option<Seq<char>> {
    if ends_with(s, p) {
        Some(s.take(s.len() - p.len()))
    } else {
        None
    }
}

/// The value of a run of decimal digits.
pub open spec fn value(s: Seq<char>) -> nat
    decreases s.len(),
{
    if s.len() == 0 {
        0
    } else {
        value(s.drop_last()) * 10 + ((s.last() as int - '0' as int) as nat)
    }
}

/// Whether `s` is one digit or more, and nothing else.
pub open spec fn digits(s: Seq<char>) -> bool {
    s.len() > 0 && forall|i: int| 0 <= i < s.len() ==> is_digit(#[trigger] s[i])
}

/// The digits of a number: one leading `+` is allowed.
pub open spec fn unsigned(s: Seq<char>) -> Seq<char> {
    if s.len() > 0 && s[0] == '+' {
        s.skip(1)
    } else {
        s
    }
}

/// The unsigned number `s` spells, if it spells one that is at most `max`.
pub open spec fn parse_nat(s: Seq<char>, max: nat) -> Option<nat> {
    let d = unsigned(s);
    if digits(d) && value(d) <= max {
        Some(value(d))
    } else {
        None
    }
}

/// The 32-bit number `s` spells.
pub open spec fn parse_u32(s: Seq<char>) -> Option<u32> {
    match parse_nat(s, u32::MAX as nat) {
        Some(n) => Some(n as u32),
        None => None,
    }
}

/// The 64-bit number `s` spells.
pub open spec fn parse_u64(s: Seq<char>) -> Option<u64> {
    match parse_nat(s, u64::MAX as nat) {
        Some(n) => Some(n as u64),
        None => None,
    }
}

/// One decimal digit.
pub open spec fn digit(n: nat) -> char {
    (('0' as int + n) as u8) as char
}

/// The decimal spelling of a number.
pub open spec fn decimal(n: nat) -> Seq<char>
    decreases n,
{
    if n < 10 {
        seq![digit(n)]
    } else {
        decimal(n / 10).push(digit(n % 10))
    }
}

/// The decimal spelling of a signed number.
pub open spec fn signed(n: int) -> Seq<char> {
    if n < 0 {
        seq!['-'] + decimal((-n) as nat)
    } else {
        decimal(n as nat)
    }
}

/// Whether `s` is one line: it holds no newline.
pub open spec fn one_line(s: Seq<char>) -> bool {
    !s.contains('\n')
}

/// Whether every text of `ls` is one line.
pub open spec fn all_one_line(ls: Seq<Seq<char>>) -> bool {
    forall|i: int| 0 <= i < ls.len() ==> one_line(#[trigger] ls[i])
}

/// No line of a text holds a newline.
pub proof fn lemma_lines_are_lines(s: Seq<char>)
    ensures
        all_one_line(lines(s)),
    decreases s.len(),
{
    if s.len() > 0 {
        lemma_first(s, '\n');
        let n = first(s, '\n') as int;
        if n < s.len() {
            let t = s.skip(n + 1);
            lemma_lines_are_lines(t);
            assert forall|i: int| 0 <= i < lines(s).len() implies one_line(
                #[trigger] lines(s)[i],
            ) by {
                if i == 0 {
                    assert(lines(s)[0] =~= s.take(n));
                } else {
                    assert(lines(s)[i] == lines(t)[i - 1]);
                }
            }
        }
    }
}

/// Ending two lists of lines one after the other is ending their
/// concatenation.
pub proof fn lemma_unlines_add(a: Seq<Seq<char>>, b: Seq<Seq<char>>)
    ensures
        unlines(a + b) == unlines(a) + unlines(b),
    decreases a.len(),
{
    if a.len() == 0 {
        assert(a + b =~= b);
        assert(unlines(a) + unlines(b) =~= unlines(b));
    } else {
        lemma_unlines_add(a.skip(1), b);
        assert((a + b).skip(1) =~= a.skip(1) + b);
        assert(a[0].push('\n') + (unlines(a.skip(1)) + unlines(b)) =~= a[0].push('\n') + unlines(
            a.skip(1),
        ) + unlines(b));
    }
}

/// A line more is a line and a newline more.
pub proof fn lemma_unlines_push(ls: Seq<Seq<char>>, l: Seq<char>)
    ensures
        unlines(ls.push(l)) == unlines(ls) + l.push('\n'),
{
    assert(ls.push(l) =~= ls + seq![l]);
    lemma_unlines_add(ls, seq![l]);
    assert(seq![l].skip(1) =~= Seq::<Seq<char>>::empty());
    assert(unlines(Seq::empty()) == Seq::<char>::empty());
    assert(unlines(seq![l]) =~= l.push('\n'));
}

/// The lines of a text made of lines are those lines.
pub proof fn lemma_lines_of_unlines(ls: Seq<Seq<char>>)
    requires
        all_one_line(ls),
    ensures
        lines(unlines(ls)) == ls,
    decreases ls.len(),
{
    if ls.len() == 0 {
        assert(ls =~= lines(unlines(ls)));
    } else {
        let s = unlines(ls);
        let t = unlines(ls.skip(1));
        let n = ls[0].len();
        assert(one_line(ls[0]));
        assert forall|i: int| 0 <= i < n implies s[i] != '\n' by {
            assert(s[i] == ls[0][i]);
        }
        lemma_first_is(s, '\n', n);
        assert(s.take(n as int) =~= ls[0]);
        assert(s.skip(n as int + 1) =~= t);
        assert forall|i: int| 0 <= i < ls.skip(1).len() implies one_line(
            #[trigger] ls.skip(1)[i],
        ) by {
            assert(one_line(ls[i + 1]));
        }
        lemma_lines_of_unlines(ls.skip(1));
        assert(seq![ls[0]] + ls.skip(1) =~= ls);
    }
}

/// Trimming the end reaches no further than the last character that is no
/// white space.
pub proof fn lemma_trim_end_after(p: Seq<char>, x: Seq<char>)
    requires
        p.len() > 0,
        !is_space(p.last()),
    ensures
        trim_end(p + x) == p + trim_end(x),
{
    lemma_trim_end(x);
    let s = p + x;
    let n = trim_end(x).len();
    assert forall|i: int| p.len() + n <= i < s.len() implies is_space(#[trigger] s[i]) by {
        assert(s[i] == x[i - p.len()]);
    }
    if n > 0 {
        assert(s[p.len() + n - 1] == trim_end(x).last());
    } else {
        assert(s[p.len() - 1] == p.last());
    }
    lemma_trim_end_is(s, p.len() + n);
    assert(s.take((p.len() + n) as int) =~= p + trim_end(x));
}

/// The fields of two texts with a separator between them are the fields of
/// the one and the fields of the other.
pub proof fn lemma_fields_add(a: Seq<char>, b: Seq<char>, c: char)
    ensures
        fields(a.push(c) + b, c) == fields(a, c) + fields(b, c),
    decreases a.len(),
{
    let s = a.push(c) + b;
    let n = first(a, c);
    lemma_first(a, c);
    assert forall|i: int| 0 <= i < n implies s[i] != c by {
        assert(s[i] == a[i]);
    }
    assert(s[n as int] == c) by {
        if n < a.len() {
            assert(s[n as int] == a[n as int]);
        }
    }
    lemma_first_is(s, c, n);
    assert(s.take(n as int) =~= a.take(n as int));
    if n < a.len() {
        let t = a.skip(n as int + 1);
        lemma_fields_add(t, b, c);
        assert(s.skip(n as int + 1) =~= t.push(c) + b);
        assert(seq![a.take(n as int)] + (fields(t, c) + fields(b, c)) =~= seq![a.take(n as int)]
            + fields(t, c) + fields(b, c));
    } else {
        assert(s.skip(n as int + 1) =~= b);
        assert(a.take(n as int) =~= a);
    }
}

/// Joining texts that hold no separator, and cutting the result apart again,
/// gives the texts.
pub proof fn lemma_fields_of_join(parts: Seq<Seq<char>>, c: char)
    requires
        parts.len() > 0,
        forall|i: int| 0 <= i < parts.len() ==> !(#[trigger] parts[i]).contains(c),
    ensures
        fields(join(parts, seq![c]), c) == parts,
    decreases parts.len(),
{
    let last = parts.last();
    assert(!parts[parts.len() - 1].contains(c));
    assert forall|i: int| 0 <= i < last.len() implies last[i] != c by {
        assert(last.contains(last[i]));
    }
    lemma_first_is(last, c, last.len());
    assert(fields(last, c) =~= seq![last]);
    if parts.len() == 1 {
        assert(parts =~= seq![last]);
    } else {
        let init = parts.drop_last();
        assert forall|i: int| 0 <= i < init.len() implies !(#[trigger] init[i]).contains(c) by {
            assert(init[i] == parts[i]);
        }
        lemma_fields_of_join(init, c);
        let a = join(init, seq![c]);
        assert(a + seq![c] + last =~= a.push(c) + last);
        lemma_fields_add(a, last, c);
        assert(init + seq![last] =~= parts);
    }
}

/// Whether `s` is a text that can stand at the end of a line as it is.
pub open spec fn tidy(s: Seq<char>) -> bool {
    s.len() > 0 && one_line(s) && !is_space(s.last())
}

/// What is left of one line after trimming is nothing, or tidy.
pub proof fn lemma_trim_tidy(s: Seq<char>)
    requires
        one_line(s),
    ensures
        one_line(trim(s)),
        trim(s).len() > 0 ==> tidy(trim(s)),
{
    let t = trim_start(s);
    lemma_trim_start(s);
    lemma_trim_end(t);
    let r = trim_end(t);
    assert forall|i: int| 0 <= i < r.len() implies r[i] != '\n' by {
        assert(r[i] == t[i]);
        assert(t[i] == s[s.len() - t.len() + i]);
    }
}

/// Whether no character of `s` is white space.
pub open spec fn spaceless(s: Seq<char>) -> bool {
    forall|i: int| 0 <= i < s.len() ==> !is_space(#[trigger] s[i])
}

/// The first word of a text that begins with one.
pub proof fn lemma_words_first(w: Seq<char>, rest: Seq<char>)
    requires
        w.len() > 0,
        spaceless(w),
        rest.len() > 0 ==> is_space(rest[0]),
    ensures
        words(w + rest) == seq![w] + words(rest),
{
    let s = w + rest;
    assert(s[0] == w[0]);
    assert(trim_start(s) == s);
    assert forall|i: int| 0 <= i < w.len() implies !is_space(s[i]) by {
        assert(s[i] == w[i]);
    }
    lemma_first_space_is(s, w.len());
    assert(s.take(w.len() as int) =~= w);
    assert(s.skip(w.len() as int) =~= rest);
}

/// A space at the front changes no words.
pub proof fn lemma_words_space(c: char, rest: Seq<char>)
    requires
        is_space(c),
    ensures
        words(seq![c] + rest) == words(rest),
{
    assert((seq![c] + rest).skip(1) =~= rest);
    assert(trim_start(seq![c] + rest) == trim_start(rest));
}

/// A prefix of a run of digits is worth no more than the run.
pub proof fn lemma_value_prefix(s: Seq<char>, k: int)
    requires
        0 <= k <= s.len(),
    ensures
        value(s.take(k)) <= value(s),
    decreases s.len() - k,
{
    if k == s.len() {
        assert(s.take(k) =~= s);
    } else {
        lemma_value_prefix(s, k + 1);
        assert(s.take(k + 1).drop_last() =~= s.take(k));
    }
}

/// The decimal spelling of a number consists of digits, and its value is the
/// number.
pub proof fn lemma_decimal(n: nat)
    ensures
        digits(decimal(n)),
        value(decimal(n)) == n,
    decreases n,
{
    if n < 10 {
        assert(decimal(n).drop_last() =~= Seq::<char>::empty());
        assert(value(Seq::<char>::empty()) == 0);
    } else {
        lemma_decimal(n / 10);
        assert(decimal(n).drop_last() =~= decimal(n / 10));
        let d = decimal(n);
        let e = decimal(n / 10);
        assert forall|i: int| 0 <= i < d.len() implies is_digit(#[trigger] d[i]) by {
            if i < e.len() {
                assert(d[i] == e[i]);
            }
        }
    }
}

/// Reading the decimal spelling of a number gives the number.
pub proof fn lemma_decimal_parses(n: nat, max: nat)
    requires
        n <= max,
    ensures
        parse_nat(decimal(n), max) == Some(n),
{
    lemma_decimal(n);
    assert(is_digit(decimal(n)[0]));
}

// ---------------------------------------------------------------------------
// Executable counterparts.
// ---------------------------------------------------------------------------

/// The characters of a string.
pub fn chars(s: &str) -> (r: Vec<char>)
    ensures
        r@ == s@,
{
    let mut out: Vec<char> = Vec::new();
    for c in it: s.chars()
        invariant
            out@ == it.seq().take(it.index()),
            it.seq() == s@,
    {
        out.push(c);
        proof {
            assert(it.seq().take(it.index() + 1) =~= it.seq().take(it.index()).push(c));
        }
    }
    proof {
        assert(s@.take(s@.len() as int) =~= s@);
    }
    out
}

/// Whether two strings have the same characters.
pub fn eq(a: &str, b: &str) -> (r: bool)
    ensures
        r == (a@ == b@),
{
    let x = chars(a);
    let y = chars(b);
    if x.len() != y.len() {
        return false;
    }
    let mut i: usize = 0;
    while i < x.len()
        invariant
            i <= x.len(),
            x.len() == y.len(),
            x@ == a@,
            y@ == b@,
            forall|j: int| 0 <= j < i ==> x@[j] == y@[j],
        decreases x.len() - i,
    {
        if x[i] != y[i] {
            return false;
        }
        i += 1;
    }
    proof {
        assert(a@ =~= b@);
    }
    true
}

/// The slice of `s` from its character `from` on.
pub fn skip(s: &str, from: usize) -> (r: &str)
    requires
        from <= s@.len(),
    ensures
        r@ == s@.skip(from as int),
{
    let n: usize = s.unicode_len();
    s.substring_char(from, n)
}

/// The first `to` characters of `s`.
pub fn take(s: &str, to: usize) -> (r: &str)
    requires
        to <= s@.len(),
    ensures
        r@ == s@.take(to as int),
{
    s.substring_char(0, to)
}

/// `s` without the white space it begins with.
pub fn trimmed_start(s: &str) -> (r: &str)
    ensures
        r@ == trim_start(s@),
{
    let cs = chars(s);
    let mut k: usize = 0;
    while k < cs.len() && is_white(cs[k])
        invariant
            k <= cs.len(),
            cs@ == s@,
            forall|i: int| 0 <= i < k ==> is_space(#[trigger] s@[i]),
        decreases cs.len() - k,
    {
        k += 1;
    }
    proof {
        lemma_trim_start_is(s@, k as nat);
    }
    s.substring_char(k, cs.len())
}

/// `s` without the white space it ends with.
pub fn trimmed_end(s: &str) -> (r: &str)
    ensures
        r@ == trim_end(s@),
{
    let cs = chars(s);
    let mut n: usize = cs.len();
    while n > 0 && is_white(cs[n - 1])
        invariant
            n <= cs.len(),
            cs@ == s@,
            forall|i: int| n <= i < s@.len() ==> is_space(#[trigger] s@[i]),
        decreases n,
    {
        n -= 1;
    }
    proof {
        lemma_trim_end_is(s@, n as nat);
    }
    s.substring_char(0, n)
}

/// `s` without the white space at either end.
pub fn trimmed(s: &str) -> (r: &str)
    ensures
        r@ == trim(s@),
{
    trimmed_end(trimmed_start(s))
}

/// Whether `s` is white space throughout.
pub fn is_blank(s: &str) -> (r: bool)
    ensures
        r == blank(s@),
{
    let cs = chars(s);
    let mut i: usize = 0;
    while i < cs.len()
        invariant
            i <= cs.len(),
            cs@ == s@,
            forall|j: int| 0 <= j < i ==> is_space(#[trigger] s@[j]),
        decreases cs.len() - i,
    {
        if !is_white(cs[i]) {
            return false;
        }
        i += 1;
    }
    true
}

/// The position of the first `c` in `s`, or the length of `s`.
pub fn find(s: &str, c: char) -> (r: usize)
    ensures
        r == first(s@, c),
        r <= s@.len(),
{
    let cs = chars(s);
    let mut n: usize = 0;
    while n < cs.len() && cs[n] != c
        invariant
            n <= cs.len(),
            cs@ == s@,
            forall|i: int| 0 <= i < n ==> s@[i] != c,
        decreases cs.len() - n,
    {
        n += 1;
    }
    proof {
        lemma_first_is(s@, c, n as nat);
    }
    n
}

/// The position of the first white space in `s`, or the length of `s`.
pub fn find_space(s: &str) -> (r: usize)
    ensures
        r == first_space(s@),
        r <= s@.len(),
{
    let cs = chars(s);
    let mut n: usize = 0;
    while n < cs.len() && !is_white(cs[n])
        invariant
            n <= cs.len(),
            cs@ == s@,
            forall|i: int| 0 <= i < n ==> !is_space(s@[i]),
        decreases cs.len() - n,
    {
        n += 1;
    }
    proof {
        lemma_first_space_is(s@, n as nat);
    }
    n
}

/// What stands before and after the first `c` of `s`, if there is one.
pub fn split_at_first<'a>(s: &'a str, c: char) -> (r: Option<(&'a str, &'a str)>)
    ensures
        match r {
            Some((a, b)) => split_once(s@, c) == Some((a@, b@)),
            None => split_once(s@, c) is None,
        },
{
    let n: usize = find(s, c);
    let len: usize = s.unicode_len();
    if n < len {
        Some((take(s, n), skip(s, n + 1)))
    } else {
        None
    }
}

/// The lines of a text, each without its newline.
pub fn lines_of<'a>(s: &'a str) -> (r: Vec<&'a str>)
    ensures
        views(r@) == lines(s@),
{
    let mut out: Vec<&'a str> = Vec::new();
    let mut left: &'a str = s;
    proof {
        assert(views(out@) + lines(left@) =~= lines(s@));
    }
    loop
        invariant_except_break
            views(out@) + lines(left@) == lines(s@),
        ensures
            views(out@) == lines(s@),
        decreases left@.len(),
    {
        let len: usize = left.unicode_len();
        if len == 0 {
            proof {
                assert(views(out@) + Seq::<Seq<char>>::empty() =~= views(out@));
            }
            break;
        }
        let n: usize = find(left, '\n');
        let ghost before = out@;
        if n >= len {
            out.push(left);
            proof {
                assert(views(out@) =~= views(before) + seq![left@]);
            }
            break;
        }
        let line = take(left, n);
        out.push(line);
        let rest = skip(left, n + 1);
        proof {
            assert(views(out@) =~= views(before) + seq![line@]);
            assert(views(out@) + lines(rest@) =~= views(before) + (seq![line@] + lines(rest@)));
        }
        left = rest;
    }
    out
}

/// The words of a text.
pub fn words_of<'a>(s: &'a str) -> (r: Vec<&'a str>)
    ensures
        views(r@) == words(s@),
{
    let mut out: Vec<&'a str> = Vec::new();
    let mut left: &'a str = s;
    proof {
        assert(views(out@) + words(left@) =~= words(s@));
    }
    loop
        invariant_except_break
            views(out@) + words(left@) == words(s@),
        ensures
            views(out@) == words(s@),
        decreases left@.len(),
    {
        let ghost before = out@;
        let t = trimmed_start(left);
        proof {
            lemma_trim_start(left@);
            lemma_first_space(t@);
        }
        let len: usize = t.unicode_len();
        if len == 0 {
            proof {
                assert(views(out@) + Seq::<Seq<char>>::empty() =~= views(out@));
            }
            break;
        }
        let n: usize = find_space(t);
        let word = take(t, n);
        out.push(word);
        let rest = skip(t, n);
        proof {
            assert(views(out@) =~= views(before) + seq![word@]);
            assert(views(out@) + words(rest@) =~= views(before) + (seq![word@] + words(rest@)));
        }
        left = rest;
    }
    out
}

/// The fields of a text between its separators.
pub fn fields_of<'a>(s: &'a str, c: char) -> (r: Vec<&'a str>)
    ensures
        views(r@) == fields(s@, c),
{
    let mut out: Vec<&'a str> = Vec::new();
    let mut left: &'a str = s;
    proof {
        assert(views(out@) + fields(left@, c) =~= fields(s@, c));
    }
    loop
        invariant_except_break
            views(out@) + fields(left@, c) == fields(s@, c),
        ensures
            views(out@) == fields(s@, c),
        decreases left@.len(),
    {
        let len: usize = left.unicode_len();
        let n: usize = find(left, c);
        let ghost before = out@;
        if n >= len {
            out.push(left);
            proof {
                assert(views(out@) =~= views(before) + seq![left@]);
            }
            break;
        }
        let field = take(left, n);
        out.push(field);
        let rest = skip(left, n + 1);
        proof {
            assert(views(out@) =~= views(before) + seq![field@]);
            assert(views(out@) + fields(rest@, c) =~= views(before) + (seq![field@] + fields(
                rest@,
                c,
            )));
        }
        left = rest;
    }
    out
}

/// The parts with `sep` between each two of them.
pub fn joined(parts: &[&str], sep: &str) -> (r: String)
    ensures
        r@ == join(views(parts@), sep@),
{
    let mut out = String::new();
    let ghost vs = views(parts@);
    let mut i: usize = 0;
    while i < parts.len()
        invariant
            i <= parts.len(),
            vs == views(parts@),
            out@ == join(vs.take(i as int), sep@),
        decreases parts.len() - i,
    {
        proof {
            assert(vs.take(i + 1).drop_last() =~= vs.take(i as int));
            assert(vs.take(i + 1).last() == parts@[i as int]@);
            assert(out@ + parts@[i as int]@ =~= if i == 0 {
                parts@[i as int]@
            } else {
                out@ + parts@[i as int]@
            });
        }
        if i > 0 {
            out.append(sep);
        }
        out.append(parts[i]);
        i += 1;
    }
    proof {
        assert(vs.take(vs.len() as int) =~= vs);
    }
    out
}

/// The slices of a list of strings.
pub fn slices<'a>(parts: &'a Vec<String>) -> (r: Vec<&'a str>)
    ensures
        views(r@) == texts(parts@),
{
    let mut out: Vec<&'a str> = Vec::new();
    let mut i: usize = 0;
    while i < parts.len()
        invariant
            i <= parts.len(),
            out@.len() == i,
            forall|j: int| 0 <= j < i ==> (#[trigger] out@[j])@ == parts@[j]@,
        decreases parts.len() - i,
    {
        out.push(parts[i].as_str());
        i += 1;
    }
    proof {
        assert(views(out@) =~= texts(parts@));
    }
    out
}

/// Whether `s` begins with `p`.
pub fn begins(s: &str, p: &str) -> (r: bool)
    ensures
        r == starts_with(s@, p@),
{
    let n: usize = p.unicode_len();
    n <= s.unicode_len() && eq(take(s, n), p)
}

/// What follows the prefix `p` of `s`.
pub fn after_prefix<'a>(s: &'a str, p: &str) -> (r: Option<&'a str>)
    ensures
        opt_view(r) == strip_prefix(s@, p@),
{
    if begins(s, p) {
        Some(skip(s, p.unicode_len()))
    } else {
        None
    }
}

/// Whether `s` ends with `p`.
pub fn ends(s: &str, p: &str) -> (r: bool)
    ensures
        r == ends_with(s@, p@),
{
    let n: usize = p.unicode_len();
    let len: usize = s.unicode_len();
    n <= len && eq(skip(s, len - n), p)
}

/// What precedes the suffix `p` of `s`.
pub fn before_suffix<'a>(s: &'a str, p: &str) -> (r: Option<&'a str>)
    ensures
        opt_view(r) == strip_suffix(s@, p@),
{
    if ends(s, p) {
        Some(take(s, s.unicode_len() - p.unicode_len()))
    } else {
        None
    }
}

/// Whether `p` stands somewhere in `s`.
pub fn contains(s: &str, p: &str) -> (r: bool)
    ensures
        r == occurs(p@, s@),
{
    let n: usize = p.unicode_len();
    let len: usize = s.unicode_len();
    if n > len {
        return false;
    }
    let mut i: usize = 0;
    while i <= len - n
        invariant
            n == p@.len(),
            len == s@.len(),
            n <= len,
            i <= len - n + 1,
            forall|j: int| 0 <= j < i ==> #[trigger] s@.subrange(j, j + n) != p@,
        decreases len - n + 1 - i,
    {
        if eq(s.substring_char(i, i + n), p) {
            return true;
        }
        if i == len - n {
            return false;
        }
        i += 1;
    }
    false
}

/// Whether `s` is one digit or more, and nothing else.
pub fn all_digits(s: &str) -> (r: bool)
    ensures
        r == digits(s@),
{
    let cs = chars(s);
    let mut i: usize = 0;
    while i < cs.len()
        invariant
            i <= cs.len(),
            cs@ == s@,
            forall|j: int| 0 <= j < i ==> is_digit(#[trigger] s@[j]),
        decreases cs.len() - i,
    {
        if !('0' <= cs[i] && cs[i] <= '9') {
            return false;
        }
        i += 1;
    }
    cs.len() > 0
}

/// The unsigned number `s` spells, if it spells one that is at most `max`.
fn number(s: &str, max: u64) -> (r: Option<u64>)
    ensures
        match r {
            Some(n) => parse_nat(s@, max as nat) == Some(n as nat),
            None => parse_nat(s@, max as nat) is None,
        },
{
    let cs = chars(s);
    let mut i: usize = if cs.len() > 0 && cs[0] == '+' {
        1
    } else {
        0
    };
    let ghost from: int = i as int;
    let ghost d = unsigned(s@);
    proof {
        assert(d =~= s@.skip(from));
    }
    if i == cs.len() {
        return None;
    }
    let mut acc: u64 = 0;
    proof {
        assert(d.take(0) =~= Seq::<char>::empty());
    }
    while i < cs.len()
        invariant
            0 <= from <= i <= cs.len(),
            cs@ == s@,
            d == unsigned(s@),
            d == s@.skip(from),
            acc <= max,
            acc == value(d.take(i - from)),
            forall|j: int| 0 <= j < i - from ==> is_digit(#[trigger] d[j]),
        decreases cs.len() - i,
    {
        let c = cs[i];
        proof {
            assert(d[i - from] == c);
            assert(d.take(i - from + 1).drop_last() =~= d.take(i - from));
            lemma_value_prefix(d, i - from + 1);
        }
        if !('0' <= c && c <= '9') {
            return None;
        }
        let n: u64 = (c as u32 - '0' as u32) as u64;
        if acc > max / 10 || n > max - acc * 10 {
            return None;
        }
        acc = acc * 10 + n;
        i += 1;
    }
    proof {
        assert(d.take(d.len() as int) =~= d);
    }
    Some(acc)
}

/// The 32-bit number `s` spells.
pub fn u32_of(s: &str) -> (r: Option<u32>)
    ensures
        r == parse_u32(s@),
{
    match number(s, u32::MAX as u64) {
        Some(n) => Some(n as u32),
        None => None,
    }
}

/// The 64-bit number `s` spells.
pub fn u64_of(s: &str) -> (r: Option<u64>)
    ensures
        r == parse_u64(s@),
{
    number(s, u64::MAX)
}

/// One decimal digit, as text.
fn digit_of(n: u64) -> (r: &'static str)
    requires
        n < 10,
    ensures
        r@ == seq![digit(n as nat)],
{
    proof {
        reveal_strlit("0");
        reveal_strlit("1");
        reveal_strlit("2");
        reveal_strlit("3");
        reveal_strlit("4");
        reveal_strlit("5");
        reveal_strlit("6");
        reveal_strlit("7");
        reveal_strlit("8");
        reveal_strlit("9");
        assert("0"@ =~= seq![digit(0)]);
        assert("1"@ =~= seq![digit(1)]);
        assert("2"@ =~= seq![digit(2)]);
        assert("3"@ =~= seq![digit(3)]);
        assert("4"@ =~= seq![digit(4)]);
        assert("5"@ =~= seq![digit(5)]);
        assert("6"@ =~= seq![digit(6)]);
        assert("7"@ =~= seq![digit(7)]);
        assert("8"@ =~= seq![digit(8)]);
        assert("9"@ =~= seq![digit(9)]);
    }
    match n {
        0 => "0",
        1 => "1",
        2 => "2",
        3 => "3",
        4 => "4",
        5 => "5",
        6 => "6",
        7 => "7",
        8 => "8",
        _ => "9",
    }
}

/// The decimal spelling of a number.
pub fn decimal_of(n: u64) -> (r: String)
    ensures
        r@ == decimal(n as nat),
    decreases n,
{
    if n < 10 {
        digit_of(n).to_owned()
    } else {
        let mut out = decimal_of(n / 10);
        out.append(digit_of(n % 10));
        proof {
            assert(out@ =~= decimal(n as nat));
        }
        out
    }
}

/// The decimal spelling of a signed number.
pub fn signed_of(n: i32) -> (r: String)
    ensures
        r@ == signed(n as int),
{
    if n < 0 {
        proof {
            reveal_strlit("-");
            assert("-"@ =~= seq!['-']);
        }
        "-".to_owned().concat(decimal_of((-(n as i64)) as u64).as_str())
    } else {
        decimal_of(n as u64)
    }
}

/// Each text with `prefix` before it.
pub open spec fn prefixed(prefix: Seq<char>, s: Seq<Seq<char>>) -> Seq<Seq<char>> {
    s.map_values(|x: Seq<char>| prefix + x)
}

/// Adds each text, with `prefix` before it, to `out`.
pub fn push_prefixed(out: &mut Vec<String>, prefix: &str, lines: &Vec<String>)
    ensures
        texts(final(out)@) == texts(old(out)@) + prefixed(prefix@, texts(lines@)),
{
    let ghost start = texts(out@);
    let ghost all = texts(lines@);
    let mut i: usize = 0;
    proof {
        assert(texts(out@) =~= start + prefixed(prefix@, all.take(0)));
    }
    while i < lines.len()
        invariant
            i <= lines@.len(),
            all == texts(lines@),
            texts(out@) == start + prefixed(prefix@, all.take(i as int)),
        decreases lines.len() - i,
    {
        let line = prefix.to_owned().concat(lines[i].as_str());
        let ghost before = texts(out@);
        proof {
            lemma_texts(lines@);
            lemma_texts_push(out@, line);
            assert(before.push(line@) =~= start + prefixed(prefix@, all.take(i + 1)));
        }
        out.push(line);
        i += 1;
    }
    proof {
        assert(all.take(all.len() as int) =~= all);
    }
}

/// `s` with spaces after it, as many as it takes to be `n` characters long.
pub open spec fn padded(s: Seq<char>, n: nat) -> Seq<char> {
    if s.len() >= n {
        s
    } else {
        s + Seq::new((n - s.len()) as nat, |i: int| ' ')
    }
}

/// `s` with spaces after it, as many as it takes to be `n` characters long.
pub fn padded_of(s: &str, n: usize) -> (r: String)
    ensures
        r@ == padded(s@, n as nat),
{
    let mut out = s.to_owned();
    let len: usize = s.unicode_len();
    let mut i: usize = len;
    proof {
        reveal_strlit(" ");
        assert(s@ + Seq::new(0, |i: int| ' ') =~= s@);
    }
    while i < n
        invariant
            len == s@.len(),
            len <= i,
            i <= n || i == len,
            " "@ == seq![' '],
            out@ == s@ + Seq::new((i - len) as nat, |i: int| ' '),
        decreases n - i,
    {
        let ghost before = out@;
        out.append(" ");
        i += 1;
        proof {
            assert(out@ =~= s@ + Seq::new((i - len) as nat, |i: int| ' '));
        }
    }
    proof {
        assert(out@ =~= padded(s@, n as nat));
    }
    out
}

/// Whether two lists hold the same texts.
pub fn same_texts(a: &Vec<String>, b: &Vec<String>) -> (r: bool)
    ensures
        r == (texts(a@) == texts(b@)),
{
    proof {
        lemma_texts(a@);
        lemma_texts(b@);
    }
    if a.len() != b.len() {
        return false;
    }
    let mut i: usize = 0;
    while i < a.len()
        invariant
            i <= a@.len() == b@.len(),
            forall|j: int| 0 <= j < i ==> (#[trigger] a@[j])@ == b@[j]@,
        decreases a.len() - i,
    {
        if !eq(a[i].as_str(), b[i].as_str()) {
            proof {
                assert(texts(a@)[i as int] != texts(b@)[i as int]);
            }
            return false;
        }
        i += 1;
    }
    proof {
        assert(texts(a@) =~= texts(b@));
    }
    true
}

/// Whether two optional strings are the same.
pub fn same_option(a: &Option<String>, b: &Option<String>) -> (r: bool)
    ensures
        r == (opt_text(*a) == opt_text(*b)),
{
    match (a, b) {
        (Some(a), Some(b)) => eq(a.as_str(), b.as_str()),
        (None, None) => true,
        _ => false,
    }
}

/// A copy of a list of strings.
pub fn copied(v: &Vec<String>) -> (r: Vec<String>)
    ensures
        texts(r@) == texts(v@),
{
    let mut out: Vec<String> = Vec::new();
    let mut i: usize = 0;
    while i < v.len()
        invariant
            i <= v@.len(),
            out@.len() == i,
            forall|j: int| 0 <= j < i ==> (#[trigger] out@[j])@ == v@[j]@,
        decreases v.len() - i,
    {
        out.push(v[i].clone());
        i += 1;
    }
    proof {
        assert(texts(out@) =~= texts(v@));
    }
    out
}

} // verus!
