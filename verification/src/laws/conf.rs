//! What a container config says, from the text of its lines.

use vstd::prelude::*;

use crate::conf::{
    self, allowed, allows_major, is_key_char, is_lxc_key, is_nvidia_entry, is_plain_key, key_len,
    line_parts, main_of, majors_of, managed, nvidia_entries, nvidia_entries_among, plain_key_at,
    rest_of, unprivileged, value_among, value_in, Device,
};
use crate::text;

verus! {

// ---------------------------------------------------------------------------
// How a line is read.
// ---------------------------------------------------------------------------

/// A raw key is `lxc.` and at least one more of `[a-z0-9_\-\.]`.
pub open spec fn raw_key(k: Seq<char>) -> bool {
    &&& k.len() > 4
    &&& k[0] == 'l' && k[1] == 'x' && k[2] == 'c' && k[3] == '.'
    &&& forall|i: int|
        0 <= i < k.len() ==> 'a' <= #[trigger] k[i] <= 'z' || '0' <= k[i] <= '9' || k[i] == '_'
            || k[i] == '-' || k[i] == '.'
}

/// `k` is a letter, then letters and underscores up to `n`, then digits.
pub open spec fn name_and_number(k: Seq<char>, n: int) -> bool {
    &&& 1 <= n <= k.len()
    &&& 'a' <= k[0] <= 'z'
    &&& forall|i: int| 0 <= i < n ==> 'a' <= #[trigger] k[i] <= 'z' || k[i] == '_'
    &&& forall|i: int| n <= i < k.len() ==> '0' <= #[trigger] k[i] <= '9'
}

/// Every other key is a name that a number may follow.
pub open spec fn plain_key(k: Seq<char>) -> bool {
    exists|n: int| #[trigger] name_and_number(k, n)
}

/// `line` is `k`, a colon and `x`.
pub open spec fn with_colon(line: Seq<char>, k: Seq<char>, x: Seq<char>) -> bool {
    line == k + seq![':'] + x
}

/// `line` is `k`, white space, an equals sign and `x`.
pub open spec fn with_equals(
    line: Seq<char>,
    k: Seq<char>,
    space: Seq<char>,
    x: Seq<char>,
) -> bool {
    text::blank(space) && line == k + space + seq!['='] + x
}

/// `line` gives the key `k` the value `v`.
pub open spec fn reads(line: Seq<char>, k: Seq<char>, v: Seq<char>) -> bool {
    ||| exists|x: Seq<char>|
        raw_key(k) && #[trigger] with_colon(line, k, x) && v == text::trim(x)
    ||| exists|space: Seq<char>, x: Seq<char>|
        raw_key(k) && #[trigger] with_equals(line, k, space, x) && v == text::trim(x)
    ||| exists|x: Seq<char>|
        plain_key(k) && #[trigger] with_colon(line, k, x) && x.len() > 0 && v == text::trim(x)
}

/// White space behind a text is nothing to its trimmed form.
proof fn lemma_trim_blank_tail(a: Seq<char>, w: Seq<char>)
    requires
        text::blank(w),
    ensures
        text::trim(a + w) == text::trim(a),
{
    let s = a + w;
    text::lemma_trim_start(a);
    let k = a.len() - text::trim_start(a).len();
    assert forall|i: int| 0 <= i < k implies text::is_space(#[trigger] s[i]) by {
        assert(s[i] == a.take(k)[i]);
    }
    if k < a.len() {
        assert(s[k] == text::trim_start(a)[0]);
        text::lemma_trim_start_is(s, k as nat);
        let b = text::trim_start(a);
        let t = s.skip(k);
        assert(t =~= b + w);
        text::lemma_trim_end(b);
        let n = text::trim_end(b).len();
        assert forall|i: int| n <= i < t.len() implies text::is_space(#[trigger] t[i]) by {
            if i < b.len() {
                assert(t[i] == b[i]);
            } else {
                assert(t[i] == w[i - b.len()]);
            }
        }
        if n > 0 {
            assert(t[n - 1] == text::trim_end(b).last());
        }
        text::lemma_trim_end_is(t, n);
        assert(t.take(n as int) =~= b.take(n as int));
    } else {
        assert forall|i: int| 0 <= i < s.len() implies text::is_space(#[trigger] s[i]) by {
            if i >= k {
                assert(s[i] == w[i - k]);
            }
        }
        text::lemma_trim_start_is(s, s.len());
        assert(s.skip(s.len() as int) =~= Seq::empty());
        assert(text::trim_start(a) =~= Seq::empty());
    }
}

/// A trimmed text and what was cut off behind it are the text.
proof fn lemma_trim_end_parts(s: Seq<char>)
    ensures
        s == text::trim_end(s) + s.skip(text::trim_end(s).len() as int),
        text::blank(s.skip(text::trim_end(s).len() as int)),
{
    text::lemma_trim_end(s);
    assert(s =~= text::trim_end(s) + s.skip(text::trim_end(s).len() as int));
}

/// The key characters a text begins with.
proof fn lemma_key_len(s: Seq<char>)
    ensures
        key_len(s) <= s.len(),
        forall|i: int| 0 <= i < key_len(s) ==> is_key_char(#[trigger] s[i]),
        key_len(s) < s.len() ==> !is_key_char(s[key_len(s) as int]),
    decreases s.len(),
{
    if s.len() > 0 && is_key_char(s[0]) {
        let t = s.skip(1);
        lemma_key_len(t);
        assert forall|i: int| 0 <= i < key_len(s) implies is_key_char(#[trigger] s[i]) by {
            if i > 0 {
                assert(t[i - 1] == s[i]);
            }
        }
    }
}

/// The two ways of saying what a raw key is agree.
pub proof fn lemma_raw_key(k: Seq<char>)
    ensures
        raw_key(k) <==> is_lxc_key(k),
{
    reveal_strlit("lxc.");
    if raw_key(k) {
        assert(k.take(4) =~= "lxc."@);
        assert forall|i: int| 0 <= i < k.len() implies is_key_char(#[trigger] k[i]) by {}
    }
    if is_lxc_key(k) {
        assert forall|i: int| 0 <= i < 4 implies k[i] == "lxc."@[i] by {
            assert(k.take(4)[i] == k[i]);
        }
        assert forall|i: int| 0 <= i < k.len() implies 'a' <= #[trigger] k[i] <= 'z' || '0' <= k[i]
            <= '9' || k[i] == '_' || k[i] == '-' || k[i] == '.' by {
            assert(is_key_char(k[i]));
        }
    }
}

/// The two ways of saying what a plain key is agree.
proof fn lemma_plain_key(k: Seq<char>)
    ensures
        plain_key(k) <==> is_plain_key(k),
{
    if plain_key(k) {
        let n = choose|n: int| #[trigger] name_and_number(k, n);
        assert(plain_key_at(k, n));
    }
    if is_plain_key(k) {
        let n = choose|n: int| #[trigger] plain_key_at(k, n);
        assert(name_and_number(k, n));
    }
}

/// What is read is written there.
pub proof fn lemma_line_reads(line: Seq<char>)
    requires
        line_parts(line) is Some,
    ensures
        reads(line, line_parts(line)->Some_0.0, line_parts(line)->Some_0.1),
{
    reveal(line_parts);
    reveal_strlit("lxc.");
    let l = text::trim_end(line);
    let w = line.skip(l.len() as int);
    lemma_trim_end_parts(line);
    lemma_key_len(l);
    let n = key_len(l) as int;
    let k = l.take(n);
    let tail = l.skip(n);
    let v = line_parts(line)->Some_0.1;
    lemma_raw_key(k);
    lemma_plain_key(k);
    assert forall|i: int| 0 <= i < k.len() implies is_key_char(#[trigger] k[i]) by {
        assert(k[i] == l[i]);
    }
    if text::starts_with(l, "lxc."@) {
        assert(k.take(4) =~= l.take(4));
        assert(raw_key(k));
    }
    if tail.len() > 0 && tail[0] == ':' {
        let x = tail.skip(1) + w;
        assert(line =~= k + seq![':'] + x);
        assert(with_colon(line, k, x));
        lemma_trim_blank_tail(tail.skip(1), w);
        assert(x.len() == line.len() - k.len() - 1);
    } else {
        text::lemma_trim_start(tail);
        let spaced = text::trim_start(tail);
        let m = tail.len() - spaced.len();
        let space = tail.take(m);
        let x = spaced.skip(1) + w;
        assert(spaced[0] == '=');
        assert(line =~= k + space + seq!['='] + x);
        assert(with_equals(line, k, space, x));
        lemma_trim_blank_tail(spaced.skip(1), w);
    }
}

/// What `trim_end` cuts off is nothing to the trimmed form.
proof fn lemma_trim_of_trim_end(x: Seq<char>)
    ensures
        text::trim(text::trim_end(x)) == text::trim(x),
{
    lemma_trim_end_parts(x);
    lemma_trim_blank_tail(text::trim_end(x), x.skip(text::trim_end(x).len() as int));
}

/// What is written there is read.
pub proof fn lemma_reads_line(line: Seq<char>, k: Seq<char>, v: Seq<char>)
    requires
        reads(line, k, v),
    ensures
        line_parts(line) == Some((k, v)),
{
    reveal(line_parts);
    reveal_strlit("lxc.");
    reveal_strlit(":");
    reveal_strlit("=");
    lemma_raw_key(k);
    lemma_plain_key(k);
    if raw_key(k) {
        if exists|x: Seq<char>| #[trigger] with_colon(line, k, x) && v == text::trim(x) {
            let x = choose|x: Seq<char>| #[trigger] with_colon(line, k, x) && v == text::trim(x);
            assert(line =~= k + ":"@ + x);
            conf::law_both_spellings_are_the_same_line(k, Seq::empty(), x, Set::empty());
            lemma_lxc_value(k, x);
        } else {
            let (space, x) = choose|space: Seq<char>, x: Seq<char>| #[trigger]
                with_equals(line, k, space, x) && v == text::trim(x);
            assert(line =~= k + space + "="@ + x);
            conf::law_both_spellings_are_the_same_line(k, space, x, Set::empty());
            lemma_lxc_value(k, x);
        }
    } else {
        let x = choose|x: Seq<char>| #[trigger]
            with_colon(line, k, x) && x.len() > 0 && v == text::trim(x);
        let n = choose|n: int| #[trigger] name_and_number(k, n);
        let p = k + seq![':'];
        let y = text::trim_end(x);
        text::lemma_trim_end_after(p, x);
        let l = p + y;
        assert forall|i: int| 0 <= i < k.len() implies is_key_char(#[trigger] l[i]) by {
            assert(l[i] == k[i]);
            if i >= n {
                assert('0' <= k[i] <= '9');
            }
        }
        conf::lemma_key_len_is(l, k.len());
        assert(l.take(k.len() as int) =~= k);
        let tail = l.skip(k.len() as int);
        assert(tail[0] == ':');
        assert(tail.skip(1) =~= y);
        lemma_trim_of_trim_end(x);
        assert(!text::starts_with(l, "lxc."@)) by {
            if text::starts_with(l, "lxc."@) {
                assert(l.take(4)[3] == '.');
                assert(l[3] == '.');
                if k.len() > 3 {
                    assert(k[3] == '.');
                    if 3 < n {
                    } else {
                        assert('0' <= k[3] <= '9');
                    }
                } else {
                    assert(l.take(4)[k.len() as int] == "lxc."@[k.len() as int]);
                    assert(l[k.len() as int] == ':');
                }
            }
        }
    }
}

pub proof fn lemma_lxc_value(k: Seq<char>, x: Seq<char>)
    requires
        raw_key(k),
    ensures
        line_parts(k + ":"@ + x) == Some((k, text::trim(x))),
{
    reveal(line_parts);
    reveal_strlit("lxc.");
    reveal_strlit(":");
    lemma_raw_key(k);
    let p = k + ":"@;
    let y = text::trim_end(x);
    text::lemma_trim_end_after(p, x);
    let l = p + y;
    assert forall|i: int| 0 <= i < k.len() implies is_key_char(#[trigger] l[i]) by {
        assert(l[i] == k[i]);
    }
    conf::lemma_key_len_is(l, k.len());
    assert(l.take(k.len() as int) =~= k);
    assert(l.take(4) =~= k.take(4));
    assert(l.skip(k.len() as int).skip(1) =~= y);
    lemma_trim_of_trim_end(x);
}

/// A line gives a key a value exactly if it is a raw key and a colon, a raw
/// key, any white space and an equals sign, or a plain key, a colon and
/// something more; the value is what comes after it, without the white space
/// around it.
pub proof fn law_how_a_line_is_read(line: Seq<char>, k: Seq<char>, v: Seq<char>)
    ensures
        line_parts(line) == Some((k, v)) <==> reads(line, k, v),
{
    if line_parts(line) == Some((k, v)) {
        lemma_line_reads(line);
    }
    if reads(line, k, v) {
        lemma_reads_line(line, k, v);
    }
}

// ---------------------------------------------------------------------------
// Which rule an allow line gives.
// ---------------------------------------------------------------------------

/// `s` is the device number `n`: a star for every number, or its digits.
pub open spec fn numbered(s: Seq<char>, n: Option<u32>) -> bool {
    match n {
        Some(n) => text::parse_u32(s) == Some(n),
        None => s == seq!['*'],
    }
}

/// `v` is a `c`, then a major and a minor with a colon between them, then
/// maybe more words.
pub open spec fn rule_at(
    v: Seq<char>,
    lead: Seq<char>,
    gap: Seq<char>,
    a: Seq<char>,
    b: Seq<char>,
    tail: Seq<char>,
) -> bool {
    &&& text::blank(lead)
    &&& text::blank(gap) && gap.len() > 0
    &&& tail.len() > 0 ==> text::is_space(tail[0])
    &&& v == lead + seq!['c'] + gap + a + seq![':'] + b + tail
}

/// `v` allows the character device with these numbers.
pub open spec fn rule(v: Seq<char>, major: Option<u32>, minor: Option<u32>) -> bool {
    exists|lead: Seq<char>, gap: Seq<char>, a: Seq<char>, b: Seq<char>, tail: Seq<char>| #[trigger]
        rule_at(v, lead, gap, a, b, tail) && numbered(a, major) && numbered(b, minor)
}

proof fn lemma_numbered(s: Seq<char>, n: Option<u32>)
    ensures
        numbered(s, n) <==> conf::device_number(s) == Some(n),
        numbered(s, n) ==> s.len() > 0 && text::spaceless(s) && !s.contains(':'),
{
    reveal_strlit("*");
    assert("*"@ =~= seq!['*']);
    if numbered(s, n) {
        if n is Some {
            let d = text::unsigned(s);
            assert(text::digits(d));
            assert forall|i: int| 0 <= i < s.len() implies !text::is_space(#[trigger] s[i]) && s[i]
                != ':' by {
                if s[0] == '+' {
                    if i > 0 {
                        assert(text::is_digit(d[i - 1]));
                    }
                } else {
                    assert(text::is_digit(d[i]));
                }
            }
            assert(text::is_digit(d[0]));
        }
    }
}

/// White space in front of a text is nothing to its words.
pub proof fn lemma_words_lead(lead: Seq<char>, x: Seq<char>)
    requires
        text::blank(lead),
    ensures
        text::words(lead + x) == text::words(x),
{
    let s = lead + x;
    text::lemma_trim_start(x);
    let k = x.len() - text::trim_start(x).len();
    assert forall|i: int| 0 <= i < lead.len() + k implies text::is_space(#[trigger] s[i]) by {
        if i < lead.len() {
            assert(s[i] == lead[i]);
        } else {
            assert(s[i] == x.take(k)[i - lead.len()]);
        }
    }
    if k < x.len() {
        assert(s[lead.len() + k] == text::trim_start(x)[0]);
    }
    text::lemma_trim_start_is(s, (lead.len() + k) as nat);
    assert(s.skip(lead.len() + k) =~= x.skip(k));
}

pub proof fn lemma_rule_allowed(v: Seq<char>, major: Option<u32>, minor: Option<u32>)
    requires
        rule(v, major, minor),
    ensures
        allowed(v) == Some(Device { major, minor }),
{
    reveal_strlit("c");
    let (lead, gap, a, b, tail) = choose|
        lead: Seq<char>,
        gap: Seq<char>,
        a: Seq<char>,
        b: Seq<char>,
        tail: Seq<char>,
    | #[trigger]
        rule_at(v, lead, gap, a, b, tail) && numbered(a, major) && numbered(b, minor);
    lemma_numbered(a, major);
    lemma_numbered(b, minor);
    let pair = a + seq![':'] + b;
    let more = gap + (pair + tail);
    assert(v =~= lead + ("c"@ + more));
    lemma_words_lead(lead, "c"@ + more);
    assert(text::spaceless("c"@));
    assert(more[0] == gap[0]);
    text::lemma_words_first("c"@, more);
    lemma_words_lead(gap, pair + tail);
    assert(text::spaceless(pair));
    text::lemma_words_first(pair, tail);
    let w = text::words(v);
    assert(w[0] == "c"@);
    assert(w[1] == pair);
    assert forall|i: int| 0 <= i < a.len() implies pair[i] != ':' by {
        assert(a.contains(a[i]));
    }
    text::lemma_first_is(pair, ':', a.len());
    assert(pair.take(a.len() as int) =~= a);
    assert(pair.skip(a.len() as int + 1) =~= b);
}

/// What stands around the first word of a text.
proof fn lemma_first_word(v: Seq<char>) -> (r: (Seq<char>, Seq<char>))
    requires
        text::words(v).len() > 0,
    ensures
        text::blank(r.0),
        r.1.len() > 0 ==> text::is_space(r.1[0]),
        v == r.0 + text::words(v)[0] + r.1,
        text::words(v).skip(1) == text::words(r.1),
{
    let t = text::trim_start(v);
    text::lemma_trim_start(v);
    let n = text::first_space(t) as int;
    text::lemma_first_space(t);
    let lead = v.take(v.len() - t.len());
    let rest = t.skip(n);
    assert(text::words(v) == seq![t.take(n)] + text::words(rest));
    assert(text::words(v)[0] == t.take(n));
    assert(text::words(v).skip(1) =~= text::words(rest));
    assert(v =~= lead + t);
    assert(t =~= t.take(n) + rest);
    assert(v =~= lead + t.take(n) + rest);
    (lead, rest)
}

proof fn lemma_allowed_rule(v: Seq<char>)
    requires
        allowed(v) is Some,
    ensures
        rule(v, allowed(v)->Some_0.major, allowed(v)->Some_0.minor),
{
    let d = allowed(v)->Some_0;
    let w = text::words(v);
    let (lead, rest) = lemma_first_word(v);
    assert(w.skip(1)[0] == w[1]);
    let (gap, tail) = lemma_first_word(rest);
    let pair = w[1];
    assert(text::words(rest)[0] == pair);
    let p = text::first(pair, ':') as int;
    text::lemma_first(pair, ':');
    let a = pair.take(p);
    let b = pair.skip(p + 1);
    lemma_numbered(a, d.major);
    lemma_numbered(b, d.minor);
    assert(numbered(a, d.major) && numbered(b, d.minor));
    lemma_rule_parts(v, lead, rest, gap, pair, a, b, tail);
}

proof fn lemma_rule_parts(
    v: Seq<char>,
    lead: Seq<char>,
    rest: Seq<char>,
    gap: Seq<char>,
    pair: Seq<char>,
    a: Seq<char>,
    b: Seq<char>,
    tail: Seq<char>,
)
    requires
        v == lead + "c"@ + rest,
        rest == gap + pair + tail,
        pair =~= a + seq![':'] + b,
        text::blank(lead),
        text::blank(gap),
        rest.len() > 0 ==> text::is_space(rest[0]),
        tail.len() > 0 ==> text::is_space(tail[0]),
        a.len() > 0,
        text::spaceless(a),
    ensures
        rule_at(v, lead, gap, a, b, tail),
{
    reveal_strlit("c");
    assert("c"@ =~= seq!['c']);
    assert(gap.len() > 0) by {
        if gap.len() == 0 {
            assert(rest[0] == a[0]);
        }
    }
    assert(v =~= lead + seq!['c'] + gap + a + seq![':'] + b + tail);
}

/// The value of an allow line names a character device exactly if it is a `c`,
/// a major and a minor with a colon between them, and maybe more words, each
/// of the two a number or a star.
pub proof fn law_how_an_allow_rule_is_read(
    v: Seq<char>,
    major: Option<u32>,
    minor: Option<u32>,
)
    ensures
        allowed(v) == Some(Device { major, minor }) <==> rule(v, major, minor),
{
    if allowed(v) == Some(Device { major, minor }) {
        lemma_allowed_rule(v);
    }
    if rule(v, major, minor) {
        lemma_rule_allowed(v, major, minor);
    }
}

// ---------------------------------------------------------------------------
// Which lines are this tool's.
// ---------------------------------------------------------------------------

/// A line that allows the device of a character major, with one minor or with
/// every minor, is this tool's exactly if the major is a number among the
/// owned ones, and names that major and no other.
pub proof fn law_an_allow_line_is_ours_by_its_major(
    line: Seq<char>,
    v: Seq<char>,
    major: Option<u32>,
    minor: Option<u32>,
    owned: Set<u32>,
)
    requires
        reads(line, "lxc.cgroup2.devices.allow"@, v),
        rule(v, major, minor),
    ensures
        managed(line, owned) <==> major is Some && owned.contains(major->Some_0),
        forall|m: u32| #[trigger] allows_major(line, m) <==> major == Some(m),
{
    reveal(managed);
    conf::lemma_keys();
    lemma_reads_line(line, "lxc.cgroup2.devices.allow"@, v);
    lemma_rule_allowed(v, major, minor);
}

/// A line that allows a major and every minor, and one that allows the same
/// major and one minor, are this tool's alike: what comes after the colon, be
/// it a number or a star, and the access that is allowed do not matter.
pub proof fn law_the_minor_does_not_matter(major: u32, minor: u32, access: Seq<char>, owned: Set<u32>)
    ensures
        managed(
            "lxc.cgroup2.devices.allow: c "@ + text::decimal(major as nat) + ":* "@ + access,
            owned,
        ) <==> owned.contains(major),
        managed(
            "lxc.cgroup2.devices.allow: c "@ + text::decimal(major as nat) + ":"@ + text::decimal(
                minor as nat,
            ) + " "@ + access,
            owned,
        ) <==> owned.contains(major),
{
    reveal_strlit("lxc.cgroup2.devices.allow: c ");
    reveal_strlit("lxc.cgroup2.devices.allow");
    reveal_strlit(":* ");
    reveal_strlit(":");
    reveal_strlit(" ");
    let a = text::decimal(major as nat);
    let b = text::decimal(minor as nat);
    text::lemma_decimal_parses(major as nat, u32::MAX as nat);
    text::lemma_decimal_parses(minor as nat, u32::MAX as nat);
    let k = "lxc.cgroup2.devices.allow"@;
    assert(raw_key(k)) by {
        conf::lemma_keys();
        lemma_raw_key(k);
    }
    let tail = seq![' '] + access;
    let space = seq![' '];
    // Every minor.
    let x = space + seq!['c'] + space + a + seq![':'] + seq!['*'] + tail;
    let line = "lxc.cgroup2.devices.allow: c "@ + a + ":* "@ + access;
    lemma_allow_text(line, k, a, seq!['*'], tail, x);
    lemma_rule_trim(x, space, space, a, seq!['*'], tail, Some(major), None);
    law_an_allow_line_is_ours_by_its_major(line, text::trim(x), Some(major), None, owned);
    // One minor.
    let y = space + seq!['c'] + space + a + seq![':'] + b + tail;
    let one = "lxc.cgroup2.devices.allow: c "@ + a + ":"@ + b + " "@ + access;
    lemma_allow_text(one, k, a, b, tail, y);
    lemma_rule_trim(y, space, space, a, b, tail, Some(major), Some(minor));
    law_an_allow_line_is_ours_by_its_major(one, text::trim(y), Some(major), Some(minor), owned);
}

proof fn lemma_allow_text(
    line: Seq<char>,
    k: Seq<char>,
    a: Seq<char>,
    b: Seq<char>,
    tail: Seq<char>,
    x: Seq<char>,
)
    requires
        raw_key(k),
        line =~= k + seq![':', ' ', 'c', ' '] + a + seq![':'] + b + tail,
        x == seq![' '] + seq!['c'] + seq![' '] + a + seq![':'] + b + tail,
    ensures
        reads(line, k, text::trim(x)),
{
    assert(line =~= k + seq![':'] + x);
    assert(with_colon(line, k, x));
}

/// White space around a rule is nothing to it.
proof fn lemma_rule_trim(
    x: Seq<char>,
    lead: Seq<char>,
    gap: Seq<char>,
    a: Seq<char>,
    b: Seq<char>,
    tail: Seq<char>,
    major: Option<u32>,
    minor: Option<u32>,
)
    requires
        rule_at(x, lead, gap, a, b, tail),
        numbered(a, major),
        numbered(b, minor),
    ensures
        rule(text::trim(x), major, minor),
{
    lemma_numbered(b, minor);
    let core = seq!['c'] + gap + a + seq![':'] + b + tail;
    assert(x =~= lead + core);
    assert forall|i: int| 0 <= i < lead.len() implies text::is_space(#[trigger] x[i]) by {
        assert(x[i] == lead[i]);
    }
    assert(x[lead.len() as int] == 'c');
    text::lemma_trim_start_is(x, lead.len());
    assert(x.skip(lead.len() as int) =~= core);
    let p = seq!['c'] + gap + a + seq![':'] + b;
    assert(p.last() == b.last());
    text::lemma_trim_end_after(p, tail);
    assert(core =~= p + tail);
    let t = text::trim_end(tail);
    text::lemma_trim_end(tail);
    if t.len() > 0 {
        assert(t[0] == tail[0]);
    }
    assert(text::trim(x) =~= Seq::empty() + seq!['c'] + gap + a + seq![':'] + b + t);
    assert(rule_at(text::trim(x), Seq::empty(), gap, a, b, t));
}

/// The mount hook line is this tool's exactly if it runs LXC's hook, an
/// environment line exactly if its variable begins with `NVIDIA_`, an allow
/// line exactly if it names an owned major; nothing else ever is.
pub proof fn law_which_lines_are_ours(line: Seq<char>, owned: Set<u32>)
    ensures
        managed(line, owned) <==> {
            ||| reads(line, "lxc.hook.mount"@, "/usr/share/lxc/hooks/nvidia"@)
            ||| exists|v: Seq<char>| #[trigger]
                reads(line, "lxc.environment"@, v) && v.len() >= 7 && v.take(7) == "NVIDIA_"@
            ||| exists|v: Seq<char>, m: u32, minor: Option<u32>|
                #![trigger reads(line, "lxc.cgroup2.devices.allow"@, v), rule(v, Some(m), minor)]
                reads(line, "lxc.cgroup2.devices.allow"@, v) && rule(v, Some(m), minor)
                    && owned.contains(m)
        },
{
    reveal(managed);
    reveal_strlit("NVIDIA_");
    conf::lemma_keys();
    if managed(line, owned) {
        lemma_line_reads(line);
        let (k, v) = line_parts(line)->Some_0;
        if k == "lxc.cgroup2.devices.allow"@ {
            lemma_allowed_rule(v);
            assert(rule(v, Some(allowed(v)->Some_0.major->Some_0), allowed(v)->Some_0.minor));
        } else if k == "lxc.environment"@ {
            assert(reads(line, "lxc.environment"@, v));
        }
    }
    if reads(line, "lxc.hook.mount"@, "/usr/share/lxc/hooks/nvidia"@) {
        lemma_reads_line(line, "lxc.hook.mount"@, "/usr/share/lxc/hooks/nvidia"@);
    }
    if exists|v: Seq<char>| #[trigger]
        reads(line, "lxc.environment"@, v) && v.len() >= 7 && v.take(7) == "NVIDIA_"@ {
        let v = choose|v: Seq<char>| #[trigger]
            reads(line, "lxc.environment"@, v) && v.len() >= 7 && v.take(7) == "NVIDIA_"@;
        lemma_reads_line(line, "lxc.environment"@, v);
    }
    if exists|v: Seq<char>, m: u32, minor: Option<u32>|
        #![trigger reads(line, "lxc.cgroup2.devices.allow"@, v), rule(v, Some(m), minor)]
        reads(line, "lxc.cgroup2.devices.allow"@, v) && rule(v, Some(m), minor) && owned.contains(
            m,
        ) {
        let (v, m, minor) = choose|v: Seq<char>, m: u32, minor: Option<u32>|
            #![trigger reads(line, "lxc.cgroup2.devices.allow"@, v), rule(v, Some(m), minor)]
            reads(line, "lxc.cgroup2.devices.allow"@, v) && rule(v, Some(m), minor)
                && owned.contains(m);
        law_an_allow_line_is_ours_by_its_major(line, v, Some(m), minor, owned);
    }
}

// ---------------------------------------------------------------------------
// What a config says.
// ---------------------------------------------------------------------------

/// The lines of a text, each ended by a newline, are the text, but for a
/// newline that its last line may lack.
pub proof fn law_lines_are_the_text(s: Seq<char>)
    ensures
        text::unlines(text::lines(s)) == if s.len() == 0 || s.last() == '\n' {
            s
        } else {
            s.push('\n')
        },
    decreases s.len(),
{
    if s.len() > 0 {
        text::lemma_first(s, '\n');
        let n = text::first(s, '\n') as int;
        let ls = text::lines(s);
        if n >= s.len() {
            assert(ls.skip(1) =~= Seq::empty());
            assert(text::unlines(Seq::empty()) == Seq::<char>::empty());
            assert(ls[0] == s);
            assert(text::unlines(ls) =~= s.push('\n'));
        } else {
            let t = s.skip(n + 1);
            law_lines_are_the_text(t);
            assert(ls.skip(1) =~= text::lines(t));
            assert(s.take(n).push('\n') + t =~= s);
            if t.len() > 0 {
                assert(t.last() == s.last());
            }
            assert(s.take(n).push('\n') + t.push('\n') =~= s.push('\n'));
        }
    }
}

/// The main section and the rest are the config. No line of the main section
/// begins with a bracket; the rest is empty, or begins with one at the start
/// of a line.
pub proof fn law_the_main_section(s: Seq<char>)
    ensures
        main_of(s) + rest_of(s) == s,
        forall|i: int|
            0 <= i < text::lines(main_of(s)).len() && (#[trigger] text::lines(
                main_of(s),
            )[i]).len() > 0 ==> text::lines(main_of(s))[i][0] != '[',
        rest_of(s).len() > 0 ==> rest_of(s)[0] == '[' && (main_of(s).len() == 0 || main_of(s).last()
            == '\n'),
{
    conf::lemma_main_has_no_header(s);
    conf::lemma_header_from(s, 0);
    assert(main_of(s) + rest_of(s) =~= s);
}

/// `ls[i]` is the first of the lines that gives `key` a value, which is `v`.
pub open spec fn says_first(
    ls: Seq<Seq<char>>,
    i: int,
    key: Seq<char>,
    v: Seq<char>,
) -> bool {
    &&& 0 <= i < ls.len()
    &&& reads(ls[i], key, v)
    &&& forall|j: int, u: Seq<char>| 0 <= j < i ==> !#[trigger] reads(ls[j], key, u)
}

proof fn lemma_value_among(ls: Seq<Seq<char>>, key: Seq<char>)
    ensures
        value_among(ls, key) is Some ==> exists|i: int| #[trigger]
            says_first(ls, i, key, value_among(ls, key)->Some_0),
        value_among(ls, key) is None ==> forall|i: int, u: Seq<char>|
            0 <= i < ls.len() ==> !#[trigger] reads(ls[i], key, u),
    decreases ls.len(),
{
    if ls.len() > 0 {
        let t = ls.skip(1);
        lemma_value_among(t, key);
        if line_parts(ls[0]) is Some && line_parts(ls[0])->Some_0.0 == key {
            lemma_line_reads(ls[0]);
            let v = line_parts(ls[0])->Some_0.1;
            assert(value_among(ls, key)->Some_0 == v);
            assert(says_first(ls, 0, key, value_among(ls, key)->Some_0));
        } else {
            assert(value_among(ls, key) == value_among(t, key));
            assert forall|u: Seq<char>| !#[trigger] reads(ls[0], key, u) by {
                if reads(ls[0], key, u) {
                    lemma_reads_line(ls[0], key, u);
                }
            }
            if value_among(t, key) is Some {
                let v = value_among(t, key)->Some_0;
                let i = choose|i: int| #[trigger] says_first(t, i, key, v);
                assert forall|j: int, u: Seq<char>| 0 <= j < i + 1 implies !#[trigger] reads(
                    ls[j],
                    key,
                    u,
                ) by {
                    if j > 0 {
                        assert(ls[j] == t[j - 1]);
                        assert(!reads(t[j - 1], key, u));
                    }
                }
                assert(ls[i + 1] == t[i]);
                assert(value_among(ls, key)->Some_0 == v);
                assert(says_first(ls, i + 1, key, value_among(ls, key)->Some_0));
            } else {
                assert(value_among(ls, key) is None);
                assert forall|i: int, u: Seq<char>| 0 <= i < ls.len() implies !#[trigger] reads(
                    ls[i],
                    key,
                    u,
                ) by {
                    if i > 0 {
                        assert(ls[i] == t[i - 1]);
                        assert(!reads(t[i - 1], key, u));
                    }
                }
            }
        }
    } else {
        assert(value_among(ls, key) is None);
    }
}

/// A key's value is the one its first line in the main section gives it; it
/// has none exactly if no line there gives it one.
pub proof fn law_the_first_line_counts(s: Seq<char>, key: Seq<char>)
    ensures
        match value_in(s, key) {
            Some(v) => exists|i: int| #[trigger] says_first(text::lines(main_of(s)), i, key, v),
            None => forall|i: int, u: Seq<char>|
                0 <= i < text::lines(main_of(s)).len() ==> !#[trigger] reads(
                    text::lines(main_of(s))[i],
                    key,
                    u,
                ),
        },
{
    lemma_value_among(text::lines(main_of(s)), key);
}

/// The main section maps its users, or first says that it is unprivileged.
pub open spec fn runs_unprivileged(s: Seq<char>) -> bool {
    let ls = text::lines(main_of(s));
    ||| exists|i: int| #[trigger] says_first(ls, i, "unprivileged"@, "1"@)
    ||| exists|i: int, v: Seq<char>|
        0 <= i < ls.len() && #[trigger] reads(ls[i], "lxc.idmap"@, v)
}

/// A container is unprivileged exactly if its main section says so.
pub proof fn law_who_is_unprivileged(s: Seq<char>)
    ensures
        unprivileged(s) <==> runs_unprivileged(s),
{
    let ls = text::lines(main_of(s));
    lemma_value_among(ls, "unprivileged"@);
    lemma_value_among(ls, "lxc.idmap"@);
    if exists|i: int| #[trigger] says_first(ls, i, "unprivileged"@, "1"@) {
        let i = choose|i: int| #[trigger] says_first(ls, i, "unprivileged"@, "1"@);
        assert(value_among(ls, "unprivileged"@) == Some("1"@)) by {
            lemma_reads_line(ls[i], "unprivileged"@, "1"@);
            assert(value_among(ls, "unprivileged"@) is Some);
            let v = value_among(ls, "unprivileged"@)->Some_0;
            let j = choose|j: int| #[trigger] says_first(ls, j, "unprivileged"@, v);
            lemma_reads_line(ls[j], "unprivileged"@, v);
            if i < j {
                assert(!reads(ls[i], "unprivileged"@, "1"@));
            } else if j < i {
                assert(!reads(ls[j], "unprivileged"@, v));
            }
        }
    }
    if exists|i: int, v: Seq<char>| 0 <= i < ls.len() && #[trigger] reads(ls[i], "lxc.idmap"@, v) {
        assert(value_among(ls, "lxc.idmap"@) is Some);
    } else if value_among(ls, "lxc.idmap"@) is Some {
        let v = value_among(ls, "lxc.idmap"@)->Some_0;
        let i = choose|i: int| #[trigger] says_first(ls, i, "lxc.idmap"@, v);
        assert(reads(ls[i], "lxc.idmap"@, v));
    }
}

/// `line` is a `devN` entry, its number spelled `n`, and names an NVIDIA
/// device at `p`.
pub open spec fn passes_device(
    line: Seq<char>,
    n: Seq<char>,
    v: Seq<char>,
    p: int,
) -> bool {
    &&& reads(line, "dev"@ + n, v)
    &&& n.len() > 0
    &&& forall|i: int| 0 <= i < n.len() ==> '0' <= #[trigger] n[i] <= '9'
    &&& 0 <= p <= v.len() - 11
    &&& v.subrange(p, p + 11) == "/dev/nvidia"@
}

/// The main section has a `devN` entry for an NVIDIA device.
pub open spec fn passes_a_device(s: Seq<char>) -> bool {
    exists|i: int, n: Seq<char>, v: Seq<char>, p: int|
        0 <= i < text::lines(main_of(s)).len() && #[trigger] passes_device(
            text::lines(main_of(s))[i],
            n,
            v,
            p,
        )
}

proof fn lemma_nvidia_entry(line: Seq<char>)
    ensures
        is_nvidia_entry(line) <==> exists|n: Seq<char>, v: Seq<char>, p: int| #[trigger]
            passes_device(line, n, v, p),
        is_nvidia_entry(line) ==> line_parts(line) is Some,
        forall|n: Seq<char>, v: Seq<char>, p: int| #[trigger]
            passes_device(line, n, v, p) ==> line_parts(line) == Some(("dev"@ + n, v)),
{
    reveal_strlit("dev");
    reveal_strlit("/dev/nvidia");
    assert("/dev/nvidia"@.len() == 11);
    assert forall|n: Seq<char>, v: Seq<char>, p: int| #[trigger]
        passes_device(line, n, v, p) implies line_parts(line) == Some(("dev"@ + n, v))
        && is_nvidia_entry(line) by {
        lemma_reads_line(line, "dev"@ + n, v);
        assert(("dev"@ + n).take(3) =~= "dev"@);
        assert(("dev"@ + n).skip(3) =~= n);
        assert(v.subrange(p, p + "/dev/nvidia"@.len()) == "/dev/nvidia"@);
    }
    if is_nvidia_entry(line) {
        lemma_line_reads(line);
        let (k, v) = line_parts(line)->Some_0;
        let n = k.skip(3);
        assert(k =~= "dev"@ + n);
        let p = choose|p: int|
            0 <= p <= v.len() - 11 && #[trigger] v.subrange(p, p + "/dev/nvidia"@.len())
                == "/dev/nvidia"@;
        assert(passes_device(line, n, v, p));
    }
}

proof fn lemma_nvidia_entries(ls: Seq<Seq<char>>)
    ensures
        forall|k: Seq<char>| #[trigger]
            nvidia_entries_among(ls).contains(k) <==> exists|i: int|
                0 <= i < ls.len() && #[trigger] is_nvidia_entry(ls[i]) && line_parts(
                    ls[i],
                )->Some_0.0 == k,
    decreases ls.len(),
{
    let es = nvidia_entries_among(ls);
    if ls.len() == 0 {
        assert(ls =~= Seq::empty());
        reveal(Seq::filter);
        assert(es =~= Seq::empty());
    } else {
        let t = ls.drop_last();
        let l = ls.last();
        lemma_nvidia_entries(t);
        assert(ls =~= t.push(l));
        conf::lemma_nvidia_entries_push(t, l);
        let fs = nvidia_entries_among(t);
        assert forall|k: Seq<char>| #[trigger]
            es.contains(k) <==> exists|i: int|
                0 <= i < ls.len() && #[trigger] is_nvidia_entry(ls[i]) && line_parts(
                    ls[i],
                )->Some_0.0 == k by {
            if es.contains(k) {
                let j = choose|j: int| 0 <= j < es.len() && es[j] == k;
                if j < fs.len() {
                    assert(fs[j] == k);
                    assert(fs.contains(k));
                    let i = choose|i: int|
                        0 <= i < t.len() && #[trigger] is_nvidia_entry(t[i]) && line_parts(
                            t[i],
                        )->Some_0.0 == k;
                    assert(ls[i] == t[i]);
                } else {
                    assert(is_nvidia_entry(ls[ls.len() - 1]));
                }
            }
            if exists|i: int|
                0 <= i < ls.len() && #[trigger] is_nvidia_entry(ls[i]) && line_parts(
                    ls[i],
                )->Some_0.0 == k {
                let i = choose|i: int|
                    0 <= i < ls.len() && #[trigger] is_nvidia_entry(ls[i]) && line_parts(
                        ls[i],
                    )->Some_0.0 == k;
                if i < t.len() {
                    assert(t[i] == ls[i]);
                    assert(is_nvidia_entry(t[i]));
                    assert(fs.contains(k));
                    let j = choose|j: int| 0 <= j < fs.len() && fs[j] == k;
                    assert(es[j] == k);
                } else {
                    assert(es.last() == k);
                }
            }
        }
    }
}

/// The device entries a config is refused for are the keys of the lines of
/// its main section that are `dev` and a number and name an NVIDIA device.
pub proof fn law_which_entries_pass_a_device(s: Seq<char>)
    ensures
        forall|k: Seq<char>| #[trigger]
            nvidia_entries(s).contains(k) <==> exists|i: int, n: Seq<char>, v: Seq<char>, p: int|
                0 <= i < text::lines(main_of(s)).len() && k == "dev"@ + n
                    && #[trigger] passes_device(text::lines(main_of(s))[i], n, v, p),
        nvidia_entries(s).len() > 0 <==> passes_a_device(s),
{
    let ls = text::lines(main_of(s));
    let es = nvidia_entries(s);
    lemma_nvidia_entries(ls);
    assert forall|k: Seq<char>| #[trigger]
        es.contains(k) <==> exists|i: int, n: Seq<char>, v: Seq<char>, p: int|
            0 <= i < ls.len() && k == "dev"@ + n && #[trigger] passes_device(ls[i], n, v, p) by {
        if es.contains(k) {
            let i = choose|i: int|
                0 <= i < ls.len() && #[trigger] is_nvidia_entry(ls[i]) && line_parts(
                    ls[i],
                )->Some_0.0 == k;
            lemma_nvidia_entry(ls[i]);
            let (n, v, p) = choose|n: Seq<char>, v: Seq<char>, p: int| #[trigger]
                passes_device(ls[i], n, v, p);
            assert(k == "dev"@ + n);
        }
        if exists|i: int, n: Seq<char>, v: Seq<char>, p: int|
            0 <= i < ls.len() && k == "dev"@ + n && #[trigger] passes_device(ls[i], n, v, p) {
            let (i, n, v, p) = choose|i: int, n: Seq<char>, v: Seq<char>, p: int|
                0 <= i < ls.len() && k == "dev"@ + n && #[trigger] passes_device(ls[i], n, v, p);
            lemma_nvidia_entry(ls[i]);
            assert(is_nvidia_entry(ls[i]));
        }
    }
    if es.len() > 0 {
        assert(es.contains(es[0]));
    }
    if passes_a_device(s) {
        let (i, n, v, p) = choose|i: int, n: Seq<char>, v: Seq<char>, p: int|
            0 <= i < ls.len() && #[trigger] passes_device(ls[i], n, v, p);
        assert(es.contains("dev"@ + n));
    }
}

/// The majors of a config are those that the allow lines of its main section
/// name.
pub proof fn law_which_majors_a_config_names(s: Seq<char>, m: u32)
    ensures
        majors_of(s).contains(m) <==> exists|i: int, v: Seq<char>, minor: Option<u32>|
            #![trigger reads(text::lines(main_of(s))[i], "lxc.cgroup2.devices.allow"@, v), rule(v, Some(m), minor)]
            0 <= i < text::lines(main_of(s)).len() && reads(
                text::lines(main_of(s))[i],
                "lxc.cgroup2.devices.allow"@,
                v,
            ) && rule(v, Some(m), minor),
{
    let ls = text::lines(main_of(s));
    if majors_of(s).contains(m) {
        let i = choose|i: int| 0 <= i < ls.len() && allows_major(#[trigger] ls[i], m);
        lemma_line_reads(ls[i]);
        let v = line_parts(ls[i])->Some_0.1;
        lemma_allowed_rule(v);
        assert(rule(v, Some(m), allowed(v)->Some_0.minor));
    }
    if exists|i: int, v: Seq<char>, minor: Option<u32>|
        #![trigger reads(ls[i], "lxc.cgroup2.devices.allow"@, v), rule(v, Some(m), minor)]
        0 <= i < ls.len() && reads(ls[i], "lxc.cgroup2.devices.allow"@, v) && rule(
            v,
            Some(m),
            minor,
        ) {
        let (i, v, minor) = choose|i: int, v: Seq<char>, minor: Option<u32>|
            #![trigger reads(ls[i], "lxc.cgroup2.devices.allow"@, v), rule(v, Some(m), minor)]
            0 <= i < ls.len() && reads(ls[i], "lxc.cgroup2.devices.allow"@, v) && rule(
                v,
                Some(m),
                minor,
            );
        law_an_allow_line_is_ours_by_its_major(ls[i], v, Some(m), minor, Set::empty());
        assert(allows_major(ls[i], m));
    }
}

} // verus!
