//! What replacing the managed lines of a config leaves of it.

use vstd::prelude::*;

use crate::conf::{
    self, main_of, managed, managed_among, managed_of, others, ours, rest_of,
    spliced, spliced_lines, without_trailing_blanks,
};
use crate::text;

verus! {

/// The managed lines of a config are those of one half of its main section,
/// then those of the other; a line is among them, without the white space it
/// ends with, exactly if it is this tool's. Every other line is among the
/// others, as it is.
pub proof fn law_the_managed_lines_in_their_order(
    s: Seq<char>,
    a: Seq<Seq<char>>,
    b: Seq<Seq<char>>,
    l: Seq<char>,
    owned: Set<u32>,
)
    ensures
        managed_of(s, owned) == managed_among(text::lines(main_of(s)), owned),
        managed_among(a + b, owned) == managed_among(a, owned) + managed_among(b, owned),
        managed_among(seq![l], owned) == if managed(l, owned) {
            seq![text::trim_end(l)]
        } else {
            Seq::empty()
        },
        ours(a + b, owned) == ours(a, owned) + ours(b, owned),
        ours(seq![l], owned) == if managed(l, owned) {
            seq![l]
        } else {
            Seq::empty()
        },
        others(a + b, owned) == others(a, owned) + others(b, owned),
        others(seq![l], owned) == if managed(l, owned) {
            Seq::empty()
        } else {
            seq![l]
        },
{
    let p = |l: Seq<char>| managed(l, owned);
    let q = |l: Seq<char>| !managed(l, owned);
    Seq::filter_distributes_over_add(a, b, p);
    Seq::filter_distributes_over_add(a, b, q);
    assert(managed_among(a + b, owned) =~= managed_among(a, owned) + managed_among(b, owned));
    lemma_filter_one(l, p);
    lemma_filter_one(l, q);
    assert(managed_among(seq![l], owned) =~= if managed(l, owned) {
        seq![text::trim_end(l)]
    } else {
        Seq::empty()
    });
}

proof fn lemma_filter_one(l: Seq<char>, p: spec_fn(Seq<char>) -> bool)
    ensures
        seq![l].filter(p) == if p(l) {
            seq![l]
        } else {
            Seq::empty()
        },
{
    reveal(Seq::filter);
    let one = seq![l];
    assert(one.drop_last() =~= Seq::empty());
    assert(one.drop_last().filter(p) =~= Seq::empty());
    assert(Seq::<Seq<char>>::empty().push(l) =~= one);
}

/// Lines that are nobody's are all kept.
proof fn lemma_others_all(ls: Seq<Seq<char>>, owned: Set<u32>)
    requires
        forall|i: int| 0 <= i < ls.len() ==> !managed(#[trigger] ls[i], owned),
    ensures
        others(ls, owned) == ls,
    decreases ls.len(),
{
    reveal(Seq::filter);
    if ls.len() > 0 {
        let t = ls.drop_last();
        assert forall|i: int| 0 <= i < t.len() implies !managed(#[trigger] t[i], owned) by {
            assert(t[i] == ls[i]);
        }
        lemma_others_all(t, owned);
        assert(!managed(ls[ls.len() - 1], owned));
        assert(t.push(ls.last()) =~= ls);
    } else {
        assert(ls =~= Seq::empty());
    }
}

/// The lines before `k` are nobody's, and `ls[k]` is the first of ours, if
/// there is one.
pub open spec fn ours_begin_at(ls: Seq<Seq<char>>, k: int, owned: Set<u32>) -> bool {
    &&& 0 <= k <= ls.len()
    &&& forall|i: int| 0 <= i < k ==> !managed(#[trigger] ls[i], owned)
    &&& k < ls.len() ==> managed(ls[k], owned)
}

/// Some line from `k` on is nobody's and is not blank.
pub open spec fn goes_on(ls: Seq<Seq<char>>, k: int, owned: Set<u32>) -> bool {
    exists|j: int|
        k <= j < ls.len() && !managed(#[trigger] ls[j], owned) && !text::blank(ls[j])
}

/// The new lines stand where the first managed line stood, below the very
/// lines that stood above it, if the config goes on after it; otherwise at its
/// end, below every line that is nobody's but for blank ones at the end.
pub proof fn law_where_the_new_lines_stand(
    ls: Seq<Seq<char>>,
    desired: Seq<Seq<char>>,
    owned: Set<u32>,
    k: int,
)
    requires
        ours_begin_at(ls, k, owned),
    ensures
        goes_on(ls, k, owned) ==> {
            let out = spliced_lines(ls, desired, owned);
            &&& out.len() >= k + desired.len()
            &&& out.take(k) == ls.take(k)
            &&& out.subrange(k, k + desired.len()) == desired
            &&& out.skip(k + desired.len()) == without_trailing_blanks(others(ls, owned)).skip(k)
        },
        !goes_on(ls, k, owned) ==> spliced_lines(ls, desired, owned) == without_trailing_blanks(
            others(ls, owned),
        ) + desired,
{
    let a = ls.take(k);
    let b = ls.skip(k);
    assert(ls =~= a + b);
    let q = |l: Seq<char>| !managed(l, owned);
    Seq::filter_distributes_over_add(a, b, q);
    assert forall|i: int| 0 <= i < a.len() implies !managed(#[trigger] a[i], owned) by {
        assert(a[i] == ls[i]);
    }
    lemma_others_all(a, owned);
    let kept = others(ls, owned);
    let later = others(b, owned);
    assert(kept == a + later);
    let body = without_trailing_blanks(kept);
    conf::lemma_without_trailing_blanks(kept);
    conf::lemma_first_managed_is(ls, owned, k as nat);
    let out = spliced_lines(ls, desired, owned);
    if goes_on(ls, k, owned) {
        let j = choose|j: int|
            k <= j < ls.len() && !managed(#[trigger] ls[j], owned) && !text::blank(ls[j]);
        assert(b[j - k] == ls[j]);
        assert(q(b[j - k]));
        b.lemma_filter_contains(q, j - k);
        let n = choose|n: int| 0 <= n < later.len() && later[n] == ls[j];
        assert(kept[k + n] == ls[j]);
        assert(body.len() > k + n);
        assert(out =~= body.take(k) + desired + body.skip(k));
        assert(out.take(k) =~= ls.take(k)) by {
            assert forall|i: int| 0 <= i < k implies out[i] == ls[i] by {
                assert(out[i] == body[i]);
                assert(body[i] == kept[i]);
            }
        }
        assert(out.subrange(k, k + desired.len()) =~= desired);
        assert(out.skip(k + desired.len()) =~= body.skip(k));
    } else {
        assert(body.len() <= k) by {
            if body.len() > k {
                let l = body.last();
                assert(l == kept[body.len() - 1]);
                assert(l == later[body.len() - 1 - k]);
                b.lemma_filter_pred(q, body.len() - 1 - k);
                assert(later.contains(l));
                b.lemma_filter_contains_rev(q, l);
                let j = choose|j: int| 0 <= j < b.len() && b[j] == l;
                assert(ls[k + j] == l);
                assert(q(l));
                assert(!managed(ls[k + j], owned));
            }
        }
        assert(body.take(body.len() as int) =~= body);
        assert(body.skip(body.len() as int) =~= Seq::empty());
        assert(out =~= body + desired);
    }
}

/// Of the lines that are nobody's, only blank ones below the last that is not
/// are dropped.
pub proof fn law_only_blank_lines_are_dropped(ls: Seq<Seq<char>>)
    ensures
        ({
            let kept = without_trailing_blanks(ls);
            &&& kept.len() <= ls.len()
            &&& kept == ls.take(kept.len() as int)
            &&& forall|i: int| kept.len() <= i < ls.len() ==> text::blank(#[trigger] ls[i])
            &&& kept.len() > 0 ==> !text::blank(kept.last())
        }),
{
    conf::lemma_without_trailing_blanks(ls);
}

/// A config with new lines is those lines, each ended by a newline, and the
/// sections as they were, with one empty line between the two where there are
/// sections.
pub proof fn law_how_a_spliced_config_is_laid_out(
    s: Seq<char>,
    desired: Seq<Seq<char>>,
    owned: Set<u32>,
)
    ensures
        rest_of(s).len() == 0 ==> spliced(s, desired, owned) == text::unlines(
            spliced_lines(text::lines(main_of(s)), desired, owned),
        ),
        rest_of(s).len() > 0 ==> spliced(s, desired, owned) == text::unlines(
            spliced_lines(text::lines(main_of(s)), desired, owned),
        ) + seq!['\n'] + rest_of(s),
{
    let head = text::unlines(spliced_lines(text::lines(main_of(s)), desired, owned));
    assert(head.push('\n') =~= head + seq!['\n']);
}

} // verus!
