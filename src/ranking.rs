//! The deterministic order of ranked results: score descending, then title,
//! then link, then snippet, each ascending by code point.

use vstd::prelude::*;
use vstd::multiset::Multiset;
use crate::result::SearchResult;
use crate::text::chars_of;

verus! {

broadcast use vstd::seq_lib::group_to_multiset_ensures;

/// Lexicographic order of character sequences by code point; a proper prefix
/// comes first.
pub open spec fn seq_less(a: Seq<char>, b: Seq<char>) -> bool
    decreases a.len(),
{
    if a.len() == 0 {
        b.len() > 0
    } else if b.len() == 0 {
        false
    } else if a[0] != b[0] {
        a[0] < b[0]
    } else {
        seq_less(a.drop_first(), b.drop_first())
    }
}

/// `a` comes before `b` in the ranked order.
pub open spec fn ranks_before(a: SearchResult, b: SearchResult) -> bool {
    a.score > b.score || (a.score == b.score && (seq_less(a.title@, b.title@) || (a.title@
        == b.title@ && (seq_less(a.link@, b.link@) || (a.link@ == b.link@ && seq_less(
        a.snippet@,
        b.snippet@,
    ))))))
}

/// `a` and `b` agree on score, title, link and snippet.
pub open spec fn same_rank_key(a: SearchResult, b: SearchResult) -> bool {
    a.score == b.score && a.title@ == b.title@ && a.link@ == b.link@ && a.snippet@ == b.snippet@
}

/// No result of `s` ranks before an earlier one.
pub open spec fn rank_sorted(s: Seq<SearchResult>) -> bool {
    forall|i: int, j: int| 0 <= i < j < s.len() ==> !ranks_before(s[j], s[i])
}

/// Results of `s` that agree on score, title, link and snippet are equal.
pub open spec fn keys_distinct(s: Seq<SearchResult>) -> bool {
    forall|i: int, j: int|
        0 <= i < s.len() && 0 <= j < s.len() && same_rank_key(s[i], s[j]) ==> s[i] == s[j]
}

proof fn lemma_seq_less_irreflexive(a: Seq<char>)
    ensures
        !seq_less(a, a),
    decreases a.len(),
{
    if a.len() > 0 {
        lemma_seq_less_irreflexive(a.drop_first());
    }
}

proof fn lemma_seq_less_asymmetric(a: Seq<char>, b: Seq<char>)
    ensures
        !(seq_less(a, b) && seq_less(b, a)),
    decreases a.len(),
{
    if a.len() > 0 && b.len() > 0 && a[0] == b[0] {
        lemma_seq_less_asymmetric(a.drop_first(), b.drop_first());
    }
}

proof fn lemma_seq_less_transitive(a: Seq<char>, b: Seq<char>, c: Seq<char>)
    requires
        seq_less(a, b),
        seq_less(b, c),
    ensures
        seq_less(a, c),
    decreases a.len(),
{
    if a.len() > 0 && b.len() > 0 && c.len() > 0 && a[0] == b[0] && b[0] == c[0] {
        lemma_seq_less_transitive(a.drop_first(), b.drop_first(), c.drop_first());
    }
}

proof fn lemma_seq_less_total(a: Seq<char>, b: Seq<char>)
    requires
        a != b,
    ensures
        seq_less(a, b) || seq_less(b, a),
    decreases a.len(),
{
    if a.len() > 0 && b.len() > 0 {
        if a[0] == b[0] {
            if a.drop_first() == b.drop_first() {
                assert(a =~= seq![a[0]] + a.drop_first());
                assert(b =~= seq![b[0]] + b.drop_first());
            }
            lemma_seq_less_total(a.drop_first(), b.drop_first());
        } else {
        }
    } else if a.len() == 0 && b.len() == 0 {
        assert(a =~= b);
    }
}

/// No result ranks before another that ranks before it; none before itself.
pub proof fn lemma_ranks_asymmetric(a: SearchResult, b: SearchResult)
    ensures
        !(ranks_before(a, b) && ranks_before(b, a)),
{
    lemma_seq_less_asymmetric(a.title@, b.title@);
    lemma_seq_less_asymmetric(a.link@, b.link@);
    lemma_seq_less_asymmetric(a.snippet@, b.snippet@);
    lemma_seq_less_irreflexive(a.title@);
    lemma_seq_less_irreflexive(a.link@);
}

/// Ranking before is transitive.
pub proof fn lemma_ranks_transitive(a: SearchResult, b: SearchResult, c: SearchResult)
    requires
        ranks_before(a, b),
        ranks_before(b, c),
    ensures
        ranks_before(a, c),
{
    lemma_seq_less_irreflexive(a.title@);
    lemma_seq_less_irreflexive(b.title@);
    lemma_seq_less_irreflexive(a.link@);
    lemma_seq_less_irreflexive(b.link@);
    if a.score == b.score && b.score == c.score {
        if seq_less(a.title@, b.title@) && seq_less(b.title@, c.title@) {
            lemma_seq_less_transitive(a.title@, b.title@, c.title@);
        }
        if a.title@ == b.title@ && b.title@ == c.title@ {
            if seq_less(a.link@, b.link@) && seq_less(b.link@, c.link@) {
                lemma_seq_less_transitive(a.link@, b.link@, c.link@);
            }
            if a.link@ == b.link@ && b.link@ == c.link@ {
                lemma_seq_less_transitive(a.snippet@, b.snippet@, c.snippet@);
            }
        }
    }
}

/// Two results neither of which ranks before the other agree on score,
/// title, link and snippet.
pub proof fn lemma_ranks_total(a: SearchResult, b: SearchResult)
    requires
        !ranks_before(a, b),
        !ranks_before(b, a),
    ensures
        same_rank_key(a, b),
{
    if a.title@ != b.title@ {
        lemma_seq_less_total(a.title@, b.title@);
    }
    if a.link@ != b.link@ {
        lemma_seq_less_total(a.link@, b.link@);
    }
    if a.snippet@ != b.snippet@ {
        lemma_seq_less_total(a.snippet@, b.snippet@);
    }
}

/// Two sequences in ranked order that hold the same results, no two of which
/// agree on score, title and link without being equal, are the same sequence:
/// the ranked order of a collection does not depend on the order in which its
/// results arrived.
pub proof fn rank_order_unique(a: Seq<SearchResult>, b: Seq<SearchResult>)
    requires
        a.to_multiset() == b.to_multiset(),
        rank_sorted(a),
        rank_sorted(b),
        keys_distinct(a),
    ensures
        a == b,
    decreases a.len(),
{
    vstd::seq_lib::to_multiset_len(a);
    vstd::seq_lib::to_multiset_len(b);
    if a.len() == 0 {
        assert(a =~= b);
    } else {
        assert(b.len() > 0);
        assert(a.to_multiset().count(b[0]) > 0) by {
            assert(b.contains(b[0]));
        }
        assert(a.contains(b[0]));
        let k = choose|k: int| 0 <= k < a.len() && a[k] == b[0];
        assert(b.to_multiset().count(a[0]) > 0) by {
            assert(a.contains(a[0]));
        }
        assert(b.contains(a[0]));
        let m = choose|m: int| 0 <= m < b.len() && b[m] == a[0];
        if k > 0 {
            assert(!ranks_before(a[k], a[0]));
        }
        if m > 0 {
            assert(!ranks_before(b[m], b[0]));
        }
        lemma_ranks_asymmetric(a[0], a[0]);
        lemma_ranks_asymmetric(b[0], b[0]);
        lemma_ranks_total(a[0], b[0]);
        assert(a[0] == a[k]);
        let a1 = a.drop_first();
        let b1 = b.drop_first();
        assert(a1 =~= a.remove(0));
        assert(b1 =~= b.remove(0));
        vstd::seq_lib::to_multiset_remove(a, 0);
        vstd::seq_lib::to_multiset_remove(b, 0);
        assert(rank_sorted(a1)) by {
            assert forall|i: int, j: int| 0 <= i < j < a1.len() implies !ranks_before(
                a1[j],
                a1[i],
            ) by {
                assert(a1[j] == a[j + 1] && a1[i] == a[i + 1]);
            }
        }
        assert(rank_sorted(b1)) by {
            assert forall|i: int, j: int| 0 <= i < j < b1.len() implies !ranks_before(
                b1[j],
                b1[i],
            ) by {
                assert(b1[j] == b[j + 1] && b1[i] == b[i + 1]);
            }
        }
        assert(keys_distinct(a1)) by {
            assert forall|i: int, j: int|
                0 <= i < a1.len() && 0 <= j < a1.len() && same_rank_key(
                    a1[i],
                    a1[j],
                ) implies a1[i] == a1[j] by {
                assert(a1[i] == a[i + 1] && a1[j] == a[j + 1]);
            }
        }
        rank_order_unique(a1, b1);
        assert(a =~= seq![a[0]] + a1);
        assert(b =~= seq![b[0]] + b1);
    }
}

/// The score, title, link and snippet of a result: what the ranked order
/// compares.
pub open spec fn rank_key(r: SearchResult) -> (u64, Seq<char>, Seq<char>, Seq<char>) {
    (r.score, r.title@, r.link@, r.snippet@)
}

/// The rank keys of `s`, in order.
pub open spec fn rank_keys(s: Seq<SearchResult>) -> Seq<(u64, Seq<char>, Seq<char>, Seq<char>)> {
    s.map_values(|r: SearchResult| rank_key(r))
}

proof fn lemma_remove_sorted(s: Seq<SearchResult>, m: int)
    requires
        rank_sorted(s),
        0 <= m < s.len(),
    ensures
        rank_sorted(s.remove(m)),
{
    let t = s.remove(m);
    assert forall|i: int, j: int| 0 <= i < j < t.len() implies !ranks_before(t[j], t[i]) by {
        let oi = if i < m { i } else { i + 1 };
        let oj = if j < m { j } else { j + 1 };
        assert(t[i] == s[oi] && t[j] == s[oj]);
    }
}

/// Any two arrangements in ranked order of the same results agree on the
/// score, title, link and snippet at every position: the ranked order of a
/// collection, up to results that agree on all four, does not depend on the
/// order in which its results arrived.
pub proof fn rank_keys_unique(a: Seq<SearchResult>, b: Seq<SearchResult>)
    requires
        a.to_multiset() == b.to_multiset(),
        rank_sorted(a),
        rank_sorted(b),
    ensures
        rank_keys(a) == rank_keys(b),
    decreases a.len(),
{
    vstd::seq_lib::to_multiset_len(a);
    vstd::seq_lib::to_multiset_len(b);
    if a.len() == 0 {
        assert(rank_keys(a) =~= rank_keys(b));
    } else {
        assert(a.to_multiset().count(b[0]) > 0) by {
            assert(b.contains(b[0]));
        }
        assert(a.contains(b[0]));
        let k = choose|k: int| 0 <= k < a.len() && a[k] == b[0];
        assert(b.to_multiset().count(a[0]) > 0) by {
            assert(a.contains(a[0]));
        }
        assert(b.contains(a[0]));
        let m = choose|m: int| 0 <= m < b.len() && b[m] == a[0];
        if k > 0 {
            assert(!ranks_before(a[k], a[0]));
        }
        if m > 0 {
            assert(!ranks_before(b[m], b[0]));
        }
        lemma_ranks_asymmetric(a[0], a[0]);
        lemma_ranks_asymmetric(b[0], b[0]);
        lemma_ranks_total(a[0], b[0]);
        assert forall|i: int| 0 <= i <= m implies #[trigger] rank_key(b[i]) == rank_key(b[0]) by {
            if 0 < i && i < m {
                assert(!ranks_before(b[i], b[0]));
                assert(!ranks_before(b[m], b[i]));
                lemma_ranks_total(b[i], b[0]);
            }
        }
        let a1 = a.drop_first();
        let b1 = b.remove(m);
        assert(a1 =~= a.remove(0));
        vstd::seq_lib::to_multiset_remove(a, 0);
        vstd::seq_lib::to_multiset_remove(b, m);
        lemma_remove_sorted(a, 0);
        lemma_remove_sorted(b, m);
        rank_keys_unique(a1, b1);
        assert(rank_keys(b1) =~= rank_keys(b.drop_first())) by {
            assert forall|i: int| 0 <= i < b1.len() implies rank_keys(b1)[i] == rank_keys(
                b.drop_first(),
            )[i] by {
                if i < m {
                    assert(rank_key(b[i]) == rank_key(b[0]));
                    assert(rank_key(b[i + 1]) == rank_key(b[0]));
                }
            }
        }
        assert(rank_keys(a) =~= seq![rank_key(a[0])] + rank_keys(a1));
        assert(rank_keys(b) =~= seq![rank_key(b[0])] + rank_keys(b.drop_first()));
    }
}

/// Putting two arrangements of the same results in ranked order gives the
/// same list, provided no two different results agree on score, title, link
/// and snippet.
pub proof fn ranked_order_ignores_arrival(
    a: Seq<SearchResult>,
    b: Seq<SearchResult>,
    ra: Seq<SearchResult>,
    rb: Seq<SearchResult>,
)
    requires
        a.to_multiset() == b.to_multiset(),
        keys_distinct(a),
        ra.to_multiset() == a.to_multiset(),
        rank_sorted(ra),
        rb.to_multiset() == b.to_multiset(),
        rank_sorted(rb),
    ensures
        ra == rb,
{
    assert forall|i: int, j: int|
        0 <= i < ra.len() && 0 <= j < ra.len() && same_rank_key(ra[i], ra[j]) implies ra[i]
        == ra[j] by {
        vstd::seq_lib::to_multiset_contains(ra, ra[i]);
        vstd::seq_lib::to_multiset_contains(ra, ra[j]);
        vstd::seq_lib::to_multiset_contains(a, ra[i]);
        vstd::seq_lib::to_multiset_contains(a, ra[j]);
        assert(ra.contains(ra[i]));
        assert(ra.contains(ra[j]));
        let x = choose|x: int| 0 <= x < a.len() && a[x] == ra[i];
        let y = choose|y: int| 0 <= y < a.len() && a[y] == ra[j];
        assert(same_rank_key(a[x], a[y]));
    }
    rank_order_unique(ra, rb);
}

/// Whether `a` comes before `b` by code point, a proper prefix first.
pub fn chars_less(a: &Vec<char>, b: &Vec<char>) -> (r: bool)
    ensures
        r == seq_less(a@, b@),
{
    let mut i: usize = 0;
    assert(a@.skip(0) =~= a@);
    assert(b@.skip(0) =~= b@);
    while i < a.len() && i < b.len() && a[i] == b[i]
        invariant
            i <= a@.len(),
            i <= b@.len(),
            seq_less(a@.skip(i as int), b@.skip(i as int)) == seq_less(a@, b@),
        decreases a@.len() - i,
    {
        assert(a@.skip(i as int).drop_first() =~= a@.skip(i + 1));
        assert(b@.skip(i as int).drop_first() =~= b@.skip(i + 1));
        i = i + 1;
    }
    if i == a.len() {
        i < b.len()
    } else if i == b.len() {
        false
    } else {
        assert(a@.skip(i as int)[0] == a@[i as int]);
        assert(b@.skip(i as int)[0] == b@[i as int]);
        a[i] < b[i]
    }
}

/// Whether `a` comes before `b` in the ranked order.
pub fn rank_before(a: &SearchResult, b: &SearchResult) -> (r: bool)
    ensures
        r == ranks_before(*a, *b),
{
    if a.score != b.score {
        return a.score > b.score;
    }
    let ta = chars_of(a.title.as_str());
    let tb = chars_of(b.title.as_str());
    if chars_less(&ta, &tb) {
        return true;
    }
    if a.title != b.title {
        return false;
    }
    let la = chars_of(a.link.as_str());
    let lb = chars_of(b.link.as_str());
    if chars_less(&la, &lb) {
        return true;
    }
    if a.link != b.link {
        return false;
    }
    let sa = chars_of(a.snippet.as_str());
    let sb = chars_of(b.snippet.as_str());
    chars_less(&sa, &sb)
}

/// The results in ranked order: score descending, ties by title, then by
/// link, then by snippet.
pub fn sort_results(results: Vec<SearchResult>) -> (r: Vec<SearchResult>)
    ensures
        r@.to_multiset() == results@.to_multiset(),
        rank_sorted(r@),
{
    let ghost orig = results@;
    let mut rest = results;
    let mut out: Vec<SearchResult> = Vec::new();
    assert(orig.subrange(0, orig.len() as int) =~= orig);
    while rest.len() > 0
        invariant
            rest@ == orig.subrange(0, rest@.len() as int),
            rest@.len() <= orig.len(),
            out@.to_multiset() == orig.subrange(rest@.len() as int, orig.len() as int).to_multiset(),
            rank_sorted(out@),
        decreases rest@.len(),
    {
        let x = rest.pop().unwrap();
        let ghost n: int = rest@.len() as int;
        assert(rest@ =~= orig.subrange(0, n));
        let mut p: usize = 0;
        while p < out.len() && !rank_before(&x, &out[p])
            invariant
                p <= out@.len(),
                forall|k: int| 0 <= k < p ==> !ranks_before(x, #[trigger] out@[k]),
            decreases out@.len() - p,
        {
            p = p + 1;
        }
        let ghost old_out = out@;
        out.insert(p, x);
        proof {
            assert(out@ == old_out.insert(p as int, x));
            vstd::seq_lib::to_multiset_insert(old_out, p as int, x);
            let tail = orig.subrange(n, orig.len() as int);
            assert(tail =~= seq![x] + orig.subrange(n + 1, orig.len() as int));
            assert(tail.drop_first() =~= orig.subrange(n + 1, orig.len() as int));
            vstd::seq_lib::lemma_multiset_commutative(seq![x], orig.subrange(n + 1, orig.len() as int));
            assert(seq![x].to_multiset() =~= Multiset::empty().insert(x)) by {
                vstd::seq_lib::to_multiset_build(Seq::<SearchResult>::empty(), x);
                assert(Seq::<SearchResult>::empty().push(x) =~= seq![x]);
            }
            assert(out@.to_multiset() =~= tail.to_multiset());
            assert forall|i: int, j: int| 0 <= i < j < out@.len() implies !ranks_before(
                out@[j],
                out@[i],
            ) by {
                if j == p {
                    assert(out@[i] == old_out[i]);
                } else if i == p {
                    assert(out@[j] == old_out[j - 1]);
                    assert(ranks_before(x, old_out[p as int]));
                    if p < j - 1 {
                        assert(!ranks_before(old_out[j - 1], old_out[p as int]));
                    }
                    if ranks_before(old_out[j - 1], x) {
                        if p < j - 1 {
                            lemma_ranks_transitive(old_out[j - 1], x, old_out[p as int]);
                        } else {
                            lemma_ranks_asymmetric(x, old_out[p as int]);
                        }
                    }
                } else {
                    let oi = if i < p { i } else { i - 1 };
                    let oj = if j < p { j } else { j - 1 };
                    assert(out@[i] == old_out[oi] && out@[j] == old_out[oj]);
                }
            }
        }
    }
    assert(orig.subrange(0, orig.len() as int) =~= orig);
    out
}

} // verus!
