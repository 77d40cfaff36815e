//! The decisions of one search cycle: answer from the cache or fan out to the
//! engines, admit each engine, then merge, score, order and deduplicate what
//! they returned. Running the engines and talking to the cache is left to the
//! caller, which hands the outcomes back.

use vstd::prelude::*;
use crate::error::SearchError;
use crate::ranking::{
    keys_distinct, rank_key, rank_keys, rank_keys_unique, rank_sorted, ranked_order_ignores_arrival,
    ranks_before, sort_results,
};
use crate::rate_limiter::{check, position_of, RateLimiter, TokenBucket};
use crate::result::SearchResult;
use crate::scoring::{
    dedup, dedup_free_of_repeats, dedup_keeps_all, free_of_repeats, normalized_link, near_duplicate, repeats_any, result_score,
    ResultScorer, ScoringWeights,
};

verus! {

/// What one engine contributed to a search.
pub type EngineOutcome = Result<Vec<SearchResult>, SearchError>;

/// The results an engine outcome contributes: all of them, or none on failure.
pub open spec fn contribution(o: EngineOutcome) -> Seq<SearchResult> {
    match o {
        Ok(v) => v@,
        Err(_) => Seq::empty(),
    }
}

/// The contributions of all engines, concatenated in the given order.
pub open spec fn gathered(os: Seq<EngineOutcome>) -> Seq<SearchResult>
    decreases os.len(),
{
    if os.len() == 0 {
        Seq::empty()
    } else {
        gathered(os.drop_last()) + contribution(os.last())
    }
}

/// `r` with its score set to what the scorer gives it against `q`.
pub open spec fn scored(w: ScoringWeights, r: SearchResult, q: Seq<char>) -> SearchResult {
    SearchResult { score: result_score(w, r, q) as u64, ..r }
}

/// Every result of `s`, scored against `q`.
pub open spec fn scored_all(w: ScoringWeights, s: Seq<SearchResult>, q: Seq<char>) -> Seq<SearchResult> {
    s.map_values(|r: SearchResult| scored(w, r, q))
}

/// `r` is the final list for the merged results `all`: the scored results in
/// ranked order, with repeats removed.
pub open spec fn is_final_list(w: ScoringWeights, q: Seq<char>, all: Seq<SearchResult>, r: Seq<SearchResult>) -> bool {
    exists|s: Seq<SearchResult>|
        s.to_multiset() == scored_all(w, all, q).to_multiset() && rank_sorted(s) && r == dedup(s)
}

/// What the cache lookup decides.
#[derive(Debug)]
pub enum CacheDecision<T> {
    /// Answer with the cached value; no engine or upstream is queried.
    Respond(T),
    /// Nothing usable was cached: compute the answer.
    FanOut,
}

/// What a lookup that found `cached` decides: answer with it as it stands,
/// or compute on a miss.
pub open spec fn cache_step<T>(cached: Option<T>) -> CacheDecision<T> {
    match cached {
        Some(v) => CacheDecision::Respond(v),
        None => CacheDecision::FanOut,
    }
}

/// A cache hit is answered as it stands; a miss fans out.
pub fn on_cache_lookup<T>(cached: Option<T>) -> (r: CacheDecision<T>)
    ensures
        r == cache_step(cached),
{
    match cached {
        Some(v) => CacheDecision::Respond(v),
        None => CacheDecision::FanOut,
    }
}

/// The results one engine outcome contributes.
pub fn engine_contribution(outcome: EngineOutcome) -> (r: Vec<SearchResult>)
    ensures
        r@ == contribution(outcome),
{
    match outcome {
        Ok(v) => v,
        Err(_) => Vec::new(),
    }
}

/// The contributions of all engines, concatenated in the given order.
pub fn gather(outcomes: Vec<EngineOutcome>) -> (r: Vec<SearchResult>)
    ensures
        r@ == gathered(outcomes@),
{
    let ghost orig = outcomes@;
    let mut rest = outcomes;
    let mut all: Vec<SearchResult> = Vec::new();
    let n = rest.len();
    let mut i: usize = 0;
    assert(orig.take(0) =~= Seq::<EngineOutcome>::empty());
    assert(orig.skip(0) =~= orig);
    while i < n
        invariant
            n == orig.len(),
            i <= n,
            rest@ == orig.skip(i as int),
            all@ == gathered(orig.take(i as int)),
        decreases n - i,
    {
        let o = rest.remove(0);
        assert(o == orig[i as int]);
        assert(rest@ =~= orig.skip(i + 1));
        let mut c = engine_contribution(o);
        all.append(&mut c);
        proof {
            assert(orig.take(i + 1).drop_last() =~= orig.take(i as int));
            assert(orig.take(i + 1).last() == orig[i as int]);
        }
        i = i + 1;
    }
    assert(orig.take(n as int) =~= orig);
    all
}

/// Scores every result against `query`, keeping everything else.
pub fn score_all(scorer: &ResultScorer, results: Vec<SearchResult>, query: &str) -> (r: Vec<
    SearchResult,
>)
    requires
        scorer.weights.wf(),
    ensures
        r@ == scored_all(scorer.weights, results@, query@),
{
    let ghost orig = results@;
    let mut rest = results;
    let mut out: Vec<SearchResult> = Vec::new();
    let n = rest.len();
    let mut i: usize = 0;
    assert(orig.skip(0) =~= orig);
    while i < n
        invariant
            n == orig.len(),
            i <= n,
            rest@ == orig.skip(i as int),
            out@ == scored_all(scorer.weights, orig.take(i as int), query@),
            scorer.weights.wf(),
        decreases n - i,
    {
        let mut r = rest.remove(0);
        assert(r == orig[i as int]);
        assert(rest@ =~= orig.skip(i + 1));
        let s = scorer.score_result(&r, query);
        r.score = s;
        out.push(r);
        proof {
            assert(out@ =~= scored_all(scorer.weights, orig.take(i + 1), query@));
        }
        i = i + 1;
    }
    assert(orig.take(n as int) =~= orig);
    out
}

/// Scores the merged results against `query`, puts them in ranked order and
/// removes repeats, first seen wins.
pub fn rank_results(scorer: &ResultScorer, query: &str, all: Vec<SearchResult>) -> (r: Vec<
    SearchResult,
>)
    requires
        scorer.weights.wf(),
    ensures
        is_final_list(scorer.weights, query@, all@, r@),
{
    let scored_results = score_all(scorer, all, query);
    let ordered = sort_results(scored_results);
    let r = ResultScorer::remove_duplicates(ordered);
    assert(ordered@.to_multiset() == scored_all(scorer.weights, all@, query@).to_multiset()
        && rank_sorted(ordered@) && r@ == dedup(ordered@));
    r
}

/// The final list of a search whose engines came back with `outcomes`: the
/// successful contributions merged, scored, ordered and deduplicated. Failed
/// or refused engines contribute nothing and are not reported.
pub fn complete_search(scorer: &ResultScorer, query: &str, outcomes: Vec<EngineOutcome>) -> (r:
    Vec<SearchResult>)
    requires
        scorer.weights.wf(),
    ensures
        is_final_list(scorer.weights, query@, gathered(outcomes@), r@),
{
    let all = gather(outcomes);
    rank_results(scorer, query, all)
}

/// Admission attempts for `engines`, in order, starting from `buckets`: the
/// buckets afterwards, and for each engine whether it was admitted.
pub open spec fn admissions(
    names: Seq<String>,
    buckets: Seq<TokenBucket>,
    engines: Seq<String>,
    now: u64,
) -> (Seq<TokenBucket>, Seq<bool>)
    decreases engines.len(),
{
    if engines.len() == 0 {
        (buckets, Seq::empty())
    } else {
        let (bs, oks) = admissions(names, buckets, engines.drop_last(), now);
        let (bs2, ok) = check(names, bs, engines.last()@, now);
        (bs2, oks.push(ok))
    }
}

/// Asks the limiter, engine by engine in order, whether each may be queried
/// now. A refused engine is skipped for this search, not retried.
pub fn admit_engines(limiter: &mut RateLimiter, engines: &Vec<String>, now_ms: u64) -> (r: Vec<
    bool,
>)
    requires
        old(limiter).wf(),
    ensures
        final(limiter).wf(),
        final(limiter).names@ == old(limiter).names@,
        (final(limiter).buckets@, r@) == admissions(
            old(limiter).names@,
            old(limiter).buckets@,
            engines@,
            now_ms,
        ),
{
    let mut r: Vec<bool> = Vec::new();
    let mut i: usize = 0;
    assert(engines@.take(0) =~= Seq::<String>::empty());
    assert(r@ =~= Seq::<bool>::empty());
    while i < engines.len()
        invariant
            limiter.wf(),
            limiter.names@ == old(limiter).names@,
            i <= engines@.len(),
            (limiter.buckets@, r@) == admissions(
                old(limiter).names@,
                old(limiter).buckets@,
                engines@.take(i as int),
                now_ms,
            ),
        decreases engines@.len() - i,
    {
        let ok = limiter.check_rate_limit(engines[i].as_str(), now_ms);
        r.push(ok);
        proof {
            assert(engines@.take(i + 1).drop_last() =~= engines@.take(i as int));
            assert(engines@.take(i + 1).last() == engines@[i as int]);
        }
        i = i + 1;
    }
    assert(engines@.take(i as int) =~= engines@);
    r
}

/// An engine the limiter has no bucket for is always admitted.
pub proof fn unknown_engines_admitted(
    names: Seq<String>,
    buckets: Seq<TokenBucket>,
    engines: Seq<String>,
    now: u64,
    i: int,
)
    requires
        0 <= i < engines.len(),
        position_of(names, engines[i]@) is None,
    ensures
        admissions(names, buckets, engines, now).1[i],
    decreases engines.len(),
{
    lemma_admissions_len(names, buckets, engines.drop_last(), now);
    if i < engines.len() - 1 {
        assert(engines.drop_last()[i] == engines[i]);
        unknown_engines_admitted(names, buckets, engines.drop_last(), now, i);
    }
}

proof fn lemma_admissions_len(names: Seq<String>, buckets: Seq<TokenBucket>, engines: Seq<String>, now: u64)
    ensures
        admissions(names, buckets, engines, now).1.len() == engines.len(),
    decreases engines.len(),
{
    if engines.len() > 0 {
        lemma_admissions_len(names, buckets, engines.drop_last(), now);
    }
}

/// One search cycle over a cache that keeps what it is given, deciding as
/// `on_cache_lookup` does: the answer, the number of engine requests made,
/// and the cache afterwards. `fresh` is what the engines would yield, and
/// `engines` how many there are.
pub open spec fn search_cycle(
    cache: Map<Seq<char>, Seq<SearchResult>>,
    key: Seq<char>,
    fresh: Seq<SearchResult>,
    engines: nat,
) -> (Seq<SearchResult>, nat, Map<Seq<char>, Seq<SearchResult>>) {
    let found = if cache.contains_key(key) {
        Some(cache[key])
    } else {
        None
    };
    match cache_step(found) {
        CacheDecision::Respond(v) => (v, 0, cache),
        CacheDecision::FanOut => (fresh, engines, cache.insert(key, fresh)),
    }
}

/// A second search with the same key, while the first one's entry is still
/// cached, answers with exactly the first one's list and queries no engine.
pub proof fn repeat_search_hits_cache(
    cache: Map<Seq<char>, Seq<SearchResult>>,
    key: Seq<char>,
    first: Seq<SearchResult>,
    second: Seq<SearchResult>,
    engines: nat,
)
    ensures
        ({
            let (a1, _n1, c1) = search_cycle(cache, key, first, engines);
            let (a2, n2, _c2) = search_cycle(c1, key, second, engines);
            a2 == a1 && n2 == 0
        }),
{
}

/// A failed engine adds nothing: beside a failure, what one engine returned
/// is the whole of what is merged, and every result of the final list is one
/// of those results, scored.
pub proof fn failure_is_isolated(
    w: ScoringWeights,
    q: Seq<char>,
    e: SearchError,
    v: Vec<SearchResult>,
    r: Seq<SearchResult>,
)
    requires
        is_final_list(w, q, gathered(seq![Err(e), Ok(v)]), r),
    ensures
        gathered(seq![Err(e), Ok(v)]) == v@,
        gathered(seq![Ok(v), Err(e)]) == v@,
        forall|i: int| 0 <= i < r.len() ==> scored_all(w, v@, q).contains(#[trigger] r[i]),
{
    let a: Seq<EngineOutcome> = seq![Err(e), Ok(v)];
    let b: Seq<EngineOutcome> = seq![Ok(v), Err(e)];
    assert(a.drop_last().drop_last() =~= Seq::<EngineOutcome>::empty());
    assert(b.drop_last().drop_last() =~= Seq::<EngineOutcome>::empty());
    assert(gathered(Seq::<EngineOutcome>::empty()) == Seq::<SearchResult>::empty());
    assert(a.drop_last().last() == Err::<Vec<SearchResult>, SearchError>(e));
    assert(gathered(a.drop_last()) =~= Seq::<SearchResult>::empty());
    assert(a.last() == Ok::<Vec<SearchResult>, SearchError>(v));
    assert(gathered(a) =~= v@);
    assert(b.drop_last().last() == Ok::<Vec<SearchResult>, SearchError>(v));
    assert(gathered(b.drop_last()) =~= v@);
    assert(b.last() == Err::<Vec<SearchResult>, SearchError>(e));
    assert(gathered(b) =~= v@);
    let s = choose|s: Seq<SearchResult>|
        s.to_multiset() == scored_all(w, v@, q).to_multiset() && rank_sorted(s) && r == dedup(s);
    lemma_dedup_within(s);
    assert forall|i: int| 0 <= i < r.len() implies scored_all(w, v@, q).contains(#[trigger] r[i]) by {
        assert(s.contains(r[i]));
        vstd::seq_lib::to_multiset_contains(s, r[i]);
        vstd::seq_lib::to_multiset_contains(scored_all(w, v@, q), r[i]);
    }
}

proof fn lemma_scored_multiset(w: ScoringWeights, q: Seq<char>, a: Seq<SearchResult>, b: Seq<SearchResult>)
    requires
        a.to_multiset() == b.to_multiset(),
    ensures
        scored_all(w, a, q).to_multiset() == scored_all(w, b, q).to_multiset(),
    decreases a.len(),
{
    vstd::seq_lib::to_multiset_len(a);
    vstd::seq_lib::to_multiset_len(b);
    if a.len() == 0 {
        assert(b.len() == 0);
        assert(scored_all(w, a, q) =~= scored_all(w, b, q));
    } else {
        assert(a.contains(a[0]));
        vstd::seq_lib::to_multiset_contains(a, a[0]);
        vstd::seq_lib::to_multiset_contains(b, a[0]);
        let k = choose|k: int| 0 <= k < b.len() && b[k] == a[0];
        let a1 = a.drop_first();
        let b1 = b.remove(k);
        assert(a1 =~= a.remove(0));
        vstd::seq_lib::to_multiset_remove(a, 0);
        vstd::seq_lib::to_multiset_remove(b, k);
        lemma_scored_multiset(w, q, a1, b1);
        let x = scored(w, a[0], q);
        assert(scored_all(w, a, q) =~= scored_all(w, a1, q).insert(0, x));
        assert(scored_all(w, b, q) =~= scored_all(w, b1, q).insert(k, x));
        vstd::seq_lib::to_multiset_insert(scored_all(w, a1, q), 0, x);
        vstd::seq_lib::to_multiset_insert(scored_all(w, b1, q), k, x);
    }
}

/// The final list does not depend on the order in which the engines'
/// results arrived: two arrangements of the same merged results give the
/// same list, provided no two different scored results agree on score, title
/// and link.
pub proof fn final_list_ignores_arrival(
    w: ScoringWeights,
    q: Seq<char>,
    a: Seq<SearchResult>,
    b: Seq<SearchResult>,
    ra: Seq<SearchResult>,
    rb: Seq<SearchResult>,
)
    requires
        a.to_multiset() == b.to_multiset(),
        keys_distinct(scored_all(w, a, q)),
        is_final_list(w, q, a, ra),
        is_final_list(w, q, b, rb),
    ensures
        ra == rb,
{
    lemma_scored_multiset(w, q, a, b);
    let sa = choose|s: Seq<SearchResult>|
        s.to_multiset() == scored_all(w, a, q).to_multiset() && rank_sorted(s) && ra == dedup(s);
    let sb = choose|s: Seq<SearchResult>|
        s.to_multiset() == scored_all(w, b, q).to_multiset() && rank_sorted(s) && rb == dedup(s);
    ranked_order_ignores_arrival(scored_all(w, a, q), scored_all(w, b, q), sa, sb);
}

proof fn lemma_dedup_keys(s1: Seq<SearchResult>, s2: Seq<SearchResult>)
    requires
        rank_keys(s1) == rank_keys(s2),
    ensures
        rank_keys(dedup(s1)) == rank_keys(dedup(s2)),
    decreases s1.len(),
{
    assert(s1.len() == rank_keys(s1).len() && s2.len() == rank_keys(s2).len());
    if s1.len() > 0 {
        let p1 = s1.drop_last();
        let p2 = s2.drop_last();
        assert(rank_keys(p1) =~= rank_keys(s1).drop_last());
        assert(rank_keys(p2) =~= rank_keys(s2).drop_last());
        lemma_dedup_keys(p1, p2);
        let d1 = dedup(p1);
        let d2 = dedup(p2);
        let x1 = s1.last();
        let x2 = s2.last();
        assert(rank_key(x1) == rank_keys(s1).last());
        assert(rank_key(x2) == rank_keys(s2).last());
        assert(d1.len() == rank_keys(d1).len() && d2.len() == rank_keys(d2).len());
        assert forall|i: int| 0 <= i < d1.len() implies near_duplicate(x1, #[trigger] d1[i])
            == near_duplicate(x2, d2[i]) by {
            assert(rank_keys(d1)[i] == rank_keys(d2)[i]);
        }
        if repeats_any(x1, d1) {
            let i = choose|i: int| 0 <= i < d1.len() && near_duplicate(x1, #[trigger] d1[i]);
            assert(near_duplicate(x2, d2[i]));
        }
        if repeats_any(x2, d2) {
            let i = choose|i: int| 0 <= i < d2.len() && near_duplicate(x2, #[trigger] d2[i]);
            assert(near_duplicate(x1, d1[i]));
        }
        if !repeats_any(x1, d1) {
            assert(rank_keys(d1.push(x1)) =~= rank_keys(d1).push(rank_key(x1)));
            assert(rank_keys(d2.push(x2)) =~= rank_keys(d2).push(rank_key(x2)));
        }
    }
}

/// The final list does not depend on the order in which the engines'
/// results arrived: two arrangements of the same merged results give final
/// lists that agree on score, title, link and snippet at every position.
pub proof fn final_keys_ignore_arrival(
    w: ScoringWeights,
    q: Seq<char>,
    a: Seq<SearchResult>,
    b: Seq<SearchResult>,
    ra: Seq<SearchResult>,
    rb: Seq<SearchResult>,
)
    requires
        a.to_multiset() == b.to_multiset(),
        is_final_list(w, q, a, ra),
        is_final_list(w, q, b, rb),
    ensures
        rank_keys(ra) == rank_keys(rb),
{
    lemma_scored_multiset(w, q, a, b);
    let sa = choose|s: Seq<SearchResult>|
        s.to_multiset() == scored_all(w, a, q).to_multiset() && rank_sorted(s) && ra == dedup(s);
    let sb = choose|s: Seq<SearchResult>|
        s.to_multiset() == scored_all(w, b, q).to_multiset() && rank_sorted(s) && rb == dedup(s);
    rank_keys_unique(sa, sb);
    lemma_dedup_keys(sa, sb);
}

proof fn lemma_dedup_keeps_order(s: Seq<SearchResult>)
    requires
        rank_sorted(s),
    ensures
        rank_sorted(dedup(s)),
    decreases s.len(),
{
    if s.len() > 0 {
        let p = s.drop_last();
        assert(rank_sorted(p)) by {
            assert forall|i: int, j: int| 0 <= i < j < p.len() implies !ranks_before(p[j], p[i]) by {
                assert(p[i] == s[i] && p[j] == s[j]);
            }
        }
        lemma_dedup_keeps_order(p);
        lemma_dedup_within(p);
        let d = dedup(p);
        let e = dedup(s);
        if e != d {
            assert forall|i: int, j: int| 0 <= i < j < e.len() implies !ranks_before(e[j], e[i]) by {
                if j == d.len() {
                    assert(e[i] == d[i]);
                    assert(p.contains(d[i]));
                    let k = choose|k: int| 0 <= k < p.len() && p[k] == d[i];
                    assert(s[k] == d[i]);
                    assert(e[j] == s[s.len() - 1]);
                } else {
                    assert(e[i] == d[i] && e[j] == d[j]);
                }
            }
        }
    }
}

/// The final list is in ranked order, and none of its results repeats an
/// earlier one.
pub proof fn final_list_ordered_without_repeats(
    w: ScoringWeights,
    q: Seq<char>,
    all: Seq<SearchResult>,
    r: Seq<SearchResult>,
)
    requires
        is_final_list(w, q, all, r),
    ensures
        rank_sorted(r),
        free_of_repeats(r),
{
    let s = choose|s: Seq<SearchResult>|
        s.to_multiset() == scored_all(w, all, q).to_multiset() && rank_sorted(s) && r == dedup(s);
    lemma_dedup_keeps_order(s);
    dedup_free_of_repeats(s);
}

/// Beside a failed engine, results of one engine none of which repeats
/// another all reach the final list: it holds each of them, scored, once,
/// in ranked order.
pub proof fn distinct_results_all_kept(
    w: ScoringWeights,
    q: Seq<char>,
    e: SearchError,
    v: Vec<SearchResult>,
    r: Seq<SearchResult>,
)
    requires
        forall|i: int, j: int|
            0 <= i < v@.len() && 0 <= j < v@.len() && i != j ==> !near_duplicate(v@[i], v@[j]),
        is_final_list(w, q, gathered(seq![Err(e), Ok(v)]), r),
    ensures
        r.len() == v@.len(),
        r.to_multiset() == scored_all(w, v@, q).to_multiset(),
        rank_sorted(r),
{
    failure_is_isolated(w, q, e, v, r);
    let sv = scored_all(w, v@, q);
    let s = choose|s: Seq<SearchResult>|
        s.to_multiset() == sv.to_multiset() && rank_sorted(s) && r == dedup(s);
    assert forall|i: int, j: int| 0 <= i < sv.len() && 0 <= j < sv.len() && i != j implies sv[i]
        != sv[j] by {
        assert(sv[i] == scored(w, v@[i], q) && sv[j] == scored(w, v@[j], q));
        assert(!near_duplicate(v@[i], v@[j]));
    }
    assert(sv.no_duplicates());
    sv.lemma_multiset_has_no_duplicates();
    assert forall|x: SearchResult| s.to_multiset().contains(x) implies s.to_multiset().count(x)
        == 1 by {
    }
    s.lemma_multiset_has_no_duplicates_conv();
    assert forall|i: int, j: int| 0 <= i < j < s.len() implies !near_duplicate(s[j], s[i]) by {
        assert(s.contains(s[i]) && s.contains(s[j]));
        vstd::seq_lib::to_multiset_contains(s, s[i]);
        vstd::seq_lib::to_multiset_contains(s, s[j]);
        vstd::seq_lib::to_multiset_contains(sv, s[i]);
        vstd::seq_lib::to_multiset_contains(sv, s[j]);
        let p = choose|p: int| 0 <= p < sv.len() && sv[p] == s[i];
        let p2 = choose|p2: int| 0 <= p2 < sv.len() && sv[p2] == s[j];
        assert(s[i] != s[j]);
        assert(sv[p] == scored(w, v@[p], q) && sv[p2] == scored(w, v@[p2], q));
        assert(!near_duplicate(v@[p2], v@[p]));
    }
    dedup_keeps_all(s);
    vstd::seq_lib::to_multiset_len(s);
    vstd::seq_lib::to_multiset_len(sv);
}

/// Two engines that each return one result, the two links normalizing
/// alike, give a final list of exactly one entry: one of the two, scored.
pub proof fn same_link_one_entry(
    w: ScoringWeights,
    q: Seq<char>,
    a: Vec<SearchResult>,
    b: Vec<SearchResult>,
    r: Seq<SearchResult>,
)
    requires
        a@.len() == 1,
        b@.len() == 1,
        normalized_link(a@[0].link@) == normalized_link(b@[0].link@),
        is_final_list(w, q, gathered(seq![Ok(a), Ok(b)]), r),
    ensures
        r.len() == 1,
        r[0] == scored(w, a@[0], q) || r[0] == scored(w, b@[0], q),
{
    let os: Seq<EngineOutcome> = seq![Ok(a), Ok(b)];
    assert(os.drop_last().drop_last() =~= Seq::<EngineOutcome>::empty());
    assert(gathered(Seq::<EngineOutcome>::empty()) == Seq::<SearchResult>::empty());
    assert(os.drop_last().last() == Ok::<Vec<SearchResult>, SearchError>(a));
    assert(gathered(os.drop_last()) =~= a@);
    assert(os.last() == Ok::<Vec<SearchResult>, SearchError>(b));
    assert(gathered(os) =~= seq![a@[0], b@[0]]);
    let all = seq![a@[0], b@[0]];
    let sv = scored_all(w, all, q);
    let x = scored(w, a@[0], q);
    let y = scored(w, b@[0], q);
    assert(sv =~= seq![x, y]);
    let s = choose|s: Seq<SearchResult>|
        s.to_multiset() == sv.to_multiset() && rank_sorted(s) && r == dedup(s);
    vstd::seq_lib::to_multiset_len(s);
    vstd::seq_lib::to_multiset_len(sv);
    assert(s.len() == 2);
    assert(s.contains(s[0]) && s.contains(s[1]));
    vstd::seq_lib::to_multiset_contains(s, s[0]);
    vstd::seq_lib::to_multiset_contains(s, s[1]);
    vstd::seq_lib::to_multiset_contains(sv, s[0]);
    vstd::seq_lib::to_multiset_contains(sv, s[1]);
    assert(s[0] == x || s[0] == y);
    assert(s[1] == x || s[1] == y);
    assert(normalized_link(x.link@) == normalized_link(y.link@));
    assert(near_duplicate(s[1], s[0]));
    assert(s.drop_last().drop_last() =~= Seq::<SearchResult>::empty());
    assert(dedup(Seq::<SearchResult>::empty()) == Seq::<SearchResult>::empty());
    assert(dedup(s.drop_last()) =~= seq![s[0]]);
    assert(seq![s[0]][0] == s[0]);
    assert(repeats_any(s[1], seq![s[0]]));
}

proof fn lemma_dedup_within(s: Seq<SearchResult>)
    ensures
        forall|i: int| 0 <= i < dedup(s).len() ==> s.contains(#[trigger] dedup(s)[i]),
    decreases s.len(),
{
    if s.len() > 0 {
        lemma_dedup_within(s.drop_last());
        let d = dedup(s.drop_last());
        assert forall|i: int| 0 <= i < dedup(s).len() implies s.contains(#[trigger] dedup(s)[i]) by {
            if i < d.len() {
                assert(dedup(s)[i] == d[i]);
                assert(s.drop_last().contains(d[i]));
                let k = choose|k: int| 0 <= k < s.drop_last().len() && s.drop_last()[k] == d[i];
                assert(s[k] == d[i]);
            } else {
                assert(dedup(s)[i] == s[s.len() - 1]);
            }
        }
    }
}

} // verus!
