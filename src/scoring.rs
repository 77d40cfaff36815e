//! Relevance scoring and near-duplicate removal.
//!
//! Scores are computed in fixed point: intermediate values count
//! ten-thousandths of a point, and the final score is rounded to hundredths.

use vstd::prelude::*;
use vstd::arithmetic::div_mod::{lemma_div_is_ordered, lemma_div_multiples_vanish};
use crate::bindings::{
    ascii_fold_of, edit_distance_of, levenshtein, lower_of, lowercase, transliterate,
    url_host_and_path, url_parts_of,
};
use crate::result::SearchResult;
use crate::text::{
    chars_equal, chars_of, contains_chars, contains_seq, split_words, starts_with_chars,
    starts_with_seq, views, words,
};

verus! {

/// Ten-thousandths in one point.
pub const UNIT: u64 = 10000;

/// Largest percentage weight accepted.
pub const MAX_PCT: u64 = 1000;

/// Largest additive bonus accepted, in ten-thousandths of a point.
pub const MAX_BONUS: u64 = 1000000000;

/// The tunable constants of the scoring heuristic. Percentages weigh or scale
/// a value; bonuses are in ten-thousandths of a point; lengths count characters.
#[derive(Clone, Debug)]
pub struct ScoringWeights {
    pub fuzzy_pct: u64,
    pub exact_pct: u64,
    pub words_pct: u64,
    pub title_pct: u64,
    pub snippet_pct: u64,
    pub link_pct: u64,
    pub https_bonus: u64,
    pub min_snippet_len: u64,
    pub max_snippet_len: u64,
    pub length_penalty_pct: u64,
    pub blocked_domains: Vec<String>,
    pub blocked_penalty_pct: u64,
    pub trusted_domains: Vec<String>,
    pub trusted_bonus: u64,
    pub title_match_bonus: u64,
    pub snippet_match_bonus: u64,
    pub keywords: Vec<String>,
    pub keyword_bonus: u64,
}

/// The contents of a sequence of strings.
pub open spec fn string_views(v: Seq<String>) -> Seq<Seq<char>> {
    v.map_values(|s: String| s@)
}

impl ScoringWeights {
    /// Weights and bonuses small enough that no step of the score overflows.
    pub open spec fn wf(&self) -> bool {
        &&& self.fuzzy_pct <= MAX_PCT
        &&& self.exact_pct <= MAX_PCT
        &&& self.words_pct <= MAX_PCT
        &&& self.title_pct <= MAX_PCT
        &&& self.snippet_pct <= MAX_PCT
        &&& self.link_pct <= MAX_PCT
        &&& self.length_penalty_pct <= MAX_PCT
        &&& self.blocked_penalty_pct <= MAX_PCT
        &&& self.https_bonus <= MAX_BONUS
        &&& self.trusted_bonus <= MAX_BONUS
        &&& self.title_match_bonus <= MAX_BONUS
        &&& self.snippet_match_bonus <= MAX_BONUS
        &&& self.keyword_bonus <= MAX_BONUS
    }
}

/// Normalized edit-distance similarity of two texts of lengths `la` and `lb`
/// at distance `d`, in ten-thousandths: one for two empty texts, else
/// `1 - d / max(la, lb)`, floored at zero.
pub open spec fn similarity(d: nat, la: nat, lb: nat) -> nat {
    let m = if la >= lb { la } else { lb };
    if m == 0 {
        UNIT as nat
    } else if d >= m {
        0
    } else {
        (((m - d) as int * UNIT as int) / (m as int)) as nat
    }
}

/// How many of `ws` occur in `text`.
pub open spec fn count_found(text: Seq<char>, ws: Seq<Seq<char>>) -> nat
    decreases ws.len(),
{
    if ws.len() == 0 {
        0
    } else {
        count_found(text, ws.drop_last()) + if contains_seq(text, ws.last()) {
            1nat
        } else {
            0nat
        }
    }
}

/// The share of the query's words that occur in `text`, in ten-thousandths;
/// zero for a query without words.
pub open spec fn word_ratio(text: Seq<char>, q: Seq<char>) -> nat {
    let ws = words(q);
    if ws.len() == 0 {
        0
    } else {
        ((count_found(text, ws) as int * UNIT as int) / (ws.len() as int)) as nat
    }
}

/// Text relevance of `text` against `q`, in ten-thousandths, where `d` is
/// their edit distance: a weighted blend of similarity, an exact-substring
/// indicator and the share of query words found.
pub open spec fn relevance(w: ScoringWeights, text: Seq<char>, q: Seq<char>, d: nat) -> nat {
    ((w.fuzzy_pct * similarity(d, text.len(), q.len()) + w.exact_pct * (if contains_seq(
        text,
        q,
    ) {
        UNIT as nat
    } else {
        0nat
    }) + w.words_pct * word_ratio(text, q)) / 100) as nat
}

/// Some string of `list` occurs in `text`.
pub open spec fn any_found(text: Seq<char>, list: Seq<String>) -> bool {
    exists|i: int| 0 <= i < list.len() && contains_seq(text, #[trigger] list[i]@)
}

/// `"https"`.
pub open spec fn https_seq() -> Seq<char> {
    seq!['h', 't', 't', 'p', 's']
}

/// The score, in hundredths, of a result whose normalized title, snippet and
/// link are `t`, `s` and `l`, against the normalized query `q`, where `dt`,
/// `ds` and `dl` are the edit distances of each to `q`.
pub open spec fn score_of(
    w: ScoringWeights,
    t: Seq<char>,
    s: Seq<char>,
    l: Seq<char>,
    q: Seq<char>,
    dt: nat,
    ds: nat,
    dl: nat,
) -> nat {
    let base = (w.title_pct * relevance(w, t, q, dt) + w.snippet_pct * relevance(w, s, q, ds)
        + w.link_pct * relevance(w, l, q, dl)) / 100;
    let s1 = if starts_with_seq(l, https_seq()) {
        base + w.https_bonus
    } else {
        base
    };
    let s2 = if s.len() < w.min_snippet_len || s.len() > w.max_snippet_len {
        s1 * w.length_penalty_pct / 100
    } else {
        s1
    };
    let s3 = if any_found(l, w.blocked_domains@) {
        s2 * w.blocked_penalty_pct / 100
    } else {
        s2
    };
    let s4 = if any_found(l, w.trusted_domains@) {
        s3 + w.trusted_bonus
    } else {
        s3
    };
    let s5 = if t == q {
        s4 + w.title_match_bonus
    } else {
        s4
    };
    let s6 = if s == q {
        s5 + w.snippet_match_bonus
    } else {
        s5
    };
    let s7 = if any_found(t, w.keywords@) || any_found(s, w.keywords@) || any_found(
        l,
        w.keywords@,
    ) {
        s6 + w.keyword_bonus
    } else {
        s6
    };
    ((s7 + 50) / 100) as nat
}

/// A text as the scorer compares it: lower-cased, then transliterated to ASCII.
pub open spec fn folded(s: Seq<char>) -> Seq<char> {
    ascii_fold_of(lower_of(s))
}

/// The score of `r` against the query `q`, in hundredths.
pub open spec fn result_score(w: ScoringWeights, r: SearchResult, q: Seq<char>) -> nat {
    let t = folded(r.title@);
    let s = folded(r.snippet@);
    let l = folded(r.link@);
    let fq = folded(q);
    score_of(w, t, s, l, fq, edit_distance_of(t, fq), edit_distance_of(s, fq), edit_distance_of(l, fq))
}

/// Domains whose results are scaled down by default.
pub open spec fn standard_blocked_domains() -> Seq<Seq<char>> {
    seq![
        "bfmtv.com"@,
        "60millions-mag.com"@,
        "bbc.com"@,
        "jeuxvideo.com"@,
        "linternaute.fr"@,
        "lefigaro.fr"@,
        "leparisien.fr"@,
        "lequipe.fr"@,
        "ladepeche.fr"@,
        "lepoint.fr"@,
        "lejdd.fr"@,
        "lesechos.fr"@,
        "liberation.fr"@,
        "lci.fr"@,
        "lemondedutabac.com"@,
        "16personalities.com"@,
        "freecodecamp.org"@,
        "dev.to"@,
        "medium.com"@,
        "w3schools.com"@,
    ]
}

/// Authoritative domains whose results get a bonus by default.
pub open spec fn standard_trusted_domains() -> Seq<Seq<char>> {
    seq![
        "github.com"@,
        "docs.rs"@,
        "react.dev"@,
        "wikipedia.org"@,
        "stackoverflow.com"@,
        "youtube.com"@,
        "reddit.com"@,
        "wordpress.com"@,
        "gitlab.com"@,
        "bitbucket.org"@,
        "sourceforge.net"@,
        "crates.io"@,
        "npmjs.com"@,
        "rust-lang.org"@,
        "mozilla.org"@,
        "developer.mozilla.org"@,
        "developer.android.com"@,
        "developer.apple.com"@,
        "developer.microsoft.com"@,
        "developer.chrome.com"@,
        "dictionnaire.lerobert.com"@,
        "gouv.fr"@,
        "openclassrooms.com"@,
        "larousse.fr"@,
        "cnrtl.fr"@,
    ]
}

/// Words of informational intent that earn a bonus by default.
pub open spec fn standard_keywords() -> Seq<Seq<char>> {
    seq![
        "definition"@,
        "meaning"@,
        "signification"@,
        "sens"@,
        "tuto"@,
        "tutorial"@,
        "guide"@,
        "cours"@,
        "explanation"@,
        "explication"@,
        "significations"@,
        "tutoriel"@,
        "guides"@,
        "explications"@,
        "wikipedia"@,
        "wiki"@,
        "dictionnaire"@,
        "dictionary"@,
        "docs"@,
        "documentation"@,
    ]
}

/// The reference configuration of the heuristic.
pub open spec fn is_standard(w: ScoringWeights) -> bool {
    &&& w.fuzzy_pct == 30
    &&& w.exact_pct == 40
    &&& w.words_pct == 30
    &&& w.title_pct == 50
    &&& w.snippet_pct == 30
    &&& w.link_pct == 20
    &&& w.https_bonus == 5000
    &&& w.min_snippet_len == 50
    &&& w.max_snippet_len == 150
    &&& w.length_penalty_pct == 80
    &&& string_views(w.blocked_domains@) == standard_blocked_domains()
    &&& w.blocked_penalty_pct == 25
    &&& string_views(w.trusted_domains@) == standard_trusted_domains()
    &&& w.trusted_bonus == 3000
    &&& w.title_match_bonus == 5000
    &&& w.snippet_match_bonus == 7500
    &&& string_views(w.keywords@) == standard_keywords()
    &&& w.keyword_bonus == 5000
}

fn push_str(v: &mut Vec<String>, s: &str)
    ensures
        string_views(final(v)@) == string_views(old(v)@).push(s@),
{
    v.push(String::from_str(s));
    assert(string_views(v@) =~= string_views(old(v)@).push(s@));
}

fn blocked_list() -> (r: Vec<String>)
    ensures
        string_views(r@) == standard_blocked_domains(),
{
    let mut v: Vec<String> = Vec::new();
    push_str(&mut v, "bfmtv.com");
    push_str(&mut v, "60millions-mag.com");
    push_str(&mut v, "bbc.com");
    push_str(&mut v, "jeuxvideo.com");
    push_str(&mut v, "linternaute.fr");
    push_str(&mut v, "lefigaro.fr");
    push_str(&mut v, "leparisien.fr");
    push_str(&mut v, "lequipe.fr");
    push_str(&mut v, "ladepeche.fr");
    push_str(&mut v, "lepoint.fr");
    push_str(&mut v, "lejdd.fr");
    push_str(&mut v, "lesechos.fr");
    push_str(&mut v, "liberation.fr");
    push_str(&mut v, "lci.fr");
    push_str(&mut v, "lemondedutabac.com");
    push_str(&mut v, "16personalities.com");
    push_str(&mut v, "freecodecamp.org");
    push_str(&mut v, "dev.to");
    push_str(&mut v, "medium.com");
    push_str(&mut v, "w3schools.com");
    assert(string_views(v@) =~= standard_blocked_domains());
    v
}

fn trusted_list() -> (r: Vec<String>)
    ensures
        string_views(r@) == standard_trusted_domains(),
{
    let mut v: Vec<String> = Vec::new();
    push_str(&mut v, "github.com");
    push_str(&mut v, "docs.rs");
    push_str(&mut v, "react.dev");
    push_str(&mut v, "wikipedia.org");
    push_str(&mut v, "stackoverflow.com");
    push_str(&mut v, "youtube.com");
    push_str(&mut v, "reddit.com");
    push_str(&mut v, "wordpress.com");
    push_str(&mut v, "gitlab.com");
    push_str(&mut v, "bitbucket.org");
    push_str(&mut v, "sourceforge.net");
    push_str(&mut v, "crates.io");
    push_str(&mut v, "npmjs.com");
    push_str(&mut v, "rust-lang.org");
    push_str(&mut v, "mozilla.org");
    push_str(&mut v, "developer.mozilla.org");
    push_str(&mut v, "developer.android.com");
    push_str(&mut v, "developer.apple.com");
    push_str(&mut v, "developer.microsoft.com");
    push_str(&mut v, "developer.chrome.com");
    push_str(&mut v, "dictionnaire.lerobert.com");
    push_str(&mut v, "gouv.fr");
    push_str(&mut v, "openclassrooms.com");
    push_str(&mut v, "larousse.fr");
    push_str(&mut v, "cnrtl.fr");
    assert(string_views(v@) =~= standard_trusted_domains());
    v
}

fn keyword_list() -> (r: Vec<String>)
    ensures
        string_views(r@) == standard_keywords(),
{
    let mut v: Vec<String> = Vec::new();
    push_str(&mut v, "definition");
    push_str(&mut v, "meaning");
    push_str(&mut v, "signification");
    push_str(&mut v, "sens");
    push_str(&mut v, "tuto");
    push_str(&mut v, "tutorial");
    push_str(&mut v, "guide");
    push_str(&mut v, "cours");
    push_str(&mut v, "explanation");
    push_str(&mut v, "explication");
    push_str(&mut v, "significations");
    push_str(&mut v, "tutoriel");
    push_str(&mut v, "guides");
    push_str(&mut v, "explications");
    push_str(&mut v, "wikipedia");
    push_str(&mut v, "wiki");
    push_str(&mut v, "dictionnaire");
    push_str(&mut v, "dictionary");
    push_str(&mut v, "docs");
    push_str(&mut v, "documentation");
    assert(string_views(v@) =~= standard_keywords());
    v
}

impl ScoringWeights {
    /// The reference configuration.
    pub fn standard() -> (r: ScoringWeights)
        ensures
            is_standard(r),
            r.wf(),
    {
        ScoringWeights {
            fuzzy_pct: 30,
            exact_pct: 40,
            words_pct: 30,
            title_pct: 50,
            snippet_pct: 30,
            link_pct: 20,
            https_bonus: 5000,
            min_snippet_len: 50,
            max_snippet_len: 150,
            length_penalty_pct: 80,
            blocked_domains: blocked_list(),
            blocked_penalty_pct: 25,
            trusted_domains: trusted_list(),
            trusted_bonus: 3000,
            title_match_bonus: 5000,
            snippet_match_bonus: 7500,
            keywords: keyword_list(),
            keyword_bonus: 5000,
        }
    }
}


/// `"www."`.
pub open spec fn www_seq() -> Seq<char> {
    seq!['w', 'w', 'w', '.']
}

/// The host followed by the path of a link that parses as a URL; else the
/// link as written.
pub open spec fn link_base(link: Seq<char>) -> Seq<char> {
    match url_parts_of(link) {
        Some(p) => match p.0 {
            Some(h) => h + p.1,
            None => p.1,
        },
        None => link,
    }
}

/// `s` without a leading `"www."`.
pub open spec fn strip_www(s: Seq<char>) -> Seq<char> {
    if starts_with_seq(s, www_seq()) {
        s.subrange(4, s.len() as int)
    } else {
        s
    }
}

/// `s` without its trailing slashes.
pub open spec fn trim_slashes(s: Seq<char>) -> Seq<char>
    decreases s.len(),
{
    if s.len() > 0 && s.last() == '/' {
        trim_slashes(s.drop_last())
    } else {
        s
    }
}

/// The form in which links are compared for duplicates: host and path,
/// lower-cased, without a leading `"www."` or trailing slashes.
pub open spec fn normalized_link(link: Seq<char>) -> Seq<char> {
    trim_slashes(strip_www(lower_of(link_base(link))))
}

/// Two normalized links are close when equal, or when their normalized
/// edit-distance similarity exceeds nine tenths: `10 * d < max(len)`.
pub open spec fn links_close(na: Seq<char>, nb: Seq<char>, d: nat) -> bool {
    let m = if na.len() >= nb.len() { na.len() } else { nb.len() };
    na == nb || 10 * d < m
}

/// `a` repeats `b`: close links, or the same title, or the same snippet.
pub open spec fn near_duplicate(a: SearchResult, b: SearchResult) -> bool {
    let na = normalized_link(a.link@);
    let nb = normalized_link(b.link@);
    links_close(na, nb, edit_distance_of(na, nb)) || a.title@ == b.title@ || a.snippet@
        == b.snippet@
}

/// `r` repeats some result of `kept`.
pub open spec fn repeats_any(r: SearchResult, kept: Seq<SearchResult>) -> bool {
    exists|i: int| 0 <= i < kept.len() && near_duplicate(r, #[trigger] kept[i])
}

/// One pass, first seen wins: each result is kept unless it repeats one
/// already kept.
pub open spec fn dedup(s: Seq<SearchResult>) -> Seq<SearchResult>
    decreases s.len(),
{
    if s.len() == 0 {
        Seq::empty()
    } else {
        let d = dedup(s.drop_last());
        if repeats_any(s.last(), d) {
            d
        } else {
            d.push(s.last())
        }
    }
}

/// No result of `s` repeats an earlier one.
pub open spec fn free_of_repeats(s: Seq<SearchResult>) -> bool {
    forall|i: int, j: int| 0 <= i < j < s.len() ==> !near_duplicate(s[j], s[i])
}

/// The result at `i` survives the pass over `s`.
pub open spec fn kept_at(s: Seq<SearchResult>, i: int) -> bool {
    !repeats_any(s[i], dedup(s.take(i)))
}

/// No result the pass keeps repeats one kept before it.
pub proof fn dedup_free_of_repeats(s: Seq<SearchResult>)
    ensures
        free_of_repeats(dedup(s)),
{
    lemma_dedup_free(s);
}

proof fn lemma_dedup_free(s: Seq<SearchResult>)
    ensures
        free_of_repeats(dedup(s)),
    decreases s.len(),
{
    if s.len() > 0 {
        lemma_dedup_free(s.drop_last());
        let d = dedup(s.drop_last());
        if !repeats_any(s.last(), d) {
            let e = d.push(s.last());
            assert forall|i: int, j: int| 0 <= i < j < e.len() implies !near_duplicate(
                e[j],
                e[i],
            ) by {
                if j == d.len() {
                    if near_duplicate(e[j], e[i]) {
                        assert(near_duplicate(s.last(), d[i]));
                    }
                }
            }
        }
    }
}

/// A sequence in which no result repeats an earlier one passes unchanged.
pub proof fn dedup_keeps_all(s: Seq<SearchResult>)
    requires
        free_of_repeats(s),
    ensures
        dedup(s) == s,
    decreases s.len(),
{
    if s.len() > 0 {
        let p = s.drop_last();
        assert(free_of_repeats(p)) by {
            assert forall|i: int, j: int| 0 <= i < j < p.len() implies !near_duplicate(
                p[j],
                p[i],
            ) by {
                assert(p[j] == s[j] && p[i] == s[i]);
            }
        }
        dedup_keeps_all(p);
        if repeats_any(s.last(), p) {
            let i = choose|i: int| 0 <= i < p.len() && near_duplicate(s.last(), #[trigger] p[i]);
            assert(s[i] == p[i]);
            assert(false);
        }
        assert(p.push(s.last()) =~= s);
    }
}

/// Removing repeats twice gives what removing them once gives.
pub proof fn dedup_idempotent(s: Seq<SearchResult>)
    ensures
        dedup(dedup(s)) == dedup(s),
{
    lemma_dedup_free(s);
    dedup_keeps_all(dedup(s));
}

proof fn lemma_dedup_grows(s: Seq<SearchResult>, i: int, j: int)
    requires
        0 <= i <= j <= s.len(),
    ensures
        dedup(s.take(i)).len() <= dedup(s.take(j)).len(),
        forall|k: int|
            0 <= k < dedup(s.take(i)).len() ==> #[trigger] dedup(s.take(j))[k] == dedup(
                s.take(i),
            )[k],
    decreases j - i,
{
    if i < j {
        lemma_dedup_grows(s, i, j - 1);
        assert(s.take(j).drop_last() =~= s.take(j - 1));
    }
}

/// Of two results whose links normalize alike, the later one never survives
/// once the earlier one has: first seen wins.
pub proof fn dedup_first_link_wins(s: Seq<SearchResult>, i: int, j: int)
    requires
        0 <= i < j < s.len(),
        normalized_link(s[i].link@) == normalized_link(s[j].link@),
        kept_at(s, i),
    ensures
        !kept_at(s, j),
{
    let di = dedup(s.take(i));
    assert(s.take(i + 1).drop_last() =~= s.take(i));
    assert(s.take(i + 1).last() == s[i]);
    assert(dedup(s.take(i + 1)) == di.push(s[i]));
    lemma_dedup_grows(s, i + 1, j);
    let dj = dedup(s.take(j));
    assert(dj[di.len() as int] == s[i]);
    assert(near_duplicate(s[j], dj[di.len() as int]));
}

/// Of two results whose links normalize alike, the pass keeps the first
/// alone.
pub proof fn dedup_pair_keeps_first(a: SearchResult, b: SearchResult)
    requires
        normalized_link(a.link@) == normalized_link(b.link@),
    ensures
        dedup(seq![a, b]) == seq![a],
{
    let s = seq![a, b];
    assert(s.drop_last() =~= seq![a]);
    assert(seq![a].drop_last() =~= Seq::<SearchResult>::empty());
    assert(dedup(Seq::<SearchResult>::empty()) == Seq::<SearchResult>::empty());
    assert(!repeats_any(a, Seq::<SearchResult>::empty()));
    assert(dedup(seq![a]) =~= seq![a]);
    assert(near_duplicate(b, seq![a][0]));
    assert(repeats_any(b, seq![a]));
}

/// The pass over a sequence is the pass over its prefix, extended by the last
/// result unless it repeats one kept.
proof fn lemma_dedup_step(s: Seq<SearchResult>, i: int)
    requires
        0 <= i < s.len(),
    ensures
        dedup(s.take(i + 1)) == if repeats_any(s[i], dedup(s.take(i))) {
            dedup(s.take(i))
        } else {
            dedup(s.take(i)).push(s[i])
        },
{
    assert(s.take(i + 1).drop_last() =~= s.take(i));
    assert(s.take(i + 1).last() == s[i]);
}

proof fn lemma_count_found_le(text: Seq<char>, ws: Seq<Seq<char>>)
    ensures
        count_found(text, ws) <= ws.len(),
    decreases ws.len(),
{
    if ws.len() > 0 {
        lemma_count_found_le(text, ws.drop_last());
    }
}

proof fn lemma_scaled_share(x: nat, m: nat)
    requires
        x <= m,
        0 < m,
    ensures
        (x as int * UNIT as int) / (m as int) <= UNIT as int,
{
    assert(x as int * UNIT as int <= m as int * UNIT as int) by (nonlinear_arith)
        requires x <= m;
    lemma_div_is_ordered(x as int * UNIT as int, m as int * UNIT as int, m as int);
    lemma_div_multiples_vanish(UNIT as int, m as int);
}

/// Lower-cases `s`, then transliterates it to ASCII.
pub fn fold_text(s: &str) -> (r: String)
    ensures
        r@ == folded(s@),
{
    let lower = lowercase(s);
    transliterate(lower.as_str())
}

/// Normalized similarity in ten-thousandths, as `similarity` states it.
pub fn similarity_of(d: usize, la: usize, lb: usize) -> (r: u64)
    ensures
        r as nat == similarity(d as nat, la as nat, lb as nat),
        r <= UNIT,
{
    let m: usize = if la >= lb { la } else { lb };
    if m == 0 {
        UNIT
    } else if d >= m {
        0
    } else {
        proof {
            lemma_scaled_share((m - d) as nat, m as nat);
        }
        let x: u128 = ((m - d) as u128) * (UNIT as u128) / (m as u128);
        x as u64
    }
}

/// How many of `ws` occur in `text`.
fn count_found_in(text: &Vec<char>, ws: &Vec<Vec<char>>) -> (r: u64)
    ensures
        r as nat == count_found(text@, views(ws@)),
{
    let mut n: u64 = 0;
    let mut i: usize = 0;
    while i < ws.len()
        invariant
            i <= ws@.len(),
            n as nat == count_found(text@, views(ws@.subrange(0, i as int))),
            n <= i,
        decreases ws@.len() - i,
    {
        let found = contains_chars(text, &ws[i]);
        proof {
            let a = views(ws@.subrange(0, i + 1));
            assert(a.drop_last() =~= views(ws@.subrange(0, i as int)));
            assert(a.last() == ws@[i as int]@);
        }
        if found {
            n = n + 1;
        }
        i = i + 1;
    }
    assert(ws@.subrange(0, i as int) =~= ws@);
    n
}

/// Whether some string of `list` occurs in `text`.
fn any_found_in(text: &Vec<char>, list: &Vec<String>) -> (r: bool)
    ensures
        r == any_found(text@, list@),
{
    let mut i: usize = 0;
    while i < list.len()
        invariant
            i <= list@.len(),
            forall|k: int| 0 <= k < i ==> !contains_seq(text@, #[trigger] list@[k]@),
        decreases list@.len() - i,
    {
        let pat = chars_of(list[i].as_str());
        if contains_chars(text, &pat) {
            return true;
        }
        i = i + 1;
    }
    false
}


/// A lower-cased link base without a leading `"www."` or trailing slashes.
pub fn strip_link(lowered: &str) -> (r: String)
    ensures
        r@ == trim_slashes(strip_www(lowered@)),
{
    let c = chars_of(lowered);
    let www = chars_of("www.");
    proof {
        reveal_strlit("www.");
        assert(www@ =~= www_seq());
    }
    let start: usize = if starts_with_chars(&c, &www) { 4 } else { 0 };
    let ghost stripped = strip_www(c@);
    assert(stripped =~= c@.subrange(start as int, c@.len() as int));
    let mut end: usize = c.len();
    while end > start && c[end - 1] == '/'
        invariant
            start <= end <= c@.len(),
            c@ == lowered@,
            stripped == c@.subrange(start as int, c@.len() as int),
            trim_slashes(c@.subrange(start as int, end as int)) == trim_slashes(stripped),
        decreases end,
    {
        assert(c@.subrange(start as int, end as int).drop_last() =~= c@.subrange(
            start as int,
            end - 1,
        ));
        end = end - 1;
    }
    let piece = lowered.substring_char(start, end);
    String::from_str(piece)
}

/// Whether two normalized links are close, given their edit distance.
pub fn links_are_close(na: &str, nb: &str, d: usize) -> (r: bool)
    ensures
        r == links_close(na@, nb@, d as nat),
{
    let a = chars_of(na);
    let b = chars_of(nb);
    let m: usize = if a.len() >= b.len() { a.len() } else { b.len() };
    if chars_equal(&a, &b) {
        return true;
    }
    (d as u128) * 10 < m as u128
}

/// The form in which `link` is compared for duplicates.
pub fn normalize_link(link: &str) -> (r: String)
    ensures
        r@ == normalized_link(link@),
{
    let base = match url_host_and_path(link) {
        Some(parts) => match parts.0 {
            Some(h) => h.concat(parts.1.as_str()),
            None => parts.1,
        },
        None => String::from_str(link),
    };
    let lowered = lowercase(base.as_str());
    strip_link(lowered.as_str())
}

/// The scorer: the heuristic's constants and the operations that use them.
#[derive(Clone, Debug)]
pub struct ResultScorer {
    pub weights: ScoringWeights,
}

impl ResultScorer {
    /// A scorer with the reference configuration.
    pub fn new() -> (r: ResultScorer)
        ensures
            is_standard(r.weights),
            r.weights.wf(),
    {
        ResultScorer { weights: ScoringWeights::standard() }
    }

    /// A scorer with the given configuration.
    pub fn with_weights(weights: ScoringWeights) -> (r: ResultScorer)
        ensures
            r.weights == weights,
    {
        ResultScorer { weights }
    }

    /// Relevance of `text` against the query `q` (split into `qw`), at edit
    /// distance `d`, in ten-thousandths.
    fn calculate_text_relevance(
        &self,
        text: &Vec<char>,
        q: &Vec<char>,
        qw: &Vec<Vec<char>>,
        d: usize,
    ) -> (r: u64)
        requires
            self.weights.wf(),
            views(qw@) == words(q@),
        ensures
            r as nat == relevance(self.weights, text@, q@, d as nat),
            r <= 3 * MAX_PCT * UNIT / 100,
    {
        let w = &self.weights;
        let sim = similarity_of(d, text.len(), q.len());
        let exact: u64 = if contains_chars(text, q) { UNIT } else { 0 };
        let found = count_found_in(text, qw);
        let nw = qw.len();
        let ratio: u64 = if nw == 0 {
            0
        } else {
            proof {
                lemma_count_found_le(text@, views(qw@));
                lemma_scaled_share(found as nat, nw as nat);
            }
            (found as u128 * UNIT as u128 / nw as u128) as u64
        };
        assert(w.fuzzy_pct * sim <= MAX_PCT * UNIT) by (nonlinear_arith)
            requires w.fuzzy_pct <= MAX_PCT, sim <= UNIT;
        assert(w.exact_pct * exact <= MAX_PCT * UNIT) by (nonlinear_arith)
            requires w.exact_pct <= MAX_PCT, exact <= UNIT;
        assert(w.words_pct * ratio <= MAX_PCT * UNIT) by (nonlinear_arith)
            requires w.words_pct <= MAX_PCT, ratio <= UNIT;
        (w.fuzzy_pct * sim + w.exact_pct * exact + w.words_pct * ratio) / 100
    }

    /// The score, in hundredths, of a result whose title, snippet and link are
    /// already normalized, against the normalized `query`, given the edit
    /// distance of each field to the query.
    pub fn score_folded(
        &self,
        title: &str,
        snippet: &str,
        link: &str,
        query: &str,
        d_title: usize,
        d_snippet: usize,
        d_link: usize,
    ) -> (r: u64)
        requires
            self.weights.wf(),
        ensures
            r as nat == score_of(
                self.weights,
                title@,
                snippet@,
                link@,
                query@,
                d_title as nat,
                d_snippet as nat,
                d_link as nat,
            ),
    {
        let w = &self.weights;
        let t = chars_of(title);
        let s = chars_of(snippet);
        let l = chars_of(link);
        let q = chars_of(query);
        let qw = split_words(&q);
        let rt = self.calculate_text_relevance(&t, &q, &qw, d_title);
        let rs = self.calculate_text_relevance(&s, &q, &qw, d_snippet);
        let rl = self.calculate_text_relevance(&l, &q, &qw, d_link);
        let cap: u64 = 3 * MAX_PCT * UNIT / 100;
        assert(w.title_pct * rt <= MAX_PCT * cap) by (nonlinear_arith)
            requires w.title_pct <= MAX_PCT, rt <= cap;
        assert(w.snippet_pct * rs <= MAX_PCT * cap) by (nonlinear_arith)
            requires w.snippet_pct <= MAX_PCT, rs <= cap;
        assert(w.link_pct * rl <= MAX_PCT * cap) by (nonlinear_arith)
            requires w.link_pct <= MAX_PCT, rl <= cap;
        let base: u64 = (w.title_pct * rt + w.snippet_pct * rs + w.link_pct * rl) / 100;
        let https = chars_of("https");
        proof {
            reveal_strlit("https");
            assert(https@ =~= https_seq());
        }
        let s1: u64 = if starts_with_chars(&l, &https) { base + w.https_bonus } else { base };
        assert(s1 <= 100000000 + MAX_BONUS);
        let sl = s.len() as u64;
        let s2: u64 = if sl < w.min_snippet_len || sl > w.max_snippet_len {
            assert(s1 * w.length_penalty_pct <= (100000000 + MAX_BONUS) * MAX_PCT) by (nonlinear_arith)
                requires s1 <= 100000000 + MAX_BONUS, w.length_penalty_pct <= MAX_PCT;
            s1 * w.length_penalty_pct / 100
        } else {
            s1
        };
        assert(s2 <= 10 * (100000000 + MAX_BONUS));
        let s3: u64 = if any_found_in(&l, &w.blocked_domains) {
            assert(s2 * w.blocked_penalty_pct <= 10 * (100000000 + MAX_BONUS) * MAX_PCT) by (nonlinear_arith)
                requires s2 <= 10 * (100000000 + MAX_BONUS), w.blocked_penalty_pct <= MAX_PCT;
            s2 * w.blocked_penalty_pct / 100
        } else {
            s2
        };
        assert(s3 <= 100 * (100000000 + MAX_BONUS));
        let s4: u64 = if any_found_in(&l, &w.trusted_domains) { s3 + w.trusted_bonus } else { s3 };
        let s5: u64 = if chars_equal(&t, &q) { s4 + w.title_match_bonus } else { s4 };
        let s6: u64 = if chars_equal(&s, &q) { s5 + w.snippet_match_bonus } else { s5 };
        let kw = any_found_in(&t, &w.keywords) || any_found_in(&s, &w.keywords) || any_found_in(
            &l,
            &w.keywords,
        );
        let s7: u64 = if kw { s6 + w.keyword_bonus } else { s6 };
        (s7 + 50) / 100
    }

    /// Whether `a` repeats `b`: their links normalize to close forms, or
    /// they share a title or a snippet.
    pub fn is_duplicate(a: &SearchResult, b: &SearchResult) -> (r: bool)
        ensures
            r == near_duplicate(*a, *b),
    {
        if a.title == b.title || a.snippet == b.snippet {
            return true;
        }
        let na = normalize_link(a.link.as_str());
        let nb = normalize_link(b.link.as_str());
        let d = levenshtein(na.as_str(), nb.as_str());
        links_are_close(na.as_str(), nb.as_str(), d)
    }

    /// Single pass, first seen wins: keeps each result that repeats none of
    /// those kept before it.
    pub fn remove_duplicates(results: Vec<SearchResult>) -> (r: Vec<SearchResult>)
        ensures
            r@ == dedup(results@),
    {
        let ghost orig = results@;
        let mut rest = results;
        let mut kept: Vec<SearchResult> = Vec::new();
        let n = rest.len();
        let mut i: usize = 0;
        assert(orig.take(0) =~= Seq::<SearchResult>::empty());
        assert(orig.skip(0) =~= orig);
        while i < n
            invariant
                n == orig.len(),
                i <= n,
                rest@ == orig.skip(i as int),
                kept@ == dedup(orig.take(i as int)),
            decreases n - i,
        {
            let r = rest.remove(0);
            assert(r == orig[i as int]);
            assert(rest@ =~= orig.skip(i + 1));
            let mut seen = false;
            let mut j: usize = 0;
            while j < kept.len()
                invariant
                    j <= kept@.len(),
                    seen == exists|k: int| 0 <= k < j && near_duplicate(r, #[trigger] kept@[k]),
                decreases kept@.len() - j,
            {
                if Self::is_duplicate(&r, &kept[j]) {
                    seen = true;
                }
                j = j + 1;
            }
            proof {
                lemma_dedup_step(orig, i as int);
            }
            if !seen {
                kept.push(r);
            }
            i = i + 1;
        }
        assert(orig.take(n as int) =~= orig);
        kept
    }

    /// The score of `result` against `query`, in hundredths. Title, snippet,
    /// link and query are compared after lower-casing and transliteration.
    pub fn score_result(&self, result: &SearchResult, query: &str) -> (r: u64)
        requires
            self.weights.wf(),
        ensures
            r as nat == result_score(self.weights, *result, query@),
    {
        let q = fold_text(query);
        let t = fold_text(result.title.as_str());
        let s = fold_text(result.snippet.as_str());
        let l = fold_text(result.link.as_str());
        let dt = levenshtein(t.as_str(), q.as_str());
        let ds = levenshtein(s.as_str(), q.as_str());
        let dl = levenshtein(l.as_str(), q.as_str());
        self.score_folded(t.as_str(), s.as_str(), l.as_str(), q.as_str(), dt, ds, dl)
    }
}

} // verus!
