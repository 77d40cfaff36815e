use search::result::SearchResult;
use search::scoring::{
    links_are_close, normalize_link, strip_link, ResultScorer, ScoringWeights,
};

fn result(title: &str, link: &str, snippet: &str) -> SearchResult {
    SearchResult::new(title.to_string(), link.to_string(), snippet.to_string(), "Test".to_string())
}

#[test]
fn score_folded_exact_value() {
    let scorer = ResultScorer::new();
    let s = scorer.score_folded("rust", "rust", "https://rust-lang.org", "rust", 0, 0, 17);
    assert_eq!(s, 271);
}

#[test]
fn score_folded_empty_everything() {
    let scorer = ResultScorer::new();
    assert_eq!(scorer.score_folded("", "", "", "", 0, 0, 0), 181);
}

#[test]
fn score_result_lowercases_before_comparing() {
    let scorer = ResultScorer::new();
    let r = result("Rust", "https://rust-lang.org", "RUST");
    assert_eq!(scorer.score_result(&r, "rust"), 271);
}

#[test]
fn score_result_transliterates_accents() {
    let scorer = ResultScorer::new();
    let accented = result("Café", "http://example.com", "x");
    let plain = result("cafe", "http://example.com", "x");
    let a = scorer.score_result(&accented, "café");
    let p = scorer.score_result(&plain, "cafe");
    assert_eq!(a, p);
    let upper = result("CAFÉ", "http://example.com", "x");
    assert_eq!(scorer.score_result(&upper, "cafe"), p);
}

#[test]
fn blocked_domain_scales_down() {
    let scorer = ResultScorer::new();
    let blocked = scorer.score_folded("t", "s", "https://medium.com", "q", 1, 1, 18);
    let other = scorer.score_folded("t", "s", "https://mediam.com", "q", 1, 1, 18);
    assert!(blocked < other);
}

#[test]
fn trusted_domain_adds_bonus() {
    let mut weights = ScoringWeights::standard();
    let with = ResultScorer::with_weights(weights.clone());
    weights.trusted_bonus = 0;
    let without = ResultScorer::with_weights(weights);
    let a = with.score_folded("t", "s", "https://docs.rs/x", "q", 1, 1, 17);
    let b = without.score_folded("t", "s", "https://docs.rs/x", "q", 1, 1, 17);
    assert_eq!(a, b + 30);
}

#[test]
fn keyword_adds_bonus() {
    let scorer = ResultScorer::new();
    let with = scorer.score_folded("a guide", "s", "l", "q", 7, 1, 1);
    let without = scorer.score_folded("a gxide", "s", "l", "q", 7, 1, 1);
    assert_eq!(with, without + 50);
}

#[test]
fn normalize_link_parses_and_strips() {
    assert_eq!(normalize_link("HTTPS://WWW.Example.COM/Path/"), "example.com/path");
    assert_eq!(normalize_link("https://doc.rust-lang.org/book/"), "doc.rust-lang.org/book");
    assert_eq!(normalize_link("not a url/"), "not a url");
}

#[test]
fn strip_link_removes_www_and_slashes() {
    assert_eq!(strip_link("www.x.com//"), "x.com");
    assert_eq!(strip_link("x.com"), "x.com");
    assert_eq!(strip_link("///"), "");
}

#[test]
fn links_close_threshold() {
    assert!(links_are_close("abcdefghijk", "abcdefghijx", 1));
    assert!(!links_are_close("abcdefghij", "abcdefghix", 1));
    assert!(links_are_close("same", "same", 0));
}

#[test]
fn duplicates_by_normalized_link_keep_first() {
    let a = result("A", "https://www.example.com/page/", "one");
    let b = result("B", "http://example.com/page", "two");
    let out = ResultScorer::remove_duplicates(vec![a, b]);
    assert_eq!(out.len(), 1);
    assert_eq!(out[0].title, "A");
}

#[test]
fn distinct_results_are_kept() {
    let a = result("A", "https://a.com/x", "one");
    let b = result("B", "https://b.org/y", "two");
    let out = ResultScorer::remove_duplicates(vec![a, b]);
    assert_eq!(out.len(), 2);
    assert_eq!(out[0].title, "A");
    assert_eq!(out[1].title, "B");
}

#[test]
fn duplicates_by_title_or_snippet() {
    let a = result("Same", "https://a.com/x", "one");
    let b = result("Same", "https://b.org/y", "two");
    let c = result("C", "https://c.net/z", "one");
    assert!(ResultScorer::is_duplicate(&b, &a));
    assert!(ResultScorer::is_duplicate(&c, &a));
    let out = ResultScorer::remove_duplicates(vec![a, b, c]);
    assert_eq!(out.len(), 1);
}

#[test]
fn near_identical_links_are_duplicates() {
    let a = result("A", "https://example.com/articles/12345", "one");
    let b = result("B", "https://example.com/articles/12346", "two");
    assert!(ResultScorer::is_duplicate(&b, &a));
}

#[test]
fn dedup_twice_equals_once() {
    let v = vec![
        result("A", "https://a.com/x", "one"),
        result("B", "https://www.a.com/x/", "two"),
        result("C", "https://c.org/long/path", "three"),
        result("A", "https://d.net/q", "four"),
        result("E", "https://e.io/", "five"),
    ];
    let once = ResultScorer::remove_duplicates(v);
    let titles: Vec<String> = once.iter().map(|r| r.title.clone()).collect();
    let twice = ResultScorer::remove_duplicates(once);
    let titles2: Vec<String> = twice.iter().map(|r| r.title.clone()).collect();
    assert_eq!(titles, vec!["A", "C", "E"]);
    assert_eq!(titles, titles2);
}

#[test]
fn dedup_of_empty_is_empty() {
    assert!(ResultScorer::remove_duplicates(Vec::new()).is_empty());
}
