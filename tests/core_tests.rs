use search::cache_key::{autocomplete_cache_key, decimal_string, search_cache_key};
use search::ranking::{chars_less, rank_before, sort_results};
use search::rate_limiter::{RateLimiter, TokenBucket};
use search::result::{AnswerData, QuickAnswer, SearchResult};
use search::text::{chars_of, contains_chars, split_words, trim_string};

fn scored(title: &str, link: &str, score: u64) -> SearchResult {
    let mut r = SearchResult::new(title.to_string(), link.to_string(), String::new(), "T".to_string());
    r.score = score;
    r
}

fn keys(v: &[SearchResult]) -> Vec<(u64, String, String)> {
    v.iter().map(|r| (r.score, r.title.clone(), r.link.clone())).collect()
}

#[test]
fn sort_by_score_then_title_then_link() {
    let v = vec![
        scored("b", "l1", 100),
        scored("a", "l2", 200),
        scored("a", "l1", 200),
        scored("c", "l0", 300),
        scored("B", "l9", 100),
    ];
    let out = sort_results(v);
    assert_eq!(
        keys(&out),
        vec![
            (300, "c".to_string(), "l0".to_string()),
            (200, "a".to_string(), "l1".to_string()),
            (200, "a".to_string(), "l2".to_string()),
            (100, "B".to_string(), "l9".to_string()),
            (100, "b".to_string(), "l1".to_string()),
        ]
    );
}

#[test]
fn sort_ignores_input_order() {
    let a = vec![scored("x", "1", 5), scored("y", "2", 5), scored("z", "3", 9), scored("w", "4", 0)];
    let b = vec![scored("w", "4", 0), scored("z", "3", 9), scored("y", "2", 5), scored("x", "1", 5)];
    assert_eq!(keys(&sort_results(a)), keys(&sort_results(b)));
}

#[test]
fn ties_broken_by_snippet() {
    let mut x = scored("t", "l", 7);
    x.snippet = "b".to_string();
    let mut y = scored("t", "l", 7);
    y.snippet = "a".to_string();
    let one = sort_results(vec![x.clone(), y.clone()]);
    let two = sort_results(vec![y, x]);
    let s1: Vec<String> = one.iter().map(|r| r.snippet.clone()).collect();
    let s2: Vec<String> = two.iter().map(|r| r.snippet.clone()).collect();
    assert_eq!(s1, vec!["a", "b"]);
    assert_eq!(s1, s2);
}

#[test]
fn sort_empty() {
    assert!(sort_results(Vec::new()).is_empty());
}

#[test]
fn lexical_order_by_code_point() {
    assert!(chars_less(&chars_of("ab"), &chars_of("abc")));
    assert!(!chars_less(&chars_of("abc"), &chars_of("ab")));
    assert!(chars_less(&chars_of("Z"), &chars_of("a")));
    assert!(!chars_less(&chars_of("same"), &chars_of("same")));
    assert!(chars_less(&chars_of("e"), &chars_of("é")));
    assert!(rank_before(&scored("z", "z", 2), &scored("a", "a", 1)));
}

#[test]
fn bucket_burst_then_refill() {
    let mut b = TokenBucket::new(5, 5, 1000);
    for _ in 0..5 {
        assert!(b.try_acquire(1000));
    }
    assert!(!b.try_acquire(1001));
    assert!(b.try_acquire(2001));
}

#[test]
fn bucket_refills_partially() {
    let mut b = TokenBucket::new(2, 4, 0);
    assert!(b.try_acquire(0));
    assert!(b.try_acquire(0));
    assert!(!b.try_acquire(249));
    assert!(b.try_acquire(250));
    assert_eq!(b.available_milli, 0);
}

#[test]
fn bucket_ignores_clock_going_back() {
    let mut b = TokenBucket::new(1, 1, 5000);
    assert!(b.try_acquire(5000));
    assert!(!b.try_acquire(10));
    assert_eq!(b.last_refill_ms, 5000);
}

#[test]
fn limiter_per_engine_and_fail_open() {
    let mut l = RateLimiter::new(0);
    for _ in 0..5 {
        assert!(l.check_rate_limit("Google", 0));
    }
    assert!(!l.check_rate_limit("Google", 1));
    assert!(l.check_rate_limit("DuckDuckGo", 1));
    for _ in 0..100 {
        assert!(l.check_rate_limit("Bing", 1));
    }
    assert!(l.check_rate_limit("Google", 1001));
}

#[test]
fn limiter_add_engine_replaces_bucket() {
    let mut l = RateLimiter::empty();
    l.add_engine("E", 1, 1, 0);
    assert!(l.check_rate_limit("E", 0));
    assert!(!l.check_rate_limit("E", 0));
    l.add_engine("E", 3, 1, 0);
    assert_eq!(l.names.len(), 1);
    assert!(l.check_rate_limit("E", 0));
}

#[test]
fn search_key_format() {
    assert_eq!(search_cache_key("rust", None, None, Some("fr"), None), "search:rust:1:None:Some(\"fr\"):None");
    assert_eq!(
        search_cache_key("a b", Some(3), Some("week"), None, Some("en")),
        "search:a b:3:Some(\"week\"):None:Some(\"en\")"
    );
    assert_eq!(search_cache_key("q", Some(0), Some("x\"y"), None, None), "search:q:0:Some(\"x\\\"y\"):None:None");
}

#[test]
fn autocomplete_key_format() {
    assert_eq!(autocomplete_cache_key("ru"), "autocomplete:ru");
}

#[test]
fn decimal_rendering() {
    assert_eq!(decimal_string(0), "0");
    assert_eq!(decimal_string(1234), "1234");
    assert_eq!(decimal_string(u64::MAX), u64::MAX.to_string());
}

#[test]
fn text_helpers() {
    assert!(contains_chars(&chars_of("hello world"), &chars_of("o w")));
    assert!(!contains_chars(&chars_of("hello"), &chars_of("hello!")));
    assert!(contains_chars(&chars_of("x"), &chars_of("")));
    let w = split_words(&chars_of("  rust \t ownership\n"));
    assert_eq!(w, vec![chars_of("rust"), chars_of("ownership")]);
    assert!(split_words(&chars_of("   ")).is_empty());
    assert_eq!(trim_string("\u{a0} a b \n"), "a b");
}

#[test]
fn quick_answer_definition() {
    let q = QuickAnswer::new_definition("term".to_string(), "meaning".to_string(), None);
    assert_eq!(q.answer_type, "definition");
    assert_eq!(q.source, "");
    match q.data {
        AnswerData::Definition(d) => {
            assert_eq!(d.term, "term");
            assert_eq!(d.definition, "meaning");
        }
    }
    let g = QuickAnswer::new_definition("t".to_string(), "d".to_string(), Some("Google".to_string()));
    assert_eq!(g.source, "Google");
}
