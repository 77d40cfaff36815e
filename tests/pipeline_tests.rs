use search::autocomplete::{autocomplete_url, extract_suggestions, suggestion_lines};
use search::engines::{
    address_breadcrumbs, favicon_for_domain, favicon_for_link, path_breadcrumbs,
    shown_address_link, DuckDuckGoScraper, GoogleScraper,
};
use search::error::SearchError;
use search::metrics::SearchMetrics;
use search::orchestrator::{
    admit_engines, complete_search, engine_contribution, gather, on_cache_lookup, rank_results,
    CacheDecision,
};
use search::rate_limiter::RateLimiter;
use search::result::SearchResult;
use search::scoring::{normalize_link, ResultScorer, ScoringWeights};

fn result(title: &str, link: &str, snippet: &str) -> SearchResult {
    SearchResult::new(title.to_string(), link.to_string(), snippet.to_string(), "Test".to_string())
}

fn crumbs(v: &[search::result::Breadcrumb]) -> Vec<(String, String)> {
    v.iter().map(|b| (b.text.clone(), b.url.clone().unwrap())).collect()
}

#[test]
fn google_search_urls() {
    let g = GoogleScraper::new();
    assert_eq!(g.name(), "Google");
    assert_eq!(g.search_url("rust", 1), "https://www.google.com/search?q=rust&start=0&num=10&hl=fr");
    assert_eq!(g.search_url("rust", 3), "https://www.google.com/search?q=rust&start=20&num=10&hl=fr");
    assert_eq!(g.search_url("rust", 0), "https://www.google.com/search?q=rust&start=0&num=10&hl=fr");
}

#[test]
fn duckduckgo_search_urls() {
    let d = DuckDuckGoScraper::new();
    assert_eq!(d.name(), "DuckDuckGo");
    assert_eq!(d.search_url("rust", 1), "https://html.duckduckgo.com/html?q=rust");
    assert_eq!(d.search_url("rust", 2), "https://html.duckduckgo.com/html?q=rust&s=10");
}

#[test]
fn path_breadcrumbs_accumulate() {
    let b = path_breadcrumbs("example.com › docs › rust");
    assert_eq!(
        crumbs(&b),
        vec![
            ("example.com".to_string(), "example.com".to_string()),
            ("docs".to_string(), "example.com/docs".to_string()),
            ("rust".to_string(), "example.com/docs/rust".to_string()),
        ]
    );
    assert_eq!(path_breadcrumbs("").len(), 1);
}

#[test]
fn address_breadcrumbs_skip_empty_pieces() {
    let b = address_breadcrumbs("www.example.com/docs//rust/");
    assert_eq!(
        crumbs(&b),
        vec![
            ("www.example.com".to_string(), "www.example.com".to_string()),
            ("docs".to_string(), "www.example.com/docs".to_string()),
            ("rust".to_string(), "www.example.com/docs/rust".to_string()),
        ]
    );
    assert!(address_breadcrumbs("").is_empty());
}

#[test]
fn shown_address_becomes_link() {
    assert_eq!(shown_address_link("  www.example.com/a "), "https://www.example.com/a ");
    assert_eq!(shown_address_link("→ é.fr"), "https://é.fr");
    assert_eq!(shown_address_link(" / "), "https://");
}

#[test]
fn favicons() {
    assert_eq!(favicon_for_domain("a.org"), "https://www.google.com/s2/favicons?domain=a.org");
    assert_eq!(
        favicon_for_link("https://docs.rs/serde"),
        Some("https://www.google.com/s2/favicons?domain=docs.rs".to_string())
    );
    assert_eq!(favicon_for_link("no url"), None);
}

#[test]
fn google_block_needs_http_link() {
    let g = GoogleScraper::new();
    let none = g.build_result("T".to_string(), "/relative".to_string(), None, None, None, None);
    assert!(none.is_none());
    let r = g
        .build_result(
            "T".to_string(),
            "https://docs.rs/x".to_string(),
            None,
            None,
            Some("Docs".to_string()),
            Some("docs.rs › x".to_string()),
        )
        .unwrap();
    assert_eq!(r.snippet, "");
    assert_eq!(r.source, "Google");
    assert_eq!(r.favicon_url, Some("https://www.google.com/s2/favicons?domain=docs.rs".to_string()));
    assert_eq!(r.site_name, Some("Docs".to_string()));
    assert_eq!(r.breadcrumbs.len(), 2);
}

#[test]
fn blocks_without_title_or_link_are_dropped() {
    let g = GoogleScraper::new();
    assert!(g.read_block(None, Some("https://a.com".to_string()), None, None, None, None).is_none());
    assert!(g.read_block(Some("T".to_string()), None, None, None, None, None).is_none());
    let kept = g.read_block(Some("T".to_string()), Some("https://a.com".to_string()), None, None, None, None);
    assert_eq!(kept.unwrap().link, "https://a.com");
    let d = DuckDuckGoScraper::new();
    assert!(d.read_block(None, Some("a.com".to_string()), None).is_none());
    assert!(d.read_block(Some("T".to_string()), None, None).is_none());
    assert_eq!(d.read_block(Some("T".to_string()), Some("a.com".to_string()), None).unwrap().link, "https://a.com");
}

#[test]
fn duckduckgo_block() {
    let d = DuckDuckGoScraper::new();
    let r = d.build_result(" Title \n".to_string(), " example.com/a ".to_string(), Some(" snip ".to_string()));
    assert_eq!(r.title, "Title");
    assert_eq!(r.link, "https://example.com/a ");
    assert_eq!(r.snippet, "snip");
    assert_eq!(r.source, "DuckDuckGo");
    assert_eq!(r.favicon_url, Some("https://www.google.com/s2/favicons?domain=example.com/a".to_string()));
    assert_eq!(r.site_name, None);
    assert_eq!(r.breadcrumbs.len(), 2);
}

#[test]
fn cache_hit_is_answered_as_is() {
    let v = vec![result("A", "https://a.com", "s")];
    match on_cache_lookup(Some(v)) {
        CacheDecision::Respond(r) => {
            assert_eq!(r.len(), 1);
            assert_eq!(r[0].title, "A");
        }
        CacheDecision::FanOut => panic!("a hit must not fan out"),
    }
    assert!(matches!(on_cache_lookup::<Vec<SearchResult>>(None), CacheDecision::FanOut));
    match on_cache_lookup(Some(vec!["rust".to_string()])) {
        CacheDecision::Respond(s) => assert_eq!(s, vec!["rust"]),
        CacheDecision::FanOut => panic!("a hit must not fan out"),
    }
}

#[test]
fn failed_engine_contributes_nothing() {
    assert!(engine_contribution(Err(SearchError::RateLimited)).is_empty());
    let three = vec![
        result("One", "https://one.com/a", "first snippet"),
        result("Two", "https://two.org/b", "second snippet"),
        result("Three", "https://three.net/c", "third snippet"),
    ];
    let outcomes = vec![Err(SearchError::RequestError("connection refused".to_string())), Ok(three)];
    let out = complete_search(&ResultScorer::new(), "query", outcomes);
    assert_eq!(out.len(), 3);
    let mut titles: Vec<String> = out.iter().map(|r| r.title.clone()).collect();
    titles.sort();
    assert_eq!(titles, vec!["One", "Three", "Two"]);
}

#[test]
fn gather_concatenates_in_order() {
    let outcomes = vec![
        Ok(vec![result("A", "a", "1")]),
        Err(SearchError::ParsingError("bad".to_string())),
        Ok(vec![result("B", "b", "2"), result("C", "c", "3")]),
    ];
    let all = gather(outcomes);
    let titles: Vec<String> = all.iter().map(|r| r.title.clone()).collect();
    assert_eq!(titles, vec!["A", "B", "C"]);
}

#[test]
fn end_to_end_rust_ownership() {
    let link = "https://doc.rust-lang.org/book/ch04-00.html";
    let www = "https://www.doc.rust-lang.org/book/ch04-00.html";
    let snippet = "Ownership is a set of rules that govern how a Rust program manages memory.";
    let a = result("Rust Ownership - The Book", link, snippet);
    let b = result("Rust Ownership - The Book", www, snippet);
    assert_eq!(normalize_link(www), "doc.rust-lang.org/book/ch04-00.html");
    assert_eq!(normalize_link(link), normalize_link(www));
    let scorer = ResultScorer::new();
    let out = complete_search(&scorer, "rust ownership", vec![Ok(vec![a.clone()]), Ok(vec![b])]);
    assert_eq!(out.len(), 1);
    assert_eq!(normalize_link(&out[0].link), "doc.rust-lang.org/book/ch04-00.html");
    let kept = if out[0].link == link { a.clone() } else { result("Rust Ownership - The Book", www, snippet) };
    let mut weights = ScoringWeights::standard();
    weights.trusted_bonus = 0;
    let plain = ResultScorer::with_weights(weights).score_result(&kept, "rust ownership");
    assert_eq!(out[0].score, plain + 30);
    assert_eq!(out[0].score, scorer.score_result(&kept, "rust ownership"));
}

#[test]
fn ranking_is_independent_of_arrival_order() {
    let scorer = ResultScorer::new();
    let r1 = result("Alpha guide", "https://a.com/1", "alpha beta gamma");
    let r2 = result("Beta", "https://b.org/2", "beta");
    let r3 = result("Gamma docs", "https://c.net/3", "gamma docs here");
    let x = rank_results(&scorer, "beta", vec![r1.clone(), r2.clone(), r3.clone()]);
    let y = rank_results(&scorer, "beta", vec![r3, r1, r2]);
    let tx: Vec<String> = x.iter().map(|r| r.title.clone()).collect();
    let ty: Vec<String> = y.iter().map(|r| r.title.clone()).collect();
    assert_eq!(tx, ty);
    assert_eq!(tx[0], "Beta");
}

#[test]
fn admission_follows_the_limiter() {
    let mut l = RateLimiter::new(0);
    let engines = vec!["Google".to_string(), "DuckDuckGo".to_string(), "Other".to_string()];
    for _ in 0..5 {
        assert_eq!(admit_engines(&mut l, &engines, 0), vec![true, true, true]);
    }
    assert_eq!(admit_engines(&mut l, &engines, 0), vec![false, false, true]);
}

#[test]
fn suggestions_from_answer() {
    let body = ")]}'\n[[[\"rust\",0],[\"rust lang\",0,[512]]],{\"q\":\"x\"}]\r\nnot json\n[1,2]\n";
    assert_eq!(suggestion_lines(body), vec!["[[[\"rust\",0],[\"rust lang\",0,[512]]],{\"q\":\"x\"}]", "[1,2]"]);
    assert_eq!(extract_suggestions(body), vec!["rust", "rust lang"]);
    assert!(extract_suggestions("no suggestions\n").is_empty());
    assert!(extract_suggestions("[not json\n").is_empty());
    assert_eq!(
        autocomplete_url("ru"),
        "https://www.google.com/complete/search?q=ru&cp=4&client=gws-wiz-serp&xssi=t&hl=fr&authuser=0&dpr=1"
    );
}

#[test]
fn metrics_count() {
    let mut m = SearchMetrics::new();
    m.record_cache_hit();
    m.record_cache_miss();
    m.record_cache_miss();
    m.record_search_result("Google", true);
    m.record_search_result("Google", false);
    m.record_search_result("Google", false);
    m.record_results_count("Google", 7);
    m.record_search_time("Google", 120);
    m.record_search_time("Google", 30);
    assert_eq!(m.cache_hits, 1);
    assert_eq!(m.cache_misses, 2);
    assert_eq!(m.search_results_of("Google"), (1, 2));
    assert_eq!(m.search_results_of("Bing"), (0, 0));
    m.record_search_result("Bing", true);
    assert_eq!(m.search_results_of("Bing"), (1, 0));
    assert_eq!(m.search_results_of("Google"), (1, 2));
    assert_eq!(m.result_engines.len(), 2);
    assert_eq!(m.last_results_count, 7);
    assert_eq!(m.timed_searches, 2);
    assert_eq!(m.total_search_ms, 150);
    let mut full = m.clone();
    full.cache_hits = u64::MAX;
    full.record_cache_hit();
    assert_eq!(full.cache_hits, u64::MAX);
}
