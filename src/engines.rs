//! What the two reference engine adapters compute from the values read out of
//! a results page: request URLs, links, favicons and breadcrumbs.

use vstd::prelude::*;
use crate::bindings::{alphanumeric, is_alphanumeric, opt_view, url_host_and_path, url_parts_of};
use crate::cache_key::{decimal, decimal_string};
use crate::result::{Breadcrumb, SearchResult};
use crate::text::{
    chars_of, piece_ranges, pieces, range_views, starts_with_chars, starts_with_seq, trim,
    trim_range, trim_string,
};

verus! {

/// The address of the favicon service, up to the domain.
pub open spec fn favicon_prefix() -> Seq<char> {
    "https://www.google.com/s2/favicons?domain="@
}

/// The favicon address of `domain`.
pub fn favicon_for_domain(domain: &str) -> (r: String)
    ensures
        r@ == favicon_prefix() + domain@,
{
    String::from_str("https://www.google.com/s2/favicons?domain=").concat(domain)
}

/// The favicon address of a link's host: `None` where the link does not parse
/// as a URL; an empty domain where it has no host.
pub open spec fn link_favicon(link: Seq<char>) -> Option<Seq<char>> {
    match url_parts_of(link) {
        Some(p) => Some(
            favicon_prefix() + match p.0 {
                Some(h) => h,
                None => Seq::empty(),
            },
        ),
        None => None,
    }
}

/// The favicon address of `link`'s host.
pub fn favicon_for_link(link: &str) -> (r: Option<String>)
    ensures
        opt_view(r) == link_favicon(link@),
{
    match url_host_and_path(link) {
        Some(parts) => match parts.0 {
            Some(h) => Some(favicon_for_domain(h.as_str())),
            None => {
                proof {
                    reveal_strlit("");
                }
                let r = favicon_for_domain("");
                assert(r@ =~= favicon_prefix() + Seq::<char>::empty());
                Some(r)
            },
        },
        None => None,
    }
}

/// The view of a breadcrumb: its text, and its address or the empty sequence.
pub open spec fn crumb_view(b: Breadcrumb) -> (Seq<char>, Seq<char>) {
    (
        b.text@,
        match b.url {
            Some(u) => u@,
            None => Seq::empty(),
        },
    )
}

/// The views of a sequence of breadcrumbs.
pub open spec fn crumb_views(v: Seq<Breadcrumb>) -> Seq<(Seq<char>, Seq<char>)> {
    v.map_values(|b: Breadcrumb| crumb_view(b))
}

/// Every breadcrumb of `v` has an address.
pub open spec fn all_linked(v: Seq<Breadcrumb>) -> bool {
    forall|k: int| 0 <= k < v.len() ==> (#[trigger] v[k]).url is Some
}

/// The address of the `k`-th breadcrumb of a results-page path: the trimmed
/// pieces up to `k`, joined by `/`.
pub open spec fn joined_prefix(ps: Seq<Seq<char>>, k: int) -> Seq<char>
    decreases k,
{
    if k <= 0 {
        trim(ps[0])
    } else {
        joined_prefix(ps, k - 1) + seq!['/'] + trim(ps[k])
    }
}

/// The breadcrumbs of a path shown as pieces separated by `›`: one per piece,
/// empty ones included, each with its trimmed text and the joined prefix.
pub open spec fn path_crumbs(cite: Seq<char>) -> Seq<(Seq<char>, Seq<char>)> {
    let ps = pieces(cite, '›');
    Seq::new(ps.len(), |k: int| (trim(ps[k]), joined_prefix(ps, k)))
}

/// The breadcrumbs of a path shown as pieces separated by `›`.
pub fn path_breadcrumbs(cite: &str) -> (r: Vec<Breadcrumb>)
    ensures
        crumb_views(r@) == path_crumbs(cite@),
        all_linked(r@),
{
    let c = chars_of(cite);
    let ranges = piece_ranges(&c, '›');
    let ghost ps = pieces(c@, '›');
    let mut out: Vec<Breadcrumb> = Vec::new();
    let mut acc = String::new();
    let mut k: usize = 0;
    while k < ranges.len()
        invariant
            c@ == cite@,
            ps == pieces(cite@, '›'),
            range_views(c@, ranges@) == ps,
            forall|j: int|
                0 <= j < ranges@.len() ==> #[trigger] ranges@[j].0 <= ranges@[j].1 <= c@.len(),
            k <= ranges@.len(),
            out@.len() == k,
            all_linked(out@),
            forall|j: int|
                0 <= j < k ==> #[trigger] crumb_view(out@[j]) == (trim(ps[j]), joined_prefix(ps, j)),
            k > 0 ==> acc@ == joined_prefix(ps, k - 1),
        decreases ranges@.len() - k,
    {
        let (lo, hi) = ranges[k];
        assert(ps[k as int] == c@.subrange(lo as int, hi as int));
        let (a, b) = trim_range(&c, lo, hi);
        let text = String::from_str(cite.substring_char(a, b));
        if k == 0 {
            acc = text.clone();
        } else {
            acc = acc.concat("/").concat(text.as_str());
            proof {
                reveal_strlit("/");
            }
        }
        assert(acc@ =~= joined_prefix(ps, k as int));
        out.push(Breadcrumb { text, url: Some(acc.clone()) });
        k = k + 1;
    }
    assert(crumb_views(out@) =~= path_crumbs(cite@));
    out
}

/// The breadcrumbs of an address shown as pieces separated by `/`: empty
/// pieces are skipped; each crumb has the trimmed piece as text, and as
/// address the previous address, a `/` unless that one is empty or ends with
/// one, and the trimmed piece.
pub open spec fn slash_crumbs(ps: Seq<Seq<char>>) -> Seq<(Seq<char>, Seq<char>)>
    decreases ps.len(),
{
    if ps.len() == 0 {
        Seq::empty()
    } else {
        let prev = slash_crumbs(ps.drop_last());
        let p = ps.last();
        if p.len() == 0 {
            prev
        } else {
            let acc = if prev.len() == 0 {
                Seq::empty()
            } else {
                prev.last().1
            };
            let base = if acc.len() > 0 && acc.last() != '/' {
                acc.push('/')
            } else {
                acc
            };
            prev.push((trim(p), base + trim(p)))
        }
    }
}

/// The breadcrumbs of an address shown as pieces separated by `/`.
pub fn address_breadcrumbs(shown: &str) -> (r: Vec<Breadcrumb>)
    ensures
        crumb_views(r@) == slash_crumbs(pieces(shown@, '/')),
        all_linked(r@),
{
    let c = chars_of(shown);
    let ranges = piece_ranges(&c, '/');
    let ghost ps = pieces(c@, '/');
    let mut out: Vec<Breadcrumb> = Vec::new();
    let mut acc = String::new();
    let mut k: usize = 0;
    assert(ps.take(0) =~= Seq::<Seq<char>>::empty());
    assert(crumb_views(out@) =~= Seq::<(Seq<char>, Seq<char>)>::empty());
    while k < ranges.len()
        invariant
            c@ == shown@,
            ps == pieces(shown@, '/'),
            range_views(c@, ranges@) == ps,
            forall|j: int|
                0 <= j < ranges@.len() ==> #[trigger] ranges@[j].0 <= ranges@[j].1 <= c@.len(),
            k <= ranges@.len(),
            all_linked(out@),
            crumb_views(out@) == slash_crumbs(ps.take(k as int)),
            acc@ == if out@.len() == 0 {
                Seq::<char>::empty()
            } else {
                crumb_views(out@).last().1
            },
        decreases ranges@.len() - k,
    {
        let (lo, hi) = ranges[k];
        assert(ps[k as int] == c@.subrange(lo as int, hi as int));
        assert(ps.take(k + 1).drop_last() =~= ps.take(k as int));
        assert(ps.take(k + 1).last() == ps[k as int]);
        let ghost prev = slash_crumbs(ps.take(k as int));
        if lo < hi {
            let (a, b) = trim_range(&c, lo, hi);
            let text = String::from_str(shown.substring_char(a, b));
            let ghost acc0 = acc@;
            let n = acc.unicode_len();
            if n > 0 && acc.as_str().get_char(n - 1) != '/' {
                acc = acc.concat("/");
                proof {
                    reveal_strlit("/");
                    assert(acc@ =~= acc0.push('/'));
                }
            }
            acc = acc.concat(text.as_str());
            let ghost before = out@;
            out.push(Breadcrumb { text, url: Some(acc.clone()) });
            assert(crumb_views(out@) =~= crumb_views(before).push(crumb_view(out@.last())));
            assert(crumb_views(out@) =~= slash_crumbs(ps.take(k + 1)));
        } else {
            assert(ps[k as int].len() == 0);
        }
        k = k + 1;
    }
    assert(ps.take(k as int) =~= ps);
    out
}

/// `s` without its leading characters that are not alphanumeric.
pub open spec fn skip_to_alphanumeric(s: Seq<char>) -> Seq<char>
    decreases s.len(),
{
    if s.len() > 0 && !is_alphanumeric(s[0]) {
        skip_to_alphanumeric(s.drop_first())
    } else {
        s
    }
}

/// `"https://"`.
pub open spec fn https_prefix() -> Seq<char> {
    "https://"@
}

/// The link of a result whose address is shown as `shown`: `https://`
/// followed by `shown` from its first alphanumeric character on.
pub fn shown_address_link(shown: &str) -> (r: String)
    ensures
        r@ == https_prefix() + skip_to_alphanumeric(shown@),
{
    let c = chars_of(shown);
    let mut a: usize = 0;
    assert(c@.subrange(0, c@.len() as int) =~= c@);
    while a < c.len() && !alphanumeric(c[a])
        invariant
            a <= c@.len(),
            c@ == shown@,
            skip_to_alphanumeric(c@.subrange(a as int, c@.len() as int)) == skip_to_alphanumeric(
                c@,
            ),
        decreases c@.len() - a,
    {
        assert(c@.subrange(a as int, c@.len() as int).drop_first() =~= c@.subrange(
            a + 1,
            c@.len() as int,
        ));
        a = a + 1;
    }
    String::from_str("https://").concat(shown.substring_char(a, c.len()))
}

/// What a Google results block with these values yields: nothing when the
/// link does not start with `http`; else the result with the snippet if any,
/// the favicon image if any or else the link host's favicon, the site name,
/// and the breadcrumbs of the cite text if any.
pub open spec fn google_block(
    title: Seq<char>,
    link: Seq<char>,
    snippet: Option<String>,
    favicon: Option<String>,
    site_name: Option<String>,
    cite: Option<String>,
    r: Option<SearchResult>,
) -> bool {
    match r {
        None => !starts_with_seq(link, "http"@),
        Some(x) => {
            &&& starts_with_seq(link, "http"@)
            &&& x.title@ == title
            &&& x.link@ == link
            &&& x.snippet@ == match snippet {
                Some(s) => s@,
                None => Seq::empty(),
            }
            &&& x.source@ == "Google"@
            &&& x.score == 0
            &&& opt_view(x.favicon_url) == match favicon {
                Some(f) => Some(f@),
                None => link_favicon(link),
            }
            &&& opt_view(x.site_name) == opt_view(site_name)
            &&& all_linked(x.breadcrumbs@)
            &&& crumb_views(x.breadcrumbs@) == match cite {
                Some(c) => path_crumbs(c@),
                None => Seq::empty(),
            }
        },
    }
}

/// The Google adapter.
#[derive(Clone, Copy, Debug)]
pub struct GoogleScraper;

/// The offset of the first result of `page`, ten results a page; pages 0
/// and 1 both start at zero.
pub open spec fn page_offset(page: u32) -> nat {
    if page > 1 {
        ((page - 1) * 10) as nat
    } else {
        0
    }
}

fn offset_of(page: u32) -> (r: u64)
    ensures
        r as nat == page_offset(page),
{
    if page > 1 {
        (page as u64 - 1) * 10
    } else {
        0
    }
}

impl GoogleScraper {
    /// The adapter.
    pub fn new() -> (r: GoogleScraper) {
        GoogleScraper
    }

    /// The engine's name, the key of its rate limit.
    pub fn name(&self) -> (r: &'static str)
        ensures
            r@ == "Google"@,
    {
        "Google"
    }

    /// Where its queries go.
    pub fn base_url(&self) -> (r: &'static str)
        ensures
            r@ == "https://www.google.com/search"@,
    {
        "https://www.google.com/search"
    }

    /// The request for `page` of the results of `query`.
    pub fn search_url(&self, query: &str, page: u32) -> (r: String)
        ensures
            r@ == "https://www.google.com/search?q="@ + query@ + "&start="@ + decimal(
                page_offset(page),
            ) + "&num=10&hl=fr"@,
    {
        String::from_str("https://www.google.com/search?q=").concat(query).concat(
            "&start=",
        ).concat(decimal_string(offset_of(page)).as_str()).concat("&num=10&hl=fr")
    }

    /// A block of a results page, from the values read out of it: a block
    /// without a title or a link is dropped; the rest is `build_result`.
    pub fn read_block(
        &self,
        title: Option<String>,
        link: Option<String>,
        snippet: Option<String>,
        favicon: Option<String>,
        site_name: Option<String>,
        cite: Option<String>,
    ) -> (r: Option<SearchResult>)
        ensures
            (title is None || link is None) ==> r is None,
            (title is Some && link is Some) ==> google_block(
                title->Some_0@,
                link->Some_0@,
                snippet,
                favicon,
                site_name,
                cite,
                r,
            ),
    {
        match (title, link) {
            (Some(t), Some(l)) => self.build_result(t, l, snippet, favicon, site_name, cite),
            _ => None,
        }
    }

    /// The result read from one block of a results page: its title, link,
    /// snippet if any, favicon image if any, site name if any and breadcrumb
    /// text if any. A link that does not start with `http` drops the block.
    /// Without an image the favicon comes from the link's host.
    pub fn build_result(
        &self,
        title: String,
        link: String,
        snippet: Option<String>,
        favicon: Option<String>,
        site_name: Option<String>,
        cite: Option<String>,
    ) -> (r: Option<SearchResult>)
        ensures
            google_block(title@, link@, snippet, favicon, site_name, cite, r),
    {
        let lc = chars_of(link.as_str());
        let http = chars_of("http");
        if !starts_with_chars(&lc, &http) {
            return None;
        }
        let favicon_url = match favicon {
            Some(f) => Some(f),
            None => favicon_for_link(link.as_str()),
        };
        let breadcrumbs = match cite {
            Some(c) => path_breadcrumbs(c.as_str()),
            None => {
                let v: Vec<Breadcrumb> = Vec::new();
                assert(crumb_views(v@) =~= Seq::<(Seq<char>, Seq<char>)>::empty());
                v
            },
        };
        let snippet = match snippet {
            Some(s) => s,
            None => String::new(),
        };
        Some(SearchResult {
            title,
            link,
            snippet,
            source: String::from_str(self.name()),
            score: 0,
            favicon_url,
            site_name,
            breadcrumbs,
        })
    }
}

/// What a DuckDuckGo results block with this title, shown address and
/// snippet yields.
pub open spec fn ddg_block(title: Seq<char>, shown: Seq<char>, snippet: Option<String>, r: SearchResult) -> bool {
    &&& r.title@ == trim(title)
    &&& r.link@ == https_prefix() + skip_to_alphanumeric(shown)
    &&& r.snippet@ == match snippet {
        Some(s) => trim(s@),
        None => Seq::empty(),
    }
    &&& r.source@ == "DuckDuckGo"@
    &&& r.score == 0
    &&& opt_view(r.favicon_url) == Some(favicon_prefix() + trim(shown))
    &&& r.site_name is None
    &&& all_linked(r.breadcrumbs@)
    &&& crumb_views(r.breadcrumbs@) == slash_crumbs(pieces(shown, '/'))
}

/// The DuckDuckGo adapter.
#[derive(Clone, Copy, Debug)]
pub struct DuckDuckGoScraper;

impl DuckDuckGoScraper {
    /// The adapter.
    pub fn new() -> (r: DuckDuckGoScraper) {
        DuckDuckGoScraper
    }

    /// The engine's name, the key of its rate limit.
    pub fn name(&self) -> (r: &'static str)
        ensures
            r@ == "DuckDuckGo"@,
    {
        "DuckDuckGo"
    }

    /// Where its queries go.
    pub fn base_url(&self) -> (r: &'static str)
        ensures
            r@ == "https://html.duckduckgo.com/html"@,
    {
        "https://html.duckduckgo.com/html"
    }

    /// The request for `page` of the results of `query`; the first page
    /// (and page 0) carries no offset.
    pub fn search_url(&self, query: &str, page: u32) -> (r: String)
        ensures
            r@ == "https://html.duckduckgo.com/html?q="@ + query@ + if page > 1 {
                "&s="@ + decimal(page_offset(page))
            } else {
                Seq::empty()
            },
    {
        let head = String::from_str("https://html.duckduckgo.com/html?q=").concat(query);
        if page > 1 {
            head.concat("&s=").concat(decimal_string(offset_of(page)).as_str())
        } else {
            assert(head@ =~= head@ + Seq::<char>::empty());
            head
        }
    }

    /// A block of a results page, from the values read out of it: a block
    /// without a title or a shown address is dropped; the rest is
    /// `build_result`.
    pub fn read_block(&self, title: Option<String>, shown: Option<String>, snippet: Option<String>) -> (r:
        Option<SearchResult>)
        ensures
            (title is None || shown is None) <==> r is None,
            r is Some ==> ddg_block(title->Some_0@, shown->Some_0@, snippet, r->Some_0),
    {
        match (title, shown) {
            (Some(t), Some(u)) => Some(self.build_result(t, u, snippet)),
            _ => None,
        }
    }

    /// The result read from one block of a results page: its title, the
    /// address it shows and its snippet if any. Title and snippet are trimmed;
    /// the link is `https://` and the shown address from its first
    /// alphanumeric character; favicon and breadcrumbs come from the shown
    /// address.
    pub fn build_result(&self, title: String, shown: String, snippet: Option<String>) -> (r:
        SearchResult)
        ensures
            ddg_block(title@, shown@, snippet, r),
    {
        let t = trim_string(title.as_str());
        let link = shown_address_link(shown.as_str());
        let s = match snippet {
            Some(s) => trim_string(s.as_str()),
            None => String::new(),
        };
        let domain = trim_string(shown.as_str());
        let favicon_url = Some(favicon_for_domain(domain.as_str()));
        let breadcrumbs = address_breadcrumbs(shown.as_str());
        SearchResult {
            title: t,
            link,
            snippet: s,
            source: String::from_str(self.name()),
            score: 0,
            favicon_url,
            site_name: None,
            breadcrumbs,
        }
    }
}

} // verus!
