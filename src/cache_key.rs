//! The keys under which computed results are memoized.

use vstd::prelude::*;

verus! {

/// What `format!("{:?}", s)` makes of a string: its debug form, quoted and
/// escaped.
pub uninterp spec fn debug_form_of(s: Seq<char>) -> Seq<char>;

/// Relies on the `Debug` formatting of `str`, which depends on the
/// characters alone.
#[verifier::external_body]
fn debug_form(s: &str) -> (r: String)
    ensures
        r@ == debug_form_of(s@),
{
    format!("{:?}", s)
}

/// The decimal digit for `d`.
pub open spec fn digit_char(d: nat) -> char {
    seq!['0', '1', '2', '3', '4', '5', '6', '7', '8', '9'][d as int]
}

/// The decimal representation of `n`, without leading zeros.
pub open spec fn decimal(n: nat) -> Seq<char>
    decreases n,
{
    if n < 10 {
        seq![digit_char(n)]
    } else {
        decimal(n / 10).push(digit_char(n % 10))
    }
}

/// `n` written in decimal.
pub fn decimal_string(n: u64) -> (r: String)
    ensures
        r@ == decimal(n as nat),
    decreases n,
{
    let digits = "0123456789";
    proof {
        reveal_strlit("0123456789");
    }
    let d = (n % 10) as usize;
    let piece = digits.substring_char(d, d + 1);
    assert(piece@ =~= seq![digit_char(d as nat)]);
    if n < 10 {
        String::from_str(piece)
    } else {
        let head = decimal_string(n / 10);
        let r = head.concat(piece);
        assert(r@ =~= decimal((n / 10) as nat).push(digit_char((n % 10) as nat)));
        r
    }
}

/// How an optional string shows in a key: `None`, or `Some(...)` around its
/// debug form.
pub open spec fn optional_form(o: Option<Seq<char>>) -> Seq<char> {
    match o {
        None => "None"@,
        Some(s) => "Some("@ + debug_form_of(s) + ")"@,
    }
}

/// The key of a search: `search:{query}:{page}:{date range}:{region}:{language}`,
/// with a missing page read as 1.
pub open spec fn search_key(
    query: Seq<char>,
    page: Option<u32>,
    date_range: Option<Seq<char>>,
    region: Option<Seq<char>>,
    language: Option<Seq<char>>,
) -> Seq<char> {
    let p: nat = match page {
        Some(p) => p as nat,
        None => 1,
    };
    "search:"@ + query + ":"@ + decimal(p) + ":"@ + optional_form(date_range) + ":"@
        + optional_form(region) + ":"@ + optional_form(language)
}

/// The contents of an optional string slice.
pub open spec fn opt_str(o: Option<&str>) -> Option<Seq<char>> {
    match o {
        Some(s) => Some(s@),
        None => None,
    }
}

fn optional_string(o: Option<&str>) -> (r: String)
    ensures
        r@ == optional_form(opt_str(o)),
{
    match o {
        None => String::from_str("None"),
        Some(s) => {
            let d = debug_form(s);
            String::from_str("Some(").concat(d.as_str()).concat(")")
        },
    }
}

/// The cache key of a search.
pub fn search_cache_key(
    query: &str,
    page: Option<u32>,
    date_range: Option<&str>,
    region: Option<&str>,
    language: Option<&str>,
) -> (r: String)
    ensures
        r@ == search_key(query@, page, opt_str(date_range), opt_str(region), opt_str(language)),
{
    let p: u32 = match page {
        Some(p) => p,
        None => 1,
    };
    let dr = optional_string(date_range);
    let rg = optional_string(region);
    let lg = optional_string(language);
    let r = String::from_str("search:").concat(query).concat(":").concat(
        decimal_string(p as u64).as_str(),
    ).concat(":").concat(dr.as_str()).concat(":").concat(rg.as_str()).concat(":").concat(
        lg.as_str(),
    );
    r
}

/// The key of an autocompletion: `autocomplete:{query}`.
pub open spec fn autocomplete_key(query: Seq<char>) -> Seq<char> {
    "autocomplete:"@ + query
}

/// The cache key of an autocompletion.
pub fn autocomplete_cache_key(query: &str) -> (r: String)
    ensures
        r@ == autocomplete_key(query@),
{
    String::from_str("autocomplete:").concat(query)
}

} // verus!
