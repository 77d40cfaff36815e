//! Reading suggestions out of the suggestion service's answer: one JSON array
//! per line, whose first element lists the suggestions, each an array whose
//! first element is the suggested text.

use vstd::prelude::*;
use serde_json::Value;
use crate::text::{chars_of, piece_ranges, pieces, range_views};

verus! {

#[verifier::external_type_specification]
#[verifier::external_body]
pub struct ExJsonValue(serde_json::Value);

/// A JSON value, as far as suggestions are read from it: arrays and strings,
/// and everything else alike.
#[derive(Debug)]
pub enum Json {
    Array(Vec<Json>),
    Str(String),
    Other,
}

/// What `serde_json::from_str` makes of a string, seen as `Json`: `None` on a
/// syntax error.
pub uninterp spec fn parsed_json(s: Seq<char>) -> Option<Json>;

/// Relies on `serde_json::from_str::<Value>`: the parsed value, or `None` on a
/// syntax error; the value is then seen as `Json`.
#[verifier::external_body]
fn parse_json(s: &str) -> (r: Option<Json>)
    ensures
        r == parsed_json(s@),
{
    serde_json::from_str::<Value>(s).ok().map(json_of_value)
}

/// Sees a `serde_json::Value` as `Json`, one arm per kind of value, arrays
/// element by element.
#[verifier::external_body]
fn json_of_value(v: Value) -> Json {
    match v {
        Value::Array(items) => Json::Array(items.into_iter().map(json_of_value).collect()),
        Value::String(text) => Json::Str(text),
        _ => Json::Other,
    }
}

/// The text at the head of an array, if the array has a string there.
pub open spec fn head_text(e: Json) -> Option<Seq<char>> {
    match e {
        Json::Array(v) => if v@.len() > 0 {
            match v@[0] {
                Json::Str(t) => Some(t@),
                _ => None,
            }
        } else {
            None
        },
        _ => None,
    }
}

/// The head texts of `items`, in order, skipping items without one.
pub open spec fn head_texts(items: Seq<Json>) -> Seq<Seq<char>>
    decreases items.len(),
{
    if items.len() == 0 {
        Seq::empty()
    } else {
        let prev = head_texts(items.drop_last());
        match head_text(items.last()) {
            Some(t) => prev.push(t),
            None => prev,
        }
    }
}

/// The suggestions of one line: the head texts of the elements of the first
/// element of the array the line parses to; nothing for any other line.
pub open spec fn line_suggestions(line: Seq<char>) -> Seq<Seq<char>> {
    match parsed_json(line) {
        Some(Json::Array(v)) => if v@.len() > 0 {
            match v@[0] {
                Json::Array(items) => head_texts(items@),
                _ => Seq::empty(),
            }
        } else {
            Seq::empty()
        },
        _ => Seq::empty(),
    }
}

/// The suggestions of all `lines`, concatenated in order.
pub open spec fn all_suggestions(lines: Seq<Seq<char>>) -> Seq<Seq<char>>
    decreases lines.len(),
{
    if lines.len() == 0 {
        Seq::empty()
    } else {
        all_suggestions(lines.drop_last()) + line_suggestions(lines.last())
    }
}

/// The head texts of `items`.
fn collect_head_texts(items: &Vec<Json>, out: &mut Vec<String>)
    ensures
        texts(final(out)@) == texts(old(out)@) + head_texts(items@),
{
    let ghost start = texts(out@);
    let mut j: usize = 0;
    assert(items@.take(0) =~= Seq::<Json>::empty());
    assert(texts(out@) =~= start + head_texts(items@.take(0)));
    while j < items.len()
        invariant
            j <= items@.len(),
            texts(out@) == start + head_texts(items@.take(j as int)),
        decreases items@.len() - j,
    {
        proof {
            assert(items@.take(j + 1).drop_last() =~= items@.take(j as int));
            assert(items@.take(j + 1).last() == items@[j as int]);
        }
        if let Json::Array(e) = &items[j] {
            if e.len() > 0 {
                if let Json::Str(t) = &e[0] {
                    let ghost before = out@;
                    out.push(t.clone());
                    assert(texts(out@) =~= texts(before).push(t@));
                }
            }
        }
        assert(texts(out@) =~= start + head_texts(items@.take(j + 1)));
        j = j + 1;
    }
    assert(items@.take(j as int) =~= items@);
}

/// The request for the suggestions of `query`.
pub fn autocomplete_url(query: &str) -> (r: String)
    ensures
        r@ == "https://www.google.com/complete/search?q="@ + query@
            + "&cp=4&client=gws-wiz-serp&xssi=t&hl=fr&authuser=0&dpr=1"@,
{
    String::from_str("https://www.google.com/complete/search?q=").concat(query).concat(
        "&cp=4&client=gws-wiz-serp&xssi=t&hl=fr&authuser=0&dpr=1",
    )
}

/// `s` without one trailing carriage return.
pub open spec fn strip_cr(s: Seq<char>) -> Seq<char> {
    if s.len() > 0 && s.last() == '\r' {
        s.drop_last()
    } else {
        s
    }
}

/// The lines among `ps` that begin with `[`, without their carriage return.
pub open spec fn bracket_lines_of(ps: Seq<Seq<char>>) -> Seq<Seq<char>>
    decreases ps.len(),
{
    if ps.len() == 0 {
        Seq::empty()
    } else {
        let prev = bracket_lines_of(ps.drop_last());
        let p = ps.last();
        if p.len() > 0 && p[0] == '[' {
            prev.push(strip_cr(p))
        } else {
            prev
        }
    }
}

/// The lines of `body` that begin with `[`, without their carriage return.
pub open spec fn bracket_lines(body: Seq<char>) -> Seq<Seq<char>> {
    bracket_lines_of(pieces(body, '\n'))
}

/// The contents of a sequence of strings.
pub open spec fn texts(v: Seq<String>) -> Seq<Seq<char>> {
    v.map_values(|s: String| s@)
}

/// The lines of `body` that begin with `[`, without their carriage return.
pub fn suggestion_lines(body: &str) -> (r: Vec<String>)
    ensures
        texts(r@) == bracket_lines(body@),
{
    let c = chars_of(body);
    let ranges = piece_ranges(&c, '\n');
    let ghost ps = pieces(c@, '\n');
    let mut out: Vec<String> = Vec::new();
    let mut k: usize = 0;
    assert(ps.take(0) =~= Seq::<Seq<char>>::empty());
    assert(texts(out@) =~= Seq::<Seq<char>>::empty());
    while k < ranges.len()
        invariant
            c@ == body@,
            ps == pieces(body@, '\n'),
            range_views(c@, ranges@) == ps,
            forall|j: int|
                0 <= j < ranges@.len() ==> #[trigger] ranges@[j].0 <= ranges@[j].1 <= c@.len(),
            k <= ranges@.len(),
            texts(out@) == bracket_lines_of(ps.take(k as int)),
        decreases ranges@.len() - k,
    {
        let (lo, hi) = ranges[k];
        let ghost p = ps[k as int];
        assert(p == c@.subrange(lo as int, hi as int));
        assert(ps.take(k + 1).drop_last() =~= ps.take(k as int));
        assert(ps.take(k + 1).last() == p);
        if lo < hi && c[lo] == '[' {
            let end: usize = if c[hi - 1] == '\r' { hi - 1 } else { hi };
            assert(c@.subrange(lo as int, end as int) =~= strip_cr(p));
            let line = String::from_str(body.substring_char(lo, end));
            let ghost before = out@;
            out.push(line);
            assert(texts(out@) =~= texts(before).push(strip_cr(p)));
        }
        k = k + 1;
    }
    assert(ps.take(k as int) =~= ps);
    out
}

/// The suggestions in the answer `body`, in order: from each line that begins
/// with `[` and parses as a JSON array, the text at the head of each element
/// of the line's first element. Lines and elements of any other shape
/// contribute nothing.
pub fn extract_suggestions(body: &str) -> (r: Vec<String>)
    ensures
        texts(r@) == all_suggestions(bracket_lines(body@)),
{
    let lines = suggestion_lines(body);
    let ghost ls = texts(lines@);
    let mut out: Vec<String> = Vec::new();
    let mut k: usize = 0;
    assert(ls.take(0) =~= Seq::<Seq<char>>::empty());
    assert(texts(out@) =~= Seq::<Seq<char>>::empty());
    while k < lines.len()
        invariant
            k <= lines@.len(),
            ls == texts(lines@),
            texts(out@) == all_suggestions(ls.take(k as int)),
        decreases lines@.len() - k,
    {
        proof {
            assert(ls.take(k + 1).drop_last() =~= ls.take(k as int));
            assert(ls.take(k + 1).last() == lines@[k as int]@);
        }
        let ghost before = texts(out@);
        let parsed = parse_json(lines[k].as_str());
        if let Some(Json::Array(v)) = &parsed {
            if v.len() > 0 {
                if let Json::Array(items) = &v[0] {
                    collect_head_texts(items, &mut out);
                }
            }
        }
        assert(texts(out@) =~= before + line_suggestions(lines@[k as int]@));
        k = k + 1;
    }
    assert(ls.take(k as int) =~= ls);
    out
}

} // verus!
