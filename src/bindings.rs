//! The calls this library makes into std and into outside crates, each with
//! the contract it is relied on for.

use vstd::prelude::*;

verus! {

/// What `str::to_lowercase` makes of a string.
pub uninterp spec fn lower_of(s: Seq<char>) -> Seq<char>;

/// What `unidecode::unidecode` makes of a string.
pub uninterp spec fn ascii_fold_of(s: Seq<char>) -> Seq<char>;

/// What `strsim::levenshtein` returns for two strings.
pub uninterp spec fn edit_distance_of(a: Seq<char>, b: Seq<char>) -> nat;

/// What `url::Url::parse` gives for a string: `None` where it fails, else the
/// parsed URL's `host_str` and `path`.
pub uninterp spec fn url_parts_of(s: Seq<char>) -> Option<(Option<Seq<char>>, Seq<char>)>;

/// The contents of an optional string.
pub open spec fn opt_view(o: Option<String>) -> Option<Seq<char>> {
    match o {
        Some(s) => Some(s@),
        None => None,
    }
}

/// The contents of a parsed host and path.
pub open spec fn parts_view(r: Option<(Option<String>, String)>) -> Option<(Option<Seq<char>>, Seq<char>)> {
    match r {
        Some(p) => Some((opt_view(p.0), p.1@)),
        None => None,
    }
}

/// Relies on `str::to_lowercase`: the result depends on the characters alone.
#[verifier::external_body]
pub(crate) fn lowercase(s: &str) -> (r: String)
    ensures
        r@ == lower_of(s@),
{
    s.to_lowercase()
}

/// Relies on `unidecode::unidecode`: an ASCII transliteration that depends on
/// the characters alone.
#[verifier::external_body]
pub(crate) fn transliterate(s: &str) -> (r: String)
    ensures
        r@ == ascii_fold_of(s@),
{
    unidecode::unidecode(s)
}

/// Relies on `strsim::levenshtein`: the least number of insertions, deletions
/// and substitutions that turn one string into the other.
#[verifier::external_body]
pub(crate) fn levenshtein(a: &str, b: &str) -> (r: usize)
    ensures
        r as nat == edit_distance_of(a@, b@),
{
    strsim::levenshtein(a, b)
}

/// Relies on `url::Url::parse`, and on `Url::host_str` and `Url::path` of the
/// parsed value; a parse error becomes `None`.
#[verifier::external_body]
pub(crate) fn url_host_and_path(s: &str) -> (r: Option<(Option<String>, String)>)
    ensures
        parts_view(r) == url_parts_of(s@),
{
    url::Url::parse(s).ok().map(|u| (u.host_str().map(String::from), u.path().to_string()))
}

/// Relies on `char::is_alphanumeric`: a property of the character alone.
#[verifier::external_body]
pub(crate) fn alphanumeric(c: char) -> (r: bool)
    ensures
        r == is_alphanumeric(c),
{
    c.is_alphanumeric()
}

/// What `char::is_alphanumeric` says of a character.
pub uninterp spec fn is_alphanumeric(c: char) -> bool;

} // verus!
