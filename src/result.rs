//! The records that engines produce and the scorer ranks.

use vstd::prelude::*;

verus! {

/// One segment of a result's site hierarchy.
#[derive(Clone, Debug)]
pub struct Breadcrumb {
    pub text: String,
    pub url: Option<String>,
}

/// One ranked result. `score` counts hundredths of a point; it is zero until
/// the scorer has run and means nothing before that.
#[derive(Clone, Debug)]
pub struct SearchResult {
    pub title: String,
    pub link: String,
    pub snippet: String,
    pub source: String,
    pub score: u64,
    pub favicon_url: Option<String>,
    pub site_name: Option<String>,
    pub breadcrumbs: Vec<Breadcrumb>,
}

/// A term and its definition.
#[derive(Clone, Debug)]
pub struct Definition {
    pub term: String,
    pub definition: String,
}

/// The content of a quick answer, by kind.
#[derive(Clone, Debug)]
pub enum AnswerData {
    Definition(Definition),
}

/// A direct answer shown beside the ranked list, with the engine that gave it.
#[derive(Clone, Debug)]
pub struct QuickAnswer {
    pub answer_type: String,
    pub data: AnswerData,
    pub source: String,
}

impl SearchResult {
    /// A fresh, unscored result.
    pub fn new(title: String, link: String, snippet: String, source: String) -> (r: SearchResult)
        ensures
            r.title@ == title@,
            r.link@ == link@,
            r.snippet@ == snippet@,
            r.source@ == source@,
            r.score == 0,
            r.favicon_url is None,
            r.site_name is None,
            r.breadcrumbs@.len() == 0,
    {
        SearchResult {
            title,
            link,
            snippet,
            source,
            score: 0,
            favicon_url: None,
            site_name: None,
            breadcrumbs: Vec::new(),
        }
    }
}

impl QuickAnswer {
    /// A definition answer; a missing source becomes the empty string.
    pub fn new_definition(term: String, definition: String, source: Option<String>) -> (r:
        QuickAnswer)
        ensures
            r.answer_type@ == seq!['d', 'e', 'f', 'i', 'n', 'i', 't', 'i', 'o', 'n'],
            r.data is Definition,
            r.data->Definition_0.term@ == term@,
            r.data->Definition_0.definition@ == definition@,
            r.source@ == match source {
                Some(s) => s@,
                None => Seq::<char>::empty(),
            },
    {
        let src = match source {
            Some(s) => s,
            None => String::new(),
        };
        proof {
            reveal_strlit("definition");
        }
        QuickAnswer {
            answer_type: String::from_str("definition"),
            data: AnswerData::Definition(Definition { term, definition }),
            source: src,
        }
    }
}

} // verus!
