//! The shared search-result record exchanged between the aggregation,
//! filtering and source-selection logic.

use vstd::prelude::*;

verus! {

/// One search hit from one upstream source.
#[derive(Clone)]
pub struct SearchResult {
    pub id: String,
    pub title: String,
    pub poster: String,
    pub episodes: Vec<String>,
    pub episodes_titles: Vec<String>,
    pub source: String,
    pub source_name: String,
    pub class: Option<String>,
    pub year: Option<String>,
    pub desc: Option<String>,
    pub kind_name: Option<String>,
    pub douban_id: Option<i32>,
}

impl Default for SearchResult {
    /// The all-empty record.
    fn default() -> (r: SearchResult)
        ensures
            r.id@.len() == 0,
            r.title@.len() == 0,
            r.poster@.len() == 0,
            r.episodes@.len() == 0,
            r.episodes_titles@.len() == 0,
            r.source@.len() == 0,
            r.source_name@.len() == 0,
            r.class is None,
            r.year is None,
            r.desc is None,
            r.kind_name is None,
            r.douban_id is None,
    {
        SearchResult {
            id: String::new(),
            title: String::new(),
            poster: String::new(),
            episodes: Vec::new(),
            episodes_titles: Vec::new(),
            source: String::new(),
            source_name: String::new(),
            class: None,
            year: None,
            desc: None,
            kind_name: None,
            douban_id: None,
        }
    }
}

} // verus!
