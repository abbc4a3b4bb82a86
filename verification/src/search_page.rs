//! Search-page assembly: the filter option categories offered for a
//! result set, and the page bootstrap.

use vstd::prelude::*;

use crate::search_agg::{lex_le, spec_mem, str_le, AggregatedGroup};
use crate::config::UserPreferences;
use crate::strutil::{str_eq, trim_spec, trim_str};
use crate::types::SearchResult;

verus! {

/// One selectable filter option.
pub struct SearchFilterOption {
    pub label: String,
    pub value: String,
}

/// One filter category with its options.
pub struct SearchFilterCategory {
    pub key: String,
    pub label: String,
    pub options: Vec<SearchFilterOption>,
}

/// The precomputed state of the search page.
pub struct SearchPageStateResponse {
    pub aggregated_entries: Vec<(String, AggregatedGroup)>,
    pub filtered_results: Vec<SearchResult>,
    pub filter_categories_all: Vec<SearchFilterCategory>,
    pub filter_categories_agg: Vec<SearchFilterCategory>,
}

/// What the search page needs at startup.
pub struct SearchPageBootstrap {
    pub search_history: Vec<String>,
    pub fluid_search: bool,
}

/// The response of one search-page query.
pub struct SearchPageQueryResponse {
    pub results: Vec<SearchResult>,
    pub cache_hit: bool,
    pub filter_categories_all: Vec<SearchFilterCategory>,
    pub filter_categories_agg: Vec<SearchFilterCategory>,
}

/// Builds the three filter categories for a result set: sources sorted by
/// their display name, titles sorted, years sorted newest first with an
/// `unknown` entry last when present — each with an `all` option first.
pub fn build_filter_categories(results: &[SearchResult]) -> (r: Vec<SearchFilterCategory>)
    ensures
        r@.len() == 3,
        r@[0].key@ == "source"@,
        r@[1].key@ == "title"@,
        r@[2].key@ == "year"@,
        r@[0].options@.len() >= 1 && r@[0].options@[0].value@ == "all"@,
        r@[1].options@.len() >= 1 && r@[1].options@[0].value@ == "all"@,
        r@[2].options@.len() >= 1 && r@[2].options@[0].value@ == "all"@,
        // titles: every non-empty title appears exactly once, sorted
        forall|m: int|
            1 <= m < r@[1].options@.len() - 1 ==> lex_le(
                #[trigger] r@[1].options@[m].value@,
                r@[1].options@[m + 1].value@,
            ),
        forall|s: Seq<char>|
            (exists|m: int|
                1 <= m < r@[1].options@.len() && (#[trigger] r@[1].options@[m].value@) == s) <==> (
            s.len() > 0 && exists|i: int|
                0 <= i < results@.len() && (#[trigger] results@[i].title@) == s),
{
    // sources: map source key to its display name, first name wins
    let n = results.len();
    let mut source_keys: Vec<String> = Vec::new();
    let mut source_labels: Vec<String> = Vec::new();
    let mut titles: Vec<String> = Vec::new();
    let mut years: Vec<String> = Vec::new();
    let mut i: usize = 0;
    while i < n
        invariant
            n == results@.len(),
            0 <= i <= n,
            source_keys@.len() == source_labels@.len(),
            forall|p: int, q: int|
                0 <= p < q < titles@.len() ==> (#[trigger] titles@[p]@) != (#[trigger] titles@[q]@),
            forall|p: int| 0 <= p < titles@.len() ==> (#[trigger] titles@[p]@).len() > 0,
            forall|s: Seq<char>|
                #[trigger] spec_mem(titles@, s) <==> (s.len() > 0 && exists|j: int|
                    0 <= j < i && (#[trigger] results@[j].title@) == s),
        decreases n - i,
    {
        let it = &results[i];
        // remember the first display name seen for each source key
        if it.source.as_str().unicode_len() > 0 && it.source_name.as_str().unicode_len() > 0 {
            let mut seen: bool = false;
            let m = source_keys.len();
            let mut k: usize = 0;
            while k < m && !seen
                invariant
                    m == source_keys@.len(),
                    0 <= k <= m,
                decreases m - k + (if seen {
                    0int
                } else {
                    1int
                }),
            {
                if str_eq(source_keys[k].as_str(), it.source.as_str()) {
                    seen = true;
                } else {
                    k += 1;
                }
            }
            if !seen {
                source_keys.push(it.source.clone());
                source_labels.push(it.source_name.clone());
            }
        }
        // collect distinct non-empty titles
        let ghost titles0 = titles@;
        if it.title.as_str().unicode_len() > 0 {
            let mut present: bool = false;
            let m = titles.len();
            let mut k: usize = 0;
            while k < m && !present
                invariant
                    m == titles@.len(),
                    0 <= k <= m,
                    !present ==> forall|q: int| 0 <= q < k ==> (#[trigger] titles@[q]@) != it.title@,
                    present ==> spec_mem(titles@, it.title@),
                decreases m - k + (if present {
                    0int
                } else {
                    1int
                }),
            {
                if str_eq(titles[k].as_str(), it.title.as_str()) {
                    present = true;
                } else {
                    k += 1;
                }
            }
            if !present {
                titles.push(it.title.clone());
                proof {
                    assert forall|s: Seq<char>| #[trigger]
                        spec_mem(titles@, s) <==> (s.len() > 0 && exists|j: int|
                            0 <= j < i + 1 && (#[trigger] results@[j].title@) == s) by {
                        if spec_mem(titles@, s) {
                            let p = choose|p: int|
                                0 <= p < titles@.len() && titles@[p]@ == s;
                            if p < titles0.len() {
                                assert(spec_mem(titles0, s));
                            } else {
                                assert(results@[i as int].title@ == s);
                            }
                        }
                        if s.len() > 0 && exists|j: int|
                            0 <= j < i + 1 && (#[trigger] results@[j].title@) == s {
                            let j = choose|j: int|
                                0 <= j < i + 1 && (#[trigger] results@[j].title@) == s;
                            if j < i {
                                assert(spec_mem(titles0, s));
                                let p = choose|p: int|
                                    0 <= p < titles0.len() && titles0[p]@ == s;
                                assert(titles@[p]@ == s);
                            } else {
                                assert(titles@[titles@.len() - 1]@ == s);
                            }
                        }
                    }
                }
            } else {
                proof {
                    assert forall|s: Seq<char>| #[trigger]
                        spec_mem(titles@, s) <==> (s.len() > 0 && exists|j: int|
                            0 <= j < i + 1 && (#[trigger] results@[j].title@) == s) by {
                        if s.len() > 0 && exists|j: int|
                            0 <= j < i + 1 && (#[trigger] results@[j].title@) == s {
                            let j = choose|j: int|
                                0 <= j < i + 1 && (#[trigger] results@[j].title@) == s;
                            if j == i {
                                assert(spec_mem(titles@, s));
                            }
                        }
                    }
                }
            }
        } else {
            proof {
                assert forall|s: Seq<char>| #[trigger]
                    spec_mem(titles@, s) <==> (s.len() > 0 && exists|j: int|
                        0 <= j < i + 1 && (#[trigger] results@[j].title@) == s) by {
                    if s.len() > 0 && exists|j: int|
                        0 <= j < i + 1 && (#[trigger] results@[j].title@) == s {
                        let j = choose|j: int|
                            0 <= j < i + 1 && (#[trigger] results@[j].title@) == s;
                        if j == i {
                            assert(results@[j].title@.len() == 0);
                        }
                    }
                }
            }
        }
        // collect distinct non-empty trimmed years
        let year_opt: Option<String> = match &it.year {
            Some(y) => {
                let t = trim_str(y.as_str());
                if t.unicode_len() > 0 {
                    Some(t.to_owned())
                } else {
                    None
                }
            },
            None => None,
        };
        match year_opt {
            Some(y) => {
                let mut present: bool = false;
                let m = years.len();
                let mut k: usize = 0;
                while k < m && !present
                    invariant
                        m == years@.len(),
                        0 <= k <= m,
                    decreases m - k + (if present {
                        0int
                    } else {
                        1int
                    }),
                {
                    if str_eq(years[k].as_str(), y.as_str()) {
                        present = true;
                    } else {
                        k += 1;
                    }
                }
                if !present {
                    years.push(y);
                }
            },
            None => {},
        }
        i += 1;
    }

    // sources sorted by display name
    let mut source_options: Vec<SearchFilterOption> = Vec::new();
    source_options.push(
        SearchFilterOption { label: "全部来源".to_owned(), value: "all".to_owned() },
    );
    let mut sk = source_keys;
    let mut sl = source_labels;
    while sl.len() > 0
        invariant
            sk@.len() == sl@.len(),
            source_options@.len() >= 1,
            source_options@[0].value@ == "all"@,
        decreases sl@.len(),
    {
        let m = sl.len();
        let mut min_idx: usize = 0;
        let mut k: usize = 1;
        while k < m
            invariant
                m == sl@.len(),
                0 <= min_idx < m,
                0 <= k <= m,
            decreases m - k,
        {
            if !str_le(sl[min_idx].as_str(), sl[k].as_str()) {
                min_idx = k;
            }
            k += 1;
        }
        let label = sl.remove(min_idx);
        let value = sk.remove(min_idx);
        source_options.push(SearchFilterOption { label, value });
    }

    // titles sorted ascending, distinct
    let sorted_titles = crate::search_agg::sort_unique_strings(titles);
    let mut title_options: Vec<SearchFilterOption> = Vec::new();
    title_options.push(
        SearchFilterOption { label: "全部标题".to_owned(), value: "all".to_owned() },
    );
    let tn = sorted_titles.len();
    let ghost stv = sorted_titles@;
    let mut sorted_titles = sorted_titles;
    let mut k: usize = 0;
    while k < tn
        invariant
            tn == stv.len(),
            sorted_titles@ =~= stv.skip(k as int),
            0 <= k <= tn,
            title_options@.len() == k + 1,
            title_options@[0].value@ == "all"@,
            forall|m: int|
                1 <= m < title_options@.len() ==> (#[trigger] title_options@[m].value@) == stv[m
                    - 1]@ && title_options@[m].label@ == stv[m - 1]@,
        decreases tn - k,
    {
        proof {
            assert(stv.skip(k as int)[0] == stv[k as int]);
            assert(stv.skip(k as int).skip(1) =~= stv.skip(k as int + 1));
        }
        let t = sorted_titles.remove(0);
        let label = t.clone();
        title_options.push(SearchFilterOption { label, value: t });
        k += 1;
    }

    // years sorted newest first by numeric value, `unknown` last
    let mut known_years: Vec<String> = Vec::new();
    let mut has_unknown: bool = false;
    let yn = years.len();
    let mut years = years;
    let mut k: usize = 0;
    while k < yn
        invariant
            yn - k == years@.len(),
            0 <= k <= yn,
        decreases yn - k,
    {
        let y = years.remove(0);
        if str_eq(y.as_str(), "unknown") {
            has_unknown = true;
        } else {
            known_years.push(y);
        }
        k += 1;
    }
    let mut year_options: Vec<SearchFilterOption> = Vec::new();
    year_options.push(SearchFilterOption { label: "全部年份".to_owned(), value: "all".to_owned() });
    let mut ky = known_years;
    while ky.len() > 0
        invariant
            year_options@.len() >= 1,
            year_options@[0].value@ == "all"@,
        decreases ky@.len(),
    {
        let m = ky.len();
        let mut max_idx: usize = 0;
        let mut k: usize = 1;
        while k < m
            invariant
                m == ky@.len(),
                0 <= max_idx < m,
                0 <= k <= m,
            decreases m - k,
        {
            let a = match crate::strutil::parse_i32_str(ky[k].as_str()) {
                Some(v) => v,
                None => 0,
            };
            let b = match crate::strutil::parse_i32_str(ky[max_idx].as_str()) {
                Some(v) => v,
                None => 0,
            };
            if a > b {
                max_idx = k;
            }
            k += 1;
        }
        let y = ky.remove(max_idx);
        let label = y.clone();
        year_options.push(SearchFilterOption { label, value: y });
    }
    if has_unknown {
        year_options.push(
            SearchFilterOption { label: "未知".to_owned(), value: "unknown".to_owned() },
        );
    }

    let mut r: Vec<SearchFilterCategory> = Vec::new();
    r.push(
        SearchFilterCategory {
            key: "source".to_owned(),
            label: "来源".to_owned(),
            options: source_options,
        },
    );
    r.push(
        SearchFilterCategory {
            key: "title".to_owned(),
            label: "标题".to_owned(),
            options: title_options,
        },
    );
    r.push(
        SearchFilterCategory {
            key: "year".to_owned(),
            label: "年份".to_owned(),
            options: year_options,
        },
    );
    proof {
        assert forall|s: Seq<char>|
            (exists|m: int|
                1 <= m < r@[1].options@.len() && (#[trigger] r@[1].options@[m].value@) == s)
            <==> (s.len() > 0 && exists|i: int|
                0 <= i < results@.len() && (#[trigger] results@[i].title@) == s) by {
            if exists|m: int|
                1 <= m < r@[1].options@.len() && (#[trigger] r@[1].options@[m].value@) == s {
                let m = choose|m: int|
                    1 <= m < r@[1].options@.len() && (#[trigger] r@[1].options@[m].value@) == s;
                assert(stv[m - 1]@ == s);
                assert(spec_mem(stv, s));
            }
            if s.len() > 0 && exists|i: int|
                0 <= i < results@.len() && (#[trigger] results@[i].title@) == s {
                assert(spec_mem(stv, s));
                let j = choose|j: int| 0 <= j < stv.len() && stv[j]@ == s;
                assert(r@[1].options@[j + 1].value@ == s);
            }
        }
    }
    r
}

/// The search page's startup data: the stored history and the fluid-search
/// preference.
pub fn build_search_bootstrap(
    search_history: Vec<String>,
    preferences: UserPreferences,
) -> (r: SearchPageBootstrap)
    ensures
        r.search_history == search_history,
        r.fluid_search == preferences.fluid_search,
{
    SearchPageBootstrap { search_history, fluid_search: preferences.fluid_search }
}

} // verus!
