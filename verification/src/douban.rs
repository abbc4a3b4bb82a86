//! Douban browse-page logic: request parameter records with their
//! validation, page-mode resolution, per-kind defaults, parameter
//! builders for the category/recommendation/list endpoints, and the
//! decision of which requests are cacheable.

use vstd::prelude::*;

use crate::bangumi::{BangumiCalendarData, Items};
use crate::strutil::{
    contains_seq, contains_str, lower_seq, lower_char_exec, push_char, str_eq, trim_spec, trim_str,
};

verus! {

/// The two Douban content kinds.
#[derive(Clone, Copy, PartialEq, Eq, Structural)]
pub enum Kind {
    Tv,
    Movie,
}

/// The text a kind takes in URLs.
pub open spec fn kind_text(k: Kind) -> Seq<char> {
    match k {
        Kind::Tv => "tv"@,
        Kind::Movie => "movie"@,
    }
}

/// Parameters of the category endpoint.
pub struct DoubanCategoriesParams {
    pub kind: Kind,
    pub category: String,
    pub kind_tag: String,
    pub page_limit: Option<i32>,
    pub page_start: Option<i32>,
}

impl DoubanCategoriesParams {
    /// Builds category parameters.
    pub fn new(
        kind: Kind,
        category: String,
        kind_tag: String,
        page_limit: Option<i32>,
        page_start: Option<i32>,
    ) -> (r: DoubanCategoriesParams)
        ensures
            r.kind == kind,
            r.category == category,
            r.kind_tag == kind_tag,
            r.page_limit == page_limit,
            r.page_start == page_start,
    {
        DoubanCategoriesParams { kind, category, kind_tag, page_limit, page_start }
    }

    /// The page size, 20 when unset.
    pub fn page_limit(&self) -> (r: i32)
        ensures
            r == (match self.page_limit {
                Some(v) => v,
                None => 20,
            }),
    {
        match self.page_limit {
            Some(v) => v,
            None => 20,
        }
    }

    /// The page offset, 0 when unset.
    pub fn page_start(&self) -> (r: i32)
        ensures
            r == (match self.page_start {
                Some(v) => v,
                None => 0,
            }),
    {
        match self.page_start {
            Some(v) => v,
            None => 0,
        }
    }

    /// The kind as URL text.
    pub fn kind(&self) -> (r: &'static str)
        ensures
            r@ == kind_text(self.kind),
    {
        match self.kind {
            Kind::Tv => "tv",
            Kind::Movie => "movie",
        }
    }

    /// Valid when category and type are present and the paging values are
    /// in range: limit within 1 to 100, start not negative.
    pub fn validate(&self) -> (r: bool)
        ensures
            r == (self.category@.len() > 0 && self.kind_tag@.len() > 0 && 1 <= (
            match self.page_limit {
                Some(v) => v as int,
                None => 20,
            }) <= 100 && (match self.page_start {
                Some(v) => v as int,
                None => 0,
            }) >= 0),
    {
        if self.category.as_str().unicode_len() == 0 || self.kind_tag.as_str().unicode_len()
            == 0 {
            return false;
        }
        let limit = self.page_limit();
        if !(1 <= limit && limit <= 100) {
            return false;
        }
        let start = self.page_start();
        start >= 0
    }
}

/// One Douban item handed to the interface.
pub struct DoubanItem {
    pub id: String,
    pub title: String,
    pub poster: String,
    pub rate: String,
    pub year: String,
}

/// A Douban response: a status code, a message, and the items.
pub struct DoubanResult {
    pub code: i32,
    pub message: String,
    pub list: Vec<DoubanItem>,
}

/// A browse-page request.
pub struct DoubanPageRequest {
    pub request_type: String,
    pub primary_selection: String,
    pub secondary_selection: String,
    pub multi_level_selection: Option<Vec<(String, String)>>,
    pub selected_weekday: Option<String>,
    pub page: Option<i32>,
    pub page_limit: Option<i32>,
}

/// A browse-page response.
pub struct DoubanPageResponse {
    pub list: Vec<DoubanItem>,
    pub has_more: bool,
}

/// One custom category defined by the user.
pub struct DoubanCustomCategory {
    pub name: Option<String>,
    pub category_type: String,
    pub query: String,
    pub disabled: Option<bool>,
}

/// A request for the default selections of a page kind.
pub struct DoubanDefaultsRequest {
    pub request_type: String,
    pub custom_categories: Option<Vec<DoubanCustomCategory>>,
    pub fallback_secondary: Option<String>,
}

/// The default selections of a page kind.
pub struct DoubanDefaultsResponse {
    pub primary_selection: String,
    pub secondary_selection: String,
    pub multi_level_selection: Vec<(String, String)>,
    pub cache_enabled: bool,
    pub require_secondary: bool,
}

/// The Douban proxy modes a client can pick.
#[derive(Clone, Copy, PartialEq, Eq, Structural, Debug)]
pub enum DoubanProxyType {
    Direct,
    CorsProxyZwei,
    CmliussssCdnTencent,
    CmliussssCdnAli,
    CorsAnywhere,
    Custom,
}

/// The proxy mode and URL resolved from the preference values.
pub struct DoubanProxyConfig {
    pub proxy_type: DoubanProxyType,
    pub proxy_url: String,
}

/// The proxy mode named by a preference value; anything unrecognized maps
/// to the Tencent CDN.
pub open spec fn spec_proxy_type(v: Seq<char>) -> DoubanProxyType {
    if v == "direct"@ {
        DoubanProxyType::Direct
    } else if v == "cors-proxy-zwei"@ {
        DoubanProxyType::CorsProxyZwei
    } else if v == "cmliussss-cdn-tencent"@ {
        DoubanProxyType::CmliussssCdnTencent
    } else if v == "cmliussss-cdn-ali"@ {
        DoubanProxyType::CmliussssCdnAli
    } else if v == "cors-anywhere"@ {
        DoubanProxyType::CorsAnywhere
    } else if v == "custom"@ {
        DoubanProxyType::Custom
    } else {
        DoubanProxyType::CmliussssCdnTencent
    }
}

/// Parses a proxy-mode preference value.
pub fn proxy_type_from_str(value: &str) -> (r: DoubanProxyType)
    ensures
        r == spec_proxy_type(value@),
{
    if str_eq(value, "direct") {
        DoubanProxyType::Direct
    } else if str_eq(value, "cors-proxy-zwei") {
        DoubanProxyType::CorsProxyZwei
    } else if str_eq(value, "cmliussss-cdn-tencent") {
        DoubanProxyType::CmliussssCdnTencent
    } else if str_eq(value, "cmliussss-cdn-ali") {
        DoubanProxyType::CmliussssCdnAli
    } else if str_eq(value, "cors-anywhere") {
        DoubanProxyType::CorsAnywhere
    } else if str_eq(value, "custom") {
        DoubanProxyType::Custom
    } else {
        DoubanProxyType::CmliussssCdnTencent
    }
}

/// Resolves the proxy configuration: the per-request source wins over the
/// runtime preference, and the dedicated proxy URL over the runtime one.
pub fn get_douban_proxy_config(
    douban_data_source: Option<String>,
    runtime_proxy_type: Option<String>,
    douban_proxy_url: Option<String>,
    runtime_proxy_url: Option<String>,
) -> (r: DoubanProxyConfig)
    ensures
        ({
            let chosen = match douban_data_source {
                Some(v) => v@,
                None => match runtime_proxy_type {
                    Some(v) => v@,
                    None => "cmliussss-cdn-tencent"@,
                },
            };
            r.proxy_type == spec_proxy_type(chosen)
        }),
        r.proxy_url@ == (match douban_proxy_url {
            Some(v) => v@,
            None => match runtime_proxy_url {
                Some(v) => v@,
                None => Seq::<char>::empty(),
            },
        }),
{
    let type_str: String = match douban_data_source {
        Some(v) => v,
        None => match runtime_proxy_type {
            Some(v) => v,
            None => "cmliussss-cdn-tencent".to_owned(),
        },
    };
    let proxy_type = proxy_type_from_str(type_str.as_str());
    let proxy_url: String = match douban_proxy_url {
        Some(v) => v,
        None => match runtime_proxy_url {
            Some(v) => v,
            None => String::new(),
        },
    };
    DoubanProxyConfig { proxy_type, proxy_url }
}

/// How a browse page is served.
#[derive(Debug, PartialEq, Eq, Structural)]
pub enum DoubanPageMode {
    Categories,
    Recommends,
    Custom,
    AnimeDaily,
}

/// Parameters of the recommendation endpoint.
pub struct DoubanRecommendsParams {
    pub kind: Kind,
    pub page_limit: Option<i32>,
    pub page_start: Option<i32>,
    pub category: String,
    pub format: String,
    pub label: String,
    pub region: String,
    pub year: String,
    pub platform: String,
    pub sort: String,
}

impl DoubanRecommendsParams {
    /// The page size, 20 when unset.
    pub fn page_limit(&self) -> (r: i32)
        ensures
            r == (match self.page_limit {
                Some(v) => v,
                None => 20,
            }),
    {
        match self.page_limit {
            Some(v) => v,
            None => 20,
        }
    }

    /// The page offset, 0 when unset.
    pub fn page_start(&self) -> (r: i32)
        ensures
            r == (match self.page_start {
                Some(v) => v,
                None => 0,
            }),
    {
        match self.page_start {
            Some(v) => v,
            None => 0,
        }
    }

    /// The kind as URL text.
    pub fn kind(&self) -> (r: &'static str)
        ensures
            r@ == kind_text(self.kind),
    {
        match self.kind {
            Kind::Tv => "tv",
            Kind::Movie => "movie",
        }
    }

    /// The filter values with their `all` (and default-sort `T`)
    /// placeholders blanked, in field order.
    pub fn normalized_params(&self) -> (r: (String, String, String, String, String, String,
        String))
        ensures
            r.0@ == spec_unless_all(self.category@),
            r.1@ == spec_unless_all(self.format@),
            r.2@ == spec_unless_all(self.label@),
            r.3@ == spec_unless_all(self.region@),
            r.4@ == spec_unless_all(self.year@),
            r.5@ == spec_unless_all(self.platform@),
            r.6@ == (if self.sort@ == "T"@ {
                Seq::<char>::empty()
            } else {
                self.sort@
            }),
    {
        let category = unless_all(&self.category);
        let format = unless_all(&self.format);
        let label = unless_all(&self.label);
        let region = unless_all(&self.region);
        let year = unless_all(&self.year);
        let platform = unless_all(&self.platform);
        let sort = if str_eq(self.sort.as_str(), "T") {
            String::new()
        } else {
            self.sort.clone()
        };
        (category, format, label, region, year, platform, sort)
    }

    /// The recommendation base URL: the CDN mirrors when requested, else
    /// the Douban origin, with the kind appended.
    pub fn base_url(&self, use_tencent_cdn: bool, use_ali_cdn: bool) -> (r: String)
        ensures
            r@ == (if use_tencent_cdn {
                "https://m.douban.cmliussss.net/rexxar/api/v2/"@
            } else if use_ali_cdn {
                "https://m.douban.cmliussss.com/rexxar/api/v2/"@
            } else {
                "https://m.douban.com/rexxar/api/v2/"@
            }) + kind_text(self.kind) + "/recommend"@,
    {
        let mut r: String = if use_tencent_cdn {
            "https://m.douban.cmliussss.net/rexxar/api/v2/".to_owned()
        } else if use_ali_cdn {
            "https://m.douban.cmliussss.com/rexxar/api/v2/".to_owned()
        } else {
            "https://m.douban.com/rexxar/api/v2/".to_owned()
        };
        r.append(self.kind());
        r.append("/recommend");
        r
    }
}

/// A filter value, blanked when it is the `all` placeholder.
pub open spec fn spec_unless_all(v: Seq<char>) -> Seq<char> {
    if v == "all"@ {
        Seq::empty()
    } else {
        v
    }
}

fn unless_all(v: &String) -> (r: String)
    ensures
        r@ == spec_unless_all(v@),
{
    if str_eq(v.as_str(), "all") {
        String::new()
    } else {
        v.clone()
    }
}

/// Parameters of the list endpoint.
pub struct DoubanListParams {
    pub tag: String,
    pub kind_tag: String,
    pub page_limit: Option<i32>,
    pub page_start: Option<i32>,
}

impl DoubanListParams {
    /// The page size, 20 when unset.
    pub fn page_limit(&self) -> (r: i32)
        ensures
            r == (match self.page_limit {
                Some(v) => v,
                None => 20,
            }),
    {
        match self.page_limit {
            Some(v) => v,
            None => 20,
        }
    }

    /// The page offset, 0 when unset.
    pub fn page_start(&self) -> (r: i32)
        ensures
            r == (match self.page_start {
                Some(v) => v,
                None => 0,
            }),
    {
        match self.page_start {
            Some(v) => v,
            None => 0,
        }
    }

    /// Valid when tag and type are present, the type is `tv` or `movie`,
    /// and the paging values are in range.
    pub fn validate(&self) -> (r: bool)
        ensures
            r == (self.tag@.len() > 0 && self.kind_tag@.len() > 0 && (self.kind_tag@ == "tv"@
                || self.kind_tag@ == "movie"@) && 1 <= (match self.page_limit {
                Some(v) => v as int,
                None => 20,
            }) <= 100 && (match self.page_start {
                Some(v) => v as int,
                None => 0,
            }) >= 0),
    {
        if self.tag.as_str().unicode_len() == 0 || self.kind_tag.as_str().unicode_len() == 0 {
            return false;
        }
        if !str_eq(self.kind_tag.as_str(), "tv") && !str_eq(self.kind_tag.as_str(), "movie") {
            return false;
        }
        let limit = self.page_limit();
        if !(1 <= limit && limit <= 100) {
            return false;
        }
        let start = self.page_start();
        start >= 0
    }
}

/// How a page request is served: custom categories go to the list
/// endpoint; the anime daily page comes from the broadcast calendar;
/// anime otherwise, and tv/show pages with primary selection `全部`, use
/// the recommendation endpoint; everything else uses categories.
pub open spec fn spec_page_mode(rt: Seq<char>, primary: Seq<char>) -> DoubanPageMode {
    if rt == "custom"@ {
        DoubanPageMode::Custom
    } else if rt == "anime"@ {
        if primary == "每日放送"@ {
            DoubanPageMode::AnimeDaily
        } else {
            DoubanPageMode::Recommends
        }
    } else if (rt == "tv"@ || rt == "show"@) && primary == "全部"@ {
        DoubanPageMode::Recommends
    } else {
        DoubanPageMode::Categories
    }
}

/// Resolves how a browse-page request is served.
pub fn resolve_douban_page_mode(request: &DoubanPageRequest) -> (r: DoubanPageMode)
    ensures
        r == spec_page_mode(request.request_type@, request.primary_selection@),
{
    if str_eq(request.request_type.as_str(), "custom") {
        return DoubanPageMode::Custom;
    }
    if str_eq(request.request_type.as_str(), "anime") {
        if str_eq(request.primary_selection.as_str(), "每日放送") {
            return DoubanPageMode::AnimeDaily;
        }
        return DoubanPageMode::Recommends;
    }
    if (str_eq(request.request_type.as_str(), "tv") || str_eq(request.request_type.as_str(), "show"))
        && str_eq(request.primary_selection.as_str(), "全部") {
        return DoubanPageMode::Recommends;
    }
    DoubanPageMode::Categories
}

/// The default multi-level selection: every facet `all`, sort `T`.
pub fn default_multi_level_selection() -> (r: Vec<(String, String)>)
    ensures
        r@.len() == 6,
        r@[0].0@ == "type"@ && r@[0].1@ == "all"@,
        r@[1].0@ == "region"@ && r@[1].1@ == "all"@,
        r@[2].0@ == "year"@ && r@[2].1@ == "all"@,
        r@[3].0@ == "platform"@ && r@[3].1@ == "all"@,
        r@[4].0@ == "label"@ && r@[4].1@ == "all"@,
        r@[5].0@ == "sort"@ && r@[5].1@ == "T"@,
{
    let mut r: Vec<(String, String)> = Vec::new();
    r.push(("type".to_owned(), "all".to_owned()));
    r.push(("region".to_owned(), "all".to_owned()));
    r.push(("year".to_owned(), "all".to_owned()));
    r.push(("platform".to_owned(), "all".to_owned()));
    r.push(("label".to_owned(), "all".to_owned()));
    r.push(("sort".to_owned(), "T".to_owned()));
    r
}

/// The first index among the categories whose type is `t`, or the count.
pub open spec fn spec_first_of_type(cs: Seq<DoubanCustomCategory>, t: Seq<char>) -> int
    decreases cs.len(),
{
    if cs.len() == 0 {
        0
    } else if cs[0].category_type@ == t {
        0
    } else {
        1 + spec_first_of_type(cs.skip(1), t)
    }
}

/// The first type among the custom categories, preferring `movie`.
pub open spec fn spec_custom_selected_type(cats: Seq<DoubanCustomCategory>) -> Seq<char> {
    if exists|i: int| 0 <= i < cats.len() && (#[trigger] cats[i].category_type@) == "movie"@ {
        "movie"@
    } else if cats.len() > 0 {
        cats[0].category_type@
    } else {
        Seq::empty()
    }
}

/// The default selections of a page kind: primary and secondary text,
/// whether pages are cacheable, and whether a secondary selection is
/// required.
pub open spec fn spec_defaults(
    rt: Seq<char>,
    cats: Option<Seq<DoubanCustomCategory>>,
    fallback: Option<Seq<char>>,
) -> (Seq<char>, Seq<char>, bool, bool) {
    let fb = match fallback {
        Some(f) => f,
        None => Seq::<char>::empty(),
    };
    if rt == "custom"@ {
        let cs = match cats {
            Some(c) => c,
            None => Seq::<DoubanCustomCategory>::empty(),
        };
        if cs.len() == 0 {
            (Seq::<char>::empty(), fb, false, false)
        } else {
            let t = spec_custom_selected_type(cs);
            let ix = spec_first_of_type(cs, t);
            let secondary = if ix < cs.len() {
                cs[ix].query@
            } else {
                fb
            };
            (t, secondary, false, false)
        }
    } else if rt == "movie"@ {
        ("热门"@, "全部"@, true, true)
    } else if rt == "tv"@ {
        ("最近热门"@, "tv"@, true, true)
    } else if rt == "show"@ {
        ("最近热门"@, "show"@, true, true)
    } else if rt == "anime"@ {
        ("每日放送"@, "全部"@, true, false)
    } else {
        (Seq::<char>::empty(), "全部"@, false, true)
    }
}

proof fn lemma_first_of_type(cs: Seq<DoubanCustomCategory>, t: Seq<char>)
    ensures
        0 <= spec_first_of_type(cs, t) <= cs.len(),
        forall|j: int|
            0 <= j < spec_first_of_type(cs, t) ==> (#[trigger] cs[j].category_type@) != t,
        spec_first_of_type(cs, t) < cs.len() ==> cs[spec_first_of_type(cs, t)].category_type@
            == t,
    decreases cs.len(),
{
    if cs.len() > 0 && cs[0].category_type@ != t {
        lemma_first_of_type(cs.skip(1), t);
        assert forall|j: int|
            0 <= j < spec_first_of_type(cs, t) implies (#[trigger] cs[j].category_type@)
            != t by {
            if j > 0 {
                assert(cs.skip(1)[j - 1] == cs[j]);
                assert(cs.skip(1)[j - 1].category_type@ != t);
            }
        }
        if spec_first_of_type(cs, t) < cs.len() {
            assert(cs.skip(1)[spec_first_of_type(cs.skip(1), t)] == cs[spec_first_of_type(
                cs,
                t,
            )]);
        }
    }
}

proof fn lemma_first_of_type_count(cs: Seq<DoubanCustomCategory>, t: Seq<char>, e: int)
    requires
        0 <= e <= cs.len(),
        forall|j: int| 0 <= j < e ==> (#[trigger] cs[j].category_type@) != t,
        e < cs.len() ==> cs[e].category_type@ == t,
    ensures
        spec_first_of_type(cs, t) == e,
    decreases cs.len(),
{
    if cs.len() > 0 && cs[0].category_type@ != t {
        assert(e >= 1);
        assert forall|j: int|
            0 <= j < e - 1 implies (#[trigger] cs.skip(1)[j].category_type@) != t by {
            assert(cs.skip(1)[j] == cs[j + 1]);
            assert(cs[j + 1].category_type@ != t);
        }
        if e - 1 < cs.skip(1).len() {
            assert(cs.skip(1)[e - 1] == cs[e]);
        }
        lemma_first_of_type_count(cs.skip(1), t, e - 1);
    }
}

/// Resolves the default selections of a page kind.
pub fn resolve_douban_defaults(
    request_type: &str,
    custom_categories: Option<&Vec<DoubanCustomCategory>>,
    fallback_secondary: Option<&str>,
) -> (r: DoubanDefaultsResponse)
    ensures
        ({
            let spec = spec_defaults(
                request_type@,
                match custom_categories {
                    Some(c) => Some(c@),
                    None => None,
                },
                match fallback_secondary {
                    Some(f) => Some(f@),
                    None => None,
                },
            );
            &&& r.primary_selection@ == spec.0
            &&& r.secondary_selection@ == spec.1
            &&& r.cache_enabled == spec.2
            &&& r.require_secondary == spec.3
        }),
{
    let multi_level_selection = default_multi_level_selection();
    if str_eq(request_type, "custom") {
        let empty_cats: Vec<DoubanCustomCategory> = Vec::new();
        let cats: &Vec<DoubanCustomCategory> = match custom_categories {
            Some(c) => c,
            None => &empty_cats,
        };
        if cats.len() == 0 {
            let secondary: String = match fallback_secondary {
                Some(f) => f.to_owned(),
                None => String::new(),
            };
            return DoubanDefaultsResponse {
                primary_selection: String::new(),
                secondary_selection: secondary,
                multi_level_selection,
                cache_enabled: false,
                require_secondary: false,
            };
        }
        // prefer a movie category, else take the first
        let n = cats.len();
        let mut movie_at: Option<usize> = None;
        let mut i: usize = 0;
        while i < n
            invariant
                n == cats@.len(),
                0 <= i <= n,
                movie_at is Some ==> 0 <= movie_at->0 < n && cats@[
                    movie_at->0 as int
                ].category_type@ == "movie"@,
                movie_at is None ==> forall|j: int|
                    0 <= j < i ==> (#[trigger] cats@[j].category_type@) != "movie"@,
            decreases n - i,
        {
            if movie_at.is_none() && str_eq(cats[i].category_type.as_str(), "movie") {
                movie_at = Some(i);
            }
            i += 1;
        }
        let selected_type: String = match movie_at {
            Some(ix) => cats[ix].category_type.clone(),
            None => cats[0].category_type.clone(),
        };
        proof {
            assert(selected_type@ == spec_custom_selected_type(cats@));
        }
        // the first category of the selected type supplies the query
        let mut secondary: String = match fallback_secondary {
            Some(f) => f.to_owned(),
            None => String::new(),
        };
        let mut found: bool = false;
        let mut i: usize = 0;
        while i < n
            invariant
                n == cats@.len(),
                0 <= i <= n,
                !found ==> forall|j: int|
                    0 <= j < i ==> (#[trigger] cats@[j].category_type@) != selected_type@,
                !found ==> secondary@ == (match fallback_secondary {
                    Some(f) => f@,
                    None => Seq::<char>::empty(),
                }),
                found ==> exists|j: int|
                    0 <= j < i && (#[trigger] cats@[j].category_type@) == selected_type@
                        && spec_first_of_type(cats@, selected_type@) == j && secondary@
                        == cats@[j].query@,
            decreases n - i,
        {
            if !found && str_eq(cats[i].category_type.as_str(), selected_type.as_str()) {
                secondary = cats[i].query.clone();
                found = true;
                proof {
                    lemma_first_of_type_count(cats@, selected_type@, i as int);
                }
            }
            i += 1;
        }
        proof {
            lemma_first_of_type(cats@, selected_type@);
            if !found {
                lemma_first_of_type_count(cats@, selected_type@, n as int);
            }
        }
        return DoubanDefaultsResponse {
            primary_selection: selected_type,
            secondary_selection: secondary,
            multi_level_selection,
            cache_enabled: false,
            require_secondary: false,
        };
    }
    if str_eq(request_type, "movie") {
        DoubanDefaultsResponse {
            primary_selection: "热门".to_owned(),
            secondary_selection: "全部".to_owned(),
            multi_level_selection,
            cache_enabled: true,
            require_secondary: true,
        }
    } else if str_eq(request_type, "tv") {
        DoubanDefaultsResponse {
            primary_selection: "最近热门".to_owned(),
            secondary_selection: "tv".to_owned(),
            multi_level_selection,
            cache_enabled: true,
            require_secondary: true,
        }
    } else if str_eq(request_type, "show") {
        DoubanDefaultsResponse {
            primary_selection: "最近热门".to_owned(),
            secondary_selection: "show".to_owned(),
            multi_level_selection,
            cache_enabled: true,
            require_secondary: true,
        }
    } else if str_eq(request_type, "anime") {
        DoubanDefaultsResponse {
            primary_selection: "每日放送".to_owned(),
            secondary_selection: "全部".to_owned(),
            multi_level_selection,
            cache_enabled: true,
            require_secondary: false,
        }
    } else {
        DoubanDefaultsResponse {
            primary_selection: String::new(),
            secondary_selection: "全部".to_owned(),
            multi_level_selection,
            cache_enabled: false,
            require_secondary: true,
        }
    }
}

/// The English weekday name for a day count since the Unix epoch, which
/// was a Thursday.
pub open spec fn spec_weekday_en(days: int) -> Seq<char> {
    let ix = (days + 4) % 7;
    if ix == 0 {
        "Sun"@
    } else if ix == 1 {
        "Mon"@
    } else if ix == 2 {
        "Tue"@
    } else if ix == 3 {
        "Wed"@
    } else if ix == 4 {
        "Thu"@
    } else if ix == 5 {
        "Fri"@
    } else {
        "Sat"@
    }
}

/// The weekday name of a day count.
pub fn weekday_en_from_days(days: u64) -> (r: &'static str)
    ensures
        r@ == spec_weekday_en(days as int),
{
    let ix = (days % 7 + 4) % 7;
    proof {
        assert((days % 7 + 4) % 7 == ((days as int) + 4) % 7) by {
            assert(days as int == (days as int / 7) * 7 + days as int % 7);
            vstd::arithmetic::div_mod::lemma_mod_adds(
                (days as int / 7) * 7,
                days as int % 7 + 4,
                7,
            );
            vstd::arithmetic::div_mod::lemma_mod_multiples_vanish(days as int / 7, 0, 7);
        }
    }
    if ix == 0 {
        "Sun"
    } else if ix == 1 {
        "Mon"
    } else if ix == 2 {
        "Tue"
    } else if ix == 3 {
        "Wed"
    } else if ix == 4 {
        "Thu"
    } else if ix == 5 {
        "Fri"
    } else {
        "Sat"
    }
}

/// Relies on `std::time::SystemTime::now`: the clock reading, in seconds
/// since the Unix epoch; nothing is assumed of its value.
#[verifier::external_body]
pub fn now_unix_secs() -> u64 {
    match std::time::SystemTime::now().duration_since(std::time::SystemTime::UNIX_EPOCH) {
        Ok(d) => d.as_secs(),
        Err(_) => 0,
    }
}

/// Today's English weekday name, from the system clock.
pub fn current_weekday_en() -> (r: &'static str)
    ensures
        exists|d: int| r@ == spec_weekday_en(d),
{
    let days = now_unix_secs() / 86400;
    let r = weekday_en_from_days(days);
    proof {
        assert(r@ == spec_weekday_en(days as int));
    }
    r
}

/// The requested weekday, trimmed, or today's when empty or absent.
pub fn resolve_selected_weekday(selected: Option<&str>) -> (r: String)
    ensures
        (match selected {
            Some(s) => trim_spec(s@).len() > 0,
            None => false,
        }) ==> r@ == trim_spec(selected->0@),
        !(match selected {
            Some(s) => trim_spec(s@).len() > 0,
            None => false,
        }) ==> exists|d: int| r@ == spec_weekday_en(d),
{
    match selected {
        Some(value) => {
            let trimmed = trim_str(value);
            if trimmed.unicode_len() > 0 {
                return trimmed.to_owned();
            }
            current_weekday_en().to_owned()
        },
        None => current_weekday_en().to_owned(),
    }
}

/// The value stored under `key` in a multi-level selection, empty when
/// absent.
pub open spec fn spec_multi_value(
    selection: Option<Seq<(String, String)>>,
    key: Seq<char>,
) -> Seq<char>
    decreases (match selection {
        Some(s) => s.len(),
        None => 0,
    }),
{
    match selection {
        Some(s) => if s.len() == 0 {
            Seq::empty()
        } else if s[0].0@ == key {
            s[0].1@
        } else {
            spec_multi_value(Some(s.skip(1)), key)
        },
        None => Seq::empty(),
    }
}

/// Looks up one facet of the multi-level selection.
pub fn extract_multi_value(selection: Option<&Vec<(String, String)>>, key: &str) -> (r: String)
    ensures
        r@ == spec_multi_value(
            match selection {
                Some(s) => Some(s@),
                None => None,
            },
            key@,
        ),
{
    match selection {
        Some(s) => {
            let n = s.len();
            let mut i: usize = 0;
            proof {
                assert(s@.skip(0) =~= s@);
            }
            while i < n
                invariant
                    selection == Some(s),
                    n == s@.len(),
                    0 <= i <= n,
                    spec_multi_value(Some(s@), key@) == spec_multi_value(
                        Some(s@.skip(i as int)),
                        key@,
                    ),
                decreases n - i,
            {
                proof {
                    assert(s@.skip(i as int)[0] == s@[i as int]);
                    assert(s@.skip(i as int).skip(1) =~= s@.skip(i as int + 1));
                }
                if str_eq(s[i].0.as_str(), key) {
                    proof {
                        assert(spec_multi_value(Some(s@.skip(i as int)), key@)
                            == s@[i as int].1@);
                    }
                    return s[i].1.clone();
                }
                i += 1;
            }
            proof {
                assert(s@.skip(n as int).len() == 0);
            }
            String::new()
        },
        None => String::new(),
    }
}

/// Unwraps a successful Douban response into its items; a failed one
/// carries its message as the error.
pub fn ensure_success(result: DoubanResult) -> (r: Result<Vec<DoubanItem>, String>)
    ensures
        result.code == 200 ==> r is Ok && r->Ok_0 == result.list,
        result.code != 200 ==> r is Err && r->Err_0 == result.message,
{
    if result.code == 200 {
        Ok(result.list)
    } else {
        Err(result.message)
    }
}

/// Whether an error message reports a response-body decoding failure,
/// matched case-insensitively.
pub fn is_body_decode_error(message: &str) -> (r: bool)
    ensures
        r == contains_seq(lower_seq(message@), "decoding response body"@),
{
    let lowered = ascii_lowercase(message);
    contains_str(lowered.as_str(), "decoding response body")
}

/// ASCII-lowercases a string, as `str::to_ascii_lowercase` does.
pub fn ascii_lowercase(s: &str) -> (r: String)
    ensures
        r@ == lower_seq(s@),
{
    let n = s.unicode_len();
    let mut r = String::new();
    let mut i: usize = 0;
    while i < n
        invariant
            n == s@.len(),
            0 <= i <= n,
            r@ =~= lower_seq(s@.take(i as int)),
        decreases n - i,
    {
        let c = lower_char_exec(s.get_char(i));
        push_char(&mut r, c);
        proof {
            assert(r@ =~= lower_seq(s@.take(i as int + 1)));
        }
        i += 1;
    }
    proof {
        assert(s@.take(n as int) =~= s@);
    }
    r
}

/// The list-endpoint parameters used when the recommendation endpoint
/// cannot decode: movie requests stay movies, everything else becomes tv;
/// a generic secondary selection falls back to `动画` for anime and
/// `热门` otherwise, a specific one becomes the tag itself.
pub fn build_recommends_fallback_list_params(
    request: &DoubanPageRequest,
    page_limit: i32,
    page_start: i32,
) -> (r: DoubanListParams)
    ensures
        r.kind_tag@ == (if request.request_type@ == "movie"@ {
            "movie"@
        } else {
            "tv"@
        }),
        ({
            let secondary = trim_spec(request.secondary_selection@);
            let generic = secondary.len() == 0 || secondary == "全部"@ || lower_seq(secondary)
                == "tv"@ || lower_seq(secondary) == "show"@;
            r.tag@ == (if generic {
                if request.request_type@ == "anime"@ {
                    "动画"@
                } else {
                    "热门"@
                }
            } else {
                secondary
            })
        }),
        r.page_limit == Some(page_limit),
        r.page_start == Some(page_start),
{
    let kind_tag: String = if str_eq(request.request_type.as_str(), "movie") {
        "movie".to_owned()
    } else {
        "tv".to_owned()
    };
    let secondary = trim_str(request.secondary_selection.as_str());
    let sec_lower = ascii_lowercase(secondary);
    let generic = secondary.unicode_len() == 0 || str_eq(secondary, "全部") || str_eq(
        sec_lower.as_str(),
        "tv",
    ) || str_eq(sec_lower.as_str(), "show");
    let tag: String = if generic {
        if str_eq(request.request_type.as_str(), "anime") {
            "动画".to_owned()
        } else {
            "热门".to_owned()
        }
    } else {
        secondary.to_owned()
    };
    DoubanListParams { tag, kind_tag, page_limit: Some(page_limit), page_start: Some(page_start) }
}

/// Whether a page request may be served from the page cache: only the
/// built-in kinds at their default primary selection (and, where one is
/// required, default secondary selection).
pub fn should_cache_douban_request(request: &DoubanPageRequest) -> (r: bool)
    ensures
        request.request_type@ == "custom"@ || request.request_type@ == "anime"@ ==> r == false,
{
    if str_eq(request.request_type.as_str(), "custom") || str_eq(
        request.request_type.as_str(),
        "anime",
    ) {
        return false;
    }
    let defaults = resolve_douban_defaults(request.request_type.as_str(), None, None);
    if !defaults.cache_enabled {
        return false;
    }
    if !str_eq(
        request.primary_selection.as_str(),
        defaults.primary_selection.as_str(),
    ) {
        return false;
    }
    if defaults.require_secondary && !str_eq(
        request.secondary_selection.as_str(),
        defaults.secondary_selection.as_str(),
    ) {
        return false;
    }
    true
}

/// The recommendation parameters for a page request: facets from the
/// multi-level selection; anime pages force the `动画` category and pick
/// kind and format by primary selection; show and tv pages are tv with
/// their format; everything else is a movie request.
pub fn build_recommends_params(
    request: &DoubanPageRequest,
    page_limit: i32,
    page_start: i32,
) -> (r: DoubanRecommendsParams)
    ensures
        ({
            let sel = match request.multi_level_selection {
                Some(s) => Some(s@),
                None => None,
            };
            &&& r.region@ == spec_multi_value(sel, "region"@)
            &&& r.year@ == spec_multi_value(sel, "year"@)
            &&& r.platform@ == spec_multi_value(sel, "platform"@)
            &&& r.sort@ == spec_multi_value(sel, "sort"@)
            &&& r.label@ == spec_multi_value(sel, "label"@)
            &&& r.category@ == (if request.request_type@ == "anime"@ {
                "动画"@
            } else {
                spec_multi_value(sel, "type"@)
            })
            &&& (request.request_type@ == "anime"@ && request.primary_selection@ == "热门"@)
                ==> r.kind == Kind::Tv && r.format@ == "电视剧"@
            &&& (request.request_type@ == "anime"@ && request.primary_selection@ != "热门"@)
                ==> r.kind == Kind::Movie && r.format@.len() == 0
            &&& (request.request_type@ != "anime"@ && request.request_type@ == "show"@) ==> r.kind
                == Kind::Tv && r.format@ == "综艺"@
            &&& (request.request_type@ != "anime"@ && request.request_type@ != "show"@
                && request.request_type@ == "tv"@) ==> r.kind == Kind::Tv && r.format@
                == "电视剧"@
            &&& (request.request_type@ != "anime"@ && request.request_type@ != "show"@
                && request.request_type@ != "tv"@) ==> r.kind == Kind::Movie && r.format@.len()
                == 0
            &&& r.page_limit == Some(page_limit)
            &&& r.page_start == Some(page_start)
        }),
{
    let selection = request.multi_level_selection.as_ref();
    let region = extract_multi_value(selection, "region");
    let year = extract_multi_value(selection, "year");
    let platform = extract_multi_value(selection, "platform");
    let sort = extract_multi_value(selection, "sort");
    let label = extract_multi_value(selection, "label");
    let category: String = if str_eq(request.request_type.as_str(), "anime") {
        "动画".to_owned()
    } else {
        extract_multi_value(selection, "type")
    };
    let mut kind = Kind::Movie;
    let mut format = String::new();
    if str_eq(request.request_type.as_str(), "anime") {
        if str_eq(request.primary_selection.as_str(), "热门") {
            kind = Kind::Tv;
            format = "电视剧".to_owned();
        }
    } else if str_eq(request.request_type.as_str(), "show") {
        kind = Kind::Tv;
        format = "综艺".to_owned();
    } else if str_eq(request.request_type.as_str(), "tv") {
        kind = Kind::Tv;
        format = "电视剧".to_owned();
    }
    DoubanRecommendsParams {
        kind,
        page_limit: Some(page_limit),
        page_start: Some(page_start),
        category,
        format,
        label,
        region,
        year,
        platform,
        sort,
    }
}

/// The category parameters for a page request: tv and show pages use
/// their kind as the category; movie pages use the primary selection.
pub fn build_categories_params(
    request: &DoubanPageRequest,
    page_limit: i32,
    page_start: i32,
) -> (r: DoubanCategoriesParams)
    ensures
        (request.request_type@ == "tv"@ || request.request_type@ == "show"@) ==> r.kind
            == Kind::Tv && r.category == request.request_type && r.kind_tag
            == request.secondary_selection,
        !(request.request_type@ == "tv"@ || request.request_type@ == "show"@) ==> (r.kind == (
        if request.request_type@ == "movie"@ {
            Kind::Movie
        } else {
            Kind::Tv
        }) && r.category == request.primary_selection && r.kind_tag
            == request.secondary_selection),
        r.page_limit == Some(page_limit),
        r.page_start == Some(page_start),
{
    if str_eq(request.request_type.as_str(), "tv") || str_eq(request.request_type.as_str(), "show") {
        DoubanCategoriesParams::new(
            Kind::Tv,
            request.request_type.clone(),
            request.secondary_selection.clone(),
            Some(page_limit),
            Some(page_start),
        )
    } else {
        let kind = if str_eq(request.request_type.as_str(), "movie") {
            Kind::Movie
        } else {
            Kind::Tv
        };
        DoubanCategoriesParams::new(
            kind,
            request.primary_selection.clone(),
            request.secondary_selection.clone(),
            Some(page_limit),
            Some(page_start),
        )
    }
}

/// The daily-broadcast list for one weekday: the calendar entry of that
/// weekday supplies the items; entries with id 0 are dropped; titles
/// prefer the Chinese name; posters fall back through the image sizes to
/// a placeholder; the year is the leading digits of the air date.
pub fn build_bangumi_daily_list(data: Vec<BangumiCalendarData>, weekday: &str) -> (r: Result<
    Vec<DoubanItem>,
    String,
>)
    ensures
        (exists|i: int|
            0 <= i < data@.len() && (#[trigger] data@[i].weekday) is Some
                && data@[i].weekday->0.en@ == weekday@) ==> r is Ok,
{
    let n = data.len();
    let ghost dv = data@;
    let mut data = data;
    let mut day_items: Option<Vec<Items>> = None;
    let mut i: usize = 0;
    proof {
        assert(data@ =~= dv.skip(0));
    }
    while i < n
        invariant
            n == dv.len(),
            data@ =~= dv.skip(i as int),
            0 <= i <= n,
            day_items is None ==> forall|j: int|
                0 <= j < i ==> !((#[trigger] dv[j].weekday) is Some && dv[j].weekday->0.en@
                    == weekday@),
        decreases n - i,
    {
        proof {
            assert(dv.skip(i as int)[0] == dv[i as int]);
            assert(dv.skip(i as int).skip(1) =~= dv.skip(i as int + 1));
        }
        let entry = data.remove(0);
        if day_items.is_none() {
            let matches = match &entry.weekday {
                Some(w) => str_eq(w.en.as_str(), weekday),
                None => false,
            };
            if matches {
                day_items = match entry.items {
                    Some(items) => Some(items),
                    None => Some(Vec::new()),
                };
            }
        }
        i += 1;
    }
    let items = match day_items {
        Some(items) => items,
        None => {
            return Err("没有找到对应的日期".to_owned());
        },
    };
    let mut list: Vec<DoubanItem> = Vec::new();
    let m = items.len();
    let mut items = items;
    let mut k: usize = 0;
    while k < m
        invariant
            m - k == items@.len(),
            0 <= k <= m,
        decreases m - k,
    {
        let item = items.remove(0);
        if item.id != 0 {
            let title = if item.name_cn.as_str().unicode_len() > 0 {
                item.name_cn
            } else {
                item.name
            };
            let poster: String = match &item.images {
                Some(images) => {
                    match (&images.large, &images.common, &images.medium, &images.small) {
                        (Some(u), _, _, _) => u.clone(),
                        (None, Some(u), _, _) => u.clone(),
                        (None, None, Some(u), _) => u.clone(),
                        (None, None, None, Some(u)) => u.clone(),
                        (None, None, None, None) => match &images.grid {
                            Some(u) => u.clone(),
                            None => "/logo.png".to_owned(),
                        },
                    }
                },
                None => "/logo.png".to_owned(),
            };
            let rate: String = match item.rating_score {
                Some(score) => score,
                None => String::new(),
            };
            let year: String = match &item.air_date {
                Some(value) => leading_year(value.as_str()),
                None => String::new(),
            };
            let id = if item.id >= 0 {
                item.id as u64
            } else {
                0u64
            };
            list.push(
                DoubanItem { id: crate::strutil::u64_to_string(id), title, poster, rate, year },
            );
        }
        k += 1;
    }
    Ok(list)
}

/// The text before the first `-` of an air date, its year part.
pub fn leading_year(value: &str) -> (r: String)
    ensures
        ({
            let s = value@;
            forall|j: int| 0 <= j < r@.len() ==> r@[j] == s[j]
        }),
{
    let n = value.unicode_len();
    let mut r = String::new();
    let mut i: usize = 0;
    while i < n
        invariant
            n == value@.len(),
            0 <= i <= n,
            r@.len() == i,
            forall|j: int| 0 <= j < i ==> r@[j] == value@[j],
        decreases n - i,
    {
        let c = value.get_char(i);
        if c == '-' {
            return r;
        }
        push_char(&mut r, c);
        i += 1;
    }
    r
}

} // verus!
