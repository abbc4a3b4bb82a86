//! Bangumi broadcast-calendar records and image URL normalization.

use vstd::prelude::*;

use crate::strutil::{has_prefix, push_char, starts_with_str};

verus! {

/// A weekday of the broadcast calendar.
#[derive(Clone)]
pub struct Weekday {
    pub en: String,
}

/// The image URLs of one calendar item, by size.
#[derive(Clone)]
pub struct Images {
    pub large: Option<String>,
    pub common: Option<String>,
    pub medium: Option<String>,
    pub small: Option<String>,
    pub grid: Option<String>,
}

/// One broadcast-calendar item. The rating score arrives pre-formatted
/// as text, since this crate holds no floating-point values.
pub struct Items {
    pub id: i32,
    pub name: String,
    pub name_cn: String,
    pub rating_score: Option<String>,
    pub air_date: Option<String>,
    pub images: Option<Images>,
}

/// One weekday of the broadcast calendar with its items.
pub struct BangumiCalendarData {
    pub weekday: Option<Weekday>,
    pub items: Option<Vec<Items>>,
}

/// An `http://` image URL upgraded to `https://`; anything else is
/// unchanged.
pub open spec fn spec_upgraded(u: Seq<char>) -> Seq<char> {
    if has_prefix(u, "http://"@) {
        "https://"@ + u.skip("http://"@.len() as int)
    } else {
        u
    }
}

/// Upgrades an optional image URL from `http://` to `https://`.
pub fn normalize_image_url(url: Option<String>) -> (r: Option<String>)
    ensures
        url is None ==> r is None,
        url is Some ==> r is Some && r->0@ == spec_upgraded(url->0@),
{
    match url {
        Some(u) => {
            if starts_with_str(u.as_str(), "http://") {
                let n = u.as_str().unicode_len();
                let plen = "http://".unicode_len();
                let rest = u.as_str().substring_char(plen, n);
                let mut out: String = "https://".to_owned();
                out.append(rest);
                proof {
                    assert(out@ =~= spec_upgraded(u@));
                }
                Some(out)
            } else {
                Some(u)
            }
        },
        None => None,
    }
}

impl Images {
    /// Upgrades every image URL to `https://`.
    pub fn normalize_urls(&mut self)
        ensures
            ({
                let a = *old(self);
                let b = *final(self);
                &&& (a.large is None ==> b.large is None) && (a.large is Some ==> b.large is Some
                    && b.large->0@ == spec_upgraded(a.large->0@))
                &&& (a.common is None ==> b.common is None) && (a.common is Some ==> b.common
                    is Some && b.common->0@ == spec_upgraded(a.common->0@))
                &&& (a.medium is None ==> b.medium is None) && (a.medium is Some ==> b.medium
                    is Some && b.medium->0@ == spec_upgraded(a.medium->0@))
                &&& (a.small is None ==> b.small is None) && (a.small is Some ==> b.small is Some
                    && b.small->0@ == spec_upgraded(a.small->0@))
                &&& (a.grid is None ==> b.grid is None) && (a.grid is Some ==> b.grid is Some
                    && b.grid->0@ == spec_upgraded(a.grid->0@))
            }),
    {
        let mut large: Option<String> = None;
        core::mem::swap(&mut self.large, &mut large);
        self.large = normalize_image_url(large);
        let mut common: Option<String> = None;
        core::mem::swap(&mut self.common, &mut common);
        self.common = normalize_image_url(common);
        let mut medium: Option<String> = None;
        core::mem::swap(&mut self.medium, &mut medium);
        self.medium = normalize_image_url(medium);
        let mut small: Option<String> = None;
        core::mem::swap(&mut self.small, &mut small);
        self.small = normalize_image_url(small);
        let mut grid: Option<String> = None;
        core::mem::swap(&mut self.grid, &mut grid);
        self.grid = normalize_image_url(grid);
    }
}

} // verus!
