//! TVBox configuration assembly: subscription formats, site-type
//! detection, adult filtering of sites, the spider advertisement string,
//! and the parse-list injection for the ad-filtering proxy.

use vstd::prelude::*;

use crate::adult::{is_adult_source, spec_adult_source};
use crate::strutil::{contains_seq, has_prefix, lower_of, push_char, starts_with_str, str_eq};

verus! {

/// One upstream site entry of a TVBox configuration.
pub struct Site {
    pub key: String,
    pub name: String,
    pub site_type: i32,
    pub api: String,
    pub jar: Option<String>,
    pub is_adult: Option<bool>,
    pub searchable: Option<i32>,
    pub quick_search: Option<i32>,
    pub filterable: Option<i32>,
    pub changeable: Option<i32>,
}

/// One player-parse entry of a TVBox configuration.
pub struct Parse {
    pub name: String,
    pub parse_type: i32,
    pub url: String,
}

/// A TVBox subscription: spider URL, sites, parses and raw live entries.
pub struct SubscriptionConfig {
    pub spider: Option<String>,
    pub sites: Option<Vec<Site>>,
    pub parses: Option<Vec<Parse>>,
    pub lives: Option<Vec<String>>,
}

/// One site of the custom `api_site` subscription format.
pub struct ApiSiteInfo {
    pub name: String,
    pub api: String,
}

/// The custom subscription format: a keyed list of API sites.
pub struct CustomSubscriptionFormat {
    pub api_site: Vec<(String, ApiSiteInfo)>,
}

/// The query parameters of the configuration endpoint.
pub struct ConfigParams {
    pub filter: Option<String>,
    pub adult: Option<String>,
    pub mode: Option<String>,
    pub spider: Option<String>,
    pub force_spider_refresh: Option<String>,
    pub subscription_url: Option<String>,
}

/// A MacCMS-style API is recognized by its provide-vod path or a `maccms`
/// marker; such sites get type 1, spider sites type 3.
pub open spec fn spec_site_type(api: Seq<char>) -> int {
    if contains_seq(api, "/api.php/provide/vod"@) || contains_seq(api, "/api.php/provide/"@)
        || contains_seq(api, "maccms"@) {
        1
    } else {
        3
    }
}

/// Classifies an API URL as a MacCMS resource site (1) or a spider site (3).
pub fn determine_site_type(api_url: &str) -> (r: i32)
    ensures
        r == spec_site_type(api_url@),
{
    if crate::strutil::contains_str(api_url, "/api.php/provide/vod") || crate::strutil::contains_str(
        api_url,
        "/api.php/provide/",
    ) || crate::strutil::contains_str(api_url, "maccms") {
        1
    } else {
        3
    }
}

/// A domain turned into a site key: dots, dashes and colons become
/// underscores.
pub open spec fn spec_domain_key(d: Seq<char>) -> Seq<char> {
    d.map_values(
        |c: char|
            if c == '.' || c == '-' || c == ':' {
                '_'
            } else {
                c
            },
    )
}

/// Replaces the separators of a domain with underscores for use as a key.
pub fn domain_to_key(domain: &str) -> (r: String)
    ensures
        r@ == spec_domain_key(domain@),
{
    let n = domain.unicode_len();
    let mut r = String::new();
    let mut i: usize = 0;
    while i < n
        invariant
            n == domain@.len(),
            0 <= i <= n,
            r@ =~= spec_domain_key(domain@.take(i as int)),
        decreases n - i,
    {
        let c = domain.get_char(i);
        if c == '.' || c == '-' || c == ':' {
            push_char(&mut r, '_');
        } else {
            push_char(&mut r, c);
        }
        proof {
            assert(r@ =~= spec_domain_key(domain@.take(i as int + 1)));
        }
        i += 1;
    }
    proof {
        assert(domain@.take(n as int) =~= domain@);
    }
    r
}

/// A URL points at a private host when it is not an HTTP URL at all, or
/// its lowercased text names localhost or a private address prefix.
pub open spec fn spec_private_host(url: Seq<char>) -> bool {
    if has_prefix(url, "http"@) {
        contains_seq(lower_of(url), "localhost"@) || contains_seq(lower_of(url), "127."@)
            || contains_seq(lower_of(url), "10."@)
    } else {
        true
    }
}

/// Whether a spider URL override would point inside a private network.
pub fn is_private_host(url: &str) -> (r: bool)
    ensures
        r == spec_private_host(url@),
{
    if starts_with_str(url, "http") {
        let lower = crate::strutil::lowercase(url);
        let l = lower.as_str();
        crate::strutil::contains_str(l, "localhost") || crate::strutil::contains_str(l, "127.")
            || crate::strutil::contains_str(l, "10.")
    } else {
        true
    }
}

/// The advertised spider value: the local proxy URL, a `;md5;` marker,
/// and the checksum of the served binary, so clients can cache-bust.
pub fn build_spider_value(proxy_url: &str, md5: &str) -> (r: String)
    ensures
        r@ == proxy_url@ + ";md5;"@ + md5@,
{
    let mut r = proxy_url.to_owned();
    r.append(";md5;");
    r.append(md5);
    r
}

/// The spider value offered to a client: a public override URL wins over
/// the locally proxied spider; private or non-HTTP overrides are ignored.
pub fn choose_spider(override_url: &Option<String>, global_spider: String) -> (r: String)
    ensures
        ({
            let use_override = override_url is Some && has_prefix(override_url->0@, "http"@)
                && !spec_private_host(override_url->0@);
            if use_override {
                r@ == override_url->0@
            } else {
                r == global_spider
            }
        }),
{
    match override_url {
        Some(u) => {
            if starts_with_str(u.as_str(), "http") && !is_private_host(u.as_str()) {
                u.clone()
            } else {
                global_spider
            }
        },
        None => global_spider,
    }
}

/// Adult sites are filtered out unless filtering is switched off or adult
/// content is requested explicitly.
pub open spec fn spec_filter_adult(filter: Option<Seq<char>>, adult: Option<Seq<char>>) -> bool {
    !(filter == Some("off"@) || filter == Some("disable"@)) && !(adult == Some("1"@) || adult
        == Some("true"@))
}

/// Decides whether adult sites are filtered from the configuration.
pub fn should_filter_adult(filter: &Option<String>, adult: &Option<String>) -> (r: bool)
    ensures
        r == spec_filter_adult(
            match filter {
                Some(f) => Some(f@),
                None => None,
            },
            match adult {
                Some(a) => Some(a@),
                None => None,
            },
        ),
{
    let filter_off = match filter {
        Some(f) => str_eq(f.as_str(), "off") || str_eq(f.as_str(), "disable"),
        None => false,
    };
    let adult_on = match adult {
        Some(a) => str_eq(a.as_str(), "1") || str_eq(a.as_str(), "true"),
        None => false,
    };
    !filter_off && !adult_on
}

/// Drops the sites flagged adult, keeping order.
pub fn retain_non_adult_sites(sites: Vec<Site>) -> (r: Vec<Site>)
    ensures
        r@ == sites@.filter(
            |s: Site| !(s.is_adult is Some && s.is_adult->0),
        ),
{
    let n = sites.len();
    let ghost sv = sites@;
    let mut sites = sites;
    let mut kept: Vec<Site> = Vec::new();
    let mut i: usize = 0;
    proof {
        assert(sites@ =~= sv.skip(0));
        assert(sv.take(0int).filter(|s: Site| !(s.is_adult is Some && s.is_adult->0))
            =~= Seq::<Site>::empty());
    }
    while i < n
        invariant
            n == sv.len(),
            sites@ =~= sv.skip(i as int),
            0 <= i <= n,
            kept@ == sv.take(i as int).filter(|s: Site| !(s.is_adult is Some && s.is_adult->0)),
        decreases n - i,
    {
        proof {
            assert(sv.skip(i as int)[0] == sv[i as int]);
            assert(sv.skip(i as int).skip(1) =~= sv.skip(i as int + 1));
            assert(sv.take(i as int + 1).drop_last() =~= sv.take(i as int));
            reveal_with_fuel(Seq::filter, 2);
            assert(sv.take(i as int + 1).last() == sv[i as int]);
        }
        let s = sites.remove(0);
        let adult = match s.is_adult {
            Some(a) => a,
            None => false,
        };
        if !adult {
            kept.push(s);
        }
        i += 1;
    }
    proof {
        assert(sv.take(n as int) =~= sv);
    }
    kept
}

/// Prepends the ad-filtering parse entry, which clients prefer, to the
/// configured parse list.
pub fn inject_ad_filter_parse(parses: Vec<Parse>, m3u8_proxy_url: String) -> (r: Vec<Parse>)
    ensures
        r@.len() == parses@.len() + 1,
        r@[0].name@ == "🚫 广告过滤"@,
        r@[0].parse_type == 0,
        r@[0].url@ == m3u8_proxy_url@,
        r@.skip(1) == parses@,
{
    let ghost mu = m3u8_proxy_url@;
    let entry = Parse { name: "🚫 广告过滤".to_owned(), parse_type: 0, url: m3u8_proxy_url };
    let mut r: Vec<Parse> = Vec::new();
    r.push(entry);
    let n = parses.len();
    let ghost pv = parses@;
    let mut parses = parses;
    let mut i: usize = 0;
    while i < n
        invariant
            n == pv.len(),
            parses@ =~= pv.skip(i as int),
            0 <= i <= n,
            r@.len() == i + 1,
            r@[0].name@ == "🚫 广告过滤"@,
            r@[0].parse_type == 0,
            r@[0].url@ == mu,
            r@.skip(1) =~= pv.take(i as int),
        decreases n - i,
    {
        proof {
            assert(pv.skip(i as int)[0] == pv[i as int]);
            assert(pv.skip(i as int).skip(1) =~= pv.skip(i as int + 1));
        }
        let p = parses.remove(0);
        r.push(p);
        proof {
            assert(r@.skip(1) =~= pv.take(i as int + 1));
        }
        i += 1;
    }
    proof {
        assert(pv.take(n as int) =~= pv);
        assert(r@.skip(1) =~= pv);
    }
    r
}

/// An `api_site` entry survives the adult filter when adult content is
/// allowed or neither its name nor its API marks adult content.
pub open spec fn custom_entry_kept(e: (String, ApiSiteInfo), adult: bool) -> bool {
    adult || !spec_adult_source(e.1.name@ + " "@ + e.1.api@)
}

/// Converts the custom `api_site` format into a TVBox configuration:
/// sites keyed by their underscored domain, typed by their API shape,
/// marked searchable; adult sites are dropped unless allowed; the default
/// spider and the two standard parses are attached.
pub fn convert_custom_format_to_tvbox(custom: CustomSubscriptionFormat, adult: bool) -> (r:
    SubscriptionConfig)
    ensures
        r.spider is Some,
        r.spider->0@ == "https://cdn.jsdelivr.net/gh/FongMi/CatVodSpider@main/jar/spider.jar"@,
        r.sites is Some,
        r.parses is Some,
        r.parses->0@.len() == 2,
        r.parses->0@[0].name@ == "默认解析"@,
        r.parses->0@[0].parse_type == 0,
        r.parses->0@[0].url@ == "https://jx.xmflv.com/?url="@,
        r.parses->0@[1].name@ == "并发解析"@,
        r.parses->0@[1].parse_type == 2,
        r.parses->0@[1].url@ == "Parallel"@,
        r.lives is None,
        ({
            let entries = custom.api_site@.filter(
                |e: (String, ApiSiteInfo)| custom_entry_kept(e, adult),
            );
            let sv = r.sites->0@;
            &&& sv.len() == entries.len()
            &&& forall|i: int|
                0 <= i < sv.len() ==> (#[trigger] sv[i]).key@ == spec_domain_key(entries[i].0@)
                    && sv[i].name == entries[i].1.name && sv[i].api == entries[i].1.api
                    && sv[i].site_type == spec_site_type(entries[i].1.api@) && sv[i].jar is None
                    && sv[i].is_adult is None && sv[i].searchable == Some(1i32)
                    && sv[i].quick_search == Some(1i32) && sv[i].filterable == Some(1i32)
                    && sv[i].changeable is None
        }),
{
    let n = custom.api_site.len();
    let ghost ev = custom.api_site@;
    let mut entries = custom.api_site;
    let mut sites: Vec<Site> = Vec::new();
    let ghost mut kept: Seq<(String, ApiSiteInfo)> = Seq::empty();
    let mut i: usize = 0;
    proof {
        assert(entries@ =~= ev.skip(0));
        assert(ev.take(0int).filter(|e: (String, ApiSiteInfo)| custom_entry_kept(e, adult))
            =~= Seq::<(String, ApiSiteInfo)>::empty());
    }
    while i < n
        invariant
            n == ev.len(),
            entries@ =~= ev.skip(i as int),
            0 <= i <= n,
            kept == ev.take(i as int).filter(
                |e: (String, ApiSiteInfo)| custom_entry_kept(e, adult),
            ),
            sites@.len() == kept.len(),
            forall|j: int|
                0 <= j < sites@.len() ==> (#[trigger] sites@[j]).key@ == spec_domain_key(
                    kept[j].0@,
                ) && sites@[j].name == kept[j].1.name && sites@[j].api == kept[j].1.api
                    && sites@[j].site_type == spec_site_type(kept[j].1.api@) && sites@[j].jar
                    is None && sites@[j].is_adult is None && sites@[j].searchable == Some(1i32)
                    && sites@[j].quick_search == Some(1i32) && sites@[j].filterable == Some(1i32)
                    && sites@[j].changeable is None,
        decreases n - i,
    {
        proof {
            assert(ev.skip(i as int)[0] == ev[i as int]);
            assert(ev.skip(i as int).skip(1) =~= ev.skip(i as int + 1));
            assert(ev.take(i as int + 1).drop_last() =~= ev.take(i as int));
            reveal_with_fuel(Seq::filter, 2);
            assert(ev.take(i as int + 1).last() == ev[i as int]);
        }
        let (domain, info) = entries.remove(0);
        let mut keep = adult;
        if !keep {
            let mut source_str = info.name.clone();
            push_char(&mut source_str, ' ');
            source_str.append(info.api.as_str());
            proof {
                reveal_strlit(" ");
                assert(" "@ =~= seq![' ']);
                assert(source_str@ =~= info.name@ + " "@ + info.api@);
            }
            keep = !is_adult_source(source_str.as_str());
        }
        proof {
            assert(keep == custom_entry_kept(ev[i as int], adult));
        }
        if keep {
            let key = domain_to_key(domain.as_str());
            let site_type = determine_site_type(info.api.as_str());
            let site = Site {
                key,
                name: info.name,
                site_type,
                api: info.api,
                jar: None,
                is_adult: None,
                searchable: Some(1),
                quick_search: Some(1),
                filterable: Some(1),
                changeable: None,
            };
            sites.push(site);
            proof {
                kept = kept.push(ev[i as int]);
            }
        }
        proof {
            assert(kept =~= ev.take(i as int + 1).filter(
                |e: (String, ApiSiteInfo)| custom_entry_kept(e, adult),
            ));
        }
        i += 1;
    }
    proof {
        assert(ev.take(n as int) =~= ev);
    }
    let mut parses: Vec<Parse> = Vec::new();
    parses.push(
        Parse {
            name: "默认解析".to_owned(),
            parse_type: 0,
            url: "https://jx.xmflv.com/?url=".to_owned(),
        },
    );
    parses.push(Parse { name: "并发解析".to_owned(), parse_type: 2, url: "Parallel".to_owned() });
    SubscriptionConfig {
        spider: Some(
            "https://cdn.jsdelivr.net/gh/FongMi/CatVodSpider@main/jar/spider.jar".to_owned(),
        ),
        sites: Some(sites),
        parses: Some(parses),
        lives: None,
    }
}

/// The built-in configuration used when no subscription can be fetched:
/// one demonstration site and the two standard parses.
pub fn get_default_config() -> (r: SubscriptionConfig)
    ensures
        r.spider is Some,
        r.spider->0@ == "https://cdn.jsdelivr.net/gh/FongMi/CatVodSpider@main/jar/spider.jar"@,
        r.sites is Some,
        r.sites->0@.len() == 1,
        r.sites->0@[0].key@ == "demo"@,
        r.sites->0@[0].name@ == "演示站点"@,
        r.sites->0@[0].site_type == 3,
        r.sites->0@[0].api@ == "https://example.com/api"@,
        r.sites->0@[0].jar is None,
        r.sites->0@[0].is_adult == Some(false),
        r.sites->0@[0].searchable == Some(1i32),
        r.sites->0@[0].quick_search == Some(1i32),
        r.sites->0@[0].filterable == Some(1i32),
        r.sites->0@[0].changeable is None,
        r.parses is Some,
        r.parses->0@.len() == 2,
        r.parses->0@[0].name@ == "默认解析"@,
        r.parses->0@[0].parse_type == 0,
        r.parses->0@[0].url@ == "https://jx.xmflv.com/?url="@,
        r.parses->0@[1].name@ == "并发解析"@,
        r.parses->0@[1].parse_type == 2,
        r.parses->0@[1].url@ == "Parallel"@,
        r.lives is None,
{
    let mut sites: Vec<Site> = Vec::new();
    sites.push(
        Site {
            key: "demo".to_owned(),
            name: "演示站点".to_owned(),
            site_type: 3,
            api: "https://example.com/api".to_owned(),
            jar: None,
            is_adult: Some(false),
            searchable: Some(1),
            quick_search: Some(1),
            filterable: Some(1),
            changeable: None,
        },
    );
    let mut parses: Vec<Parse> = Vec::new();
    parses.push(
        Parse {
            name: "默认解析".to_owned(),
            parse_type: 0,
            url: "https://jx.xmflv.com/?url=".to_owned(),
        },
    );
    parses.push(Parse { name: "并发解析".to_owned(), parse_type: 2, url: "Parallel".to_owned() });
    SubscriptionConfig {
        spider: Some(
            "https://cdn.jsdelivr.net/gh/FongMi/CatVodSpider@main/jar/spider.jar".to_owned(),
        ),
        sites: Some(sites),
        parses: Some(parses),
        lives: None,
    }
}

/// A cache entry for a fetched subscription, stamped at fetch time.
pub struct CachedSubscription {
    pub config: SubscriptionConfig,
    pub cached_at: u64,
}

/// A cached subscription stays valid for ten minutes.
pub fn subscription_cache_valid(cached_at: u64, now: u64) -> (r: bool)
    ensures
        r == (cached_at <= now && now - cached_at < 600),
{
    cached_at <= now && now - cached_at < 600
}

} // verus!
