//! Application configuration records: the admin configuration schema,
//! player configuration and user preferences with their partial patches,
//! and the RFC 3339 timestamp formatter used for subscription bookkeeping.

use vstd::prelude::*;

use crate::strutil::{spec_padded, u64_zero_pad, push_char};

verus! {

/// Subscription bookkeeping of the admin configuration.
pub struct ConfigSubscribtion {
    pub url: String,
    pub auto_update: bool,
    pub last_check: String,
}

impl Default for ConfigSubscribtion {
    /// An empty subscription: no URL, auto-update off.
    fn default() -> (r: ConfigSubscribtion)
        ensures
            r.url@.len() == 0,
            r.auto_update == false,
            r.last_check@.len() == 0,
    {
        ConfigSubscribtion { url: String::new(), auto_update: false, last_check: String::new() }
    }
}

/// The legacy site-level configuration, kept for migration.
pub struct SiteConfig {
    pub site_name: String,
    pub announcement: String,
    pub search_downstream_max_page: u32,
    pub site_interface_cache_time: u32,
    pub douban_proxy_type: String,
    pub douban_proxy: String,
    pub douban_image_proxy_type: String,
    pub douban_image_proxy: String,
    pub disable_yellow_filter: bool,
    pub fluid_search: bool,
}

/// A user's role.
pub enum Role {
    Owner,
    Admin,
    User,
}

/// One configured user.
pub struct User {
    pub username: String,
    pub role: Role,
    pub banned: bool,
    pub enabled_apis: Vec<String>,
    pub tags: Vec<String>,
}

/// A named tag granting a set of APIs.
pub struct Tags {
    pub name: String,
    pub enabled_apis: Vec<String>,
}

/// The configured users and tags.
pub struct UserConfig {
    pub users: Vec<User>,
    pub tags: Vec<Tags>,
}

impl Default for UserConfig {
    /// No users and no tags.
    fn default() -> (r: UserConfig)
        ensures
            r.users@.len() == 0,
            r.tags@.len() == 0,
    {
        UserConfig { users: Vec::new(), tags: Vec::new() }
    }
}

/// Where a source or category came from.
pub enum SourceFrom {
    Config,
    Custom,
}

/// The content kind of a custom category.
pub enum Kind {
    Movie,
    Tv,
}

/// One configured video source.
pub struct SourceConfig {
    pub key: String,
    pub name: String,
    pub api: String,
    pub detail: String,
    pub from: SourceFrom,
    pub disabled: bool,
    pub is_adult: bool,
}

/// One custom browse category.
pub struct CustomCategory {
    pub name: String,
    pub kind: Kind,
    pub query: String,
    pub from: SourceFrom,
    pub disabled: Option<bool>,
}

/// The whole admin configuration.
pub struct AdminConfig {
    pub config_subscribtion: ConfigSubscribtion,
    pub config_file: String,
    pub user_config: UserConfig,
    pub source_config: Vec<SourceConfig>,
    pub custom_categories: Vec<CustomCategory>,
}

/// The built-in local-mode configuration: a single owner user and no
/// sources.
pub fn get_local_mode_config() -> (r: AdminConfig)
    ensures
        r.config_file@.len() == 0,
        r.config_subscribtion.url@.len() == 0,
        r.config_subscribtion.auto_update == false,
        r.user_config.users@.len() == 1,
        r.user_config.users@[0].username@ == "admin"@,
        r.user_config.users@[0].role is Owner,
        r.user_config.users@[0].banned == false,
        r.user_config.tags@.len() == 0,
        r.source_config@.len() == 0,
        r.custom_categories@.len() == 0,
{
    let mut users: Vec<User> = Vec::new();
    users.push(
        User {
            username: "admin".to_owned(),
            role: Role::Owner,
            banned: false,
            enabled_apis: Vec::new(),
            tags: Vec::new(),
        },
    );
    AdminConfig {
        config_file: String::new(),
        config_subscribtion: ConfigSubscribtion {
            url: String::new(),
            auto_update: false,
            last_check: String::new(),
        },
        user_config: UserConfig { users, tags: Vec::new() },
        source_config: Vec::new(),
        custom_categories: Vec::new(),
    }
}

/// The Gregorian date of a day count since the Unix epoch.
pub open spec fn spec_civil(days: int) -> (int, int, int) {
    let z = days + 719468;
    let era = z / 146097;
    let doe = z - era * 146097;
    let yoe = (doe - doe / 1460 + doe / 36524 - doe / 146096) / 365;
    let y = yoe + era * 400;
    let doy = doe - (365 * yoe + yoe / 4 - yoe / 100);
    let mp = (5 * doy + 2) / 153;
    let d = doy - (153 * mp + 2) / 5 + 1;
    let m = if mp < 10 {
        mp + 3
    } else {
        mp - 9
    };
    let year = if m <= 2 {
        y + 1
    } else {
        y
    };
    (year, m, d)
}

/// Converts days since the Unix epoch to a calendar year, month and day.
pub fn civil_from_days(days: u64) -> (r: (u64, u32, u32))
    requires
        days <= 100_000_000_000,
    ensures
        r.0 == spec_civil(days as int).0,
        r.1 == spec_civil(days as int).1,
        r.2 == spec_civil(days as int).2,
        1 <= r.1 <= 12,
        1 <= r.2 <= 31,
{
    let z: u64 = days + 719468;
    let era: u64 = z / 146097;
    let doe: u64 = z - era * 146097;
    proof {
        assert(doe <= 146096);
    }
    let yoe: u64 = (doe - doe / 1460 + doe / 36524 - doe / 146096) / 365;
    proof {
        assert(yoe <= 399);
    }
    let y: u64 = yoe + era * 400;
    let doy: u64 = doe - (365 * yoe + yoe / 4 - yoe / 100);
    proof {
        assert(365 * yoe + yoe / 4 - yoe / 100 <= doe);
        assert(doy <= 365);
    }
    let mp: u64 = (5 * doy + 2) / 153;
    proof {
        assert(mp <= 11);
    }
    let d: u64 = doy - (153 * mp + 2) / 5 + 1;
    proof {
        assert((153 * mp + 2) / 5 <= doy);
        assert(d <= 31);
        assert(d >= 1);
    }
    let m: u64 = if mp < 10 {
        mp + 3
    } else {
        mp - 9
    };
    let year: u64 = if m <= 2 {
        y + 1
    } else {
        y
    };
    (year, m as u32, d as u32)
}

/// The RFC 3339 UTC rendering of a Unix timestamp with millisecond
/// precision.
pub open spec fn spec_rfc3339(secs: int, nanos: int) -> Seq<char> {
    let days = secs / 86400;
    let sod = secs % 86400;
    let hour = sod / 3600;
    let minute = (sod % 3600) / 60;
    let second = sod % 60;
    let millis = nanos / 1000000;
    let civil = spec_civil(days);
    spec_padded(civil.0 as u64, 4) + seq!['-'] + spec_padded(civil.1 as u64, 2) + seq!['-']
        + spec_padded(civil.2 as u64, 2) + seq!['T'] + spec_padded(hour as u64, 2) + seq![':']
        + spec_padded(minute as u64, 2) + seq![':'] + spec_padded(second as u64, 2) + seq!['.']
        + spec_padded(millis as u64, 3) + seq!['Z']
}

/// Formats a Unix timestamp as an RFC 3339 UTC string with milliseconds.
pub fn format_rfc3339_utc_from_secs(secs: u64, nanos: u32) -> (r: String)
    requires
        secs <= 8_000_000_000_000,
        nanos < 1_000_000_000,
    ensures
        r@ == spec_rfc3339(secs as int, nanos as int),
{
    let days: u64 = secs / 86400;
    let sod: u64 = secs % 86400;
    let hour: u64 = sod / 3600;
    let minute: u64 = (sod % 3600) / 60;
    let second: u64 = sod % 60;
    let millis: u64 = (nanos / 1000000) as u64;
    let (year, month, day) = civil_from_days(days);
    let mut r = u64_zero_pad(year, 4);
    push_char(&mut r, '-');
    r.append(u64_zero_pad(month as u64, 2).as_str());
    push_char(&mut r, '-');
    r.append(u64_zero_pad(day as u64, 2).as_str());
    push_char(&mut r, 'T');
    r.append(u64_zero_pad(hour, 2).as_str());
    push_char(&mut r, ':');
    r.append(u64_zero_pad(minute, 2).as_str());
    push_char(&mut r, ':');
    r.append(u64_zero_pad(second, 2).as_str());
    push_char(&mut r, '.');
    r.append(u64_zero_pad(millis, 3).as_str());
    push_char(&mut r, 'Z');
    proof {
        assert(r@ =~= spec_rfc3339(secs as int, nanos as int));
    }
    r
}

/// Relies on `std::time::SystemTime::now`: the clock reading, in seconds
/// and subsecond nanos since the Unix epoch; nothing is assumed of its
/// value.
#[verifier::external_body]
fn now_unix_parts() -> (r: (u64, u32))
    ensures
        r.1 < 1_000_000_000,
{
    match std::time::SystemTime::now().duration_since(std::time::SystemTime::UNIX_EPOCH) {
        Ok(d) => (d.as_secs(), d.subsec_nanos()),
        Err(_) => (0, 0),
    }
}

/// The current instant as an RFC 3339 UTC string; the seconds are capped
/// at the formatter's range, far beyond any reachable date.
pub fn format_rfc3339_utc_now() -> (r: String)
    ensures
        exists|s: int, n: int|
            0 <= s <= 8_000_000_000_000 && 0 <= n < 1_000_000_000 && r@ == #[trigger] spec_rfc3339(
                s,
                n,
            ),
{
    let (secs, nanos) = now_unix_parts();
    let capped = if secs > 8_000_000_000_000 {
        8_000_000_000_000
    } else {
        secs
    };
    let r = format_rfc3339_utc_from_secs(capped, nanos);
    proof {
        assert(r@ == spec_rfc3339(capped as int, nanos as int));
    }
    r
}

/// The player configuration: ad blocking and source optimization.
pub struct PlayerConfig {
    pub block_ad_enabled: bool,
    pub optimization_enabled: bool,
}

impl Default for PlayerConfig {
    /// Both switches on.
    fn default() -> (r: PlayerConfig)
        ensures
            r.block_ad_enabled == true,
            r.optimization_enabled == true,
    {
        PlayerConfig { block_ad_enabled: true, optimization_enabled: true }
    }
}

/// A partial update of the player configuration.
pub struct PlayerConfigPatch {
    pub block_ad_enabled: Option<bool>,
    pub optimization_enabled: Option<bool>,
}

/// Applies a partial player-configuration update: present fields replace,
/// absent fields keep their value.
pub fn apply_player_config_patch(config: PlayerConfig, patch: PlayerConfigPatch) -> (r:
    PlayerConfig)
    ensures
        r.block_ad_enabled == (match patch.block_ad_enabled {
            Some(v) => v,
            None => config.block_ad_enabled,
        }),
        r.optimization_enabled == (match patch.optimization_enabled {
            Some(v) => v,
            None => config.optimization_enabled,
        }),
{
    let mut config = config;
    match patch.block_ad_enabled {
        Some(v) => {
            config.block_ad_enabled = v;
        },
        None => {},
    }
    match patch.optimization_enabled {
        Some(v) => {
            config.optimization_enabled = v;
        },
        None => {},
    }
    config
}

/// The unified user preferences.
#[derive(Clone)]
pub struct UserPreferences {
    pub site_name: String,
    pub announcement: String,
    pub search_downstream_max_page: u32,
    pub site_interface_cache_time: u32,
    pub disable_yellow_filter: bool,
    pub douban_data_source: String,
    pub douban_proxy_url: String,
    pub douban_image_proxy_type: String,
    pub douban_image_proxy_url: String,
    pub enable_optimization: bool,
    pub fluid_search: bool,
    pub player_buffer_mode: String,
    pub has_seen_announcement: String,
}

impl Default for UserPreferences {
    /// The built-in defaults.
    fn default() -> (r: UserPreferences)
        ensures
            r.site_name@ == "QuantumTV"@,
            r.search_downstream_max_page == 5,
            r.site_interface_cache_time == 7200,
            r.disable_yellow_filter == false,
            r.douban_data_source@ == "cmliussss-cdn-tencent"@,
            r.douban_proxy_url@.len() == 0,
            r.douban_image_proxy_type@ == "cmliussss-cdn-tencent"@,
            r.douban_image_proxy_url@.len() == 0,
            r.enable_optimization == true,
            r.fluid_search == true,
            r.player_buffer_mode@ == "standard"@,
            r.has_seen_announcement@.len() == 0,
    {
        UserPreferences {
            site_name: "QuantumTV".to_owned(),
            announcement: "本应用仅提供影视信息搜索服务，所有内容均来自第三方网站。".to_owned(),
            search_downstream_max_page: 5,
            site_interface_cache_time: 7200,
            disable_yellow_filter: false,
            douban_data_source: "cmliussss-cdn-tencent".to_owned(),
            douban_proxy_url: String::new(),
            douban_image_proxy_type: "cmliussss-cdn-tencent".to_owned(),
            douban_image_proxy_url: String::new(),
            enable_optimization: true,
            fluid_search: true,
            player_buffer_mode: "standard".to_owned(),
            has_seen_announcement: String::new(),
        }
    }
}

/// A partial update of the user preferences.
pub struct UserPreferencesPatch {
    pub site_name: Option<String>,
    pub announcement: Option<String>,
    pub search_downstream_max_page: Option<u32>,
    pub site_interface_cache_time: Option<u32>,
    pub disable_yellow_filter: Option<bool>,
    pub douban_data_source: Option<String>,
    pub douban_proxy_url: Option<String>,
    pub douban_image_proxy_type: Option<String>,
    pub douban_image_proxy_url: Option<String>,
    pub enable_optimization: Option<bool>,
    pub fluid_search: Option<bool>,
    pub player_buffer_mode: Option<String>,
    pub has_seen_announcement: Option<String>,
}

impl Default for UserPreferencesPatch {
    /// The empty patch, touching nothing.
    fn default() -> (r: UserPreferencesPatch)
        ensures
            r.site_name is None,
            r.announcement is None,
            r.search_downstream_max_page is None,
            r.site_interface_cache_time is None,
            r.disable_yellow_filter is None,
            r.douban_data_source is None,
            r.douban_proxy_url is None,
            r.douban_image_proxy_type is None,
            r.douban_image_proxy_url is None,
            r.enable_optimization is None,
            r.fluid_search is None,
            r.player_buffer_mode is None,
            r.has_seen_announcement is None,
    {
        UserPreferencesPatch {
            site_name: None,
            announcement: None,
            search_downstream_max_page: None,
            site_interface_cache_time: None,
            disable_yellow_filter: None,
            douban_data_source: None,
            douban_proxy_url: None,
            douban_image_proxy_type: None,
            douban_image_proxy_url: None,
            enable_optimization: None,
            fluid_search: None,
            player_buffer_mode: None,
            has_seen_announcement: None,
        }
    }
}

/// Applies a partial preferences update: present fields replace, absent
/// fields keep their value.
pub fn apply_user_preferences_patch(
    preferences: UserPreferences,
    patch: UserPreferencesPatch,
) -> (r: UserPreferences)
    ensures
        r.site_name == (match patch.site_name {
            Some(v) => v,
            None => preferences.site_name,
        }),
        r.announcement == (match patch.announcement {
            Some(v) => v,
            None => preferences.announcement,
        }),
        r.search_downstream_max_page == (match patch.search_downstream_max_page {
            Some(v) => v,
            None => preferences.search_downstream_max_page,
        }),
        r.site_interface_cache_time == (match patch.site_interface_cache_time {
            Some(v) => v,
            None => preferences.site_interface_cache_time,
        }),
        r.disable_yellow_filter == (match patch.disable_yellow_filter {
            Some(v) => v,
            None => preferences.disable_yellow_filter,
        }),
        r.douban_data_source == (match patch.douban_data_source {
            Some(v) => v,
            None => preferences.douban_data_source,
        }),
        r.douban_proxy_url == (match patch.douban_proxy_url {
            Some(v) => v,
            None => preferences.douban_proxy_url,
        }),
        r.douban_image_proxy_type == (match patch.douban_image_proxy_type {
            Some(v) => v,
            None => preferences.douban_image_proxy_type,
        }),
        r.douban_image_proxy_url == (match patch.douban_image_proxy_url {
            Some(v) => v,
            None => preferences.douban_image_proxy_url,
        }),
        r.enable_optimization == (match patch.enable_optimization {
            Some(v) => v,
            None => preferences.enable_optimization,
        }),
        r.fluid_search == (match patch.fluid_search {
            Some(v) => v,
            None => preferences.fluid_search,
        }),
        r.player_buffer_mode == (match patch.player_buffer_mode {
            Some(v) => v,
            None => preferences.player_buffer_mode,
        }),
        r.has_seen_announcement == (match patch.has_seen_announcement {
            Some(v) => v,
            None => preferences.has_seen_announcement,
        }),
{
    UserPreferences {
        site_name: match patch.site_name {
            Some(v) => v,
            None => preferences.site_name,
        },
        announcement: match patch.announcement {
            Some(v) => v,
            None => preferences.announcement,
        },
        search_downstream_max_page: match patch.search_downstream_max_page {
            Some(v) => v,
            None => preferences.search_downstream_max_page,
        },
        site_interface_cache_time: match patch.site_interface_cache_time {
            Some(v) => v,
            None => preferences.site_interface_cache_time,
        },
        disable_yellow_filter: match patch.disable_yellow_filter {
            Some(v) => v,
            None => preferences.disable_yellow_filter,
        },
        douban_data_source: match patch.douban_data_source {
            Some(v) => v,
            None => preferences.douban_data_source,
        },
        douban_proxy_url: match patch.douban_proxy_url {
            Some(v) => v,
            None => preferences.douban_proxy_url,
        },
        douban_image_proxy_type: match patch.douban_image_proxy_type {
            Some(v) => v,
            None => preferences.douban_image_proxy_type,
        },
        douban_image_proxy_url: match patch.douban_image_proxy_url {
            Some(v) => v,
            None => preferences.douban_image_proxy_url,
        },
        enable_optimization: match patch.enable_optimization {
            Some(v) => v,
            None => preferences.enable_optimization,
        },
        fluid_search: match patch.fluid_search {
            Some(v) => v,
            None => preferences.fluid_search,
        },
        player_buffer_mode: match patch.player_buffer_mode {
            Some(v) => v,
            None => preferences.player_buffer_mode,
        },
        has_seen_announcement: match patch.has_seen_announcement {
            Some(v) => v,
            None => preferences.has_seen_announcement,
        },
    }
}

/// Classifies a batch of source names as adult content.
pub fn is_adult_source(names: &Vec<String>) -> (r: Vec<bool>)
    ensures
        r@.len() == names@.len(),
        forall|i: int|
            0 <= i < r@.len() ==> r@[i] == crate::adult::spec_adult_source(
                #[trigger] names@[i]@,
            ),
{
    let n = names.len();
    let mut r: Vec<bool> = Vec::new();
    let mut i: usize = 0;
    while i < n
        invariant
            n == names@.len(),
            0 <= i <= n,
            r@.len() == i,
            forall|j: int|
                0 <= j < i ==> r@[j] == crate::adult::spec_adult_source(#[trigger] names@[j]@),
        decreases n - i,
    {
        r.push(crate::adult::is_adult_source(names[i].as_str()));
        i += 1;
    }
    r
}

} // verus!
