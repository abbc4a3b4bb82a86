use quantumtv::douban::{
    build_categories_params, build_recommends_fallback_list_params, build_recommends_params,
    current_weekday_en, is_body_decode_error, resolve_douban_defaults, resolve_douban_page_mode,
    get_douban_proxy_config, resolve_selected_weekday, DoubanCustomCategory, DoubanPageMode,
    DoubanPageRequest, DoubanProxyType, Kind,
};

fn request(request_type: &str, primary: &str, secondary: &str) -> DoubanPageRequest {
    DoubanPageRequest {
        request_type: request_type.to_string(),
        primary_selection: primary.to_string(),
        secondary_selection: secondary.to_string(),
        multi_level_selection: None,
        selected_weekday: None,
        page: Some(0),
        page_limit: Some(25),
    }
}

#[test]
fn resolve_douban_page_mode_custom() {
    let request = request("custom", "movie", "tag");
    assert_eq!(resolve_douban_page_mode(&request), DoubanPageMode::Custom);
}

#[test]
fn resolve_douban_page_mode_anime_daily() {
    let request = request("anime", "每日放送", "全部");
    assert_eq!(resolve_douban_page_mode(&request), DoubanPageMode::AnimeDaily);
}

#[test]
fn resolve_douban_page_mode_recommends() {
    let request = request("show", "全部", "show");
    assert_eq!(resolve_douban_page_mode(&request), DoubanPageMode::Recommends);
}

#[test]
fn resolve_douban_page_mode_movie_all_is_categories() {
    let request = request("movie", "全部", "全部");
    assert_eq!(resolve_douban_page_mode(&request), DoubanPageMode::Categories);
}

#[test]
fn build_recommends_params_for_show() {
    let request = request("show", "全部", "show");
    let params = build_recommends_params(&request, 25, 0);

    assert!(matches!(params.kind, Kind::Tv));
    assert_eq!(params.format, "综艺");
}

#[test]
fn resolve_douban_defaults_movie() {
    let defaults = resolve_douban_defaults("movie", None, None);
    assert_eq!(defaults.primary_selection, "热门");
    assert_eq!(defaults.secondary_selection, "全部");
    assert!(defaults.cache_enabled);
    assert!(defaults.require_secondary);
}

#[test]
fn resolve_douban_defaults_anime() {
    let defaults = resolve_douban_defaults("anime", None, None);
    assert_eq!(defaults.primary_selection, "每日放送");
    assert_eq!(defaults.secondary_selection, "全部");
    assert!(defaults.cache_enabled);
    assert!(!defaults.require_secondary);
}

#[test]
fn resolve_douban_defaults_custom_prefers_movie() {
    let categories = vec![
        DoubanCustomCategory {
            name: None,
            category_type: "tv".to_string(),
            query: "q1".to_string(),
            disabled: None,
        },
        DoubanCustomCategory {
            name: None,
            category_type: "movie".to_string(),
            query: "q2".to_string(),
            disabled: None,
        },
    ];

    let defaults = resolve_douban_defaults("custom", Some(&categories), Some("fallback"));
    assert_eq!(defaults.primary_selection, "movie");
    assert_eq!(defaults.secondary_selection, "q2");
    assert!(!defaults.cache_enabled);
}

#[test]
fn resolve_selected_weekday_prefers_trimmed_value() {
    let resolved = resolve_selected_weekday(Some("  Wed  "));
    assert_eq!(resolved, "Wed");
}

#[test]
fn resolve_selected_weekday_falls_back_on_empty() {
    let fallback = current_weekday_en().to_string();
    let resolved = resolve_selected_weekday(Some("   "));
    assert_eq!(resolved, fallback);
}

#[test]
fn build_recommends_fallback_list_params_movie_all() {
    let request = request("movie", "全部", "全部");
    let params = build_recommends_fallback_list_params(&request, 25, 0);
    assert_eq!(params.kind_tag, "movie");
    assert_eq!(params.tag, "热门");
}

#[test]
fn build_recommends_fallback_list_params_anime_defaults_to_animation_tag() {
    let request = request("anime", "全部", "tv");
    let params = build_recommends_fallback_list_params(&request, 25, 0);
    assert_eq!(params.kind_tag, "tv");
    assert_eq!(params.tag, "动画");
}

#[test]
fn is_body_decode_error_matches_reqwest_text() {
    assert!(is_body_decode_error("JSON parse error: error decoding response body"));
    assert!(!is_body_decode_error("network timeout"));
}

#[test]
fn build_categories_params_uses_kind_for_tv() {
    let request = request("tv", "最近热门", "tv");
    let params = build_categories_params(&request, 25, 0);
    assert!(matches!(params.kind, Kind::Tv));
    assert_eq!(params.category, "tv");
    assert_eq!(params.kind_tag, "tv");
    assert!(params.validate());
}

#[test]
fn proxy_config_prefers_request_values() {
    let cfg = get_douban_proxy_config(
        Some("direct".to_string()),
        Some("custom".to_string()),
        None,
        Some("https://proxy.example".to_string()),
    );
    assert_eq!(cfg.proxy_type, DoubanProxyType::Direct);
    assert_eq!(cfg.proxy_url, "https://proxy.example");
    let cfg = get_douban_proxy_config(None, None, None, None);
    assert_eq!(cfg.proxy_type, DoubanProxyType::CmliussssCdnTencent);
    assert_eq!(cfg.proxy_url, "");
}
