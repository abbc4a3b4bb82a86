use quantumtv::adult::{filter_adult_sources, is_adult_source};
use quantumtv::db::decode_json_bytes;
use quantumtv::preload::{build_preload_key, PreloadGate};
use quantumtv::search_page::build_search_bootstrap;
use quantumtv::tvbox::determine_site_type;
use quantumtv::version::{compare_timestamps, format_timestamp, get_build_timestamp, is_valid_timestamp};

#[test]
fn build_preload_key_is_stable() {
    let key = build_preload_key("s1", "id1", 2);
    assert_eq!(key, "s1_id1_2");
}

#[test]
fn preload_gate_only_allows_once() {
    let mut gate = PreloadGate::default();
    assert!(gate.should_preload("k1"));
    assert!(!gate.should_preload("k1"));
    assert!(gate.should_preload("k2"));
}

#[test]
fn test_get_build_timestamp() {
    let ts = get_build_timestamp();
    assert_eq!(ts.len(), 14);
    assert!(ts.chars().all(|c| c.is_ascii_digit()));
}

#[test]
fn timestamp_validation_and_formatting() {
    assert!(is_valid_timestamp("20240229123456"));
    assert!(!is_valid_timestamp("2024"));
    assert!(!is_valid_timestamp("2024022912345x"));
    assert_eq!(format_timestamp("20240229123456"), "2024-02-29 12:34:56");
    assert_eq!(format_timestamp("oops"), "oops");
}

#[test]
fn timestamps_compare_chronologically() {
    assert_eq!(compare_timestamps("20240101000000", "20250101000000"), -1);
    assert_eq!(compare_timestamps("20250101000000", "20240101000000"), 1);
    assert_eq!(compare_timestamps("20240101000000", "20240101000000"), 0);
}

#[test]
fn decode_json_bytes_accepts_utf8() {
    let payload = br#"{"ok":true}"#.to_vec();
    let decoded = decode_json_bytes(&payload).unwrap();
    assert_eq!(decoded, r#"{"ok":true}"#);
}

#[test]
fn decode_json_bytes_accepts_numeric_payload() {
    let payload = b"123,34,111,107,34,58,116,114,117,101,125".to_vec();
    let decoded = decode_json_bytes(&payload).unwrap();
    assert_eq!(decoded, r#"{"ok":true}"#);
}

#[test]
fn decode_json_bytes_rejects_invalid_utf8() {
    let payload = vec![0xff, 0xfe, 0xfd];
    assert!(decode_json_bytes(&payload).is_err());
}

#[test]
fn adult_sources_are_detected_case_insensitively() {
    assert!(is_adult_source("Super ADULT channel"));
    assert!(is_adult_source("成人资源"));
    assert!(!is_adult_source("family movies"));
}

#[test]
fn adult_filter_keeps_indices() {
    let sources = vec!["a".to_string(), "b".to_string(), "c".to_string()];
    let flags = vec![false, true, false];
    assert_eq!(filter_adult_sources(&sources, &flags, true), vec![0, 2]);
    assert_eq!(filter_adult_sources(&sources, &flags, false), vec![0, 1, 2]);
}

#[test]
fn site_type_detection() {
    assert_eq!(determine_site_type("https://x.com/api.php/provide/vod"), 1);
    assert_eq!(determine_site_type("https://maccms.example/api"), 1);
    assert_eq!(determine_site_type("https://spider.example/api"), 3);
}

#[test]
fn build_search_bootstrap_uses_fluid_search_flag() {
    let mut prefs = quantumtv::config::UserPreferences::default();
    prefs.fluid_search = false;

    let bootstrap = build_search_bootstrap(vec!["a".to_string()], prefs);
    assert_eq!(bootstrap.search_history, vec!["a".to_string()]);
    assert!(!bootstrap.fluid_search);
}

#[test]
fn decode_json_bytes_skips_blank_parts_and_rejects_bad_ones() {
    let payload = b" 123 , , 34,111,107,34 ,58,116,114,117,101,125, ".to_vec();
    let decoded = decode_json_bytes(&payload).unwrap();
    assert_eq!(decoded, r#"{"ok":true}"#);
    assert!(decode_json_bytes(b"300,1").is_err());
    assert!(decode_json_bytes(b"12x,1").is_err());
}
