use quantumtv::rewrite::{percent_decode, percent_encode, resolve_relative_url, rewrite_m3u8_urls};
use quantumtv::segcache::SegmentCache;

#[test]
fn relative_uris_resolve_against_the_playlist_url() {
    let resolved = resolve_relative_url("http://cdn.example/live/index.m3u8", "seg001.ts");
    assert_eq!(resolved, "http://cdn.example/live/seg001.ts");
    let resolved = resolve_relative_url("http://cdn.example/live/index.m3u8", "../other/seg.ts");
    assert_eq!(resolved, "http://cdn.example/other/seg.ts");
    // an unresolvable base keeps the reference
    let resolved = resolve_relative_url("not a url", "seg001.ts");
    assert_eq!(resolved, "seg001.ts");
}

#[test]
fn rewrite_points_segments_at_the_proxy() {
    let content = "#EXTM3U\n#EXTINF:10.0\nseg001.ts\n#EXTINF:10.0\nhttp://cdn.example/live/seg002.ts\nnot_a_segment.txt";
    let rewritten = rewrite_m3u8_urls(
        content,
        "http://cdn.example/live/index.m3u8",
        "http://127.0.0.1:3000/api/proxy/ts?url=",
    );
    let lines: Vec<&str> = rewritten.lines().collect();
    assert_eq!(lines[0], "#EXTM3U");
    assert_eq!(lines[1], "#EXTINF:10.0");
    assert_eq!(
        lines[2],
        "http://127.0.0.1:3000/api/proxy/ts?url=http%3A%2F%2Fcdn.example%2Flive%2Fseg001.ts"
    );
    assert_eq!(
        lines[4],
        "http://127.0.0.1:3000/api/proxy/ts?url=http%3A%2F%2Fcdn.example%2Flive%2Fseg002.ts"
    );
    // non-segment lines pass through
    assert_eq!(lines[5], "not_a_segment.txt");
}

#[test]
fn rewritten_url_round_trips_through_percent_decoding() {
    let absolute = "http://cdn.example/live/seg 001.ts";
    let encoded = percent_encode(absolute);
    assert!(!encoded.contains(' '));
    assert!(!encoded.contains('/'));
    let decoded = percent_decode(&encoded).unwrap();
    assert_eq!(decoded, absolute);
}

#[test]
fn percent_encoding_is_byte_exact() {
    assert_eq!(percent_encode("a b/c"), "a%20b%2Fc");
    assert_eq!(percent_decode("a%20b%2Fc").unwrap(), "a b/c");
    // lowercase escapes decode too
    assert_eq!(percent_decode("a%2fb").unwrap(), "a/b");
}

#[test]
fn segment_cache_serves_within_ttl_and_evicts() {
    let mut cache = SegmentCache::new(2, 3600);
    cache.insert("http://a/1.ts", vec![1, 2, 3], 1_000);
    assert_eq!(cache.get("http://a/1.ts", 1_500), Some(vec![1, 2, 3]));
    // expired entries are not served
    assert_eq!(cache.get("http://a/1.ts", 1_000 + 3600), None);
    // capacity evicts the oldest entry
    cache.insert("http://a/2.ts", vec![4], 1_001);
    cache.insert("http://a/3.ts", vec![5], 1_002);
    assert_eq!(cache.get("http://a/1.ts", 1_100), None);
    assert_eq!(cache.get("http://a/2.ts", 1_100), Some(vec![4]));
    assert_eq!(cache.get("http://a/3.ts", 1_100), Some(vec![5]));
    // re-inserting a URL replaces its entry
    cache.insert("http://a/3.ts", vec![6], 1_003);
    assert_eq!(cache.get("http://a/3.ts", 1_100), Some(vec![6]));
}
