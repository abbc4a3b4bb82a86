use quantumtv::playlist::filter_ads_from_m3_u8;

#[test]
fn test_filter_ads_basic() {
    let content = "#EXTM3U\n\
            #EXT-X-VERSION:3\n\
            #EXTINF:10.0\n\
            segment1.ts\n\
            #EXTINF:10.0\n\
            http://example.com/ad/segment.ts\n\
            #EXTINF:10.0\n\
            segment2.ts";

    let filtered = filter_ads_from_m3_u8(content);

    assert!(filtered.contains("segment1.ts"));
    assert!(filtered.contains("segment2.ts"));

    assert!(!filtered.contains("/ad/"));
}

#[test]
fn test_filter_ads_cue_out() {
    let content = "#EXTM3U\n\
            #EXTINF:10.0\n\
            segment1.ts\n\
            #EXT-X-CUE-OUT:30.0\n\
            #EXTINF:10.0\n\
            ad_segment.ts\n\
            #EXT-X-CUE-IN\n\
            #EXTINF:10.0\n\
            segment2.ts";

    let filtered = filter_ads_from_m3_u8(content);

    assert!(filtered.contains("segment1.ts"));
    assert!(filtered.contains("segment2.ts"));
    assert!(!filtered.contains("ad_segment.ts"));
}

#[test]
fn test_filter_ads_daterange() {
    let content = "#EXTM3U\n\
            #EXT-X-DATERANGE:ID=1,CLASS=\"AD\"\n\
            #EXTINF:10.0\n\
            segment1.ts";

    let filtered = filter_ads_from_m3_u8(content);

    assert!(!filtered.contains("CLASS=\"AD\""));
    assert!(filtered.contains("segment1.ts"));
}

#[test]
fn test_filter_ads_url_patterns() {
    let patterns = vec![
        "http://example.com/ad/video.ts",
        "http://example.com/video_ad_123.ts",
        "http://example.com/video-ad-123.ts",
        "http://example.com/promo/video.ts",
        "http://doubleclick.net/video.ts",
    ];

    for pattern in patterns {
        let content = format!("#EXTM3U\n#EXTINF:10.0\n{}", pattern);
        let filtered = filter_ads_from_m3_u8(&content);
        assert!(
            !filtered.contains(pattern),
            "Pattern should be filtered: {}",
            pattern
        );
    }
}

#[test]
fn test_filter_ads_preserves_normal_content() {
    let content = "#EXTM3U\n\
            #EXT-X-VERSION:3\n\
            #EXT-X-TARGETDURATION:10\n\
            #EXTINF:10.0\n\
            segment1.ts\n\
            #EXTINF:10.0\n\
            segment2.ts";

    let filtered = filter_ads_from_m3_u8(content);

    assert!(filtered.contains("#EXTM3U"));
    assert!(filtered.contains("#EXT-X-VERSION:3"));
    assert!(filtered.contains("#EXT-X-TARGETDURATION:10"));
    assert!(filtered.contains("segment1.ts"));
    assert!(filtered.contains("segment2.ts"));
}

#[test]
fn filter_is_idempotent_on_ordinary_playlists() {
    let content = "#EXTM3U\n\
            #EXT-X-VERSION:3\n\
            #EXTINF:10.0\n\
            segment1.ts\n\
            #EXT-X-CUE-OUT:30.0\n\
            #EXTINF:10.0\n\
            ad1.ts\n\
            #EXT-X-CUE-IN\n\
            #EXT-X-DATERANGE:ID=2,SCTE35-OUT=0xF\n\
            #EXT-X-PART:URI=\"part_ad_1.mp4\"\n\
            #EXT-X-PART:URI=\"part1.mp4\"\n\
            #EXTINF:10.0\n\
            #EXT-X-BYTERANGE:75232@0\n\
            segment2.ts\n\
            #EXTINF:10.0\n\
            http://ads.doubleclick.net/seg.ts\n\
            #EXTINF:10.0\n\
            segment3.ts";
    let once = filter_ads_from_m3_u8(content);
    let twice = filter_ads_from_m3_u8(&once);
    assert_eq!(once, twice);
    assert!(once.contains("#EXT-X-BYTERANGE:75232@0"));
    assert!(once.contains("part1.mp4"));
    assert!(!once.contains("part_ad_1.mp4"));
    assert!(!once.contains("SCTE35"));
    assert!(!once.contains("ad1.ts"));
}

#[test]
fn filter_keeps_oatcls_span_out() {
    let content = "#EXTM3U\n#EXT-OATCLS-SCTE35:ABC\n#EXTINF:5\nin_break.ts\n#EXT-X-CUE-IN\n#EXTINF:5\nafter.ts";
    let filtered = filter_ads_from_m3_u8(content);
    assert!(!filtered.contains("in_break.ts"));
    assert!(filtered.contains("after.ts"));
}

#[test]
fn filter_drops_trailing_segment_without_uri() {
    let content = "#EXTM3U\n#EXTINF:10.0";
    let filtered = filter_ads_from_m3_u8(content);
    assert_eq!(filtered, "#EXTM3U");
}

#[test]
fn filter_empty_playlist_is_empty() {
    assert_eq!(filter_ads_from_m3_u8(""), "");
}
