use quantumtv::spider::{
    calculate_md5, disk_cache_usable, get_candidates, memory_cache_usable, should_persist,
    user_agent_for, DiskEntry, FailedSources, SpiderInfo, SpiderMetadata, SpiderResourceManager,
};
use quantumtv::validate_payload;

fn valid_payload() -> Vec<u8> {
    let mut data = vec![0x50u8, 0x4B];
    data.extend(std::iter::repeat(7u8).take(1500));
    data
}

fn plan_for(
    candidates: &[String],
    outcomes: Vec<Option<Vec<u8>>>,
) -> Vec<(String, Option<Vec<u8>>)> {
    candidates
        .iter()
        .cloned()
        .zip(outcomes.into_iter())
        .collect()
}

#[test]
fn payload_validation_checks_size_and_magic() {
    assert!(validate_payload(&valid_payload()));
    assert!(!validate_payload(&vec![0x50, 0x4B, 0x00]));
    let mut wrong_magic = valid_payload();
    wrong_magic[0] = 0x00;
    assert!(!validate_payload(&wrong_magic));
}

#[test]
fn third_candidate_wins_and_failures_are_recorded() {
    let mut manager = SpiderResourceManager::new(1_000);
    let candidates = vec![
        "https://one.example/spider.jar".to_string(),
        "https://two.example/spider.jar".to_string(),
        "https://three.example/spider.jar".to_string(),
    ];
    // the first two return payloads that fail validation; the third is valid
    let plan = plan_for(
        &candidates,
        vec![
            Some(vec![1, 2, 3]),
            Some(vec![0x50, 0x4B]),
            Some(valid_payload()),
        ],
    );
    let record = manager.resolve(false, None, &candidates, &plan, 2_000);
    assert!(record.success);
    assert_eq!(record.source, "https://three.example/spider.jar");
    assert_eq!(record.buffer.as_ref().unwrap(), &valid_payload());
    assert_eq!(record.md5, calculate_md5(&valid_payload()));
    assert_eq!(record.tried, 3);
    assert!(manager.failed.is_failed("https://one.example/spider.jar"));
    assert!(manager.failed.is_failed("https://two.example/spider.jar"));
    assert!(!manager.failed.is_failed("https://three.example/spider.jar"));
    assert!(should_persist(&record));
}

#[test]
fn all_candidates_failing_falls_back_and_never_persists() {
    let mut manager = SpiderResourceManager::new(1_000);
    let candidates = vec![
        "https://one.example/spider.jar".to_string(),
        "https://two.example/spider.jar".to_string(),
    ];
    let plan = plan_for(&candidates, vec![None, None]);
    let record = manager.resolve(false, None, &candidates, &plan, 2_000);
    assert!(!record.success);
    assert_eq!(record.source, "fallback");
    assert!(record.buffer.is_some());
    assert!(!should_persist(&record));
    assert!(manager.failed.is_failed("https://one.example/spider.jar"));
    assert!(manager.failed.is_failed("https://two.example/spider.jar"));
}

#[test]
fn fresh_disk_record_short_circuits_resolution() {
    let mut manager = SpiderResourceManager::new(1_000);
    let payload = valid_payload();
    let meta = SpiderMetadata {
        md5: calculate_md5(&payload),
        source: "https://origin.example/spider.jar".to_string(),
        success: true,
        timestamp: 9_000,
        size: payload.len(),
    };
    let candidates = vec!["https://one.example/spider.jar".to_string()];
    // every network fetch would fail; the disk tier must win without one
    let plan = plan_for(&candidates, vec![None]);
    let record = manager.resolve(
        false,
        Some(DiskEntry { meta, payload: payload.clone() }),
        &candidates,
        &plan,
        9_500,
    );
    assert!(record.cached);
    assert!(record.success);
    assert_eq!(record.source, "https://origin.example/spider.jar");
    assert_eq!(record.buffer.as_ref().unwrap(), &payload);
    assert_eq!(record.tried, 0);
    // no candidate was marked failed: resolution never reached the network
    assert!(!manager.failed.is_failed("https://one.example/spider.jar"));
    assert!(!should_persist(&record));
}

#[test]
fn tampered_disk_checksum_is_ignored() {
    let mut manager = SpiderResourceManager::new(1_000);
    let payload = valid_payload();
    let meta = SpiderMetadata {
        md5: "0000deadbeef0000deadbeef0000dead".to_string(),
        source: "https://origin.example/spider.jar".to_string(),
        success: true,
        timestamp: 9_000,
        size: payload.len(),
    };
    let candidates = vec!["https://one.example/spider.jar".to_string()];
    let plan = plan_for(&candidates, vec![Some(valid_payload())]);
    let record = manager.resolve(
        false,
        Some(DiskEntry { meta, payload }),
        &candidates,
        &plan,
        9_500,
    );
    // the corrupted entry is discarded; resolution proceeds to the network
    assert!(!record.cached);
    assert!(record.success);
    assert_eq!(record.source, "https://one.example/spider.jar");
}

#[test]
fn expired_disk_record_is_ignored() {
    let payload = valid_payload();
    let meta = SpiderMetadata {
        md5: calculate_md5(&payload),
        source: "o".to_string(),
        success: true,
        timestamp: 0,
    size: payload.len(),
    };
    // one second past the success TTL
    assert!(!disk_cache_usable(&meta, &payload, 24 * 60 * 60 + 1));
    assert!(disk_cache_usable(&meta, &payload, 24 * 60 * 60));
}

#[test]
fn memory_record_honors_success_and_failure_ttls() {
    let mut info = SpiderInfo::empty();
    assert!(!memory_cache_usable(&info, 100));
    info.buffer = Some(vec![1]);
    info.timestamp = 1_000;
    info.success = true;
    assert!(memory_cache_usable(&info, 1_000 + 24 * 60 * 60 - 1));
    assert!(!memory_cache_usable(&info, 1_000 + 24 * 60 * 60));
    info.success = false;
    assert!(memory_cache_usable(&info, 1_000 + 599));
    assert!(!memory_cache_usable(&info, 1_000 + 600));
}

#[test]
fn memory_cache_is_served_with_cached_flag() {
    let mut manager = SpiderResourceManager::new(1_000);
    let candidates = vec!["https://one.example/spider.jar".to_string()];
    let plan = plan_for(&candidates, vec![Some(valid_payload())]);
    let first = manager.resolve(false, None, &candidates, &plan, 2_000);
    assert!(!first.cached);
    // a second resolution within the TTL serves the memory copy
    let empty_plan = plan_for(&candidates, vec![None]);
    let second = manager.resolve(false, None, &candidates, &empty_plan, 2_100);
    assert!(second.cached);
    assert_eq!(second.md5, first.md5);
}

#[test]
fn failure_set_resets_after_interval() {
    let mut failed = FailedSources::new(0);
    failed.mark_failed("https://one.example/a.jar");
    assert!(failed.is_failed("https://one.example/a.jar"));
    assert!(!failed.should_reset(2 * 60 * 60));
    assert!(failed.should_reset(2 * 60 * 60 + 1));
    failed.reset(2 * 60 * 60 + 1);
    assert!(!failed.is_failed("https://one.example/a.jar"));
    assert_eq!(failed.last_reset, 2 * 60 * 60 + 1);
}

#[test]
fn filtered_candidates_fall_back_to_whole_list() {
    let mut failed = FailedSources::new(0);
    let candidates = get_candidates();
    for c in candidates.iter() {
        failed.mark_failed(c.as_str());
    }
    let to_try = quantumtv::spider::candidates_to_try(&candidates, &failed);
    assert_eq!(to_try.len(), candidates.len());
    failed.mark_succeeded(candidates[0].as_str());
    let to_try = quantumtv::spider::candidates_to_try(&candidates, &failed);
    assert_eq!(to_try.len(), 1);
    assert_eq!(to_try[0], candidates[0]);
}

#[test]
fn md5_matches_known_digest() {
    assert_eq!(calculate_md5(b"abc"), "900150983cd24fb0d6963f7d28e17f72");
    assert_eq!(calculate_md5(b""), "d41d8cd98f00b204e9800998ecf8427e");
}

#[test]
fn resolved_records_carry_the_payload_size() {
    let mut manager = SpiderResourceManager::new(1_000);
    let candidates = vec!["https://one.example/spider.jar".to_string()];
    let plan = plan_for(&candidates, vec![Some(valid_payload())]);
    let record = manager.resolve(false, None, &candidates, &plan, 2_000);
    assert_eq!(record.size, valid_payload().len());
    assert_eq!(record.size, record.buffer.as_ref().unwrap().len());
}

#[test]
fn user_agents_cover_every_host_class() {
    assert_eq!(
        user_agent_for("https://raw.githubusercontent.com/x/custom_spider.jar"),
        "curl/7.68.0"
    );
    assert_eq!(
        user_agent_for("https://gitee.example/x.jar"),
        "Mozilla/5.0 (Windows NT 10.0; Win64; x64) AppleWebKit/537.36"
    );
    assert_eq!(user_agent_for("https://cdn.jsdelivr.net/x.jar"), "DecoTV/1.0");
    assert_eq!(
        user_agent_for("https://agit.ai/x.jar"),
        "Mozilla/5.0 (Linux; Android 11; SM-G973F) AppleWebKit/537.36 (KHTML, like Gecko) Chrome/91.0.4472.124 Mobile Safari/537.36"
    );
}
