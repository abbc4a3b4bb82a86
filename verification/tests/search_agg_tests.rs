use quantumtv::search_agg::{
    aggregate_search_results, apply_filter, calculate_most_common_episodes, compare_year,
    compute_group_stats, extract_unique_source_names, sort_by_year, subsequence_match,
    SearchFilter, YearOrder,
};
use quantumtv::types::SearchResult;
use std::cmp::Ordering;

#[test]
fn test_subsequence_match() {
    assert!(subsequence_match("abcdef", "ace"));
    assert!(subsequence_match("hello world", "hld"));
    assert!(!subsequence_match("abc", "adc"));

    assert!(subsequence_match("", ""));
    assert!(subsequence_match("abc", ""));
    assert!(!subsequence_match("", "a"));
}

#[test]
fn test_calculate_most_common_episodes() {
    let results = vec![
        SearchResult {
            episodes: vec!["1".to_string(), "2".to_string()],
            ..Default::default()
        },
        SearchResult {
            episodes: vec!["1".to_string(), "2".to_string()],
            ..Default::default()
        },
        SearchResult {
            episodes: vec!["1".to_string()],
            ..Default::default()
        },
    ];

    assert_eq!(calculate_most_common_episodes(&results), 2);

    let empty: Vec<SearchResult> = vec![];
    assert_eq!(calculate_most_common_episodes(&empty), 0);
}

#[test]
fn test_compare_year() {
    assert_eq!(compare_year("2024", "2023", &YearOrder::Desc), Ordering::Less);
    assert_eq!(compare_year("2023", "2024", &YearOrder::Asc), Ordering::Less);
    assert_eq!(compare_year("unknown", "2024", &YearOrder::Asc), Ordering::Greater);

    assert_eq!(compare_year("", "", &YearOrder::Asc), Ordering::Equal);
    assert_eq!(compare_year("unknown", "unknown", &YearOrder::Desc), Ordering::Equal);
    assert_eq!(compare_year("2024", "2024", &YearOrder::Asc), Ordering::Equal);
}

#[test]
fn test_aggregate_search_results() {
    let results = vec![
        SearchResult {
            id: "1".to_string(),
            title: "复仇者联盟".to_string(),
            year: Some("2012".to_string()),
            episodes: vec!["1".to_string()],
            source: "source1".to_string(),
            source_name: "来源1".to_string(),
            ..Default::default()
        },
        SearchResult {
            id: "2".to_string(),
            title: "复仇者联盟".to_string(),
            year: Some("2012".to_string()),
            episodes: vec!["1".to_string()],
            source: "source2".to_string(),
            source_name: "来源2".to_string(),
            ..Default::default()
        },
        SearchResult {
            id: "3".to_string(),
            title: "不相关的电影".to_string(),
            year: Some("2020".to_string()),
            episodes: vec!["1".to_string()],
            source: "source1".to_string(),
            source_name: "来源1".to_string(),
            ..Default::default()
        },
    ];

    let aggregated = aggregate_search_results(results, "复仇者", None);

    assert_eq!(aggregated.len(), 1);
    assert_eq!(aggregated[0].1.len(), 2);
}

#[test]
fn test_apply_filter() {
    let results = vec![
        SearchResult {
            id: "1".to_string(),
            title: "电影A".to_string(),
            year: Some("2023".to_string()),
            source: "source1".to_string(),
            ..Default::default()
        },
        SearchResult {
            id: "2".to_string(),
            title: "电影B".to_string(),
            year: Some("2024".to_string()),
            source: "source2".to_string(),
            ..Default::default()
        },
    ];

    let filter = SearchFilter {
        source: "source1".to_string(),
        title: "all".to_string(),
        year: "all".to_string(),
        year_order: YearOrder::Unordered,
    };
    let filtered = apply_filter(results.clone(), &filter);
    assert_eq!(filtered.len(), 1);
    assert_eq!(filtered[0].id, "1");

    let filter = SearchFilter {
        source: "all".to_string(),
        title: "all".to_string(),
        year: "2024".to_string(),
        year_order: YearOrder::Unordered,
    };
    let filtered = apply_filter(results.clone(), &filter);
    assert_eq!(filtered.len(), 1);
    assert_eq!(filtered[0].id, "2");
}

#[test]
fn test_sort_by_year() {
    let results = vec![
        SearchResult {
            id: "1".to_string(),
            year: Some("2024".to_string()),
            ..Default::default()
        },
        SearchResult {
            id: "2".to_string(),
            year: Some("2022".to_string()),
            ..Default::default()
        },
        SearchResult {
            id: "3".to_string(),
            year: Some("2023".to_string()),
            ..Default::default()
        },
    ];

    let sorted = sort_by_year(results.clone(), YearOrder::Desc);
    assert_eq!(sorted[0].id, "1");
    assert_eq!(sorted[1].id, "3");
    assert_eq!(sorted[2].id, "2");

    let sorted = sort_by_year(results.clone(), YearOrder::Asc);
    assert_eq!(sorted[0].id, "2");
    assert_eq!(sorted[1].id, "3");
    assert_eq!(sorted[2].id, "1");
}

#[test]
fn test_compute_group_stats() {
    let group = vec![
        SearchResult {
            id: "1".to_string(),
            title: "测试剧集".to_string(),
            episodes: vec!["1".to_string(), "2".to_string()],
            source_name: "来源A".to_string(),
            douban_id: Some(123),
            ..Default::default()
        },
        SearchResult {
            id: "2".to_string(),
            title: "测试剧集".to_string(),
            episodes: vec!["1".to_string(), "2".to_string()],
            source_name: "来源B".to_string(),
            douban_id: Some(123),
            ..Default::default()
        },
    ];

    let stats = compute_group_stats(&group);
    assert_eq!(stats.episodes, 2);
    assert_eq!(stats.source_names.len(), 2);
    assert_eq!(stats.douban_id, Some(123));
}

#[test]
fn test_extract_unique_source_names() {
    let group = vec![
        SearchResult {
            source_name: "来源A".to_string(),
            ..Default::default()
        },
        SearchResult {
            source_name: "来源B".to_string(),
            ..Default::default()
        },
        SearchResult {
            source_name: "来源A".to_string(),
            ..Default::default()
        },
    ];

    let names = extract_unique_source_names(&group);
    assert_eq!(names.len(), 2);
    assert!(names.contains(&"来源A".to_string()));
    assert!(names.contains(&"来源B".to_string()));
}

#[test]
fn aggregate_uses_normalized_query_too() {
    let results = vec![SearchResult {
        id: "1".to_string(),
        title: "Some Show".to_string(),
        episodes: vec!["1".to_string(), "2".to_string()],
        ..Default::default()
    }];
    let aggregated = aggregate_search_results(results, "zzz", Some("some show"));
    assert_eq!(aggregated.len(), 1);
    assert_eq!(aggregated[0].0, "SomeShow-unknown-tv");
}

#[test]
fn sort_by_year_is_stable_on_equal_years() {
    let results = vec![
        SearchResult {
            id: "a".to_string(),
            year: Some("2020".to_string()),
            ..Default::default()
        },
        SearchResult {
            id: "b".to_string(),
            year: Some("2024".to_string()),
            ..Default::default()
        },
        SearchResult {
            id: "c".to_string(),
            year: Some("2020".to_string()),
            ..Default::default()
        },
        SearchResult {
            id: "d".to_string(),
            year: Some("2020".to_string()),
            ..Default::default()
        },
    ];
    let sorted = sort_by_year(results.clone(), YearOrder::Asc);
    assert_eq!(sorted[0].id, "a");
    assert_eq!(sorted[1].id, "c");
    assert_eq!(sorted[2].id, "d");
    assert_eq!(sorted[3].id, "b");
    let sorted = sort_by_year(results, YearOrder::Desc);
    assert_eq!(sorted[0].id, "b");
    assert_eq!(sorted[1].id, "a");
    assert_eq!(sorted[2].id, "c");
    assert_eq!(sorted[3].id, "d");
}
