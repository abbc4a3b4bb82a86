use quantumtv::search_page::build_filter_categories;
use quantumtv::types::SearchResult;

#[test]
fn build_filter_categories_sorts_and_includes_unknown() {
    let results = vec![
        SearchResult {
            source: "s1".to_string(),
            source_name: "Beta".to_string(),
            title: "B".to_string(),
            year: Some("2022".to_string()),
            ..Default::default()
        },
        SearchResult {
            source: "s2".to_string(),
            source_name: "Alpha".to_string(),
            title: "A".to_string(),
            year: Some("unknown".to_string()),
            ..Default::default()
        },
        SearchResult {
            source: "s3".to_string(),
            source_name: "".to_string(),
            title: "C".to_string(),
            year: None,
            ..Default::default()
        },
    ];

    let categories = build_filter_categories(&results);
    let source_options = &categories[0].options;
    assert_eq!(source_options[0].value, "all");
    assert_eq!(source_options[1].label, "Alpha");
    assert_eq!(source_options[2].label, "Beta");

    let title_options = &categories[1].options;
    assert_eq!(title_options[0].value, "all");
    assert_eq!(title_options[1].label, "A");
    assert_eq!(title_options[2].label, "B");
    assert_eq!(title_options[3].label, "C");

    let year_options = &categories[2].options;
    assert_eq!(year_options[0].value, "all");
    assert_eq!(year_options[1].label, "2022");
    assert_eq!(year_options[2].label, "未知");
}

#[test]
fn year_options_sort_numerically_descending() {
    let results = vec![
        SearchResult {
            title: "X".to_string(),
            year: Some("1999".to_string()),
            ..Default::default()
        },
        SearchResult {
            title: "Y".to_string(),
            year: Some("2024".to_string()),
            ..Default::default()
        },
        SearchResult {
            title: "Z".to_string(),
            year: Some("2005".to_string()),
            ..Default::default()
        },
    ];
    let categories = build_filter_categories(&results);
    let year_options = &categories[2].options;
    assert_eq!(year_options[1].value, "2024");
    assert_eq!(year_options[2].value, "2005");
    assert_eq!(year_options[3].value, "1999");
}
