use quantumtv::home::{
    build_favorite_cards, resolve_weekday_input, sort_continue_watching, ContinueWatchingItem,
    FavoriteRecord, PlayRecordMeta,
};

#[test]
fn build_favorite_cards_sorts_and_maps_episode() {
    let favorites = vec![
        FavoriteRecord {
            key: "s1+id1".to_string(),
            title: "A".to_string(),
            source_name: "S1".to_string(),
            year: "2024".to_string(),
            cover: "c1".to_string(),
            total_episodes: 10,
            save_time: 100,
            search_title: "A".to_string(),
        },
        FavoriteRecord {
            key: "s2+id2".to_string(),
            title: "B".to_string(),
            source_name: "S2".to_string(),
            year: "2023".to_string(),
            cover: "c2".to_string(),
            total_episodes: 1,
            save_time: 200,
            search_title: "B".to_string(),
        },
    ];
    let play_records = vec![PlayRecordMeta {
        key: "s1+id1".to_string(),
        episode_index: 3,
    }];

    let cards = build_favorite_cards(favorites, play_records);
    assert_eq!(cards.len(), 2);
    assert_eq!(cards[0].source, "s2");
    assert_eq!(cards[0].id, "id2");
    assert_eq!(cards[1].current_episode, Some(3));
}

fn watch_item(key: &str, save_time: i32) -> ContinueWatchingItem {
    ContinueWatchingItem {
        key: key.to_string(),
        title: "T".to_string(),
        source_name: "S".to_string(),
        year: "2020".to_string(),
        cover: "c".to_string(),
        episode_index: 1,
        total_episodes: 10,
        play_time: 10,
        total_time: 100,
        save_time,
        search_title: "T".to_string(),
    }
}

#[test]
fn sort_continue_watching_orders_desc() {
    let records = vec![watch_item("k1", 1), watch_item("k2", 5)];

    let sorted = sort_continue_watching(records);
    assert_eq!(sorted[0].key, "k2");
    assert_eq!(sorted[1].key, "k1");
}

#[test]
fn resolve_weekday_input_prefers_trimmed_value() {
    let resolved = resolve_weekday_input(Some("  Mon  "), "Thu");
    assert_eq!(resolved, "Mon");
}

#[test]
fn resolve_weekday_input_uses_fallback_for_empty() {
    let resolved = resolve_weekday_input(Some("   "), "Thu");
    assert_eq!(resolved, "Thu");
}

#[test]
fn split_key_without_separator_is_all_source() {
    let (source, id) = quantumtv::home::split_storage_key("plain");
    assert_eq!(source, "plain");
    assert_eq!(id, "");
}

#[test]
fn home_sorts_are_stable_on_equal_save_times() {
    let records = vec![
        watch_item("k1", 7),
        watch_item("k2", 9),
        watch_item("k3", 7),
        watch_item("k4", 7),
    ];
    let sorted = sort_continue_watching(records);
    assert_eq!(sorted[0].key, "k2");
    assert_eq!(sorted[1].key, "k1");
    assert_eq!(sorted[2].key, "k3");
    assert_eq!(sorted[3].key, "k4");
}
