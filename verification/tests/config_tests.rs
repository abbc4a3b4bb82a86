use quantumtv::config::{
    apply_player_config_patch, apply_user_preferences_patch, format_rfc3339_utc_from_secs,
    PlayerConfig, PlayerConfigPatch, UserPreferences, UserPreferencesPatch,
};

#[test]
fn format_rfc3339_utc_epoch() {
    let formatted = format_rfc3339_utc_from_secs(0, 0);
    assert_eq!(formatted, "1970-01-01T00:00:00.000Z");
}

#[test]
fn format_rfc3339_utc_known_instant() {
    // 2024-02-29T12:34:56.789Z, a leap day
    let formatted = format_rfc3339_utc_from_secs(1_709_210_096, 789_000_000);
    assert_eq!(formatted, "2024-02-29T12:34:56.789Z");
}

#[test]
fn apply_player_config_patch_updates_only_fields() {
    let base = PlayerConfig {
        block_ad_enabled: true,
        optimization_enabled: true,
    };
    let patch = PlayerConfigPatch {
        block_ad_enabled: Some(false),
        optimization_enabled: None,
    };
    let updated = apply_player_config_patch(base, patch);
    assert!(!updated.block_ad_enabled);
    assert!(updated.optimization_enabled);
}

#[test]
fn apply_user_preferences_patch_updates_only_fields() {
    let base = UserPreferences::default();
    let patch = UserPreferencesPatch {
        enable_optimization: Some(false),
        player_buffer_mode: Some("max".to_string()),
        ..Default::default()
    };
    let updated = apply_user_preferences_patch(base.clone(), patch);
    assert!(!updated.enable_optimization);
    assert_eq!(updated.player_buffer_mode, "max");
    assert_eq!(updated.site_name, base.site_name);
}

#[test]
fn format_rfc3339_now_is_well_formed() {
    let now = quantumtv::config::format_rfc3339_utc_now();
    assert_eq!(now.len(), 24);
    assert!(now.ends_with('Z'));
    assert_eq!(&now[4..5], "-");
    assert_eq!(&now[10..11], "T");
}
