use cs2_autoexec::{add_to_config, filter_config, reconcile, Baseline, ConfigMap};

const IGNORED: [&str; 19] = [
    "cachedvalue_count_partybrowser",
    "cachedvalue_count_teammates",
    "cl_embedded_stream_audio_volume",
    "cl_promoted_settings_acknowledged",
    "cl_redemption_reset_timestamp",
    "con_enable",
    "csgo_map_preview_scale",
    "lobby_default_privacy_bits2",
    "panorama_console_position_and_size",
    "player_nevershow_communityservermessage",
    "player_teamplayedlast",
    "r_show_build_info",
    "sv_specspeed",
    "ui_news_last_read_link",
    "ui_playsettings_maps_listen_competitive",
    "ui_playsettings_maps_listen_deathmatch",
    "ui_playsettings_maps_official_gungameprogressive",
    "ui_playsettings_mode_official_v20",
    "voice_threshold",
];

#[test]
fn filter_removes_every_ignored_key_and_nothing_else() {
    let mut map = ConfigMap::new();
    for key in IGNORED {
        map.insert(key, "x");
    }
    map.insert("sensitivity", "2.5");
    map.insert("con_enable2", "1");
    map.insert("voice_threshol", "1");
    assert_eq!(map.len(), 22);
    filter_config(&mut map);
    assert_eq!(map.len(), 3);
    for key in IGNORED {
        assert!(!map.contains_key(key));
    }
    assert_eq!(map.get("sensitivity"), Some("2.5".to_string()));
    assert_eq!(map.get("con_enable2"), Some("1".to_string()));
    assert_eq!(map.get("voice_threshol"), Some("1".to_string()));
}

#[test]
fn filter_leaves_a_map_without_ignored_keys_alone() {
    let mut map = ConfigMap::new();
    add_to_config(&mut map, false, "\"a\" \"1\"\n\"b\" \"2\"", "");
    filter_config(&mut map);
    assert_eq!(map.len(), 2);
    assert_eq!(map.get("a"), Some("1".to_string()));
    assert_eq!(map.get("b"), Some("2".to_string()));
}

#[test]
fn ignored_key_with_a_suffix_is_removed_too() {
    let mut map = ConfigMap::new();
    add_to_config(&mut map, false, "\"sv_specspeed$3\" \"9\"", "");
    assert!(map.contains_key("sv_specspeed"));
    filter_config(&mut map);
    assert_eq!(map.len(), 0);
}

#[test]
fn reconcile_builds_the_three_maps() {
    let baseline = Baseline {
        machine_convars: "\"volume\" \"0.5\"\n\"con_enable\" \"0\"\n".to_string(),
        user_convars: "\"volume\" \"0.7\"\n\"cl_hud_color\" \"0\"\n".to_string(),
        binds: "\"F1\" \"jump\"\n\"w\" \"+forward\"\n".to_string(),
    };
    let maps = reconcile(
        &baseline,
        "\"volume\" \"1.0\"\n\"voice_threshold\" \"4000\"\n",
        "\"cl_hud_color\" \"3\"\n\"volume\" \"0.2\"\n",
        "\"F1\" \"radar\"\n\"F2\" \"<unbound>\"\n",
    );

    assert_eq!(maps.default_config.len(), 3);
    assert_eq!(maps.default_config.get("volume"), Some("0.7".to_string()));
    assert_eq!(maps.default_config.get("con_enable"), Some("0".to_string()));
    assert_eq!(maps.default_config.get("cl_hud_color"), Some("0".to_string()));

    assert_eq!(maps.custom_config.len(), 2);
    assert_eq!(maps.custom_config.get("volume"), Some("0.2".to_string()));
    assert_eq!(maps.custom_config.get("cl_hud_color"), Some("3".to_string()));
    assert_eq!(maps.custom_config.get("voice_threshold"), None);

    assert_eq!(maps.binds.len(), 3);
    assert_eq!(maps.binds.get("bind \"F1\""), Some("radar".to_string()));
    assert_eq!(maps.binds.get("bind \"w\""), Some("+forward".to_string()));
    assert_eq!(maps.binds.get("bind \"F2\""), Some("<unbound>".to_string()));
}
