use cs2_autoexec::{config_str, ignored_commands, sections, Baseline};

#[test]
fn catalog_holds_viewmodel_and_crosshair() {
    let catalog = sections();
    assert_eq!(catalog.len(), 2);
    assert_eq!(catalog[0].name, "VIEWMODEL");
    assert_eq!(
        catalog[0].keys,
        vec![
            "viewmodel_presetpos",
            "viewmodel_fov",
            "viewmodel_offset_x",
            "viewmodel_offset_y",
            "viewmodel_offset_z",
        ]
    );
    assert_eq!(catalog[1].name, "CROSSHAIR");
    assert_eq!(
        catalog[1].keys,
        vec![
            "cl_crosshair_drawoutline",
            "cl_crosshair_dynamic_maxdist_splitratio",
            "cl_crosshair_dynamic_splitalpha_innermod",
            "cl_crosshair_dynamic_splitalpha_outermod",
            "cl_crosshair_dynamic_splitdist",
            "cl_crosshair_outlinethickness",
            "cl_crosshair_recoil",
            "cl_crosshair_sniper_width",
            "cl_crosshair_t",
            "cl_crosshairalpha",
            "cl_crosshaircolor",
            "cl_crosshaircolor_b",
            "cl_crosshaircolor_g",
            "cl_crosshaircolor_r",
            "cl_crosshairdot",
            "cl_crosshairgap",
            "cl_crosshairgap_useweaponvalue",
            "cl_crosshairsize",
            "cl_crosshairstyle",
            "cl_crosshairthickness",
            "cl_crosshairusealpha",
            "cl_fixedcrosshairgap",
        ]
    );
}

#[test]
fn no_key_is_in_the_catalog_twice_or_ignored() {
    let mut keys: Vec<&str> = Vec::new();
    for section in sections() {
        keys.extend(section.keys);
    }
    assert_eq!(keys.len(), 27);
    let ignored = ignored_commands();
    for (i, key) in keys.iter().enumerate() {
        assert!(!keys[..i].contains(key));
        assert!(!ignored.contains(key));
    }
}

#[test]
fn ignore_list_holds_the_nineteen_keys() {
    assert_eq!(
        ignored_commands(),
        vec![
            "cachedvalue_count_partybrowser",
            "cachedvalue_count_teammates",
            "cl_embedded_stream_audio_volume",
            "cl_promoted_settings_acknowledged",
            "cl_redemption_reset_timestamp",
            "con_enable",
            "csgo_map_preview_scale",
            "lobby_default_privacy_bits2",
            "panorama_console_position_and_size",
            "player_nevershow_communityservermessage",
            "player_teamplayedlast",
            "r_show_build_info",
            "sv_specspeed",
            "ui_news_last_read_link",
            "ui_playsettings_maps_listen_competitive",
            "ui_playsettings_maps_listen_deathmatch",
            "ui_playsettings_maps_official_gungameprogressive",
            "ui_playsettings_mode_official_v20",
            "voice_threshold",
        ]
    );
}

#[test]
fn large_dumps_are_rendered() {
    let mut base_machine = String::new();
    let mut machine = String::new();
    let mut base_binds = String::new();
    let mut binds = String::new();
    for i in 0..1500 {
        base_machine.push_str(&format!("\t\"setting_{:04}\"\t\"{}\"\n", i, i));
        machine.push_str(&format!("\t\"setting_{:04}$9\"\t\"{}\"\n", 1499 - i, (1499 - i) % 3));
        base_binds.push_str(&format!("\t\"key{}\"\t\"+action{}\"\n", i, i));
        if i % 2 == 0 {
            binds.push_str(&format!("\t\"key{}\"\t\"<unbound>\"\n", i));
        }
    }
    let mut user = String::new();
    for section in sections() {
        for key in section.keys {
            user.push_str(&format!("\"{}\" \"1\"\n", key));
        }
    }
    let baseline = Baseline { machine_convars: base_machine, user_convars: String::new(), binds: base_binds };
    let script = config_str(&baseline, machine, user, binds).unwrap();

    let lines: Vec<&str> = script.lines().collect();
    let bind_lines: Vec<&&str> = lines.iter().filter(|line| line.starts_with("bind \"")).collect();
    assert_eq!(bind_lines.len(), 750);
    let setting_lines: Vec<&&str> = lines.iter().filter(|line| line.starts_with("setting_")).collect();
    assert_eq!(setting_lines.len(), 1497);
    assert_eq!(*setting_lines[0], "setting_0003 \"0\"");
    assert_eq!(*setting_lines[1496], "setting_1499 \"2\"");
    for pair in setting_lines.windows(2) {
        assert!(pair[0] < pair[1]);
    }
    for pair in bind_lines.windows(2) {
        assert!(pair[0] < pair[1]);
    }
}
