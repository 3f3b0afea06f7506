use cs2_autoexec::{config_str, Baseline, MissingKey};

const VIEWMODEL_KEYS: [&str; 5] = [
    "viewmodel_presetpos",
    "viewmodel_fov",
    "viewmodel_offset_x",
    "viewmodel_offset_y",
    "viewmodel_offset_z",
];

const CROSSHAIR_KEYS: [&str; 22] = [
    "cl_crosshair_drawoutline",
    "cl_crosshair_dynamic_maxdist_splitratio",
    "cl_crosshair_dynamic_splitalpha_innermod",
    "cl_crosshair_dynamic_splitalpha_outermod",
    "cl_crosshair_dynamic_splitdist",
    "cl_crosshair_outlinethickness",
    "cl_crosshair_recoil",
    "cl_crosshair_sniper_width",
    "cl_crosshair_t",
    "cl_crosshairalpha",
    "cl_crosshaircolor",
    "cl_crosshaircolor_b",
    "cl_crosshaircolor_g",
    "cl_crosshaircolor_r",
    "cl_crosshairdot",
    "cl_crosshairgap",
    "cl_crosshairgap_useweaponvalue",
    "cl_crosshairsize",
    "cl_crosshairstyle",
    "cl_crosshairthickness",
    "cl_crosshairusealpha",
    "cl_fixedcrosshairgap",
];

const FOOTER: &str =
    "\necho \"--- autoexec loaded ---\"\n// Generated at https://rpeabs.net/cs2autoexec/";

/// A dump in the shape the game writes: one `"key" "value"` pair per line,
/// inside a block.
fn dump(pairs: &[(&str, &str)]) -> String {
    let mut text = String::from("\"config\"\n{\n\t\"convars\"\n\t{\n");
    for (key, value) in pairs {
        text.push_str(&format!("\t\t\"{}\"\t\t\"{}\"\n", key, value));
    }
    text.push_str("\t}\n}\n");
    text
}

/// A user dump that holds every key of the sections, each with the value "1".
fn section_settings() -> String {
    let mut pairs: Vec<(&str, &str)> = Vec::new();
    for key in VIEWMODEL_KEYS.iter().chain(CROSSHAIR_KEYS.iter()) {
        pairs.push((key, "1"));
    }
    dump(&pairs)
}

/// The section blocks that `section_settings` gives.
fn section_blocks() -> String {
    let mut text = String::from("// VIEWMODEL\n");
    for key in VIEWMODEL_KEYS {
        text.push_str(&format!("{} \"1\"\n", key));
    }
    text.push_str("\n// CROSSHAIR\n");
    for key in CROSSHAIR_KEYS {
        text.push_str(&format!("{} \"1\"\n", key));
    }
    text.push('\n');
    text
}

fn baseline(machine: &str, user: &str, binds: &str) -> Baseline {
    Baseline {
        machine_convars: machine.to_string(),
        user_convars: user.to_string(),
        binds: binds.to_string(),
    }
}

fn run(base: &Baseline, machine: &str, user: &str, binds: &str) -> String {
    config_str(base, machine.to_string(), user.to_string(), binds.to_string())
        .expect("every key of the sections is supplied")
}

/// The lines of `script` from the line after `header` to the next blank line.
fn block<'a>(script: &'a str, header: &str) -> Vec<&'a str> {
    let mut lines = script.lines().skip_while(|line| *line != header);
    assert_eq!(lines.next(), Some(header));
    lines.take_while(|line| !line.is_empty()).collect()
}

#[test]
fn empty_inputs_give_the_fixed_parts_only() {
    let base = baseline("", "", "");
    let script = run(&base, "", &section_settings(), "");
    let expected = format!(
        "con_enable \"1\"\n\n{}// BINDS\nunbindall\n\n// SETTINGS\n{}",
        section_blocks(),
        FOOTER
    );
    assert_eq!(script, expected);
}

#[test]
fn whole_script_is_rendered_in_order() {
    let base = baseline(
        &dump(&[("sensitivity", "2.0"), ("volume", "0.5")]),
        &dump(&[("cl_hud_color", "0"), ("viewmodel_fov", "60")]),
        &dump(&[("F1", "jump"), ("w", "+forward"), ("F9", "<unbound>")]),
    );
    let machine = dump(&[("volume", "0.5"), ("sensitivity", "2.5"), ("brand_new", "7")]);
    let user = format!("{}{}", section_settings(), dump(&[("cl_hud_color", "3")]));
    let binds = dump(&[("F1", "radar"), ("mouse1", "+attack"), ("w", "<unbound>")]);
    let script = run(&base, &machine, &user, &binds);
    let expected = format!(
        "con_enable \"1\"\n\n{}// BINDS\nunbindall\nbind \"F1\" \"radar\"\nbind \"mouse1\" \"+attack\"\n\n// SETTINGS\ncl_hud_color \"3\"\nsensitivity \"2.5\"\n{}",
        section_blocks(),
        FOOTER
    );
    assert_eq!(script, expected);
}

#[test]
fn changed_sensitivity_is_in_the_settings_block() {
    let base = baseline(&dump(&[("sensitivity", "2.0")]), "", "");
    let script = run(&base, &dump(&[("sensitivity", "2.5")]), &section_settings(), "");
    assert_eq!(block(&script, "// SETTINGS"), vec!["sensitivity \"2.5\""]);
}

#[test]
fn ignored_con_enable_is_not_in_the_settings_block() {
    let base = baseline(&dump(&[("con_enable", "1")]), "", "");
    let script = run(&base, &dump(&[("con_enable", "0")]), &section_settings(), "");
    assert!(script.starts_with("con_enable \"1\"\n\n"));
    assert!(block(&script, "// SETTINGS").is_empty());
    assert_eq!(script.matches("con_enable").count(), 1);
    assert!(!script.contains("con_enable \"0\""));
}

#[test]
fn custom_bind_overrides_the_default_bind() {
    let base = baseline("", "", "bind \"F1\" \"jump\"\n");
    let script = run(&base, "", &section_settings(), "bind \"F1\" \"radar\"\n");
    assert_eq!(block(&script, "unbindall"), vec!["bind \"F1\" \"radar\""]);
    assert!(!script.contains("jump"));
}

#[test]
fn unbound_custom_bind_has_no_line() {
    let base = baseline("", "", &dump(&[("F1", "jump"), ("F2", "slot1")]));
    let script = run(&base, "", &section_settings(), &dump(&[("F1", "<unbound>")]));
    assert_eq!(block(&script, "unbindall"), vec!["bind \"F2\" \"slot1\""]);
    assert!(!script.contains("F1"));
    assert!(!script.contains("<unbound>"));
}

#[test]
fn missing_section_key_is_named() {
    let base = baseline("", "", "");
    let mut pairs: Vec<(&str, &str)> = Vec::new();
    for key in VIEWMODEL_KEYS.iter().chain(CROSSHAIR_KEYS.iter()) {
        if *key != "cl_crosshair_t" && *key != "cl_crosshairdot" {
            pairs.push((key, "1"));
        }
    }
    let result = config_str(&base, String::new(), dump(&pairs), String::new());
    let missing = MissingKey { section: "CROSSHAIR".to_string(), key: "cl_crosshair_t".to_string() };
    assert_eq!(result, Err(MissingKey { section: "CROSSHAIR".to_string(), key: "cl_crosshair_t".to_string() }));
    assert_eq!(missing.message(), "missing key \"cl_crosshair_t\" in section CROSSHAIR");
}

#[test]
fn same_inputs_give_the_same_script() {
    let base = baseline(
        &dump(&[("sensitivity", "2.0"), ("volume", "0.5"), ("fps_max", "400")]),
        &dump(&[("cl_hud_color", "0")]),
        &dump(&[("F1", "jump"), ("w", "+forward"), ("s", "+back")]),
    );
    let machine = dump(&[("fps_max", "0"), ("sensitivity", "2.5")]);
    let user = format!("{}{}", dump(&[("cl_hud_color", "3")]), section_settings());
    let binds = dump(&[("F1", "radar"), ("s", "<unbound>"), ("mouse1", "+attack")]);
    let first = run(&base, &machine, &user, &binds);
    let second = run(&base, &machine, &user, &binds);
    assert_eq!(first, second);
    assert_eq!(first.as_bytes(), second.as_bytes());
}

#[test]
fn order_of_the_input_lines_does_not_change_the_script() {
    let base = baseline(&dump(&[("a", "0"), ("b", "0"), ("c", "0")]), "", &dump(&[("x", "1")]));
    let user = section_settings();
    let forward = run(
        &base,
        &dump(&[("a", "1"), ("b", "2"), ("c", "3")]),
        &user,
        &dump(&[("k1", "+a"), ("k2", "+b")]),
    );
    let backward = run(
        &base,
        &dump(&[("c", "3"), ("b", "2"), ("a", "1")]),
        &user,
        &dump(&[("k2", "+b"), ("k1", "+a")]),
    );
    assert_eq!(forward, backward);
    assert_eq!(block(&forward, "// SETTINGS"), vec!["a \"1\"", "b \"2\"", "c \"3\""]);
}

#[test]
fn every_ignored_key_stays_out_of_the_script() {
    let ignored = [
        "cachedvalue_count_partybrowser",
        "cachedvalue_count_teammates",
        "cl_embedded_stream_audio_volume",
        "cl_promoted_settings_acknowledged",
        "cl_redemption_reset_timestamp",
        "con_enable",
        "csgo_map_preview_scale",
        "lobby_default_privacy_bits2",
        "panorama_console_position_and_size",
        "player_nevershow_communityservermessage",
        "player_teamplayedlast",
        "r_show_build_info",
        "sv_specspeed",
        "ui_news_last_read_link",
        "ui_playsettings_maps_listen_competitive",
        "ui_playsettings_maps_listen_deathmatch",
        "ui_playsettings_maps_official_gungameprogressive",
        "ui_playsettings_mode_official_v20",
        "voice_threshold",
    ];
    let defaults: Vec<(&str, &str)> = ignored.iter().map(|key| (*key, "default")).collect();
    let supplied: Vec<(&str, &str)> = ignored.iter().map(|key| (*key, "custom")).collect();
    let base = baseline(&dump(&defaults), "", "");
    let user = format!("{}{}", dump(&supplied), section_settings());
    let script = run(&base, &dump(&supplied), &user, "");
    assert!(block(&script, "// SETTINGS").is_empty());
    assert!(!script.contains("custom"));
    for (at, line) in script.lines().enumerate() {
        for key in ignored {
            if line.starts_with(&format!("{} \"", key)) {
                assert_eq!((at, line), (0, "con_enable \"1\""));
            }
        }
    }
}

#[test]
fn unbound_default_bind_is_not_emitted_either() {
    let base = baseline("", "", &dump(&[("F1", "<unbound>"), ("F2", "slot1")]));
    let script = run(&base, "", &section_settings(), "");
    assert_eq!(block(&script, "unbindall"), vec!["bind \"F2\" \"slot1\""]);
    assert!(!script.contains("F1"));
}

#[test]
fn custom_bind_revives_an_unbound_default() {
    let base = baseline("", "", &dump(&[("F1", "<unbound>")]));
    let script = run(&base, "", &section_settings(), &dump(&[("F1", "radar")]));
    assert_eq!(block(&script, "unbindall"), vec!["bind \"F1\" \"radar\""]);
}

#[test]
fn setting_equal_to_its_default_is_not_emitted() {
    let base = baseline(&dump(&[("sensitivity", "2.0"), ("volume", "0.5")]), "", "");
    let script = run(
        &base,
        &dump(&[("sensitivity", "2.0"), ("volume", "0.6")]),
        &section_settings(),
        "",
    );
    assert_eq!(block(&script, "// SETTINGS"), vec!["volume \"0.6\""]);
    assert!(!script.contains("sensitivity"));
}

#[test]
fn setting_without_a_default_is_not_emitted() {
    let base = baseline(&dump(&[("sensitivity", "2.0")]), "", "");
    let script = run(&base, &dump(&[("brand_new", "1")]), &section_settings(), "");
    assert!(block(&script, "// SETTINGS").is_empty());
    assert!(!script.contains("brand_new"));
}

#[test]
fn user_dump_overrides_machine_dump() {
    let base = baseline(&dump(&[("volume", "0.5")]), &dump(&[("volume", "0.7")]), "");
    let user = format!("{}{}", dump(&[("volume", "0.7")]), section_settings());
    let script = run(&base, &dump(&[("volume", "0.9")]), &user, "");
    assert!(block(&script, "// SETTINGS").is_empty());
    let user = format!("{}{}", dump(&[("volume", "0.5")]), section_settings());
    let script = run(&base, &dump(&[("volume", "0.7")]), &user, "");
    assert_eq!(block(&script, "// SETTINGS"), vec!["volume \"0.5\""]);
}

#[test]
fn suffixed_keys_are_compared_under_their_plain_name() {
    let base = baseline(&dump(&[("mix$1", "a"), ("other", "x")]), "", "");
    let script = run(&base, &dump(&[("mix$7", "b"), ("other$2", "x")]), &section_settings(), "");
    assert_eq!(block(&script, "// SETTINGS"), vec!["mix \"b\""]);
}

#[test]
fn blocks_are_sorted_like_strings() {
    let keys = ["zoom", "Alpha", "alpha", "alpha2", "alpha_b", "beta", "_x", "9lives", "ÿ", "ω"];
    let defaults: Vec<(&str, &str)> = keys.iter().map(|key| (*key, "0")).collect();
    let supplied: Vec<(&str, &str)> = keys.iter().map(|key| (*key, "1")).collect();
    let base = baseline(&dump(&defaults), "", "");
    let script = run(&base, &dump(&supplied), &section_settings(), &dump(&supplied));

    let mut settings: Vec<String> = keys.iter().map(|key| format!("{} \"1\"", key)).collect();
    settings.sort();
    assert_eq!(block(&script, "// SETTINGS"), settings);

    let mut binds: Vec<String> = keys.iter().map(|key| format!("bind \"{}\" \"1\"", key)).collect();
    binds.sort();
    assert_eq!(block(&script, "unbindall"), binds);
    for pair in block(&script, "unbindall").windows(2) {
        assert!(pair[0] <= pair[1]);
    }
}
