use cs2_autoexec::{emit, write_sections, ConfigMap, MissingKey};

const VIEWMODEL_KEYS: [&str; 5] = [
    "viewmodel_presetpos",
    "viewmodel_fov",
    "viewmodel_offset_x",
    "viewmodel_offset_y",
    "viewmodel_offset_z",
];

const CROSSHAIR_KEYS: [&str; 22] = [
    "cl_crosshair_drawoutline",
    "cl_crosshair_dynamic_maxdist_splitratio",
    "cl_crosshair_dynamic_splitalpha_innermod",
    "cl_crosshair_dynamic_splitalpha_outermod",
    "cl_crosshair_dynamic_splitdist",
    "cl_crosshair_outlinethickness",
    "cl_crosshair_recoil",
    "cl_crosshair_sniper_width",
    "cl_crosshair_t",
    "cl_crosshairalpha",
    "cl_crosshaircolor",
    "cl_crosshaircolor_b",
    "cl_crosshaircolor_g",
    "cl_crosshaircolor_r",
    "cl_crosshairdot",
    "cl_crosshairgap",
    "cl_crosshairgap_useweaponvalue",
    "cl_crosshairsize",
    "cl_crosshairstyle",
    "cl_crosshairthickness",
    "cl_crosshairusealpha",
    "cl_fixedcrosshairgap",
];

const HEADER: &str = "con_enable \"1\"\n\n";
const FOOTER: &str =
    "\necho \"--- autoexec loaded ---\"\n// Generated at https://rpeabs.net/cs2autoexec/";

/// A map that holds every key of the sections; the value of the key at
/// position `i` of the catalog is `i`.
fn with_section_keys() -> ConfigMap {
    let mut map = ConfigMap::new();
    for (i, key) in VIEWMODEL_KEYS.iter().chain(CROSSHAIR_KEYS.iter()).enumerate() {
        map.insert(key, &i.to_string());
    }
    map
}

/// The section blocks for `with_section_keys`.
fn numbered_sections() -> String {
    let mut text = String::from("// VIEWMODEL\n");
    for (i, key) in VIEWMODEL_KEYS.iter().enumerate() {
        text.push_str(&format!("{} \"{}\"\n", key, i));
    }
    text.push_str("\n// CROSSHAIR\n");
    for (i, key) in CROSSHAIR_KEYS.iter().enumerate() {
        text.push_str(&format!("{} \"{}\"\n", key, i + 5));
    }
    text.push('\n');
    text
}

fn map_of(pairs: &[(&str, &str)]) -> ConfigMap {
    let mut map = ConfigMap::new();
    for (key, value) in pairs {
        map.insert(key, value);
    }
    map
}

/// The lines between `from` and `to` in `script`.
fn between(script: &str, from: &str, to: &str) -> Vec<String> {
    let start = script.find(from).expect("the block begins") + from.len();
    let end = start + script[start..].find(to).expect("the block ends");
    script[start..end].lines().map(|line| line.to_string()).collect()
}

#[test]
fn sections_are_rendered_in_catalog_order_and_their_keys_leave() {
    let mut config = with_section_keys();
    config.insert("sensitivity", "2.5");
    config.insert("volume", "0.5");
    assert_eq!(config.len(), 29);
    let text = write_sections(&mut config);
    assert_eq!(text, Ok(numbered_sections()));
    assert_eq!(config.len(), 2);
    for key in VIEWMODEL_KEYS.iter().chain(CROSSHAIR_KEYS.iter()) {
        assert!(!config.contains_key(key));
    }
    assert_eq!(config.get("sensitivity"), Some("2.5".to_string()));
    assert_eq!(config.get("volume"), Some("0.5".to_string()));
}

#[test]
fn first_missing_key_in_catalog_order_is_reported() {
    let mut config = with_section_keys();
    config.remove("cl_crosshairsize");
    config.remove("viewmodel_offset_y");
    config.remove("cl_crosshair_t");
    let result = write_sections(&mut config);
    assert_eq!(
        result,
        Err(MissingKey { section: "VIEWMODEL".to_string(), key: "viewmodel_offset_y".to_string() })
    );
}

#[test]
fn missing_key_leaves_the_config_as_it_was() {
    let mut config = with_section_keys();
    config.remove("cl_fixedcrosshairgap");
    config.insert("sensitivity", "2.5");
    let result = write_sections(&mut config);
    assert_eq!(
        result,
        Err(MissingKey {
            section: "CROSSHAIR".to_string(),
            key: "cl_fixedcrosshairgap".to_string()
        })
    );
    assert_eq!(config.len(), 27);
    assert_eq!(config.get("viewmodel_presetpos"), Some("0".to_string()));
    assert_eq!(config.get("cl_crosshairusealpha"), Some("25".to_string()));
    assert_eq!(config.get("sensitivity"), Some("2.5".to_string()));
}

#[test]
fn empty_config_misses_the_first_key_of_the_catalog() {
    let mut config = ConfigMap::new();
    let result = write_sections(&mut config);
    assert_eq!(
        result,
        Err(MissingKey { section: "VIEWMODEL".to_string(), key: "viewmodel_presetpos".to_string() })
    );
    assert_eq!(config.len(), 0);
}

#[test]
fn missing_key_message_names_key_and_section() {
    let missing = MissingKey { section: "VIEWMODEL".to_string(), key: "viewmodel_fov".to_string() };
    assert_eq!(missing.message(), "missing key \"viewmodel_fov\" in section VIEWMODEL");
}

#[test]
fn emit_renders_all_blocks() {
    let defaults = map_of(&[("sensitivity", "2.0"), ("volume", "0.5"), ("viewmodel_fov", "1")]);
    let mut custom = with_section_keys();
    custom.insert("volume", "0.5");
    custom.insert("sensitivity", "2.5");
    let binds = map_of(&[("bind \"w\"", "+forward"), ("bind \"F1\"", "radar")]);
    let script = emit(&defaults, &mut custom, &binds);
    let expected = format!(
        "{}{}// BINDS\nunbindall\nbind \"F1\" \"radar\"\nbind \"w\" \"+forward\"\n\n// SETTINGS\nsensitivity \"2.5\"\n{}",
        HEADER,
        numbered_sections(),
        FOOTER
    );
    assert_eq!(script, Ok(expected));
    assert_eq!(custom.len(), 2);
    assert!(!custom.contains_key("viewmodel_fov"));
}

#[test]
fn emit_without_a_section_key_fails_and_keeps_the_config() {
    let defaults = ConfigMap::new();
    let mut custom = with_section_keys();
    custom.remove("viewmodel_presetpos");
    let binds = ConfigMap::new();
    let result = emit(&defaults, &mut custom, &binds);
    assert_eq!(
        result,
        Err(MissingKey { section: "VIEWMODEL".to_string(), key: "viewmodel_presetpos".to_string() })
    );
    assert_eq!(custom.len(), 26);
}

#[test]
fn section_keys_are_rendered_even_when_unchanged_and_never_twice() {
    let mut defaults = with_section_keys();
    defaults.insert("viewmodel_fov", "68");
    let mut custom = with_section_keys();
    let script = emit(&defaults, &mut custom, &ConfigMap::new()).unwrap();
    assert!(script.contains("// VIEWMODEL\nviewmodel_presetpos \"0\"\nviewmodel_fov \"1\"\n"));
    assert_eq!(script.matches("viewmodel_fov").count(), 1);
    assert_eq!(script.matches("viewmodel_presetpos").count(), 1);
    assert!(between(&script, "// SETTINGS\n", FOOTER).is_empty());
}

#[test]
fn unbound_binds_are_left_out() {
    let mut custom = with_section_keys();
    let binds = map_of(&[
        ("bind \"a\"", "<unbound>"),
        ("bind \"b\"", "+left"),
        ("bind \"c\"", "<unbound>"),
        ("bind \"d\"", "<unbound> "),
        ("bind \"e\"", "<UNBOUND>"),
        ("bind \"f\"", ""),
    ]);
    let script = emit(&ConfigMap::new(), &mut custom, &binds).unwrap();
    assert_eq!(
        between(&script, "unbindall\n", "\n// SETTINGS\n"),
        vec![
            "bind \"b\" \"+left\"",
            "bind \"d\" \"<unbound> \"",
            "bind \"e\" \"<UNBOUND>\"",
            "bind \"f\" \"\"",
        ]
    );
}

#[test]
fn only_changed_settings_with_a_default_are_emitted() {
    let defaults = map_of(&[("same", "1"), ("changed", "1"), ("emptied", "1"), ("filled", "")]);
    let mut custom = with_section_keys();
    custom.insert("same", "1");
    custom.insert("changed", "2");
    custom.insert("emptied", "");
    custom.insert("filled", "1");
    custom.insert("unknown", "9");
    let script = emit(&defaults, &mut custom, &ConfigMap::new()).unwrap();
    assert_eq!(
        between(&script, "// SETTINGS\n", FOOTER),
        vec!["changed \"2\"", "emptied \"\"", "filled \"1\""]
    );
    assert!(!script.contains("same"));
    assert!(!script.contains("unknown"));
}

#[test]
fn value_comparison_is_exact() {
    let defaults = map_of(&[("a", "1.0"), ("b", "x"), ("c", "y ")]);
    let mut custom = with_section_keys();
    custom.insert("a", "1");
    custom.insert("b", "X");
    custom.insert("c", "y");
    let script = emit(&defaults, &mut custom, &ConfigMap::new()).unwrap();
    assert_eq!(
        between(&script, "// SETTINGS\n", FOOTER),
        vec!["a \"1\"", "b \"X\"", "c \"y\""]
    );
}

#[test]
fn lines_are_sorted_by_the_whole_line() {
    let keys = ["b", "a", "ab", "a_b", "a b", "a\tb", "A", "Z", "_", "a!", "aa", "0", "é", "z", "€", "😀"];
    let mut defaults = ConfigMap::new();
    let mut custom = with_section_keys();
    let mut expected: Vec<String> = Vec::new();
    for key in keys {
        defaults.insert(key, "old");
        custom.insert(key, "new");
        expected.push(format!("{} \"new\"\n", key));
    }
    expected.sort();
    let script = emit(&defaults, &mut custom, &ConfigMap::new()).unwrap();
    let start = script.find("// SETTINGS\n").unwrap() + "// SETTINGS\n".len();
    let end = script.len() - FOOTER.len();
    assert_eq!(&script[start..end], expected.concat());
    assert_eq!(
        expected,
        vec![
            "0 \"new\"\n",
            "A \"new\"\n",
            "Z \"new\"\n",
            "_ \"new\"\n",
            "a\tb \"new\"\n",
            "a \"new\"\n",
            "a b \"new\"\n",
            "a! \"new\"\n",
            "a_b \"new\"\n",
            "aa \"new\"\n",
            "ab \"new\"\n",
            "b \"new\"\n",
            "z \"new\"\n",
            "é \"new\"\n",
            "€ \"new\"\n",
            "😀 \"new\"\n",
        ]
    );
}

#[test]
fn lines_with_one_key_prefix_are_sorted_by_value_position() {
    let binds = map_of(&[
        ("bind \"F10\"", "a"),
        ("bind \"F1\"", "b"),
        ("bind \"F1 \"", "c"),
        ("bind \"F\"", "d"),
        ("bind \"f1\"", "e"),
    ]);
    let mut custom = with_section_keys();
    let script = emit(&ConfigMap::new(), &mut custom, &binds).unwrap();
    let mut expected = vec![
        "bind \"F10\" \"a\"".to_string(),
        "bind \"F1\" \"b\"".to_string(),
        "bind \"F1 \" \"c\"".to_string(),
        "bind \"F\" \"d\"".to_string(),
        "bind \"f1\" \"e\"".to_string(),
    ];
    expected.sort();
    assert_eq!(between(&script, "unbindall\n", "\n// SETTINGS\n"), expected);
    assert_eq!(expected[0], "bind \"F\" \"d\"");
    assert_eq!(expected[1], "bind \"F1 \" \"c\"");
    assert_eq!(expected[2], "bind \"F1\" \"b\"");
    assert_eq!(expected[3], "bind \"F10\" \"a\"");
    assert_eq!(expected[4], "bind \"f1\" \"e\"");
}

#[test]
fn entries_that_render_alike_are_each_emitted() {
    let defaults = map_of(&[("a", ""), ("a \"b\"", "")]);
    let mut custom = with_section_keys();
    custom.insert("a", "b\" \"c");
    custom.insert("a \"b\"", "c");
    let script = emit(&defaults, &mut custom, &ConfigMap::new()).unwrap();
    assert_eq!(
        between(&script, "// SETTINGS\n", FOOTER),
        vec!["a \"b\" \"c\"", "a \"b\" \"c\""]
    );
}

#[test]
fn values_are_quoted_as_they_are() {
    let defaults = map_of(&[("name", "")]);
    let mut custom = with_section_keys();
    custom.insert("name", "a\\b // c; d $e");
    let script = emit(&defaults, &mut custom, &ConfigMap::new()).unwrap();
    assert_eq!(between(&script, "// SETTINGS\n", FOOTER), vec!["name \"a\\b // c; d $e\""]);
}
