use cs2_autoexec::{add_to_config, ConfigMap};

fn parsed(binds: bool, first: &str, second: &str) -> ConfigMap {
    let mut map = ConfigMap::new();
    add_to_config(&mut map, binds, first, second);
    map
}

fn value(map: &ConfigMap, key: &str) -> Option<String> {
    map.get(key)
}

#[test]
fn line_with_four_quotes_sets_key_and_value() {
    let map = parsed(false, "\"sensitivity\" \"2.5\"", "");
    assert_eq!(map.len(), 1);
    assert_eq!(value(&map, "sensitivity"), Some("2.5".to_string()));
}

#[test]
fn lines_with_fewer_than_four_quotes_add_nothing() {
    let text = "no quotes at all\n\"one\n\"two\" quotes\n\"three\" \"quotes\n\n{\n}\n";
    let map = parsed(false, text, "\"also\" \"short");
    assert_eq!(map.len(), 0);
    assert!(!map.contains_key("one"));
    assert!(!map.contains_key("two"));
    assert!(!map.contains_key("three"));
}

#[test]
fn short_line_between_good_lines_is_skipped() {
    let map = parsed(false, "\"a\" \"1\"\n\"b\" \"2\n\"c\" \"3\"\n", "");
    assert_eq!(map.len(), 2);
    assert_eq!(value(&map, "a"), Some("1".to_string()));
    assert_eq!(value(&map, "b"), None);
    assert_eq!(value(&map, "c"), Some("3".to_string()));
}

#[test]
fn quotes_are_not_paired_across_lines() {
    let map = parsed(false, "\"a\" \"1\n\" \"b\" \"2\"", "");
    assert_eq!(map.len(), 1);
    assert_eq!(value(&map, " "), Some(" ".to_string()));
}

#[test]
fn only_the_first_four_quotes_count() {
    let map = parsed(false, "x \"key\" y \"value\" \"more\" \"and more\" \"", "");
    assert_eq!(map.len(), 1);
    assert_eq!(value(&map, "key"), Some("value".to_string()));
}

#[test]
fn text_around_the_quotes_is_ignored() {
    let map = parsed(false, "\t\tset \"cl_hud_color\"\t=\t\"3\" // trailing", "");
    assert_eq!(value(&map, "cl_hud_color"), Some("3".to_string()));
}

#[test]
fn key_is_cut_at_the_first_dollar() {
    let map = parsed(false, "\"foo$bar$baz\" \"1\"", "");
    assert_eq!(map.len(), 1);
    assert_eq!(value(&map, "foo"), Some("1".to_string()));
    assert_eq!(value(&map, "foo$bar"), None);
    assert_eq!(value(&map, "foo$bar$baz"), None);
}

#[test]
fn suffixed_and_plain_key_are_one_key_and_the_later_line_wins() {
    let map = parsed(false, "\"foo$bar\" \"1\"\n\"foo\" \"2\"\n", "");
    assert_eq!(map.len(), 1);
    assert_eq!(value(&map, "foo"), Some("2".to_string()));

    let map = parsed(false, "\"foo\" \"2\"\n\"foo$bar\" \"1\"\n", "");
    assert_eq!(map.len(), 1);
    assert_eq!(value(&map, "foo"), Some("1".to_string()));
}

#[test]
fn dollar_in_a_value_stays() {
    let map = parsed(false, "\"price\" \"5$ or $6\"", "");
    assert_eq!(value(&map, "price"), Some("5$ or $6".to_string()));
}

#[test]
fn empty_key_and_empty_value_are_stored() {
    let map = parsed(false, "\"\" \"\"\n\"$all\" \"x\"\n\"k\" \"\"", "");
    assert_eq!(map.len(), 2);
    assert_eq!(value(&map, ""), Some("x".to_string()));
    assert_eq!(value(&map, "k"), Some(String::new()));
}

#[test]
fn later_line_overwrites_earlier_line() {
    let map = parsed(false, "\"a\" \"1\"\n\"b\" \"2\"\n\"a\" \"3\"", "");
    assert_eq!(map.len(), 2);
    assert_eq!(value(&map, "a"), Some("3".to_string()));
    assert_eq!(value(&map, "b"), Some("2".to_string()));
}

#[test]
fn second_text_overwrites_first_text() {
    let map = parsed(false, "\"a\" \"1\"\n\"b\" \"2\"", "\"b\" \"20\"\n\"c\" \"30\"");
    assert_eq!(map.len(), 3);
    assert_eq!(value(&map, "a"), Some("1".to_string()));
    assert_eq!(value(&map, "b"), Some("20".to_string()));
    assert_eq!(value(&map, "c"), Some("30".to_string()));
}

#[test]
fn the_end_of_the_first_text_ends_a_line() {
    let map = parsed(false, "\"a\" \"1", "\" \"b\" \"2\"");
    assert_eq!(map.len(), 1);
    assert_eq!(value(&map, " "), Some(" ".to_string()));
}

#[test]
fn existing_entries_stay_unless_overwritten() {
    let mut map = ConfigMap::new();
    map.insert("kept", "old");
    map.insert("set", "old");
    add_to_config(&mut map, false, "\"set\" \"new\"", "");
    assert_eq!(map.len(), 2);
    assert_eq!(value(&map, "kept"), Some("old".to_string()));
    assert_eq!(value(&map, "set"), Some("new".to_string()));
}

#[test]
fn bind_mode_wraps_the_key() {
    let map = parsed(true, "\t\"F1\"\t\"radar\"\n", "");
    assert_eq!(map.len(), 1);
    assert_eq!(value(&map, "bind \"F1\""), Some("radar".to_string()));
    assert_eq!(value(&map, "F1"), None);
}

#[test]
fn bind_mode_cuts_the_key_before_wrapping() {
    let map = parsed(true, "\"mouse1$slot0\" \"+attack\"", "");
    assert_eq!(value(&map, "bind \"mouse1\""), Some("+attack".to_string()));
}

#[test]
fn bind_line_with_the_word_bind_uses_the_first_four_quotes() {
    let map = parsed(true, "bind \"F1\" \"jump\"", "bind \"F1\" \"radar\"");
    assert_eq!(map.len(), 1);
    assert_eq!(value(&map, "bind \"F1\""), Some("radar".to_string()));
}

#[test]
fn carriage_return_does_not_end_a_line() {
    let map = parsed(false, "\"a\" \"1\"\r\n\"b\" \"2\"\r\"c\" \"3\"", "");
    assert_eq!(map.len(), 2);
    assert_eq!(value(&map, "a"), Some("1".to_string()));
    assert_eq!(value(&map, "b"), Some("2".to_string()));
    assert_eq!(value(&map, "c"), None);
}

#[test]
fn characters_beyond_ascii_are_kept() {
    let map = parsed(false, "«\"schlüssel$x\" → \"wért ✓\"»", "");
    assert_eq!(map.len(), 1);
    assert_eq!(value(&map, "schlüssel"), Some("wért ✓".to_string()));
}

#[test]
fn map_insert_get_remove() {
    let mut map = ConfigMap::new();
    assert_eq!(map.len(), 0);
    map.insert("a", "1");
    map.insert("b", "2");
    map.insert("a", "3");
    assert_eq!(map.len(), 2);
    assert_eq!(map.get("a"), Some("3".to_string()));
    assert!(map.contains_key("b"));
    map.remove("a");
    map.remove("missing");
    assert_eq!(map.len(), 1);
    assert_eq!(map.get("a"), None);
    assert_eq!(map.get("b"), Some("2".to_string()));
}
