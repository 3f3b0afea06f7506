//! The reconciler: from the text dumps to the three maps that the emitter
//! renders.
//!
//! The baseline settings become `default_config`, the supplied settings become
//! `custom_config` with the ignored keys taken out, and the baseline binds
//! overwritten by the supplied binds become `binds`.

use vstd::prelude::*;
use crate::config_map::ConfigMap;
use crate::parse::{add_to_config, with_text};
use crate::text::chars_of;

verus! {

/// The baseline that a run is compared with: the settings and binds that the
/// game ships.
pub struct Baseline {
    pub machine_convars: String,
    pub user_convars: String,
    pub binds: String,
}

/// The three maps of one run.
pub struct Reconciled {
    pub default_config: ConfigMap,
    pub custom_config: ConfigMap,
    pub binds: ConfigMap,
}

/// The texts of a list of string slices.
pub open spec fn strs(list: Seq<&'static str>) -> Seq<Seq<char>> {
    Seq::new(list.len(), |i: int| list[i]@)
}

/// The keys that never reach the output: interface and session state, not
/// settings of the game.
pub open spec fn ignored_keys() -> Seq<Seq<char>> {
    seq![
        "cachedvalue_count_partybrowser"@,
        "cachedvalue_count_teammates"@,
        "cl_embedded_stream_audio_volume"@,
        "cl_promoted_settings_acknowledged"@,
        "cl_redemption_reset_timestamp"@,
        "con_enable"@,
        "csgo_map_preview_scale"@,
        "lobby_default_privacy_bits2"@,
        "panorama_console_position_and_size"@,
        "player_nevershow_communityservermessage"@,
        "player_teamplayedlast"@,
        "r_show_build_info"@,
        "sv_specspeed"@,
        "ui_news_last_read_link"@,
        "ui_playsettings_maps_listen_competitive"@,
        "ui_playsettings_maps_listen_deathmatch"@,
        "ui_playsettings_maps_official_gungameprogressive"@,
        "ui_playsettings_mode_official_v20"@,
        "voice_threshold"@,
    ]
}

/// `m` without the ignored keys.
pub open spec fn without_ignored(m: Map<Seq<char>, Seq<char>>) -> Map<Seq<char>, Seq<char>> {
    m.remove_keys(ignored_keys().to_set())
}

/// The settings parsed from a machine dump and then a user dump.
pub open spec fn settings_of(machine: Seq<char>, user: Seq<char>) -> Map<Seq<char>, Seq<char>> {
    with_text(with_text(Map::empty(), false, machine), false, user)
}

/// The settings of a run: those supplied, without the ignored keys.
pub open spec fn custom_settings(machine: Seq<char>, user: Seq<char>) -> Map<Seq<char>, Seq<char>> {
    without_ignored(settings_of(machine, user))
}

/// The binds of a run: the baseline's, overwritten by those supplied.
pub open spec fn binds_of(baseline: Seq<char>, custom: Seq<char>) -> Map<Seq<char>, Seq<char>> {
    with_text(with_text(Map::empty(), true, baseline), true, custom)
}

/// The keys that are taken out of the supplied settings.
pub fn ignored_commands() -> (list: Vec<&'static str>)
    ensures
        strs(list@) == ignored_keys(),
{
    let list = vec![
        "cachedvalue_count_partybrowser",
        "cachedvalue_count_teammates",
        "cl_embedded_stream_audio_volume",
        "cl_promoted_settings_acknowledged",
        "cl_redemption_reset_timestamp",
        "con_enable",
        "csgo_map_preview_scale",
        "lobby_default_privacy_bits2",
        "panorama_console_position_and_size",
        "player_nevershow_communityservermessage",
        "player_teamplayedlast",
        "r_show_build_info",
        "sv_specspeed",
        "ui_news_last_read_link",
        "ui_playsettings_maps_listen_competitive",
        "ui_playsettings_maps_listen_deathmatch",
        "ui_playsettings_maps_official_gungameprogressive",
        "ui_playsettings_mode_official_v20",
        "voice_threshold",
    ];
    assert(strs(list@) =~= ignored_keys());
    list
}

/// Takes every key of `keys` out of `config`.
pub(crate) fn remove_all(config: &mut ConfigMap, keys: &Vec<&'static str>)
    ensures
        final(config)@ == old(config)@.remove_keys(strs(keys@).to_set()),
{
    let ghost all = strs(keys@);
    let mut i: usize = 0;
    assert(config@ =~= old(config)@.remove_keys(all.take(0).to_set()));
    while i < keys.len()
        invariant
            i <= keys.len(),
            all == strs(keys@),
            config@ == old(config)@.remove_keys(all.take(i as int).to_set()),
        decreases keys.len() - i,
    {
        let key = chars_of(keys[i]);
        config.remove_text(&key);
        proof {
            let before = all.take(i as int);
            let after = all.take(i + 1);
            assert(after == before.push(all[i as int]));
            assert forall|k: Seq<char>| after.to_set().contains(k) <==> (before.to_set().contains(k)
                || k == all[i as int]) by {
                if before.contains(k) {
                    let j = choose|j: int| 0 <= j < before.len() && before[j] == k;
                    assert(after[j] == k);
                }
                if k == all[i as int] {
                    assert(after[i as int] == k);
                }
            }
            assert(config@ =~= old(config)@.remove_keys(after.to_set()));
        }
        i += 1;
    }
    assert(all.take(keys.len() as int) == all);
}

/// Takes the ignored keys out of `config`.
pub fn filter_config(config: &mut ConfigMap)
    ensures
        final(config)@ == without_ignored(old(config)@),
{
    let ignored = ignored_commands();
    remove_all(config, &ignored);
}

/// Parses the baseline and the three supplied texts into the maps of a run.
pub fn reconcile(
    baseline: &Baseline,
    custom_machine_convars: &str,
    custom_user_convars: &str,
    custom_binds: &str,
) -> (maps: Reconciled)
    ensures
        maps.default_config@ == settings_of(baseline.machine_convars@, baseline.user_convars@),
        maps.custom_config@ == custom_settings(custom_machine_convars@, custom_user_convars@),
        maps.binds@ == binds_of(baseline.binds@, custom_binds@),
{
    let mut default_config = ConfigMap::new();
    add_to_config(
        &mut default_config,
        false,
        baseline.machine_convars.as_str(),
        baseline.user_convars.as_str(),
    );
    let mut custom_config = ConfigMap::new();
    add_to_config(&mut custom_config, false, custom_machine_convars, custom_user_convars);
    filter_config(&mut custom_config);
    let mut binds = ConfigMap::new();
    add_to_config(&mut binds, true, baseline.binds.as_str(), custom_binds);
    Reconciled { default_config, custom_config, binds }
}

} // verus!
