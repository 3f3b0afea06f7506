//! What the two sorted blocks hold: the binds that are not cleared, and the
//! settings that differ from the baseline; and that both are in order.

use vstd::prelude::*;
use crate::emit::{
    bind_lines, bound, catalog, changed, map_lines, remaining, render_line, section_keys,
    setting_lines, unbound,
};
use crate::laws::lines::{
    lemma_render_line_injective, lemma_render_line_same_value, lemma_sorted_lines_contains,
};
use crate::laws::parsing::{lemma_with_text_plain, plain_keys, plain_values, quote_free};
use crate::order::{is_ascending, lemma_ascending};
use crate::parse::with_text;
use crate::reconcile::{binds_of, custom_settings, ignored_keys, settings_of};

verus! {

/// What is left of a finite map when keys leave it is finite.
pub proof fn lemma_part_is_finite(m: Map<Seq<char>, Seq<char>>, part: Map<Seq<char>, Seq<char>>)
    requires
        m.dom().finite(),
        part.dom().subset_of(m.dom()),
    ensures
        part.dom().finite(),
{
    vstd::set_lib::lemma_len_subset(part.dom(), m.dom());
}

/// The settings and binds of a run are finite and their values hold no
/// double quote; the keys of the settings hold none either.
pub proof fn lemma_run_is_plain(machine: Seq<char>, user: Seq<char>)
    ensures
        plain_values(settings_of(machine, user)),
        plain_keys(settings_of(machine, user)),
        plain_values(custom_settings(machine, user)),
        plain_keys(custom_settings(machine, user)),
        plain_values(binds_of(machine, user)),
{
    let empty = Map::<Seq<char>, Seq<char>>::empty();
    lemma_with_text_plain(empty, false, machine);
    lemma_with_text_plain(with_text(empty, false, machine), false, user);
    lemma_with_text_plain(empty, true, machine);
    lemma_with_text_plain(with_text(empty, true, machine), true, user);
    lemma_part_is_finite(settings_of(machine, user), custom_settings(machine, user));
}

/// Both sorted blocks are in ascending order of their lines.
pub proof fn lemma_blocks_ascending(
    defaults: Map<Seq<char>, Seq<char>>,
    custom: Map<Seq<char>, Seq<char>>,
    binds: Map<Seq<char>, Seq<char>>,
)
    ensures
        is_ascending(bind_lines(binds)),
        is_ascending(setting_lines(defaults, custom)),
{
    lemma_ascending(map_lines(bound(binds)));
    lemma_ascending(map_lines(changed(remaining(custom), defaults)));
}

/// The bind block holds exactly the binds that are not cleared: a line is in
/// it if and only if it sets a key of the binds to its value, and that value
/// is not `<unbound>`.
pub proof fn lemma_bind_lines(binds: Map<Seq<char>, Seq<char>>, line: Seq<char>)
    requires
        binds.dom().finite(),
    ensures
        bind_lines(binds).contains(line) <==> exists|key: Seq<char>| #[trigger]
            binds.contains_key(key) && binds[key] != unbound() && line == render_line(
                key,
                binds[key],
            ),
{
    let kept = bound(binds);
    lemma_part_is_finite(binds, kept);
    lemma_sorted_lines_contains(kept, line);
    if bind_lines(binds).contains(line) {
        let key = choose|key: Seq<char>| kept.contains_key(key) && line == render_line(key, kept[key]);
        assert(binds.contains_key(key) && binds[key] != unbound() && line == render_line(
            key,
            binds[key],
        ));
    }
    if exists|key: Seq<char>| #[trigger]
        binds.contains_key(key) && binds[key] != unbound() && line == render_line(key, binds[key]) {
        let key = choose|key: Seq<char>| #[trigger]
            binds.contains_key(key) && binds[key] != unbound() && line == render_line(
                key,
                binds[key],
            );
        assert(kept.contains_key(key) && line == render_line(key, kept[key]));
    }
}

/// A cleared bind is never emitted: whatever the key, the line that binds it
/// to `<unbound>` is not in the bind block.
pub proof fn lemma_unbound_not_emitted(base_binds: Seq<char>, custom_binds: Seq<char>, key: Seq<char>)
    ensures
        !bind_lines(binds_of(base_binds, custom_binds)).contains(render_line(key, unbound())),
{
    let binds = binds_of(base_binds, custom_binds);
    let line = render_line(key, unbound());
    lemma_run_is_plain(base_binds, custom_binds);
    lemma_bind_lines(binds, line);
    if bind_lines(binds).contains(line) {
        let k = choose|k: Seq<char>| #[trigger]
            binds.contains_key(k) && binds[k] != unbound() && line == render_line(k, binds[k]);
        assert(quote_free(unbound())) by {
            reveal_strlit("<unbound>");
        }
        lemma_render_line_same_value(k, binds[k], key, unbound());
    }
}

/// The settings block holds exactly the changed settings: a line is in it if
/// and only if it sets a key to its supplied value, where the key is not in
/// a section and the baseline holds another value for it.
pub proof fn lemma_setting_lines(
    defaults: Map<Seq<char>, Seq<char>>,
    custom: Map<Seq<char>, Seq<char>>,
    line: Seq<char>,
)
    requires
        custom.dom().finite(),
    ensures
        setting_lines(defaults, custom).contains(line) <==> exists|key: Seq<char>| #[trigger]
            custom.contains_key(key) && !section_keys(catalog()).contains(key)
                && defaults.contains_key(key) && defaults[key] != custom[key] && line
                == render_line(key, custom[key]),
{
    let kept = changed(remaining(custom), defaults);
    lemma_part_is_finite(custom, kept);
    lemma_sorted_lines_contains(kept, line);
    if setting_lines(defaults, custom).contains(line) {
        let key = choose|key: Seq<char>| kept.contains_key(key) && line == render_line(key, kept[key]);
        assert(custom.contains_key(key) && !section_keys(catalog()).contains(key)
            && defaults.contains_key(key) && defaults[key] != custom[key] && line == render_line(
            key,
            custom[key],
        ));
    }
    if exists|key: Seq<char>| #[trigger]
        custom.contains_key(key) && !section_keys(catalog()).contains(key) && defaults.contains_key(
            key,
        ) && defaults[key] != custom[key] && line == render_line(key, custom[key]) {
        let key = choose|key: Seq<char>| #[trigger]
            custom.contains_key(key) && !section_keys(catalog()).contains(key)
                && defaults.contains_key(key) && defaults[key] != custom[key] && line
                == render_line(key, custom[key]);
        assert(kept.contains_key(key) && line == render_line(key, kept[key]));
    }
}

/// Whatever line of the settings block sets `key`, `key` is a supplied
/// setting outside the sections whose value differs from the baseline's.
pub proof fn lemma_setting_line_key(
    base_machine: Seq<char>,
    base_user: Seq<char>,
    machine: Seq<char>,
    user: Seq<char>,
    key: Seq<char>,
    value: Seq<char>,
)
    requires
        setting_lines(settings_of(base_machine, base_user), custom_settings(machine, user)).contains(
            render_line(key, value),
        ),
    ensures
        custom_settings(machine, user).contains_key(key),
        custom_settings(machine, user)[key] == value,
        !section_keys(catalog()).contains(key),
        settings_of(base_machine, base_user).contains_key(key),
        settings_of(base_machine, base_user)[key] != value,
{
    let defaults = settings_of(base_machine, base_user);
    let custom = custom_settings(machine, user);
    let line = render_line(key, value);
    lemma_run_is_plain(machine, user);
    lemma_setting_lines(defaults, custom, line);
    let k = choose|k: Seq<char>| #[trigger]
        custom.contains_key(k) && !section_keys(catalog()).contains(k) && defaults.contains_key(k)
            && defaults[k] != custom[k] && line == render_line(k, custom[k]);
    lemma_render_line_injective(k, custom[k], key, value);
}

/// An ignored key is never a setting of a run, so no line of the settings
/// block sets it, whatever the value.
pub proof fn lemma_ignored_not_emitted(
    base_machine: Seq<char>,
    base_user: Seq<char>,
    machine: Seq<char>,
    user: Seq<char>,
    key: Seq<char>,
    value: Seq<char>,
)
    requires
        ignored_keys().contains(key),
    ensures
        !custom_settings(machine, user).contains_key(key),
        !setting_lines(settings_of(base_machine, base_user), custom_settings(machine, user)).contains(
            render_line(key, value),
        ),
{
    assert(ignored_keys().to_set().contains(key));
    if setting_lines(settings_of(base_machine, base_user), custom_settings(machine, user)).contains(
        render_line(key, value),
    ) {
        lemma_setting_line_key(base_machine, base_user, machine, user, key, value);
    }
}

/// A supplied setting whose value is the baseline's is not emitted: no line
/// of the settings block sets its key, whatever the value.
pub proof fn lemma_unchanged_not_emitted(
    base_machine: Seq<char>,
    base_user: Seq<char>,
    machine: Seq<char>,
    user: Seq<char>,
    key: Seq<char>,
    value: Seq<char>,
)
    requires
        custom_settings(machine, user).contains_key(key),
        settings_of(base_machine, base_user).contains_key(key),
        custom_settings(machine, user)[key] == settings_of(base_machine, base_user)[key],
    ensures
        !setting_lines(settings_of(base_machine, base_user), custom_settings(machine, user)).contains(
            render_line(key, value),
        ),
{
    if setting_lines(settings_of(base_machine, base_user), custom_settings(machine, user)).contains(
        render_line(key, value),
    ) {
        lemma_setting_line_key(base_machine, base_user, machine, user, key, value);
    }
}

/// A supplied setting that the baseline does not know is not emitted either.
pub proof fn lemma_unknown_not_emitted(
    base_machine: Seq<char>,
    base_user: Seq<char>,
    machine: Seq<char>,
    user: Seq<char>,
    key: Seq<char>,
    value: Seq<char>,
)
    requires
        !settings_of(base_machine, base_user).contains_key(key),
    ensures
        !setting_lines(settings_of(base_machine, base_user), custom_settings(machine, user)).contains(
            render_line(key, value),
        ),
{
    if setting_lines(settings_of(base_machine, base_user), custom_settings(machine, user)).contains(
        render_line(key, value),
    ) {
        lemma_setting_line_key(base_machine, base_user, machine, user, key, value);
    }
}

/// How every key of a section begins: with `vi`, or with `cl_c` or `cl_f`.
pub open spec fn section_like(key: Seq<char>) -> bool {
    key.len() >= 4 && ((key[0] == 'v' && key[1] == 'i') || (key[0] == 'c' && key[1] == 'l' && key[2]
        == '_' && (key[3] == 'c' || key[3] == 'f')))
}

/// Every key of a section begins in one of these ways.
pub proof fn lemma_section_keys_are_section_like(key: Seq<char>)
    requires
        section_keys(catalog()).contains(key),
    ensures
        section_like(key),
{
    reveal_with_fuel(section_keys, 3);
    reveal_strlit("viewmodel_presetpos");
    assert(section_like("viewmodel_presetpos"@));
    reveal_strlit("viewmodel_fov");
    assert(section_like("viewmodel_fov"@));
    reveal_strlit("viewmodel_offset_x");
    assert(section_like("viewmodel_offset_x"@));
    reveal_strlit("viewmodel_offset_y");
    assert(section_like("viewmodel_offset_y"@));
    reveal_strlit("viewmodel_offset_z");
    assert(section_like("viewmodel_offset_z"@));
    reveal_strlit("cl_crosshair_drawoutline");
    assert(section_like("cl_crosshair_drawoutline"@));
    reveal_strlit("cl_crosshair_dynamic_maxdist_splitratio");
    assert(section_like("cl_crosshair_dynamic_maxdist_splitratio"@));
    reveal_strlit("cl_crosshair_dynamic_splitalpha_innermod");
    assert(section_like("cl_crosshair_dynamic_splitalpha_innermod"@));
    reveal_strlit("cl_crosshair_dynamic_splitalpha_outermod");
    assert(section_like("cl_crosshair_dynamic_splitalpha_outermod"@));
    reveal_strlit("cl_crosshair_dynamic_splitdist");
    assert(section_like("cl_crosshair_dynamic_splitdist"@));
    reveal_strlit("cl_crosshair_outlinethickness");
    assert(section_like("cl_crosshair_outlinethickness"@));
    reveal_strlit("cl_crosshair_recoil");
    assert(section_like("cl_crosshair_recoil"@));
    reveal_strlit("cl_crosshair_sniper_width");
    assert(section_like("cl_crosshair_sniper_width"@));
    reveal_strlit("cl_crosshair_t");
    assert(section_like("cl_crosshair_t"@));
    reveal_strlit("cl_crosshairalpha");
    assert(section_like("cl_crosshairalpha"@));
    reveal_strlit("cl_crosshaircolor");
    assert(section_like("cl_crosshaircolor"@));
    reveal_strlit("cl_crosshaircolor_b");
    assert(section_like("cl_crosshaircolor_b"@));
    reveal_strlit("cl_crosshaircolor_g");
    assert(section_like("cl_crosshaircolor_g"@));
    reveal_strlit("cl_crosshaircolor_r");
    assert(section_like("cl_crosshaircolor_r"@));
    reveal_strlit("cl_crosshairdot");
    assert(section_like("cl_crosshairdot"@));
    reveal_strlit("cl_crosshairgap");
    assert(section_like("cl_crosshairgap"@));
    reveal_strlit("cl_crosshairgap_useweaponvalue");
    assert(section_like("cl_crosshairgap_useweaponvalue"@));
    reveal_strlit("cl_crosshairsize");
    assert(section_like("cl_crosshairsize"@));
    reveal_strlit("cl_crosshairstyle");
    assert(section_like("cl_crosshairstyle"@));
    reveal_strlit("cl_crosshairthickness");
    assert(section_like("cl_crosshairthickness"@));
    reveal_strlit("cl_crosshairusealpha");
    assert(section_like("cl_crosshairusealpha"@));
    reveal_strlit("cl_fixedcrosshairgap");
    assert(section_like("cl_fixedcrosshairgap"@));
    let viewmodel = catalog()[0].keys;
    let crosshair = catalog()[1].keys;
    assert(catalog().drop_last().last().keys == viewmodel);
    assert(catalog().last().keys == crosshair);
    assert(viewmodel.to_set().contains(key) || crosshair.to_set().contains(key));
    if viewmodel.contains(key) {
        let i = choose|i: int| 0 <= i < viewmodel.len() && viewmodel[i] == key;
        assert(section_like(viewmodel[i]));
    } else {
        let i = choose|i: int| 0 <= i < crosshair.len() && crosshair[i] == key;
        assert(section_like(crosshair[i]));
    }
}

/// How every ignored key begins: not as the keys of the sections do, nor as
/// a comment, an `echo`, a `bind` or an `unbindall`.
pub open spec fn ignored_like(key: Seq<char>) -> bool {
    key.len() >= 4 && !section_like(key) && key[0] != '/' && key[0] != 'e' && key[0] != 'b' && !(
    key[0] == 'u' && key[1] == 'n')
}

/// Every ignored key begins in none of these ways.
pub proof fn lemma_ignored_keys_are_ignored_like(key: Seq<char>)
    requires
        ignored_keys().contains(key),
    ensures
        ignored_like(key),
{
    reveal_strlit("cachedvalue_count_partybrowser");
    assert(ignored_like("cachedvalue_count_partybrowser"@));
    reveal_strlit("cachedvalue_count_teammates");
    assert(ignored_like("cachedvalue_count_teammates"@));
    reveal_strlit("cl_embedded_stream_audio_volume");
    assert(ignored_like("cl_embedded_stream_audio_volume"@));
    reveal_strlit("cl_promoted_settings_acknowledged");
    assert(ignored_like("cl_promoted_settings_acknowledged"@));
    reveal_strlit("cl_redemption_reset_timestamp");
    assert(ignored_like("cl_redemption_reset_timestamp"@));
    reveal_strlit("con_enable");
    assert(ignored_like("con_enable"@));
    reveal_strlit("csgo_map_preview_scale");
    assert(ignored_like("csgo_map_preview_scale"@));
    reveal_strlit("lobby_default_privacy_bits2");
    assert(ignored_like("lobby_default_privacy_bits2"@));
    reveal_strlit("panorama_console_position_and_size");
    assert(ignored_like("panorama_console_position_and_size"@));
    reveal_strlit("player_nevershow_communityservermessage");
    assert(ignored_like("player_nevershow_communityservermessage"@));
    reveal_strlit("player_teamplayedlast");
    assert(ignored_like("player_teamplayedlast"@));
    reveal_strlit("r_show_build_info");
    assert(ignored_like("r_show_build_info"@));
    reveal_strlit("sv_specspeed");
    assert(ignored_like("sv_specspeed"@));
    reveal_strlit("ui_news_last_read_link");
    assert(ignored_like("ui_news_last_read_link"@));
    reveal_strlit("ui_playsettings_maps_listen_competitive");
    assert(ignored_like("ui_playsettings_maps_listen_competitive"@));
    reveal_strlit("ui_playsettings_maps_listen_deathmatch");
    assert(ignored_like("ui_playsettings_maps_listen_deathmatch"@));
    reveal_strlit("ui_playsettings_maps_official_gungameprogressive");
    assert(ignored_like("ui_playsettings_maps_official_gungameprogressive"@));
    reveal_strlit("ui_playsettings_mode_official_v20");
    assert(ignored_like("ui_playsettings_mode_official_v20"@));
    reveal_strlit("voice_threshold");
    assert(ignored_like("voice_threshold"@));
    let i = choose|i: int| 0 <= i < ignored_keys().len() && ignored_keys()[i] == key;
    assert(ignored_like(ignored_keys()[i]));
}

/// No key of a section is an ignored key: what the sections render is never
/// a setting that was filtered out.
pub proof fn lemma_sections_not_ignored(key: Seq<char>)
    requires
        section_keys(catalog()).contains(key),
    ensures
        !ignored_keys().contains(key),
{
    lemma_section_keys_are_section_like(key);
    if ignored_keys().contains(key) {
        lemma_ignored_keys_are_ignored_like(key);
    }
}

} // verus!
