//! The lines of the script are lines indeed: each but the last ends with the
//! only newline it holds, so that splitting the script at its newlines gives
//! them back.

use vstd::prelude::*;
use crate::emit::{
    bind_lines, catalog, closing_line, first_absent, first_missing, render_line, section_keys, unbound,
    SectionView,
};
use crate::laws::blocks::{lemma_bind_lines, lemma_run_is_plain, lemma_setting_lines};
use crate::laws::lines::lemma_render_line_at;
use crate::laws::script::{
    is_fixed_line, is_section_key_line, is_title_line, lemma_script_line_kinds,
};
use crate::parse::{bind_key, lines_of, parse_line, stored_key, strip_key, with_lines};
use crate::reconcile::{binds_of, custom_settings, settings_of};
use crate::text::{find, lemma_find, lemma_find_is};
use crate::{config_lines, config_script};

verus! {

/// Whether `s` holds no newline.
pub open spec fn newline_free(s: Seq<char>) -> bool {
    forall|i: int| 0 <= i < s.len() ==> s[i] != '\n'
}

/// Whether `line` is one line with the newline that ends it.
pub open spec fn is_one_line(line: Seq<char>) -> bool {
    line.len() > 0 && line.last() == '\n' && newline_free(line.drop_last())
}

/// Each of `lines` without its last character.
pub open spec fn bare(lines: Seq<Seq<char>>) -> Seq<Seq<char>> {
    Seq::new(lines.len(), |i: int| lines[i].drop_last())
}

/// A text of whole lines and a rest without a newline is split into those
/// lines and that rest.
pub proof fn lemma_lines_of_whole_lines(lines: Seq<Seq<char>>, rest: Seq<char>)
    requires
        forall|i: int| 0 <= i < lines.len() ==> is_one_line(#[trigger] lines[i]),
        newline_free(rest),
    ensures
        lines_of(lines.flatten() + rest) == bare(lines) + seq![rest],
    decreases lines.len(),
{
    let text = lines.flatten() + rest;
    if lines.len() == 0 {
        assert(text == rest);
        lemma_find_is(rest, '\n', 0, rest.len() as int);
        assert(bare(lines) + seq![rest] == seq![rest]);
    } else {
        let first = lines.first();
        let others = lines.drop_first();
        let end = first.len() - 1;
        assert(is_one_line(lines[0]));
        assert(text == first + (others.flatten() + rest));
        assert forall|i: int| 0 <= i < end implies text[i] != '\n' by {
            assert(text[i] == first.drop_last()[i]);
        }
        assert(text[end] == first.last());
        lemma_find_is(text, '\n', 0, end);
        assert(text.take(end) == first.drop_last());
        assert(text.skip(end + 1) == others.flatten() + rest);
        assert forall|i: int| 0 <= i < others.len() implies is_one_line(#[trigger] others[i]) by {
            assert(others[i] == lines[i + 1]);
        }
        lemma_lines_of_whole_lines(others, rest);
        assert(bare(lines) + seq![rest] == seq![first.drop_last()] + (bare(others) + seq![rest]));
    }
}

/// No piece that a text is split into holds a newline.
pub proof fn lemma_lines_of_newline_free(text: Seq<char>, i: int)
    requires
        0 <= i < lines_of(text).len(),
    ensures
        newline_free(lines_of(text)[i]),
    decreases text.len(),
{
    lemma_find(text, '\n', 0);
    let end = find(text, '\n', 0);
    if end < text.len() && i > 0 {
        lemma_lines_of_newline_free(text.skip(end + 1), i - 1);
    }
}

/// The key and the value of a line without a newline hold none.
pub proof fn lemma_parse_line_newline_free(line: Seq<char>)
    requires
        newline_free(line),
    ensures
        parse_line(line) matches Some((key, value)) ==> newline_free(key) && newline_free(value),
{
    lemma_find(line, '"', 0);
    let q1 = find(line, '"', 0);
    lemma_find(line, '"', q1 + 1);
    let q2 = find(line, '"', q1 + 1);
    lemma_find(line, '"', q2 + 1);
    let q3 = find(line, '"', q2 + 1);
    lemma_find(line, '"', q3 + 1);
    let q4 = find(line, '"', q3 + 1);
    if q4 < line.len() {
        let raw = line.subrange(q1 + 1, q2);
        lemma_find(raw, '$', 0);
        let key = strip_key(raw);
        assert forall|i: int| 0 <= i < key.len() implies key[i] != '\n' by {
            assert(key[i] == line[q1 + 1 + i]);
        }
        let value = line.subrange(q3 + 1, q4);
        assert forall|i: int| 0 <= i < value.len() implies value[i] != '\n' by {
            assert(value[i] == line[q3 + 1 + i]);
        }
    }
}

/// The stored key of a key without a newline holds none.
pub proof fn lemma_stored_key_newline_free(binds: bool, key: Seq<char>)
    requires
        newline_free(key),
    ensures
        newline_free(stored_key(binds, key)),
{
    reveal_strlit("bind \"");
    reveal_strlit("\"");
    let open = "bind \""@;
    let close = "\""@;
    assert(newline_free(open));
    assert(newline_free(close));
    if binds {
        let stored = bind_key(key);
        assert forall|i: int| 0 <= i < stored.len() implies stored[i] != '\n' by {
            if i < 6 {
                assert(stored[i] == open[i]);
            } else if i < 6 + key.len() {
                assert(stored[i] == key[i - 6]);
            } else {
                assert(stored[i] == close[i - 6 - key.len()]);
            }
        }
    }
}

/// Whether no key and no value of `m` holds a newline.
pub open spec fn on_one_line(m: Map<Seq<char>, Seq<char>>) -> bool {
    forall|key: Seq<char>| #[trigger]
        m.contains_key(key) ==> newline_free(key) && newline_free(m[key])
}

/// Reading lines without newlines keeps keys and values without newlines.
pub proof fn lemma_with_lines_on_one_line(
    m: Map<Seq<char>, Seq<char>>,
    binds: bool,
    lines: Seq<Seq<char>>,
)
    requires
        on_one_line(m),
        forall|i: int| 0 <= i < lines.len() ==> newline_free(#[trigger] lines[i]),
    ensures
        on_one_line(with_lines(m, binds, lines)),
    decreases lines.len(),
{
    if lines.len() > 0 {
        let front = lines.drop_last();
        assert forall|i: int| 0 <= i < front.len() implies newline_free(#[trigger] front[i]) by {
            assert(front[i] == lines[i]);
        }
        lemma_with_lines_on_one_line(m, binds, front);
        assert(newline_free(lines[lines.len() - 1]));
        lemma_parse_line_newline_free(lines.last());
        let before = with_lines(m, binds, front);
        let after = with_lines(m, binds, lines);
        assert forall|key: Seq<char>| #[trigger] after.contains_key(key) implies newline_free(key)
            && newline_free(after[key]) by {
            match parse_line(lines.last()) {
                Some((name, _)) => {
                    lemma_stored_key_newline_free(binds, name);
                    if key != stored_key(binds, name) {
                        assert(before.contains_key(key));
                    }
                },
                None => {
                    assert(before.contains_key(key));
                },
            }
        }
    }
}

/// No key and no value that is parsed from two dumps holds a newline.
pub proof fn lemma_run_on_one_line(first: Seq<char>, second: Seq<char>, binds: bool)
    ensures
        on_one_line(
            with_lines(
                with_lines(Map::empty(), binds, lines_of(first)),
                binds,
                lines_of(second),
            ),
        ),
{
    let empty = Map::<Seq<char>, Seq<char>>::empty();
    assert forall|i: int| 0 <= i < lines_of(first).len() implies newline_free(
        #[trigger] lines_of(first)[i],
    ) by {
        lemma_lines_of_newline_free(first, i);
    }
    assert forall|i: int| 0 <= i < lines_of(second).len() implies newline_free(
        #[trigger] lines_of(second)[i],
    ) by {
        lemma_lines_of_newline_free(second, i);
    }
    lemma_with_lines_on_one_line(empty, binds, lines_of(first));
    lemma_with_lines_on_one_line(with_lines(empty, binds, lines_of(first)), binds, lines_of(second));
}

/// A line rendered from a key and a value without newlines is one line.
pub proof fn lemma_render_line_is_one_line(key: Seq<char>, value: Seq<char>)
    requires
        newline_free(key),
        newline_free(value),
    ensures
        is_one_line(render_line(key, value)),
{
    let line = render_line(key, value);
    lemma_render_line_at(key, value, line.len() - 1);
    assert forall|i: int| 0 <= i < line.len() - 1 implies line.drop_last()[i] != '\n' by {
        lemma_render_line_at(key, value, i);
    }
}

/// Where no key of `keys` is absent from `m`, `m` holds each of them.
pub proof fn lemma_none_absent(m: Map<Seq<char>, Seq<char>>, keys: Seq<Seq<char>>, j: int)
    requires
        first_absent(m, keys) is None,
        0 <= j < keys.len(),
    ensures
        m.contains_key(keys[j]),
    decreases keys.len(),
{
    if j > 0 {
        lemma_none_absent(m, keys.skip(1), j - 1);
    }
}

/// Where no key of `sections` is missing from `m`, no key of any of them is
/// absent.
pub proof fn lemma_none_missing(m: Map<Seq<char>, Seq<char>>, sections: Seq<SectionView>, i: int)
    requires
        first_missing(m, sections) is None,
        0 <= i < sections.len(),
    ensures
        first_absent(m, sections[i].keys) is None,
    decreases sections.len(),
{
    if i > 0 {
        lemma_none_missing(m, sections.skip(1), i - 1);
    }
}

/// A key of `sections` is a key of one of them.
pub proof fn lemma_section_keys_contains(sections: Seq<SectionView>, key: Seq<char>)
    requires
        section_keys(sections).contains(key),
    ensures
        exists|i: int, j: int|
            0 <= i < sections.len() && 0 <= j < sections[i].keys.len() && #[trigger] sections[i].keys[j]
                == key,
    decreases sections.len(),
{
    if sections.len() > 0 {
        let front = sections.drop_last();
        let last = sections.last();
        if last.keys.to_set().contains(key) {
            let j = choose|j: int| 0 <= j < last.keys.len() && last.keys[j] == key;
            assert(sections[sections.len() - 1].keys[j] == key);
        } else {
            lemma_section_keys_contains(front, key);
            let (i, j) = choose|i: int, j: int|
                0 <= i < front.len() && 0 <= j < front[i].keys.len() && #[trigger] front[i].keys[j]
                    == key;
            assert(sections[i].keys[j] == key);
        }
    }
}

/// Where a script is built, the supplied settings hold every key of the
/// sections.
pub proof fn lemma_section_keys_supplied(m: Map<Seq<char>, Seq<char>>, key: Seq<char>)
    requires
        first_missing(m, catalog()) is None,
        section_keys(catalog()).contains(key),
    ensures
        m.contains_key(key),
{
    lemma_section_keys_contains(catalog(), key);
    let (i, j) = choose|i: int, j: int|
        0 <= i < catalog().len() && 0 <= j < catalog()[i].keys.len() && #[trigger] catalog()[i].keys[j]
            == key;
    lemma_none_missing(m, catalog(), i);
    lemma_none_absent(m, catalog()[i].keys, j);
}

/// No key of a section holds a newline.
proof fn lemma_section_keys_newline_free(key: Seq<char>)
    requires
        section_keys(catalog()).contains(key),
    ensures
        newline_free(key),
{
    reveal_strlit("viewmodel_presetpos");
    reveal_strlit("viewmodel_fov");
    reveal_strlit("viewmodel_offset_x");
    reveal_strlit("viewmodel_offset_y");
    reveal_strlit("viewmodel_offset_z");
    reveal_strlit("cl_crosshair_drawoutline");
    reveal_strlit("cl_crosshair_dynamic_maxdist_splitratio");
    reveal_strlit("cl_crosshair_dynamic_splitalpha_innermod");
    reveal_strlit("cl_crosshair_dynamic_splitalpha_outermod");
    reveal_strlit("cl_crosshair_dynamic_splitdist");
    reveal_strlit("cl_crosshair_outlinethickness");
    reveal_strlit("cl_crosshair_recoil");
    reveal_strlit("cl_crosshair_sniper_width");
    reveal_strlit("cl_crosshair_t");
    reveal_strlit("cl_crosshairalpha");
    reveal_strlit("cl_crosshaircolor");
    reveal_strlit("cl_crosshaircolor_b");
    reveal_strlit("cl_crosshaircolor_g");
    reveal_strlit("cl_crosshaircolor_r");
    reveal_strlit("cl_crosshairdot");
    reveal_strlit("cl_crosshairgap");
    reveal_strlit("cl_crosshairgap_useweaponvalue");
    reveal_strlit("cl_crosshairsize");
    reveal_strlit("cl_crosshairstyle");
    reveal_strlit("cl_crosshairthickness");
    reveal_strlit("cl_crosshairusealpha");
    reveal_strlit("cl_fixedcrosshairgap");
    lemma_section_keys_contains(catalog(), key);
    let (i, j) = choose|i: int, j: int|
        0 <= i < catalog().len() && 0 <= j < catalog()[i].keys.len() && #[trigger] catalog()[i].keys[j]
            == key;
    if i == 0 {
        assert(newline_free(catalog()[0].keys[j]));
    } else {
        assert(newline_free(catalog()[1].keys[j]));
    }
}

/// A fixed line is one line.
proof fn lemma_fixed_line_is_one_line(line: Seq<char>)
    requires
        is_fixed_line(line) || line == "con_enable \"1\"\n"@,
    ensures
        is_one_line(line),
{
    reveal_strlit("con_enable \"1\"\n");
    reveal_strlit("\n");
    reveal_strlit("// BINDS\n");
    reveal_strlit("unbindall\n");
    reveal_strlit("// SETTINGS\n");
    reveal_strlit("echo \"--- autoexec loaded ---\"\n");
    assert(is_one_line("con_enable \"1\"\n"@));
    assert(is_one_line("\n"@));
    assert(is_one_line("// BINDS\n"@));
    assert(is_one_line("unbindall\n"@));
    assert(is_one_line("// SETTINGS\n"@));
    assert(is_one_line("echo \"--- autoexec loaded ---\"\n"@));
}

/// The title of a section is one line.
proof fn lemma_title_line_is_one_line(line: Seq<char>)
    requires
        is_title_line(catalog(), line),
    ensures
        is_one_line(line),
{
    reveal_strlit("// ");
    reveal_strlit("\n");
    reveal_strlit("VIEWMODEL");
    reveal_strlit("CROSSHAIR");
    let i = choose|i: int|
        0 <= i < catalog().len() && line == "// "@ + (#[trigger] catalog()[i]).name + "\n"@;
    let name = catalog()[i].name;
    assert(newline_free("// "@));
    assert(newline_free(name));
    assert forall|k: int| 0 <= k < line.len() - 1 implies line.drop_last()[k] != '\n' by {
        if k < 3 {
            assert(line[k] == "// "@[k]);
        } else {
            assert(line[k] == name[k - 3]);
        }
    }
}

/// Where a script is built, each of its lines but the last is one line, and
/// the last holds no newline.
pub proof fn lemma_config_line_is_one_line(
    base_machine: Seq<char>,
    base_user: Seq<char>,
    base_binds: Seq<char>,
    machine: Seq<char>,
    user: Seq<char>,
    binds: Seq<char>,
    at: int,
)
    requires
        first_missing(custom_settings(machine, user), catalog()) is None,
        0 <= at < config_lines(base_machine, base_user, base_binds, machine, user, binds).len(),
    ensures
        at < config_lines(base_machine, base_user, base_binds, machine, user, binds).len() - 1
            ==> is_one_line(
            config_lines(base_machine, base_user, base_binds, machine, user, binds)[at],
        ),
        at == config_lines(base_machine, base_user, base_binds, machine, user, binds).len() - 1
            ==> newline_free(
            config_lines(base_machine, base_user, base_binds, machine, user, binds)[at],
        ),
{
    let defaults = settings_of(base_machine, base_user);
    let custom = custom_settings(machine, user);
    let all_binds = binds_of(base_binds, binds);
    let lines = config_lines(base_machine, base_user, base_binds, machine, user, binds);
    let line = lines[at];
    lemma_script_line_kinds(defaults, custom, all_binds, at);
    lemma_run_on_one_line(machine, user, false);
    lemma_run_on_one_line(base_binds, binds, true);
    lemma_run_is_plain(machine, user);
    lemma_run_is_plain(base_binds, binds);
    if at == lines.len() - 1 {
        reveal_strlit("// Generated at https://rpeabs.net/cs2autoexec/");
        assert(newline_free(closing_line()));
    } else if at == 0 || is_fixed_line(line) {
        lemma_fixed_line_is_one_line(line);
    } else if is_title_line(catalog(), line) {
        lemma_title_line_is_one_line(line);
    } else if is_section_key_line(custom, catalog(), line) {
        let key = choose|key: Seq<char>| #[trigger]
            section_keys(catalog()).contains(key) && line == render_line(key, custom[key]);
        lemma_section_keys_newline_free(key);
        lemma_section_keys_supplied(custom, key);
        lemma_render_line_is_one_line(key, custom[key]);
    } else if bind_lines(all_binds).contains(line) {
        lemma_bind_lines(all_binds, line);
        let key = choose|key: Seq<char>| #[trigger]
            all_binds.contains_key(key) && all_binds[key] != unbound() && line == render_line(
                key,
                all_binds[key],
            );
        lemma_render_line_is_one_line(key, all_binds[key]);
    } else {
        lemma_setting_lines(defaults, custom, line);
        let key = choose|key: Seq<char>| #[trigger]
            custom.contains_key(key) && !section_keys(catalog()).contains(key)
                && defaults.contains_key(key) && defaults[key] != custom[key] && line
                == render_line(key, custom[key]);
        lemma_render_line_is_one_line(key, custom[key]);
    }
}

/// Where a script is built, splitting it at its newlines gives its lines:
/// each but the last without the newline that ends it, and the last as it is.
pub proof fn lemma_script_splits_into_its_lines(
    base_machine: Seq<char>,
    base_user: Seq<char>,
    base_binds: Seq<char>,
    machine: Seq<char>,
    user: Seq<char>,
    binds: Seq<char>,
)
    requires
        first_missing(custom_settings(machine, user), catalog()) is None,
    ensures
        lines_of(config_script(base_machine, base_user, base_binds, machine, user, binds)) == bare(
            config_lines(base_machine, base_user, base_binds, machine, user, binds).drop_last(),
        ) + seq![closing_line()],
{
    let lines = config_lines(base_machine, base_user, base_binds, machine, user, binds);
    let whole = lines.drop_last();
    let last = lines.last();
    assert(lines.len() >= 5);
    assert forall|i: int| 0 <= i < whole.len() implies is_one_line(#[trigger] whole[i]) by {
        lemma_config_line_is_one_line(base_machine, base_user, base_binds, machine, user, binds, i);
        assert(whole[i] == lines[i]);
    }
    lemma_config_line_is_one_line(
        base_machine,
        base_user,
        base_binds,
        machine,
        user,
        binds,
        lines.len() - 1,
    );
    lemma_script_line_kinds(
        settings_of(base_machine, base_user),
        custom_settings(machine, user),
        binds_of(base_binds, binds),
        lines.len() - 1,
    );
    assert(lines == whole.push(last));
    whole.lemma_flatten_push(last);
    lemma_lines_of_whole_lines(whole, last);
}

} // verus!
