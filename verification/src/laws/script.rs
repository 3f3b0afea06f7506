//! What holds of every line of the script: what kinds of lines there are,
//! and which keys no line sets.

use vstd::prelude::*;
use crate::config_lines;
use crate::emit::{
    bind_block, bind_lines, catalog, closing_line, footer_lines, header_lines, key_lines, render_line,
    script_lines, section_keys, section_lines, sections_lines, setting_lines, settings_block,
    unbound, SectionView,
};
use crate::laws::blocks::{
    ignored_like, lemma_bind_lines, lemma_ignored_keys_are_ignored_like, lemma_run_is_plain,
    lemma_section_keys_are_section_like, lemma_setting_line_key, lemma_setting_lines, section_like,
};
use crate::laws::lines::{
    lemma_render_line_aligned, lemma_render_line_at, lemma_render_line_injective,
};
use crate::laws::parsing::{lemma_parse_line_quote_free, quote_free};
use crate::parse::{bind_key, lines_of, parse_line, with_lines};
use crate::reconcile::{binds_of, custom_settings, ignored_keys, settings_of};

verus! {

/// Whether `line` is a comment, a directive or a blank line that stands in
/// every script between its first and its last line.
pub open spec fn is_fixed_line(line: Seq<char>) -> bool {
    ||| line == "\n"@
    ||| line == "// BINDS\n"@
    ||| line == "unbindall\n"@
    ||| line == "// SETTINGS\n"@
    ||| line == "echo \"--- autoexec loaded ---\"\n"@
}

/// Whether `line` is the comment that opens one of `sections`.
pub open spec fn is_title_line(sections: Seq<SectionView>, line: Seq<char>) -> bool {
    exists|i: int| 0 <= i < sections.len() && line == "// "@ + (#[trigger] sections[i]).name + "\n"@
}

/// Whether `line` sets a key of `sections` to its value in `m`.
pub open spec fn is_section_key_line(
    m: Map<Seq<char>, Seq<char>>,
    sections: Seq<SectionView>,
    line: Seq<char>,
) -> bool {
    exists|key: Seq<char>| #[trigger]
        section_keys(sections).contains(key) && line == render_line(key, m[key])
}

/// A line of the sections is a title, the line of one of their keys, or
/// blank.
pub proof fn lemma_sections_lines(
    m: Map<Seq<char>, Seq<char>>,
    sections: Seq<SectionView>,
    at: int,
)
    requires
        0 <= at < sections_lines(m, sections).len(),
    ensures
        ({
            let line = sections_lines(m, sections)[at];
            line == "\n"@ || is_title_line(sections, line) || is_section_key_line(m, sections, line)
        }),
    decreases sections.len(),
{
    let line = sections_lines(m, sections)[at];
    let front = sections.drop_last();
    let last = sections.last();
    let before = sections_lines(m, front);
    if at < before.len() {
        lemma_sections_lines(m, front, at);
        if is_title_line(front, line) {
            let i = choose|i: int|
                0 <= i < front.len() && line == "// "@ + (#[trigger] front[i]).name + "\n"@;
            assert(sections[i] == front[i]);
        }
        if is_section_key_line(m, front, line) {
            let key = choose|key: Seq<char>| #[trigger]
                section_keys(front).contains(key) && line == render_line(key, m[key]);
            assert(section_keys(sections).contains(key));
        }
    } else {
        let j = at - before.len();
        let own = section_lines(m, last);
        assert(line == own[j]);
        if j == 0 {
            assert(line == "// "@ + sections[sections.len() - 1].name + "\n"@);
        } else if j <= last.keys.len() {
            let key = last.keys[j - 1];
            assert(line == key_lines(m, last.keys)[j - 1]);
            assert(last.keys.to_set().contains(key));
            assert(section_keys(sections).contains(key));
        }
    }
}

/// The first line of the script enables the console and the last is the
/// closing comment. Every line between them is a fixed line, the title of a
/// section, the line of a key of a section, a line of the binds or a line of
/// the changed settings.
pub proof fn lemma_script_line_kinds(
    defaults: Map<Seq<char>, Seq<char>>,
    custom: Map<Seq<char>, Seq<char>>,
    binds: Map<Seq<char>, Seq<char>>,
    at: int,
)
    requires
        0 <= at < script_lines(defaults, custom, binds).len(),
    ensures
        at == 0 ==> script_lines(defaults, custom, binds)[at] == "con_enable \"1\"\n"@,
        at == script_lines(defaults, custom, binds).len() - 1 ==> script_lines(
            defaults,
            custom,
            binds,
        )[at] == closing_line(),
        0 < at < script_lines(defaults, custom, binds).len() - 1 ==> ({
            let line = script_lines(defaults, custom, binds)[at];
            is_fixed_line(line) || is_title_line(catalog(), line) || is_section_key_line(
                custom,
                catalog(),
                line,
            ) || bind_lines(binds).contains(line) || setting_lines(defaults, custom).contains(line)
        }),
{
    let head = header_lines();
    let sections = sections_lines(custom, catalog());
    let bind_part = bind_block(binds);
    let setting_part = settings_block(defaults, custom);
    let foot = footer_lines();
    let line = script_lines(defaults, custom, binds)[at];
    let a = head.len() as int;
    let b = a + sections.len();
    let c = b + bind_part.len();
    let d = c + setting_part.len();
    if at < a {
        assert(line == head[at]);
    } else if at < b {
        assert(line == sections[at - a]);
        lemma_sections_lines(custom, catalog(), at - a);
    } else if at < c {
        let j = at - b;
        assert(line == bind_part[j]);
        if 2 <= j < 2 + bind_lines(binds).len() {
            assert(line == bind_lines(binds)[j - 2]);
        }
    } else if at < d {
        let j = at - c;
        assert(line == setting_part[j]);
        if 1 <= j {
            assert(line == setting_lines(defaults, custom)[j - 1]);
        }
    } else {
        assert(line == foot[at - d]);
    }
}

/// Whether `key` is the stored key of a bind: `bind "<name>"` for a name
/// without double quotes.
pub open spec fn is_bind_key(key: Seq<char>) -> bool {
    exists|name: Seq<char>| quote_free(name) && key == #[trigger] bind_key(name)
}

/// The stored key of a bind is `bind "`, the name and a double quote: what
/// stands at position `i` of it.
pub proof fn lemma_bind_key_at(name: Seq<char>, i: int)
    ensures
        bind_key(name).len() == name.len() + 7,
        bind_key(name)[0] == 'b',
        bind_key(name)[4] == ' ',
        bind_key(name)[5] == '"',
        6 <= i < 6 + name.len() ==> bind_key(name)[i] == name[i - 6],
        bind_key(name)[name.len() as int + 6] == '"',
{
    reveal_strlit("bind \"");
    reveal_strlit("\"");
    let open = "bind \""@;
    let close = "\""@;
    assert(open.len() == 6 && open[0] == 'b' && open[4] == ' ' && open[5] == '"');
    assert(close.len() == 1 && close[0] == '"');
}

/// In bind mode every key that is read is the stored key of a bind.
pub proof fn lemma_with_lines_bind_keys(m: Map<Seq<char>, Seq<char>>, lines: Seq<Seq<char>>)
    requires
        forall|key: Seq<char>| #[trigger] m.contains_key(key) ==> is_bind_key(key),
    ensures
        forall|key: Seq<char>| #[trigger]
            with_lines(m, true, lines).contains_key(key) ==> is_bind_key(key),
    decreases lines.len(),
{
    if lines.len() > 0 {
        lemma_with_lines_bind_keys(m, lines.drop_last());
        lemma_parse_line_quote_free(lines.last());
        let before = with_lines(m, true, lines.drop_last());
        let after = with_lines(m, true, lines);
        assert forall|key: Seq<char>| #[trigger] after.contains_key(key) implies is_bind_key(
            key,
        ) by {
            match parse_line(lines.last()) {
                Some((name, _)) => {
                    if key == bind_key(name) {
                        assert(quote_free(name));
                    } else {
                        assert(before.contains_key(key));
                    }
                },
                None => {
                    assert(before.contains_key(key));
                },
            }
        }
    }
}

/// Every key of the binds of a run is the stored key of a bind.
pub proof fn lemma_binds_have_bind_keys(base_binds: Seq<char>, custom_binds: Seq<char>)
    ensures
        forall|key: Seq<char>| #[trigger]
            binds_of(base_binds, custom_binds).contains_key(key) ==> is_bind_key(key),
{
    let empty = Map::<Seq<char>, Seq<char>>::empty();
    lemma_with_lines_bind_keys(empty, lines_of(base_binds));
    lemma_with_lines_bind_keys(with_lines(empty, true, lines_of(base_binds)), lines_of(custom_binds));
}

/// A fixed line begins as no ignored key does.
proof fn lemma_fixed_line_not_ignored_like(line: Seq<char>)
    requires
        is_fixed_line(line),
    ensures
        !ignored_like(line),
        line[0] != 'b',
{
    reveal_strlit("\n");
    reveal_strlit("// BINDS\n");
    reveal_strlit("unbindall\n");
    reveal_strlit("// SETTINGS\n");
    reveal_strlit("echo \"--- autoexec loaded ---\"\n");
    assert("\n"@[0] == '\n');
    assert("// BINDS\n"@[0] == '/');
    assert("unbindall\n"@[0] == 'u' && "unbindall\n"@[1] == 'n');
    assert("// SETTINGS\n"@[0] == '/');
    assert("echo \"--- autoexec loaded ---\"\n"@[0] == 'e');
}

/// The closing comment begins with a slash.
proof fn lemma_closing_line_begins()
    ensures
        closing_line().len() > 0,
        closing_line()[0] == '/',
{
    reveal_strlit("// Generated at https://rpeabs.net/cs2autoexec/");
    assert("// Generated at https://rpeabs.net/cs2autoexec/"@[0] == '/');
}

/// A title begins with a slash.
proof fn lemma_title_line_begins(sections: Seq<SectionView>, line: Seq<char>)
    requires
        is_title_line(sections, line),
    ensures
        line.len() > 0,
        line[0] == '/',
{
    reveal_strlit("// ");
    assert("// "@.len() == 3 && "// "@[0] == '/');
}

/// A line begins as its key does, where the key has four characters.
proof fn lemma_render_line_begins(key: Seq<char>, value: Seq<char>)
    requires
        key.len() >= 4,
    ensures
        section_like(render_line(key, value)) == section_like(key),
        ignored_like(render_line(key, value)) == ignored_like(key),
        render_line(key, value)[0] == key[0],
{
    lemma_render_line_at(key, value, 0);
    lemma_render_line_at(key, value, 1);
    lemma_render_line_at(key, value, 2);
    lemma_render_line_at(key, value, 3);
}

/// An ignored key is set by no line of the script but the directive that
/// opens it, whatever the dumps hold.
pub proof fn lemma_ignored_set_nowhere(
    base_machine: Seq<char>,
    base_user: Seq<char>,
    base_binds: Seq<char>,
    machine: Seq<char>,
    user: Seq<char>,
    binds: Seq<char>,
    key: Seq<char>,
    value: Seq<char>,
    at: int,
)
    requires
        ignored_keys().contains(key),
        0 <= at < config_lines(base_machine, base_user, base_binds, machine, user, binds).len(),
        config_lines(base_machine, base_user, base_binds, machine, user, binds)[at] == render_line(
            key,
            value,
        ),
    ensures
        at == 0,
{
    let defaults = settings_of(base_machine, base_user);
    let custom = custom_settings(machine, user);
    let all_binds = binds_of(base_binds, binds);
    let line = render_line(key, value);
    lemma_ignored_keys_are_ignored_like(key);
    lemma_render_line_begins(key, value);
    lemma_script_line_kinds(defaults, custom, all_binds, at);
    if at > 0 {
        if at == config_lines(base_machine, base_user, base_binds, machine, user, binds).len() - 1 {
            lemma_closing_line_begins();
        } else if is_fixed_line(line) {
            lemma_fixed_line_not_ignored_like(line);
        } else if is_title_line(catalog(), line) {
            lemma_title_line_begins(catalog(), line);
        } else if is_section_key_line(custom, catalog(), line) {
            let k = choose|k: Seq<char>| #[trigger]
                section_keys(catalog()).contains(k) && line == render_line(k, custom[k]);
            lemma_section_keys_are_section_like(k);
            lemma_render_line_begins(k, custom[k]);
        } else if bind_lines(all_binds).contains(line) {
            lemma_run_is_plain(base_binds, binds);
            lemma_bind_lines(all_binds, line);
            lemma_binds_have_bind_keys(base_binds, binds);
            let k = choose|k: Seq<char>| #[trigger]
                all_binds.contains_key(k) && all_binds[k] != unbound() && line == render_line(
                    k,
                    all_binds[k],
                );
            let name = choose|name: Seq<char>| quote_free(name) && k == #[trigger] bind_key(name);
            lemma_bind_key_at(name, 0);
            lemma_render_line_at(k, all_binds[k], 0);
        } else {
            lemma_setting_line_key(base_machine, base_user, machine, user, key, value);
            assert(ignored_keys().to_set().contains(key));
        }
    }
}

/// A bind that is cleared is set by no line of the script, whatever the
/// value and wherever the bind came from.
pub proof fn lemma_cleared_bind_set_nowhere(
    base_machine: Seq<char>,
    base_user: Seq<char>,
    base_binds: Seq<char>,
    machine: Seq<char>,
    user: Seq<char>,
    binds: Seq<char>,
    key: Seq<char>,
    value: Seq<char>,
    at: int,
)
    requires
        binds_of(base_binds, binds).contains_key(key),
        binds_of(base_binds, binds)[key] == unbound(),
        0 <= at < config_lines(base_machine, base_user, base_binds, machine, user, binds).len(),
    ensures
        config_lines(base_machine, base_user, base_binds, machine, user, binds)[at] != render_line(
            key,
            value,
        ),
{
    let defaults = settings_of(base_machine, base_user);
    let custom = custom_settings(machine, user);
    let all_binds = binds_of(base_binds, binds);
    let line = config_lines(base_machine, base_user, base_binds, machine, user, binds)[at];
    lemma_binds_have_bind_keys(base_binds, binds);
    let name = choose|name: Seq<char>| quote_free(name) && key == #[trigger] bind_key(name);
    lemma_bind_key_at(name, 0);
    lemma_render_line_at(key, value, 0);
    lemma_render_line_at(key, value, 5);
    lemma_script_line_kinds(defaults, custom, all_binds, at);
    if line == render_line(key, value) {
        if at == 0 {
            reveal_strlit("con_enable \"1\"\n");
            assert("con_enable \"1\"\n"@[0] == 'c');
        } else if at == config_lines(base_machine, base_user, base_binds, machine, user, binds).len()
            - 1 {
            lemma_closing_line_begins();
        } else if is_fixed_line(line) {
            lemma_fixed_line_not_ignored_like(line);
        } else if is_title_line(catalog(), line) {
            lemma_title_line_begins(catalog(), line);
        } else if is_section_key_line(custom, catalog(), line) {
            let k = choose|k: Seq<char>| #[trigger]
                section_keys(catalog()).contains(k) && line == render_line(k, custom[k]);
            lemma_section_keys_are_section_like(k);
            lemma_render_line_begins(k, custom[k]);
        } else if bind_lines(all_binds).contains(line) {
            lemma_run_is_plain(base_binds, binds);
            lemma_bind_lines(all_binds, line);
            let k = choose|k: Seq<char>| #[trigger]
                all_binds.contains_key(k) && all_binds[k] != unbound() && line == render_line(
                    k,
                    all_binds[k],
                );
            let other = choose|other: Seq<char>|
                quote_free(other) && k == #[trigger] bind_key(other);
            lemma_same_bind_line(other, all_binds[k], name, value);
        } else {
            lemma_run_is_plain(machine, user);
            lemma_setting_lines(defaults, custom, line);
            let k = choose|k: Seq<char>| #[trigger]
                custom.contains_key(k) && !section_keys(catalog()).contains(k)
                    && defaults.contains_key(k) && defaults[k] != custom[k] && line
                    == render_line(k, custom[k]);
            lemma_render_line_injective(k, custom[k], key, value);
            assert(key[5] == '"');
        }
    }
}

/// Two lines that bind names without double quotes are the same line only if
/// they bind the same name to the same value.
proof fn lemma_same_bind_line(
    name: Seq<char>,
    value: Seq<char>,
    other_name: Seq<char>,
    other_value: Seq<char>,
)
    requires
        quote_free(name),
        quote_free(other_name),
        render_line(bind_key(name), value) == render_line(bind_key(other_name), other_value),
    ensures
        name == other_name,
        value == other_value,
{
    let key = bind_key(name);
    let other_key = bind_key(other_name);
    let end = name.len() as int + 6;
    let other_end = other_name.len() as int + 6;
    lemma_bind_key_at(name, other_end);
    lemma_bind_key_at(other_name, end);
    lemma_render_line_at(key, value, end);
    lemma_render_line_at(other_key, other_value, end);
    lemma_render_line_at(key, value, other_end);
    lemma_render_line_at(other_key, other_value, other_end);
    if name.len() < other_name.len() {
        assert(other_name[end - 6] != '"');
    } else if other_name.len() < name.len() {
        assert(name[other_end - 6] != '"');
    }
    lemma_render_line_aligned(key, value, other_key, other_value);
    assert forall|i: int| 0 <= i < name.len() implies name[i] == other_name[i] by {
        lemma_bind_key_at(name, i + 6);
        lemma_bind_key_at(other_name, i + 6);
    }
    assert(name =~= other_name);
}

} // verus!
