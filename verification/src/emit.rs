//! The script emitter: from the reconciled maps to the text of the script.
//!
//! The script holds, in this order: the directive that enables the console,
//! one block for each section of the catalog, the bind block, the block of
//! settings that differ from the baseline, and a footer. The lines of the bind
//! block and of the settings block are sorted.

use vstd::prelude::*;
use crate::config_map::{distinct_keys, has_key, key_index, keys_of, lemma_keys_of, lemma_map_of_entry, map_of, ConfigMap};
use crate::order::{ascending, lemma_ascending, lemma_ascending_unique, lemma_map_arrangement, lemma_same_elements, lemma_to_seq_no_duplicates, sort_lines, texts};
use crate::reconcile::{remove_all, strs};
use crate::text::{chars_of, copy_text, push_all, push_str, string_of, text_eq};

verus! {

/// A section of the script: a title and the keys whose settings stand under
/// it, in this order, whatever their values.
pub struct Section {
    pub name: &'static str,
    pub keys: Vec<&'static str>,
}

/// A section as contracts see it.
pub struct SectionView {
    pub name: Seq<char>,
    pub keys: Seq<Seq<char>>,
}

impl View for Section {
    type V = SectionView;

    /// The title and the keys as texts.
    open spec fn view(&self) -> SectionView {
        SectionView { name: self.name@, keys: strs(self.keys@) }
    }
}

/// A key of a section for which the supplied settings hold no value.
#[derive(Debug, PartialEq, Eq)]
pub struct MissingKey {
    pub section: String,
    pub key: String,
}

impl View for MissingKey {
    type V = (Seq<char>, Seq<char>);

    /// The section's title and the key.
    open spec fn view(&self) -> (Seq<char>, Seq<char>) {
        (self.section@, self.key@)
    }
}

/// The diagnostic for a missing key.
pub open spec fn missing_key_message(section: Seq<char>, key: Seq<char>) -> Seq<char> {
    "missing key \""@ + key + "\" in section "@ + section
}

impl MissingKey {
    /// The diagnostic, naming the key and the section.
    pub fn message(&self) -> (text: String)
        ensures
            text@ == missing_key_message(self.section@, self.key@),
    {
        let mut out: Vec<char> = Vec::new();
        push_str(&mut out, "missing key \"");
        push_str(&mut out, self.key.as_str());
        push_str(&mut out, "\" in section ");
        push_str(&mut out, self.section.as_str());
        string_of(&out)
    }
}

/// The views of a list of sections.
pub open spec fn section_views(list: Seq<Section>) -> Seq<SectionView> {
    Seq::new(list.len(), |i: int| list[i]@)
}

/// The sections of the script.
pub open spec fn catalog() -> Seq<SectionView> {
    seq![
        SectionView {
            name: "VIEWMODEL"@,
            keys: seq![
                "viewmodel_presetpos"@,
                "viewmodel_fov"@,
                "viewmodel_offset_x"@,
                "viewmodel_offset_y"@,
                "viewmodel_offset_z"@,
            ],
        },
        SectionView {
            name: "CROSSHAIR"@,
            keys: seq![
                "cl_crosshair_drawoutline"@,
                "cl_crosshair_dynamic_maxdist_splitratio"@,
                "cl_crosshair_dynamic_splitalpha_innermod"@,
                "cl_crosshair_dynamic_splitalpha_outermod"@,
                "cl_crosshair_dynamic_splitdist"@,
                "cl_crosshair_outlinethickness"@,
                "cl_crosshair_recoil"@,
                "cl_crosshair_sniper_width"@,
                "cl_crosshair_t"@,
                "cl_crosshairalpha"@,
                "cl_crosshaircolor"@,
                "cl_crosshaircolor_b"@,
                "cl_crosshaircolor_g"@,
                "cl_crosshaircolor_r"@,
                "cl_crosshairdot"@,
                "cl_crosshairgap"@,
                "cl_crosshairgap_useweaponvalue"@,
                "cl_crosshairsize"@,
                "cl_crosshairstyle"@,
                "cl_crosshairthickness"@,
                "cl_crosshairusealpha"@,
                "cl_fixedcrosshairgap"@,
            ],
        },
    ]
}

/// The line that sets `key` to `value`, with the newline that ends it.
pub open spec fn render_line(key: Seq<char>, value: Seq<char>) -> Seq<char> {
    key + " \""@ + value + "\"\n"@
}

/// For each key the line that sets it to its value in `m`.
pub open spec fn line_of(m: Map<Seq<char>, Seq<char>>) -> spec_fn(Seq<char>) -> Seq<char> {
    |key: Seq<char>| render_line(key, m[key])
}

/// One line for each of `keys`, in their order, with the values that `m` holds.
pub open spec fn key_lines(m: Map<Seq<char>, Seq<char>>, keys: Seq<Seq<char>>) -> Seq<Seq<char>> {
    keys.map_values(line_of(m))
}

/// The lines of one section: a comment with its title, the lines of its keys,
/// a blank line.
pub open spec fn section_lines(m: Map<Seq<char>, Seq<char>>, section: SectionView) -> Seq<
    Seq<char>,
> {
    seq!["// "@ + section.name + "\n"@] + key_lines(m, section.keys) + seq!["\n"@]
}

/// The lines of `sections`, one section after the other.
pub open spec fn sections_lines(m: Map<Seq<char>, Seq<char>>, sections: Seq<SectionView>) -> Seq<
    Seq<char>,
>
    decreases sections.len(),
{
    if sections.len() == 0 {
        Seq::empty()
    } else {
        sections_lines(m, sections.drop_last()) + section_lines(m, sections.last())
    }
}

/// The first of `keys` that `m` lacks.
pub open spec fn first_absent(m: Map<Seq<char>, Seq<char>>, keys: Seq<Seq<char>>) -> Option<
    Seq<char>,
>
    decreases keys.len(),
{
    if keys.len() == 0 {
        None
    } else if !m.contains_key(keys[0]) {
        Some(keys[0])
    } else {
        first_absent(m, keys.skip(1))
    }
}

/// The first key of `sections`, in their order, that `m` lacks, with the
/// title of its section.
pub open spec fn first_missing(m: Map<Seq<char>, Seq<char>>, sections: Seq<SectionView>) -> Option<
    (Seq<char>, Seq<char>),
>
    decreases sections.len(),
{
    if sections.len() == 0 {
        None
    } else {
        match first_absent(m, sections[0].keys) {
            Some(key) => Some((sections[0].name, key)),
            None => first_missing(m, sections.skip(1)),
        }
    }
}

/// All keys of `sections`.
pub open spec fn section_keys(sections: Seq<SectionView>) -> Set<Seq<char>>
    decreases sections.len(),
{
    if sections.len() == 0 {
        Set::empty()
    } else {
        section_keys(sections.drop_last()).union(sections.last().keys.to_set())
    }
}

/// The settings that are left once the sections have taken theirs.
pub open spec fn remaining(custom: Map<Seq<char>, Seq<char>>) -> Map<Seq<char>, Seq<char>> {
    custom.remove_keys(section_keys(catalog()))
}

/// The value that marks a bind as cleared.
pub open spec fn unbound() -> Seq<char> {
    "<unbound>"@
}

/// The binds that are not cleared.
pub open spec fn bound(binds: Map<Seq<char>, Seq<char>>) -> Map<Seq<char>, Seq<char>> {
    binds.restrict(Set::new(|key: Seq<char>| binds[key] != unbound()))
}

/// The settings of `custom` for which `defaults` holds another value. A key
/// that `defaults` lacks is left out.
pub open spec fn changed(
    custom: Map<Seq<char>, Seq<char>>,
    defaults: Map<Seq<char>, Seq<char>>,
) -> Map<Seq<char>, Seq<char>> {
    custom.restrict(
        Set::new(|key: Seq<char>| defaults.contains_key(key) && defaults[key] != custom[key]),
    )
}

/// One line for each key of `m`, in no particular order.
pub open spec fn map_lines(m: Map<Seq<char>, Seq<char>>) -> Seq<Seq<char>> {
    key_lines(m, m.dom().to_seq())
}

/// One line for each key of `m`, in ascending order of the lines.
pub open spec fn sorted_lines(m: Map<Seq<char>, Seq<char>>) -> Seq<Seq<char>> {
    ascending(map_lines(m))
}

/// The lines of the binds: one for each bind that is not cleared, in
/// ascending order.
pub open spec fn bind_lines(binds: Map<Seq<char>, Seq<char>>) -> Seq<Seq<char>> {
    sorted_lines(bound(binds))
}

/// The lines of the changed settings: one for each remaining setting that
/// differs from the baseline, in ascending order.
pub open spec fn setting_lines(
    defaults: Map<Seq<char>, Seq<char>>,
    custom: Map<Seq<char>, Seq<char>>,
) -> Seq<Seq<char>> {
    sorted_lines(changed(remaining(custom), defaults))
}

/// What opens the script: the directive that enables the console, and a
/// blank line.
pub open spec fn header_lines() -> Seq<Seq<char>> {
    seq!["con_enable \"1\"\n"@, "\n"@]
}

/// The bind block: a comment, the directive that clears every bind, the
/// lines of the binds and a blank line.
pub open spec fn bind_block(binds: Map<Seq<char>, Seq<char>>) -> Seq<Seq<char>> {
    seq!["// BINDS\n"@, "unbindall\n"@] + bind_lines(binds) + seq!["\n"@]
}

/// The settings block: a comment and the lines of the changed settings.
pub open spec fn settings_block(
    defaults: Map<Seq<char>, Seq<char>>,
    custom: Map<Seq<char>, Seq<char>>,
) -> Seq<Seq<char>> {
    seq!["// SETTINGS\n"@] + setting_lines(defaults, custom)
}

/// The comment that closes the script. No newline follows it.
pub open spec fn closing_line() -> Seq<char> {
    "// Generated at https://rpeabs.net/cs2autoexec/"@
}

/// What closes the script: a blank line, the echo that confirms the load,
/// and the closing comment.
pub open spec fn footer_lines() -> Seq<Seq<char>> {
    seq!["\n"@, "echo \"--- autoexec loaded ---\"\n"@, closing_line()]
}

/// The lines of the script for the baseline settings `defaults`, the
/// supplied settings `custom` and the binds `binds`, first to last.
pub open spec fn script_lines(
    defaults: Map<Seq<char>, Seq<char>>,
    custom: Map<Seq<char>, Seq<char>>,
    binds: Map<Seq<char>, Seq<char>>,
) -> Seq<Seq<char>> {
    header_lines() + sections_lines(custom, catalog()) + bind_block(binds) + settings_block(
        defaults,
        custom,
    ) + footer_lines()
}

/// The script: its lines, one after the other.
pub open spec fn script(
    defaults: Map<Seq<char>, Seq<char>>,
    custom: Map<Seq<char>, Seq<char>>,
    binds: Map<Seq<char>, Seq<char>>,
) -> Seq<char> {
    script_lines(defaults, custom, binds).flatten()
}

/// The sections of the script, in the order in which they are rendered.
pub fn sections() -> (list: Vec<Section>)
    ensures
        section_views(list@) == catalog(),
{
    let viewmodel = Section {
        name: "VIEWMODEL",
        keys: vec![
            "viewmodel_presetpos",
            "viewmodel_fov",
            "viewmodel_offset_x",
            "viewmodel_offset_y",
            "viewmodel_offset_z",
        ],
    };
    let crosshair = Section {
        name: "CROSSHAIR",
        keys: vec![
            "cl_crosshair_drawoutline",
            "cl_crosshair_dynamic_maxdist_splitratio",
            "cl_crosshair_dynamic_splitalpha_innermod",
            "cl_crosshair_dynamic_splitalpha_outermod",
            "cl_crosshair_dynamic_splitdist",
            "cl_crosshair_outlinethickness",
            "cl_crosshair_recoil",
            "cl_crosshair_sniper_width",
            "cl_crosshair_t",
            "cl_crosshairalpha",
            "cl_crosshaircolor",
            "cl_crosshaircolor_b",
            "cl_crosshaircolor_g",
            "cl_crosshaircolor_r",
            "cl_crosshairdot",
            "cl_crosshairgap",
            "cl_crosshairgap_useweaponvalue",
            "cl_crosshairsize",
            "cl_crosshairstyle",
            "cl_crosshairthickness",
            "cl_crosshairusealpha",
            "cl_fixedcrosshairgap",
        ],
    };
    assert(viewmodel@.keys =~= catalog()[0].keys);
    assert(crosshair@.keys =~= catalog()[1].keys);
    let list = vec![viewmodel, crosshair];
    assert(section_views(list@) =~= catalog());
    list
}

/// Appends the line that sets `key` to `value`.
pub(crate) fn push_line(out: &mut Vec<char>, key: &Vec<char>, value: &Vec<char>)
    ensures
        final(out)@ == old(out)@ + render_line(key@, value@),
{
    push_all(out, key);
    push_str(out, " \"");
    push_all(out, value);
    push_str(out, "\"\n");
    assert(out@ == old(out)@ + render_line(key@, value@));
}

/// Renders the lines of `section` from the values in `config`, or names the
/// first of its keys that `config` lacks.
pub(crate) fn section_block(config: &ConfigMap, section: &Section) -> (result: Result<
    Vec<char>,
    MissingKey,
>)
    ensures
        match first_absent(config@, section@.keys) {
            Some(key) => result matches Err(e) && e@ == (section@.name, key),
            None => result matches Ok(text) && text@ == section_lines(config@, section@).flatten(),
        },
{
    let ghost m = config@;
    let ghost keys = section@.keys;
    let mut text: Vec<char> = Vec::new();
    push_str(&mut text, "// ");
    push_str(&mut text, section.name);
    push_str(&mut text, "\n");
    let ghost title = "// "@ + section.name@ + "\n"@;
    let mut i: usize = 0;
    proof {
        assert(keys.skip(0) == keys);
        assert(key_lines(m, keys.take(0)) == Seq::<Seq<char>>::empty());
        assert(text@ == title + key_lines(m, keys.take(0)).flatten());
    }
    while i < section.keys.len()
        invariant
            i <= section.keys.len(),
            m == config@,
            keys == section@.keys,
            first_absent(m, keys) == first_absent(m, keys.skip(i as int)),
            text@ == title + key_lines(m, keys.take(i as int)).flatten(),
        decreases section.keys.len() - i,
    {
        let key = chars_of(section.keys[i]);
        proof {
            assert(keys.skip(i as int)[0] == key@);
            assert(keys.skip(i as int).skip(1) == keys.skip(i + 1));
            let done = key_lines(m, keys.take(i as int));
            let line = render_line(key@, m[key@]);
            assert(key_lines(m, keys.take(i + 1)) == done.push(line));
            done.lemma_flatten_push(line);
        }
        match config.get_text(&key) {
            Some(value) => {
                push_line(&mut text, &key, value);
            },
            None => {
                return Err(
                    MissingKey { section: section.name.to_owned(), key: section.keys[i].to_owned() },
                );
            },
        }
        i += 1;
    }
    push_str(&mut text, "\n");
    proof {
        assert(keys.take(section.keys.len() as int) == keys);
        let lines = key_lines(m, keys);
        vstd::seq_lib::lemma_flatten_concat(seq![title], lines);
        vstd::seq_lib::lemma_flatten_concat(seq![title] + lines, seq!["\n"@]);
        seq![title].lemma_flatten_singleton();
        seq!["\n"@].lemma_flatten_singleton();
    }
    Ok(text)
}

/// Renders the lines of all sections from the values in `config` and takes
/// their keys out of it. Where `config` lacks a key of a section, the first
/// such key is named and `config` stays as it is.
pub fn write_sections(config: &mut ConfigMap) -> (result: Result<String, MissingKey>)
    ensures
        match first_missing(old(config)@, catalog()) {
            Some(missing) => result matches Err(e) && e@ == missing && final(config)@ == old(
                config,
            )@,
            None => result matches Ok(text) && text@ == sections_lines(
                old(config)@,
                catalog(),
            ).flatten() && final(config)@ == remaining(old(config)@),
        },
{
    let ghost m = config@;
    let list = sections();
    let ghost all = section_views(list@);
    let mut out: Vec<char> = Vec::new();
    let mut i: usize = 0;
    assert(all.skip(0) == all);
    assert(all.take(0) == Seq::<SectionView>::empty());
    while i < list.len()
        invariant
            i <= list.len(),
            config@ == m,
            m == old(config)@,
            all == section_views(list@),
            all == catalog(),
            first_missing(m, all) == first_missing(m, all.skip(i as int)),
            out@ == sections_lines(m, all.take(i as int)).flatten(),
        decreases list.len() - i,
    {
        proof {
            assert(all.skip(i as int)[0] == list@[i as int]@);
            assert(all.skip(i as int).skip(1) == all.skip(i + 1));
            assert(all.take(i + 1).drop_last() == all.take(i as int));
            assert(all.take(i + 1).last() == list@[i as int]@);
            vstd::seq_lib::lemma_flatten_concat(
                sections_lines(m, all.take(i as int)),
                section_lines(m, list@[i as int]@),
            );
        }
        match section_block(config, &list[i]) {
            Ok(text) => {
                push_all(&mut out, &text);
            },
            Err(e) => {
                return Err(e);
            },
        }
        i += 1;
    }
    assert(all.take(list.len() as int) == all);
    i = 0;
    assert(config@ =~= m.remove_keys(section_keys(all.take(0))));
    while i < list.len()
        invariant
            i <= list.len(),
            all == section_views(list@),
            config@ == m.remove_keys(section_keys(all.take(i as int))),
        decreases list.len() - i,
    {
        proof {
            assert(all.take(i + 1).drop_last() == all.take(i as int));
            assert(all.take(i + 1).last() == list@[i as int]@);
        }
        remove_all(config, &list[i].keys);
        assert(config@ =~= m.remove_keys(section_keys(all.take(i + 1))));
        i += 1;
    }
    Ok(string_of(&out))
}

/// The binds of `binds` that are not cleared.
pub(crate) fn bound_binds(binds: &ConfigMap) -> (kept: ConfigMap)
    ensures
        kept@ == bound(binds@),
{
    let marker = chars_of("<unbound>");
    let n = binds.entry_count();
    let ghost es = binds.entries();
    let ghost m = binds@;
    let mut kept = ConfigMap::new();
    let mut i: usize = 0;
    while i < n
        invariant
            i <= n,
            n == es.len(),
            es == binds.entries(),
            m == binds@,
            m == map_of(es),
            distinct_keys(es),
            marker@ == unbound(),
            forall|k: Seq<char>| #[trigger]
                kept@.contains_key(k) ==> bound(m).contains_key(k) && kept@[k] == m[k],
            forall|j: int|
                0 <= j < i && bound(m).contains_key(#[trigger] es[j].key@) ==> kept@.contains_key(
                    es[j].key@,
                ),
        decreases n - i,
    {
        let entry = binds.entry(i);
        proof {
            lemma_map_of_entry(es, i as int);
        }
        if !text_eq(&entry.value, &marker) {
            kept.insert_text(copy_text(&entry.key), copy_text(&entry.value));
        }
        i += 1;
    }
    proof {
        assert forall|k: Seq<char>| bound(m).contains_key(k) implies kept@.contains_key(k) by {
            assert(has_key(es, k));
            let j = key_index(es, k);
            assert(es[j].key@ == k);
        }
        assert(kept@ =~= bound(m));
    }
    kept
}

/// The settings of `custom` for which `defaults` holds another value.
pub(crate) fn changed_settings(custom: &ConfigMap, defaults: &ConfigMap) -> (kept: ConfigMap)
    ensures
        kept@ == changed(custom@, defaults@),
{
    let n = custom.entry_count();
    let ghost es = custom.entries();
    let ghost m = custom@;
    let ghost d = defaults@;
    let mut kept = ConfigMap::new();
    let mut i: usize = 0;
    while i < n
        invariant
            i <= n,
            n == es.len(),
            es == custom.entries(),
            m == custom@,
            d == defaults@,
            m == map_of(es),
            distinct_keys(es),
            forall|k: Seq<char>| #[trigger]
                kept@.contains_key(k) ==> changed(m, d).contains_key(k) && kept@[k] == m[k],
            forall|j: int|
                0 <= j < i && changed(m, d).contains_key(#[trigger] es[j].key@)
                    ==> kept@.contains_key(es[j].key@),
        decreases n - i,
    {
        let entry = custom.entry(i);
        proof {
            lemma_map_of_entry(es, i as int);
        }
        match defaults.get_text(&entry.key) {
            Some(value) => {
                if !text_eq(&entry.value, value) {
                    kept.insert_text(copy_text(&entry.key), copy_text(&entry.value));
                }
            },
            None => {},
        }
        i += 1;
    }
    proof {
        assert forall|k: Seq<char>| changed(m, d).contains_key(k) implies kept@.contains_key(k) by {
            assert(has_key(es, k));
            let j = key_index(es, k);
            assert(es[j].key@ == k);
        }
        assert(kept@ =~= changed(m, d));
    }
    kept
}

/// One line for each entry of `m`, in ascending order of the lines.
pub(crate) fn sorted_block(m: &ConfigMap) -> (lines: Vec<Vec<char>>)
    ensures
        texts(lines@) == sorted_lines(m@),
{
    let n = m.entry_count();
    let ghost es = m.entries();
    let ghost f = line_of(m@);
    let mut lines: Vec<Vec<char>> = Vec::new();
    let mut i: usize = 0;
    assert(texts(lines@) =~= keys_of(es).take(0).map_values(f));
    while i < n
        invariant
            i <= n,
            n == es.len(),
            es == m.entries(),
            m@ == map_of(es),
            distinct_keys(es),
            f == line_of(m@),
            texts(lines@) == keys_of(es).take(i as int).map_values(f),
        decreases n - i,
    {
        let entry = m.entry(i);
        let mut line: Vec<char> = Vec::new();
        push_line(&mut line, &entry.key, &entry.value);
        proof {
            lemma_map_of_entry(es, i as int);
            assert(line@ == f(es[i as int].key@));
        }
        let ghost before = texts(lines@);
        let ghost text = line@;
        lines.push(line);
        proof {
            let keys = keys_of(es);
            assert(texts(lines@) =~= before.push(text));
            assert(keys[i as int] == es[i as int].key@);
            assert(keys.take(i + 1).map_values(f) =~= keys.take(i as int).map_values(f).push(
                f(keys[i as int]),
            ));
        }
        i += 1;
    }
    proof {
        let keys = keys_of(es);
        assert(keys.take(n as int) == keys);
        lemma_keys_of(es);
        lemma_to_seq_no_duplicates(m@.dom());
        lemma_same_elements(keys, m@.dom().to_seq());
        lemma_map_arrangement(keys, m@.dom().to_seq(), f);
    }
    let ghost unsorted = texts(lines@);
    let sorted = sort_lines(lines);
    proof {
        lemma_ascending(unsorted);
        lemma_ascending_unique(texts(sorted@), map_lines(m@));
    }
    sorted
}

/// Appends `lines`, one after the other.
pub(crate) fn push_lines(out: &mut Vec<char>, lines: &Vec<Vec<char>>)
    ensures
        final(out)@ == old(out)@ + texts(lines@).flatten(),
{
    let ghost all = texts(lines@);
    let mut i: usize = 0;
    assert(all.take(0) == Seq::<Seq<char>>::empty());
    assert(out@ == old(out)@ + all.take(0).flatten());
    while i < lines.len()
        invariant
            i <= lines.len(),
            all == texts(lines@),
            out@ == old(out)@ + all.take(i as int).flatten(),
        decreases lines.len() - i,
    {
        push_all(out, &lines[i]);
        proof {
            assert(all.take(i + 1) == all.take(i as int).push(all[i as int]));
            all.take(i as int).lemma_flatten_push(all[i as int]);
            assert(out@ == old(out)@ + all.take(i + 1).flatten());
        }
        i += 1;
    }
    assert(all.take(lines.len() as int) == all);
}

/// Appends the fixed line `line` to the text `out`, which holds `lines` so far.
fn push_fixed(out: &mut Vec<char>, line: &str, Ghost(lines): Ghost<Seq<Seq<char>>>)
    requires
        old(out)@ == lines.flatten(),
    ensures
        final(out)@ == lines.push(line@).flatten(),
{
    push_str(out, line);
    proof {
        lines.lemma_flatten_push(line@);
    }
}

/// Renders the script. The keys of the sections leave `custom_config`;
/// where it lacks one of them, the first such key is named and
/// `custom_config` stays as it is.
pub fn emit(default_config: &ConfigMap, custom_config: &mut ConfigMap, binds: &ConfigMap) -> (result:
    Result<String, MissingKey>)
    ensures
        match first_missing(old(custom_config)@, catalog()) {
            Some(missing) => result matches Err(e) && e@ == missing && final(custom_config)@
                == old(custom_config)@,
            None => result matches Ok(text) && text@ == script(
                default_config@,
                old(custom_config)@,
                binds@,
            ) && final(custom_config)@ == remaining(old(custom_config)@),
        },
{
    let ghost defaults = default_config@;
    let ghost custom = custom_config@;
    let mut out: Vec<char> = Vec::new();
    let ghost mut lines: Seq<Seq<char>> = Seq::empty();
    push_fixed(&mut out, "con_enable \"1\"\n", Ghost(lines));
    proof {
        lines = lines.push("con_enable \"1\"\n"@);
    }
    push_fixed(&mut out, "\n", Ghost(lines));
    proof {
        lines = lines.push("\n"@);
        assert(lines == header_lines());
    }
    match write_sections(custom_config) {
        Ok(text) => {
            push_str(&mut out, text.as_str());
        },
        Err(e) => {
            return Err(e);
        },
    }
    proof {
        vstd::seq_lib::lemma_flatten_concat(lines, sections_lines(custom, catalog()));
        lines = lines + sections_lines(custom, catalog());
    }
    let bind_rows = sorted_block(&bound_binds(binds));
    push_fixed(&mut out, "// BINDS\n", Ghost(lines));
    proof {
        lines = lines.push("// BINDS\n"@);
    }
    push_fixed(&mut out, "unbindall\n", Ghost(lines));
    proof {
        lines = lines.push("unbindall\n"@);
    }
    push_lines(&mut out, &bind_rows);
    proof {
        vstd::seq_lib::lemma_flatten_concat(lines, bind_lines(binds@));
        lines = lines + bind_lines(binds@);
    }
    push_fixed(&mut out, "\n", Ghost(lines));
    proof {
        lines = lines.push("\n"@);
        assert(lines == header_lines() + sections_lines(custom, catalog()) + bind_block(binds@));
    }
    let setting_rows = sorted_block(&changed_settings(custom_config, default_config));
    push_fixed(&mut out, "// SETTINGS\n", Ghost(lines));
    proof {
        lines = lines.push("// SETTINGS\n"@);
    }
    push_lines(&mut out, &setting_rows);
    proof {
        vstd::seq_lib::lemma_flatten_concat(lines, setting_lines(defaults, custom));
        lines = lines + setting_lines(defaults, custom);
        assert(lines == header_lines() + sections_lines(custom, catalog()) + bind_block(binds@)
            + settings_block(defaults, custom));
    }
    push_fixed(&mut out, "\n", Ghost(lines));
    proof {
        lines = lines.push("\n"@);
    }
    push_fixed(&mut out, "echo \"--- autoexec loaded ---\"\n", Ghost(lines));
    proof {
        lines = lines.push("echo \"--- autoexec loaded ---\"\n"@);
    }
    push_fixed(&mut out, "// Generated at https://rpeabs.net/cs2autoexec/", Ghost(lines));
    proof {
        lines = lines.push("// Generated at https://rpeabs.net/cs2autoexec/"@);
        assert(lines == script_lines(defaults, custom, binds@));
    }
    Ok(string_of(&out))
}

} // verus!
