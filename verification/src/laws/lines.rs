//! What a rendered line is made of, and when two of them are the same.

use vstd::prelude::*;
use crate::emit::{map_lines, render_line, sorted_lines};
use crate::laws::parsing::quote_free;
use crate::order::{lemma_ascending, lemma_to_seq_no_duplicates};

verus! {

/// A rendered line is the key, a space, and the value between double quotes,
/// closed by a newline: what stands at position `i` of it.
pub proof fn lemma_render_line_at(key: Seq<char>, value: Seq<char>, i: int)
    ensures
        render_line(key, value).len() == key.len() + value.len() + 4,
        0 <= i < key.len() ==> render_line(key, value)[i] == key[i],
        i == key.len() ==> render_line(key, value)[i] == ' ',
        i == key.len() + 1 ==> render_line(key, value)[i] == '"',
        key.len() + 2 <= i < key.len() + 2 + value.len() ==> render_line(key, value)[i] == value[i
            - key.len() - 2],
        i == key.len() + value.len() + 2 ==> render_line(key, value)[i] == '"',
        i == key.len() + value.len() + 3 ==> render_line(key, value)[i] == '\n',
{
    reveal_strlit(" \"");
    reveal_strlit("\"\n");
    let open = " \""@;
    let close = "\"\n"@;
    assert(open.len() == 2 && open[0] == ' ' && open[1] == '"');
    assert(close.len() == 2 && close[0] == '"' && close[1] == '\n');
}

/// Lines of one length whose keys have one length set the same key to the
/// same value.
pub proof fn lemma_render_line_aligned(
    key: Seq<char>,
    value: Seq<char>,
    other_key: Seq<char>,
    other_value: Seq<char>,
)
    requires
        key.len() == other_key.len(),
        render_line(key, value) == render_line(other_key, other_value),
    ensures
        key == other_key,
        value == other_value,
{
    lemma_render_line_at(key, value, 0);
    lemma_render_line_at(other_key, other_value, 0);
    assert forall|i: int| 0 <= i < key.len() implies key[i] == other_key[i] by {
        lemma_render_line_at(key, value, i);
        lemma_render_line_at(other_key, other_value, i);
    }
    assert(key =~= other_key);
    assert forall|i: int| 0 <= i < value.len() implies value[i] == other_value[i] by {
        lemma_render_line_at(key, value, key.len() + 2 + i);
        lemma_render_line_at(other_key, other_value, key.len() + 2 + i);
    }
    assert(value =~= other_value);
}

/// A line rendered from a key and a value without double quotes is rendered
/// from no other key and value.
pub proof fn lemma_render_line_injective(
    key: Seq<char>,
    value: Seq<char>,
    other_key: Seq<char>,
    other_value: Seq<char>,
)
    requires
        quote_free(key),
        quote_free(value),
        render_line(key, value) == render_line(other_key, other_value),
    ensures
        key == other_key,
        value == other_value,
{
    let at = other_key.len() as int + 1;
    lemma_render_line_at(other_key, other_value, at);
    lemma_render_line_at(key, value, at);
    if at < key.len() {
        assert(key[at] != '"');
    } else if at > key.len() + 1 {
        assert(value[at - key.len() - 2] != '"');
    }
    lemma_render_line_aligned(key, value, other_key, other_value);
}

/// Two lines with values without double quotes are the same line only if
/// they set the same key to the same value.
pub proof fn lemma_render_line_same_value(
    key: Seq<char>,
    value: Seq<char>,
    other_key: Seq<char>,
    other_value: Seq<char>,
)
    requires
        quote_free(value),
        quote_free(other_value),
        render_line(key, value) == render_line(other_key, other_value),
    ensures
        key == other_key,
        value == other_value,
{
    let at = key.len() as int + 1;
    let other_at = other_key.len() as int + 1;
    lemma_render_line_at(key, value, at);
    lemma_render_line_at(other_key, other_value, at);
    lemma_render_line_at(key, value, other_at);
    lemma_render_line_at(other_key, other_value, other_at);
    if value.len() < other_value.len() {
        assert(other_value[at - other_key.len() - 2] != '"');
    } else if other_value.len() < value.len() {
        assert(value[other_at - key.len() - 2] != '"');
    }
    lemma_render_line_aligned(key, value, other_key, other_value);
}

/// The sorted lines of a finite map are the lines of its entries.
pub proof fn lemma_sorted_lines_contains(m: Map<Seq<char>, Seq<char>>, line: Seq<char>)
    requires
        m.dom().finite(),
    ensures
        sorted_lines(m).contains(line) <==> exists|key: Seq<char>|
            m.contains_key(key) && line == render_line(key, m[key]),
{
    let keys = m.dom().to_seq();
    let lines = map_lines(m);
    lemma_to_seq_no_duplicates(m.dom());
    lemma_ascending(lines);
    vstd::seq_lib::to_multiset_contains(lines, line);
    vstd::seq_lib::to_multiset_contains(sorted_lines(m), line);
    if lines.contains(line) {
        let i = choose|i: int| 0 <= i < lines.len() && lines[i] == line;
        assert(keys.to_set().contains(keys[i]));
        assert(m.contains_key(keys[i]) && line == render_line(keys[i], m[keys[i]]));
    }
    if exists|key: Seq<char>| m.contains_key(key) && line == render_line(key, m[key]) {
        let key = choose|key: Seq<char>| m.contains_key(key) && line == render_line(key, m[key]);
        assert(keys.to_set().contains(key));
        let i = choose|i: int| 0 <= i < keys.len() && keys[i] == key;
        assert(lines[i] == line);
    }
}

} // verus!
