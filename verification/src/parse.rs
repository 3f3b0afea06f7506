//! The line parser: from a text dump to the entries of a `ConfigMap`.
//!
//! Each line is read on its own. A line with at least four double quotes
//! gives a key (between the first and the second quote, cut at the first `$`)
//! and a value (between the third and the fourth quote); any other line gives
//! nothing. Later lines overwrite earlier ones.

use vstd::prelude::*;
use crate::config_map::ConfigMap;
use crate::order::texts;
use crate::text::{chars_of, copy_range, find, find_in, lemma_find, lemma_find_is, push_all, push_str};

verus! {

/// The key without its suffix: what stands before the first `$`.
pub open spec fn strip_key(key: Seq<char>) -> Seq<char> {
    key.take(find(key, '$', 0))
}

/// The key and the value that `line` sets, if it holds four double quotes.
pub open spec fn parse_line(line: Seq<char>) -> Option<(Seq<char>, Seq<char>)> {
    let q1 = find(line, '"', 0);
    let q2 = find(line, '"', q1 + 1);
    let q3 = find(line, '"', q2 + 1);
    let q4 = find(line, '"', q3 + 1);
    if q4 < line.len() {
        Some((strip_key(line.subrange(q1 + 1, q2)), line.subrange(q3 + 1, q4)))
    } else {
        None
    }
}

/// The key under which the bind of the input key `name` is stored.
pub open spec fn bind_key(name: Seq<char>) -> Seq<char> {
    "bind \""@ + name + "\""@
}

/// The key under which a parsed key is stored: wrapped in bind mode, as it is
/// in setting mode.
pub open spec fn stored_key(binds: bool, key: Seq<char>) -> Seq<char> {
    if binds {
        bind_key(key)
    } else {
        key
    }
}

/// The map `m` after `line` has been read.
pub open spec fn with_line(m: Map<Seq<char>, Seq<char>>, binds: bool, line: Seq<char>) -> Map<
    Seq<char>,
    Seq<char>,
> {
    match parse_line(line) {
        Some((key, value)) => m.insert(stored_key(binds, key), value),
        None => m,
    }
}

/// The map `m` after `lines` have been read, first to last.
pub open spec fn with_lines(
    m: Map<Seq<char>, Seq<char>>,
    binds: bool,
    lines: Seq<Seq<char>>,
) -> Map<Seq<char>, Seq<char>>
    decreases lines.len(),
{
    if lines.len() == 0 {
        m
    } else {
        with_line(with_lines(m, binds, lines.drop_last()), binds, lines.last())
    }
}

/// The pieces of `text` between its newline characters.
pub open spec fn lines_of(text: Seq<char>) -> Seq<Seq<char>>
    decreases text.len(),
    via lines_of_decreases
{
    let end = find(text, '\n', 0);
    if end >= text.len() {
        seq![text]
    } else {
        seq![text.take(end)] + lines_of(text.skip(end + 1))
    }
}

/// What follows the first newline is shorter than the text.
#[via_fn]
proof fn lines_of_decreases(text: Seq<char>) {
    lemma_find(text, '\n', 0);
}

/// The map `m` after every line of `text` has been read.
pub open spec fn with_text(m: Map<Seq<char>, Seq<char>>, binds: bool, text: Seq<char>) -> Map<
    Seq<char>,
    Seq<char>,
> {
    with_lines(m, binds, lines_of(text))
}

/// Searching from `from` is searching the rest of the text from its start.
pub proof fn lemma_find_skip(s: Seq<char>, c: char, from: int)
    requires
        0 <= from <= s.len(),
    ensures
        find(s.skip(from), c, 0) == find(s, c, from) - from,
{
    lemma_find(s, c, from);
    let at = find(s, c, from);
    let rest = s.skip(from);
    assert forall|i: int| 0 <= i < at - from implies rest[i] != c by {
        assert(rest[i] == s[from + i]);
    }
    lemma_find_is(rest, c, 0, at - from);
}

/// Reading one more line is `with_line` on what the lines before it gave.
pub proof fn lemma_with_lines_push(
    m: Map<Seq<char>, Seq<char>>,
    binds: bool,
    lines: Seq<Seq<char>>,
    line: Seq<char>,
)
    ensures
        with_lines(m, binds, lines.push(line)) == with_line(with_lines(m, binds, lines), binds, line),
{
    assert(lines.push(line).drop_last() == lines);
}

/// Cuts `text` at its newline characters.
pub(crate) fn split_lines(text: &Vec<char>) -> (lines: Vec<Vec<char>>)
    ensures
        texts(lines@) == lines_of(text@),
{
    let mut lines: Vec<Vec<char>> = Vec::new();
    let mut start: usize = 0;
    assert(text@.skip(0) == text@);
    assert(texts(lines@) + lines_of(text@.skip(0)) == lines_of(text@));
    loop
        invariant_except_break
            start <= text.len(),
            texts(lines@) + lines_of(text@.skip(start as int)) == lines_of(text@),
        ensures
            texts(lines@) == lines_of(text@),
        decreases text.len() - start,
    {
        let ghost rest = text@.skip(start as int);
        let ghost done = texts(lines@);
        let end = find_in(text, '\n', start, text.len());
        proof {
            assert(text@.take(text.len() as int) == text@);
            lemma_find_skip(text@, '\n', start as int);
            assert(text@.subrange(start as int, end as int) == rest.take(end - start));
        }
        lines.push(copy_range(text, start, end));
        assert(texts(lines@) == done.push(rest.take(end - start)));
        if end >= text.len() {
            assert(rest.take(end - start) == rest);
            assert(done.push(rest) == done + seq![rest]);
            break;
        }
        proof {
            assert(rest.skip(end - start + 1) == text@.skip(end + 1));
            assert(done.push(rest.take(end - start)) + lines_of(text@.skip(end + 1)) == done + (
            seq![rest.take(end - start)] + lines_of(rest.skip(end - start + 1))));
        }
        start = end + 1;
    }
    lines
}

/// Reads one line: its key, cut at the first `$`, and its value.
pub(crate) fn read_line(line: &Vec<char>) -> (entry: Option<(Vec<char>, Vec<char>)>)
    ensures
        match entry {
            Some((key, value)) => parse_line(line@) == Some((key@, value@)),
            None => parse_line(line@).is_none(),
        },
{
    let n = line.len();
    assert(line@.take(n as int) == line@);
    proof {
        lemma_find(line@, '"', 0);
    }
    let q1 = find_in(line, '"', 0, n);
    if q1 >= n {
        return None;
    }
    let q2 = find_in(line, '"', q1 + 1, n);
    if q2 >= n {
        return None;
    }
    let q3 = find_in(line, '"', q2 + 1, n);
    if q3 >= n {
        return None;
    }
    let q4 = find_in(line, '"', q3 + 1, n);
    if q4 >= n {
        return None;
    }
    let mut key = copy_range(line, q1 + 1, q2);
    let cut = find_in(&key, '$', 0, key.len());
    assert(key@.take(key.len() as int) == key@);
    key.truncate(cut);
    assert(key@ == strip_key(line@.subrange(q1 + 1, q2 as int)));
    let value = copy_range(line, q3 + 1, q4);
    Some((key, value))
}

/// Reads `config_file1` and then `config_file2` into `map`, line by line. In
/// bind mode (`binds`) each key is stored as `bind "<key>"`.
pub fn add_to_config(map: &mut ConfigMap, binds: bool, config_file1: &str, config_file2: &str)
    ensures
        final(map)@ == with_text(with_text(old(map)@, binds, config_file1@), binds, config_file2@),
{
    add_text(map, binds, config_file1);
    add_text(map, binds, config_file2);
}

/// Reads `text` into `map`, line by line.
pub(crate) fn add_text(map: &mut ConfigMap, binds: bool, text: &str)
    ensures
        final(map)@ == with_text(old(map)@, binds, text@),
{
    let chars = chars_of(text);
    let lines = split_lines(&chars);
    let ghost all = texts(lines@);
    let mut i: usize = 0;
    assert(all.take(0) == Seq::<Seq<char>>::empty());
    while i < lines.len()
        invariant
            i <= lines.len(),
            all == texts(lines@),
            map@ == with_lines(old(map)@, binds, all.take(i as int)),
        decreases lines.len() - i,
    {
        proof {
            assert(all.take(i + 1) == all.take(i as int).push(all[i as int]));
            lemma_with_lines_push(old(map)@, binds, all.take(i as int), all[i as int]);
        }
        match read_line(&lines[i]) {
            Some((key, value)) => {
                if binds {
                    let mut stored: Vec<char> = Vec::new();
                    push_str(&mut stored, "bind \"");
                    push_all(&mut stored, &key);
                    push_str(&mut stored, "\"");
                    map.insert_text(stored, value);
                } else {
                    map.insert_text(key, value);
                }
            },
            None => {},
        }
        i += 1;
    }
    assert(all.take(lines.len() as int) == all);
}

} // verus!
