//! What the line parser reads: which lines set a key, how keys are cut, and
//! which line decides where several set one key.

use vstd::prelude::*;
use crate::parse::{lines_of, parse_line, stored_key, strip_key, with_line, with_lines, with_text};
use crate::text::{find, lemma_find, lemma_find_is};

verus! {

/// How often `c` occurs in `s`.
pub open spec fn count(s: Seq<char>, c: char) -> nat
    decreases s.len(),
{
    if s.len() == 0 {
        0
    } else if s[0] == c {
        1 + count(s.drop_first(), c)
    } else {
        count(s.drop_first(), c)
    }
}

/// From `from` on, `c` does not occur if `find` reaches the end, and else
/// occurs once more than after the position that `find` returns.
pub proof fn lemma_count_find(s: Seq<char>, c: char, from: int)
    requires
        0 <= from <= s.len(),
    ensures
        find(s, c, from) >= s.len() ==> count(s.skip(from), c) == 0,
        find(s, c, from) < s.len() ==> count(s.skip(from), c) == 1 + count(
            s.skip(find(s, c, from) + 1),
            c,
        ),
    decreases s.len() - from,
{
    let rest = s.skip(from);
    if from < s.len() {
        assert(rest[0] == s[from]);
        assert(rest.drop_first() == s.skip(from + 1));
        if s[from] != c {
            lemma_count_find(s, c, from + 1);
        }
    }
}

/// A line sets a key exactly if it holds at least four double quotes.
pub proof fn lemma_parse_line_counts_quotes(line: Seq<char>)
    ensures
        parse_line(line) is Some <==> count(line, '"') >= 4,
{
    let n = line.len() as int;
    assert(line.skip(0) == line);
    lemma_find(line, '"', 0);
    lemma_count_find(line, '"', 0);
    let q1 = find(line, '"', 0);
    lemma_find(line, '"', q1 + 1);
    let q2 = find(line, '"', q1 + 1);
    lemma_find(line, '"', q2 + 1);
    let q3 = find(line, '"', q2 + 1);
    lemma_find(line, '"', q3 + 1);
    if q1 < n {
        lemma_count_find(line, '"', q1 + 1);
        if q2 < n {
            lemma_count_find(line, '"', q2 + 1);
            if q3 < n {
                lemma_count_find(line, '"', q3 + 1);
            }
        }
    }
}

/// A line with fewer than four double quotes adds no entry: the map stays
/// as it is.
pub proof fn lemma_short_line_adds_nothing(
    m: Map<Seq<char>, Seq<char>>,
    binds: bool,
    line: Seq<char>,
)
    requires
        count(line, '"') < 4,
    ensures
        with_line(m, binds, line) == m,
{
    lemma_parse_line_counts_quotes(line);
}

/// Lines with fewer than four double quotes each add no entry.
pub proof fn lemma_short_lines_add_nothing(
    m: Map<Seq<char>, Seq<char>>,
    binds: bool,
    lines: Seq<Seq<char>>,
)
    requires
        forall|i: int| 0 <= i < lines.len() ==> count(#[trigger] lines[i], '"') < 4,
    ensures
        with_lines(m, binds, lines) == m,
    decreases lines.len(),
{
    if lines.len() > 0 {
        let front = lines.drop_last();
        assert forall|i: int| 0 <= i < front.len() implies count(#[trigger] front[i], '"') < 4 by {
            assert(front[i] == lines[i]);
        }
        lemma_short_lines_add_nothing(m, binds, front);
        assert(count(lines[lines.len() - 1], '"') < 4);
        lemma_short_line_adds_nothing(m, binds, lines.last());
    }
}

/// A line that holds a key between its first two double quotes and a value
/// between the next two sets that key, cut at its first `$`, to that value,
/// whatever stands before, between and after them.
pub proof fn lemma_parse_line_reads_first_four_quotes(
    before: Seq<char>,
    key: Seq<char>,
    between: Seq<char>,
    value: Seq<char>,
    after: Seq<char>,
)
    requires
        quote_free(before),
        quote_free(key),
        quote_free(between),
        quote_free(value),
    ensures
        parse_line(
            before + seq!['"'] + key + seq!['"'] + between + seq!['"'] + value + seq!['"'] + after,
        ) == Some((strip_key(key), value)),
{
    let quote = seq!['"'];
    let line = before + quote + key + quote + between + quote + value + quote + after;
    let q1 = before.len() as int;
    let q2 = q1 + 1 + key.len();
    let q3 = q2 + 1 + between.len();
    let q4 = q3 + 1 + value.len();
    assert(line[q1] == '"' && line[q2] == '"' && line[q3] == '"' && line[q4] == '"');
    assert forall|i: int| 0 <= i < q1 implies line[i] != '"' by {
        assert(line[i] == before[i]);
    }
    assert forall|i: int| q1 + 1 <= i < q2 implies line[i] != '"' by {
        assert(line[i] == key[i - q1 - 1]);
    }
    assert forall|i: int| q2 + 1 <= i < q3 implies line[i] != '"' by {
        assert(line[i] == between[i - q2 - 1]);
    }
    assert forall|i: int| q3 + 1 <= i < q4 implies line[i] != '"' by {
        assert(line[i] == value[i - q3 - 1]);
    }
    lemma_find_is(line, '"', 0, q1);
    lemma_find_is(line, '"', q1 + 1, q2);
    lemma_find_is(line, '"', q2 + 1, q3);
    lemma_find_is(line, '"', q3 + 1, q4);
    assert(line.subrange(q1 + 1, q2) == key);
    assert(line.subrange(q3 + 1, q4) == value);
}

/// A key is cut at its first `$`: `name$suffix` is stored as `name`, and so
/// is `name` itself.
pub proof fn lemma_strip_key_cuts_suffix(name: Seq<char>, suffix: Seq<char>)
    requires
        !name.contains('$'),
    ensures
        strip_key(name + seq!['$'] + suffix) == name,
        strip_key(name) == name,
{
    let long = name + seq!['$'] + suffix;
    assert forall|i: int| 0 <= i < name.len() implies name[i] != '$' && long[i] != '$' by {
        assert(name.contains(name[i]));
        assert(long[i] == name[i]);
    }
    assert(long[name.len() as int] == '$');
    lemma_find_is(long, '$', 0, name.len() as int);
    lemma_find_is(name, '$', 0, name.len() as int);
    assert(long.take(name.len() as int) == name);
    assert(name.take(name.len() as int) == name);
}

/// Whether `line` sets the stored key `key`.
pub open spec fn sets_key(binds: bool, line: Seq<char>, key: Seq<char>) -> bool {
    parse_line(line) matches Some((k, _)) && stored_key(binds, k) == key
}

/// Of the lines that set a key, the last one decides its value.
pub proof fn lemma_last_line_wins(
    m: Map<Seq<char>, Seq<char>>,
    binds: bool,
    lines: Seq<Seq<char>>,
    at: int,
    key: Seq<char>,
)
    requires
        0 <= at < lines.len(),
        sets_key(binds, lines[at], key),
        forall|j: int| at < j < lines.len() ==> !sets_key(binds, #[trigger] lines[j], key),
    ensures
        with_lines(m, binds, lines).contains_key(key),
        parse_line(lines[at]) matches Some((_, value)) && with_lines(m, binds, lines)[key]
            == value,
    decreases lines.len(),
{
    let front = lines.drop_last();
    if at < lines.len() - 1 {
        assert(front[at] == lines[at]);
        assert forall|j: int| at < j < front.len() implies !sets_key(
            binds,
            #[trigger] front[j],
            key,
        ) by {
            assert(front[j] == lines[j]);
        }
        lemma_last_line_wins(m, binds, front, at, key);
        assert(!sets_key(binds, lines[lines.len() - 1], key));
    }
}

/// A key that no line sets keeps what it had.
pub proof fn lemma_unset_key_stays(
    m: Map<Seq<char>, Seq<char>>,
    binds: bool,
    lines: Seq<Seq<char>>,
    key: Seq<char>,
)
    requires
        forall|j: int| 0 <= j < lines.len() ==> !sets_key(binds, #[trigger] lines[j], key),
    ensures
        with_lines(m, binds, lines).contains_key(key) == m.contains_key(key),
        with_lines(m, binds, lines)[key] == m[key],
    decreases lines.len(),
{
    if lines.len() > 0 {
        let front = lines.drop_last();
        assert forall|j: int| 0 <= j < front.len() implies !sets_key(
            binds,
            #[trigger] front[j],
            key,
        ) by {
            assert(front[j] == lines[j]);
        }
        lemma_unset_key_stays(m, binds, front, key);
        assert(!sets_key(binds, lines[lines.len() - 1], key));
    }
}

/// Whether `s` holds no double quote.
pub open spec fn quote_free(s: Seq<char>) -> bool {
    forall|i: int| 0 <= i < s.len() ==> s[i] != '"'
}

/// The key and the value of a line hold no double quote.
pub proof fn lemma_parse_line_quote_free(line: Seq<char>)
    ensures
        parse_line(line) matches Some((key, value)) ==> quote_free(key) && quote_free(value),
{
    let n = line.len() as int;
    lemma_find(line, '"', 0);
    let q1 = find(line, '"', 0);
    lemma_find(line, '"', q1 + 1);
    let q2 = find(line, '"', q1 + 1);
    lemma_find(line, '"', q2 + 1);
    let q3 = find(line, '"', q2 + 1);
    lemma_find(line, '"', q3 + 1);
    let q4 = find(line, '"', q3 + 1);
    if q4 < n {
        let raw = line.subrange(q1 + 1, q2);
        lemma_find(raw, '$', 0);
        let key = strip_key(raw);
        assert forall|i: int| 0 <= i < key.len() implies key[i] != '"' by {
            assert(key[i] == line[q1 + 1 + i]);
        }
        let value = line.subrange(q3 + 1, q4);
        assert forall|i: int| 0 <= i < value.len() implies value[i] != '"' by {
            assert(value[i] == line[q3 + 1 + i]);
        }
    }
}

/// Whether `m` is finite and none of its values holds a double quote.
pub open spec fn plain_values(m: Map<Seq<char>, Seq<char>>) -> bool {
    &&& m.dom().finite()
    &&& forall|key: Seq<char>| m.contains_key(key) ==> quote_free(#[trigger] m[key])
}

/// Whether none of the keys of `m` holds a double quote.
pub open spec fn plain_keys(m: Map<Seq<char>, Seq<char>>) -> bool {
    forall|key: Seq<char>| #[trigger] m.contains_key(key) ==> quote_free(key)
}

/// Reading lines keeps a map finite and its values free of double quotes,
/// and in setting mode its keys too.
pub proof fn lemma_with_lines_plain(
    m: Map<Seq<char>, Seq<char>>,
    binds: bool,
    lines: Seq<Seq<char>>,
)
    requires
        plain_values(m),
    ensures
        plain_values(with_lines(m, binds, lines)),
        !binds && plain_keys(m) ==> plain_keys(with_lines(m, binds, lines)),
    decreases lines.len(),
{
    if lines.len() > 0 {
        lemma_with_lines_plain(m, binds, lines.drop_last());
        lemma_parse_line_quote_free(lines.last());
    }
}

/// The settings and the binds that are parsed from dumps are finite, and
/// their values hold no double quote; nor do the keys of settings.
pub proof fn lemma_with_text_plain(m: Map<Seq<char>, Seq<char>>, binds: bool, text: Seq<char>)
    requires
        plain_values(m),
    ensures
        plain_values(with_text(m, binds, text)),
        !binds && plain_keys(m) ==> plain_keys(with_text(m, binds, text)),
{
    lemma_with_lines_plain(m, binds, lines_of(text));
}

} // verus!
