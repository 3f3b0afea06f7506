//! Sorting lines into ascending lexicographic order.

use vstd::prelude::*;
use vstd::multiset::Multiset;
use vstd::relations::{sorted_by, total_ordering};
use vstd::seq_lib::{lemma_sorted_unique, to_multiset_insert, to_multiset_build};
use crate::text::{lex_le, lex_le_exec};

verus! {

/// The order in which lines are emitted: `lex_le`, as a relation.
pub open spec fn line_order() -> spec_fn(Seq<char>, Seq<char>) -> bool {
    |a: Seq<char>, b: Seq<char>| lex_le(a, b)
}

/// Whether each line of `lines` is `lex_le` every line after it.
pub open spec fn is_ascending(lines: Seq<Seq<char>>) -> bool {
    forall|i: int, j: int| 0 <= i < j < lines.len() ==> lex_le(#[trigger] lines[i], #[trigger] lines[j])
}

/// The lines of `lines`, each as often as it occurs there, in ascending order.
pub open spec fn ascending(lines: Seq<Seq<char>>) -> Seq<Seq<char>> {
    lines.sort_by(line_order())
}

/// The texts held by a vector of lines.
pub(crate) open spec fn texts(lines: Seq<Vec<char>>) -> Seq<Seq<char>> {
    Seq::new(lines.len(), |i: int| lines[i]@)
}

/// Every text is `lex_le` itself.
pub proof fn lemma_lex_le_reflexive(a: Seq<char>)
    ensures
        lex_le(a, a),
    decreases a.len(),
{
    if a.len() > 0 {
        lemma_lex_le_reflexive(a.drop_first());
    }
}

/// Two texts that are `lex_le` each other are one text.
pub proof fn lemma_lex_le_antisymmetric(a: Seq<char>, b: Seq<char>)
    requires
        lex_le(a, b),
        lex_le(b, a),
    ensures
        a == b,
    decreases a.len(),
{
    if a.len() > 0 && b.len() > 0 {
        lemma_lex_le_antisymmetric(a.drop_first(), b.drop_first());
        assert(a == seq![a[0]] + a.drop_first());
        assert(b == seq![b[0]] + b.drop_first());
    } else {
        assert(a == b);
    }
}

/// `lex_le` carries over from one text through a second to a third.
pub proof fn lemma_lex_le_transitive(a: Seq<char>, b: Seq<char>, c: Seq<char>)
    requires
        lex_le(a, b),
        lex_le(b, c),
    ensures
        lex_le(a, c),
    decreases a.len(),
{
    if a.len() > 0 && b.len() > 0 && c.len() > 0 && a[0] == b[0] && b[0] == c[0] {
        lemma_lex_le_transitive(a.drop_first(), b.drop_first(), c.drop_first());
    }
}

/// Of two texts one is `lex_le` the other.
pub proof fn lemma_lex_le_total(a: Seq<char>, b: Seq<char>)
    ensures
        lex_le(a, b) || lex_le(b, a),
    decreases a.len(),
{
    if a.len() > 0 && b.len() > 0 && a[0] == b[0] {
        lemma_lex_le_total(a.drop_first(), b.drop_first());
    }
}

/// `lex_le` is a total order on texts.
pub proof fn lemma_line_order_total()
    ensures
        total_ordering(line_order()),
{
    let r = line_order();
    assert forall|x: Seq<char>| #[trigger] r(x, x) by {
        lemma_lex_le_reflexive(x);
    }
    assert forall|x: Seq<char>, y: Seq<char>| #[trigger] r(x, y) && #[trigger] r(y, x) implies x
        == y by {
        lemma_lex_le_antisymmetric(x, y);
    }
    assert forall|x: Seq<char>, y: Seq<char>, z: Seq<char>| #[trigger]
        r(x, y) && #[trigger] r(y, z) implies r(x, z) by {
        lemma_lex_le_transitive(x, y, z);
    }
    assert forall|x: Seq<char>, y: Seq<char>| #[trigger] r(x, y) || #[trigger] r(y, x) by {
        lemma_lex_le_total(x, y);
    }
}

/// `ascending(lines)` is in ascending order and holds each line as often as
/// `lines` does.
pub proof fn lemma_ascending(lines: Seq<Seq<char>>)
    ensures
        is_ascending(ascending(lines)),
        ascending(lines).to_multiset() == lines.to_multiset(),
        ascending(lines).len() == lines.len(),
{
    lemma_line_order_total();
    lines.lemma_sort_by_ensures(line_order());
    let sorted = ascending(lines);
    assert forall|i: int, j: int| 0 <= i < j < sorted.len() implies lex_le(
        #[trigger] sorted[i],
        #[trigger] sorted[j],
    ) by {
        assert(line_order()(sorted[i], sorted[j]));
    }
    vstd::seq_lib::to_multiset_len(lines);
    vstd::seq_lib::to_multiset_len(sorted);
}

/// The ascending arrangement of a collection of lines is unique.
pub proof fn lemma_ascending_unique(sorted: Seq<Seq<char>>, lines: Seq<Seq<char>>)
    requires
        is_ascending(sorted),
        sorted.to_multiset() == lines.to_multiset(),
    ensures
        sorted == ascending(lines),
{
    lemma_line_order_total();
    lemma_ascending(lines);
    let other = ascending(lines);
    assert(sorted_by(sorted, line_order())) by {
        assert forall|i: int, j: int| 0 <= i < j < sorted.len() implies #[trigger] line_order()(
            sorted[i],
            sorted[j],
        ) by {
            assert(lex_le(sorted[i], sorted[j]));
        }
    }
    assert(sorted_by(other, line_order())) by {
        assert forall|i: int, j: int| 0 <= i < j < other.len() implies #[trigger] line_order()(
            other[i],
            other[j],
        ) by {
            assert(lex_le(other[i], other[j]));
        }
    }
    lemma_sorted_unique(sorted, other, line_order());
}

/// The sequence that `Set::to_seq` picks for a finite set holds each element
/// of the set once.
pub proof fn lemma_to_seq_no_duplicates<A>(s: Set<A>)
    requires
        s.finite(),
    ensures
        s.to_seq().no_duplicates(),
        s.to_seq().to_set() == s,
    decreases s.len(),
{
    s.lemma_to_seq_to_set_id();
    if s.len() != 0 {
        let x = s.choose();
        let rest = s.remove(x).to_seq();
        lemma_to_seq_no_duplicates(s.remove(x));
        assert(!rest.contains(x)) by {
            assert(rest.to_set() == s.remove(x));
            if rest.contains(x) {
                assert(rest.to_set().contains(x));
            }
        }
        let all = s.to_seq();
        assert(all == seq![x] + rest);
        assert forall|i: int, j: int| 0 <= i < all.len() && 0 <= j < all.len() && i != j implies all[i]
            != all[j] by {
            if i > 0 {
                assert(all[i] == rest[i - 1]);
            }
            if j > 0 {
                assert(all[j] == rest[j - 1]);
            }
        }
    }
}

/// Two sequences without duplicates that hold the same elements hold each of
/// them equally often.
pub proof fn lemma_same_elements<A>(a: Seq<A>, b: Seq<A>)
    requires
        a.no_duplicates(),
        b.no_duplicates(),
        a.to_set() == b.to_set(),
    ensures
        a.to_multiset() == b.to_multiset(),
{
    broadcast use vstd::multiset::group_multiset_axioms;

    a.lemma_multiset_has_no_duplicates();
    b.lemma_multiset_has_no_duplicates();
    assert forall|x: A| a.to_multiset().count(x) == b.to_multiset().count(x) by {
        vstd::seq_lib::to_multiset_contains(a, x);
        vstd::seq_lib::to_multiset_contains(b, x);
        assert(a.contains(x) <==> a.to_set().contains(x));
        assert(b.contains(x) <==> b.to_set().contains(x));
    }
    assert(a.to_multiset() =~= b.to_multiset());
}

/// Mapping two arrangements of the same elements gives two arrangements of
/// the same images.
pub proof fn lemma_map_arrangement<A, B>(a: Seq<A>, b: Seq<A>, f: spec_fn(A) -> B)
    requires
        a.to_multiset() == b.to_multiset(),
    ensures
        a.map_values(f).to_multiset() == b.map_values(f).to_multiset(),
    decreases a.len(),
{
    broadcast use vstd::multiset::group_multiset_axioms;

    vstd::seq_lib::to_multiset_len(a);
    vstd::seq_lib::to_multiset_len(b);
    if a.len() == 0 {
        assert(a.map_values(f) =~= b.map_values(f));
    } else {
        let x = a.last();
        let front = a.drop_last();
        assert(a == front.push(x));
        to_multiset_build(front, x);
        vstd::seq_lib::to_multiset_contains(b, x);
        assert(b.to_multiset().count(x) > 0);
        let j = choose|j: int| 0 <= j < b.len() && b[j] == x;
        let others = b.remove(j);
        vstd::seq_lib::to_multiset_remove(b, j);
        assert(front.to_multiset() =~= a.to_multiset().remove(x));
        lemma_map_arrangement(front, others, f);
        assert(a.map_values(f) =~= front.map_values(f).push(f(x)));
        assert(b.map_values(f) =~= others.map_values(f).insert(j, f(x)));
        to_multiset_build(front.map_values(f), f(x));
        to_multiset_insert(others.map_values(f), j, f(x));
    }
}

/// No lines make the empty multiset.
proof fn lemma_no_lines(lines: Seq<Seq<char>>)
    requires
        lines.len() == 0,
    ensures
        lines.to_multiset() == Multiset::<Seq<char>>::empty(),
{
    broadcast use vstd::multiset::group_multiset_axioms;

    vstd::seq_lib::to_multiset_len(lines);
    assert(lines.to_multiset() =~= Multiset::<Seq<char>>::empty());
}

/// Puts `line` into the ascending `lines` so that they stay ascending.
pub(crate) fn insert_ascending(lines: &mut Vec<Vec<char>>, line: Vec<char>)
    requires
        is_ascending(texts(old(lines)@)),
    ensures
        is_ascending(texts(final(lines)@)),
        texts(final(lines)@).to_multiset() == texts(old(lines)@).to_multiset().insert(line@),
{
    let ghost before = texts(lines@);
    let ghost new = line@;
    let mut at: usize = 0;
    while at < lines.len() && lex_le_exec(&lines[at], &line)
        invariant
            at <= lines.len(),
            lines@ == old(lines)@,
            before == texts(lines@),
            new == line@,
            forall|j: int| 0 <= j < at ==> lex_le(#[trigger] before[j], new),
        decreases lines.len() - at,
    {
        assert(before[at as int] == lines@[at as int]@);
        at += 1;
    }
    proof {
        if at < lines.len() {
            assert(before[at as int] == lines@[at as int]@);
            lemma_lex_le_total(before[at as int], new);
        }
    }
    lines.insert(at, line);
    proof {
        let after = texts(lines@);
        assert(after =~= before.insert(at as int, new));
        to_multiset_insert(before, at as int, new);
        assert forall|i: int, j: int| 0 <= i < j < after.len() implies lex_le(
            #[trigger] after[i],
            #[trigger] after[j],
        ) by {
            if j < at {
                assert(after[i] == before[i] && after[j] == before[j]);
            } else if j == at {
                assert(after[i] == before[i]);
            } else if i < at {
                assert(after[i] == before[i] && after[j] == before[j - 1]);
                if at < j - 1 {
                    assert(lex_le(before[at as int], before[j - 1]));
                } else {
                    lemma_lex_le_reflexive(before[at as int]);
                }
                lemma_lex_le_transitive(before[i], new, before[at as int]);
                lemma_lex_le_transitive(before[i], before[at as int], before[j - 1]);
            } else if i == at {
                assert(after[j] == before[j - 1]);
                if at < j - 1 {
                    assert(lex_le(before[at as int], before[j - 1]));
                    lemma_lex_le_transitive(new, before[at as int], before[j - 1]);
                }
            } else {
                assert(after[i] == before[i - 1] && after[j] == before[j - 1]);
            }
        }
    }
}

/// Sorts `lines` into ascending order.
pub(crate) fn sort_lines(lines: Vec<Vec<char>>) -> (sorted: Vec<Vec<char>>)
    ensures
        texts(sorted@) == ascending(texts(lines@)),
{
    let ghost all = texts(lines@);
    let mut rest = lines;
    let mut sorted: Vec<Vec<char>> = Vec::new();
    assert(texts(sorted@).to_multiset().add(texts(rest@).to_multiset()) =~= all.to_multiset()) by {
        lemma_no_lines(texts(sorted@));
    }
    while rest.len() > 0
        invariant
            is_ascending(texts(sorted@)),
            texts(sorted@).to_multiset().add(texts(rest@).to_multiset()) == all.to_multiset(),
        decreases rest.len(),
    {
        let ghost rest_before = texts(rest@);
        let line = rest.pop().unwrap();
        proof {
            assert(rest_before =~= texts(rest@).push(line@));
            to_multiset_build(texts(rest@), line@);
        }
        let ghost sorted_before = texts(sorted@);
        insert_ascending(&mut sorted, line);
        assert(texts(sorted@).to_multiset().add(texts(rest@).to_multiset())
            =~= sorted_before.to_multiset().add(rest_before.to_multiset()));
    }
    proof {
        lemma_no_lines(texts(rest@));
        assert(texts(sorted@).to_multiset() =~= all.to_multiset());
        lemma_ascending_unique(texts(sorted@), all);
    }
    sorted
}

} // verus!
