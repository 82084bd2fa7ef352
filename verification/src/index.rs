//! What the index means, over sequences of entry views: when an entry is
//! turned away, and in what order entries stand once sorted by usage.

use crate::entry::EntryView;
use crate::sorting::{are_inverse, is_rearranged, is_strictly_rising, lemma_rising_agree};
use crate::text::{lemma_text_le_antisymmetric, lowercase_of, text_le};
use vstd::prelude::*;

verus! {

/// The text by which labels are compared: the label in lower case.
pub open spec fn name_key(entry: EntryView) -> Seq<char> {
    lowercase_of(entry.name)
}

/// Some entry of `entries` is launched by `id`.
pub open spec fn has_id(entries: Seq<EntryView>, id: Seq<char>) -> bool {
    exists|i: int| 0 <= i < entries.len() && (#[trigger] entries[i]).parse_name == id
}

/// Some entry of `entries` has the label `name`, letter case left aside.
pub open spec fn has_name(entries: Seq<EntryView>, name: Seq<char>) -> bool {
    exists|i: int| 0 <= i < entries.len() && name_key(#[trigger] entries[i]) == lowercase_of(name)
}

/// `entry` stands for something that `entries` already holds: an entry with
/// the same identifier, or one with the same label, letter case left aside.
pub open spec fn is_taken(entries: Seq<EntryView>, entry: EntryView) -> bool {
    has_id(entries, entry.parse_name) || has_name(entries, entry.name)
}

/// The entries after a checked insertion of `entry`: it is appended unless
/// it is taken, and then nothing changes.
pub open spec fn checked_insert(entries: Seq<EntryView>, entry: EntryView) -> Seq<EntryView> {
    if is_taken(entries, entry) {
        entries
    } else {
        entries.push(entry)
    }
}

/// The entries after the checked insertion of each of `arrivals`, in their
/// order.
pub open spec fn checked_insert_all(entries: Seq<EntryView>, arrivals: Seq<EntryView>) -> Seq<
    EntryView,
>
    decreases arrivals.len(),
{
    if arrivals.len() == 0 {
        entries
    } else {
        checked_insert(checked_insert_all(entries, arrivals.drop_last()), arrivals.last())
    }
}

/// No two entries share an identifier, and no two share a label, letter case
/// left aside.
pub open spec fn is_deduplicated(entries: Seq<EntryView>) -> bool {
    forall|i: int, j: int|
        #![trigger entries[i], entries[j]]
        0 <= i < j < entries.len() ==> entries[i].parse_name != entries[j].parse_name && name_key(
            entries[i],
        ) != name_key(entries[j])
}

/// No two entries are launched by `id`.
pub open spec fn has_id_at_most_once(entries: Seq<EntryView>, id: Seq<char>) -> bool {
    forall|j: int, k: int|
        #![trigger entries[j], entries[k]]
        0 <= j < entries.len() && 0 <= k < entries.len() && entries[j].parse_name == id
            && entries[k].parse_name == id ==> j == k
}

/// No two entries have the label `name`, letter case left aside.
pub open spec fn has_name_at_most_once(entries: Seq<EntryView>, name: Seq<char>) -> bool {
    forall|j: int, k: int|
        #![trigger entries[j], entries[k]]
        0 <= j < entries.len() && 0 <= k < entries.len() && name_key(entries[j]) == lowercase_of(
            name,
        ) && name_key(entries[k]) == lowercase_of(name) ==> j == k
}

/// `a` may stand before `b` when entries are sorted by usage: it has been
/// used more often, or as often and its label in lower case comes first or is
/// the same.
pub open spec fn usage_le(a: EntryView, b: EntryView) -> bool {
    a.usage_count > b.usage_count || (a.usage_count == b.usage_count && text_le(
        name_key(a),
        name_key(b),
    ))
}

/// Every entry may stand before all that follow it.
pub open spec fn is_usage_sorted(entries: Seq<EntryView>) -> bool {
    forall|i: int, j: int|
        0 <= i < j < entries.len() ==> #[trigger] usage_le(entries[i], entries[j])
}

/// `after` is `before` sorted by usage, with `from[i]` the place in `before`
/// of the entry at `i` and `to` the inverse of `from`. Entries that are used
/// equally often and have the same label in lower case keep their order.
pub open spec fn is_usage_sort(
    after: Seq<EntryView>,
    before: Seq<EntryView>,
    from: Seq<int>,
    to: Seq<int>,
) -> bool {
    &&& is_rearranged(after, before, from)
    &&& are_inverse(from, to)
    &&& is_usage_sorted(after)
    &&& forall|i: int, j: int|
        0 <= i < j < after.len() && #[trigger] usage_le(after[j], after[i]) ==> from[i] < from[j]
}

/// `after` is the stable sort of `before` by usage.
pub open spec fn sorted_by_usage(after: Seq<EntryView>, before: Seq<EntryView>) -> bool {
    exists|from: Seq<int>, to: Seq<int>| is_usage_sort(after, before, from, to)
}

/// The entry at `i` of `entries` goes before the one at `j` in the stable
/// sort by usage: it may stand before it, and if each may stand before the
/// other, it is the one that stood first.
pub open spec fn goes_first(entries: Seq<EntryView>, i: int, j: int) -> bool {
    &&& usage_le(entries[i], entries[j])
    &&& usage_le(entries[j], entries[i]) ==> i < j
}

/// The entry at `i` and the next one stand in order: the first has been
/// used at least as often, and if as often, its label in lower case comes
/// first or is the same.
pub open spec fn neighbours_in_order(entries: Seq<EntryView>, i: int) -> bool {
    &&& entries[i].usage_count >= entries[i + 1].usage_count
    &&& entries[i].usage_count == entries[i + 1].usage_count ==> text_le(
        name_key(entries[i]),
        name_key(entries[i + 1]),
    )
}

/// The indices `0..n` in order.
pub open spec fn all_indices(n: nat) -> Seq<usize> {
    Seq::new(n, |i: int| i as usize)
}

/// `ranking` lists the indices that have a score, each once, the higher
/// score first and, of two equal scores, the lower index first.
pub open spec fn is_ranking(scores: Seq<Option<i64>>, ranking: Seq<usize>) -> bool {
    &&& forall|k: int|
        0 <= k < ranking.len() ==> (#[trigger] ranking[k]) < scores.len()
            && scores[ranking[k] as int] is Some
    &&& forall|i: int|
        0 <= i < scores.len() && (#[trigger] scores[i]) is Some ==> exists|k: int|
            0 <= k < ranking.len() && #[trigger] ranking[k] == i
    &&& forall|k: int, l: int|
        0 <= k < l < ranking.len() ==> ranks_above(scores, #[trigger] ranking[k], #[trigger] ranking[l])
}

/// Index `a` stands before index `b` in a ranking: its score is higher, or
/// the scores are equal and `a` is the lower index.
pub open spec fn ranks_above(scores: Seq<Option<i64>>, a: usize, b: usize) -> bool {
    let x = scores[a as int]->0;
    let y = scores[b as int]->0;
    x > y || (x == y && a < b)
}

/// A checked insertion keeps the entries free of duplicates.
pub proof fn law_checked_insert_keeps_deduplicated(entries: Seq<EntryView>, entry: EntryView)
    requires
        is_deduplicated(entries),
    ensures
        is_deduplicated(checked_insert(entries, entry)),
{
    let after = checked_insert(entries, entry);
    if !is_taken(entries, entry) {
        assert forall|i: int, j: int|
            #![trigger after[i], after[j]]
            0 <= i < j < after.len() implies after[i].parse_name != after[j].parse_name
            && name_key(after[i]) != name_key(after[j]) by {
            if j == entries.len() {
                assert(after[i] == entries[i]);
            } else {
                assert(after[i] == entries[i] && after[j] == entries[j]);
            }
        }
    }
}

/// Checked insertions keep the entries free of duplicates, however many
/// arrive.
pub proof fn law_checked_insert_all_keeps_deduplicated(
    entries: Seq<EntryView>,
    arrivals: Seq<EntryView>,
)
    requires
        is_deduplicated(entries),
    ensures
        is_deduplicated(checked_insert_all(entries, arrivals)),
    decreases arrivals.len(),
{
    if arrivals.len() > 0 {
        law_checked_insert_all_keeps_deduplicated(entries, arrivals.drop_last());
        law_checked_insert_keeps_deduplicated(
            checked_insert_all(entries, arrivals.drop_last()),
            arrivals.last(),
        );
    }
}

/// Of two entries with one identifier, added one after the other by
/// checked insertion, the second is dropped, and the entries then hold
/// exactly one entry with that identifier: the one they held before, or else
/// the first of the two. This is stated for entries that did not hold the
/// identifier twice already, and for a first entry that is not turned away
/// for its label alone.
pub proof fn law_same_id_first_wins(entries: Seq<EntryView>, first: EntryView, second: EntryView)
    requires
        has_id_at_most_once(entries, first.parse_name),
        first.parse_name == second.parse_name,
        has_id(entries, first.parse_name) || !has_name(entries, first.name),
    ensures
        checked_insert(checked_insert(entries, first), second) == checked_insert(entries, first),
        has_id(checked_insert(entries, first), first.parse_name),
        has_id_at_most_once(checked_insert(entries, first), first.parse_name),
        has_id(entries, first.parse_name) ==> checked_insert(entries, first) == entries,
        !has_id(entries, first.parse_name) ==> checked_insert(entries, first) == entries.push(
            first,
        ),
{
    let id = first.parse_name;
    let after = checked_insert(entries, first);
    if !has_id(entries, id) {
        assert(after[entries.len() as int].parse_name == id);
        assert forall|j: int, k: int|
            #![trigger after[j], after[k]]
            0 <= j < after.len() && 0 <= k < after.len() && after[j].parse_name == id
                && after[k].parse_name == id implies j == k by {
            if j < entries.len() {
                assert(entries[j].parse_name == id);
            }
            if k < entries.len() {
                assert(entries[k].parse_name == id);
            }
        }
    }
    assert(has_id(after, id));
}

/// Of two entries whose labels differ in letter case at most, added one
/// after the other by checked insertion, the second is dropped, and the
/// entries then hold exactly one entry with that label: the one they held
/// before, or else the first of the two. This is stated for entries that did
/// not hold the label twice already, and for a first entry that is not turned
/// away for its identifier alone.
pub proof fn law_same_name_first_wins(entries: Seq<EntryView>, first: EntryView, second: EntryView)
    requires
        has_name_at_most_once(entries, first.name),
        name_key(first) == name_key(second),
        has_name(entries, first.name) || !has_id(entries, first.parse_name),
    ensures
        checked_insert(checked_insert(entries, first), second) == checked_insert(entries, first),
        has_name(checked_insert(entries, first), first.name),
        has_name_at_most_once(checked_insert(entries, first), first.name),
        has_name(entries, first.name) ==> checked_insert(entries, first) == entries,
        !has_name(entries, first.name) ==> checked_insert(entries, first) == entries.push(first),
{
    let after = checked_insert(entries, first);
    if !has_name(entries, first.name) {
        assert(name_key(after[entries.len() as int]) == lowercase_of(first.name));
        assert forall|j: int, k: int|
            #![trigger after[j], after[k]]
            0 <= j < after.len() && 0 <= k < after.len() && name_key(after[j]) == lowercase_of(
                first.name,
            ) && name_key(after[k]) == lowercase_of(first.name) implies j == k by {
            if j < entries.len() {
                assert(name_key(entries[j]) == lowercase_of(first.name));
            }
            if k < entries.len() {
                assert(name_key(entries[k]) == lowercase_of(first.name));
            }
        }
    }
    assert(has_name(after, first.name));
    assert(has_name(after, second.name));
}

/// An unchecked insertion turns nothing away: the same entry added twice
/// is stored twice.
pub proof fn law_unchecked_keeps_both(entries: Seq<EntryView>, entry: EntryView)
    ensures
        entries.push(entry).push(entry).len() == entries.len() + 2,
        entries.push(entry).push(entry)[entries.len() as int] == entry,
        entries.push(entry).push(entry)[entries.len() as int + 1] == entry,
        entries.push(entry).push(entry).subrange(0, entries.len() as int) == entries,
{
    assert(entries.push(entry).push(entry).subrange(0, entries.len() as int) =~= entries);
}

/// Two entries of which each may stand before the other have been used
/// equally often and have one label in lower case.
pub proof fn law_usage_ties(a: EntryView, b: EntryView)
    requires
        usage_le(a, b),
        usage_le(b, a),
    ensures
        a.usage_count == b.usage_count,
        name_key(a) == name_key(b),
{
    lemma_text_le_antisymmetric(name_key(a), name_key(b));
}

/// In entries sorted by usage, each entry and the next stand in order.
pub proof fn law_sorted_neighbours(entries: Seq<EntryView>, i: int)
    requires
        is_usage_sorted(entries),
        0 <= i,
        i + 1 < entries.len(),
    ensures
        neighbours_in_order(entries, i),
{
    assert(usage_le(entries[i], entries[i + 1]));
}

/// Sorting by usage keeps the entries free of duplicates.
pub proof fn law_sort_keeps_deduplicated(after: Seq<EntryView>, before: Seq<EntryView>)
    requires
        sorted_by_usage(after, before),
        is_deduplicated(before),
    ensures
        is_deduplicated(after),
{
    let (from, to) = choose|from: Seq<int>, to: Seq<int>| is_usage_sort(after, before, from, to);
    assert forall|i: int, j: int|
        #![trigger after[i], after[j]]
        0 <= i < j < after.len() implies after[i].parse_name != after[j].parse_name && name_key(
        after[i],
    ) != name_key(after[j]) by {
        let a = from[i];
        let b = from[j];
        assert(to[a] == i && to[b] == j);
        if a < b {
            assert(before[a].parse_name != before[b].parse_name);
        } else {
            assert(before[b].parse_name != before[a].parse_name);
        }
    }
}

/// The places from which a stable sort by usage takes its entries rise
/// strictly by `goes_first`, and each place of `before` is among them.
proof fn lemma_sort_takes_in_order(
    after: Seq<EntryView>,
    before: Seq<EntryView>,
    from: Seq<int>,
    to: Seq<int>,
)
    requires
        is_usage_sort(after, before, from, to),
    ensures
        is_strictly_rising(from, |i: int, j: int| goes_first(before, i, j)),
        forall|j: int| 0 <= j < before.len() ==> from.contains(j),
{
    let first = |i: int, j: int| goes_first(before, i, j);
    assert forall|a: int, b: int| 0 <= a < b < from.len() implies #[trigger] first(
        from[a],
        from[b],
    ) by {
        assert(after[a] == before[from[a]]);
        assert(after[b] == before[from[b]]);
        assert(usage_le(after[a], after[b]));
        if usage_le(after[b], after[a]) {
            assert(from[a] < from[b]);
        }
    }
    assert forall|j: int| 0 <= j < before.len() implies from.contains(j) by {
        assert(from[to[j]] == j);
    }
}

/// Sorting by usage has one result: two stable sorts of the same entries
/// are equal.
pub proof fn law_usage_sort_is_unique(
    one: Seq<EntryView>,
    other: Seq<EntryView>,
    before: Seq<EntryView>,
)
    requires
        sorted_by_usage(one, before),
        sorted_by_usage(other, before),
    ensures
        one == other,
{
    let (from1, to1) = choose|from: Seq<int>, to: Seq<int>| is_usage_sort(one, before, from, to);
    let (from2, to2) = choose|from: Seq<int>, to: Seq<int>|
        is_usage_sort(other, before, from, to);
    let first = |i: int, j: int| goes_first(before, i, j);
    lemma_sort_takes_in_order(one, before, from1, to1);
    lemma_sort_takes_in_order(other, before, from2, to2);
    assert forall|x: int, y: int| #[trigger] first(x, y) implies !first(y, x) by {}
    assert forall|i: int| 0 <= i < from1.len() implies from2.contains(#[trigger] from1[i]) by {}
    assert forall|i: int| 0 <= i < from2.len() implies from1.contains(#[trigger] from2[i]) by {}
    lemma_rising_agree(from1, from2, first);
    assert forall|i: int| 0 <= i < one.len() implies one[i] == other[i] by {
        assert(one[i] == before[from1[i]]);
        assert(other[i] == before[from2[i]]);
    }
    assert(one =~= other);
}

/// A ranking is decided by the scores: two rankings of the same scores are
/// equal.
pub proof fn law_ranking_is_unique(scores: Seq<Option<i64>>, one: Seq<usize>, other: Seq<usize>)
    requires
        is_ranking(scores, one),
        is_ranking(scores, other),
    ensures
        one == other,
{
    let above = |a: usize, b: usize| ranks_above(scores, a, b);
    assert forall|x: usize, y: usize| #[trigger] above(x, y) implies !above(y, x) by {}
    assert forall|i: int, j: int| 0 <= i < j < one.len() implies #[trigger] above(one[i], one[j]) by {
        assert(ranks_above(scores, one[i], one[j]));
    }
    assert forall|i: int, j: int| 0 <= i < j < other.len() implies #[trigger] above(
        other[i],
        other[j],
    ) by {
        assert(ranks_above(scores, other[i], other[j]));
    }
    assert forall|i: int| 0 <= i < one.len() implies other.contains(#[trigger] one[i]) by {
        let x = one[i] as int;
        assert(scores[x] is Some);
        let k = choose|k: int| 0 <= k < other.len() && #[trigger] other[k] == x;
        assert(other[k] == one[i]);
    }
    assert forall|i: int| 0 <= i < other.len() implies one.contains(#[trigger] other[i]) by {
        let x = other[i] as int;
        assert(scores[x] is Some);
        let k = choose|k: int| 0 <= k < one.len() && #[trigger] one[k] == x;
        assert(one[k] == other[i]);
    }
    lemma_rising_agree(one, other, above);
}

} // verus!
