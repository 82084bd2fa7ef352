//! The index manager: the entries in storage order, and the result of the
//! last search as indices into them.

use crate::entry::{views_of, AppEntry, EntryView};
use crate::index::{
    all_indices, checked_insert, has_id, has_name, is_deduplicated, is_ranking, is_usage_sort,
    is_usage_sorted, law_checked_insert_keeps_deduplicated, law_sort_keeps_deduplicated,
    law_sorted_neighbours, name_key, neighbours_in_order, sorted_by_usage, usage_le,
};
use crate::matcher::{is_search_hit, label_score, match_score, rank_matches};
use crate::sorting::{is_stable_sort, stable_sort, Ranked};
use crate::text::{
    chars_of, lemma_text_le_total, lemma_text_le_transitive, lowercase_of, text_le, text_le_exec,
    to_lowercase,
};
use vstd::prelude::*;

verus! {

/// The score of each entry's label for a search text.
pub open spec fn label_scores(entries: Seq<EntryView>, search: Seq<char>) -> Seq<Option<i64>> {
    Seq::new(entries.len(), |i: int| label_score(entries[i].name, search))
}

/// `entry` with one more launch counted.
pub open spec fn used_once_more(entry: EntryView) -> EntryView {
    EntryView { usage_count: (entry.usage_count + 1) as i32, ..entry }
}

/// The entries once the entry at `app_index` has been launched: it is
/// used once more, and the others are as they were. An index past the end
/// changes nothing.
pub open spec fn launched(entries: Seq<EntryView>, app_index: usize) -> Seq<EntryView> {
    if app_index < entries.len() {
        entries.update(app_index as int, used_once_more(entries[app_index as int]))
    } else {
        entries
    }
}

/// The launchable entries, in storage order, and the indices of those that
/// the last search matched, best match first.
pub struct AppManager {
    apps: Vec<AppEntry>,
    filtered_indices: Vec<usize>,
}

/// What an [`AppManager`] holds.
pub struct ManagerView {
    /// The entries in storage order.
    pub entries: Seq<EntryView>,
    /// The result of the last search: indices into `entries`.
    pub filtered: Seq<usize>,
}

impl View for AppManager {
    type V = ManagerView;

    closed spec fn view(&self) -> ManagerView {
        ManagerView { entries: views_of(self.apps@), filtered: self.filtered_indices@ }
    }
}

/// An entry together with the key that its label is sorted by.
pub struct Keyed {
    /// The characters of the label in lower case.
    pub key: Vec<char>,
    pub entry: AppEntry,
}

impl Keyed {
    /// The key is the label in lower case.
    pub open spec fn is_keyed(&self) -> bool {
        self.key@ == name_key(self.entry@)
    }
}

/// Keyed entries rank by usage, the more often used first, and then by key.
impl Ranked for Keyed {
    open spec fn may_precede(&self, other: &Self) -> bool {
        self.entry.usage_count > other.entry.usage_count || (self.entry.usage_count
            == other.entry.usage_count && text_le(self.key@, other.key@))
    }

    fn ranks_before_or_with(&self, other: &Self) -> (before: bool) {
        self.entry.usage_count > other.entry.usage_count || (self.entry.usage_count
            == other.entry.usage_count && text_le_exec(&self.key, &other.key))
    }

    proof fn rank_is_total(a: &Self, b: &Self) {
        lemma_text_le_total(a.key@, b.key@);
    }

    proof fn rank_is_transitive(a: &Self, b: &Self, c: &Self) {
        if a.entry.usage_count == b.entry.usage_count && b.entry.usage_count
            == c.entry.usage_count {
            lemma_text_le_transitive(a.key@, b.key@, c.key@);
        }
    }
}

impl AppManager {
    /// A manager without entries.
    pub fn new() -> (manager: Self)
        ensures
            manager@.entries == Seq::<EntryView>::empty(),
            manager@.filtered == Seq::<usize>::empty(),
    {
        AppManager { apps: Vec::new(), filtered_indices: Vec::new() }
    }

    /// Adds `app` unless the manager already holds an entry with its
    /// identifier, or one with its label, letter case left aside. The entry
    /// that came first stays; `app` is then dropped.
    pub fn add_app(&mut self, app: AppEntry)
        ensures
            final(self)@.entries == checked_insert(old(self)@.entries, app@),
            final(self)@.filtered == old(self)@.filtered,
            is_deduplicated(old(self)@.entries) ==> is_deduplicated(final(self)@.entries),
    {
        proof {
            if is_deduplicated(old(self)@.entries) {
                law_checked_insert_keeps_deduplicated(old(self)@.entries, app@);
            }
        }
        let n = self.apps.len();
        let mut i: usize = 0;
        while i < n
            invariant
                i <= n,
                n == self.apps@.len(),
                *self == *old(self),
                forall|k: int| 0 <= k < i ==> (#[trigger] self@.entries[k]).parse_name != app@.parse_name,
            decreases n - i,
        {
            if self.apps[i].parse_name == app.parse_name {
                assert(self@.entries[i as int].parse_name == app@.parse_name);
                return ;
            }
            i += 1;
        }
        assert(!has_id(self@.entries, app@.parse_name));
        let lower = to_lowercase(app.name.as_str());
        let mut i: usize = 0;
        while i < n
            invariant
                i <= n,
                n == self.apps@.len(),
                *self == *old(self),
                lower@ == lowercase_of(app@.name),
                forall|k: int| 0 <= k < i ==> name_key(#[trigger] self@.entries[k]) != lower@,
            decreases n - i,
        {
            let existing = to_lowercase(self.apps[i].name.as_str());
            if existing == lower {
                assert(name_key(self@.entries[i as int]) == lowercase_of(app@.name));
                return ;
            }
            i += 1;
        }
        assert(!has_name(self@.entries, app@.name));
        self.apps.push(app);
        assert(views_of(self.apps@) =~= views_of(old(self).apps@).push(app@));
    }

    /// Appends `app` whatever the manager holds.
    pub fn add_app_unchecked(&mut self, app: AppEntry)
        ensures
            final(self)@.entries == old(self)@.entries.push(app@),
            final(self)@.filtered == old(self)@.filtered,
    {
        self.apps.push(app);
        assert(views_of(self.apps@) =~= views_of(old(self).apps@).push(app@));
    }

    /// Replaces the entries by `apps` and forgets the last search.
    pub fn set_apps(&mut self, apps: Vec<AppEntry>)
        ensures
            final(self)@.entries == views_of(apps@),
            final(self)@.filtered == Seq::<usize>::empty(),
    {
        self.apps = apps;
        self.filtered_indices.clear();
    }

    /// Removes every entry and forgets the last search.
    pub fn clear(&mut self)
        ensures
            final(self)@.entries == Seq::<EntryView>::empty(),
            final(self)@.filtered == Seq::<usize>::empty(),
    {
        self.apps.clear();
        self.filtered_indices.clear();
        assert(views_of(self.apps@) =~= Seq::<EntryView>::empty());
    }

    /// The entries in storage order.
    pub fn apps(&self) -> (apps: &[AppEntry])
        ensures
            views_of(apps@) == self@.entries,
    {
        self.apps.as_slice()
    }

    /// The result of the last search: indices into the entries.
    pub fn filtered_indices(&self) -> (indices: &[usize])
        ensures
            indices@ == self@.filtered,
    {
        self.filtered_indices.as_slice()
    }

    /// Sorts the entries: the more often used first and, of entries used
    /// equally often, the one whose label in lower case comes first. Entries
    /// that tie in both keep their order.
    pub fn sort_by_usage(&mut self)
        ensures
            sorted_by_usage(final(self)@.entries, old(self)@.entries),
            is_usage_sorted(final(self)@.entries),
            forall|i: int|
                0 <= i && i + 1 < final(self)@.entries.len() ==> #[trigger] neighbours_in_order(
                    final(self)@.entries,
                    i,
                ),
            final(self)@.filtered == old(self)@.filtered,
            is_deduplicated(old(self)@.entries) ==> is_deduplicated(final(self)@.entries),
    {
        let mut taken: Vec<AppEntry> = Vec::new();
        std::mem::swap(&mut self.apps, &mut taken);
        let ghost before = taken@;
        let mut keyed: Vec<Keyed> = Vec::new();
        for entry in it: taken
            invariant
                it.seq() == before,
                keyed@.len() == it.index(),
                forall|k: int|
                    0 <= k < keyed@.len() ==> (#[trigger] keyed@[k]).entry == before[k]
                        && keyed@[k].is_keyed(),
        {
            let lower = to_lowercase(entry.name.as_str());
            let key = chars_of(lower.as_str());
            keyed.push(Keyed { key, entry });
        }
        let ghost unsorted = keyed@;
        let maps = stable_sort(&mut keyed);
        let ghost sorted = keyed@;
        let ghost from = maps@.0;
        let ghost to = maps@.1;
        for item in it: keyed
            invariant
                it.seq() == sorted,
                self.apps@.len() == it.index(),
                self.filtered_indices == old(self).filtered_indices,
                forall|k: int|
                    0 <= k < self.apps@.len() ==> #[trigger] self.apps@[k] == sorted[k].entry,
        {
            self.apps.push(item.entry);
        }
        proof {
            let after = views_of(self.apps@);
            let prior = views_of(before);
            assert(is_stable_sort(sorted, unsorted, from, to));
            assert forall|i: int| 0 <= i < after.len() implies 0 <= #[trigger] from[i] < prior.len()
                && after[i] == prior[from[i]] by {
                assert(sorted[i] == unsorted[from[i]]);
            }
            assert forall|i: int, j: int| 0 <= i < after.len() && 0 <= j < after.len() implies (
            usage_le(after[i], after[j]) <==> sorted[i].may_precede(&sorted[j])) by {
                assert(sorted[i] == unsorted[from[i]]);
                assert(sorted[j] == unsorted[from[j]]);
                assert(unsorted[from[i]].is_keyed());
                assert(unsorted[from[j]].is_keyed());
            }
            assert(is_usage_sort(after, prior, from, to));
            assert forall|i: int| 0 <= i && i + 1 < after.len() implies #[trigger] neighbours_in_order(
                after,
                i,
            ) by {
                law_sorted_neighbours(after, i);
            }
            if is_deduplicated(prior) {
                law_sort_keeps_deduplicated(after, prior);
            }
        }
    }

    /// Searches the labels for `search` and keeps the result: for an empty
    /// text every index in storage order; otherwise the indices of the entries
    /// whose label has a score, the higher score first and, of equal scores,
    /// the entry that is stored first. A label has a score when it holds the
    /// characters of `search` in their order, ASCII letters taken without
    /// their case, and is not longer than `MATCH_LIMIT`.
    pub fn filter(&mut self, search: &str)
        ensures
            final(self)@.entries == old(self)@.entries,
            search@.len() == 0 ==> final(self)@.filtered == all_indices(old(self)@.entries.len()),
            search@.len() > 0 ==> is_ranking(
                label_scores(old(self)@.entries, search@),
                final(self)@.filtered,
            ),
            search@.len() > 0 ==> forall|k: int|
                0 <= k < final(self)@.filtered.len() ==> is_search_hit(
                    old(self)@.entries[(#[trigger] final(self)@.filtered[k]) as int].name,
                    search@,
                ),
            search@.len() > 0 ==> forall|i: int|
                0 <= i < old(self)@.entries.len() && is_search_hit(
                    (#[trigger] old(self)@.entries[i]).name,
                    search@,
                ) ==> exists|k: int|
                    0 <= k < final(self)@.filtered.len() && #[trigger] final(self)@.filtered[k]
                        == i,
    {
        self.filtered_indices.clear();
        let n = self.apps.len();
        if search.is_empty() {
            let mut i: usize = 0;
            while i < n
                invariant
                    i <= n,
                    n == self.apps@.len(),
                    self.apps == old(self).apps,
                    self.filtered_indices@ == all_indices(i as nat),
                decreases n - i,
            {
                self.filtered_indices.push(i);
                assert(self.filtered_indices@ =~= all_indices((i + 1) as nat));
                i += 1;
            }
            return ;
        }
        let mut scores: Vec<Option<i64>> = Vec::new();
        let mut i: usize = 0;
        while i < n
            invariant
                i <= n,
                n == self.apps@.len(),
                self.apps == old(self).apps,
                scores@.len() == i,
                forall|k: int|
                    0 <= k < i ==> #[trigger] scores@[k] == label_score(
                        self@.entries[k].name,
                        search@,
                    ) && (scores@[k] is Some <==> is_search_hit(self@.entries[k].name, search@)),
            decreases n - i,
        {
            let score = match_score(self.apps[i].name.as_str(), search);
            scores.push(score);
            i += 1;
        }
        assert(scores@ =~= label_scores(self@.entries, search@));
        self.filtered_indices = rank_matches(&scores);
        proof {
            let entries = self@.entries;
            let filtered = self@.filtered;
            assert forall|i: int|
                0 <= i < entries.len() && is_search_hit(
                    (#[trigger] entries[i]).name,
                    search@,
                ) implies exists|k: int| 0 <= k < filtered.len() && #[trigger] filtered[k] == i by {
                assert(scores@[i] is Some);
            }
        }
    }

    /// The entry at position `filtered_index` of the last search's result.
    pub fn get_filtered_app(&self, filtered_index: usize) -> (app: Option<&AppEntry>)
        ensures
            match app {
                Some(entry) => filtered_index < self@.filtered.len()
                    && self@.filtered[filtered_index as int] < self@.entries.len()
                    && entry@ == self@.entries[self@.filtered[filtered_index as int] as int],
                None => filtered_index >= self@.filtered.len()
                    || self@.filtered[filtered_index as int] >= self@.entries.len(),
            },
    {
        if filtered_index < self.filtered_indices.len() {
            let app_index = self.filtered_indices[filtered_index];
            if app_index < self.apps.len() {
                Some(&self.apps[app_index])
            } else {
                None
            }
        } else {
            None
        }
    }

    /// Counts one more launch of the entry at `app_index`. An index past the
    /// end changes nothing. The count has to be below the largest that 32 bits
    /// hold.
    pub fn increment_usage(&mut self, app_index: usize)
        requires
            app_index < old(self)@.entries.len() ==> old(self)@.entries[app_index as int].usage_count
                < i32::MAX,
        ensures
            final(self)@.entries == launched(old(self)@.entries, app_index),
            final(self)@.filtered == old(self)@.filtered,
            is_deduplicated(old(self)@.entries) ==> is_deduplicated(final(self)@.entries),
    {
        if app_index < self.apps.len() {
            self.apps[app_index].usage_count += 1;
            assert(views_of(self.apps@) =~= views_of(old(self).apps@).update(
                app_index as int,
                used_once_more(old(self)@.entries[app_index as int]),
            ));
            proof {
                let before = old(self)@.entries;
                let after = self@.entries;
                if is_deduplicated(before) {
                    assert forall|i: int, j: int|
                        #![trigger after[i], after[j]]
                        0 <= i < j < after.len() implies after[i].parse_name
                        != after[j].parse_name && name_key(after[i]) != name_key(after[j]) by {
                        assert(before[i].parse_name != before[j].parse_name);
                    }
                }
            }
        }
    }
}

/// Takes note of a launch of the entry at `app_index`: counts it, sorts the
/// entries by usage again, and lists every entry as the search result. The
/// count has to be below the largest that 32 bits hold.
pub fn record_launch(manager: &mut AppManager, app_index: usize)
    requires
        app_index < old(manager)@.entries.len() ==> old(manager)@.entries[app_index as int].usage_count
            < i32::MAX,
    ensures
        sorted_by_usage(final(manager)@.entries, launched(old(manager)@.entries, app_index)),
        is_usage_sorted(final(manager)@.entries),
        final(manager)@.filtered == all_indices(final(manager)@.entries.len()),
        is_deduplicated(old(manager)@.entries) ==> is_deduplicated(final(manager)@.entries),
{
    manager.increment_usage(app_index);
    manager.sort_by_usage();
    proof {
        reveal_strlit("");
    }
    manager.filter("");
}

impl Default for AppManager {
    /// A manager without entries.
    fn default() -> (manager: Self)
        ensures
            manager@.entries == Seq::<EntryView>::empty(),
            manager@.filtered == Seq::<usize>::empty(),
    {
        AppManager::new()
    }
}

} // verus!
