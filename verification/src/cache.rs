//! The rows of the cache table: what is kept of each entry between runs, and
//! how entries are made from the rows again.

use crate::entry::{views_of, AppEntry, AppEntryType, EntryView};
use crate::text::same_text;
use crate::usage::{count_in, UsageMap};
use vstd::prelude::*;

verus! {

/// One row of the cache table.
#[derive(Debug, Clone)]
pub struct CacheRow {
    pub parse_name: String,
    pub name: String,
    pub icon_index: i32,
    /// `Application` or `Settings`.
    pub entry_type: String,
}

/// A [`CacheRow`] with its texts as sequences of characters.
pub struct CacheRowView {
    pub parse_name: Seq<char>,
    pub name: Seq<char>,
    pub icon_index: i32,
    pub entry_type: Seq<char>,
}

impl View for CacheRow {
    type V = CacheRowView;

    open spec fn view(&self) -> CacheRowView {
        CacheRowView {
            parse_name: self.parse_name@,
            name: self.name@,
            icon_index: self.icon_index,
            entry_type: self.entry_type@,
        }
    }
}

/// The word that the cache table holds for an entry type.
pub open spec fn type_word(entry_type: AppEntryType) -> Seq<char> {
    match entry_type {
        AppEntryType::Application => "Application"@,
        AppEntryType::Settings => "Settings"@,
    }
}

/// The row that is kept of an entry: its identifier, label, icon and type.
/// The arguments and the usage count are not kept.
pub open spec fn row_of(entry: EntryView) -> CacheRowView {
    CacheRowView {
        parse_name: entry.parse_name,
        name: entry.name,
        icon_index: entry.icon_index,
        entry_type: type_word(entry.entry_type),
    }
}

/// The entry that a row stands for. A row of type `Settings` gives a settings
/// shortcut, used zero times; any other row gives an application with the
/// launches that `counts` holds for its identifier.
pub open spec fn entry_of(row: CacheRowView, counts: Map<Seq<char>, i32>) -> EntryView {
    if row.entry_type == "Settings"@ {
        EntryView {
            name: row.name,
            parse_name: row.parse_name,
            arguments: None,
            icon_index: row.icon_index,
            usage_count: 0,
            entry_type: AppEntryType::Settings,
        }
    } else {
        EntryView {
            name: row.name,
            parse_name: row.parse_name,
            arguments: None,
            icon_index: row.icon_index,
            usage_count: count_in(counts, row.parse_name),
            entry_type: AppEntryType::Application,
        }
    }
}

/// The views of a sequence of rows.
pub open spec fn row_views(rows: Seq<CacheRow>) -> Seq<CacheRowView> {
    rows.map_values(|row: CacheRow| row@)
}

/// The row that is kept of `app`.
pub fn cache_row(app: &AppEntry) -> (row: CacheRow)
    ensures
        row@ == row_of(app@),
{
    let word = match app.entry_type {
        AppEntryType::Application => "Application",
        AppEntryType::Settings => "Settings",
    };
    CacheRow {
        parse_name: app.parse_name.clone(),
        name: app.name.clone(),
        icon_index: app.icon_index,
        entry_type: word.to_owned(),
    }
}

/// The rows that are kept of `apps`, one for each entry, in their order.
pub fn cache_rows(apps: &[AppEntry]) -> (rows: Vec<CacheRow>)
    ensures
        row_views(rows@) == views_of(apps@).map_values(|entry: EntryView| row_of(entry)),
{
    let mut rows: Vec<CacheRow> = Vec::new();
    let n = apps.len();
    let mut i: usize = 0;
    while i < n
        invariant
            i <= n,
            n == apps@.len(),
            rows@.len() == i,
            forall|k: int| 0 <= k < i ==> (#[trigger] rows@[k])@ == row_of(apps@[k]@),
        decreases n - i,
    {
        rows.push(cache_row(&apps[i]));
        i += 1;
    }
    assert(row_views(rows@) =~= views_of(apps@).map_values(|entry: EntryView| row_of(entry)));
    rows
}

/// The entry that `row` stands for, with its launches taken from `usage`.
pub fn entry_from_row(row: CacheRow, usage: &UsageMap) -> (app: AppEntry)
    ensures
        app@ == entry_of(row@, usage@),
{
    if same_text(row.entry_type.as_str(), "Settings") {
        AppEntry::new_settings(row.name, row.parse_name, row.icon_index)
    } else {
        let usage_count = usage.count_for(row.parse_name.as_str());
        AppEntry::new(row.name, row.parse_name, row.icon_index, usage_count)
    }
}

/// The entries that `rows` stand for, in their order.
pub fn entries_from_rows(rows: Vec<CacheRow>, usage: &UsageMap) -> (apps: Vec<AppEntry>)
    ensures
        views_of(apps@) == row_views(rows@).map_values(|row: CacheRowView| entry_of(row, usage@)),
{
    let ghost all = rows@;
    let mut apps: Vec<AppEntry> = Vec::new();
    for row in it: rows
        invariant
            it.seq() == all,
            apps@.len() == it.index(),
            forall|k: int| 0 <= k < apps@.len() ==> (#[trigger] apps@[k])@ == entry_of(all[k]@, usage@),
    {
        apps.push(entry_from_row(row, usage));
    }
    assert(views_of(apps@) =~= row_views(all).map_values(
        |row: CacheRowView| entry_of(row, usage@),
    ));
    apps
}

/// An entry that is kept as a row and made from the row again has its
/// identifier, label, icon and type. It has no arguments; a settings
/// shortcut is used zero times, an application as often as the usage table
/// says.
pub proof fn law_cache_round_trip(entry: EntryView, counts: Map<Seq<char>, i32>)
    ensures
        ({
            let back = entry_of(row_of(entry), counts);
            &&& back.parse_name == entry.parse_name
            &&& back.name == entry.name
            &&& back.icon_index == entry.icon_index
            &&& back.entry_type == entry.entry_type
            &&& back.arguments is None
            &&& back.usage_count == if entry.entry_type == AppEntryType::Settings {
                0
            } else {
                count_in(counts, entry.parse_name)
            }
        }),
{
    reveal_strlit("Application");
    reveal_strlit("Settings");
    assert("Application"@.len() != "Settings"@.len());
}

/// Entries that are kept as rows and made from the rows again come back in
/// their order, each with its identifier, label, icon and type.
pub proof fn law_cache_round_trip_all(entries: Seq<EntryView>, counts: Map<Seq<char>, i32>)
    ensures
        ({
            let rows = entries.map_values(|entry: EntryView| row_of(entry));
            let back = rows.map_values(|row: CacheRowView| entry_of(row, counts));
            &&& back.len() == entries.len()
            &&& forall|i: int|
                0 <= i < entries.len() ==> (#[trigger] back[i]).parse_name == entries[i].parse_name
                    && back[i].name == entries[i].name && back[i].icon_index
                    == entries[i].icon_index && back[i].entry_type == entries[i].entry_type
        }),
{
    let rows = entries.map_values(|entry: EntryView| row_of(entry));
    let back = rows.map_values(|row: CacheRowView| entry_of(row, counts));
    assert forall|i: int| 0 <= i < entries.len() implies (#[trigger] back[i]).parse_name
        == entries[i].parse_name && back[i].name == entries[i].name && back[i].icon_index
        == entries[i].icon_index && back[i].entry_type == entries[i].entry_type by {
        law_cache_round_trip(entries[i], counts);
    }
}

} // verus!
