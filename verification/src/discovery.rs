//! What is made of the shortcuts that a scan of the start menu finds: which
//! are passed over, what a `.url` file says, and how the index is filled.

use crate::entry::{text_of, views_of, AppEntry, AppEntryType, EntryView};
use crate::index::{
    all_indices, checked_insert_all, is_deduplicated, is_usage_sorted,
    law_checked_insert_all_keeps_deduplicated, sorted_by_usage,
};
use crate::manager::AppManager;
use crate::settings::{
    get_localized_name, get_settings_items, law_catalog_finds_each, settings_catalog,
    settings_views, SettingsView,
};
use crate::text::{
    begins_with, contains, is_part_of, lowercase_of, parse_i32, parsed_i32, starts_with,
    strip_prefix, to_lowercase, trim, trimmed,
};
use vstd::prelude::*;

verus! {

/// The label names an uninstaller or an installer.
pub open spec fn names_installer(name: Seq<char>) -> bool {
    is_part_of("uninstall"@, lowercase_of(name)) || is_part_of("setup"@, lowercase_of(name))
}

/// Whether the shortcut `name` to `target_path` is passed over: its target
/// belongs to a store app that cannot be launched by its path, or its label
/// names an uninstaller or an installer.
pub fn should_filter_app(name: &str, target_path: &str) -> (skip: bool)
    ensures
        skip == (is_part_of("Microsoft.AutoGenerated."@, target_path@) || is_part_of(
            "WindowsApps\\"@,
            target_path@,
        ) || names_installer(name@)),
{
    if contains(target_path, "Microsoft.AutoGenerated.") || contains(target_path, "WindowsApps\\") {
        return true;
    }
    let lower = to_lowercase(name);
    contains(lower.as_str(), "uninstall") || contains(lower.as_str(), "setup")
}

/// Whether the internet shortcut `name` to `url` is passed over: it has no
/// URL, its label names an uninstaller or an installer, or it opens a web
/// page rather than an application.
pub fn should_filter_url_shortcut(name: &str, url: &str) -> (skip: bool)
    ensures
        skip == (url@.len() == 0 || names_installer(name@) || begins_with(url@, "http://"@)
            || begins_with(url@, "https://"@)),
{
    if url.is_empty() {
        return true;
    }
    let lower = to_lowercase(name);
    if contains(lower.as_str(), "uninstall") || contains(lower.as_str(), "setup") {
        return true;
    }
    starts_with(url, "http://") || starts_with(url, "https://")
}

/// A field of a `.url` file that the launcher reads.
#[derive(Debug, Clone, Copy, PartialEq, Eq, Structural)]
pub enum UrlField {
    /// `URL=`: what the shortcut opens.
    Url,
    /// `IconFile=`: the file that holds its icon.
    IconFile,
    /// `IconIndex=`: the number of the icon in that file.
    IconIndex,
}

/// The field that a line sets, and the text that it sets it to.
pub open spec fn field_in(line: Seq<char>) -> Option<(UrlField, Seq<char>)> {
    if begins_with(line, "URL="@) {
        Some((UrlField::Url, line.skip("URL="@.len() as int)))
    } else if begins_with(line, "IconFile="@) {
        Some((UrlField::IconFile, line.skip("IconFile="@.len() as int)))
    } else if begins_with(line, "IconIndex="@) {
        Some((UrlField::IconIndex, line.skip("IconIndex="@.len() as int)))
    } else {
        None
    }
}

/// The field that `line` sets, and the text after the equals sign.
pub fn field_of(line: &str) -> (field: Option<(UrlField, &str)>)
    ensures
        match (field_in(line@), field) {
            (Some((kind, value)), Some((found, text))) => found == kind && text@ == value,
            (None, None) => true,
            _ => false,
        },
{
    if let Some(value) = strip_prefix(line, "URL=") {
        Some((UrlField::Url, value))
    } else if let Some(value) = strip_prefix(line, "IconFile=") {
        Some((UrlField::IconFile, value))
    } else if let Some(value) = strip_prefix(line, "IconIndex=") {
        Some((UrlField::IconIndex, value))
    } else {
        None
    }
}

/// What has been read of a `.url` file.
pub struct UrlFields {
    pub url: Option<Seq<char>>,
    pub icon_file: Option<Seq<char>>,
    pub icon_index: Option<i32>,
}

/// The fields after one more line: a line that sets a field, white space at
/// its ends aside, replaces what was read for it before. An icon index
/// that is no number leaves none.
pub open spec fn fields_with(fields: UrlFields, line: Seq<char>) -> UrlFields {
    match field_in(trimmed(line)) {
        Some((UrlField::Url, value)) => UrlFields { url: Some(value), ..fields },
        Some((UrlField::IconFile, value)) => UrlFields { icon_file: Some(value), ..fields },
        Some((UrlField::IconIndex, value)) => UrlFields { icon_index: parsed_i32(value), ..fields },
        None => fields,
    }
}

/// The fields that the lines of a `.url` file set, read in their order.
pub open spec fn fields_of(lines: Seq<Seq<char>>) -> UrlFields
    decreases lines.len(),
{
    if lines.len() == 0 {
        UrlFields { url: None, icon_file: None, icon_index: None }
    } else {
        fields_with(fields_of(lines.drop_last()), lines.last())
    }
}

/// The characters of each line.
pub open spec fn line_views(lines: Seq<String>) -> Seq<Seq<char>> {
    lines.map_values(|line: String| line@)
}

/// Reads the lines of a `.url` file: the URL, the icon file and the icon
/// index that they set. A file that sets no URL is no shortcut.
pub fn parse_url_lines(lines: &Vec<String>) -> (shortcut: Option<(String, Option<String>, Option<i32>)>)
    ensures
        match (fields_of(line_views(lines@)).url, shortcut) {
            (Some(url), Some((found, icon_file, icon_index))) => found@ == url && text_of(
                icon_file,
            ) == fields_of(line_views(lines@)).icon_file && icon_index == fields_of(
                line_views(lines@),
            ).icon_index,
            (None, None) => true,
            _ => false,
        },
{
    let mut url: Option<String> = None;
    let mut icon_file: Option<String> = None;
    let mut icon_index: Option<i32> = None;
    let n = lines.len();
    let mut i: usize = 0;
    while i < n
        invariant
            i <= n,
            n == lines@.len(),
            fields_of(line_views(lines@).take(i as int)) == (UrlFields {
                url: text_of(url),
                icon_file: text_of(icon_file),
                icon_index,
            }),
        decreases n - i,
    {
        proof {
            let seen = line_views(lines@).take(i + 1);
            assert(seen.drop_last() =~= line_views(lines@).take(i as int));
            assert(seen.last() == lines@[i as int]@);
        }
        let line = trim(lines[i].as_str());
        match field_of(line) {
            Some((UrlField::Url, value)) => {
                url = Some(value.to_owned());
            },
            Some((UrlField::IconFile, value)) => {
                icon_file = Some(value.to_owned());
            },
            Some((UrlField::IconIndex, value)) => {
                icon_index = parse_i32(value);
            },
            None => {},
        }
        i += 1;
    }
    assert(line_views(lines@).take(n as int) =~= line_views(lines@));
    match url {
        Some(url) => Some((url, icon_file, icon_index)),
        None => None,
    }
}

/// The entry under which a page of the settings stands in the index: its
/// label, the URI that opens it, and no icon.
pub open spec fn settings_entry(page: SettingsView) -> EntryView {
    EntryView {
        name: page.display_name_en,
        parse_name: page.ms_settings_uri,
        arguments: None,
        icon_index: -1i32,
        usage_count: 0,
        entry_type: AppEntryType::Settings,
    }
}

/// The entries for the pages of the catalogue, in its order.
pub open spec fn settings_entry_views() -> Seq<EntryView> {
    settings_catalog().map_values(|page: SettingsView| settings_entry(page))
}

/// An entry for each page of the settings catalogue.
pub fn settings_entries() -> (entries: Vec<AppEntry>)
    ensures
        views_of(entries@) == settings_entry_views(),
{
    let items = get_settings_items();
    let n = items.len();
    let mut entries: Vec<AppEntry> = Vec::new();
    let mut i: usize = 0;
    while i < n
        invariant
            i <= n,
            n == items@.len(),
            settings_views(items@) == settings_catalog(),
            entries@.len() == i,
            forall|k: int|
                0 <= k < i ==> (#[trigger] entries@[k])@ == settings_entry(settings_catalog()[k]),
        decreases n - i,
    {
        proof {
            assert(settings_views(items@)[i as int] == items@[i as int]@);
            law_catalog_finds_each(i as int);
        }
        let label = match get_localized_name(items[i].canonical_name) {
            Some(label) => label,
            None => items[i].display_name_en.to_owned(),
        };
        entries.push(AppEntry::new_settings(label, items[i].ms_settings_uri.to_owned(), -1));
        i += 1;
    }
    assert(views_of(entries@) =~= settings_entry_views());
    entries
}

/// Fills the index anew from what a scan found: the entries of `discovered`
/// in their order and then the pages of the settings, each by checked
/// insertion into the emptied index. The index is then sorted by usage, and
/// the search result lists every entry.
pub fn rebuild_index(manager: &mut AppManager, discovered: Vec<AppEntry>)
    ensures
        sorted_by_usage(
            final(manager)@.entries,
            checked_insert_all(
                Seq::<EntryView>::empty(),
                views_of(discovered@) + settings_entry_views(),
            ),
        ),
        is_usage_sorted(final(manager)@.entries),
        is_deduplicated(final(manager)@.entries),
        final(manager)@.filtered == all_indices(final(manager)@.entries.len()),
{
    let ghost found = views_of(discovered@);
    let ghost nothing = Seq::<EntryView>::empty();
    manager.clear();
    let ghost all = discovered@;
    for app in it: discovered
        invariant
            it.seq() == all,
            manager@.entries == checked_insert_all(nothing, found.take(it.index() as int)),
            found == views_of(all),
    {
        proof {
            let seen = found.take(it.index() + 1);
            assert(seen.drop_last() =~= found.take(it.index() as int));
            assert(seen.last() == app@);
        }
        manager.add_app(app);
    }
    assert(found.take(found.len() as int) =~= found);
    let pages = settings_entries();
    let ghost shortcuts = settings_entry_views();
    let ghost listed = pages@;
    for page in it: pages
        invariant
            it.seq() == listed,
            shortcuts == views_of(listed),
            manager@.entries == checked_insert_all(
                nothing,
                found + shortcuts.take(it.index() as int),
            ),
    {
        proof {
            let seen = found + shortcuts.take(it.index() + 1);
            assert(seen.drop_last() =~= found + shortcuts.take(it.index() as int));
            assert(seen.last() == page@);
        }
        manager.add_app(page);
    }
    proof {
        assert(shortcuts.take(shortcuts.len() as int) =~= shortcuts);
        assert forall|i: int, j: int|
            #![trigger nothing[i], nothing[j]]
            0 <= i < j < nothing.len() implies false by {}
        law_checked_insert_all_keeps_deduplicated(nothing, found + shortcuts);
        reveal_strlit("");
    }
    manager.sort_by_usage();
    manager.filter("");
}

} // verus!
