//! The pages of the system settings that the launcher offers.

use crate::text::same_text;
use vstd::prelude::*;

verus! {

/// One page of the system settings.
#[derive(Debug, Clone)]
pub struct SettingsItem {
    /// The name the page is looked up by.
    pub canonical_name: &'static str,
    /// The label of the page, in English.
    pub display_name_en: &'static str,
    /// The URI that opens the page.
    pub ms_settings_uri: &'static str,
}

/// A [`SettingsItem`] with its texts as sequences of characters.
pub struct SettingsView {
    pub canonical_name: Seq<char>,
    pub display_name_en: Seq<char>,
    pub ms_settings_uri: Seq<char>,
}

impl View for SettingsItem {
    type V = SettingsView;

    open spec fn view(&self) -> SettingsView {
        SettingsView {
            canonical_name: self.canonical_name@,
            display_name_en: self.display_name_en@,
            ms_settings_uri: self.ms_settings_uri@,
        }
    }
}

/// One row of the catalogue.
pub open spec fn page(name: &str, label: &str, uri: &str) -> SettingsView {
    SettingsView { canonical_name: name@, display_name_en: label@, ms_settings_uri: uri@ }
}

/// The pages that the launcher offers, in the order in which they are added
/// to the index.
pub open spec fn settings_catalog() -> Seq<SettingsView> {
    seq![
        page("Display", "Display settings", "ms-settings:display"),
        page("Sound", "Sound settings", "ms-settings:sound"),
        page("Network", "Network settings", "ms-settings:network"),
        page("Bluetooth", "Bluetooth settings", "ms-settings:bluetooth"),
        page("Printers", "Printers & scanners", "ms-settings:printers"),
        page("Apps", "Apps & features", "ms-settings:appsfeatures"),
        page("Power", "Power & sleep", "ms-settings:powersleep"),
        page("Storage", "Storage settings", "ms-settings:storagesense"),
        page("Personalization", "Personalization", "ms-settings:personalization"),
        page("Time", "Date & time", "ms-settings:dateandtime"),
        page("Language", "Language settings", "ms-settings:regionlanguage"),
        page("Updates", "Windows Update", "ms-settings:windowsupdate"),
        page("Privacy", "Privacy settings", "ms-settings:privacy"),
        page("Accounts", "Your account", "ms-settings:yourinfo"),
        page("WiFi", "Wi-Fi settings", "ms-settings:network-wifi"),
    ]
}

/// The views of a sequence of settings items.
pub open spec fn settings_views(items: Seq<SettingsItem>) -> Seq<SettingsView> {
    items.map_values(|item: SettingsItem| item@)
}

/// The pages of the system settings that the launcher offers.
pub fn get_settings_items() -> (items: Vec<SettingsItem>)
    ensures
        settings_views(items@) == settings_catalog(),
{
    let items = vec![
        SettingsItem {
            canonical_name: "Display",
            display_name_en: "Display settings",
            ms_settings_uri: "ms-settings:display",
        },
        SettingsItem {
            canonical_name: "Sound",
            display_name_en: "Sound settings",
            ms_settings_uri: "ms-settings:sound",
        },
        SettingsItem {
            canonical_name: "Network",
            display_name_en: "Network settings",
            ms_settings_uri: "ms-settings:network",
        },
        SettingsItem {
            canonical_name: "Bluetooth",
            display_name_en: "Bluetooth settings",
            ms_settings_uri: "ms-settings:bluetooth",
        },
        SettingsItem {
            canonical_name: "Printers",
            display_name_en: "Printers & scanners",
            ms_settings_uri: "ms-settings:printers",
        },
        SettingsItem {
            canonical_name: "Apps",
            display_name_en: "Apps & features",
            ms_settings_uri: "ms-settings:appsfeatures",
        },
        SettingsItem {
            canonical_name: "Power",
            display_name_en: "Power & sleep",
            ms_settings_uri: "ms-settings:powersleep",
        },
        SettingsItem {
            canonical_name: "Storage",
            display_name_en: "Storage settings",
            ms_settings_uri: "ms-settings:storagesense",
        },
        SettingsItem {
            canonical_name: "Personalization",
            display_name_en: "Personalization",
            ms_settings_uri: "ms-settings:personalization",
        },
        SettingsItem {
            canonical_name: "Time",
            display_name_en: "Date & time",
            ms_settings_uri: "ms-settings:dateandtime",
        },
        SettingsItem {
            canonical_name: "Language",
            display_name_en: "Language settings",
            ms_settings_uri: "ms-settings:regionlanguage",
        },
        SettingsItem {
            canonical_name: "Updates",
            display_name_en: "Windows Update",
            ms_settings_uri: "ms-settings:windowsupdate",
        },
        SettingsItem {
            canonical_name: "Privacy",
            display_name_en: "Privacy settings",
            ms_settings_uri: "ms-settings:privacy",
        },
        SettingsItem {
            canonical_name: "Accounts",
            display_name_en: "Your account",
            ms_settings_uri: "ms-settings:yourinfo",
        },
        SettingsItem {
            canonical_name: "WiFi",
            display_name_en: "Wi-Fi settings",
            ms_settings_uri: "ms-settings:network-wifi",
        },
    ];
    assert(settings_views(items@) =~= settings_catalog());
    items
}

/// The first page of `pages` from `from` on that is called `name`, if there
/// is one.
pub open spec fn page_named(pages: Seq<SettingsView>, name: Seq<char>, from: int) -> Option<
    SettingsView,
>
    decreases pages.len() - from,
{
    if from < 0 || from >= pages.len() {
        None
    } else if pages[from].canonical_name == name {
        Some(pages[from])
    } else {
        page_named(pages, name, from + 1)
    }
}

/// The first character of a name and the number of its characters.
spec fn name_mark(name: Seq<char>) -> (char, nat) {
    (name[0], name.len())
}

/// No two pages of the catalogue have one name.
pub proof fn law_catalog_names_differ()
    ensures
        forall|i: int, j: int|
            0 <= i < j < settings_catalog().len() ==> (#[trigger] settings_catalog()[i]).canonical_name
                != (#[trigger] settings_catalog()[j]).canonical_name,
{
    reveal_strlit("Display");
    reveal_strlit("Sound");
    reveal_strlit("Network");
    reveal_strlit("Bluetooth");
    reveal_strlit("Printers");
    reveal_strlit("Apps");
    reveal_strlit("Power");
    reveal_strlit("Storage");
    reveal_strlit("Personalization");
    reveal_strlit("Time");
    reveal_strlit("Language");
    reveal_strlit("Updates");
    reveal_strlit("Privacy");
    reveal_strlit("Accounts");
    reveal_strlit("WiFi");
    let pages = settings_catalog();
    let marks = seq![
        ('D', 7nat),
        ('S', 5nat),
        ('N', 7nat),
        ('B', 9nat),
        ('P', 8nat),
        ('A', 4nat),
        ('P', 5nat),
        ('S', 7nat),
        ('P', 15nat),
        ('T', 4nat),
        ('L', 8nat),
        ('U', 7nat),
        ('P', 7nat),
        ('A', 8nat),
        ('W', 4nat),
    ];
    assert(pages.len() == 15);
    assert forall|i: int| 0 <= i < 15 implies name_mark(#[trigger] pages[i].canonical_name)
        == marks[i] by {}
    assert forall|i: int, j: int| 0 <= i < j < 15 implies (#[trigger] pages[i]).canonical_name != (
    #[trigger] pages[j]).canonical_name by {
        assert(name_mark(pages[i].canonical_name) == marks[i]);
        assert(name_mark(pages[j].canonical_name) == marks[j]);
        assert(marks[i] != marks[j]);
    }
}

/// A page of the catalogue is the first of its name.
pub proof fn law_catalog_finds_each(i: int)
    requires
        0 <= i < settings_catalog().len(),
    ensures
        page_named(settings_catalog(), settings_catalog()[i].canonical_name, 0) == Some(
            settings_catalog()[i],
        ),
{
    law_catalog_names_differ();
    lemma_first_of_name(settings_catalog(), i, 0);
}

/// Where no page before `i` has the name of the page at `i`, the search from
/// `from` on finds that page.
proof fn lemma_first_of_name(pages: Seq<SettingsView>, i: int, from: int)
    requires
        0 <= from <= i < pages.len(),
        forall|k: int| 0 <= k < i ==> (#[trigger] pages[k]).canonical_name != pages[i].canonical_name,
    ensures
        page_named(pages, pages[i].canonical_name, from) == Some(pages[i]),
    decreases i - from,
{
    if from < i {
        lemma_first_of_name(pages, i, from + 1);
    }
}

/// The label under which the page called `canonical_name` is shown: its
/// English label. There is none for a name that is not in the catalogue.
pub fn get_localized_name(canonical_name: &str) -> (label: Option<String>)
    ensures
        match page_named(settings_catalog(), canonical_name@, 0) {
            Some(found) => label is Some && label->0@ == found.display_name_en,
            None => label is None,
        },
{
    let items = get_settings_items();
    let n = items.len();
    let mut i: usize = 0;
    while i < n
        invariant
            i <= n,
            n == items@.len(),
            settings_views(items@) == settings_catalog(),
            page_named(settings_catalog(), canonical_name@, 0) == page_named(
                settings_catalog(),
                canonical_name@,
                i as int,
            ),
        decreases n - i,
    {
        assert(settings_views(items@)[i as int] == items@[i as int]@);
        if same_text(items[i].canonical_name, canonical_name) {
            return Some(items[i].display_name_en.to_owned());
        }
        i += 1;
    }
    None
}

} // verus!
