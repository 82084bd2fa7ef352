use oxistart::cache::{cache_row, cache_rows, entries_from_rows, entry_from_row, CacheRow};
use oxistart::entry::{AppEntry, AppEntryType};
use oxistart::usage::{usage_from_rows, UsageMap, UsageRow};

fn row(path: &str, count: i32) -> UsageRow {
    UsageRow { path: path.to_string(), count }
}

#[test]
fn an_empty_usage_map_counts_nothing() {
    let usage = UsageMap::new();
    assert_eq!(usage.get("anything"), None);
    assert_eq!(usage.get(""), None);
    assert_eq!(usage.count_for("anything"), 0);
}

#[test]
fn a_usage_map_gives_back_what_was_put_in() {
    let mut usage = UsageMap::new();
    usage.insert("c:\\calc.exe".to_string(), 4);
    usage.insert("steam://run/1".to_string(), 11);
    usage.insert(String::new(), -2);
    assert_eq!(usage.get("c:\\calc.exe"), Some(4));
    assert_eq!(usage.get("steam://run/1"), Some(11));
    assert_eq!(usage.get(""), Some(-2));
    assert_eq!(usage.get("C:\\calc.exe"), None);
    assert_eq!(usage.count_for("c:\\calc.exe"), 4);
    assert_eq!(usage.count_for("C:\\calc.exe"), 0);
}

#[test]
fn a_later_count_replaces_an_earlier_one() {
    let mut usage = UsageMap::new();
    usage.insert("app".to_string(), 1);
    usage.insert("other".to_string(), 5);
    usage.insert("app".to_string(), 2);
    assert_eq!(usage.get("app"), Some(2));
    assert_eq!(usage.get("other"), Some(5));
    usage.insert("app".to_string(), 0);
    assert_eq!(usage.get("app"), Some(0));
    assert_eq!(usage.count_for("app"), 0);
}

#[test]
fn usage_rows_make_a_usage_map() {
    let usage = usage_from_rows(vec![row("a", 1), row("b", 2), row("a", 3)]);
    assert_eq!(usage.get("a"), Some(3));
    assert_eq!(usage.get("b"), Some(2));
    assert_eq!(usage.get("c"), None);
    let nothing = usage_from_rows(Vec::new());
    assert_eq!(nothing.get("a"), None);
}

#[test]
fn a_cache_row_keeps_identifier_label_icon_and_type() {
    let app = AppEntry::new_with_args(
        "Test App 1".to_string(),
        "path/to/app1.exe".to_string(),
        Some("-x".to_string()),
        1,
        5,
    );
    let kept = cache_row(&app);
    assert_eq!(kept.parse_name, "path/to/app1.exe");
    assert_eq!(kept.name, "Test App 1");
    assert_eq!(kept.icon_index, 1);
    assert_eq!(kept.entry_type, "Application");

    let settings = AppEntry::new_settings(
        "Display Settings".to_string(),
        "ms-settings:display".to_string(),
        100,
    );
    let kept = cache_row(&settings);
    assert_eq!(kept.parse_name, "ms-settings:display");
    assert_eq!(kept.name, "Display Settings");
    assert_eq!(kept.icon_index, 100);
    assert_eq!(kept.entry_type, "Settings");
}

#[test]
fn saved_entries_come_back_with_usage_from_the_usage_table() {
    let apps = vec![
        AppEntry::new("Test App 1".to_string(), "path/to/app1.exe".to_string(), 1, 5),
        AppEntry::new("Test App 2".to_string(), "path/to/app2.exe".to_string(), 2, 10),
        AppEntry::new_settings("Display Settings".to_string(), "ms-settings:display".to_string(), 100),
    ];
    let rows = cache_rows(&apps);
    assert_eq!(rows.len(), 3);

    let mut usage = UsageMap::new();
    usage.insert("path/to/app1.exe".to_string(), 7);
    usage.insert("ms-settings:display".to_string(), 3);
    let loaded = entries_from_rows(rows, &usage);
    assert_eq!(loaded.len(), 3);

    let app1 = loaded.iter().find(|a| a.name == "Test App 1").unwrap();
    assert_eq!(app1.parse_name, "path/to/app1.exe");
    assert_eq!(app1.icon_index, 1);
    assert_eq!(app1.entry_type, AppEntryType::Application);
    assert_eq!(app1.usage_count, 7);

    let app2 = loaded.iter().find(|a| a.name == "Test App 2").unwrap();
    assert_eq!(app2.parse_name, "path/to/app2.exe");
    assert_eq!(app2.icon_index, 2);
    assert_eq!(app2.entry_type, AppEntryType::Application);
    assert_eq!(app2.usage_count, 0);

    let settings = loaded.iter().find(|a| a.name == "Display Settings").unwrap();
    assert_eq!(settings.parse_name, "ms-settings:display");
    assert_eq!(settings.icon_index, 100);
    assert_eq!(settings.entry_type, AppEntryType::Settings);
    assert_eq!(settings.usage_count, 0);

    for (before, after) in apps.iter().zip(loaded.iter()) {
        assert_eq!(before.parse_name, after.parse_name);
        assert_eq!(before.name, after.name);
        assert_eq!(before.icon_index, after.icon_index);
        assert_eq!(before.entry_type, after.entry_type);
    }
}

#[test]
fn arguments_are_not_kept_in_the_cache() {
    let app = AppEntry::new_with_args("A".to_string(), "a".to_string(), Some("-x".to_string()), 0, 0);
    let back = entry_from_row(cache_row(&app), &UsageMap::new());
    assert_eq!(back.arguments, None);
    assert_eq!(back.name, "A");
}

#[test]
fn a_row_of_any_other_type_is_an_application() {
    let usage = usage_from_rows(vec![row("id", 6)]);
    for word in ["Application", "settings", "SETTINGS", "", "Settings "] {
        let entry = entry_from_row(
            CacheRow {
                parse_name: "id".to_string(),
                name: "Name".to_string(),
                icon_index: 3,
                entry_type: word.to_string(),
            },
            &usage,
        );
        assert_eq!(entry.entry_type, AppEntryType::Application);
        assert_eq!(entry.usage_count, 6);
        assert_eq!(entry.icon_index, 3);
    }
    let entry = entry_from_row(
        CacheRow {
            parse_name: "id".to_string(),
            name: "Name".to_string(),
            icon_index: 3,
            entry_type: "Settings".to_string(),
        },
        &usage,
    );
    assert_eq!(entry.entry_type, AppEntryType::Settings);
    assert_eq!(entry.usage_count, 0);
}

#[test]
fn no_rows_give_no_entries() {
    assert_eq!(cache_rows(&[]).len(), 0);
    assert_eq!(entries_from_rows(Vec::new(), &UsageMap::new()).len(), 0);
}
