use oxistart::entry::{AppEntry, AppEntryType};
use oxistart::manager::{record_launch, AppManager};

fn app(name: &str, id: &str, icon: i32, usage: i32) -> AppEntry {
    AppEntry::new(name.to_string(), id.to_string(), icon, usage)
}

fn names(manager: &AppManager) -> Vec<String> {
    manager.apps().iter().map(|e| e.name.clone()).collect()
}

#[test]
fn an_entry_with_arguments_keeps_them() {
    let entry = AppEntry::new_with_args(
        "Editor".to_string(),
        "c:\\edit.exe".to_string(),
        Some("--new-window".to_string()),
        7,
        2,
    );
    assert_eq!(entry.name, "Editor");
    assert_eq!(entry.parse_name, "c:\\edit.exe");
    assert_eq!(entry.arguments, Some("--new-window".to_string()));
    assert_eq!(entry.icon_index, 7);
    assert_eq!(entry.usage_count, 2);
    assert_eq!(entry.entry_type, AppEntryType::Application);

    let plain = AppEntry::new_with_args("E".to_string(), "e".to_string(), None, 0, 0);
    assert_eq!(plain, AppEntry::new("E".to_string(), "e".to_string(), 0, 0));
}

#[test]
fn constructors_take_any_numbers() {
    let entry = AppEntry::new(String::new(), String::new(), -1, -5);
    assert_eq!(entry.icon_index, -1);
    assert_eq!(entry.usage_count, -5);
    assert_eq!(entry.arguments, None);
    let settings = AppEntry::new_settings(String::new(), String::new(), i32::MIN);
    assert_eq!(settings.icon_index, i32::MIN);
    assert_eq!(settings.usage_count, 0);
    assert_eq!(settings.arguments, None);
}

#[test]
fn of_two_entries_with_one_identifier_the_first_stays() {
    let mut manager = AppManager::new();
    manager.add_app(app("App1", "id1", 0, 3));
    manager.add_app(app("App2", "id1", 1, 5));
    assert_eq!(manager.apps().len(), 1);
    assert_eq!(manager.apps()[0].name, "App1");
    assert_eq!(manager.apps()[0].usage_count, 3);
    assert_eq!(manager.apps()[0].icon_index, 0);
}

#[test]
fn identifiers_are_compared_as_written() {
    let mut manager = AppManager::new();
    manager.add_app(app("One", "C:\\Tool.exe", 0, 0));
    manager.add_app(app("Two", "c:\\tool.exe", 0, 0));
    assert_eq!(names(&manager), ["One", "Two"]);
}

#[test]
fn of_two_entries_with_one_label_the_first_stays() {
    let mut manager = AppManager::new();
    manager.add_app(app("Notepad", "id1", 0, 1));
    manager.add_app(app("NOTEPAD", "id2", 1, 9));
    manager.add_app(app("Other", "id3", 2, 0));
    assert_eq!(names(&manager), ["Notepad", "Other"]);
    assert_eq!(manager.apps()[0].parse_name, "id1");
    assert_eq!(manager.apps()[0].usage_count, 1);
}

#[test]
fn labels_are_compared_in_lower_case_beyond_ascii() {
    let mut manager = AppManager::new();
    manager.add_app(app("ÉDITEUR", "id1", 0, 0));
    manager.add_app(app("éditeur", "id2", 0, 0));
    assert_eq!(names(&manager), ["ÉDITEUR"]);
}

#[test]
fn an_entry_turned_away_for_its_label_frees_its_identifier() {
    // The first of two entries with one identifier is dropped for its label;
    // the second is then the only one with that identifier.
    let mut manager = AppManager::new();
    manager.add_app(app("Calc", "id0", 0, 0));
    manager.add_app(app("calc", "id1", 0, 0));
    manager.add_app(app("Other", "id1", 0, 0));
    assert_eq!(names(&manager), ["Calc", "Other"]);
}

#[test]
fn unchecked_insertion_takes_the_same_entry_twice() {
    let mut manager = AppManager::new();
    manager.add_app_unchecked(app("App1", "path1", 0, 3));
    manager.add_app_unchecked(app("App1", "path1", 0, 3));
    assert_eq!(manager.apps().len(), 2);
    assert_eq!(manager.apps()[0], manager.apps()[1]);
    // a checked insertion after that is still turned away
    manager.add_app(app("App1", "path1", 0, 3));
    assert_eq!(manager.apps().len(), 2);
}

#[test]
fn insertion_leaves_the_search_result_alone() {
    let mut manager = AppManager::new();
    manager.add_app(app("A", "a", 0, 0));
    manager.filter("");
    manager.add_app(app("B", "b", 0, 0));
    manager.add_app_unchecked(app("C", "c", 0, 0));
    assert_eq!(manager.filtered_indices(), [0]);
}

#[test]
fn sorting_puts_the_most_used_first_and_then_goes_by_label() {
    let mut manager = AppManager::new();
    manager.add_app(app("beta", "id1", 0, 1));
    manager.add_app(app("Zeta", "id2", 0, 1));
    manager.add_app(app("Alpha", "id3", 0, 1));
    manager.add_app(app("gamma", "id4", 0, 5));
    manager.add_app(app("delta", "id5", 0, 0));
    manager.sort_by_usage();
    assert_eq!(names(&manager), ["gamma", "Alpha", "beta", "Zeta", "delta"]);
    let apps = manager.apps();
    for i in 0..apps.len() - 1 {
        assert!(apps[i].usage_count >= apps[i + 1].usage_count);
        if apps[i].usage_count == apps[i + 1].usage_count {
            assert!(apps[i].name.to_lowercase() <= apps[i + 1].name.to_lowercase());
        }
    }
}

#[test]
fn sorting_leaves_equal_entries_in_their_order() {
    let mut manager = AppManager::new();
    manager.add_app_unchecked(app("Tool", "first", 1, 2));
    manager.add_app_unchecked(app("TOOL", "second", 2, 2));
    manager.add_app_unchecked(app("tool", "third", 3, 2));
    manager.add_app_unchecked(app("Able", "fourth", 4, 2));
    manager.sort_by_usage();
    let ids: Vec<&str> = manager.apps().iter().map(|e| e.parse_name.as_str()).collect();
    assert_eq!(ids, ["fourth", "first", "second", "third"]);
}

#[test]
fn sorting_counts_negative_usage_below_zero() {
    let mut manager = AppManager::new();
    manager.add_app(app("a", "id1", 0, -1));
    manager.add_app(app("b", "id2", 0, 0));
    manager.add_app(app("c", "id3", 0, i32::MAX));
    manager.add_app(app("d", "id4", 0, i32::MIN));
    manager.sort_by_usage();
    assert_eq!(names(&manager), ["c", "b", "a", "d"]);
}

#[test]
fn a_shorter_label_sorts_before_its_extensions() {
    let mut manager = AppManager::new();
    manager.add_app(app("Paint 3D", "id1", 0, 0));
    manager.add_app(app("Paint", "id2", 0, 0));
    manager.add_app(app("", "id3", 0, 0));
    manager.sort_by_usage();
    assert_eq!(names(&manager), ["", "Paint", "Paint 3D"]);
}

#[test]
fn sorting_nothing_or_one_entry_changes_nothing() {
    let mut manager = AppManager::new();
    manager.sort_by_usage();
    assert_eq!(manager.apps().len(), 0);
    manager.add_app(app("Only", "id", 0, 4));
    manager.sort_by_usage();
    assert_eq!(names(&manager), ["Only"]);
}

#[test]
fn sorting_keeps_every_entry() {
    let mut manager = AppManager::new();
    for i in 0..40 {
        manager.add_app(app(&format!("App {}", (i * 7) % 40), &format!("id{}", i), i, (i * 3) % 5));
    }
    manager.sort_by_usage();
    assert_eq!(manager.apps().len(), 40);
    let mut ids: Vec<String> = manager.apps().iter().map(|e| e.parse_name.clone()).collect();
    ids.sort();
    let mut expected: Vec<String> = (0..40).map(|i| format!("id{}", i)).collect();
    expected.sort();
    assert_eq!(ids, expected);
    let mut sorted: Vec<AppEntry> = manager.apps().to_vec();
    sorted.sort_by(|a, b| {
        b.usage_count
            .cmp(&a.usage_count)
            .then_with(|| a.name.to_lowercase().cmp(&b.name.to_lowercase()))
    });
    assert_eq!(manager.apps(), &sorted[..]);
}

#[test]
fn an_empty_search_lists_every_entry_in_storage_order() {
    let mut manager = AppManager::new();
    manager.filter("");
    assert_eq!(manager.filtered_indices().len(), 0);
    manager.add_app(app("App1", "path1", 0, 3));
    manager.add_app(app("App2", "path2", 1, 5));
    manager.add_app(app("App3", "path3", 1, 4));
    manager.filter("");
    assert_eq!(manager.filtered_indices(), [0, 1, 2]);
    manager.sort_by_usage();
    manager.filter("");
    assert_eq!(manager.filtered_indices(), [0, 1, 2]);
    assert_eq!(manager.get_filtered_app(0).unwrap().name, "App2");
    assert_eq!(manager.get_filtered_app(1).unwrap().name, "App3");
    assert_eq!(manager.get_filtered_app(2).unwrap().name, "App1");
}

#[test]
fn a_search_finds_the_entries_that_begin_with_it() {
    let mut manager = AppManager::new();
    manager.add_app(app("Calculator", "c:\\calc.exe", 0, 3));
    manager.add_app(app("Calendar", "c:\\cal.exe", 1, 5));
    manager.add_app(app("Notepad", "c:\\note.exe", 2, 1));
    manager.filter("cal");
    assert_eq!(manager.filtered_indices(), [0, 1]);
    assert_eq!(manager.get_filtered_app(0).unwrap().name, "Calculator");
    assert_eq!(manager.get_filtered_app(1).unwrap().name, "Calendar");
    assert!(manager.get_filtered_app(2).is_none());
}

#[test]
fn a_search_leaves_out_labels_that_share_no_character_with_it() {
    let mut manager = AppManager::new();
    manager.add_app(app("Notepad", "id1", 0, 0));
    manager.add_app(app("Paint", "id2", 0, 0));
    manager.add_app(app("", "id3", 0, 0));
    manager.filter("xyz");
    assert_eq!(manager.filtered_indices().len(), 0);
    manager.filter("q");
    assert_eq!(manager.filtered_indices().len(), 0);
    // every character of the search has to be in the label, in order
    manager.filter("tn");
    assert_eq!(manager.filtered_indices().len(), 0);
    manager.filter("nt");
    assert_eq!(manager.filtered_indices().len(), 2);
}

#[test]
fn a_search_disregards_the_case_of_letters() {
    let mut manager = AppManager::new();
    manager.add_app(app("NOTEPAD", "id1", 0, 0));
    manager.add_app(app("notepad++", "id2", 0, 0));
    manager.add_app(app("Paint", "id3", 0, 0));
    for search in ["note", "Note", "NOTE", "nOtE"] {
        manager.filter(search);
        let mut found = manager.filtered_indices().to_vec();
        found.sort();
        assert_eq!(found, [0, 1]);
    }
}

#[test]
fn a_close_match_ranks_above_a_scattered_one() {
    let mut manager = AppManager::new();
    manager.add_app(app("Windows Recorder", "id1", 0, 0));
    manager.add_app(app("Word", "id2", 0, 0));
    manager.filter("word");
    assert_eq!(manager.filtered_indices(), [1, 0]);
}

#[test]
fn equal_matches_stay_in_storage_order() {
    let mut manager = AppManager::new();
    manager.add_app_unchecked(app("Mail", "id1", 0, 0));
    manager.add_app_unchecked(app("Mail", "id2", 0, 9));
    manager.add_app_unchecked(app("Mail", "id3", 0, 4));
    manager.filter("mail");
    assert_eq!(manager.filtered_indices(), [0, 1, 2]);
}

#[test]
fn a_search_replaces_the_result_of_the_last_one() {
    let mut manager = AppManager::new();
    manager.add_app(app("Calculator", "id1", 0, 0));
    manager.add_app(app("Notepad", "id2", 0, 0));
    manager.filter("");
    assert_eq!(manager.filtered_indices(), [0, 1]);
    manager.filter("note");
    assert_eq!(manager.filtered_indices(), [1]);
    manager.filter("calc");
    assert_eq!(manager.filtered_indices(), [0]);
    assert_eq!(manager.apps().len(), 2);
}

#[test]
fn a_position_past_the_result_gives_no_entry() {
    let mut manager = AppManager::new();
    assert!(manager.get_filtered_app(0).is_none());
    manager.add_app(app("A", "a", 0, 0));
    assert!(manager.get_filtered_app(0).is_none());
    manager.filter("");
    assert_eq!(manager.get_filtered_app(0).unwrap().name, "A");
    assert!(manager.get_filtered_app(1).is_none());
    assert!(manager.get_filtered_app(usize::MAX).is_none());
}

#[test]
fn a_launch_counts_for_one_entry_only() {
    let mut manager = AppManager::new();
    manager.add_app(app("A", "a", 0, 3));
    manager.add_app(app("B", "b", 0, 7));
    manager.add_app(app("C", "c", 0, 0));
    manager.increment_usage(1);
    let counts: Vec<i32> = manager.apps().iter().map(|e| e.usage_count).collect();
    assert_eq!(counts, [3, 8, 0]);
    assert_eq!(names(&manager), ["A", "B", "C"]);
    manager.increment_usage(1);
    manager.increment_usage(2);
    let counts: Vec<i32> = manager.apps().iter().map(|e| e.usage_count).collect();
    assert_eq!(counts, [3, 9, 1]);
}

#[test]
fn a_launch_past_the_end_changes_nothing() {
    let mut manager = AppManager::new();
    manager.increment_usage(0);
    assert_eq!(manager.apps().len(), 0);
    manager.add_app(app("A", "a", 0, 3));
    manager.increment_usage(1);
    manager.increment_usage(usize::MAX);
    assert_eq!(manager.apps().len(), 1);
    assert_eq!(manager.apps()[0].usage_count, 3);
}

#[test]
fn a_launch_counts_for_settings_too() {
    let mut manager = AppManager::new();
    manager.add_app(AppEntry::new_settings("Display settings".to_string(), "ms-settings:display".to_string(), -1));
    manager.increment_usage(0);
    assert_eq!(manager.apps()[0].usage_count, 1);
    assert_eq!(manager.apps()[0].entry_type, AppEntryType::Settings);
}

#[test]
fn new_entries_replace_the_old_and_the_search_result() {
    let mut manager = AppManager::new();
    manager.add_app(app("Old", "old", 0, 0));
    manager.filter("");
    manager.set_apps(vec![app("X", "x", 0, 0), app("X", "x", 0, 0), app("Y", "y", 0, 0)]);
    assert_eq!(names(&manager), ["X", "X", "Y"]);
    assert_eq!(manager.filtered_indices().len(), 0);
}

#[test]
fn clearing_empties_entries_and_search_result() {
    let mut manager = AppManager::new();
    manager.add_app(app("A", "a", 0, 0));
    manager.add_app(app("B", "b", 0, 0));
    manager.filter("a");
    manager.clear();
    assert_eq!(manager.apps().len(), 0);
    assert_eq!(manager.filtered_indices().len(), 0);
    // what was held before no longer turns anything away
    manager.add_app(app("A", "a", 0, 0));
    assert_eq!(manager.apps().len(), 1);
}

#[test]
fn a_recorded_launch_counts_sorts_and_lists() {
    let mut manager = AppManager::new();
    manager.add_app(app("Alpha", "a", 0, 2));
    manager.add_app(app("Beta", "b", 0, 2));
    manager.add_app(app("Gamma", "c", 0, 1));
    manager.filter("gam");
    record_launch(&mut manager, 1);
    assert_eq!(names(&manager), ["Beta", "Alpha", "Gamma"]);
    assert_eq!(manager.apps()[0].usage_count, 3);
    assert_eq!(manager.filtered_indices(), [0, 1, 2]);
    record_launch(&mut manager, 9);
    assert_eq!(names(&manager), ["Beta", "Alpha", "Gamma"]);
    assert_eq!(manager.filtered_indices(), [0, 1, 2]);
}
