use oxistart::settings::{get_localized_name, get_settings_items};

#[test]
fn test_get_settings_items() {
    let items = get_settings_items();
    assert!(!items.is_empty());
    assert!(items.iter().any(|i| i.canonical_name == "Display"));
}

#[test]
fn test_get_localized_name() {
    let name = get_localized_name("Display");
    assert!(name.is_some());
}

#[test]
fn the_catalogue_has_fifteen_pages_in_order() {
    let items = get_settings_items();
    assert_eq!(items.len(), 15);
    assert_eq!(items[0].canonical_name, "Display");
    assert_eq!(items[0].display_name_en, "Display settings");
    assert_eq!(items[0].ms_settings_uri, "ms-settings:display");
    assert_eq!(items[5].canonical_name, "Apps");
    assert_eq!(items[5].display_name_en, "Apps & features");
    assert_eq!(items[5].ms_settings_uri, "ms-settings:appsfeatures");
    assert_eq!(items[14].canonical_name, "WiFi");
    assert_eq!(items[14].display_name_en, "Wi-Fi settings");
    assert_eq!(items[14].ms_settings_uri, "ms-settings:network-wifi");
}

#[test]
fn every_page_opens_by_a_settings_uri() {
    for item in get_settings_items() {
        assert!(item.ms_settings_uri.starts_with("ms-settings:"));
    }
}

#[test]
fn no_two_pages_share_a_name() {
    let items = get_settings_items();
    for i in 0..items.len() {
        for j in (i + 1)..items.len() {
            assert_ne!(items[i].canonical_name, items[j].canonical_name);
        }
    }
}

#[test]
fn a_page_is_shown_under_its_english_label() {
    assert_eq!(get_localized_name("Display"), Some("Display settings".to_string()));
    assert_eq!(get_localized_name("Time"), Some("Date & time".to_string()));
    assert_eq!(get_localized_name("WiFi"), Some("Wi-Fi settings".to_string()));
}

#[test]
fn an_unknown_page_has_no_label() {
    assert_eq!(get_localized_name("Nowhere"), None);
    assert_eq!(get_localized_name(""), None);
    // names are matched as they are written
    assert_eq!(get_localized_name("display"), None);
    assert_eq!(get_localized_name("Display "), None);
}
