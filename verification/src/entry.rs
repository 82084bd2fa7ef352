//! One launchable item and its mathematical view.

use vstd::prelude::*;

verus! {

/// What an entry launches.
#[derive(Debug, Clone, Copy, PartialEq, Eq, Structural)]
pub enum AppEntryType {
    /// An installed application; its launches are counted.
    Application,
    /// A shortcut into the system settings; its usage count stays at zero.
    Settings,
}

/// One launchable item.
#[derive(Debug, Clone, PartialEq)]
pub struct AppEntry {
    /// Label shown to the user. Not assumed unique.
    pub name: String,
    /// Identifier the item is launched by: a path, a URI or a shell name.
    pub parse_name: String,
    /// Extra arguments for the launch; they do not take part in identity.
    pub arguments: Option<String>,
    /// Handle into the system icon list; zero or less means "no icon".
    pub icon_index: i32,
    /// How often the item has been launched.
    pub usage_count: i32,
    /// Application or settings shortcut.
    pub entry_type: AppEntryType,
}

/// The value of an [`AppEntry`] with its texts as sequences of characters.
pub struct EntryView {
    pub name: Seq<char>,
    pub parse_name: Seq<char>,
    pub arguments: Option<Seq<char>>,
    pub icon_index: i32,
    pub usage_count: i32,
    pub entry_type: AppEntryType,
}

/// The characters of an optional text.
pub open spec fn text_of(text: Option<String>) -> Option<Seq<char>> {
    match text {
        Some(s) => Some(s@),
        None => None,
    }
}

impl View for AppEntry {
    type V = EntryView;

    open spec fn view(&self) -> EntryView {
        EntryView {
            name: self.name@,
            parse_name: self.parse_name@,
            arguments: text_of(self.arguments),
            icon_index: self.icon_index,
            usage_count: self.usage_count,
            entry_type: self.entry_type,
        }
    }
}

/// The views of a sequence of entries.
pub open spec fn views_of(entries: Seq<AppEntry>) -> Seq<EntryView> {
    entries.map_values(|entry: AppEntry| entry@)
}

impl AppEntry {
    /// An application without arguments.
    pub fn new(name: String, parse_name: String, icon_index: i32, usage_count: i32) -> (entry: Self)
        ensures
            entry@ == (EntryView {
                name: name@,
                parse_name: parse_name@,
                arguments: None,
                icon_index,
                usage_count,
                entry_type: AppEntryType::Application,
            }),
    {
        AppEntry {
            name,
            parse_name,
            arguments: None,
            icon_index,
            usage_count,
            entry_type: AppEntryType::Application,
        }
    }

    /// An application that is launched with the given arguments, if any.
    pub fn new_with_args(
        name: String,
        parse_name: String,
        arguments: Option<String>,
        icon_index: i32,
        usage_count: i32,
    ) -> (entry: Self)
        ensures
            entry@ == (EntryView {
                name: name@,
                parse_name: parse_name@,
                arguments: text_of(arguments),
                icon_index,
                usage_count,
                entry_type: AppEntryType::Application,
            }),
    {
        AppEntry {
            name,
            parse_name,
            arguments,
            icon_index,
            usage_count,
            entry_type: AppEntryType::Application,
        }
    }

    /// A settings shortcut. Its usage count is zero: settings are not ranked
    /// by how often they are opened.
    pub fn new_settings(name: String, parse_name: String, icon_index: i32) -> (entry: Self)
        ensures
            entry@ == (EntryView {
                name: name@,
                parse_name: parse_name@,
                arguments: None,
                icon_index,
                usage_count: 0,
                entry_type: AppEntryType::Settings,
            }),
    {
        AppEntry {
            name,
            parse_name,
            arguments: None,
            icon_index,
            usage_count: 0,
            entry_type: AppEntryType::Settings,
        }
    }
}

} // verus!
