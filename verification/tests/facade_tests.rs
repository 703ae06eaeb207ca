use clipboard_manager::bookmarks::Bookmark;
use clipboard_manager::chord::ChordModifier;
use clipboard_manager::config::AppConfig;
use clipboard_manager::facade::{
    bookmark_most_recent, delete_clipboard_item, get_clipboard_items, get_config, set_config,
    ConfigError,
};
use clipboard_manager::history::ClipboardHistory;

fn starting_config() -> AppConfig {
    AppConfig {
        max_items: 10,
        open_shortcut: "Ctrl+Super+V".to_string(),
        bookmark_shortcut: "Ctrl+Super+B".to_string(),
        start_minimized: false,
    }
}

#[test]
fn set_config_replaces_and_resizes() {
    let mut config = starting_config();
    let mut history = ClipboardHistory::new(config.max_items);
    history.add_item("c".to_string());
    history.add_item("b".to_string());
    history.add_item("a".to_string());
    let new_config = AppConfig {
        max_items: 2,
        open_shortcut: "Ctrl+O".to_string(),
        bookmark_shortcut: "Meta+B".to_string(),
        start_minimized: true,
    };
    let chords = set_config(&mut config, &mut history, new_config).expect("chords must parse");
    assert_eq!(config.max_items, 2);
    assert_eq!(config.open_shortcut, "Ctrl+O");
    assert!(config.start_minimized);
    assert_eq!(chords.0.modifiers, vec![ChordModifier::Ctrl]);
    assert_eq!(chords.0.key, "O");
    assert_eq!(chords.1.modifiers, vec![ChordModifier::Super]);
    assert_eq!(chords.1.key, "B");
    assert_eq!(history.get_items(), vec!["a".to_string(), "b".to_string()]);
}

#[test]
fn unparseable_open_shortcut_changes_nothing() {
    let mut config = starting_config();
    let mut history = ClipboardHistory::new(config.max_items);
    history.add_item("kept".to_string());
    let new_config = AppConfig {
        max_items: 1,
        open_shortcut: "Nope+".to_string(),
        bookmark_shortcut: "Ctrl+B".to_string(),
        start_minimized: true,
    };
    let r = set_config(&mut config, &mut history, new_config);
    assert_eq!(r.err(), Some(ConfigError::InvalidOpenShortcut));
    assert_eq!(config.max_items, 10);
    assert_eq!(config.open_shortcut, "Ctrl+Super+V");
    assert!(!config.start_minimized);
    assert_eq!(history.get_items(), vec!["kept".to_string()]);
}

#[test]
fn unparseable_bookmark_shortcut_changes_nothing() {
    let mut config = starting_config();
    let mut history = ClipboardHistory::new(config.max_items);
    let new_config = AppConfig {
        max_items: 4,
        open_shortcut: "Ctrl+O".to_string(),
        bookmark_shortcut: "".to_string(),
        start_minimized: false,
    };
    let r = set_config(&mut config, &mut history, new_config);
    assert_eq!(r.err(), Some(ConfigError::InvalidBookmarkShortcut));
    assert_eq!(config.max_items, 10);
}

#[test]
fn get_config_returns_a_copy() {
    let config = starting_config();
    let copy = get_config(&config);
    assert_eq!(copy.max_items, config.max_items);
    assert_eq!(copy.open_shortcut, config.open_shortcut);
    assert_eq!(copy.bookmark_shortcut, config.bookmark_shortcut);
    assert_eq!(copy.start_minimized, config.start_minimized);
}

#[test]
fn delete_clipboard_item_is_silent_when_absent() {
    let mut history = ClipboardHistory::new(5);
    history.add_item("a".to_string());
    delete_clipboard_item(&mut history, "missing".to_string());
    assert_eq!(get_clipboard_items(&history), vec!["a".to_string()]);
    delete_clipboard_item(&mut history, "a".to_string());
    assert!(get_clipboard_items(&history).is_empty());
}

#[test]
fn bookmark_most_recent_toggles_newest_entry() {
    let mut history = ClipboardHistory::new(5);
    let mut bookmarks: Vec<Bookmark> = Vec::new();
    history.add_item("older".to_string());
    history.add_item("newest".to_string());
    assert!(bookmark_most_recent(&history, &mut bookmarks));
    assert_eq!(bookmarks.len(), 1);
    assert_eq!(bookmarks[0].content, "newest");
    assert!(bookmark_most_recent(&history, &mut bookmarks));
    assert!(bookmarks.is_empty());
}

#[test]
fn bookmark_most_recent_with_empty_history_is_a_no_op() {
    let history = ClipboardHistory::new(5);
    let mut bookmarks: Vec<Bookmark> = Vec::new();
    assert!(!bookmark_most_recent(&history, &mut bookmarks));
    assert!(bookmarks.is_empty());
}
