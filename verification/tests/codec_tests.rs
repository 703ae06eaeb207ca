use clipboard_manager::bookmarks::Bookmark;
use clipboard_manager::codec::{
    bookmarks_from_json, bookmarks_or_default, bookmarks_to_json, config_from_json,
    config_or_default, config_to_json,
};
use clipboard_manager::config::AppConfig;

fn sample_config() -> AppConfig {
    AppConfig {
        max_items: 10,
        open_shortcut: "Ctrl+Super+V".to_string(),
        bookmark_shortcut: "Ctrl+Super+B".to_string(),
        start_minimized: false,
    }
}

fn config_fields(c: &AppConfig) -> (usize, String, String, bool) {
    (
        c.max_items,
        c.open_shortcut.clone(),
        c.bookmark_shortcut.clone(),
        c.start_minimized,
    )
}

#[test]
fn config_document_has_the_expected_shape() {
    let json = config_to_json(&sample_config());
    assert_eq!(
        json,
        "{\"maxItems\":10,\"openShortcut\":\"Ctrl+Super+V\",\
         \"bookmarkShortcut\":\"Ctrl+Super+B\",\"startMinimized\":false}"
    );
}

#[test]
fn config_round_trips_through_save_then_load() {
    let c = AppConfig {
        max_items: 25,
        open_shortcut: "Meta+V".to_string(),
        bookmark_shortcut: "Shift+Alt+B".to_string(),
        start_minimized: true,
    };
    let json = config_to_json(&c);
    let back = config_from_json(&json).expect("canonical document must parse");
    assert_eq!(config_fields(&back), config_fields(&c));
}

#[test]
fn config_with_awkward_characters_round_trips() {
    let c = AppConfig {
        max_items: 0,
        open_shortcut: "quote \" backslash \\ newline \n tab \t".to_string(),
        bookmark_shortcut: String::new(),
        start_minimized: false,
    };
    let json = config_to_json(&c);
    let back = config_from_json(&json).expect("canonical document must parse");
    assert_eq!(config_fields(&back), config_fields(&c));
}

#[test]
fn corrupt_config_falls_back_to_defaults() {
    for bad in ["", "{", "{\"maxItems\":}", "not json at all", "{\"maxItems\":1}"] {
        let c = config_or_default(Some(bad));
        assert_eq!(config_fields(&c), config_fields(&sample_config()));
    }
}

#[test]
fn missing_config_falls_back_to_defaults() {
    let c = config_or_default(None);
    assert_eq!(config_fields(&c), config_fields(&sample_config()));
}

#[test]
fn loaded_config_wins_over_defaults() {
    let json = "{\"maxItems\":3,\"openShortcut\":\"Ctrl+O\",\
                \"bookmarkShortcut\":\"Ctrl+B\",\"startMinimized\":true}";
    let c = config_or_default(Some(json));
    assert_eq!(c.max_items, 3);
    assert_eq!(c.open_shortcut, "Ctrl+O");
    assert_eq!(c.bookmark_shortcut, "Ctrl+B");
    assert!(c.start_minimized);
}

#[test]
fn empty_bookmark_list_is_an_empty_array() {
    let bs: Vec<Bookmark> = Vec::new();
    assert_eq!(bookmarks_to_json(&bs), "[]");
}

#[test]
fn bookmarks_document_has_the_expected_shape() {
    let bs = vec![
        Bookmark { content: "one".to_string() },
        Bookmark { content: "two".to_string() },
    ];
    assert_eq!(
        bookmarks_to_json(&bs),
        "[{\"content\":\"one\"},{\"content\":\"two\"}]"
    );
}

#[test]
fn bookmarks_round_trip_through_save_then_load() {
    let bs = vec![
        Bookmark { content: "plain".to_string() },
        Bookmark { content: "with \"quotes\" and \\slashes\\".to_string() },
        Bookmark { content: String::new() },
    ];
    let json = bookmarks_to_json(&bs);
    let back = bookmarks_from_json(&json).expect("canonical document must parse");
    let got: Vec<String> = back.into_iter().map(|b| b.content).collect();
    let want: Vec<String> = bs.into_iter().map(|b| b.content).collect();
    assert_eq!(got, want);
}

#[test]
fn corrupt_bookmarks_fall_back_to_empty() {
    for bad in ["", "[", "[{\"content\":}]", "{}", "[{\"content\":\"a\"}"] {
        let v = bookmarks_or_default(Some(bad));
        assert!(v.is_empty());
    }
}

#[test]
fn missing_bookmarks_fall_back_to_empty() {
    assert!(bookmarks_or_default(None).is_empty());
}
