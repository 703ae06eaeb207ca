use clipboard_manager::bookmarks::Bookmark;
use clipboard_manager::menu::{
    bookmarks_as_menu_items_for_tray, build_menu_model, display_label,
    history_as_menu_items_for_tray, resolve_menu_id, MenuAction, MenuKind,
};

#[test]
fn history_items_get_indexed_ids() {
    let items = vec!["first".to_string(), "second".to_string()];
    let menu = history_as_menu_items_for_tray(&items);
    assert_eq!(menu.len(), 2);
    assert_eq!(menu[0].0, "item_0");
    assert_eq!(menu[0].1, "first");
    assert_eq!(menu[1].0, "item_1");
    assert_eq!(menu[1].1, "second");
}

#[test]
fn bookmark_items_get_indexed_ids() {
    let bs = vec![
        Bookmark { content: "pin one".to_string() },
        Bookmark { content: "pin two".to_string() },
    ];
    let menu = bookmarks_as_menu_items_for_tray(&bs);
    assert_eq!(menu.len(), 2);
    assert_eq!(menu[0].0, "item_bm_0");
    assert_eq!(menu[0].1, "pin one");
    assert_eq!(menu[1].0, "item_bm_1");
    assert_eq!(menu[1].1, "pin two");
}

#[test]
fn long_labels_are_truncated_to_thirty_chars() {
    let text: String = std::iter::repeat('a').take(35).collect();
    let label = display_label(&text);
    let expected: String = std::iter::repeat('a').take(30).collect::<String>() + "...";
    assert_eq!(label, expected);
}

#[test]
fn thirty_char_label_is_kept_whole() {
    let text: String = std::iter::repeat('b').take(30).collect();
    assert_eq!(display_label(&text), text);
}

#[test]
fn eleventh_item_id_uses_two_digits() {
    let items: Vec<String> = (0..11).map(|i| format!("t{}", i)).collect();
    let menu = history_as_menu_items_for_tray(&items);
    assert_eq!(menu[10].0, "item_10");
}

#[test]
fn model_layout_sections_and_fixed_entries() {
    let bs = vec![Bookmark { content: "pinned".to_string() }];
    let items = vec!["one".to_string(), "two".to_string()];
    let m = build_menu_model(&bs, &items);
    assert_eq!(m.len(), 1 + 2 + 6);
    assert_eq!(m[0].kind, MenuKind::Header);
    assert_eq!(m[0].label, "BOOKMARKS");
    assert_eq!(m[1].kind, MenuKind::Entry);
    assert_eq!(m[1].id, "item_bm_0");
    assert_eq!(m[1].label, "pinned");
    assert_eq!(m[2].kind, MenuKind::Separator);
    assert_eq!(m[3].kind, MenuKind::Header);
    assert_eq!(m[3].label, "CLIPBOARD");
    assert_eq!(m[4].kind, MenuKind::Entry);
    assert_eq!(m[4].id, "item_0");
    assert_eq!(m[5].id, "item_1");
    assert_eq!(m[6].kind, MenuKind::Separator);
    assert_eq!(m[7].id, "show");
    assert_eq!(m[7].label, "Settings");
    assert_eq!(m[8].id, "quit");
    assert_eq!(m[8].label, "Quit");
}

#[test]
fn fixed_ids_resolve_to_their_actions() {
    assert_eq!(resolve_menu_id("quit"), MenuAction::Quit);
    assert_eq!(resolve_menu_id("show"), MenuAction::ShowSettings);
}

#[test]
fn item_ids_resolve_to_their_indices() {
    assert_eq!(resolve_menu_id("item_bm_7"), MenuAction::PasteBookmark(7));
    assert_eq!(resolve_menu_id("item_12"), MenuAction::PasteHistory(12));
    assert_eq!(resolve_menu_id("item_0"), MenuAction::PasteHistory(0));
}

#[test]
fn malformed_ids_are_ignored() {
    assert_eq!(resolve_menu_id(""), MenuAction::Ignored);
    assert_eq!(resolve_menu_id("item_"), MenuAction::Ignored);
    assert_eq!(resolve_menu_id("item_bm_"), MenuAction::Ignored);
    assert_eq!(resolve_menu_id("item_007"), MenuAction::Ignored);
    assert_eq!(resolve_menu_id("item_bm_x"), MenuAction::Ignored);
    assert_eq!(resolve_menu_id("nonsense"), MenuAction::Ignored);
}

#[test]
fn generated_ids_resolve_back_to_their_store() {
    let bs = vec![
        Bookmark { content: "a".to_string() },
        Bookmark { content: "b".to_string() },
    ];
    let items = vec!["x".to_string()];
    let m = build_menu_model(&bs, &items);
    assert_eq!(resolve_menu_id(&m[1].id), MenuAction::PasteBookmark(0));
    assert_eq!(resolve_menu_id(&m[2].id), MenuAction::PasteBookmark(1));
    assert_eq!(resolve_menu_id(&m[5].id), MenuAction::PasteHistory(0));
}
