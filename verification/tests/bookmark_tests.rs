use clipboard_manager::bookmarks::{
    add_bookmark, get_bookmarks, remove_bookmark, toggle_bookmark, Bookmark, CommandError,
};

fn contents(bs: &Vec<Bookmark>) -> Vec<String> {
    bs.iter().map(|b| b.content.clone()).collect()
}

#[test]
fn toggle_adds_then_removes() {
    let mut bs: Vec<Bookmark> = Vec::new();
    toggle_bookmark(&mut bs, "hello".to_string());
    assert_eq!(contents(&bs), vec!["hello".to_string()]);
    toggle_bookmark(&mut bs, "hello".to_string());
    assert!(bs.is_empty());
}

#[test]
fn toggle_removes_first_occurrence_only() {
    let mut bs: Vec<Bookmark> = Vec::new();
    add_bookmark(&mut bs, "a".to_string());
    add_bookmark(&mut bs, "b".to_string());
    add_bookmark(&mut bs, "a".to_string());
    toggle_bookmark(&mut bs, "a".to_string());
    assert_eq!(contents(&bs), vec!["b".to_string(), "a".to_string()]);
}

#[test]
fn add_appends_in_insertion_order() {
    let mut bs: Vec<Bookmark> = Vec::new();
    add_bookmark(&mut bs, "one".to_string());
    add_bookmark(&mut bs, "two".to_string());
    add_bookmark(&mut bs, "one".to_string());
    assert_eq!(contents(&bs), vec!["one".to_string(), "two".to_string(), "one".to_string()]);
}

#[test]
fn remove_out_of_range_reports_and_keeps_list() {
    let mut bs: Vec<Bookmark> = Vec::new();
    add_bookmark(&mut bs, "a".to_string());
    add_bookmark(&mut bs, "b".to_string());
    let r = remove_bookmark(&mut bs, 5);
    assert_eq!(r, Err(CommandError::IndexOutOfRange));
    assert_eq!(contents(&bs), vec!["a".to_string(), "b".to_string()]);
}

#[test]
fn remove_at_length_is_out_of_range() {
    let mut bs: Vec<Bookmark> = Vec::new();
    add_bookmark(&mut bs, "a".to_string());
    let r = remove_bookmark(&mut bs, 1);
    assert_eq!(r, Err(CommandError::IndexOutOfRange));
    assert_eq!(contents(&bs), vec!["a".to_string()]);
}

#[test]
fn remove_shifts_the_rest() {
    let mut bs: Vec<Bookmark> = Vec::new();
    add_bookmark(&mut bs, "a".to_string());
    add_bookmark(&mut bs, "b".to_string());
    add_bookmark(&mut bs, "c".to_string());
    let r = remove_bookmark(&mut bs, 1);
    assert_eq!(r, Ok(()));
    assert_eq!(contents(&bs), vec!["a".to_string(), "c".to_string()]);
}

#[test]
fn snapshot_is_independent() {
    let mut bs: Vec<Bookmark> = Vec::new();
    add_bookmark(&mut bs, "a".to_string());
    let snap = get_bookmarks(&bs);
    add_bookmark(&mut bs, "b".to_string());
    assert_eq!(contents(&snap), vec!["a".to_string()]);
    assert_eq!(contents(&bs), vec!["a".to_string(), "b".to_string()]);
}
