use clipboard_manager::history::ClipboardHistory;

fn items(h: &ClipboardHistory) -> Vec<String> {
    h.get_items()
}

#[test]
fn capacity_three_drops_oldest() {
    let mut h = ClipboardHistory::new(3);
    h.add_item("a".to_string());
    h.add_item("b".to_string());
    h.add_item("c".to_string());
    h.add_item("d".to_string());
    assert_eq!(items(&h), vec!["d".to_string(), "c".to_string(), "b".to_string()]);
}

#[test]
fn re_add_moves_to_front() {
    let mut h = ClipboardHistory::new(10);
    h.add_item("y".to_string());
    h.add_item("x".to_string());
    assert_eq!(items(&h), vec!["x".to_string(), "y".to_string()]);
    h.add_item("y".to_string());
    assert_eq!(items(&h), vec!["y".to_string(), "x".to_string()]);
}

#[test]
fn re_add_keeps_size() {
    let mut h = ClipboardHistory::new(5);
    h.add_item("a".to_string());
    h.add_item("b".to_string());
    h.add_item("c".to_string());
    h.add_item("b".to_string());
    let got = items(&h);
    assert_eq!(got.len(), 3);
    assert_eq!(got, vec!["b".to_string(), "c".to_string(), "a".to_string()]);
}

#[test]
fn empty_text_is_accepted() {
    let mut h = ClipboardHistory::new(3);
    h.add_item(String::new());
    h.add_item("a".to_string());
    assert_eq!(items(&h), vec!["a".to_string(), String::new()]);
}

#[test]
fn remove_item_drops_every_occurrence() {
    let mut h = ClipboardHistory::new(4);
    h.add_item("a".to_string());
    h.add_item("b".to_string());
    h.remove_item("a".to_string());
    assert_eq!(items(&h), vec!["b".to_string()]);
}

#[test]
fn remove_item_absent_is_no_op() {
    let mut h = ClipboardHistory::new(4);
    h.add_item("a".to_string());
    h.remove_item("zzz".to_string());
    assert_eq!(items(&h), vec!["a".to_string()]);
}

#[test]
fn resize_keeps_most_recent_in_order() {
    let mut h = ClipboardHistory::new(10);
    h.add_item("c".to_string());
    h.add_item("b".to_string());
    h.add_item("a".to_string());
    assert_eq!(items(&h), vec!["a".to_string(), "b".to_string(), "c".to_string()]);
    h.change_limit(2);
    assert_eq!(items(&h), vec!["a".to_string(), "b".to_string()]);
}

#[test]
fn resize_larger_keeps_everything() {
    let mut h = ClipboardHistory::new(2);
    h.add_item("b".to_string());
    h.add_item("a".to_string());
    h.change_limit(5);
    assert_eq!(items(&h), vec!["a".to_string(), "b".to_string()]);
    h.add_item("c".to_string());
    assert_eq!(items(&h).len(), 3);
}

#[test]
fn capacity_zero_holds_nothing() {
    let mut h = ClipboardHistory::new(0);
    h.add_item("a".to_string());
    assert_eq!(items(&h).len(), 0);
}

#[test]
fn size_stays_bounded_and_free_of_duplicates() {
    let mut h = ClipboardHistory::new(4);
    let words = ["a", "b", "a", "c", "b", "d", "e", "a", "f", "f"];
    for w in words.iter() {
        h.add_item(w.to_string());
        let got = items(&h);
        assert!(got.len() <= 4);
        for i in 0..got.len() {
            for j in 0..got.len() {
                if i != j {
                    assert_ne!(got[i], got[j]);
                }
            }
        }
    }
    assert_eq!(
        items(&h),
        vec!["f".to_string(), "a".to_string(), "e".to_string(), "d".to_string()]
    );
}
