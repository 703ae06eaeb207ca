use clipboard_manager::chord::{parse_chord, ChordModifier};

#[test]
fn plain_chord_parses() {
    let c = parse_chord("Ctrl+Shift+V").expect("chord must parse");
    assert_eq!(c.modifiers, vec![ChordModifier::Ctrl, ChordModifier::Shift]);
    assert_eq!(c.key, "V");
}

#[test]
fn meta_is_an_alias_of_super() {
    let c = parse_chord("Meta+V").expect("chord must parse");
    assert_eq!(c.modifiers, vec![ChordModifier::Super]);
    assert_eq!(c.key, "V");
    let d = parse_chord("Super+V").expect("chord must parse");
    assert_eq!(d.modifiers, vec![ChordModifier::Super]);
}

#[test]
fn bare_key_parses_without_modifiers() {
    let c = parse_chord("F9").expect("chord must parse");
    assert!(c.modifiers.is_empty());
    assert_eq!(c.key, "F9");
}

#[test]
fn default_shortcuts_parse() {
    let open = parse_chord("Ctrl+Super+V").expect("default open chord must parse");
    assert_eq!(open.modifiers, vec![ChordModifier::Ctrl, ChordModifier::Super]);
    assert_eq!(open.key, "V");
    let bookmark = parse_chord("Ctrl+Super+B").expect("default bookmark chord must parse");
    assert_eq!(bookmark.key, "B");
}

#[test]
fn malformed_chords_are_rejected() {
    assert!(parse_chord("").is_none());
    assert!(parse_chord("+V").is_none());
    assert!(parse_chord("Ctrl+").is_none());
    assert!(parse_chord("Foo+V").is_none());
    assert!(parse_chord("Ctrl+Shift").is_none());
    assert!(parse_chord("Ctrl++V").is_none());
}
