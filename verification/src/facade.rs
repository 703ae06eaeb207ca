//! The command surface: each operation mutates one store and hands the
//! caller what it needs to persist and re-register afterwards.  Persistence
//! and menu rebuilds run outside any store lock, against snapshots.

use crate::bookmarks::{toggle_bookmark, toggled, Bookmark};
use crate::chord::{chord_spec, parse_chord, ShortcutChord};
use crate::config::AppConfig;
use crate::history::{clipped, without, ClipboardHistory};
use vstd::prelude::*;

verus! {

/// Why a configuration change was rejected; the stores are untouched when
/// it is.
#[derive(Clone, Copy, PartialEq, Eq, Structural, Debug)]
pub enum ConfigError {
    /// The chord that shows the main window does not parse.
    InvalidOpenShortcut,
    /// The chord that pins the last copy does not parse.
    InvalidBookmarkShortcut,
}

/// A copy of the current configuration.
pub fn get_config(config: &AppConfig) -> (c: AppConfig)
    ensures
        c == *config,
{
    config.clone()
}

/// Replace the configuration wholesale and resize the history to the new
/// capacity.  A chord string that does not parse is fatal to the whole
/// call: nothing changes and the previous shortcuts stay registered.  On
/// success the two parsed chords come back for the caller to register.
pub fn set_config(
    config: &mut AppConfig,
    history: &mut ClipboardHistory,
    new_config: AppConfig,
) -> (r: Result<(ShortcutChord, ShortcutChord), ConfigError>)
    requires
        old(history).wf(),
    ensures
        final(history).wf(),
        chord_spec(new_config.open_shortcut@) is None ==> r == Err::<
            (ShortcutChord, ShortcutChord),
            ConfigError,
        >(ConfigError::InvalidOpenShortcut),
        chord_spec(new_config.open_shortcut@) is Some && chord_spec(new_config.bookmark_shortcut@)
            is None ==> r == Err::<(ShortcutChord, ShortcutChord), ConfigError>(
            ConfigError::InvalidBookmarkShortcut,
        ),
        chord_spec(new_config.open_shortcut@) is Some && chord_spec(new_config.bookmark_shortcut@)
            is Some ==> r is Ok,
        r is Err ==> *final(config) == *old(config) && final(history)@ == old(history)@
            && final(history).capacity() == old(history).capacity(),
        r is Ok ==> {
            let chords = r.unwrap();
            &&& chord_spec(new_config.open_shortcut@) == Some(
                (chords.0.modifiers@, chords.0.key@),
            )
            &&& chord_spec(new_config.bookmark_shortcut@) == Some(
                (chords.1.modifiers@, chords.1.key@),
            )
            &&& *final(config) == new_config
            &&& final(history)@ == clipped(old(history)@, new_config.max_items as nat)
            &&& final(history).capacity() == new_config.max_items
        },
{
    let open_chord = match parse_chord(new_config.open_shortcut.as_str()) {
        Some(c) => c,
        None => {
            return Err(ConfigError::InvalidOpenShortcut);
        },
    };
    let bookmark_chord = match parse_chord(new_config.bookmark_shortcut.as_str()) {
        Some(c) => c,
        None => {
            return Err(ConfigError::InvalidBookmarkShortcut);
        },
    };
    history.change_limit(new_config.max_items);
    *config = new_config;
    Ok((open_chord, bookmark_chord))
}

/// An independent copy of the history, most recent first.
pub fn get_clipboard_items(history: &ClipboardHistory) -> (r: Vec<String>)
    ensures
        r.deep_view() == history@,
{
    history.get_items()
}

/// Drop every history entry equal to `item`; an absent value is no error.
pub fn delete_clipboard_item(history: &mut ClipboardHistory, item: String)
    requires
        old(history).wf(),
    ensures
        final(history)@ == without(old(history)@, item@),
        final(history).capacity() == old(history).capacity(),
        final(history).wf(),
{
    history.remove_item(item);
}

/// The bookmark-last-copied action: toggle the most recently copied text in
/// the bookmark store.  With an empty history nothing happens.
pub fn bookmark_most_recent(history: &ClipboardHistory, bookmarks: &mut Vec<Bookmark>) -> (changed:
    bool)
    ensures
        !changed ==> history@.len() == 0 && final(bookmarks)@ == old(bookmarks)@,
        changed ==> history@.len() > 0 && final(bookmarks).deep_view() == toggled(
            old(bookmarks).deep_view(),
            history@[0],
        ),
{
    let items = history.get_items();
    if items.len() == 0 {
        return false;
    }
    let first = items[0].clone();
    proof {
        assert(first@ == items.deep_view()[0]);
    }
    toggle_bookmark(bookmarks, first);
    true
}

} // verus!
