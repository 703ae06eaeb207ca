//! The application configuration.

use vstd::prelude::*;

verus! {

/// The whole configuration, replaced atomically by `set_config`.
pub struct AppConfig {
    /// The capacity of the history buffer.
    pub max_items: usize,
    /// The chord that shows the main window.
    pub open_shortcut: String,
    /// The chord that pins the most recently copied entry.
    pub bookmark_shortcut: String,
    /// Whether the main window starts hidden.
    pub start_minimized: bool,
}

impl Clone for AppConfig {
    fn clone(&self) -> (c: Self)
        ensures
            c == *self,
    {
        AppConfig {
            max_items: self.max_items,
            open_shortcut: self.open_shortcut.clone(),
            bookmark_shortcut: self.bookmark_shortcut.clone(),
            start_minimized: self.start_minimized,
        }
    }
}

/// The hardcoded fallback used whenever no persisted configuration can be
/// read.
pub open spec fn is_default_config(c: AppConfig) -> bool {
    c.max_items == 10 && c.open_shortcut@ == "Ctrl+Super+V"@ && c.bookmark_shortcut@
        == "Ctrl+Super+B"@ && c.start_minimized == false
}

/// The configuration a fresh start falls back to.
pub fn default_config() -> (c: AppConfig)
    ensures
        is_default_config(c),
{
    AppConfig {
        max_items: 10,
        open_shortcut: String::from_str("Ctrl+Super+V"),
        bookmark_shortcut: String::from_str("Ctrl+Super+B"),
        start_minimized: false,
    }
}

} // verus!
