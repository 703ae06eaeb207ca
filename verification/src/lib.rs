//! Core state management for a clipboard-history utility.
//!
//! The library holds the logic of the tool: a bounded, deduplicating,
//! most-recent-first history buffer for copied text, a bookmark store for
//! pinned entries, the application configuration with its hotkey chords, the
//! canonical on-disk documents for configuration and bookmarks, and the menu
//! model derived from the stores.  Platform plumbing (tray rendering, the
//! clipboard primitive, hotkey registration, file access) stays outside and
//! talks to this crate through plain values.

pub mod bookmarks;
pub mod decimal;
pub mod chord;
pub mod codec;
pub mod config;
pub mod facade;
pub mod menu;
pub mod text;
pub mod history;
