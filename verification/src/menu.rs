//! The menu model derived from the bookmark store and the history, and the
//! id scheme that routes a chosen entry back to its store index.

use crate::bookmarks::Bookmark;
use crate::decimal::{
    dec_digits, format_usize, lemma_dec_digits_injective, lemma_dec_digits_len,
    lemma_dec_digits_wf, parse_usize, spec_parse_usize,
};
use crate::text::str_eq;
use vstd::prelude::*;

verus! {

/// The label shown for a text: at most 30 characters, with an ellipsis
/// marker when the text was longer.
pub open spec fn label_of(s: Seq<char>) -> Seq<char> {
    if s.len() > 30 {
        s.take(30) + "..."@
    } else {
        s
    }
}

/// The menu id of the history entry at index `k`.
pub open spec fn history_id(k: nat) -> Seq<char> {
    "item_"@ + dec_digits(k)
}

/// The menu id of the bookmark at index `k`.
pub open spec fn bookmark_id(k: nat) -> Seq<char> {
    "item_bm_"@ + dec_digits(k)
}

/// The display label of one text.
pub fn display_label(s: &str) -> (r: String)
    ensures
        r@ == label_of(s@),
{
    let n = s.unicode_len();
    if n > 30 {
        let mut t = String::from_str(s.substring_char(0, 30));
        t.append("...");
        proof {
            assert(t@ =~= label_of(s@));
        }
        t
    } else {
        String::from_str(s)
    }
}

fn history_id_string(k: usize) -> (s: String)
    ensures
        s@ == history_id(k as nat),
{
    let mut s = String::from_str("item_");
    let d = format_usize(k);
    s.append(d.as_str());
    s
}

fn bookmark_id_string(k: usize) -> (s: String)
    ensures
        s@ == bookmark_id(k as nat),
{
    let mut s = String::from_str("item_bm_");
    let d = format_usize(k);
    s.append(d.as_str());
    s
}

/// One (id, label) pair per history entry: the entry at index `k` gets id
/// `item_<k>` and its truncated text as label.
pub fn history_as_menu_items_for_tray(history: &Vec<String>) -> (r: Vec<(String, String)>)
    ensures
        r@.len() == history@.len(),
        forall|k: int|
            #![trigger r@[k]]
            0 <= k < r@.len() ==> r@[k].0@ == history_id(k as nat) && r@[k].1@ == label_of(
                history.deep_view()[k],
            ),
{
    let mut r: Vec<(String, String)> = Vec::new();
    let mut i: usize = 0;
    while i < history.len()
        invariant
            i <= history@.len(),
            r@.len() == i,
            forall|k: int|
                #![trigger r@[k]]
                0 <= k < i ==> r@[k].0@ == history_id(k as nat) && r@[k].1@ == label_of(
                    history.deep_view()[k],
                ),
        decreases history@.len() - i,
    {
        let id = history_id_string(i);
        let label = display_label(history[i].as_str());
        r.push((id, label));
        proof {
            assert(r@[i as int].0@ == history_id(i as nat));
            assert(history.deep_view()[i as int] == history@[i as int]@);
            assert(r@[i as int].1@ == label_of(history.deep_view()[i as int]));
        }
        i = i + 1;
    }
    r
}

/// One (id, label) pair per bookmark: the bookmark at index `k` gets id
/// `item_bm_<k>` and its truncated content as label.
pub fn bookmarks_as_menu_items_for_tray(bookmarks: &Vec<Bookmark>) -> (r: Vec<(String, String)>)
    ensures
        r@.len() == bookmarks@.len(),
        forall|k: int|
            #![trigger r@[k]]
            0 <= k < r@.len() ==> r@[k].0@ == bookmark_id(k as nat) && r@[k].1@ == label_of(
                bookmarks.deep_view()[k],
            ),
{
    let mut r: Vec<(String, String)> = Vec::new();
    let mut i: usize = 0;
    while i < bookmarks.len()
        invariant
            i <= bookmarks@.len(),
            r@.len() == i,
            forall|k: int|
                #![trigger r@[k]]
                0 <= k < i ==> r@[k].0@ == bookmark_id(k as nat) && r@[k].1@ == label_of(
                    bookmarks.deep_view()[k],
                ),
        decreases bookmarks@.len() - i,
    {
        let id = bookmark_id_string(i);
        let label = display_label(bookmarks[i].content.as_str());
        r.push((id, label));
        proof {
            assert(r@[i as int].0@ == bookmark_id(i as nat));
            assert(bookmarks.deep_view()[i as int] == bookmarks@[i as int]@);
            assert(r@[i as int].1@ == label_of(bookmarks.deep_view()[i as int]));
        }
        i = i + 1;
    }
    r
}

/// The role of one line of the derived menu.
#[derive(Clone, Copy, PartialEq, Eq, Structural, Debug)]
pub enum MenuKind {
    /// A non-interactive section header.
    Header,
    /// A selectable entry whose id routes back to a store index.
    Entry,
    Separator,
}

/// One line of the derived menu; `id` is empty except on entries.
pub struct MenuEntry {
    pub kind: MenuKind,
    pub id: String,
    pub label: String,
}

fn header_entry(label: &str) -> (e: MenuEntry)
    ensures
        e.kind == MenuKind::Header,
        e.label@ == label@,
{
    MenuEntry { kind: MenuKind::Header, id: String::new(), label: String::from_str(label) }
}

fn separator_entry() -> (e: MenuEntry)
    ensures
        e.kind == MenuKind::Separator,
{
    MenuEntry { kind: MenuKind::Separator, id: String::new(), label: String::new() }
}

/// The flat, ordered menu derived from one bookmark snapshot and one history
/// snapshot: a bookmarks section, a separator, a clipboard section, then the
/// fixed settings and quit entries.
pub fn build_menu_model(bookmarks: &Vec<Bookmark>, items: &Vec<String>) -> (m: Vec<MenuEntry>)
    ensures
        m@.len() == bookmarks@.len() + items@.len() + 6,
        m@[0].kind == MenuKind::Header && m@[0].label@ == "BOOKMARKS"@,
        forall|k: int|
            #![trigger m@[1 + k]]
            0 <= k < bookmarks@.len() ==> m@[1 + k].kind == MenuKind::Entry && m@[1 + k].id@
                == bookmark_id(k as nat) && m@[1 + k].label@ == label_of(bookmarks.deep_view()[k]),
        m@[1 + bookmarks@.len() as int].kind == MenuKind::Separator,
        m@[2 + bookmarks@.len() as int].kind == MenuKind::Header && m@[2 + bookmarks@.len() as int].label@
            == "CLIPBOARD"@,
        forall|k: int|
            #![trigger m@[3 + bookmarks@.len() + k]]
            0 <= k < items@.len() ==> m@[3 + bookmarks@.len() + k].kind == MenuKind::Entry && m@[3
                + bookmarks@.len() + k].id@ == history_id(k as nat) && m@[3 + bookmarks@.len()
                + k].label@ == label_of(items.deep_view()[k]),
        m@[3 + bookmarks@.len() + items@.len() as int].kind == MenuKind::Separator,
        m@[4 + bookmarks@.len() + items@.len() as int].kind == MenuKind::Entry && m@[4 + bookmarks@.len()
            + items@.len() as int].id@ == "show"@ && m@[4 + bookmarks@.len() + items@.len() as int].label@
            == "Settings"@,
        m@[5 + bookmarks@.len() + items@.len() as int].kind == MenuKind::Entry && m@[5 + bookmarks@.len()
            + items@.len() as int].id@ == "quit"@ && m@[5 + bookmarks@.len() + items@.len() as int].label@
            == "Quit"@,
{
    let mut m: Vec<MenuEntry> = Vec::new();
    m.push(header_entry("BOOKMARKS"));
    let bm_items = bookmarks_as_menu_items_for_tray(bookmarks);
    let mut i: usize = 0;
    while i < bm_items.len()
        invariant
            i <= bm_items@.len(),
            m@.len() == 1 + i,
            m@[0].kind == MenuKind::Header && m@[0].label@ == "BOOKMARKS"@,
            bm_items@.len() == bookmarks@.len(),
            forall|k: int|
                #![trigger bm_items@[k]]
                0 <= k < bm_items@.len() ==> bm_items@[k].0@ == bookmark_id(k as nat)
                    && bm_items@[k].1@ == label_of(bookmarks.deep_view()[k]),
            forall|k: int|
                #![trigger m@[1 + k]]
                0 <= k < i ==> m@[1 + k].kind == MenuKind::Entry && m@[1 + k].id@ == bookmark_id(
                    k as nat,
                ) && m@[1 + k].label@ == label_of(bookmarks.deep_view()[k]),
        decreases bm_items@.len() - i,
    {
        let id = bm_items[i].0.clone();
        let label = bm_items[i].1.clone();
        m.push(MenuEntry { kind: MenuKind::Entry, id, label });
        i = i + 1;
    }
    m.push(separator_entry());
    m.push(header_entry("CLIPBOARD"));
    let ghost base = m@.len();
    let hist_items = history_as_menu_items_for_tray(items);
    let mut j: usize = 0;
    while j < hist_items.len()
        invariant
            j <= hist_items@.len(),
            m@.len() == base + j,
            base == 3 + bookmarks@.len(),
            hist_items@.len() == items@.len(),
            forall|k: int|
                #![trigger hist_items@[k]]
                0 <= k < hist_items@.len() ==> hist_items@[k].0@ == history_id(k as nat)
                    && hist_items@[k].1@ == label_of(items.deep_view()[k]),
            m@[0].kind == MenuKind::Header && m@[0].label@ == "BOOKMARKS"@,
            forall|k: int|
                #![trigger m@[1 + k]]
                0 <= k < bookmarks@.len() ==> m@[1 + k].kind == MenuKind::Entry && m@[1 + k].id@
                    == bookmark_id(k as nat) && m@[1 + k].label@ == label_of(
                    bookmarks.deep_view()[k],
                ),
            m@[1 + bookmarks@.len() as int].kind == MenuKind::Separator,
            m@[2 + bookmarks@.len() as int].kind == MenuKind::Header && m@[2 + bookmarks@.len() as int].label@
                == "CLIPBOARD"@,
            forall|k: int|
                #![trigger m@[base + k]]
                0 <= k < j ==> m@[base + k].kind == MenuKind::Entry && m@[base + k].id@
                    == history_id(k as nat) && m@[base + k].label@ == label_of(
                    items.deep_view()[k],
                ),
        decreases hist_items@.len() - j,
    {
        let id = hist_items[j].0.clone();
        let label = hist_items[j].1.clone();
        m.push(MenuEntry { kind: MenuKind::Entry, id, label });
        j = j + 1;
    }
    m.push(separator_entry());
    m.push(
        MenuEntry {
            kind: MenuKind::Entry,
            id: String::from_str("show"),
            label: String::from_str("Settings"),
        },
    );
    m.push(
        MenuEntry {
            kind: MenuKind::Entry,
            id: String::from_str("quit"),
            label: String::from_str("Quit"),
        },
    );
    m
}

/// What choosing a menu id means.
#[derive(Clone, Copy, PartialEq, Eq, Debug)]
pub enum MenuAction {
    /// Terminate the process.
    Quit,
    /// Show and focus the main window.
    ShowSettings,
    /// Copy the bookmark at this index back to the clipboard and paste it.
    PasteBookmark(usize),
    /// Copy the history entry at this index back to the clipboard and paste
    /// it.
    PasteHistory(usize),
    /// An id from no current rebuild; nothing happens.
    Ignored,
}

pub open spec fn is_bookmark_item_id(s: Seq<char>) -> bool {
    s.len() > 8 && s.take(8) == "item_bm_"@ && spec_parse_usize(s.skip(8)) is Some
}

pub open spec fn is_history_item_id(s: Seq<char>) -> bool {
    s.len() > 5 && s.take(5) == "item_"@ && spec_parse_usize(s.skip(5)) is Some
}

/// The action a menu id stands for: the fixed ids name themselves, an
/// `item_bm_<k>` or `item_<k>` id names its store index, and anything else
/// is ignored.
pub open spec fn resolved_action(s: Seq<char>) -> MenuAction {
    if s == "quit"@ {
        MenuAction::Quit
    } else if s == "show"@ {
        MenuAction::ShowSettings
    } else if is_bookmark_item_id(s) {
        MenuAction::PasteBookmark(spec_parse_usize(s.skip(8)).unwrap())
    } else if is_history_item_id(s) {
        MenuAction::PasteHistory(spec_parse_usize(s.skip(5)).unwrap())
    } else {
        MenuAction::Ignored
    }
}

/// Decide what a chosen menu id asks for.
pub fn resolve_menu_id(id: &str) -> (a: MenuAction)
    ensures
        a == resolved_action(id@),
{
    if str_eq(id, "quit") {
        return MenuAction::Quit;
    }
    if str_eq(id, "show") {
        return MenuAction::ShowSettings;
    }
    let n = id.unicode_len();
    if n > 8 && str_eq(id.substring_char(0, 8), "item_bm_") {
        proof {
            assert(id@.take(8) =~= id@.subrange(0, 8));
        }
        let tail = id.substring_char(8, n);
        proof {
            assert(tail@ =~= id@.skip(8));
        }
        match parse_usize(tail) {
            Some(k) => {
                return MenuAction::PasteBookmark(k);
            },
            None => {
            },
        }
    } else {
        proof {
            if id@.len() > 8 {
                assert(id@.take(8) =~= id@.subrange(0, 8));
            }
        }
    }
    if n > 5 && str_eq(id.substring_char(0, 5), "item_") {
        proof {
            assert(id@.take(5) =~= id@.subrange(0, 5));
        }
        let tail = id.substring_char(5, n);
        proof {
            assert(tail@ =~= id@.skip(5));
        }
        match parse_usize(tail) {
            Some(k) => {
                return MenuAction::PasteHistory(k);
            },
            None => {
            },
        }
    } else {
        proof {
            if id@.len() > 5 {
                assert(id@.take(5) =~= id@.subrange(0, 5));
            }
        }
    }
    MenuAction::Ignored
}

/// Menu ids are bijective with store indices at the moment of one rebuild:
/// the id given to the bookmark at index `k` resolves back to exactly `k`
/// (and likewise for history entries), and distinct indices, or the two
/// kinds of store, never share an id.
pub proof fn lemma_menu_ids_bijective(j: usize, k: usize)
    ensures
        resolved_action(bookmark_id(k as nat)) == MenuAction::PasteBookmark(k),
        resolved_action(history_id(k as nat)) == MenuAction::PasteHistory(k),
        j != k ==> bookmark_id(j as nat) != bookmark_id(k as nat),
        j != k ==> history_id(j as nat) != history_id(k as nat),
        bookmark_id(j as nat) != history_id(k as nat),
{
    reveal_strlit("item_");
    reveal_strlit("item_bm_");
    reveal_strlit("quit");
    reveal_strlit("show");
    lemma_dec_digits_wf(j as nat);
    lemma_dec_digits_wf(k as nat);
    lemma_dec_digits_len(j as nat);
    lemma_dec_digits_len(k as nat);
    let bid = bookmark_id(k as nat);
    let hid = history_id(k as nat);
    assert(bid.take(8) =~= "item_bm_"@);
    assert(bid.skip(8) =~= dec_digits(k as nat));
    assert(bid != "quit"@ && bid != "show"@) by {
        assert(bid.len() >= 9);
        assert("quit"@.len() == 4 && "show"@.len() == 4);
    }
    assert(spec_parse_usize(dec_digits(k as nat)) == Some(k));
    assert(resolved_action(bid) == MenuAction::PasteBookmark(k));
    assert(hid.take(5) =~= "item_"@);
    assert(hid.skip(5) =~= dec_digits(k as nat));
    assert(hid != "quit"@ && hid != "show"@) by {
        assert(hid.len() >= 6);
        assert("quit"@.len() == 4 && "show"@.len() == 4);
    }
    assert(!is_bookmark_item_id(hid)) by {
        if hid.len() > 8 && hid.take(8) == "item_bm_"@ {
            assert(hid.take(8)[5] == hid[5]);
            assert(hid[5] == dec_digits(k as nat)[0]);
            assert(crate::decimal::is_digit(dec_digits(k as nat)[0]));
            assert("item_bm_"@[5] == 'b');
        }
    }
    assert(resolved_action(hid) == MenuAction::PasteHistory(k));
    if j != k {
        assert(bookmark_id(j as nat).skip(8) =~= dec_digits(j as nat));
        assert(history_id(j as nat).skip(5) =~= dec_digits(j as nat));
        if bookmark_id(j as nat) == bookmark_id(k as nat) {
            lemma_dec_digits_injective(j as nat, k as nat);
        }
        if history_id(j as nat) == history_id(k as nat) {
            lemma_dec_digits_injective(j as nat, k as nat);
        }
    }
    assert(bookmark_id(j as nat) != hid) by {
        if bookmark_id(j as nat) == hid {
            assert(bookmark_id(j as nat)[5] == "item_bm_"@[5]);
            assert(hid[5] == dec_digits(k as nat)[0]);
            assert(crate::decimal::is_digit(dec_digits(k as nat)[0]));
        }
    }
}

} // verus!
