//! The store of pinned entries and its toggle semantics.

use vstd::prelude::*;

verus! {

/// A user-pinned text entry whose lifetime is independent of the history.
pub struct Bookmark {
    pub content: String,
}

impl View for Bookmark {
    type V = Seq<char>;

    open spec fn view(&self) -> Seq<char> {
        self.content@
    }
}

impl DeepView for Bookmark {
    type V = Seq<char>;

    open spec fn deep_view(&self) -> Seq<char> {
        self.content@
    }
}

impl Clone for Bookmark {
    fn clone(&self) -> (b: Self)
        ensures
            b == *self,
    {
        Bookmark { content: self.content.clone() }
    }
}

/// Why a command was rejected; the stores are untouched when it is.
#[derive(Clone, Copy, PartialEq, Eq, Structural, Debug)]
pub enum CommandError {
    IndexOutOfRange,
}

/// What `toggle` does: the first entry with this content leaves if one is
/// there; otherwise the content joins at the end.
pub open spec fn toggled(s: Seq<Seq<char>>, c: Seq<char>) -> Seq<Seq<char>> {
    if s.contains(c) {
        s.remove_value(c)
    } else {
        s.push(c)
    }
}

/// `c` stands at no more than one position of `s`.
pub open spec fn at_most_once(s: Seq<Seq<char>>, c: Seq<char>) -> bool {
    forall|i: int, j: int|
        0 <= i < s.len() && 0 <= j < s.len() && s[i] == c && s[j] == c ==> i == j
}

/// Append a pinned entry unconditionally; display order is insertion order,
/// oldest first.
pub fn add_bookmark(bookmarks: &mut Vec<Bookmark>, content: String)
    ensures
        final(bookmarks).deep_view() == old(bookmarks).deep_view().push(content@),
{
    bookmarks.push(Bookmark { content });
    proof {
        assert(bookmarks.deep_view() =~= old(bookmarks).deep_view().push(
            bookmarks@.last().content@,
        ));
    }
}

/// Remove the entry at `index`, shifting the rest; an index at or past the
/// end changes nothing and reports `IndexOutOfRange`.
pub fn remove_bookmark(bookmarks: &mut Vec<Bookmark>, index: usize) -> (r: Result<
    (),
    CommandError,
>)
    ensures
        index < old(bookmarks)@.len() ==> r is Ok && final(bookmarks).deep_view() == old(
            bookmarks,
        ).deep_view().remove(index as int),
        index >= old(bookmarks)@.len() ==> r == Err::<(), CommandError>(
            CommandError::IndexOutOfRange,
        ) && final(bookmarks)@ == old(bookmarks)@,
{
    if index < bookmarks.len() {
        bookmarks.remove(index);
        proof {
            assert(bookmarks.deep_view() =~= old(bookmarks).deep_view().remove(index as int));
        }
        Ok(())
    } else {
        Err(CommandError::IndexOutOfRange)
    }
}

/// Remove the first entry whose content equals `content`, or append one when
/// none does.  Callers that need to know which branch ran re-query the store.
pub fn toggle_bookmark(bookmarks: &mut Vec<Bookmark>, content: String)
    ensures
        final(bookmarks).deep_view() == toggled(old(bookmarks).deep_view(), content@),
{
    let ghost dv = bookmarks.deep_view();
    let n = bookmarks.len();
    let mut i: usize = 0;
    while i < n
        invariant
            n == bookmarks@.len(),
            i <= n,
            bookmarks@ == old(bookmarks)@,
            dv == bookmarks.deep_view(),
            forall|j: int| 0 <= j < i ==> dv[j] != content@,
        decreases n - i,
    {
        if bookmarks[i].content == content {
            proof {
                assert(dv[i as int] == content@);
                assert(dv.contains(content@));
                dv.index_of_first_ensures(content@);
                assert(dv.index_of_first(content@) == Some(i as int));
            }
            bookmarks.remove(i);
            proof {
                assert(bookmarks.deep_view() =~= dv.remove(i as int));
            }
            return ;
        }
        i = i + 1;
    }
    proof {
        assert(!dv.contains(content@)) by {
            if dv.contains(content@) {
                let j = choose|j: int| 0 <= j < dv.len() && dv[j] == content@;
            }
        }
    }
    bookmarks.push(Bookmark { content });
    proof {
        assert(bookmarks.deep_view() =~= dv.push(bookmarks@.last().content@));
    }
}

/// An independent ordered copy of the pinned entries.
pub fn get_bookmarks(bookmarks: &Vec<Bookmark>) -> (r: Vec<Bookmark>)
    ensures
        r@ == bookmarks@,
        r.deep_view() == bookmarks.deep_view(),
{
    let mut r: Vec<Bookmark> = Vec::new();
    let mut i: usize = 0;
    while i < bookmarks.len()
        invariant
            i <= bookmarks.len(),
            r@ == bookmarks@.take(i as int),
        decreases bookmarks.len() - i,
    {
        r.push(bookmarks[i].clone());
        proof {
            assert(r@ =~= bookmarks@.take(i as int + 1));
        }
        i = i + 1;
    }
    proof {
        assert(bookmarks@.take(bookmarks@.len() as int) =~= bookmarks@);
    }
    r
}

/// Toggling the same content twice in a row returns the store to its
/// original membership: when the content stood at no more than one position,
/// the entries afterwards form the same multiset, and when it was absent the
/// list itself is exactly as before.  (With the same content pinned at two
/// positions the pair of toggles removes both, so that case is left out.)
pub proof fn lemma_toggle_twice(s: Seq<Seq<char>>, c: Seq<char>)
    requires
        at_most_once(s, c),
    ensures
        toggled(toggled(s, c), c).to_multiset() == s.to_multiset(),
        !s.contains(c) ==> toggled(toggled(s, c), c) == s,
{
    broadcast use vstd::multiset::group_multiset_axioms;

    if !s.contains(c) {
        let t1 = s.push(c);
        assert(t1[s.len() as int] == c);
        assert(t1.contains(c));
        t1.index_of_first_ensures(c);
        assert forall|j: int| 0 <= j < s.len() implies t1[j] != c by {
            assert(t1[j] == s[j]);
            assert(!s.contains(c));
            if s[j] == c {
                assert(s.contains(c));
            }
        }
        assert(t1.index_of_first(c) == Some(s.len() as int));
        assert(toggled(t1, c) == t1.remove(s.len() as int));
        assert(t1.remove(s.len() as int) =~= s);
    } else {
        let i = choose|i: int| 0 <= i < s.len() && s[i] == c;
        s.index_of_first_ensures(c);
        let k = s.index_of_first(c).unwrap();
        assert(s[k] == c);
        assert(k == i);
        let t1 = s.remove(i);
        s.remove_ensures(i);
        assert(!t1.contains(c)) by {
            if t1.contains(c) {
                let j = choose|j: int| 0 <= j < t1.len() && t1[j] == c;
                if j < i {
                    assert(t1[j] == s[j]);
                } else {
                    assert(t1[j] == s[j + 1]);
                }
            }
        }
        let t2 = t1.push(c);
        assert(toggled(toggled(s, c), c) == t2);
        s.to_multiset_ensures();
        t1.to_multiset_ensures();
        assert(t1.to_multiset() =~= s.to_multiset().remove(c));
        assert(t2.to_multiset() =~= t1.to_multiset().insert(c));
        assert(s.to_multiset().count(c) > 0);
        assert(t2.to_multiset() =~= s.to_multiset());
    }
}

} // verus!
