//! The bounded, deduplicating, most-recent-first history of copied text.

use vstd::prelude::*;

verus! {

/// `s` with every element equal to `x` dropped; the order of the rest is kept.
pub open spec fn without<A>(s: Seq<A>, x: A) -> Seq<A>
    decreases s.len(),
{
    if s.len() == 0 {
        Seq::empty()
    } else if s.last() == x {
        without(s.drop_last(), x)
    } else {
        without(s.drop_last(), x).push(s.last())
    }
}

/// `s` cut to its first `cap` elements.
pub open spec fn clipped<A>(s: Seq<A>, cap: nat) -> Seq<A> {
    if s.len() <= cap {
        s
    } else {
        s.take(cap as int)
    }
}

/// What one `add` does to the buffer: the value leaves wherever it already
/// stands, enters at the front, and the result is cut to the capacity.
pub open spec fn added<A>(s: Seq<A>, x: A, cap: nat) -> Seq<A> {
    clipped(seq![x] + without(s, x), cap)
}

/// The buffer after a whole sequence of adds, oldest first.
pub open spec fn added_all<A>(s: Seq<A>, xs: Seq<A>, cap: nat) -> Seq<A>
    decreases xs.len(),
{
    if xs.len() == 0 {
        s
    } else {
        added_all(added(s, xs.first(), cap), xs.drop_first(), cap)
    }
}

/// A history is well formed when no two entries are equal and it holds no
/// more than `cap` entries.
pub open spec fn wf_history<A>(s: Seq<A>, cap: nat) -> bool {
    s.no_duplicates() && s.len() <= cap
}

pub proof fn lemma_without_len<A>(s: Seq<A>, x: A)
    ensures
        without(s, x).len() <= s.len(),
    decreases s.len(),
{
    if s.len() > 0 {
        lemma_without_len(s.drop_last(), x);
    }
}

pub proof fn lemma_without_excludes<A>(s: Seq<A>, x: A)
    ensures
        forall|i: int| 0 <= i < without(s, x).len() ==> without(s, x)[i] != x,
    decreases s.len(),
{
    if s.len() > 0 {
        lemma_without_excludes(s.drop_last(), x);
        assert forall|i: int| 0 <= i < without(s, x).len() implies without(s, x)[i] != x by {
            if s.last() != x && i == without(s, x).len() - 1 {
                assert(without(s, x)[i] == s.last());
            } else {
                assert(without(s, x)[i] == without(s.drop_last(), x)[i]);
            }
        }
    }
}

/// Every element left by `without` already stood in `s`.
pub proof fn lemma_without_subset<A>(s: Seq<A>, x: A)
    ensures
        forall|y: A| without(s, x).contains(y) ==> s.contains(y),
    decreases s.len(),
{
    if s.len() > 0 {
        lemma_without_subset(s.drop_last(), x);
        assert forall|y: A| without(s, x).contains(y) implies s.contains(y) by {
            let w = without(s, x);
            let d = s.drop_last();
            let i = choose|i: int| 0 <= i < w.len() && w[i] == y;
            if s.last() == x || i < w.len() - 1 {
                assert(without(d, x)[i] == y);
                assert(without(d, x).contains(y));
                assert(d.contains(y));
                let j = choose|j: int| 0 <= j < d.len() && d[j] == y;
                assert(s[j] == y);
                assert(s.contains(y));
            } else {
                assert(s[s.len() - 1] == y);
                assert(s.contains(y));
            }
        }
    }
}

pub proof fn lemma_without_no_duplicates<A>(s: Seq<A>, x: A)
    requires
        s.no_duplicates(),
    ensures
        without(s, x).no_duplicates(),
    decreases s.len(),
{
    if s.len() > 0 {
        let d = s.drop_last();
        assert(d.no_duplicates());
        lemma_without_no_duplicates(d, x);
        lemma_without_subset(d, x);
        if s.last() != x {
            let w = without(d, x);
            assert forall|i: int, j: int|
                0 <= i < w.push(s.last()).len() && 0 <= j < w.push(s.last()).len() && i != j
                implies w.push(s.last())[i] != w.push(s.last())[j] by {
                if i < w.len() && j < w.len() {
                    assert(w[i] != w[j]);
                } else {
                    let k = if i < w.len() { i } else { j };
                    if 0 <= k < w.len() {
                        assert(w.contains(w[k]));
                        assert(d.contains(w[k]));
                        let m = choose|m: int| 0 <= m < d.len() && d[m] == w[k];
                        assert(s[m] == w[k]);
                        assert(s[m] != s[s.len() - 1]);
                    }
                }
            }
        }
    }
}

/// Removing a value that is not there changes nothing.
pub proof fn lemma_without_absent<A>(s: Seq<A>, x: A)
    requires
        !s.contains(x),
    ensures
        without(s, x) == s,
    decreases s.len(),
{
    if s.len() == 0 {
        assert(without(s, x) =~= s);
    } else {
        let d = s.drop_last();
        assert(forall|i: int| 0 <= i < d.len() ==> d[i] == s[i]);
        assert(!d.contains(x)) by {
            if d.contains(x) {
                let i = choose|i: int| 0 <= i < d.len() && d[i] == x;
                assert(s[i] == x);
            }
        }
        lemma_without_absent(d, x);
        assert(s[s.len() - 1] != x);
        assert(without(s, x) =~= s);
    }
}

/// In a buffer without duplicates, removing a value that is present drops
/// exactly one entry.
pub proof fn lemma_without_present_len<A>(s: Seq<A>, x: A)
    requires
        s.no_duplicates(),
        s.contains(x),
    ensures
        without(s, x).len() == s.len() - 1,
    decreases s.len(),
{
    let d = s.drop_last();
    assert(d.no_duplicates());
    if s.last() == x {
        assert(!d.contains(x)) by {
            if d.contains(x) {
                let i = choose|i: int| 0 <= i < d.len() && d[i] == x;
                assert(s[i] == s[s.len() - 1]);
            }
        }
        lemma_without_absent(d, x);
    } else {
        let i = choose|i: int| 0 <= i < s.len() && s[i] == x;
        assert(d[i] == x);
        assert(d.contains(x));
        lemma_without_present_len(d, x);
    }
}

/// The size of a history never exceeds its capacity and no entry repeats,
/// whatever is added.  Applied once per `add`, this carries the invariant
/// through every sequence of adds.
pub proof fn lemma_add_preserves_wf<A>(s: Seq<A>, x: A, cap: nat)
    requires
        wf_history(s, cap),
    ensures
        wf_history(added(s, x, cap), cap),
{
    lemma_without_len(s, x);
    lemma_without_excludes(s, x);
    lemma_without_no_duplicates(s, x);
    let full = seq![x] + without(s, x);
    assert forall|i: int, j: int|
        0 <= i < full.len() && 0 <= j < full.len() && i != j implies full[i] != full[j] by {
        if i > 0 && j > 0 {
            assert(full[i] == without(s, x)[i - 1]);
            assert(full[j] == without(s, x)[j - 1]);
        } else {
            let k = if i == 0 { j } else { i };
            assert(full[k] == without(s, x)[k - 1]);
            assert(full[k] != x);
        }
    }
    assert(full.no_duplicates());
    let out = added(s, x, cap);
    assert(forall|i: int| 0 <= i < out.len() ==> out[i] == full[i]);
    assert(out.no_duplicates());
}

/// The well-formedness of the buffer holds after every sequence of adds.
pub proof fn lemma_adds_preserve_wf<A>(s: Seq<A>, xs: Seq<A>, cap: nat)
    requires
        wf_history(s, cap),
    ensures
        wf_history(added_all(s, xs, cap), cap),
    decreases xs.len(),
{
    if xs.len() > 0 {
        lemma_add_preserves_wf(s, xs.first(), cap);
        lemma_adds_preserve_wf(added(s, xs.first(), cap), xs.drop_first(), cap);
    }
}

/// Re-adding a value already present keeps the size and moves the value to
/// the front; the rest keeps its order.
pub proof fn lemma_re_add_moves_to_front<A>(s: Seq<A>, x: A, cap: nat)
    requires
        wf_history(s, cap),
        s.contains(x),
    ensures
        added(s, x, cap) == seq![x] + without(s, x),
        added(s, x, cap).len() == s.len(),
        added(s, x, cap)[0] == x,
{
    lemma_without_present_len(s, x);
}

/// Cutting to a new capacity keeps exactly the `min(k, len)` most recent
/// entries, in their order.
pub proof fn lemma_resize_keeps_recent<A>(s: Seq<A>, k: nat)
    ensures
        clipped(s, k).len() == if s.len() <= k { s.len() } else { k },
        forall|i: int| 0 <= i < clipped(s, k).len() ==> clipped(s, k)[i] == s[i],
{
}

/// Bounded, deduplicating store of clipboard text, most recent entry first.
/// It is never persisted: it is meant to reset on restart.
pub struct ClipboardHistory {
    items: Vec<String>,
    limit: usize,
}

impl View for ClipboardHistory {
    type V = Seq<Seq<char>>;

    closed spec fn view(&self) -> Seq<Seq<char>> {
        self.items.deep_view()
    }
}

/// A fresh vector holding, in order, the entries of `items` whose text is not
/// `x`.
fn kept_without(items: &Vec<String>, x: &String) -> (r: Vec<String>)
    ensures
        r.deep_view() == without(items.deep_view(), x@),
{
    let mut r: Vec<String> = Vec::new();
    proof {
        assert(r.deep_view() =~= without(items.deep_view().take(0), x@));
    }
    let mut i: usize = 0;
    while i < items.len()
        invariant
            i <= items.len(),
            r.deep_view() == without(items.deep_view().take(i as int), x@),
        decreases items.len() - i,
    {
        let ghost pre = items.deep_view().take(i as int);
        let ghost cur = items.deep_view().take(i as int + 1);
        proof {
            assert(cur.drop_last() =~= pre);
            assert(cur.last() == items.deep_view()[i as int]);
        }
        if items[i] != *x {
            r.push(items[i].clone());
        }
        proof {
            assert(r.deep_view() =~= without(cur, x@));
        }
        i = i + 1;
    }
    proof {
        assert(items.deep_view().take(items@.len() as int) =~= items.deep_view());
    }
    r
}

impl ClipboardHistory {
    /// The capacity the buffer was given.
    pub closed spec fn capacity(&self) -> nat {
        self.limit as nat
    }

    pub open spec fn wf(&self) -> bool {
        wf_history(self@, self.capacity())
    }

    /// An empty history that will hold at most `limit` entries.
    pub fn new(limit: usize) -> (h: Self)
        ensures
            h@ == Seq::<Seq<char>>::empty(),
            h.capacity() == limit,
            h.wf(),
    {
        let h = ClipboardHistory { items: Vec::new(), limit };
        proof {
            assert(h@ =~= Seq::<Seq<char>>::empty());
        }
        h
    }

    /// Put `item` in front.  If the same text is already anywhere in the
    /// buffer it moves to the front instead of repeating; the oldest entries
    /// fall off while the buffer is over capacity.  Empty text is accepted
    /// like any other.
    pub fn add_item(&mut self, item: String)
        requires
            old(self).wf(),
        ensures
            final(self)@ == added(old(self)@, item@, old(self).capacity()),
            final(self).capacity() == old(self).capacity(),
            final(self).wf(),
    {
        proof {
            lemma_add_preserves_wf(self@, item@, self.capacity());
        }
        let mut rest = kept_without(&self.items, &item);
        let mut fresh: Vec<String> = Vec::new();
        fresh.push(item);
        fresh.append(&mut rest);
        proof {
            assert(fresh.deep_view() =~= seq![fresh@[0]@] + without(old(self)@, fresh@[0]@));
        }
        if fresh.len() > self.limit {
            fresh.truncate(self.limit);
            proof {
                assert(fresh.deep_view() =~= added(old(self)@, fresh@[0]@, self.capacity()));
            }
        }
        self.items = fresh;
    }

    /// An independent ordered copy, most recent first.
    pub fn get_items(&self) -> (r: Vec<String>)
        ensures
            r.deep_view() == self@,
    {
        let mut r: Vec<String> = Vec::new();
        let mut i: usize = 0;
        while i < self.items.len()
            invariant
                i <= self.items.len(),
                r@ == self.items@.take(i as int),
            decreases self.items.len() - i,
        {
            r.push(self.items[i].clone());
            proof {
                assert(r@ =~= self.items@.take(i as int + 1));
            }
            i = i + 1;
        }
        proof {
            assert(self.items@.take(self.items@.len() as int) =~= self.items@);
            assert(r.deep_view() =~= self@);
        }
        r
    }

    /// Remove every entry equal to `item`; doing nothing when it is absent is
    /// not an error.
    pub fn remove_item(&mut self, item: String)
        requires
            old(self).wf(),
        ensures
            final(self)@ == without(old(self)@, item@),
            final(self).capacity() == old(self).capacity(),
            final(self).wf(),
    {
        proof {
            lemma_without_len(self@, item@);
            lemma_without_no_duplicates(self@, item@);
        }
        self.items = kept_without(&self.items, &item);
    }

    /// Change the capacity, keeping the `min(limit, len)` most recent entries
    /// in their relative order and dropping the rest, oldest first.
    pub fn change_limit(&mut self, limit: usize)
        requires
            old(self).wf(),
        ensures
            final(self)@ == clipped(old(self)@, limit as nat),
            final(self).capacity() == limit,
            final(self).wf(),
    {
        if self.items.len() > limit {
            self.items.truncate(limit);
            proof {
                assert(self.items.deep_view() =~= clipped(old(self)@, limit as nat));
                assert forall|i: int, j: int|
                    0 <= i < self@.len() && 0 <= j < self@.len() && i != j
                    implies self@[i] != self@[j] by {
                    assert(self@[i] == old(self)@[i]);
                    assert(self@[j] == old(self)@[j]);
                }
            }
        }
        self.limit = limit;
    }
}

} // verus!
