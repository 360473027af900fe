//! The list of captured entries, newest first, with each content held once.

use vstd::prelude::*;
use crate::entry::{ClipEntry, EntryView, same_content};
use crate::text::is_blank;

verus! {

/// Index of the first entry of `s` with the content of `e`, or -1.
pub open spec fn find_content(s: Seq<EntryView>, e: EntryView) -> int
    decreases s.len(),
{
    if s.len() == 0 {
        -1
    } else if same_content(s[0], e) {
        0
    } else {
        let r = find_content(s.drop_first(), e);
        if r < 0 {
            -1
        } else {
            r + 1
        }
    }
}

/// The list after recording `e`: `e` on top, and the entry that held the
/// same content before (if any) taken out of its old place.
pub open spec fn with_entry(s: Seq<EntryView>, e: EntryView) -> Seq<EntryView> {
    let p = find_content(s, e);
    if p < 0 {
        seq![e] + s
    } else {
        seq![e] + s.remove(p)
    }
}

/// No two entries of `s` carry the same content.
pub open spec fn distinct_content(s: Seq<EntryView>) -> bool {
    forall|i: int, j: int|
        0 <= i < s.len() && 0 <= j < s.len() && i != j ==> !same_content(#[trigger] s[i], #[trigger] s[j])
}

/// The views of a vector of entries.
pub open spec fn views(v: Seq<ClipEntry>) -> Seq<EntryView> {
    v.map_values(|e: ClipEntry| e@)
}

/// `find_content` is the first index holding the content, or -1 when none does.
pub proof fn lemma_find_content(s: Seq<EntryView>, e: EntryView)
    ensures
        -1 <= find_content(s, e) < s.len(),
        find_content(s, e) >= 0 ==> same_content(s[find_content(s, e)], e),
        forall|j: int|
            0 <= j < s.len() && (find_content(s, e) < 0 || j < find_content(s, e)) ==> !same_content(
                #[trigger] s[j],
                e,
            ),
    decreases s.len(),
{
    if s.len() > 0 && !same_content(s[0], e) {
        let t = s.drop_first();
        lemma_find_content(t, e);
        assert forall|j: int|
            0 <= j < s.len() && (find_content(s, e) < 0 || j < find_content(s, e)) implies !same_content(
            #[trigger] s[j],
            e,
        ) by {
            if j > 0 {
                assert(s[j] == t[j - 1]);
            }
        }
    }
}

/// Scanning finds the first matching index.
proof fn lemma_find_content_at(s: Seq<EntryView>, e: EntryView, k: int)
    requires
        0 <= k <= s.len(),
        forall|j: int| 0 <= j < k ==> !same_content(#[trigger] s[j], e),
        k < s.len() ==> same_content(s[k], e),
    ensures
        find_content(s, e) == if k < s.len() {
            k
        } else {
            -1
        },
    decreases k,
{
    if k > 0 {
        let t = s.drop_first();
        assert forall|j: int| 0 <= j < k - 1 implies !same_content(#[trigger] t[j], e) by {
            assert(t[j] == s[j + 1]);
        }
        lemma_find_content_at(t, e, k - 1);
    }
}

/// The capture history: entries newest first, and whether it changed since
/// it was last saved.
pub struct History {
    entries: Vec<ClipEntry>,
    needs_save: bool,
    saved: Ghost<Seq<EntryView>>,
}

impl History {
    /// While nothing is left to save, the entries are those last saved (or loaded).
    #[verifier::type_invariant]
    spec fn saved_in_sync(self) -> bool {
        !self.needs_save ==> views(self.entries@) == self.saved@
    }

    /// The entries as they were when last saved, or loaded.
    pub closed spec fn saved_view(&self) -> Seq<EntryView> {
        self.saved@
    }

    /// The entries, newest first.
    pub closed spec fn entries_view(&self) -> Seq<EntryView> {
        views(self.entries@)
    }

    /// Whether the history changed since it was last saved.
    pub closed spec fn dirty(&self) -> bool {
        self.needs_save
    }

    /// A history holding `entries` (as loaded), with nothing to save yet.
    pub fn new(entries: Vec<ClipEntry>) -> (r: Self)
        ensures
            r.entries_view() == views(entries@),
            r.saved_view() == views(entries@),
            !r.dirty(),
    {
        History { saved: Ghost(views(entries@)), entries, needs_save: false }
    }

    pub fn len(&self) -> (r: usize)
        ensures
            r == self.entries_view().len(),
    {
        self.entries.len()
    }

    /// The entries, newest first.
    pub fn entries(&self) -> (r: &Vec<ClipEntry>)
        ensures
            views(r@) == self.entries_view(),
    {
        &self.entries
    }

    /// The entry at row `i`, if there is one.
    pub fn get(&self, i: usize) -> (r: Option<&ClipEntry>)
        ensures
            i < self.entries_view().len() ==> (r matches Some(e) && e@ == self.entries_view()[i as int]),
            i >= self.entries_view().len() ==> r is None,
    {
        if i < self.entries.len() {
            Some(&self.entries[i])
        } else {
            None
        }
    }

    /// Records `entry` on top of the list. An entry with the same content
    /// that was already there is moved up instead, taking the new time.
    pub fn add_entry(&mut self, entry: ClipEntry)
        ensures
            final(self).entries_view() == with_entry(old(self).entries_view(), entry@),
            final(self).dirty(),
            distinct_content(old(self).entries_view()) ==> distinct_content(
                final(self).entries_view(),
            ),
            final(self).saved_view() == old(self).saved_view(),
            final(self).entries_view().len() > 0,
            final(self).entries_view()[0] == entry@,
            (forall|i: int|
                0 <= i < old(self).entries_view().len() ==> !(old(self).entries_view()[i].text
                    == entry@.text && old(self).entries_view()[i].html == entry@.html && old(
                    self,
                ).entries_view()[i].rtf == entry@.rtf)) ==> final(self).entries_view() == seq![
                entry@,
            ] + old(self).entries_view(),
            forall|i: int|
                0 <= i < old(self).entries_view().len() && !(old(self).entries_view()[i].text
                    == entry@.text && old(self).entries_view()[i].html == entry@.html && old(
                    self,
                ).entries_view()[i].rtf == entry@.rtf) ==> final(self).entries_view().contains(
                    #[trigger] old(self).entries_view()[i],
                ),
    {
        self.needs_save = true;
        let ghost s = self.entries_view();
        let mut entries: Vec<ClipEntry> = Vec::new();
        std::mem::swap(&mut entries, &mut self.entries);
        let n = entries.len();
        let mut pos: usize = 0;
        while pos < n && !entries[pos].same_content_as(&entry)
            invariant
                n == entries@.len(),
                s == views(entries@),
                pos <= n,
                forall|j: int| 0 <= j < pos ==> !same_content(#[trigger] s[j], entry@),
            decreases n - pos,
        {
            pos = pos + 1;
        }
        proof {
            lemma_find_content_at(s, entry@, pos as int);
        }
        if pos < n {
            let mut existing = entries.remove(pos);
            existing.time = entry.time;
            assert(existing@ == entry@);
            entries.insert(0, existing);
            assert(views(entries@) =~= seq![entry@] + s.remove(pos as int));
        } else {
            entries.insert(0, entry);
            assert(views(entries@) =~= seq![entry@] + s);
        }
        self.entries = entries;
        proof {
            if distinct_content(s) {
                lemma_add_entry_shape(s, entry@);
            }
            lemma_add_entry_fields(s, entry@);
        }
    }

    /// Records what a clipboard read captured: nothing when nothing was
    /// captured or its text is blank. Returns whether an entry was recorded.
    pub fn record(&mut self, captured: Option<ClipEntry>) -> (added: bool)
        ensures
            added == (captured is Some && !is_blank(captured->0.text@)),
            added ==> final(self).entries_view() == with_entry(
                old(self).entries_view(),
                captured->0@,
            ) && final(self).dirty(),
            !added ==> final(self).entries_view() == old(self).entries_view() && final(self).dirty()
                == old(self).dirty(),
            distinct_content(old(self).entries_view()) ==> distinct_content(
                final(self).entries_view(),
            ),
            final(self).saved_view() == old(self).saved_view(),
    {
        match captured {
            Some(e) => {
                if crate::clipboard::is_blank_text(e.text.as_str()) {
                    false
                } else {
                    self.add_entry(e);
                    true
                }
            },
            None => false,
        }
    }

    /// Removes the entry at row `i`.
    pub fn remove(&mut self, i: usize)
        requires
            i < old(self).entries_view().len(),
        ensures
            final(self).entries_view() == old(self).entries_view().remove(i as int),
            final(self).dirty(),
            distinct_content(old(self).entries_view()) ==> distinct_content(
                final(self).entries_view(),
            ),
            final(self).saved_view() == old(self).saved_view(),
    {
        self.needs_save = true;
        let ghost s = self.entries_view();
        let mut entries: Vec<ClipEntry> = Vec::new();
        std::mem::swap(&mut entries, &mut self.entries);
        entries.remove(i);
        self.entries = entries;
        assert(views(self.entries@) =~= s.remove(i as int));
        proof {
            if distinct_content(s) {
                lemma_remove_keeps_distinct(s, i as int);
            }
        }
    }

    /// Removes every entry.
    pub fn clear(&mut self)
        ensures
            final(self).entries_view() == Seq::<EntryView>::empty(),
            final(self).dirty(),
            final(self).saved_view() == old(self).saved_view(),
    {
        self.needs_save = true;
        self.entries = Vec::new();
        assert(views(self.entries@) =~= Seq::<EntryView>::empty());
    }

    /// Marks the history as needing a save though its entries did not change
    /// (a setting saved with them changed).
    pub fn mark_dirty(&mut self)
        ensures
            final(self).entries_view() == old(self).entries_view(),
            final(self).saved_view() == old(self).saved_view(),
            final(self).dirty(),
    {
        self.needs_save = true;
    }

    /// Whether the history must be saved; the flag is reset.
    pub fn take_needs_save(&mut self) -> (r: bool)
        ensures
            r == old(self).dirty(),
            !final(self).dirty(),
            final(self).entries_view() == old(self).entries_view(),
            final(self).saved_view() == final(self).entries_view(),
            !r ==> old(self).entries_view() == old(self).saved_view(),
    {
        proof {
            use_type_invariant(&*self);
        }
        let r = self.needs_save;
        self.saved = Ghost(views(self.entries@));
        self.needs_save = false;
        r
    }

    /// Whether the entries are those last saved (or loaded); true whenever
    /// nothing is left to save.
    pub fn is_clean(&self) -> (r: bool)
        ensures
            r == !self.dirty(),
            r ==> self.entries_view() == self.saved_view(),
    {
        proof {
            use_type_invariant(self);
        }
        !self.needs_save
    }
}


/// The entries of `s` whose content differs from `e`'s, in order.
pub open spec fn others(s: Seq<EntryView>, e: EntryView) -> Seq<EntryView> {
    s.filter(|x: EntryView| !same_content(x, e))
}

proof fn lemma_filter_keeps_all(s: Seq<EntryView>, e: EntryView)
    requires
        forall|i: int| 0 <= i < s.len() ==> !same_content(#[trigger] s[i], e),
    ensures
        others(s, e) == s,
    decreases s.len(),
{
    reveal(Seq::filter);
    if s.len() > 0 {
        let t = s.drop_last();
        assert forall|i: int| 0 <= i < t.len() implies !same_content(#[trigger] t[i], e) by {
            assert(t[i] == s[i]);
        }
        lemma_filter_keeps_all(t, e);
        assert(others(s, e) == others(t, e).push(s.last()));
        assert(t.push(s.last()) =~= s);
    }
}

proof fn lemma_filter_single(x: EntryView, e: EntryView)
    requires
        same_content(x, e),
    ensures
        others(seq![x], e) == Seq::<EntryView>::empty(),
{
    reveal(Seq::filter);
    assert(seq![x].drop_last() =~= Seq::<EntryView>::empty());
    assert(others(Seq::<EntryView>::empty(), e) =~= Seq::<EntryView>::empty());
}

/// Recording `e` in a list without repeated content puts `e` on top of every
/// entry of other content, in their old order: the list keeps one entry per
/// content, newest first, and grows by one exactly when the content is new.
pub proof fn lemma_add_entry_shape(s: Seq<EntryView>, e: EntryView)
    requires
        distinct_content(s),
    ensures
        with_entry(s, e) == seq![e] + others(s, e),
        distinct_content(with_entry(s, e)),
        with_entry(s, e).len() == s.len() + if find_content(s, e) < 0 {
            1int
        } else {
            0int
        },
{
    lemma_find_content(s, e);
    let p = find_content(s, e);
    if p < 0 {
        lemma_filter_keeps_all(s, e);
    } else {
        let a = s.take(p);
        let b = s.skip(p + 1);
        assert(s =~= a + seq![s[p]] + b);
        assert forall|i: int| 0 <= i < a.len() implies !same_content(#[trigger] a[i], e) by {
            assert(a[i] == s[i]);
        }
        assert forall|i: int| 0 <= i < b.len() implies !same_content(#[trigger] b[i], e) by {
            assert(b[i] == s[p + 1 + i]);
            if same_content(b[i], e) {
                assert(same_content(s[p + 1 + i], s[p]));
            }
        }
        lemma_filter_keeps_all(a, e);
        lemma_filter_keeps_all(b, e);
        lemma_filter_single(s[p], e);
        Seq::filter_distributes_over_add(a + seq![s[p]], b, |x: EntryView| !same_content(x, e));
        Seq::filter_distributes_over_add(a, seq![s[p]], |x: EntryView| !same_content(x, e));
        assert(others(s, e) =~= a + b);
        assert(s.remove(p) =~= a + b);
    }
    let r = with_entry(s, e);
    assert forall|i: int, j: int|
        0 <= i < r.len() && 0 <= j < r.len() && i != j implies !same_content(
        #[trigger] r[i],
        #[trigger] r[j],
    ) by {
        let ii = if p < 0 || i - 1 < p { i - 1 } else { i };
        let jj = if p < 0 || j - 1 < p { j - 1 } else { j };
        if i > 0 {
            assert(r[i] == s[ii]);
        }
        if j > 0 {
            assert(r[j] == s[jj]);
        }
        if i > 0 && j > 0 {
            assert(ii != jj);
        } else if i == 0 {
            if p >= 0 && jj > p && same_content(s[jj], e) {
                assert(same_content(s[jj], s[p]));
            }
        } else {
            if p >= 0 && ii > p && same_content(s[ii], e) {
                assert(same_content(s[ii], s[p]));
            }
        }
    }
}

/// Removing a row keeps every content held at most once.
pub proof fn lemma_remove_keeps_distinct(s: Seq<EntryView>, i: int)
    requires
        distinct_content(s),
        0 <= i < s.len(),
    ensures
        distinct_content(s.remove(i)),
{
    let r = s.remove(i);
    assert forall|a: int, b: int|
        0 <= a < r.len() && 0 <= b < r.len() && a != b implies !same_content(
        #[trigger] r[a],
        #[trigger] r[b],
    ) by {
        let aa = if a < i { a } else { a + 1 };
        let bb = if b < i { b } else { b + 1 };
        assert(r[a] == s[aa] && r[b] == s[bb]);
    }
}

/// What recording `e` does, said of the fields: `e` ends up on top; when no
/// entry held `e`'s text, HTML and RTF, all old entries stay, in order, below
/// it; every old entry whose text, HTML or RTF differs from `e`'s stays; at
/// most one entry leaves; and nothing but `e` and old entries is in the list.
pub proof fn lemma_add_entry_fields(s: Seq<EntryView>, e: EntryView)
    ensures
        with_entry(s, e).len() > 0,
        with_entry(s, e)[0] == e,
        s.len() <= with_entry(s, e).len() <= s.len() + 1,
        (forall|i: int|
            0 <= i < s.len() ==> !(s[i].text == e.text && s[i].html == e.html && s[i].rtf
                == e.rtf)) ==> with_entry(s, e) == seq![e] + s,
        forall|i: int|
            0 <= i < s.len() && !(s[i].text == e.text && s[i].html == e.html && s[i].rtf == e.rtf)
                ==> with_entry(s, e).contains(#[trigger] s[i]),
        forall|j: int| 1 <= j < with_entry(s, e).len() ==> s.contains(#[trigger] with_entry(s, e)[j]),
{
    lemma_find_content(s, e);
    let p = find_content(s, e);
    let r = with_entry(s, e);
    if p < 0 {
        assert forall|i: int| 0 <= i < s.len() && !(s[i].text == e.text && s[i].html == e.html
            && s[i].rtf == e.rtf) implies r.contains(#[trigger] s[i]) by {
            assert(r[i + 1] == s[i]);
        }
        assert forall|j: int| 1 <= j < r.len() implies s.contains(#[trigger] r[j]) by {
            assert(r[j] == s[j - 1]);
        }
    } else {
        assert(same_content(s[p], e));
        if forall|i: int|
            0 <= i < s.len() ==> !(s[i].text == e.text && s[i].html == e.html && s[i].rtf == e.rtf) {
            assert(!(s[p].text == e.text && s[p].html == e.html && s[p].rtf == e.rtf));
        }
        assert forall|i: int| 0 <= i < s.len() && !(s[i].text == e.text && s[i].html == e.html
            && s[i].rtf == e.rtf) implies r.contains(#[trigger] s[i]) by {
            assert(i != p);
            if i < p {
                assert(r[i + 1] == s[i]);
            } else {
                assert(r[i] == s[i]);
            }
        }
        assert forall|j: int| 1 <= j < r.len() implies s.contains(#[trigger] r[j]) by {
            if j - 1 < p {
                assert(r[j] == s[j - 1]);
            } else {
                assert(r[j] == s[j]);
            }
        }
    }
}

/// Recording the same entry twice in a row leaves the list as recording it once.
pub proof fn lemma_add_entry_twice(s: Seq<EntryView>, e: EntryView)
    ensures
        with_entry(with_entry(s, e), e) == with_entry(s, e),
{
    let r = with_entry(s, e);
    assert(same_content(r[0], e));
    assert(find_content(r, e) == 0);
    assert(seq![e] + r.remove(0) =~= r);
}

} // verus!
