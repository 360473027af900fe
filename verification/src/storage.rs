//! The persisted store: settings and entries as saved to the data file, and
//! how a loaded store becomes the history and settings again.

use vstd::prelude::*;
use crate::entry::{ClipEntry, EntryView, same_content};
use crate::history::{distinct_content, find_content, lemma_find_content, views};

verus! {

/// Name of the data file kept beside the executable.
pub const DATA_FILE_NAME: &'static str = "smart_clipboard_data.json";

/// The value a missing `dark_mode` setting takes.
pub fn default_true() -> (r: bool)
    ensures
        r,
{
    true
}

/// The data file's contents. A setting that the file does not name is `None`.
pub struct Store {
    pub format_on: Option<bool>,
    pub dark_mode: Option<bool>,
    pub trim_on: Option<bool>,
    pub entries: Vec<ClipEntry>,
}

/// `s` with every entry whose content already occurred earlier left out.
pub open spec fn dedup_content(s: Seq<EntryView>) -> Seq<EntryView>
    decreases s.len(),
{
    if s.len() == 0 {
        seq![]
    } else {
        let d = dedup_content(s.drop_last());
        if find_content(d, s.last()) >= 0 {
            d
        } else {
            d.push(s.last())
        }
    }
}

/// The settings a store holds, each missing one at its default:
/// formatting off, dark mode on, trimming off.
pub open spec fn settings_of(format_on: Option<bool>, dark_mode: Option<bool>, trim_on: Option<bool>) -> (
    bool,
    bool,
    bool,
) {
    (
        match format_on {
            Some(b) => b,
            None => false,
        },
        match dark_mode {
            Some(b) => b,
            None => true,
        },
        match trim_on {
            Some(b) => b,
            None => false,
        },
    )
}

/// The entries and settings that a loaded store gives: the entries in file
/// order without later repeats of a content, then formatting, dark mode and
/// trimming.
pub fn load_store(store: Store) -> (r: (Vec<ClipEntry>, bool, bool, bool))
    ensures
        views(r.0@) == dedup_content(views(store.entries@)),
        distinct_content(views(r.0@)),
        (r.1, r.2, r.3) == settings_of(store.format_on, store.dark_mode, store.trim_on),
        store.format_on is None ==> !r.1,
        store.dark_mode is None ==> r.2,
        store.trim_on is None ==> !r.3,
        store.format_on matches Some(b) ==> r.1 == b,
        store.dark_mode matches Some(b) ==> r.2 == b,
        store.trim_on matches Some(b) ==> r.3 == b,
        forall|j: int| 0 <= j < r.0@.len() ==> views(store.entries@).contains(#[trigger] views(r.0@)[j]),
{
    proof {
        lemma_settings_defaults(store.format_on, store.dark_mode, store.trim_on);
        lemma_dedup_from_input(views(store.entries@));
    }
    let format_on = match store.format_on {
        Some(b) => b,
        None => false,
    };
    let dark_mode = match store.dark_mode {
        Some(b) => b,
        None => default_true(),
    };
    let trim_on = match store.trim_on {
        Some(b) => b,
        None => false,
    };
    let ghost src = views(store.entries@);
    let mut entries: Vec<ClipEntry> = Vec::new();
    for e in it: store.entries.into_iter()
        invariant
            views(it.seq()) == src,
            views(entries@) == dedup_content(src.take(it.index() as int)),
    {
        let ghost k = it.index() as int;
        assert(e@ == src[k]);
        let ghost d = views(entries@);
        let n = entries.len();
        let mut j: usize = 0;
        while j < n && !entries[j].same_content_as(&e)
            invariant
                n == entries@.len(),
                d == views(entries@),
                j <= n,
                forall|i: int| 0 <= i < j ==> !same_content(#[trigger] d[i], e@),
            decreases n - j,
        {
            j = j + 1;
        }
        proof {
            lemma_find_content(d, e@);
            assert(src.take(k + 1).drop_last() =~= src.take(k));
            assert(src.take(k + 1).last() == e@);
        }
        if j == n {
            proof {
                assert(find_content(d, e@) < 0) by {
                    if find_content(d, e@) >= 0 {
                        assert(same_content(d[find_content(d, e@)], e@));
                    }
                }
            }
            entries.push(e);
            assert(views(entries@) =~= d.push(e@));
        } else {
            proof {
                assert(same_content(d[j as int], e@));
                assert(find_content(d, e@) >= 0);
            }
        }
    }
    proof {
        assert(src.take(src.len() as int) =~= src);
        lemma_dedup_distinct(src);
    }
    (entries, format_on, dark_mode, trim_on)
}

/// What the application starts with: what was loaded, or, when nothing could
/// be loaded, no entries, formatting on, dark mode on and trimming off.
pub fn loaded_or_default(loaded: Option<(Vec<ClipEntry>, bool, bool, bool)>) -> (r: (
    Vec<ClipEntry>,
    bool,
    bool,
    bool,
))
    ensures
        loaded matches Some(l) ==> r == l,
        loaded is None ==> r.0@.len() == 0 && r.1 && r.2 && !r.3,
{
    match loaded {
        Some(l) => l,
        None => (Vec::new(), true, default_true(), false),
    }
}

/// The store to save for `entries` and the three settings.
pub fn make_store(entries: &[ClipEntry], format_on: bool, dark_mode: bool, trim_on: bool) -> (r: Store)
    ensures
        views(r.entries@) == views(entries@),
        r.format_on == Some(format_on),
        r.dark_mode == Some(dark_mode),
        r.trim_on == Some(trim_on),
{
    let n = entries.len();
    let mut out: Vec<ClipEntry> = Vec::new();
    let mut i: usize = 0;
    while i < n
        invariant
            n == entries@.len(),
            i <= n,
            views(out@) == views(entries@).take(i as int),
        decreases n - i,
    {
        let d = entries[i].duplicate();
        assert(d@ == views(entries@)[i as int]);
        let ghost before = out@;
        out.push(d);
        assert(views(out@) =~= views(before).push(d@));
        assert(views(out@) =~= views(entries@).take(i + 1));
        i = i + 1;
    }
    assert(views(entries@).take(n as int) =~= views(entries@));
    Store { format_on: Some(format_on), dark_mode: Some(dark_mode), trim_on: Some(trim_on), entries: out }
}


/// Each setting is the stored value when the file names it, and otherwise
/// its own fixed default (formatting off, dark mode on, trimming off),
/// whatever the other settings hold.
pub proof fn lemma_settings_defaults(
    format_on: Option<bool>,
    dark_mode: Option<bool>,
    trim_on: Option<bool>,
)
    ensures
        format_on is None ==> !settings_of(format_on, dark_mode, trim_on).0,
        dark_mode is None ==> settings_of(format_on, dark_mode, trim_on).1,
        trim_on is None ==> !settings_of(format_on, dark_mode, trim_on).2,
        format_on matches Some(b) ==> settings_of(format_on, dark_mode, trim_on).0 == b,
        dark_mode matches Some(b) ==> settings_of(format_on, dark_mode, trim_on).1 == b,
        trim_on matches Some(b) ==> settings_of(format_on, dark_mode, trim_on).2 == b,
{
}

/// Loading keeps only entries that are in the file.
pub proof fn lemma_dedup_from_input(s: Seq<EntryView>)
    ensures
        dedup_content(s).len() <= s.len(),
        forall|j: int| 0 <= j < dedup_content(s).len() ==> s.contains(#[trigger] dedup_content(s)[j]),
    decreases s.len(),
{
    if s.len() > 0 {
        let t = s.drop_last();
        lemma_dedup_from_input(t);
        let d = dedup_content(t);
        let r = dedup_content(s);
        assert forall|j: int| 0 <= j < r.len() implies s.contains(#[trigger] r[j]) by {
            if j < d.len() {
                assert(r[j] == d[j]);
                let k = choose|k: int| 0 <= k < t.len() && t[k] == d[j];
                assert(s[k] == t[k]);
            } else {
                assert(r[j] == s[s.len() - 1]);
            }
        }
    }
}

/// Searching a list with one more entry at its end.
proof fn lemma_find_push(t: Seq<EntryView>, y: EntryView, x: EntryView)
    ensures
        find_content(t.push(y), x) == if find_content(t, x) >= 0 {
            find_content(t, x)
        } else if same_content(y, x) {
            t.len() as int
        } else {
            -1
        },
    decreases t.len(),
{
    let u = t.push(y);
    assert(find_content(Seq::<EntryView>::empty(), x) == -1);
    if t.len() == 0 {
        assert(u.drop_first() =~= Seq::<EntryView>::empty());
        assert(u[0] == y);
    } else {
        assert(u[0] == t[0]);
    }
    if t.len() > 0 && !same_content(t[0], x) {
        assert(u.drop_first() =~= t.drop_first().push(y));
        lemma_find_push(t.drop_first(), y, x);
    }
}

/// Loading keeps, of each content, its first entry in the file, and keeps
/// those in file order: every loaded entry is the entry of the file at the
/// first place where its text, HTML and RTF occur, and these places increase
/// down the list.
pub proof fn lemma_dedup_first_in_order(s: Seq<EntryView>)
    ensures
        forall|j: int|
            0 <= j < dedup_content(s).len() ==> 0 <= #[trigger] find_content(s, dedup_content(s)[j])
                && s[find_content(s, dedup_content(s)[j])] == dedup_content(s)[j] && (forall|k: int|
                0 <= k < find_content(s, dedup_content(s)[j]) ==> !(s[k].text == dedup_content(
                    s,
                )[j].text && s[k].html == dedup_content(s)[j].html && s[k].rtf == dedup_content(
                    s,
                )[j].rtf)),
        forall|j1: int, j2: int|
            0 <= j1 < j2 < dedup_content(s).len() ==> #[trigger] find_content(s, dedup_content(s)[j1])
                < #[trigger] find_content(s, dedup_content(s)[j2]),
    decreases s.len(),
{
    let r = dedup_content(s);
    if s.len() > 0 {
        let t = s.drop_last();
        let y = s.last();
        let d = dedup_content(t);
        lemma_dedup_first_in_order(t);
        assert(s =~= t.push(y));
        lemma_find_content(d, y);
        if find_content(d, y) < 0 {
            lemma_dedup_keeps_contents(t);
            lemma_find_content(t, y);
            if find_content(t, y) >= 0 {
                let i = find_content(t, y);
                assert(find_content(d, t[i]) >= 0);
                lemma_find_content(d, t[i]);
                let q = find_content(d, t[i]);
                assert(same_content(d[q], y));
                assert(false);
            }
            lemma_find_push(t, y, y);
        }
        assert forall|j: int| 0 <= j < r.len() implies 0 <= #[trigger] find_content(s, r[j])
            && s[find_content(s, r[j])] == r[j] && (forall|k: int|
            0 <= k < find_content(s, r[j]) ==> !(s[k].text == r[j].text && s[k].html == r[j].html
                && s[k].rtf == r[j].rtf)) by {
            if j < d.len() {
                assert(r[j] == d[j]);
                lemma_find_push(t, y, d[j]);
                let i = find_content(t, d[j]);
                lemma_find_content(t, d[j]);
                assert(0 <= i && t[i] == d[j]);
                assert(find_content(s, r[j]) == i);
                assert(s[i] == t[i]);
            } else {
                assert(find_content(d, y) < 0);
                assert(r[j] == y);
                assert(find_content(s, y) == t.len());
            }
            lemma_find_content(s, r[j]);
        }
        assert forall|j1: int, j2: int| 0 <= j1 < j2 < r.len() implies #[trigger] find_content(
            s,
            r[j1],
        ) < #[trigger] find_content(s, r[j2]) by {
            assert(r[j1] == d[j1]);
            lemma_find_push(t, y, d[j1]);
            lemma_find_content(t, d[j1]);
            if j2 < d.len() {
                assert(r[j2] == d[j2]);
                lemma_find_push(t, y, d[j2]);
            }
        }
    }
}

/// Loading never yields two entries with the same content.
pub proof fn lemma_dedup_distinct(s: Seq<EntryView>)
    ensures
        distinct_content(dedup_content(s)),
    decreases s.len(),
{
    if s.len() > 0 {
        let d = dedup_content(s.drop_last());
        lemma_dedup_distinct(s.drop_last());
        lemma_find_content(d, s.last());
        if find_content(d, s.last()) < 0 {
            let r = d.push(s.last());
            assert forall|i: int, j: int|
                0 <= i < r.len() && 0 <= j < r.len() && i != j implies !same_content(
                #[trigger] r[i],
                #[trigger] r[j],
            ) by {
                if i < d.len() && j < d.len() {
                    assert(r[i] == d[i] && r[j] == d[j]);
                } else if i < d.len() {
                    assert(r[i] == d[i]);
                } else {
                    assert(r[j] == d[j]);
                }
            }
        }
    }
}

/// Every content found in the file is kept by loading: its first entry.
pub proof fn lemma_dedup_keeps_contents(s: Seq<EntryView>)
    ensures
        forall|i: int| 0 <= i < s.len() ==> find_content(dedup_content(s), #[trigger] s[i]) >= 0,
    decreases s.len(),
{
    if s.len() > 0 {
        let t = s.drop_last();
        let d = dedup_content(t);
        lemma_dedup_keeps_contents(t);
        lemma_find_content(d, s.last());
        let r = dedup_content(s);
        assert forall|i: int| 0 <= i < s.len() implies find_content(r, #[trigger] s[i]) >= 0 by {
            if find_content(d, s.last()) < 0 {
                lemma_find_content(r, s[i]);
                if i < t.len() {
                    assert(s[i] == t[i]);
                    assert(find_content(d, t[i]) >= 0);
                    lemma_find_content(d, t[i]);
                    let p = find_content(d, t[i]);
                    assert(r[p] == d[p]);
                    assert(same_content(r[p], s[i]));
                } else {
                    assert(r[d.len() as int] == s[i]);
                    assert(same_content(r[d.len() as int], s[i]));
                }
            } else {
                if i < t.len() {
                    assert(s[i] == t[i]);
                } else {
                    assert(s[i] == s.last());
                }
            }
        }
    }
}

/// Loading a list that holds each content once gives it back unchanged.
pub proof fn lemma_dedup_of_distinct(s: Seq<EntryView>)
    requires
        distinct_content(s),
    ensures
        dedup_content(s) == s,
    decreases s.len(),
{
    if s.len() > 0 {
        let t = s.drop_last();
        assert(distinct_content(t)) by {
            assert forall|i: int, j: int|
                0 <= i < t.len() && 0 <= j < t.len() && i != j implies !same_content(
                #[trigger] t[i],
                #[trigger] t[j],
            ) by {
                assert(t[i] == s[i] && t[j] == s[j]);
            }
        }
        lemma_dedup_of_distinct(t);
        lemma_find_content(t, s.last());
        if find_content(t, s.last()) >= 0 {
            let p = find_content(t, s.last());
            assert(t[p] == s[p]);
            assert(same_content(s[p], s[s.len() - 1]));
        }
        assert(t.push(s.last()) =~= s);
    }
}

/// Saving the history and settings and loading them back gives the same
/// entries, in the same order, and the same settings (the history holds each
/// content once, as every operation on it keeps).
pub proof fn lemma_save_then_load(
    entries: Seq<EntryView>,
    format_on: bool,
    dark_mode: bool,
    trim_on: bool,
)
    requires
        distinct_content(entries),
    ensures
        dedup_content(entries) == entries,
        settings_of(Some(format_on), Some(dark_mode), Some(trim_on)) == (
            format_on,
            dark_mode,
            trim_on,
        ),
{
    lemma_dedup_of_distinct(entries);
}

} // verus!
