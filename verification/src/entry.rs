//! One captured clipboard item.

use vstd::prelude::*;

verus! {

/// A captured clipboard item: its plain text, the HTML and (base64-encoded)
/// RTF renderings when the source offered them, and the capture time in
/// seconds since the Unix epoch.
#[derive(Debug, Clone, Default)]
pub struct ClipEntry {
    pub text: String,
    pub html: Option<String>,
    pub rtf: Option<String>,
    pub time: i64,
}

/// The mathematical value of a [`ClipEntry`].
pub struct EntryView {
    pub text: Seq<char>,
    pub html: Option<Seq<char>>,
    pub rtf: Option<Seq<char>>,
    pub time: i64,
}

/// The characters of an optional string.
pub open spec fn opt_chars(o: Option<String>) -> Option<Seq<char>> {
    match o {
        Some(s) => Some(s@),
        None => None,
    }
}

impl View for ClipEntry {
    type V = EntryView;

    open spec fn view(&self) -> EntryView {
        EntryView { text: self.text@, html: opt_chars(self.html), rtf: opt_chars(self.rtf), time: self.time }
    }
}

/// Two entries carry the same content: equal text, HTML and RTF (the time
/// does not count).
pub open spec fn same_content(a: EntryView, b: EntryView) -> bool {
    a.text == b.text && a.html == b.html && a.rtf == b.rtf
}

/// Two entries carry the same content exactly when their text, their HTML
/// and their RTF are each equal; entries differing in any one of the three
/// are different content.
pub proof fn lemma_same_content_fields(a: EntryView, b: EntryView)
    ensures
        same_content(a, b) <==> (a.text == b.text && a.html == b.html && a.rtf == b.rtf),
        same_content(a, b) <==> same_content(b, a),
        same_content(a, a),
{
}

fn opt_string_eq(a: &Option<String>, b: &Option<String>) -> (r: bool)
    ensures
        r == (opt_chars(*a) == opt_chars(*b)),
{
    match (a, b) {
        (Some(x), Some(y)) => *x == *y,
        (None, None) => true,
        _ => false,
    }
}

fn opt_string_copy(a: &Option<String>) -> (r: Option<String>)
    ensures
        opt_chars(r) == opt_chars(*a),
{
    match a {
        Some(x) => Some(x.clone()),
        None => None,
    }
}

impl ClipEntry {
    /// Whether `self` and `other` carry the same text, HTML and RTF.
    pub fn same_content_as(&self, other: &ClipEntry) -> (r: bool)
        ensures
            r == same_content(self@, other@),
            r == (self.text@ == other.text@ && opt_chars(self.html) == opt_chars(other.html)
                && opt_chars(self.rtf) == opt_chars(other.rtf)),
    {
        self.text == other.text && opt_string_eq(&self.html, &other.html) && opt_string_eq(
            &self.rtf,
            &other.rtf,
        )
    }

    /// A copy of this entry.
    pub fn duplicate(&self) -> (r: ClipEntry)
        ensures
            r@ == self@,
    {
        ClipEntry {
            text: self.text.clone(),
            html: opt_string_copy(&self.html),
            rtf: opt_string_copy(&self.rtf),
            time: self.time,
        }
    }
}

} // verus!
