//! Character-level text handling: Unicode whitespace, trimming and the
//! one-line preview shown for each history row.

use vstd::prelude::*;

verus! {

/// Unicode `White_Space` property, as `char::is_whitespace` tests it.
pub open spec fn is_white(c: char) -> bool {
    let v = c as u32;
    ||| 0x09 <= v <= 0x0D
    ||| v == 0x20
    ||| v == 0x85
    ||| v == 0xA0
    ||| v == 0x1680
    ||| 0x2000 <= v <= 0x200A
    ||| v == 0x2028
    ||| v == 0x2029
    ||| v == 0x202F
    ||| v == 0x205F
    ||| v == 0x3000
}

/// Whether `c` is Unicode whitespace.
pub fn char_is_white(c: char) -> (r: bool)
    ensures
        r == is_white(c),
{
    let v = c as u32;
    (0x09 <= v && v <= 0x0D) || v == 0x20 || v == 0x85 || v == 0xA0 || v == 0x1680 || (0x2000 <= v
        && v <= 0x200A) || v == 0x2028 || v == 0x2029 || v == 0x202F || v == 0x205F || v == 0x3000
}

/// `s` with its leading whitespace removed.
pub open spec fn trim_front(s: Seq<char>) -> Seq<char>
    decreases s.len(),
{
    if s.len() > 0 && is_white(s[0]) {
        trim_front(s.drop_first())
    } else {
        s
    }
}

/// `s` with its trailing whitespace removed.
pub open spec fn trim_back(s: Seq<char>) -> Seq<char>
    decreases s.len(),
{
    if s.len() > 0 && is_white(s.last()) {
        trim_back(s.drop_last())
    } else {
        s
    }
}

/// `s` with whitespace removed at both ends, as `str::trim` does.
pub open spec fn trimmed(s: Seq<char>) -> Seq<char> {
    trim_back(trim_front(s))
}

/// Whether `s` holds nothing but whitespace.
pub open spec fn is_blank(s: Seq<char>) -> bool {
    forall|i: int| 0 <= i < s.len() ==> is_white(#[trigger] s[i])
}

/// Skipping a whitespace prefix of length `k` that ends at a non-space (or at the end).
proof fn lemma_trim_front_at(s: Seq<char>, k: int)
    requires
        0 <= k <= s.len(),
        forall|i: int| 0 <= i < k ==> is_white(#[trigger] s[i]),
        k < s.len() ==> !is_white(s[k]),
    ensures
        trim_front(s) == s.subrange(k, s.len() as int),
    decreases k,
{
    if k == 0 {
        assert(s.subrange(0, s.len() as int) =~= s);
    } else {
        let t = s.drop_first();
        assert forall|i: int| 0 <= i < k - 1 implies is_white(#[trigger] t[i]) by {
            assert(t[i] == s[i + 1]);
        }
        lemma_trim_front_at(t, k - 1);
        assert(t.subrange(k - 1, t.len() as int) =~= s.subrange(k, s.len() as int));
    }
}

/// Dropping a whitespace suffix that starts right after a non-space (or at the start).
proof fn lemma_trim_back_at(s: Seq<char>, e: int)
    requires
        0 <= e <= s.len(),
        forall|i: int| e <= i < s.len() ==> is_white(#[trigger] s[i]),
        e > 0 ==> !is_white(s[e - 1]),
    ensures
        trim_back(s) == s.subrange(0, e),
    decreases s.len() - e,
{
    if e == s.len() {
        assert(s.subrange(0, e) =~= s);
    } else {
        let t = s.drop_last();
        assert forall|i: int| e <= i < t.len() implies is_white(#[trigger] t[i]) by {
            assert(t[i] == s[i]);
        }
        lemma_trim_back_at(t, e);
        assert(t.subrange(0, e) =~= s.subrange(0, e));
    }
}

/// A sequence is blank exactly when trimming leaves nothing.
pub proof fn lemma_blank_iff_trimmed_empty(s: Seq<char>)
    ensures
        is_blank(s) <==> trimmed(s).len() == 0,
    decreases s.len(),
{
    if s.len() == 0 {
    } else if is_white(s[0]) {
        let t = s.drop_first();
        lemma_blank_iff_trimmed_empty(t);
        if is_blank(s) {
            assert forall|i: int| 0 <= i < t.len() implies is_white(#[trigger] t[i]) by {
                assert(t[i] == s[i + 1]);
            }
        }
        if is_blank(t) {
            assert forall|i: int| 0 <= i < s.len() implies is_white(#[trigger] s[i]) by {
                if i > 0 {
                    assert(s[i] == t[i - 1]);
                }
            }
        }
    } else {
        assert(trim_front(s) == s);
        lemma_trim_back_keeps_first(s);
    }
}

proof fn lemma_trim_back_keeps_first(s: Seq<char>)
    requires
        s.len() > 0,
        !is_white(s[0]),
    ensures
        trim_back(s).len() > 0,
    decreases s.len(),
{
    if s.len() > 1 && is_white(s.last()) {
        lemma_trim_back_keeps_first(s.drop_last());
    }
}

/// Appends `c` to `s` (`String::push`).
#[verifier::external_body]
pub(crate) fn push_char(s: &mut String, c: char)
    ensures
        final(s)@ == old(s)@.push(c),
{
    s.push(c)
}

/// The characters of `s`, in order.
pub fn chars_of(s: &str) -> (r: Vec<char>)
    ensures
        r@ == s@,
{
    let mut out: Vec<char> = Vec::new();
    for c in it: s.chars()
        invariant
            it.seq() == s@,
            out@ == it.seq().take(it.index() as int),
    {
        out.push(c);
        assert(it.seq().take(it.index() + 1) =~= out@);
    }
    out
}


/// Longest preview, in characters, before it is cut and marked with `...`.
pub const PREVIEW_CHARS: usize = 200;

/// `s` with every carriage return turned into a line feed.
pub open spec fn normalize_cr(s: Seq<char>) -> Seq<char> {
    s.map_values(|c: char| if c == '\r' { '\n' } else { c })
}

/// The row label for a history entry: the text with carriage returns made
/// line feeds, trimmed, and cut to its first `PREVIEW_CHARS` characters
/// followed by `...` when it is longer than that.
pub open spec fn preview_of(s: Seq<char>) -> Seq<char> {
    let t = trimmed(normalize_cr(s));
    if t.len() > PREVIEW_CHARS {
        t.take(PREVIEW_CHARS as int) + seq!['.', '.', '.']
    } else {
        t
    }
}

/// The label shown for a history row whose text is `text`.
pub fn preview_text(text: &str) -> (r: String)
    ensures
        r@ == preview_of(text@),
        ({
            let t = trimmed(normalize_cr(text@));
            &&& t.len() <= PREVIEW_CHARS ==> r@ == t
            &&& t.len() > PREVIEW_CHARS ==> r@.len() == PREVIEW_CHARS + 3 && r@.take(
                PREVIEW_CHARS as int,
            ) == t.take(PREVIEW_CHARS as int) && r@.skip(PREVIEW_CHARS as int) == seq!['.', '.', '.']
        }),
{
    proof {
        lemma_preview_prefix(text@);
    }
    let chars = chars_of(text);
    let n = chars.len();
    let mut norm: Vec<char> = Vec::new();
    let mut i: usize = 0;
    while i < n
        invariant
            n == chars@.len(),
            i <= n,
            norm@ == normalize_cr(chars@).take(i as int),
        decreases n - i,
    {
        let c = chars[i];
        if c == '\r' {
            norm.push('\n');
        } else {
            norm.push(c);
        }
        assert(norm@ =~= normalize_cr(chars@).take(i + 1));
        i = i + 1;
    }
    let ghost ns = normalize_cr(chars@);
    assert(norm@ =~= ns);
    let mut start: usize = 0;
    while start < n && char_is_white(norm[start])
        invariant
            n == norm@.len(),
            start <= n,
            forall|k: int| 0 <= k < start ==> is_white(#[trigger] norm@[k]),
        decreases n - start,
    {
        start = start + 1;
    }
    proof {
        lemma_trim_front_at(ns, start as int);
    }
    let mut end: usize = n;
    while end > start && char_is_white(norm[end - 1])
        invariant
            n == norm@.len(),
            start <= end <= n,
            forall|k: int| end <= k < n ==> is_white(#[trigger] norm@[k]),
        decreases end,
    {
        end = end - 1;
    }
    let ghost front = ns.subrange(start as int, n as int);
    let ghost t = ns.subrange(start as int, end as int);
    proof {
        let e = end - start;
        assert forall|k: int| e <= k < front.len() implies is_white(#[trigger] front[k]) by {
            assert(front[k] == ns[k + start]);
        }
        if e > 0 {
            assert(front[e - 1] == ns[end - 1]);
        }
        lemma_trim_back_at(front, e as int);
        assert(front.subrange(0, e as int) =~= t);
        assert(trimmed(ns) == t);
    }
    let mut out = String::new();
    let count = end - start;
    let take = if count > PREVIEW_CHARS { PREVIEW_CHARS } else { count };
    let mut j: usize = 0;
    while j < take
        invariant
            n == norm@.len(),
            start <= end <= n,
            count == end - start,
            take <= count,
            t == norm@.subrange(start as int, end as int),
            j <= take,
            out@ == t.take(j as int),
        decreases take - j,
    {
        push_char(&mut out, norm[start + j]);
        assert(out@ =~= t.take(j + 1));
        j = j + 1;
    }
    if count > PREVIEW_CHARS {
        push_char(&mut out, '.');
        push_char(&mut out, '.');
        push_char(&mut out, '.');
        assert(out@ =~= t.take(PREVIEW_CHARS as int) + seq!['.', '.', '.']);
    } else {
        assert(out@ =~= t);
    }
    out
}

/// The preview is the trimmed, normalized text when that has at most
/// `PREVIEW_CHARS` characters; otherwise its first `PREVIEW_CHARS`
/// characters, then `...`: the start of the text is what is shown.
pub proof fn lemma_preview_prefix(s: Seq<char>)
    ensures
        ({
            let t = trimmed(normalize_cr(s));
            &&& t.len() <= PREVIEW_CHARS ==> preview_of(s) == t
            &&& t.len() > PREVIEW_CHARS ==> preview_of(s).len() == PREVIEW_CHARS + 3 && preview_of(
                s,
            ).take(PREVIEW_CHARS as int) == t.take(PREVIEW_CHARS as int) && preview_of(s).skip(
                PREVIEW_CHARS as int,
            ) == seq!['.', '.', '.']
        }),
{
    let t = trimmed(normalize_cr(s));
    if t.len() > PREVIEW_CHARS {
        let p = preview_of(s);
        assert(p.take(PREVIEW_CHARS as int) =~= t.take(PREVIEW_CHARS as int));
        assert(p.skip(PREVIEW_CHARS as int) =~= seq!['.', '.', '.']);
    }
}

/// A preview never runs longer than `PREVIEW_CHARS` characters plus the
/// three dots, and never holds a carriage return.
pub proof fn lemma_preview_bounded(s: Seq<char>)
    ensures
        preview_of(s).len() <= PREVIEW_CHARS + 3,
        forall|i: int| 0 <= i < preview_of(s).len() ==> #[trigger] preview_of(s)[i] != '\r',
{
    let ns = normalize_cr(s);
    let t = trimmed(ns);
    lemma_trimmed_is_slice(ns);
    let (a, b) = choose|a: int, b: int| 0 <= a <= b <= ns.len() && t == ns.subrange(a, b);
    assert forall|i: int| 0 <= i < t.len() implies #[trigger] t[i] != '\r' by {
        assert(t[i] == ns[a + i]);
    }
}

/// What trimming leaves is a contiguous slice of the input.
pub proof fn lemma_trimmed_is_slice(s: Seq<char>)
    ensures
        exists|a: int, b: int| 0 <= a <= b <= s.len() && trimmed(s) == s.subrange(a, b),
{
    let start = choose_front(s);
    lemma_trim_front_at(s, start);
    let f = s.subrange(start, s.len() as int);
    let e = choose_back(f);
    lemma_trim_back_at(f, e);
    assert(f.subrange(0, e) =~= s.subrange(start, start + e));
}

/// Trimming removes exactly the whitespace at both ends: what is left is
/// a slice `s[a..b]` with only whitespace before `a` and from `b` on, and
/// (when not empty) a non-space at each end.
pub proof fn lemma_trimmed_shape(s: Seq<char>)
    ensures
        exists|a: int, b: int|
            0 <= a <= b <= s.len() && trimmed(s) == s.subrange(a, b) && (forall|i: int|
                0 <= i < a ==> is_white(#[trigger] s[i])) && (forall|i: int|
                b <= i < s.len() ==> is_white(#[trigger] s[i])) && (a < b ==> !is_white(s[a])
                && !is_white(s[b - 1])),
{
    let start = choose_front(s);
    lemma_trim_front_at(s, start);
    let f = s.subrange(start, s.len() as int);
    let e = choose_back(f);
    lemma_trim_back_at(f, e);
    assert(f.subrange(0, e) =~= s.subrange(start, start + e));
    let b = start + e;
    assert forall|i: int| b <= i < s.len() implies is_white(#[trigger] s[i]) by {
        assert(f[i - start] == s[i]);
    }
    if start < b {
        assert(f[e - 1] == s[b - 1]);
    }
    assert(0 <= start <= b <= s.len() && trimmed(s) == s.subrange(start, b));
}

/// Normalizing line ends changes carriage returns into line feeds, one for
/// one, and nothing else.
pub proof fn lemma_normalize_cr(s: Seq<char>)
    ensures
        normalize_cr(s).len() == s.len(),
        forall|i: int|
            0 <= i < s.len() ==> #[trigger] normalize_cr(s)[i] == if s[i] == '\r' {
                '\n'
            } else {
                s[i]
            },
{
}

spec fn first_non_white_from(s: Seq<char>, i: int) -> int
    decreases s.len() - i,
{
    if i >= s.len() || !is_white(s[i]) {
        i
    } else {
        first_non_white_from(s, i + 1)
    }
}

proof fn lemma_first_non_white_from(s: Seq<char>, i: int)
    requires
        0 <= i <= s.len(),
        forall|k: int| 0 <= k < i ==> is_white(#[trigger] s[k]),
    ensures
        i <= first_non_white_from(s, i) <= s.len(),
        forall|k: int| 0 <= k < first_non_white_from(s, i) ==> is_white(#[trigger] s[k]),
        first_non_white_from(s, i) < s.len() ==> !is_white(s[first_non_white_from(s, i)]),
    decreases s.len() - i,
{
    if i < s.len() && is_white(s[i]) {
        lemma_first_non_white_from(s, i + 1);
    }
}

proof fn choose_front(s: Seq<char>) -> (k: int)
    ensures
        0 <= k <= s.len(),
        forall|i: int| 0 <= i < k ==> is_white(#[trigger] s[i]),
        k < s.len() ==> !is_white(s[k]),
{
    lemma_first_non_white_from(s, 0);
    first_non_white_from(s, 0)
}

spec fn last_non_white_before(s: Seq<char>, e: int) -> int
    decreases e,
{
    if e <= 0 || !is_white(s[e - 1]) {
        e
    } else {
        last_non_white_before(s, e - 1)
    }
}

proof fn lemma_last_non_white_before(s: Seq<char>, e: int)
    requires
        0 <= e <= s.len(),
        forall|k: int| e <= k < s.len() ==> is_white(#[trigger] s[k]),
    ensures
        0 <= last_non_white_before(s, e) <= e,
        forall|k: int| last_non_white_before(s, e) <= k < s.len() ==> is_white(#[trigger] s[k]),
        last_non_white_before(s, e) > 0 ==> !is_white(s[last_non_white_before(s, e) - 1]),
    decreases e,
{
    if e > 0 && is_white(s[e - 1]) {
        lemma_last_non_white_before(s, e - 1);
    }
}

proof fn choose_back(s: Seq<char>) -> (e: int)
    ensures
        0 <= e <= s.len(),
        forall|i: int| e <= i < s.len() ==> is_white(#[trigger] s[i]),
        e > 0 ==> !is_white(s[e - 1]),
{
    lemma_last_non_white_before(s, s.len() as int);
    last_non_white_before(s, s.len() as int)
}

} // verus!
