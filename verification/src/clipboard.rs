//! What goes onto the clipboard when an entry is pasted and what is taken
//! from it when something is copied: the payload bytes of each format.

use vstd::prelude::*;
use vstd::utf8::encode_utf8;
use crate::codec::{
    base64_decode, base64_decoding, base64_encode, base64_encoding, utf8_bytes, utf8_decode_lossy,
    decode_utf8_lossy,
};
use crate::entry::{ClipEntry, EntryView};
use crate::text::{char_is_white, chars_of, is_blank, is_white, push_char};
use crate::utf16::{
    bytes_until_nul, decode_utf16_lossy, decode_utf16_units, encode_utf16, encode_utf16_units,
    le_bytes_to_units, le_to_units, take_until, units_to_le, units_to_le_bytes, units_until_nul,
};

verus! {

/// The standard clipboard format of NUL-terminated UTF-16 text.
pub const CF_UNICODETEXT: u32 = 13;

/// The bytes the clipboard holds for one format, if any.
pub open spec fn opt_bytes(o: Option<Vec<u8>>) -> Option<Seq<u8>> {
    match o {
        Some(v) => Some(v@),
        None => None,
    }
}

/// The text that the Unicode text format's raw bytes hold: the code units
/// up to the terminating NUL, decoded.
pub open spec fn text_from_data(data: Seq<u8>) -> Seq<char> {
    decode_utf16_lossy(take_until(le_bytes_to_units(data), 0u16))
}

/// The payload of a registered format: the bytes before the first NUL, when
/// the format was registered (nonzero), present, and that prefix not empty.
pub open spec fn format_payload(format: u32, data: Option<Seq<u8>>) -> Option<Seq<u8>> {
    match data {
        Some(d) => if format != 0 && take_until(d, 0u8).len() > 0 {
            Some(take_until(d, 0u8))
        } else {
            None
        },
        None => None,
    }
}

/// HTML as kept in an entry: the payload decoded lossily, up to any NUL.
pub open spec fn html_from_payload(p: Option<Seq<u8>>) -> Option<Seq<char>> {
    match p {
        Some(b) => Some(take_until(decode_utf8_lossy(b), '\0')),
        None => None,
    }
}

/// RTF as kept in an entry: the payload in base64.
pub open spec fn rtf_from_payload(p: Option<Seq<u8>>) -> Option<Seq<char>> {
    match p {
        Some(b) => Some(base64_encoding(b)),
        None => None,
    }
}

/// The entry captured from a clipboard holding `text_data`, `html_data` and
/// `rtf_data` for the text, HTML and RTF formats: none when there is no text
/// or it is blank.
pub open spec fn captured(
    html_format: u32,
    rtf_format: u32,
    text_data: Option<Seq<u8>>,
    html_data: Option<Seq<u8>>,
    rtf_data: Option<Seq<u8>>,
    time: i64,
) -> Option<EntryView> {
    match text_data {
        None => None,
        Some(t) => {
            let text = text_from_data(t);
            if is_blank(text) {
                None
            } else {
                Some(
                    EntryView {
                        text,
                        html: html_from_payload(format_payload(html_format, html_data)),
                        rtf: rtf_from_payload(format_payload(rtf_format, rtf_data)),
                        time,
                    },
                )
            }
        },
    }
}

/// The bytes put on the clipboard for text: UTF-16 little-endian, NUL-terminated.
pub open spec fn text_payload_of(text: Seq<char>) -> Seq<u8> {
    units_to_le_bytes(encode_utf16(text).push(0u16))
}

/// The bytes put on the clipboard for HTML: UTF-8, NUL-terminated.
pub open spec fn html_payload_of(html: Seq<char>) -> Seq<u8> {
    encode_utf8(html).push(0u8)
}

/// The formats and bytes that pasting `e` puts on the clipboard, in order:
/// the text always; with formatting on, also the HTML when there is some,
/// and the RTF when there is some and it decodes from base64.
pub open spec fn write_items(
    html_format: u32,
    rtf_format: u32,
    e: EntryView,
    format_on: bool,
) -> Seq<(u32, Seq<u8>)> {
    let text_item = seq![(CF_UNICODETEXT, text_payload_of(e.text))];
    if !format_on {
        text_item
    } else {
        let html_items = match e.html {
            Some(h) => seq![(html_format, html_payload_of(h))],
            None => Seq::empty(),
        };
        let rtf_items = match e.rtf {
            Some(r) => match base64_decoding(r) {
                Some(b) => seq![(rtf_format, b.push(0u8))],
                None => Seq::empty(),
            },
            None => Seq::empty(),
        };
        text_item + html_items + rtf_items
    }
}

/// The shape of what pasting puts on the clipboard: the text item first;
/// one more item for HTML exactly when formatting is on and the entry has
/// HTML (its UTF-8 bytes and a NUL); one more for RTF exactly when formatting
/// is on and the entry's RTF decodes (the decoded bytes and a NUL); nothing
/// else.
pub proof fn lemma_write_items_shape(html_format: u32, rtf_format: u32, e: EntryView, format_on: bool)
    ensures
        ({
            let items = write_items(html_format, rtf_format, e, format_on);
            let has_html = format_on && e.html is Some;
            let has_rtf = format_on && e.rtf is Some && base64_decoding(e.rtf->0) is Some;
            &&& items.len() == 1 + (if has_html { 1int } else { 0int }) + (if has_rtf {
                1int
            } else {
                0int
            })
            &&& items[0] == (CF_UNICODETEXT, units_to_le_bytes(encode_utf16(e.text).push(0u16)))
            &&& has_html ==> items[1] == (html_format, encode_utf8(e.html->0).push(0u8))
            &&& has_rtf ==> items.last() == (rtf_format, base64_decoding(e.rtf->0)->0.push(0u8))
            &&& (html_format != CF_UNICODETEXT && html_format != rtf_format) ==> ((exists|i: int|
                0 <= i < items.len() && (#[trigger] items[i]).0 == html_format) <==> has_html)
            &&& (rtf_format != CF_UNICODETEXT && rtf_format != html_format) ==> ((exists|i: int|
                0 <= i < items.len() && (#[trigger] items[i]).0 == rtf_format) <==> has_rtf)
        }),
{
    let items = write_items(html_format, rtf_format, e, format_on);
    let has_html = format_on && e.html is Some;
    let has_rtf = format_on && e.rtf is Some && base64_decoding(e.rtf->0) is Some;
    if html_format != CF_UNICODETEXT && html_format != rtf_format {
        if has_html {
            assert(items[1].0 == html_format);
        }
        assert forall|i: int| 0 <= i < items.len() && (#[trigger] items[i]).0 == html_format
            implies has_html by {
            if !has_html {
                if i == 0 {
                } else {
                    assert(items[i].0 == rtf_format);
                }
            }
        }
    }
    if rtf_format != CF_UNICODETEXT && rtf_format != html_format {
        if has_rtf {
            assert(items.last().0 == rtf_format);
            assert(items[items.len() - 1].0 == rtf_format);
        }
        assert forall|i: int| 0 <= i < items.len() && (#[trigger] items[i]).0 == rtf_format
            implies has_rtf by {
            if !has_rtf {
                if i == 0 {
                } else {
                    assert(items[i].0 == html_format);
                }
            }
        }
    }
}

/// What a capture holds, said of the raw format data: nothing without text
/// or with blank text; otherwise the decoded text, the capture time, HTML
/// exactly when its format is registered and its data is nonempty before the
/// first NUL (decoded, up to any NUL character), and RTF exactly when the same
/// holds of its data (in base64).
pub proof fn lemma_captured_fields(
    html_format: u32,
    rtf_format: u32,
    text_data: Option<Seq<u8>>,
    html_data: Option<Seq<u8>>,
    rtf_data: Option<Seq<u8>>,
    time: i64,
)
    ensures
        ({
            let c = captured(html_format, rtf_format, text_data, html_data, rtf_data, time);
            &&& text_data is None ==> c is None
            &&& text_data is Some ==> (c is Some <==> !is_blank(
                decode_utf16_lossy(take_until(le_bytes_to_units(text_data->0), 0u16)),
            ))
            &&& c is Some ==> c->0.time == time && c->0.text == decode_utf16_lossy(
                take_until(le_bytes_to_units(text_data->0), 0u16),
            )
            &&& c is Some ==> (c->0.html is Some <==> (html_format != 0 && html_data is Some
                && take_until(html_data->0, 0u8).len() > 0))
            &&& (c is Some && c->0.html is Some) ==> c->0.html->0 == take_until(
                decode_utf8_lossy(take_until(html_data->0, 0u8)),
                '\0',
            )
            &&& c is Some ==> (c->0.rtf is Some <==> (rtf_format != 0 && rtf_data is Some
                && take_until(rtf_data->0, 0u8).len() > 0))
            &&& (c is Some && c->0.rtf is Some) ==> c->0.rtf->0 == base64_encoding(
                take_until(rtf_data->0, 0u8),
            )
        }),
{
}

/// One format and the bytes to put on the clipboard for it.
pub struct ClipItem {
    pub format: u32,
    pub bytes: Vec<u8>,
}

impl View for ClipItem {
    type V = (u32, Seq<u8>);

    open spec fn view(&self) -> (u32, Seq<u8>) {
        (self.format, self.bytes@)
    }
}

/// The formats and bytes of a list of items.
pub open spec fn item_views(v: Seq<ClipItem>) -> Seq<(u32, Seq<u8>)> {
    v.map_values(|i: ClipItem| i@)
}

/// The clipboard's format identifiers for HTML and RTF, as registered with
/// the system (zero where registration failed).
pub struct ClipboardIO {
    html_format: u32,
    rtf_format: u32,
}

/// Whether `s` holds nothing but whitespace.
pub fn is_blank_text(s: &str) -> (r: bool)
    ensures
        r == is_blank(s@),
{
    let chars = chars_of(s);
    let n = chars.len();
    let mut i: usize = 0;
    while i < n
        invariant
            n == chars@.len(),
            chars@ == s@,
            i <= n,
            forall|k: int| 0 <= k < i ==> is_white(#[trigger] chars@[k]),
        decreases n - i,
    {
        if !char_is_white(chars[i]) {
            return false;
        }
        i = i + 1;
    }
    true
}

/// The payload of a format whose clipboard data is `data`: the bytes before
/// the first NUL, or nothing when the format is unregistered (zero), absent,
/// or that prefix is empty.
pub fn format_bytes(format: u32, data: Option<Vec<u8>>) -> (r: Option<Vec<u8>>)
    ensures
        opt_bytes(r) == format_payload(format, opt_bytes(data)),
{
    if format == 0 {
        return None;
    }
    match data {
        None => None,
        Some(d) => {
            let p = bytes_until_nul(d.as_slice());
            if p.len() == 0 {
                None
            } else {
                Some(p)
            }
        },
    }
}

/// The text held by the raw bytes of the Unicode text format.
pub fn text_from_bytes(data: &[u8]) -> (r: String)
    ensures
        r@ == text_from_data(data@),
{
    let units = le_to_units(data);
    let until = units_until_nul(units.as_slice());
    decode_utf16_units(until.as_slice())
}

/// The clipboard bytes for `text` in the Unicode text format.
pub fn text_payload(text: &str) -> (r: Vec<u8>)
    ensures
        r@ == text_payload_of(text@),
{
    let mut units = encode_utf16_units(text);
    units.push(0u16);
    units_to_le(units.as_slice())
}

/// The clipboard bytes for `html` in the HTML format.
pub fn html_payload(html: &str) -> (r: Vec<u8>)
    ensures
        r@ == html_payload_of(html@),
{
    let mut b = utf8_bytes(html);
    b.push(0u8);
    b
}

/// The HTML kept from its decoded payload: the characters before the first
/// NUL, as a new string.
pub fn text_before_nul(s: &str) -> (r: String)
    ensures
        r@ == take_until(s@, '\0'),
{
    let chars = chars_of(s);
    let n = chars.len();
    let mut out = String::new();
    let mut k: usize = 0;
    while k < n && chars[k] != '\0'
        invariant
            n == chars@.len(),
            chars@ == s@,
            k <= n,
            out@ == chars@.take(k as int),
            forall|j: int| 0 <= j < k ==> chars@[j] != '\0',
        decreases n - k,
    {
        push_char(&mut out, chars[k]);
        assert(out@ =~= chars@.take(k + 1));
        k = k + 1;
    }
    proof {
        crate::utf16::lemma_take_until_at(s@, '\0', k as int);
    }
    out
}

/// The RTF payload to put on the clipboard from what base64 decoding gave:
/// the decoded bytes followed by a NUL, or nothing when decoding failed.
pub fn rtf_payload(decoded: Result<Vec<u8>, base64::DecodeError>) -> (r: Option<Vec<u8>>)
    ensures
        decoded is Ok ==> r is Some && r->0@ == decoded->Ok_0@.push(0u8),
        decoded is Err ==> r is None,
{
    match decoded {
        Ok(v) => {
            let mut bytes = v;
            bytes.push(0u8);
            Some(bytes)
        },
        Err(_) => None,
    }
}

impl ClipboardIO {
    /// The HTML format's identifier.
    pub closed spec fn html_id(&self) -> u32 {
        self.html_format
    }

    /// The RTF format's identifier.
    pub closed spec fn rtf_id(&self) -> u32 {
        self.rtf_format
    }

    /// A clipboard reader and writer for the given registered formats.
    pub fn new(html_format: u32, rtf_format: u32) -> (r: Self)
        ensures
            r.html_id() == html_format,
            r.rtf_id() == rtf_format,
    {
        ClipboardIO { html_format, rtf_format }
    }

    pub fn html_format(&self) -> (r: u32)
        ensures
            r == self.html_id(),
    {
        self.html_format
    }

    pub fn rtf_format(&self) -> (r: u32)
        ensures
            r == self.rtf_id(),
    {
        self.rtf_format
    }

    /// The NUL-terminated UTF-16 name under which a format is registered.
    pub fn format_name_utf16(name: &str) -> (r: Vec<u16>)
        ensures
            r@ == encode_utf16(name@).push(0u16),
    {
        let mut units = encode_utf16_units(name);
        units.push(0u16);
        units
    }

    /// The entry to record from a clipboard whose text, HTML and RTF formats
    /// hold `text_data`, `html_data` and `rtf_data` (each `None` when the
    /// format is not offered), captured at `time`.
    pub fn capture(
        &self,
        text_data: Option<Vec<u8>>,
        html_data: Option<Vec<u8>>,
        rtf_data: Option<Vec<u8>>,
        time: i64,
    ) -> (r: Option<ClipEntry>)
        requires
            rtf_data matches Some(d) ==> d@.len() <= usize::MAX / 4,
        ensures
            match r {
                Some(e) => captured(
                    self.html_id(),
                    self.rtf_id(),
                    opt_bytes(text_data),
                    opt_bytes(html_data),
                    opt_bytes(rtf_data),
                    time,
                ) == Some(e@),
                None => captured(
                    self.html_id(),
                    self.rtf_id(),
                    opt_bytes(text_data),
                    opt_bytes(html_data),
                    opt_bytes(rtf_data),
                    time,
                ) is None,
            },
            text_data is None ==> r is None,
            text_data is Some ==> (r is Some <==> !is_blank(
                decode_utf16_lossy(take_until(le_bytes_to_units(text_data->0@), 0u16)),
            )),
            r is Some ==> r->0.time == time && r->0.text@ == decode_utf16_lossy(
                take_until(le_bytes_to_units(text_data->0@), 0u16),
            ),
            r is Some ==> (r->0.html is Some <==> (self.html_id() != 0 && html_data is Some
                && take_until(html_data->0@, 0u8).len() > 0)),
            (r is Some && r->0.html is Some) ==> r->0.html->0@ == take_until(
                decode_utf8_lossy(take_until(html_data->0@, 0u8)),
                '\0',
            ),
            r is Some ==> (r->0.rtf is Some <==> (self.rtf_id() != 0 && rtf_data is Some
                && take_until(rtf_data->0@, 0u8).len() > 0)),
            (r is Some && r->0.rtf is Some) ==> r->0.rtf->0@ == base64_encoding(
                take_until(rtf_data->0@, 0u8),
            ),
    {
        proof {
            lemma_captured_fields(
                self.html_id(),
                self.rtf_id(),
                opt_bytes(text_data),
                opt_bytes(html_data),
                opt_bytes(rtf_data),
                time,
            );
        }
        let t = match text_data {
            None => {
                return None;
            },
            Some(t) => t,
        };
        let text = text_from_bytes(t.as_slice());
        if is_blank_text(text.as_str()) {
            return None;
        }
        let html = match format_bytes(self.html_format, html_data) {
            Some(b) => {
                let decoded = utf8_decode_lossy(b.as_slice());
                Some(text_before_nul(decoded.as_str()))
            },
            None => None,
        };
        proof {
            if rtf_data is Some {
                crate::utf16::lemma_take_until_len(rtf_data->0@, 0u8);
            }
        }
        let rtf = match format_bytes(self.rtf_format, rtf_data) {
            Some(b) => Some(base64_encode(b.as_slice())),
            None => None,
        };
        let e = ClipEntry { text, html, rtf, time };
        proof {
            let want = captured(
                self.html_id(),
                self.rtf_id(),
                opt_bytes(text_data),
                opt_bytes(html_data),
                opt_bytes(rtf_data),
                time,
            );
            assert(want == Some(e@));
        }
        Some(e)
    }

    /// The formats and bytes to put on the clipboard to paste `entry`.
    pub fn write_plan(&self, entry: &ClipEntry, format_on: bool) -> (r: Vec<ClipItem>)
        ensures
            item_views(r@) == write_items(
                self.html_id(),
                self.rtf_id(),
                entry@,
                format_on,
            ),
            forall|text_tail: Seq<u8>, html_tail: Seq<u8>, rtf_tail: Seq<u8>, time: i64|
                round_trip_conditions(self.html_id(), self.rtf_id(), entry@) ==> #[trigger] captured_back(
                    self.html_id(),
                    self.rtf_id(),
                    item_views(r@),
                    text_tail,
                    html_tail,
                    rtf_tail,
                    time,
                ) == Some(as_pasted(entry@, format_on, time)),
            ({
                let iv = item_views(r@);
                let has_html = format_on && entry@.html is Some;
                let has_rtf = format_on && entry@.rtf is Some && base64_decoding(entry@.rtf->0) is Some;
                &&& iv.len() == 1 + (if has_html { 1int } else { 0int }) + (if has_rtf {
                    1int
                } else {
                    0int
                })
                &&& iv[0] == (CF_UNICODETEXT, units_to_le_bytes(encode_utf16(entry@.text).push(0u16)))
                &&& has_html ==> iv[1] == (self.html_id(), encode_utf8(entry@.html->0).push(0u8))
                &&& has_rtf ==> iv.last() == (
                    self.rtf_id(),
                    base64_decoding(entry@.rtf->0)->0.push(0u8),
                )
                &&& (self.html_id() != CF_UNICODETEXT && self.html_id() != self.rtf_id()) ==> ((exists|
                    i: int,
                | 0 <= i < iv.len() && (#[trigger] iv[i]).0 == self.html_id()) <==> has_html)
                &&& (self.rtf_id() != CF_UNICODETEXT && self.rtf_id() != self.html_id()) ==> ((exists|
                    i: int,
                | 0 <= i < iv.len() && (#[trigger] iv[i]).0 == self.rtf_id()) <==> has_rtf)
            }),
    {
        proof {
            lemma_write_items_shape(self.html_id(), self.rtf_id(), entry@, format_on);
        }
        let mut items: Vec<ClipItem> = Vec::new();
        items.push(ClipItem { format: CF_UNICODETEXT, bytes: text_payload(entry.text.as_str()) });
        if format_on {
            match &entry.html {
                Some(h) => {
                    items.push(ClipItem { format: self.html_format, bytes: html_payload(h.as_str()) });
                },
                None => {},
            }
            match &entry.rtf {
                Some(r) => {
                    let decoded = base64_decode(r.as_str());
                    proof {
                        assert(entry@.rtf == Some(r@));
                        assert forall|b: Seq<u8>| base64_encoding(b) == r@ implies base64_decoding(
                            r@,
                        ) == Some(b) by {}
                        assert(decodes_back(entry@.rtf->0));
                    }
                    match rtf_payload(decoded) {
                        Some(bytes) => {
                            items.push(ClipItem { format: self.rtf_format, bytes });
                        },
                        None => {},
                    }
                },
                None => {},
            }
        }
        assert(format_on && entry@.rtf is Some ==> decodes_back(entry@.rtf->0));
        let ghost iv = item_views(items@);
        assert(iv =~= write_items(self.html_id(), self.rtf_id(), entry@, format_on));
        proof {
            let e = entry@;
            let hf = self.html_id();
            let rf = self.rtf_id();
            assert forall|text_tail: Seq<u8>, html_tail: Seq<u8>, rtf_tail: Seq<u8>, time: i64|
                round_trip_conditions(hf, rf, e) implies #[trigger] captured_back(
                hf,
                rf,
                iv,
                text_tail,
                html_tail,
                rtf_tail,
                time,
            ) == Some(as_pasted(e, format_on, time)) by {
                let b = if e.rtf is Some {
                    choose|b: Seq<u8>| rtf_source(e.rtf->0, b)
                } else {
                    Seq::<u8>::empty()
                };
                lemma_paste_then_capture(hf, rf, e, format_on, time, b, text_tail, html_tail, rtf_tail);
            }
        }
        items
    }
}


/// What a clipboard that was given `items` in order holds for `format`:
/// the bytes set last for it.
pub open spec fn clipboard_data(items: Seq<(u32, Seq<u8>)>, format: u32) -> Option<Seq<u8>>
    decreases items.len(),
{
    if items.len() == 0 {
        None
    } else if items.last().0 == format {
        Some(items.last().1)
    } else {
        clipboard_data(items.drop_last(), format)
    }
}

/// `data` followed by `tail`, when there is data.
pub open spec fn with_tail(data: Option<Seq<u8>>, tail: Seq<u8>) -> Option<Seq<u8>> {
    match data {
        Some(d) => Some(d + tail),
        None => None,
    }
}

/// Whether `b` holds no zero byte.
pub open spec fn no_zero_byte(b: Seq<u8>) -> bool {
    forall|i: int| 0 <= i < b.len() ==> b[i] != 0
}

/// The UTF-8 bytes of a NUL-free text hold no zero byte.
proof fn lemma_utf8_no_zero(s: Seq<char>)
    requires
        crate::utf16::no_nul(s),
    ensures
        no_zero_byte(encode_utf8(s)),
    decreases s.len(),
{
    if s.len() > 0 {
        let t = s.drop_first();
        assert(crate::utf16::no_nul(t)) by {
            assert forall|i: int| 0 <= i < t.len() implies t[i] != '\0' by {
                assert(t[i] == s[i + 1]);
            }
        }
        lemma_utf8_no_zero(t);
        let c = s[0];
        let v = c as u32;
        vstd::utf8::char_is_scalar(c);
        if v == 0 {
            vstd::utf8::char_u32_cast(c, 0u32);
        }
        assert(v != 0);
        let es = vstd::utf8::encode_scalar(v);
        if vstd::utf8::has_width_1_encoding(v) {
            assert((v & 0x7F) as u8 != 0) by (bit_vector)
                requires
                    1 <= v <= 0x7F,
            ;
        } else if vstd::utf8::has_width_2_encoding(v) {
            assert((0xC0 | ((v >> 6) & 0x1F) as u8) != 0u8) by (bit_vector);
            assert((0x80 | (v & 0x3F) as u8) != 0u8) by (bit_vector);
        } else if vstd::utf8::has_width_3_encoding(v) {
            assert((0xE0 | ((v >> 12) & 0x0F) as u8) != 0u8) by (bit_vector);
            assert((0x80 | ((v >> 6) & 0x3F) as u8) != 0u8) by (bit_vector);
            assert((0x80 | (v & 0x3F) as u8) != 0u8) by (bit_vector);
        } else {
            assert((0xF0 | ((v >> 18) & 0x7) as u8) != 0u8) by (bit_vector);
            assert((0x80 | ((v >> 12) & 0x3F) as u8) != 0u8) by (bit_vector);
            assert((0x80 | ((v >> 6) & 0x3F) as u8) != 0u8) by (bit_vector);
            assert((0x80 | (v & 0x3F) as u8) != 0u8) by (bit_vector);
        }
        assert(no_zero_byte(es));
        let e = encode_utf8(s);
        assert(e == es + encode_utf8(t));
        assert forall|i: int| 0 <= i < e.len() implies e[i] != 0 by {
            if i >= es.len() {
                assert(e[i] == encode_utf8(t)[i - es.len()]);
            }
        }
    }
}

/// `b` are the bytes whose base64 text is `r`: nonempty and free of zero bytes,
/// as captured RTF is.
pub open spec fn rtf_source(r: Seq<char>, b: Seq<u8>) -> bool {
    r == base64_encoding(b) && b.len() > 0 && no_zero_byte(b)
}

/// Every byte sequence whose base64 text is `r` is what `r` decodes to.
pub open spec fn decodes_back(r: Seq<char>) -> bool {
    forall|b: Seq<u8>| #[trigger] base64_encoding(b) == r ==> base64_decoding(r) == Some(b)
}

/// What the round trip through the clipboard needs: distinct, registered
/// format ids; text that is not blank and has no NUL; HTML that is not empty
/// and has no NUL; RTF that is the base64 text of nonempty bytes free of zero
/// bytes.
pub open spec fn round_trip_conditions(html_format: u32, rtf_format: u32, e: EntryView) -> bool {
    &&& html_format != 0
    &&& rtf_format != 0
    &&& html_format != rtf_format
    &&& html_format != CF_UNICODETEXT
    &&& rtf_format != CF_UNICODETEXT
    &&& !is_blank(e.text)
    &&& crate::utf16::no_nul(e.text)
    &&& (e.html matches Some(h) ==> h.len() > 0 && crate::utf16::no_nul(h))
    &&& (e.rtf matches Some(r) ==> exists|b: Seq<u8>| rtf_source(r, b))
}

/// What is captured from a clipboard that was given `items`, when it returns
/// each payload followed by the given extra bytes.
pub open spec fn captured_back(
    html_format: u32,
    rtf_format: u32,
    items: Seq<(u32, Seq<u8>)>,
    text_tail: Seq<u8>,
    html_tail: Seq<u8>,
    rtf_tail: Seq<u8>,
    time: i64,
) -> Option<EntryView> {
    captured(
        html_format,
        rtf_format,
        with_tail(clipboard_data(items, CF_UNICODETEXT), text_tail),
        with_tail(clipboard_data(items, html_format), html_tail),
        with_tail(clipboard_data(items, rtf_format), rtf_tail),
        time,
    )
}

/// The entry as a paste with or without formatting carries it, captured at `time`.
pub open spec fn as_pasted(e: EntryView, format_on: bool, time: i64) -> EntryView {
    EntryView {
        text: e.text,
        html: if format_on {
            e.html
        } else {
            None
        },
        rtf: if format_on {
            e.rtf
        } else {
            None
        },
        time,
    }
}

/// Pasting an entry and then capturing what the clipboard holds gives the
/// entry back (with formatting on; with it off, the plain text only), at the
/// capture time, whatever extra bytes the clipboard returns after each
/// payload. The entry's text is not blank and has no NUL, its HTML is not
/// empty and has no NUL, and (when formatting is on) its RTF is the base64
/// text of nonempty bytes without a zero byte that decode back to them.
/// `ClipboardIO::write_plan` states the same of the plan it returns, there
/// without the decoding hypothesis, which the decoder's own contract supplies.
pub proof fn lemma_paste_then_capture(
    html_format: u32,
    rtf_format: u32,
    e: EntryView,
    format_on: bool,
    time: i64,
    rtf_bytes: Seq<u8>,
    text_tail: Seq<u8>,
    html_tail: Seq<u8>,
    rtf_tail: Seq<u8>,
)
    requires
        html_format != 0,
        rtf_format != 0,
        html_format != rtf_format,
        html_format != CF_UNICODETEXT,
        rtf_format != CF_UNICODETEXT,
        !is_blank(e.text),
        crate::utf16::no_nul(e.text),
        e.html matches Some(h) ==> h.len() > 0 && crate::utf16::no_nul(h),
        format_on ==> (e.rtf matches Some(r) ==> rtf_source(r, rtf_bytes) && base64_decoding(r)
            == Some(rtf_bytes)),
    ensures
        captured_back(
            html_format,
            rtf_format,
            write_items(html_format, rtf_format, e, format_on),
            text_tail,
            html_tail,
            rtf_tail,
            time,
        ) == Some(as_pasted(e, format_on, time)),
{
    reveal_with_fuel(clipboard_data, 4);
    let items = write_items(html_format, rtf_format, e, format_on);
    // text
    let enc = encode_utf16(e.text);
    crate::utf16::lemma_le_roundtrip(enc.push(0u16), text_tail);
    crate::utf16::lemma_utf16_no_zero(e.text);
    let units_tail = le_bytes_to_units(text_tail);
    assert(enc.push(0u16) + units_tail =~= enc + seq![0u16] + units_tail);
    crate::utf16::lemma_take_until_prefix(enc, 0u16, units_tail);
    crate::utf16::lemma_utf16_roundtrip(e.text);
    assert(text_from_data(text_payload_of(e.text) + text_tail) == e.text);
    // html
    if e.html is Some {
        let h = e.html->0;
        let b = encode_utf8(h);
        lemma_utf8_no_zero(h);
        assert(b.push(0u8) + html_tail =~= b + seq![0u8] + html_tail);
        crate::utf16::lemma_take_until_prefix(b, 0u8, html_tail);
        vstd::utf8::encode_utf8_valid_utf8(h);
        vstd::utf8::encode_utf8_decode_utf8(h);
        vstd::utf8::encode_utf8_first_scalar(h);
        assert(b.len() > 0);
        crate::utf16::lemma_take_until_at(h, '\0', h.len() as int);
        assert(h.take(h.len() as int) =~= h);
        assert(format_payload(html_format, Some(html_payload_of(h) + html_tail)) == Some(b));
        assert(html_from_payload(Some(b)) == Some(h));
    }
    // rtf
    if format_on && e.rtf is Some {
        assert(rtf_bytes.push(0u8) + rtf_tail =~= rtf_bytes + seq![0u8] + rtf_tail);
        crate::utf16::lemma_take_until_prefix(rtf_bytes, 0u8, rtf_tail);
        assert(format_payload(rtf_format, Some(rtf_bytes.push(0u8) + rtf_tail)) == Some(
            rtf_bytes,
        ));
    }
}

} // verus!
