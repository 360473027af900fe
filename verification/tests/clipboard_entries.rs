use base64::Engine as _;
use smart_clipboard::clipboard::{rtf_payload, text_before_nul};
use smart_clipboard::clipboard::{html_payload, text_payload, ClipItem, ClipboardIO, CF_UNICODETEXT};
use smart_clipboard::entry::ClipEntry;

const HTML_ID: u32 = 0xC0A1;
const RTF_ID: u32 = 0xC0A2;

fn io() -> ClipboardIO {
    ClipboardIO::new(HTML_ID, RTF_ID)
}

fn entry(text: &str, html: Option<&str>, rtf: Option<&str>, time: i64) -> ClipEntry {
    ClipEntry {
        text: text.to_string(),
        html: html.map(|h| h.to_string()),
        rtf: rtf.map(|r| r.to_string()),
        time,
    }
}

fn data_for(items: &[ClipItem], format: u32) -> Option<Vec<u8>> {
    items.iter().rev().find(|i| i.format == format).map(|i| i.bytes.clone())
}

#[test]
fn new_keeps_the_format_ids() {
    let io = io();
    assert_eq!(io.html_format(), HTML_ID);
    assert_eq!(io.rtf_format(), RTF_ID);
}

#[test]
fn capture_needs_text() {
    assert!(io().capture(None, Some(b"<b>x</b>".to_vec()), None, 5).is_none());
}

#[test]
fn capture_ignores_blank_text() {
    assert!(io().capture(Some(text_payload("  \r\n\t")), None, None, 5).is_none());
}

#[test]
fn capture_plain_text() {
    let e = io().capture(Some(text_payload("hello")), None, None, 42).unwrap();
    assert_eq!(e.text, "hello");
    assert_eq!(e.html, None);
    assert_eq!(e.rtf, None);
    assert_eq!(e.time, 42);
}

#[test]
fn capture_encodes_rtf_in_base64() {
    let e = io()
        .capture(Some(text_payload("x")), None, Some(b"{\\rtf1 x}\0\0junk".to_vec()), 1)
        .unwrap();
    assert_eq!(e.rtf.as_deref(), Some("e1xydGYxIHh9"));
}

#[test]
fn capture_decodes_html_lossily() {
    let e = io()
        .capture(Some(text_payload("x")), Some(b"<i>\xff</i>\0tail".to_vec()), None, 1)
        .unwrap();
    assert_eq!(e.html.as_deref(), Some("<i>\u{FFFD}</i>"));
}

#[test]
fn capture_skips_empty_format_payloads() {
    let e = io()
        .capture(Some(text_payload("x")), Some(b"\0".to_vec()), Some(Vec::new()), 1)
        .unwrap();
    assert_eq!(e.html, None);
    assert_eq!(e.rtf, None);
}

#[test]
fn capture_skips_unregistered_formats() {
    let e = ClipboardIO::new(0, 0)
        .capture(Some(text_payload("x")), Some(b"<b>y</b>".to_vec()), Some(b"r".to_vec()), 1)
        .unwrap();
    assert_eq!(e.html, None);
    assert_eq!(e.rtf, None);
}

#[test]
fn write_plan_without_formatting_is_text_only() {
    let e = entry("Hi", Some("<b>Hi</b>"), Some("e1xydGYxIHh9"), 0);
    let plan = io().write_plan(&e, false);
    assert_eq!(plan.len(), 1);
    assert_eq!(plan[0].format, CF_UNICODETEXT);
    assert_eq!(plan[0].bytes, text_payload("Hi"));
}

#[test]
fn write_plan_with_formatting() {
    let e = entry("Hi", Some("<b>Hi</b>"), Some("e1xydGYxIHh9"), 0);
    let plan = io().write_plan(&e, true);
    assert_eq!(plan.len(), 3);
    assert_eq!(plan[1].format, HTML_ID);
    assert_eq!(plan[1].bytes, html_payload("<b>Hi</b>"));
    assert_eq!(plan[2].format, RTF_ID);
    assert_eq!(plan[2].bytes, b"{\\rtf1 x}\0".to_vec());
}

#[test]
fn write_plan_drops_rtf_that_is_not_base64() {
    let e = entry("Hi", None, Some("not base64!"), 0);
    let plan = io().write_plan(&e, true);
    assert_eq!(plan.len(), 1);
}

#[test]
fn html_written_then_read_back() {
    let html = "Version:0.9\r\nStartHTML:0000000100\r\nEndHTML:0000000340\r\nStartFragment:0000000150\r\nEndFragment:0000000300\r\n<html><body><!--StartFragment--><b>Bold and italic</b> formatted text<!--EndFragment--></body></html>\r\n";
    let e = entry("Bold and italic formatted text", Some(html), None, 0);
    let io = io();
    let plan = io.write_plan(&e, true);
    let read = io
        .capture(data_for(&plan, CF_UNICODETEXT), data_for(&plan, HTML_ID), data_for(&plan, RTF_ID), 7)
        .unwrap();
    assert_eq!(read.text, "Bold and italic formatted text");
    let h = read.html.unwrap();
    assert!(h.contains("StartFragment") && h.contains("Bold"));
    assert_eq!(h, html);
}

#[test]
fn paste_then_capture_round_trips_with_trailing_bytes() {
    let io = io();
    let first = io
        .capture(
            Some(text_payload("Grüße 😀")),
            Some(b"<p>Gr\xc3\xbc\xc3\x9fe</p>\0".to_vec()),
            Some(b"{\\rtf1 G}".to_vec()),
            3,
        )
        .unwrap();
    let plan = io.write_plan(&first, true);
    let pad = |o: Option<Vec<u8>>| {
        o.map(|mut v| {
            v.extend_from_slice(&[9, 9, 9]);
            v
        })
    };
    let again = io
        .capture(
            pad(data_for(&plan, CF_UNICODETEXT)),
            pad(data_for(&plan, HTML_ID)),
            pad(data_for(&plan, RTF_ID)),
            4,
        )
        .unwrap();
    assert_eq!(again.text, first.text);
    assert_eq!(again.html, first.html);
    assert_eq!(again.rtf, first.rtf);
    assert_eq!(again.time, 4);
}

#[test]
fn same_content_ignores_time() {
    let a = entry("t", Some("h"), None, 1);
    let b = entry("t", Some("h"), None, 2);
    let c = entry("t", None, None, 1);
    assert!(a.same_content_as(&b));
    assert!(!a.same_content_as(&c));
    let d = a.duplicate();
    assert_eq!((d.text, d.html, d.rtf, d.time), (a.text, a.html, a.rtf, a.time));
}

#[test]
fn html_text_stops_at_nul() {
    assert_eq!(text_before_nul("<b>a</b>\0rest"), "<b>a</b>");
    assert_eq!(text_before_nul("plain"), "plain");
    assert_eq!(text_before_nul("\0x"), "");
}

#[test]
fn rtf_payload_appends_nul_or_fails() {
    let ok = base64::engine::general_purpose::STANDARD.decode("e1xydGYxIHh9");
    assert_eq!(rtf_payload(ok), Some(b"{\\rtf1 x}\0".to_vec()));
    let bad = base64::engine::general_purpose::STANDARD.decode("not base64!");
    assert_eq!(rtf_payload(bad), None);
}

#[test]
fn paste_round_trip_without_formatting_keeps_text_only() {
    let io = io();
    let e = entry("plain words", Some("<i>x</i>"), Some("e1xydGYxIHh9"), 1);
    let plan = io.write_plan(&e, false);
    let back = io
        .capture(data_for(&plan, CF_UNICODETEXT), data_for(&plan, HTML_ID), data_for(&plan, RTF_ID), 2)
        .unwrap();
    assert_eq!(back.text, "plain words");
    assert_eq!(back.html, None);
    assert_eq!(back.rtf, None);
}
