use smart_clipboard::clipboard::{
    format_bytes, html_payload, is_blank_text, text_from_bytes, text_payload, ClipboardIO,
    CF_UNICODETEXT,
};
use smart_clipboard::text::preview_text;
use smart_clipboard::utf16::{decode_utf16_units, encode_utf16_units, le_to_units, units_to_le};

#[test]
fn preview_keeps_short_text_trimmed() {
    assert_eq!(preview_text("  hello world \n"), "hello world");
}

#[test]
fn preview_turns_carriage_returns_into_line_feeds() {
    assert_eq!(preview_text("a\r\nb\rc"), "a\n\nb\nc");
}

#[test]
fn preview_trims_unicode_whitespace() {
    assert_eq!(preview_text("\u{3000}\u{00A0}x\u{2028}"), "x");
    assert_eq!(preview_text(" \t\r\n "), "");
}

#[test]
fn preview_cuts_long_text() {
    let long: String = std::iter::repeat('x').take(250).collect();
    let p = preview_text(&long);
    assert_eq!(p.chars().count(), 203);
    assert!(p.ends_with("..."));
    assert_eq!(&p[..200], &long[..200]);
}

#[test]
fn preview_at_exactly_the_limit_is_not_cut() {
    let s: String = std::iter::repeat('y').take(200).collect();
    assert_eq!(preview_text(&s), s);
    let t: String = std::iter::repeat('y').take(201).collect();
    assert_eq!(preview_text(&t), format!("{}...", &s));
}

#[test]
fn preview_counts_characters_not_bytes() {
    let s: String = std::iter::repeat('é').take(201).collect();
    let p = preview_text(&s);
    assert_eq!(p.chars().count(), 203);
}

#[test]
fn blank_text_is_only_whitespace() {
    assert!(is_blank_text(""));
    assert!(is_blank_text(" \t\n\u{2003}"));
    assert!(!is_blank_text(" a "));
}

#[test]
fn utf16_encoding_matches_std() {
    let s = "héllo 😀 \u{10FFFF}";
    let expected: Vec<u16> = s.encode_utf16().collect();
    assert_eq!(encode_utf16_units(s), expected);
    assert_eq!(decode_utf16_units(&expected), s);
}

#[test]
fn utf16_lone_surrogate_becomes_replacement() {
    let units = [0x0061u16, 0xD800, 0x0062, 0xDC00];
    assert_eq!(decode_utf16_units(&units), "a\u{FFFD}b\u{FFFD}");
    assert_eq!(decode_utf16_units(&units), String::from_utf16_lossy(&units));
}

#[test]
fn little_endian_bytes_round_trip() {
    let units = [0x1234u16, 0x00FF, 0xFF00];
    let bytes = units_to_le(&units);
    assert_eq!(bytes, vec![0x34, 0x12, 0xFF, 0x00, 0x00, 0xFF]);
    assert_eq!(le_to_units(&bytes), units.to_vec());
    let mut odd = bytes.clone();
    odd.push(7);
    assert_eq!(le_to_units(&odd), units.to_vec());
}

#[test]
fn text_payload_is_nul_terminated_utf16le() {
    assert_eq!(text_payload("Ab"), vec![0x41, 0, 0x62, 0, 0, 0]);
    assert_eq!(text_payload(""), vec![0, 0]);
}

#[test]
fn text_from_bytes_stops_at_the_terminator() {
    let mut bytes = text_payload("hi 😀");
    bytes.extend_from_slice(&[0x41, 0x00, 0x42, 0x00]);
    assert_eq!(text_from_bytes(&bytes), "hi 😀");
}

#[test]
fn html_payload_is_nul_terminated_utf8() {
    assert_eq!(html_payload("<b>é</b>"), b"<b>\xc3\xa9</b>\0".to_vec());
}

#[test]
fn format_bytes_takes_prefix_before_nul() {
    assert_eq!(format_bytes(5, Some(b"abc\0def".to_vec())), Some(b"abc".to_vec()));
    assert_eq!(format_bytes(5, Some(b"abc".to_vec())), Some(b"abc".to_vec()));
    assert_eq!(format_bytes(5, Some(b"\0abc".to_vec())), None);
    assert_eq!(format_bytes(5, Some(Vec::new())), None);
    assert_eq!(format_bytes(0, Some(b"abc".to_vec())), None);
    assert_eq!(format_bytes(5, None), None);
}

#[test]
fn format_name_is_nul_terminated_utf16() {
    let expected: Vec<u16> = "HTML Format".encode_utf16().chain(std::iter::once(0)).collect();
    assert_eq!(ClipboardIO::format_name_utf16("HTML Format"), expected);
}

#[test]
fn unicode_text_format_is_thirteen() {
    assert_eq!(CF_UNICODETEXT, 13);
}
